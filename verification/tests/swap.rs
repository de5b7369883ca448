use billkeeper::swap::{
    append_chunk, encode_chunk, next_chunk, scan, SwapError, MAX_PAYLOAD, PREFIX_LEN,
};

#[test]
fn a_chunk_is_a_big_endian_length_and_the_payload() {
    assert_eq!(encode_chunk(&[]).unwrap(), vec![0, 0, 0, 0]);
    assert_eq!(encode_chunk(&[7, 8, 9]).unwrap(), vec![0, 0, 0, 3, 7, 8, 9]);
    let payload = vec![0xabu8; 0x0102_03];
    let chunk = encode_chunk(&payload).unwrap();
    assert_eq!(&chunk[..4], &[0x00, 0x01, 0x02, 0x03]);
    assert_eq!(&chunk[4..], &payload[..]);
    assert_eq!(PREFIX_LEN, 4);
    assert_eq!(MAX_PAYLOAD, u32::MAX as usize);
}

#[test]
fn appended_batches_are_read_back_in_order() {
    let batches: Vec<Vec<u8>> = vec![vec![1, 2, 3], vec![], vec![0xff; 300], vec![0]];
    let mut log = Vec::new();
    for (i, batch) in batches.iter().enumerate() {
        assert_eq!(append_chunk(&mut log, batch), Ok(()));
        assert_eq!(scan(&log).unwrap(), batches[..=i].to_vec());
    }
    assert_eq!(log.len(), 4 * 4 + 3 + 300 + 1);
    // every scan starts from the beginning again
    assert_eq!(scan(&log).unwrap(), batches);
}

#[test]
fn an_empty_log_holds_no_chunk() {
    assert_eq!(scan(&[]), Ok(vec![]));
    assert_eq!(next_chunk(&[], 0), Ok(None));
}

#[test]
fn a_partial_prefix_is_the_end_of_the_log() {
    let mut log = encode_chunk(&[5, 6]).unwrap();
    log.extend_from_slice(&[0, 0, 9]);
    assert_eq!(scan(&log), Ok(vec![vec![5, 6]]));
    assert_eq!(next_chunk(&log, 6), Ok(None));
}

#[test]
fn a_cut_payload_is_an_error() {
    let log = vec![0, 0, 0, 5, 1, 2, 3];
    assert_eq!(scan(&log), Err(SwapError::Truncated));
    assert_eq!(next_chunk(&log, 0), Err(SwapError::Truncated));
    // also behind a chunk that is whole
    let mut log = encode_chunk(&[1]).unwrap();
    log.extend_from_slice(&[0, 0, 1, 0, 7]);
    assert_eq!(next_chunk(&log, 0), Ok(Some((vec![1], 5))));
    assert_eq!(next_chunk(&log, 5), Err(SwapError::Truncated));
    assert_eq!(scan(&log), Err(SwapError::Truncated));
}

#[test]
fn next_chunk_walks_the_log() {
    let mut log = Vec::new();
    append_chunk(&mut log, &[1, 2]).unwrap();
    append_chunk(&mut log, &[3]).unwrap();
    assert_eq!(next_chunk(&log, 0), Ok(Some((vec![1, 2], 6))));
    assert_eq!(next_chunk(&log, 6), Ok(Some((vec![3], 11))));
    assert_eq!(next_chunk(&log, 11), Ok(None));
    // a position beyond the log is its end
    assert_eq!(next_chunk(&log, 12), Ok(None));
    assert_eq!(next_chunk(&log, usize::MAX), Ok(None));
    // a position inside a chunk reads what stands there
    assert_eq!(next_chunk(&log, 2), Err(billkeeper::swap::SwapError::Truncated));
}
