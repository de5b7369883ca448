//! The overflow log: an append-only byte stream of length-prefixed chunks.
//!
//! Layout: `repeat { 4-byte big-endian payload length; payload }` until the
//! end of the stream. A chunk is written once and never changed. Reading
//! starts at the beginning every time and walks forward chunk by chunk.

use vstd::prelude::*;

verus! {

/// Number of bytes of the length prefix in front of each payload.
pub const PREFIX_LEN: usize = 4;

/// Largest payload that one chunk can carry.
pub const MAX_PAYLOAD: usize = 0xffff_ffff;

/// Why a chunk could not be written or read.
#[derive(Debug, Clone, Copy, PartialEq, Eq, Structural)]
pub enum SwapError {
    /// The payload is longer than a four-byte prefix can announce.
    ChunkTooLarge,
    /// A prefix announces more payload bytes than the log still holds.
    Truncated,
}

/// The four bytes, most significant first, that stand for `n`.
pub open spec fn prefix_bytes(n: nat) -> Seq<u8> {
    seq![
        ((n / 0x100_0000) % 0x100) as u8,
        ((n / 0x1_0000) % 0x100) as u8,
        ((n / 0x100) % 0x100) as u8,
        (n % 0x100) as u8,
    ]
}

/// The number that the first four bytes of `b` stand for.
pub open spec fn prefix_value(b: Seq<u8>) -> nat {
    ((b[0] as nat) * 0x100_0000 + (b[1] as nat) * 0x1_0000 + (b[2] as nat) * 0x100
        + (b[3] as nat)) as nat
}

/// One chunk as it lies in the log: the prefix, then the payload.
pub open spec fn chunk_bytes(payload: Seq<u8>) -> Seq<u8> {
    prefix_bytes(payload.len()) + payload
}

/// Whether every payload is short enough to be written.
pub open spec fn all_fit(chunks: Seq<Seq<u8>>) -> bool {
    forall|i: int| 0 <= i < chunks.len() ==> (#[trigger] chunks[i]).len() <= MAX_PAYLOAD
}

/// The log that holds exactly `chunks`, oldest first.
pub open spec fn log_of(chunks: Seq<Seq<u8>>) -> Seq<u8>
    decreases chunks.len(),
{
    if chunks.len() == 0 {
        Seq::empty()
    } else {
        chunk_bytes(chunks[0]) + log_of(chunks.drop_first())
    }
}

/// What reading one chunk at the front of `log` gives.
///
/// Fewer than four bytes left is the end of the log (a partial prefix counts
/// as the end). A prefix that announces more than what is left is an error.
pub open spec fn first_chunk(log: Seq<u8>) -> Result<Option<(Seq<u8>, Seq<u8>)>, SwapError> {
    if log.len() < PREFIX_LEN {
        Ok(None)
    } else {
        let n = prefix_value(log) as int;
        if log.len() - PREFIX_LEN < n {
            Err(SwapError::Truncated)
        } else {
            Ok(Some((log.subrange(4, 4 + n), log.skip(4 + n))))
        }
    }
}

/// The payloads of `log` in the order in which they were appended, or the
/// error that a forward read runs into.
pub open spec fn scan_spec(log: Seq<u8>) -> Result<Seq<Seq<u8>>, SwapError>
    decreases log.len(),
{
    match first_chunk(log) {
        Err(e) => Err(e),
        Ok(None) => Ok(Seq::empty()),
        Ok(Some((payload, rest))) => {
            if rest.len() < log.len() {
                match scan_spec(rest) {
                    Err(e) => Err(e),
                    Ok(more) => Ok(seq![payload] + more),
                }
            } else {
                Ok(Seq::empty())
            }
        },
    }
}

/// The prefix of a length that fits is four bytes long and reads back as that length.
pub proof fn lemma_prefix_roundtrip(n: nat)
    requires
        n <= MAX_PAYLOAD,
    ensures
        prefix_bytes(n).len() == PREFIX_LEN,
        prefix_value(prefix_bytes(n)) == n,
{
}

/// Reading at the front of a chunk followed by anything gives that chunk's
/// payload and leaves what followed.
pub proof fn lemma_first_chunk_of_chunk(payload: Seq<u8>, rest: Seq<u8>)
    requires
        payload.len() <= MAX_PAYLOAD,
    ensures
        first_chunk(chunk_bytes(payload) + rest) == Ok::<_, SwapError>(Some((payload, rest))),
{
    let log = chunk_bytes(payload) + rest;
    let n = payload.len();
    lemma_prefix_roundtrip(n);
    assert(log[0] == prefix_bytes(n)[0]);
    assert(log[1] == prefix_bytes(n)[1]);
    assert(log[2] == prefix_bytes(n)[2]);
    assert(log[3] == prefix_bytes(n)[3]);
    assert(prefix_value(log) == n);
    assert(log.subrange(4, 4 + n as int) =~= payload);
    assert(log.skip(4 + n as int) =~= rest);
}

/// Appending one chunk to the log of `chunks` gives the log of `chunks`
/// with that payload added as the newest.
pub proof fn lemma_log_of_push(chunks: Seq<Seq<u8>>, payload: Seq<u8>)
    ensures
        log_of(chunks.push(payload)) == log_of(chunks) + chunk_bytes(payload),
    decreases chunks.len(),
{
    let all = chunks.push(payload);
    if chunks.len() == 0 {
        assert(all.drop_first() =~= Seq::<Seq<u8>>::empty());
        assert(log_of(all.drop_first()) =~= Seq::<u8>::empty());
        assert(log_of(all) =~= chunk_bytes(payload));
        assert(log_of(chunks) + chunk_bytes(payload) =~= chunk_bytes(payload));
    } else {
        lemma_log_of_push(chunks.drop_first(), payload);
        assert(all.drop_first() =~= chunks.drop_first().push(payload));
        assert(all[0] == chunks[0]);
        assert(log_of(all) =~= log_of(chunks) + chunk_bytes(payload));
    }
}

/// Everything that was appended is read back, chunk for chunk and byte for
/// byte, in the order of the appends.
pub proof fn lemma_scan_log_of(chunks: Seq<Seq<u8>>)
    requires
        all_fit(chunks),
    ensures
        scan_spec(log_of(chunks)) == Ok::<_, SwapError>(chunks),
    decreases chunks.len(),
{
    if chunks.len() == 0 {
        assert(scan_spec(log_of(chunks)).unwrap() =~= chunks);
    } else {
        let rest = chunks.drop_first();
        assert(all_fit(rest)) by {
            assert forall|i: int| 0 <= i < rest.len() implies (#[trigger] rest[i]).len()
                <= MAX_PAYLOAD by {
                assert(rest[i] == chunks[i + 1]);
            }
        }
        lemma_scan_log_of(rest);
        lemma_first_chunk_of_chunk(chunks[0], log_of(rest));
        lemma_prefix_roundtrip(chunks[0].len());
        assert(log_of(rest).len() < log_of(chunks).len());
        assert(seq![chunks[0]] + rest =~= chunks);
    }
}

/// A log of well-sized chunks, extended by one more chunk, reads back as the
/// old chunks followed by the new payload.
pub proof fn lemma_append_then_scan(chunks: Seq<Seq<u8>>, payload: Seq<u8>)
    requires
        all_fit(chunks),
        payload.len() <= MAX_PAYLOAD,
    ensures
        scan_spec(log_of(chunks) + chunk_bytes(payload)) == Ok::<_, SwapError>(
            chunks.push(payload),
        ),
{
    lemma_log_of_push(chunks, payload);
    let all = chunks.push(payload);
    assert(all_fit(all)) by {
        assert forall|i: int| 0 <= i < all.len() implies (#[trigger] all[i]).len()
            <= MAX_PAYLOAD by {
            if i < chunks.len() {
                assert(all[i] == chunks[i]);
            }
        }
    }
    lemma_scan_log_of(all);
}

/// The length prefix of a payload of `n` bytes.
fn encode_prefix(n: u32) -> (out: Vec<u8>)
    ensures
        out@ == prefix_bytes(n as nat),
{
    let mut out: Vec<u8> = Vec::with_capacity(4);
    out.push((n / 0x100_0000) as u8);
    out.push(((n / 0x1_0000) % 0x100) as u8);
    out.push(((n / 0x100) % 0x100) as u8);
    out.push((n % 0x100) as u8);
    assert(out@ =~= prefix_bytes(n as nat));
    out
}

/// Reads the length prefix that starts at `pos`.
fn decode_prefix(log: &[u8], pos: usize) -> (n: u32)
    requires
        pos + PREFIX_LEN <= log@.len(),
    ensures
        n as nat == prefix_value(log@.skip(pos as int)),
{
    let b0: u32 = log[pos] as u32;
    let b1: u32 = log[pos + 1] as u32;
    let b2: u32 = log[pos + 2] as u32;
    let b3: u32 = log[pos + 3] as u32;
    b0 * 0x100_0000 + b1 * 0x1_0000 + b2 * 0x100 + b3
}

/// The bytes to append to the log for one batch: the length prefix and then
/// the payload, or `ChunkTooLarge` if the prefix cannot announce the length.
pub fn encode_chunk(payload: &[u8]) -> (out: Result<Vec<u8>, SwapError>)
    ensures
        payload@.len() <= MAX_PAYLOAD ==> out == Ok::<_, SwapError>(out.unwrap()) && out.unwrap()@
            == chunk_bytes(payload@),
        payload@.len() > MAX_PAYLOAD ==> out == Err::<Vec<u8>, _>(SwapError::ChunkTooLarge),
{
    let n = payload.len();
    if n > MAX_PAYLOAD {
        return Err(SwapError::ChunkTooLarge);
    }
    let mut out = encode_prefix(n as u32);
    let mut i: usize = 0;
    while i < n
        invariant
            n == payload@.len(),
            i <= n,
            out@ == prefix_bytes(n as nat) + payload@.take(i as int),
        decreases n - i,
    {
        out.push(payload[i]);
        assert(payload@.take(i as int + 1) =~= payload@.take(i as int).push(payload@[i as int]));
        i += 1;
    }
    assert(payload@.take(n as int) =~= payload@);
    Ok(out)
}

/// Appends one batch to an in-memory image of the log.
///
/// On success the log grew by exactly one chunk; on `ChunkTooLarge` it is unchanged.
pub fn append_chunk(log: &mut Vec<u8>, payload: &[u8]) -> (out: Result<(), SwapError>)
    ensures
        payload@.len() <= MAX_PAYLOAD ==> out == Ok::<(), SwapError>(()) && final(log)@ == old(log)@
            + chunk_bytes(payload@),
        payload@.len() > MAX_PAYLOAD ==> out == Err::<(), _>(SwapError::ChunkTooLarge) && final(log)@
            == old(log)@,
{
    match encode_chunk(payload) {
        Ok(mut bytes) => {
            log.append(&mut bytes);
            Ok(())
        },
        Err(e) => Err(e),
    }
}

/// Reads the chunk that starts at `pos`.
///
/// Returns the payload and the position of the next chunk, `None` at the end
/// of the log, or `Truncated` if the log ends inside the announced payload.
/// A position beyond the log is the end of the log.
pub fn next_chunk(log: &[u8], pos: usize) -> (out: Result<Option<(Vec<u8>, usize)>, SwapError>)
    ensures
        pos > log@.len() ==> out == Ok::<Option<(Vec<u8>, usize)>, SwapError>(None),
        pos <= log@.len() ==> match first_chunk(log@.skip(pos as int)) {
            Err(e) => out == Err::<Option<(Vec<u8>, usize)>, _>(e),
            Ok(None) => out == Ok::<Option<(Vec<u8>, usize)>, SwapError>(None),
            Ok(Some((payload, rest))) => {
                &&& out matches Ok(Some((p, next)))
                &&& p@ == payload
                &&& pos < next <= log@.len()
                &&& log@.skip(next as int) == rest
            },
        },
{
    let total = log.len();
    if pos > total || total - pos < PREFIX_LEN {
        return Ok(None);
    }
    let n = decode_prefix(log, pos) as usize;
    if total - pos - PREFIX_LEN < n {
        return Err(SwapError::Truncated);
    }
    let start = pos + PREFIX_LEN;
    let mut payload: Vec<u8> = Vec::with_capacity(n);
    let mut i: usize = 0;
    while i < n
        invariant
            start + n <= total,
            total == log@.len(),
            i <= n,
            payload@ == log@.subrange(start as int, start + i),
        decreases n - i,
    {
        payload.push(log[start + i]);
        assert(log@.subrange(start as int, start + i + 1) =~= log@.subrange(
            start as int,
            start + i,
        ).push(log@[start + i]));
        i += 1;
    }
    let ghost tail = log@.skip(pos as int);
    assert(tail.subrange(4, 4 + n) =~= log@.subrange(start as int, start + n));
    assert(tail.skip(4 + n) =~= log@.skip((start + n) as int));
    Ok(Some((payload, start + n)))
}

/// Reads the whole log from its beginning.
///
/// Returns every payload in the order of the appends, or the error of the
/// first chunk that cannot be read.
pub fn scan(log: &[u8]) -> (out: Result<Vec<Vec<u8>>, SwapError>)
    ensures
        match scan_spec(log@) {
            Err(e) => out == Err::<Vec<Vec<u8>>, _>(e),
            Ok(chunks) => {
                &&& out matches Ok(v)
                &&& v@.len() == chunks.len()
                &&& forall|i: int| 0 <= i < chunks.len() ==> (#[trigger] v@[i])@ == chunks[i]
            },
        },
{
    let mut chunks: Vec<Vec<u8>> = Vec::new();
    let mut pos: usize = 0;
    let ghost mut done: Seq<Seq<u8>> = Seq::empty();
    assert(log@.skip(0) =~= log@);
    loop
        invariant
            pos <= log@.len(),
            chunks@.len() == done.len(),
            forall|i: int| 0 <= i < done.len() ==> (#[trigger] chunks@[i])@ == done[i],
            match scan_spec(log@.skip(pos as int)) {
                Err(e) => scan_spec(log@) == Err::<Seq<Seq<u8>>, _>(e),
                Ok(more) => scan_spec(log@) == Ok::<_, SwapError>(done + more),
            },
        decreases log@.len() - pos,
    {
        match next_chunk(log, pos) {
            Err(e) => {
                return Err(e);
            },
            Ok(None) => {
                assert(done + Seq::<Seq<u8>>::empty() =~= done);
                return Ok(chunks);
            },
            Ok(Some((payload, next))) => {
                proof {
                    let rest = log@.skip(next as int);
                    assert(rest.len() < log@.skip(pos as int).len());
                    match scan_spec(rest) {
                        Err(e) => {},
                        Ok(more) => {
                            assert(done + (seq![payload@] + more) =~= done.push(payload@) + more);
                        },
                    }
                    done = done.push(payload@);
                }
                chunks.push(payload);
                pos = next;
            },
        }
    }
}

} // verus!
