use billkeeper::error::AuthError;
use billkeeper::key::{
    draw_index, generate_random_key, key_from_draws, push_draw, ValidKey, DICT, DICT_LEN, KEY_LEN,
};

#[test]
fn the_alphabet_has_sixty_four_characters() {
    assert_eq!(DICT, "ABCDEFGHIJKLMNOPQRSTUVWXYZabcdefghijklmnopqrstuvwxyz0123456789_(");
    assert_eq!(DICT.len(), DICT_LEN);
    assert_eq!(DICT_LEN, 64);
    assert_eq!(KEY_LEN, 33);
}

#[test]
fn a_draw_selects_its_position_modulo_the_alphabet() {
    assert_eq!(draw_index(0), 0);
    assert_eq!(draw_index(1), 1);
    assert_eq!(draw_index(63), 63);
    assert_eq!(draw_index(64), 0);
    assert_eq!(draw_index(65), 1);
    assert_eq!(draw_index(i32::MAX), 63);
    assert_eq!(draw_index(-1), 63);
    assert_eq!(draw_index(-63), 1);
    assert_eq!(draw_index(-64), 0);
    assert_eq!(draw_index(-65), 63);
    assert_eq!(draw_index(i32::MIN), 0);
    for draw in [-1000, -129, -1, 0, 5, 77, 123456, i32::MIN, i32::MAX] {
        assert_eq!(draw_index(draw), draw as usize % DICT.len());
    }
}

#[test]
fn draws_spell_a_key() {
    assert_eq!(key_from_draws(&vec![]), "");
    assert_eq!(key_from_draws(&vec![0, 25, 26, 51, 52, 61, 62, 63]), "AZaz09_(");
    assert_eq!(key_from_draws(&vec![64, -1, -64, 128 + 2]), "A(AC");
    let mut key = "id-".to_string();
    push_draw(&mut key, 27);
    push_draw(&mut key, -2);
    assert_eq!(key, "id-b_");
}

#[test]
fn a_random_key_has_the_length_and_the_alphabet() {
    let mut seen = std::collections::HashSet::new();
    for _ in 0..50 {
        let key = generate_random_key();
        assert_eq!(key.chars().count(), KEY_LEN);
        assert!(key.chars().all(|c| DICT.contains(c)));
        seen.insert(key);
    }
    assert!(seen.len() > 1);
}

#[test]
fn an_empty_service_key_lets_everyone_pass() {
    assert_eq!(ValidKey::check("", None), Ok(ValidKey {}));
    assert_eq!(ValidKey::check("", Some("anything")), Ok(ValidKey {}));
    assert_eq!(ValidKey::check("", Some("")), Ok(ValidKey {}));
}

#[test]
fn a_service_key_has_to_be_matched() {
    let key = "WK1wJ5ipiVvSdmdCPqNx8up8qj8GCwbm_";
    assert_eq!(ValidKey::check(key, Some(key)), Ok(ValidKey {}));
    assert_eq!(ValidKey::check(key, Some("WK1wJ5")), Err(AuthError::InvalidKey));
    assert_eq!(ValidKey::check(key, Some("")), Err(AuthError::InvalidKey));
    assert_eq!(ValidKey::check(key, None), Err(AuthError::InvalidRequestHeader));
}
