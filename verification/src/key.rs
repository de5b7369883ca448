//! Random job ids and the check of the bearer key.

use crate::error::AuthError;
use crate::text::str_eq;
use rand::rngs::StdRng;
use rand::RngExt;
use vstd::prelude::*;
use vstd::string::*;

verus! {

/// Number of characters of a generated key.
pub const KEY_LEN: usize = 33;

/// Number of characters in the alphabet of generated keys.
pub const DICT_LEN: usize = 64;

/// The alphabet of generated keys.
pub const DICT: &'static str = "ABCDEFGHIJKLMNOPQRSTUVWXYZabcdefghijklmnopqrstuvwxyz0123456789_(";

/// The alphabet as a sequence of characters.
pub open spec fn dict() -> Seq<char> {
    "ABCDEFGHIJKLMNOPQRSTUVWXYZabcdefghijklmnopqrstuvwxyz0123456789_("@
}

/// The position in the alphabet that a random draw selects: the draw modulo
/// the size of the alphabet, counted upwards from zero also for negative draws.
pub open spec fn dict_index(draw: i32) -> int {
    (draw as int) % 64
}

/// The key that a sequence of draws spells.
pub open spec fn key_of(draws: Seq<i32>) -> Seq<char> {
    Seq::new(draws.len(), |i: int| dict()[dict_index(draws[i])])
}

/// Whether `key` has the shape of a generated key: `KEY_LEN` characters, all
/// of them from the alphabet.
pub open spec fn is_key(key: Seq<char>) -> bool {
    &&& key.len() == KEY_LEN
    &&& forall|i: int| 0 <= i < key.len() ==> dict().contains(#[trigger] key[i])
}

/// `rand::rngs::StdRng`, made known so that a generator can be carried
/// from one draw to the next. Nothing is known of what it holds.
#[verifier::external_type_specification]
#[verifier::external_body]
pub struct ExStdRng(StdRng);

/// Calls `rand::make_rng` for a `StdRng` seeded from the thread's generator.
/// Nothing is claimed of the generator that comes back. The call gives up
/// only where the operating system has no entropy to give.
#[verifier::external_body]
fn seeded_rng() -> StdRng {
    rand::make_rng()
}

/// Calls `RngExt::random::<i32>` on the generator. Nothing is claimed of the
/// number that comes back.
#[verifier::external_body]
fn next_draw(rng: &mut StdRng) -> i32 {
    rng.random::<i32>()
}

/// The alphabet has `DICT_LEN` characters, all of them ASCII.
proof fn lemma_dict()
    ensures
        dict().len() == DICT_LEN,
        DICT@ == dict(),
        is_ascii(DICT),
{
    reveal_strlit("ABCDEFGHIJKLMNOPQRSTUVWXYZabcdefghijklmnopqrstuvwxyz0123456789_(");
}

/// The position in the alphabet that `draw` selects.
pub fn draw_index(draw: i32) -> (i: usize)
    ensures
        i == dict_index(draw),
        i < DICT_LEN,
{
    if draw >= 0 {
        (draw as usize) % DICT_LEN
    } else {
        let below: usize = (-(draw + 1)) as usize;
        DICT_LEN - 1 - below % DICT_LEN
    }
}

/// Adds to `key` the character that `draw` selects.
pub fn push_draw(key: &mut String, draw: i32)
    ensures
        final(key)@ == old(key)@.push(dict()[dict_index(draw)]),
{
    proof {
        lemma_dict();
    }
    let i = draw_index(draw);
    let piece = DICT.substring_ascii(i, i + 1);
    assert(piece@ =~= seq![dict()[dict_index(draw)]]);
    key.append(piece);
    assert(key@ =~= old(key)@.push(dict()[dict_index(draw)]));
}

/// The key that `draws` spells, one character for each draw.
pub fn key_from_draws(draws: &Vec<i32>) -> (key: String)
    ensures
        key@ == key_of(draws@),
{
    let mut key = String::new();
    let n = draws.len();
    let mut i: usize = 0;
    while i < n
        invariant
            n == draws@.len(),
            i <= n,
            key@ == key_of(draws@.take(i as int)),
        decreases n - i,
    {
        push_draw(&mut key, draws[i]);
        assert(key@ =~= key_of(draws@.take(i as int + 1)));
        i += 1;
    }
    assert(draws@.take(n as int) =~= draws@);
    key
}

/// A fresh random key: `KEY_LEN` draws from a newly seeded generator, each
/// mapped to its character of the alphabet.
///
/// Keys are not checked against keys handed out earlier.
pub fn generate_random_key() -> (key: String)
    ensures
        is_key(key@),
        exists|draws: Seq<i32>| draws.len() == KEY_LEN && key@ == key_of(draws),
{
    let mut rng = seeded_rng();
    let mut draws: Vec<i32> = Vec::with_capacity(KEY_LEN);
    while draws.len() < KEY_LEN
        invariant
            draws@.len() <= KEY_LEN,
        decreases KEY_LEN - draws@.len(),
    {
        draws.push(next_draw(&mut rng));
    }
    let key = key_from_draws(&draws);
    proof {
        lemma_dict();
        assert forall|i: int| 0 <= i < key@.len() implies dict().contains(#[trigger] key@[i]) by {
            assert(key@[i] == dict()[dict_index(draws@[i])]);
        }
    }
    key
}

/// The mark of a request that has passed the check of its bearer key.
#[derive(Debug, Clone, Copy, PartialEq, Eq, Structural)]
pub struct ValidKey {}

impl ValidKey {
    /// Whether a request with the bearer token `bearer` passes a service
    /// whose key is `auth_key`. An empty service key lets every request pass.
    pub open spec fn admits(auth_key: Seq<char>, bearer: Option<Seq<char>>) -> bool {
        auth_key.len() == 0 || bearer == Some(auth_key)
    }

    /// Checks the bearer token of a request against the key of the service.
    ///
    /// With an empty service key the token is not looked at. Otherwise a
    /// request without a readable bearer header is `InvalidRequestHeader`,
    /// and one with a token other than the key is `InvalidKey`.
    pub fn check(auth_key: &str, bearer: Option<&str>) -> (out: Result<ValidKey, AuthError>)
        ensures
            out is Ok <==> Self::admits(
                auth_key@,
                match bearer {
                    Some(t) => Some(t@),
                    None => None,
                },
            ),
            out is Err && bearer is None ==> out == Err::<ValidKey, _>(
                AuthError::InvalidRequestHeader,
            ),
            out is Err && bearer is Some ==> out == Err::<ValidKey, _>(AuthError::InvalidKey),
    {
        if auth_key.is_empty() {
            return Ok(ValidKey {  });
        }
        match bearer {
            None => Err(AuthError::InvalidRequestHeader),
            Some(token) => {
                if str_eq(token, auth_key) {
                    Ok(ValidKey {  })
                } else {
                    Err(AuthError::InvalidKey)
                }
            },
        }
    }
}

} // verus!
