//! Authentication tokens of the WebSocket server plugin: a token is drawn
//! from a 62-letter alphabet by a linear congruential mix of a clock reading,
//! a process-wide counter and the position in the token.
use vstd::prelude::*;
use crate::strings::chars_of;
use vstd::wrapping::u64_specs::{wrapping_add, wrapping_mul};

use crate::clock::{duration_as_nanos, since_unix_epoch, system_now};
use crate::strings::string_from_chars;

verus! {

/// Letter `k` (below 62) of the alphabet `A-Z a-z 0-9`.
pub open spec fn token_letter(k: int) -> char {
    if k < 26 {
        (65 + k) as char
    } else if k < 52 {
        (97 + k - 26) as char
    } else {
        (48 + k - 52) as char
    }
}

/// The mixed 64-bit value for position `i`, drawn with counter value `c`
/// from clock reading `t`.
pub open spec fn token_mix(t: u64, c: u64, i: u64) -> u64 {
    wrapping_add(
        wrapping_add(wrapping_mul(t, 6364136223846793005u64), wrapping_mul(c, 1442695040888963407u64)),
        wrapping_mul(i, 2891336453u64),
    )
}

/// Character `i` of a token drawn from clock reading `t` with counter values
/// starting at `counter_start`.
pub open spec fn token_char(t: u64, counter_start: u64, i: int) -> char {
    token_letter(
        ((token_mix(t, wrapping_add(counter_start, i as u64), i as u64) >> 33u64) as int) % 62,
    )
}

fn letter(k: u64) -> (r: char)
    requires
        k < 62,
    ensures
        r == token_letter(k as int),
{
    if k < 26 {
        ((65 + k) as u8) as char
    } else if k < 52 {
        ((97 + k - 26) as u8) as char
    } else {
        ((48 + k - 52) as u8) as char
    }
}

/// A token of `len` characters drawn from the clock reading `t`, the counter
/// taking the values `counter_start`, `counter_start + 1`, ... (wrapping).
pub fn token_from_seed(t: u64, counter_start: u64, len: usize) -> (r: String)
    ensures
        r@.len() == len,
        forall|i: int| 0 <= i < len ==> #[trigger] r@[i] == token_char(t, counter_start, i),
{
    let mut chars: Vec<char> = Vec::new();
    let mut i: u64 = 0;
    while i < len as u64
        invariant
            0 <= i <= len,
            chars@.len() == i,
            forall|k: int| 0 <= k < i ==> #[trigger] chars@[k] == token_char(t, counter_start, k),
        decreases len - i,
    {
        let c = counter_start.wrapping_add(i);
        let v = t.wrapping_mul(6364136223846793005u64).wrapping_add(
            c.wrapping_mul(1442695040888963407u64),
        ).wrapping_add(i.wrapping_mul(2891336453u64));
        let k = (v >> 33u64) % 62;
        chars.push(letter(k));
        i = i + 1;
    }
    string_from_chars(chars.as_slice())
}

/// Whether `tok` is the token drawn from clock reading `t` with counter
/// values from `counter_start`.
pub open spec fn is_token_from(tok: Seq<char>, t: u64, counter_start: u64) -> bool {
    forall|i: int| 0 <= i < tok.len() ==> #[trigger] tok[i] == token_char(t, counter_start, i)
}

/// A token of `len` characters drawn from the system clock's nanoseconds
/// since the Unix epoch (zero before it, the low 64 bits otherwise), the
/// counter taking the values `counter_start`, `counter_start + 1`, ...
pub fn gen_token(len: usize, counter_start: u64) -> (r: String)
    ensures
        r@.len() == len,
        exists|t: u64| #[trigger] is_token_from(r@, t, counter_start),
{
    let now = system_now();
    let t: u64 = match since_unix_epoch(&now) {
        Some(d) => duration_as_nanos(&d) as u64,
        None => 0,
    };
    let r = token_from_seed(t, counter_start, len);
    proof {
        assert(is_token_from(r@, t, counter_start));
    }
    r
}

/// The auth token the server starts with, and whether it was just made (and
/// so must be saved): the stored token when there is one, otherwise a fresh
/// token of 32 characters, its counter starting at `counter_start`.
pub fn startup_token(stored: &str, counter_start: u64) -> (r: (String, bool))
    ensures
        stored@.len() > 0 ==> r.0@ == stored@ && !r.1,
        stored@.len() == 0 ==> r.1 && r.0@.len() == 32 && exists|t: u64|
            #[trigger] is_token_from(r.0@, t, counter_start),
{
    let chars = chars_of(stored);
    if chars.len() > 0 {
        (stored.to_owned(), false)
    } else {
        (gen_token(32, counter_start), true)
    }
}

/// Every character of a token is an ASCII letter or digit.
pub proof fn lemma_token_alphanumeric(t: u64, counter_start: u64, i: int)
    ensures
        ('A' <= token_char(t, counter_start, i) <= 'Z') || ('a' <= token_char(t, counter_start, i)
            <= 'z') || ('0' <= token_char(t, counter_start, i) <= '9'),
{
    let k = ((token_mix(t, wrapping_add(counter_start, i as u64), i as u64) >> 33u64) as int) % 62;
    assert(0 <= k < 62);
}

} // verus!
