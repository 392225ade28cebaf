//! The input server's settings as the settings page hands them over: the
//! key whitelist and whether the server must listen anew.
use vstd::prelude::*;
use crate::layout::{nonempty_pieces, nonempty_strings, split_chars, texts};
use crate::link::split_on;
use crate::numbers::{trim, trim_chars};
use crate::strings::{chars_of, str_eq};

verus! {

/// Each piece, trimmed of whitespace at both ends.
pub open spec fn trimmed_pieces(pieces: Seq<Seq<char>>) -> Seq<Seq<char>> {
    pieces.map_values(|p: Seq<char>| trim(p))
}

/// The keys of a whitelist written as comma-separated names: each name
/// trimmed, empty names dropped, in order.
pub open spec fn whitelist_keys(text: Seq<char>) -> Seq<Seq<char>> {
    nonempty_pieces(trimmed_pieces(split_on(text, ',')))
}

/// Reads the key whitelist `text`, comma-separated names with any spacing.
pub fn parse_key_whitelist(text: &str) -> (r: Vec<String>)
    ensures
        texts(r@) == whitelist_keys(text@),
{
    let pieces = split_chars(&chars_of(text), ',');
    let ghost all = pieces@.map_values(|p: Vec<char>| p@);
    let n = pieces.len();
    let mut trimmed: Vec<Vec<char>> = Vec::new();
    let mut i: usize = 0;
    while i < n
        invariant
            n == pieces@.len(),
            all == pieces@.map_values(|p: Vec<char>| p@),
            0 <= i <= n,
            trimmed@.map_values(|p: Vec<char>| p@) == trimmed_pieces(all.take(i as int)),
        decreases n - i,
    {
        let t = trim_chars(&pieces[i]);
        let ghost prev = trimmed@;
        trimmed.push(t);
        proof {
            assert(all.take(i as int + 1) =~= all.take(i as int).push(pieces@[i as int]@));
            assert(trimmed@.map_values(|p: Vec<char>| p@) =~= prev.map_values(|p: Vec<char>| p@).push(
                t@,
            ));
            assert(trimmed_pieces(all.take(i as int + 1)) =~= trimmed_pieces(all.take(i as int)).push(
                trim(pieces@[i as int]@),
            ));
        }
        i = i + 1;
    }
    proof {
        assert(all.take(n as int) =~= all);
    }
    nonempty_strings(&trimmed)
}

/// Whether the server must listen anew after its settings changed from
/// `old_host:old_port` to `host:port`: when either part changed.
pub fn needs_rebind(old_host: &str, old_port: u16, host: &str, port: u16) -> (r: bool)
    ensures
        r == (old_host@ != host@ || old_port != port),
{
    !str_eq(old_host, host) || old_port != port
}

} // verus!
