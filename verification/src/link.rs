//! Decoding of overlay links: the query string of a configurator URL,
//! percent-decoding, the compressed `cfg` parameter and the small lookups the
//! settings parser makes.
use vstd::prelude::*;
use base64::Engine;
use std::io::Read;

use crate::strings::{
    lemma_first_index_of_bounds,
    chars_eq, chars_of, find_char, first_index_of, from_utf8_lossy, has_prefix, lowercase,
    starts_with_chars, string_from_chars, sub_chars, to_lowercase, utf8_lossy,
};

verus! {

// ---------------------------------------------------------------------------
// percent-decoding
// ---------------------------------------------------------------------------

/// Value of an ASCII hexadecimal digit.
pub open spec fn hex_digit(b: u8) -> Option<int> {
    if 0x30 <= b <= 0x39 {
        Some(b - 0x30)
    } else if 0x61 <= b <= 0x66 {
        Some(b - 0x61 + 10)
    } else if 0x41 <= b <= 0x46 {
        Some(b - 0x41 + 10)
    } else {
        None
    }
}

/// The byte that `u8::from_str_radix(.., 16)` reads from the two bytes
/// `b1 b2`: two hex digits, or a `+` sign followed by one.
pub open spec fn hex_pair(b1: u8, b2: u8) -> Option<u8> {
    if b1 == 0x2b {
        match hex_digit(b2) {
            Some(l) => Some(l as u8),
            None => None,
        }
    } else {
        match (hex_digit(b1), hex_digit(b2)) {
            (Some(h), Some(l)) => Some((h * 16 + l) as u8),
            _ => None,
        }
    }
}

/// Percent-decoding of a byte string: `+` becomes a space, `%` followed by
/// two more bytes that read as a hex byte becomes that byte, every other byte
/// stays.
pub open spec fn pct_decode(b: Seq<u8>) -> Seq<u8>
    decreases b.len(),
{
    if b.len() == 0 {
        Seq::empty()
    } else if b[0] == 0x2b {
        seq![0x20u8] + pct_decode(b.drop_first())
    } else if b[0] == 0x25 && 2 < b.len() && hex_pair(b[1], b[2]) is Some {
        seq![hex_pair(b[1], b[2]).unwrap()] + pct_decode(b.subrange(3, b.len() as int))
    } else {
        seq![b[0]] + pct_decode(b.drop_first())
    }
}

/// The text that percent-decoding the characters `s` gives.
pub open spec fn percent_decoded(s: Seq<char>) -> Seq<char> {
    utf8_lossy(pct_decode(vstd::utf8::encode_utf8(s)))
}

fn hex_digit_exec(b: u8) -> (r: Option<u8>)
    ensures
        match r {
            Some(v) => hex_digit(b) == Some(v as int),
            None => hex_digit(b) is None,
        },
{
    if 0x30 <= b && b <= 0x39 {
        Some(b - 0x30)
    } else if 0x61 <= b && b <= 0x66 {
        Some(b - 0x61 + 10)
    } else if 0x41 <= b && b <= 0x46 {
        Some(b - 0x41 + 10)
    } else {
        None
    }
}

pub fn hex_pair_exec(b1: u8, b2: u8) -> (r: Option<u8>)
    ensures
        r == hex_pair(b1, b2),
{
    if b1 == 0x2b {
        match hex_digit_exec(b2) {
            Some(l) => Some(l),
            None => None,
        }
    } else {
        match (hex_digit_exec(b1), hex_digit_exec(b2)) {
            (Some(h), Some(l)) => Some(h * 16 + l),
            _ => None,
        }
    }
}

proof fn lemma_pct_decode_step(b: Seq<u8>, i: int)
    requires
        0 <= i < b.len(),
    ensures
        pct_decode(b.subrange(i, b.len() as int)) == (if b[i] == 0x2b {
            seq![0x20u8] + pct_decode(b.subrange(i + 1, b.len() as int))
        } else if b[i] == 0x25 && i + 2 < b.len() && hex_pair(b[i + 1], b[i + 2]) is Some {
            seq![hex_pair(b[i + 1], b[i + 2]).unwrap()] + pct_decode(b.subrange(i + 3, b.len() as int))
        } else {
            seq![b[i]] + pct_decode(b.subrange(i + 1, b.len() as int))
        }),
{
    let t = b.subrange(i, b.len() as int);
    assert(t.drop_first() =~= b.subrange(i + 1, b.len() as int));
    if t.len() > 2 {
        assert(t.subrange(3, t.len() as int) =~= b.subrange(i + 3, b.len() as int));
    }
}

/// Bytes with no `%` and no `+` decode to themselves.
pub proof fn lemma_pct_decode_plain(b: Seq<u8>)
    requires
        forall|i: int| 0 <= i < b.len() ==> #[trigger] b[i] != 0x25 && b[i] != 0x2b,
    ensures
        pct_decode(b) == b,
    decreases b.len(),
{
    if b.len() > 0 {
        let t = b.drop_first();
        assert forall|i: int| 0 <= i < t.len() implies #[trigger] t[i] != 0x25 && t[i] != 0x2b by {
            assert(t[i] == b[i + 1]);
        }
        lemma_pct_decode_plain(t);
        assert(seq![b[0]] + t =~= b);
    }
}

/// Percent-decodes the bytes of `s` and reads the result as UTF-8, replacing
/// invalid sequences: decoded bytes that are valid UTF-8 are read exactly.
/// Text with no `%` and no `+` comes back unchanged.
pub fn percent_decode(s: &str) -> (r: String)
    ensures
        r@ == percent_decoded(s@),
        vstd::utf8::valid_utf8(pct_decode(vstd::utf8::encode_utf8(s@))) ==> r@
            == vstd::utf8::decode_utf8(pct_decode(vstd::utf8::encode_utf8(s@))),
        (forall|i: int|
            0 <= i < vstd::utf8::encode_utf8(s@).len() ==> #[trigger] vstd::utf8::encode_utf8(s@)[i]
                != 0x25 && vstd::utf8::encode_utf8(s@)[i] != 0x2b) ==> r@ == s@,
{
    let bytes = s.as_bytes();
    let mut out: Vec<u8> = Vec::new();
    let mut i: usize = 0;
    proof {
        assert(bytes@.subrange(0, bytes@.len() as int) =~= bytes@);
        assert(out@ + pct_decode(bytes@) =~= pct_decode(bytes@));
    }
    while i < bytes.len()
        invariant
            0 <= i <= bytes@.len(),
            out@ + pct_decode(bytes@.subrange(i as int, bytes@.len() as int)) == pct_decode(bytes@),
        decreases bytes@.len() - i,
    {
        proof {
            lemma_pct_decode_step(bytes@, i as int);
        }
        let b = bytes[i];
        if b == 0x2b {
            out.push(0x20);
            i = i + 1;
        } else if b == 0x25 && bytes.len() - i > 2 {
            match hex_pair_exec(bytes[i + 1], bytes[i + 2]) {
                Some(v) => {
                    out.push(v);
                    i = i + 3;
                },
                None => {
                    out.push(b);
                    i = i + 1;
                },
            }
        } else {
            out.push(b);
            i = i + 1;
        }
        proof {
            assert(out@ + pct_decode(bytes@.subrange(i as int, bytes@.len() as int)) =~= pct_decode(
                bytes@,
            ));
        }
    }
    proof {
        assert(bytes@.subrange(bytes@.len() as int, bytes@.len() as int) =~= Seq::<u8>::empty());
        assert(pct_decode(Seq::<u8>::empty()) =~= Seq::<u8>::empty());
        assert(out@ =~= pct_decode(bytes@));
        assert(bytes@.subrange(0, bytes@.len() as int) =~= bytes@);
        if forall|i: int|
            0 <= i < vstd::utf8::encode_utf8(s@).len() ==> #[trigger] vstd::utf8::encode_utf8(s@)[i]
                != 0x25 && vstd::utf8::encode_utf8(s@)[i] != 0x2b {
            lemma_pct_decode_plain(bytes@);
            vstd::utf8::encode_utf8_valid_utf8(s@);
            vstd::utf8::encode_utf8_decode_utf8(s@);
        }
    }
    from_utf8_lossy(out.as_slice())
}

// ---------------------------------------------------------------------------
// query strings
// ---------------------------------------------------------------------------

/// The part of `s` after its first `?`, or all of `s` if it has none.
pub open spec fn after_question(s: Seq<char>) -> Seq<char> {
    match first_index_of(s, '?') {
        Some(i) => s.subrange(i + 1, s.len() as int),
        None => s,
    }
}

/// The part of `s` before its first `#`, or all of `s` if it has none.
pub open spec fn before_hash(s: Seq<char>) -> Seq<char> {
    match first_index_of(s, '#') {
        Some(j) => s.subrange(0, j),
        None => s,
    }
}

/// The query string of a link: what follows the first `?` (the whole link
/// when there is none), cut at the first `#`.
pub open spec fn query_of(link: Seq<char>) -> Seq<char> {
    before_hash(after_question(link))
}

/// The pieces of `s` between occurrences of `sep`, as `str::split` gives them.
pub open spec fn split_on(s: Seq<char>, sep: char) -> Seq<Seq<char>>
    decreases s.len(),
{
    match first_index_of(s, sep) {
        Some(i) => {
            proof {
                lemma_first_index_of_bounds(s, sep);
            }
            seq![s.subrange(0, i)] + split_on(s.subrange(i + 1, s.len() as int), sep)
        },
        None => seq![s],
    }
}

/// Key and value of one `key=value` piece: split at the first `=`; a piece
/// without `=` is a key with an empty value.
pub open spec fn pair_of(piece: Seq<char>) -> (Seq<char>, Seq<char>) {
    match first_index_of(piece, '=') {
        Some(i) => (piece.subrange(0, i), piece.subrange(i + 1, piece.len() as int)),
        None => (piece, Seq::empty()),
    }
}

/// The decoded entries of the given pieces, in order; empty pieces give none.
pub open spec fn query_entries(pieces: Seq<Seq<char>>) -> Seq<(Seq<char>, Seq<char>)>
    decreases pieces.len(),
{
    if pieces.len() == 0 {
        Seq::empty()
    } else {
        let rest = query_entries(pieces.drop_first());
        if pieces[0].len() == 0 {
            rest
        } else {
            let (k, v) = pair_of(pieces[0]);
            seq![(percent_decoded(k), percent_decoded(v))] + rest
        }
    }
}

/// `s` without one leading `?`.
pub open spec fn strip_question(s: Seq<char>) -> Seq<char> {
    if s.len() > 0 && s[0] == '?' {
        s.drop_first()
    } else {
        s
    }
}

/// The entries that parsing the query string `s` gives, in the order of `s`.
pub open spec fn parsed_query(s: Seq<char>) -> Seq<(Seq<char>, Seq<char>)> {
    query_entries(split_on(strip_question(s), '&'))
}

/// The value of the last entry with key `key`: a later entry replaces an
/// earlier one, as inserting into a map does.
pub open spec fn lookup(entries: Seq<(Seq<char>, Seq<char>)>, key: Seq<char>) -> Option<Seq<char>>
    decreases entries.len(),
{
    if entries.len() == 0 {
        None
    } else if entries.last().0 == key {
        Some(entries.last().1)
    } else {
        lookup(entries.drop_last(), key)
    }
}

/// Parameters behave as a map: after adding `key=value`, `key` reads
/// `value`, and every other key reads what it read before.
pub proof fn lemma_lookup_push(
    entries: Seq<(Seq<char>, Seq<char>)>,
    key: Seq<char>,
    value: Seq<char>,
    other: Seq<char>,
)
    ensures
        lookup(entries.push((key, value)), key) == Some(value),
        other != key ==> lookup(entries.push((key, value)), other) == lookup(entries, other),
{
    assert(entries.push((key, value)).drop_last() =~= entries);
}

/// Decoded `key=value` parameters of a query string, in the order they came;
/// a later entry for a key overrides an earlier one, as an insert into a map
/// would.
///
/// Held in a `Vec` of pairs rather than a `HashMap<String, String>`: vstd's
/// `HashMap` specifications hold only for key types that satisfy
/// `obeys_key_model`, which vstd grants to the integer types and `bool` but
/// not to `String`; without an `assume` nothing about a map keyed by strings
/// could be proved.
pub struct QueryParams {
    pub entries: Vec<(String, String)>,
}

impl View for QueryParams {
    type V = Seq<(Seq<char>, Seq<char>)>;

    open spec fn view(&self) -> Seq<(Seq<char>, Seq<char>)> {
        self.entries@.map_values(|e: (String, String)| (e.0@, e.1@))
    }
}

impl QueryParams {
    /// The value stored under `key`; the last entry wins.
    pub fn get(&self, key: &str) -> (r: Option<String>)
        ensures
            match r {
                Some(v) => lookup(self@, key@) == Some(v@),
                None => lookup(self@, key@) is None,
            },
    {
        let k = chars_of(key);
        let mut i: usize = self.entries.len();
        proof {
            assert(self@.subrange(0, i as int) =~= self@);
        }
        while i > 0
            invariant
                0 <= i <= self.entries@.len(),
                k@ == key@,
                lookup(self@, key@) == lookup(self@.subrange(0, i as int), key@),
            decreases i,
        {
            let ek = chars_of(self.entries[i - 1].0.as_str());
            let ghost pre = self@.subrange(0, i as int);
            proof {
                assert(pre.last() == self@[i - 1]);
                assert(pre.drop_last() =~= self@.subrange(0, i - 1));
            }
            if chars_eq(&ek, &k) {
                return Some(self.entries[i - 1].1.clone());
            }
            i = i - 1;
        }
        proof {
            assert(self@.subrange(0, 0) =~= Seq::<(Seq<char>, Seq<char>)>::empty());
        }
        None
    }
}

/// The query string of `link`.
pub fn extract_query(link: &str) -> (r: String)
    ensures
        r@ == query_of(link@),
{
    let chars = chars_of(link);
    proof {
        lemma_first_index_of_bounds(link@, '?');
    }
    let after = match find_char(&chars, '?') {
        Some(i) => sub_chars(&chars, i + 1, chars.len()),
        None => chars,
    };
    proof {
        lemma_first_index_of_bounds(link@, '?');
        assert(after@ == after_question(link@));
    }
    let q = match find_char(&after, '#') {
        Some(j) => {
            proof {
                lemma_first_index_of_bounds(after@, '#');
            }
            sub_chars(&after, 0, j)
        },
        None => after,
    };
    string_from_chars(q.as_slice())
}

fn query_entry(piece: &Vec<char>) -> (r: (String, String))
    ensures
        (r.0@, r.1@) == (percent_decoded(pair_of(piece@).0), percent_decoded(pair_of(piece@).1)),
{
    proof {
        lemma_first_index_of_bounds(piece@, '=');
    }
    let (k, v) = match find_char(piece, '=') {
        Some(i) => {
            let n = piece.len();
            assert(i < n);
            (sub_chars(piece, 0, i), sub_chars(piece, i + 1, n))
        },
        None => (sub_chars(piece, 0, piece.len()), Vec::new()),
    };
    proof {
        assert(piece@.subrange(0, piece@.len() as int) =~= piece@);
        assert(v@ =~= pair_of(piece@).1);
    }
    let ks = string_from_chars(k.as_slice());
    let vs = string_from_chars(v.as_slice());
    (percent_decode(ks.as_str()), percent_decode(vs.as_str()))
}

proof fn lemma_entries_cons(p: Seq<char>, ps: Seq<Seq<char>>)
    ensures
        query_entries(seq![p] + ps) == (if p.len() == 0 {
            query_entries(ps)
        } else {
            seq![(percent_decoded(pair_of(p).0), percent_decoded(pair_of(p).1))] + query_entries(ps)
        }),
{
    assert((seq![p] + ps).drop_first() =~= ps);
}

/// Parses a query string into its decoded `key=value` entries: one leading
/// `?` is skipped, pieces are separated by `&`, empty pieces are skipped, and
/// key and value are percent-decoded.
pub fn parse_query(s: &str) -> (r: QueryParams)
    ensures
        r@ == parsed_query(s@),
{
    let chars = chars_of(s);
    let start0: usize = if chars.len() > 0 && chars[0] == '?' {
        1
    } else {
        0
    };
    let rest = sub_chars(&chars, start0, chars.len());
    proof {
        assert(rest@ =~= strip_question(s@));
    }
    let mut entries: Vec<(String, String)> = Vec::new();
    let mut start: usize = 0;
    proof {
        assert(rest@.subrange(0, rest@.len() as int) =~= rest@);
        assert(entries@.map_values(|e: (String, String)| (e.0@, e.1@)) =~= Seq::<
            (Seq<char>, Seq<char>),
        >::empty());
    }
    loop
        invariant
            0 <= start <= rest@.len(),
            rest@ == strip_question(s@),
            entries@.map_values(|e: (String, String)| (e.0@, e.1@)) + query_entries(
                split_on(rest@.subrange(start as int, rest@.len() as int), '&'),
            ) == parsed_query(s@),
        decreases rest@.len() - start,
    {
        let tail = sub_chars(&rest, start, rest.len());
        let ghost old_entries = entries@.map_values(|e: (String, String)| (e.0@, e.1@));
        proof {
            lemma_first_index_of_bounds(tail@, '&');
        }
        match find_char(&tail, '&') {
            Some(i) => {
                let piece = sub_chars(&tail, 0, i);
                proof {
                    assert(split_on(tail@, '&') == seq![piece@] + split_on(
                        tail@.subrange(i + 1, tail@.len() as int),
                        '&',
                    ));
                    lemma_entries_cons(piece@, split_on(tail@.subrange(i + 1, tail@.len() as int), '&'));
                    assert(tail@.subrange(i + 1, tail@.len() as int) =~= rest@.subrange(
                        start + i + 1,
                        rest@.len() as int,
                    ));
                }
                if piece.len() > 0 {
                    let e = query_entry(&piece);
                    entries.push(e);
                    proof {
                        assert(entries@.map_values(|e: (String, String)| (e.0@, e.1@)) =~= old_entries.push(
                            (e.0@, e.1@),
                        ));
                        assert(old_entries.push((e.0@, e.1@)) + query_entries(
                            split_on(rest@.subrange(start + i + 1, rest@.len() as int), '&'),
                        ) =~= old_entries + (seq![(e.0@, e.1@)] + query_entries(
                            split_on(rest@.subrange(start + i + 1, rest@.len() as int), '&'),
                        )));
                    }
                }
                start = start + i + 1;
            },
            None => {
                proof {
                    assert(split_on(tail@, '&') == seq![tail@]);
                    lemma_entries_cons(tail@, Seq::empty());
                    assert(query_entries(Seq::<Seq<char>>::empty()) =~= Seq::<
                        (Seq<char>, Seq<char>),
                    >::empty());
                }
                if tail.len() > 0 {
                    let e = query_entry(&tail);
                    entries.push(e);
                    proof {
                        assert(entries@.map_values(|e: (String, String)| (e.0@, e.1@)) =~= old_entries.push(
                            (e.0@, e.1@),
                        ));
                        assert(seq![(e.0@, e.1@)] + Seq::<(Seq<char>, Seq<char>)>::empty() =~= seq![
                            (e.0@, e.1@),
                        ]);
                    }
                } else {
                    proof {
                        assert(old_entries + Seq::<(Seq<char>, Seq<char>)>::empty() =~= old_entries);
                    }
                }
                let r = QueryParams { entries };
                proof {
                    assert(r@ =~= parsed_query(s@));
                }
                return r;
            },
        }
    }
}

// ---------------------------------------------------------------------------
// the compressed `cfg` parameter
// ---------------------------------------------------------------------------

/// The URL-safe base64 alphabet mapped onto the standard one.
pub open spec fn b64url_byte(b: u8) -> u8 {
    if b == 0x2d {
        0x2bu8
    } else if b == 0x5f {
        0x2fu8
    } else {
        b
    }
}

/// The bytes handed to the base64 decoder: the URL-safe characters mapped to
/// the standard alphabet, then `=` padding up to a multiple of four bytes.
pub open spec fn b64_padded(b: Seq<u8>) -> Seq<u8> {
    let n = b.map_values(|x: u8| b64url_byte(x));
    if n.len() % 4 == 0 {
        n
    } else {
        n + Seq::new((4 - n.len() % 4) as nat, |i: int| 0x3du8)
    }
}

/// What `base64::engine::general_purpose::STANDARD.decode` returns for
/// `input`: the decoded bytes, or `None` where it reports an error.
pub uninterp spec fn base64_standard(input: Seq<u8>) -> Option<Seq<u8>>;

/// What reading a `flate2::read::ZlibDecoder` over `input` to a string gives:
/// the decompressed text, or `None` where decompression fails or the result
/// is not UTF-8.
pub uninterp spec fn zlib_text(input: Seq<u8>) -> Option<Seq<char>>;

/// Decodes `input` with the standard base64 engine.
///
/// Trusted: calls `base64::Engine::decode` of `general_purpose::STANDARD`
/// (padding required, standard alphabet), whose result is a function of the
/// input alone, named `base64_standard`.
#[verifier::external_body]
fn base64_decode_standard(input: &[u8]) -> (r: Option<Vec<u8>>)
    ensures
        match r {
            Some(v) => base64_standard(input@) == Some(v@),
            None => base64_standard(input@) is None,
        },
{
    base64::engine::general_purpose::STANDARD.decode(input).ok()
}

/// Inflates zlib-compressed `input` into text.
///
/// Trusted: calls `std::io::Read::read_to_string` on a
/// `flate2::read::ZlibDecoder` reading `input`; the outcome depends on the
/// bytes alone and is named `zlib_text`.
#[verifier::external_body]
fn zlib_inflate_text(input: &[u8]) -> (r: Option<String>)
    ensures
        match r {
            Some(t) => zlib_text(input@) == Some(t@),
            None => zlib_text(input@) is None,
        },
{
    let mut decoder = flate2::read::ZlibDecoder::new(input);
    let mut out = String::new();
    match decoder.read_to_string(&mut out) {
        Ok(_) => Some(out),
        Err(_) => None,
    }
}

/// The text of a compressed `cfg` parameter: URL-safe base64, zlib inside.
pub open spec fn cfg_text(s: Seq<char>) -> Option<Seq<char>> {
    match base64_standard(b64_padded(vstd::utf8::encode_utf8(s))) {
        Some(d) => zlib_text(d),
        None => None,
    }
}

/// Decodes a URL-safe, possibly unpadded base64 string of zlib-compressed text.
pub fn decode_base64url_zlib(s: &str) -> (r: Option<String>)
    ensures
        match r {
            Some(t) => cfg_text(s@) == Some(t@),
            None => cfg_text(s@) is None,
        },
{
    let bytes = s.as_bytes();
    let mut padded: Vec<u8> = Vec::new();
    let mut i: usize = 0;
    while i < bytes.len()
        invariant
            0 <= i <= bytes@.len(),
            padded@ == bytes@.subrange(0, i as int).map_values(|x: u8| b64url_byte(x)),
        decreases bytes@.len() - i,
    {
        let b = bytes[i];
        let m: u8 = if b == 0x2d {
            0x2b
        } else if b == 0x5f {
            0x2f
        } else {
            b
        };
        padded.push(m);
        i = i + 1;
        proof {
            assert(padded@ =~= bytes@.subrange(0, i as int).map_values(|x: u8| b64url_byte(x)));
        }
    }
    proof {
        assert(bytes@.subrange(0, bytes@.len() as int) =~= bytes@);
    }
    let ghost n = padded@;
    let rem = padded.len() % 4;
    if rem != 0 {
        let mut k: usize = 0;
        while k < 4 - rem
            invariant
                rem == n.len() % 4,
                0 < rem < 4,
                0 <= k <= 4 - rem,
                padded@ == n + Seq::new(k as nat, |j: int| 0x3du8),
            decreases 4 - rem - k,
        {
            padded.push(0x3d);
            k = k + 1;
            proof {
                assert(padded@ =~= n + Seq::new(k as nat, |j: int| 0x3du8));
            }
        }
    } else {
        proof {
            assert(padded@ =~= n);
        }
    }
    match base64_decode_standard(padded.as_slice()) {
        Some(decoded) => zlib_inflate_text(decoded.as_slice()),
        None => None,
    }
}

/// Settings parameters of a link and the raw key-layout parameter.
pub struct LinkParams {
    pub settings: QueryParams,
    pub key_layout: Option<String>,
}

/// The first of two optional values that is present.
pub open spec fn or_else(a: Option<Seq<char>>, b: Option<Seq<char>>) -> Option<Seq<char>> {
    match a {
        Some(x) => Some(x),
        None => b,
    }
}

/// Where the settings of a link come from: when the `cfg` parameter decodes,
/// the parameters inside it (with `keyLayout` taken from inside, else from the
/// link itself); otherwise the link's own parameters.
pub open spec fn link_params(link: Seq<char>) -> (Seq<(Seq<char>, Seq<char>)>, Option<Seq<char>>) {
    let params = parsed_query(query_of(link));
    match lookup(params, "cfg"@) {
        Some(cfg) => match cfg_text(cfg) {
            Some(text) => {
                let inner = parsed_query(text);
                (inner, or_else(lookup(inner, "keyLayout"@), lookup(params, "keyLayout"@)))
            },
            None => (params, lookup(params, "keyLayout"@)),
        },
        None => (params, lookup(params, "keyLayout"@)),
    }
}

/// Reads the settings parameters and the raw key layout out of an overlay link.
pub fn decode_link_params(link: &str) -> (r: LinkParams)
    ensures
        r.settings@ == link_params(link@).0,
        match r.key_layout {
            Some(k) => link_params(link@).1 == Some(k@),
            None => link_params(link@).1 is None,
        },
{
    let query = extract_query(link);
    let params = parse_query(query.as_str());
    let decoded = match params.get("cfg") {
        Some(cfg) => decode_base64url_zlib(cfg.as_str()),
        None => None,
    };
    match decoded {
        Some(text) => {
            let inner = parse_query(text.as_str());
            let kl = match inner.get("keyLayout") {
                Some(k) => Some(k),
                None => params.get("keyLayout"),
            };
            LinkParams { settings: inner, key_layout: kl }
        },
        None => {
            let kl = params.get("keyLayout");
            LinkParams { settings: params, key_layout: kl }
        },
    }
}

// ---------------------------------------------------------------------------
// settings lookups
// ---------------------------------------------------------------------------

/// Text setting: the stored value when it is present and not empty, else `default`.
pub open spec fn str_setting(p: Seq<(Seq<char>, Seq<char>)>, key: Seq<char>, default: Seq<char>) -> Seq<char> {
    match lookup(p, key) {
        Some(v) => if v.len() > 0 {
            v
        } else {
            default
        },
        None => default,
    }
}

/// Text setting `key` of `p`, `default` when missing or empty.
pub fn get_str(p: &QueryParams, key: &str, default: &str) -> (r: String)
    ensures
        r@ == str_setting(p@, key@, default@),
{
    match p.get(key) {
        Some(v) => {
            if !v.as_str().is_empty() {
                v
            } else {
                string_from_chars(chars_of(default).as_slice())
            }
        },
        None => string_from_chars(chars_of(default).as_slice()),
    }
}

/// Flag setting `key` of `p`: set exactly when its value is `1`.
pub fn get_bool_flag(p: &QueryParams, key: &str) -> (r: bool)
    ensures
        r == (lookup(p@, key@) == Some("1"@)),
{
    match p.get(key) {
        Some(v) => crate::strings::str_eq(v.as_str(), "1"),
        None => false,
    }
}

/// A colour value brought to `#rrggbb[aa]` form: a leading `#` or `%23` is
/// dropped, the rest lower-cased and prefixed with `#`; empty stays unset.
pub open spec fn normalized_color(v: Seq<char>) -> Option<Seq<char>> {
    if v.len() == 0 {
        None
    } else if has_prefix(v, "#"@) {
        Some(seq!['#'] + lowercase(v.subrange("#"@.len() as int, v.len() as int)))
    } else if has_prefix(v, "%23"@) {
        Some(seq!['#'] + lowercase(v.subrange("%23"@.len() as int, v.len() as int)))
    } else {
        Some(seq!['#'] + lowercase(v))
    }
}

fn hash_then(rest: &Vec<char>) -> (r: String)
    ensures
        r@ == seq!['#'] + lowercase(rest@),
{
    let rs = string_from_chars(rest.as_slice());
    let lower = to_lowercase(rs.as_str());
    let lc = chars_of(lower.as_str());
    let mut out: Vec<char> = Vec::new();
    out.push('#');
    let mut i: usize = 0;
    while i < lc.len()
        invariant
            0 <= i <= lc@.len(),
            out@ == seq!['#'] + lc@.subrange(0, i as int),
        decreases lc@.len() - i,
    {
        out.push(lc[i]);
        i = i + 1;
        proof {
            assert(out@ =~= seq!['#'] + lc@.subrange(0, i as int));
        }
    }
    proof {
        assert(lc@.subrange(0, lc@.len() as int) =~= lc@);
    }
    string_from_chars(out.as_slice())
}

/// Brings a colour setting to `#rrggbb[aa]` form.
pub fn normalize_color_value(v: &str) -> (r: Option<String>)
    ensures
        match r {
            Some(c) => normalized_color(v@) == Some(c@),
            None => normalized_color(v@) is None,
        },
{
    let chars = chars_of(v);
    if chars.len() == 0 {
        return None;
    }
    let hash = chars_of("#");
    if starts_with_chars(&chars, &hash) {
        let rest = sub_chars(&chars, hash.len(), chars.len());
        return Some(hash_then(&rest));
    }
    let pct = chars_of("%23");
    if starts_with_chars(&chars, &pct) {
        let rest = sub_chars(&chars, pct.len(), chars.len());
        return Some(hash_then(&rest));
    }
    Some(hash_then(&chars))
}

/// How many label arguments a layout tuple of the given type carries; the
/// type is read up to its first `|`.
pub open spec fn arity_of(type_: Seq<char>) -> usize {
    let base = match first_index_of(type_, '|') {
        Some(i) => type_.subrange(0, i),
        None => type_,
    };
    if base == "scroller"@ {
        3
    } else if base == "scroll_updown"@ {
        2
    } else if base == "scroll_up"@ || base == "scroll_down"@ {
        1
    } else if base == "mouse_side"@ {
        2
    } else if base == "mouse_pad"@ || base == "gp_joystick_ls"@ || base == "gp_joystick_rs"@
        || base == "input_history"@ || base == "$"@ {
        0
    } else {
        1
    }
}

/// Number of label arguments of a layout tuple of type `type_`.
pub fn label_arity(type_: &str) -> (r: usize)
    ensures
        r == arity_of(type_@),
{
    let chars = chars_of(type_);
    proof {
        lemma_first_index_of_bounds(type_@, '|');
    }
    let base = match find_char(&chars, '|') {
        Some(i) => sub_chars(&chars, 0, i),
        None => chars,
    };
    if chars_eq(&base, &chars_of("scroller")) {
        3
    } else if chars_eq(&base, &chars_of("scroll_updown")) {
        2
    } else if chars_eq(&base, &chars_of("scroll_up")) || chars_eq(&base, &chars_of("scroll_down")) {
        1
    } else if chars_eq(&base, &chars_of("mouse_side")) {
        2
    } else if chars_eq(&base, &chars_of("mouse_pad")) || chars_eq(&base, &chars_of("gp_joystick_ls"))
        || chars_eq(&base, &chars_of("gp_joystick_rs")) || chars_eq(
        &base,
        &chars_of("input_history"),
    ) || chars_eq(&base, &chars_of("$")) {
        0
    } else {
        1
    }
}

} // verus!
