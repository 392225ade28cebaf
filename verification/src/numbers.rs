//! Decimal integers as `str::parse` reads them, and Unicode whitespace
//! trimming.
use vstd::prelude::*;

verus! {

/// Whether `c` is an ASCII decimal digit.
pub open spec fn is_digit(c: char) -> bool {
    '0' <= c <= '9'
}

/// Value of a string of decimal digits, most significant first.
pub open spec fn digits_value(s: Seq<char>) -> int
    decreases s.len(),
{
    if s.len() == 0 {
        0
    } else {
        digits_value(s.drop_last()) * 10 + (s.last() as int - '0' as int)
    }
}

/// Whether every character of `s` is a decimal digit.
pub open spec fn all_digits(s: Seq<char>) -> bool {
    forall|i: int| 0 <= i < s.len() ==> is_digit(#[trigger] s[i])
}

/// What `str::parse` gives for an unsigned integer type whose largest value
/// is `max`: an optional `+`, then at least one digit and nothing else, and a
/// value that fits.
pub open spec fn parse_unsigned(s: Seq<char>, max: int) -> Option<int> {
    let d = if s.len() > 0 && s[0] == '+' {
        s.drop_first()
    } else {
        s
    };
    if d.len() == 0 || !all_digits(d) || digits_value(d) > max {
        None
    } else {
        Some(digits_value(d))
    }
}

/// What `str::parse::<i64>` gives: an optional sign, then at least one digit
/// and nothing else, and a value within `i64`.
pub open spec fn parse_i64(s: Seq<char>) -> Option<int> {
    let neg = s.len() > 1 && s[0] == '-';
    let d = if s.len() > 1 && (s[0] == '-' || s[0] == '+') {
        s.drop_first()
    } else {
        s
    };
    if d.len() == 0 || !all_digits(d) {
        None
    } else if neg {
        if -digits_value(d) < i64::MIN {
            None
        } else {
            Some(-digits_value(d))
        }
    } else {
        if digits_value(d) > i64::MAX {
            None
        } else {
            Some(digits_value(d))
        }
    }
}

proof fn lemma_digits_value_nonneg(s: Seq<char>)
    requires
        all_digits(s),
    ensures
        0 <= digits_value(s),
    decreases s.len(),
{
    if s.len() > 0 {
        assert(all_digits(s.drop_last()));
        lemma_digits_value_nonneg(s.drop_last());
        assert(is_digit(s[s.len() - 1]));
    }
}

proof fn lemma_digits_value_grows(s: Seq<char>, i: int)
    requires
        all_digits(s),
        0 <= i <= s.len(),
    ensures
        digits_value(s.subrange(0, i)) <= digits_value(s),
    decreases s.len() - i,
{
    if i < s.len() {
        lemma_digits_value_grows(s, i + 1);
        let p = s.subrange(0, i + 1);
        assert(p.drop_last() =~= s.subrange(0, i));
        assert(all_digits(p.drop_last()));
        lemma_digits_value_nonneg(p.drop_last());
        assert(is_digit(s[i]));
    } else {
        assert(s.subrange(0, i) =~= s);
    }
}

/// Reads a string of digits `d` as a number no larger than `max`.
fn digits_to_u64(d: &Vec<char>, max: u64) -> (r: Option<u64>)
    ensures
        match r {
            Some(v) => all_digits(d@) && digits_value(d@) == v && v <= max,
            None => !all_digits(d@) || digits_value(d@) > max,
        },
{
    let mut acc: u64 = 0;
    let mut i: usize = 0;
    while i < d.len()
        invariant
            0 <= i <= d@.len(),
            all_digits(d@.subrange(0, i as int)),
            acc == digits_value(d@.subrange(0, i as int)),
            acc <= max,
        decreases d@.len() - i,
    {
        let c = d[i];
        let ghost p = d@.subrange(0, i as int + 1);
        proof {
            assert(p.drop_last() =~= d@.subrange(0, i as int));
        }
        if !('0' <= c && c <= '9') {
            proof {
                assert(!is_digit(d@[i as int]));
            }
            return None;
        }
        let digit: u64 = (c as u32 - '0' as u32) as u64;
        proof {
            assert(all_digits(p));
            assert(digits_value(p) == acc * 10 + digit);
        }
        if digit > max || acc > (max - digit) / 10 {
            proof {
                if digit <= max {
                    assert(acc * 10 + digit > max) by (nonlinear_arith)
                        requires
                            acc > (max - digit) / 10,
                            0 <= digit <= max,
                    ;
                }
                if all_digits(d@) {
                    lemma_digits_value_grows(d@, i as int + 1);
                }
            }
            return None;
        }
        proof {
            assert(acc * 10 + digit <= max) by (nonlinear_arith)
                requires
                    acc <= (max - digit) / 10,
                    0 <= digit <= max,
            ;
        }
        acc = acc * 10 + digit;
        i = i + 1;
    }
    proof {
        assert(d@.subrange(0, d@.len() as int) =~= d@);
    }
    Some(acc)
}

/// `str::parse` for an unsigned integer no larger than `max`.
pub fn parse_unsigned_chars(s: &Vec<char>, max: u64) -> (r: Option<u64>)
    ensures
        match r {
            Some(v) => parse_unsigned(s@, max as int) == Some(v as int),
            None => parse_unsigned(s@, max as int) is None,
        },
{
    let start: usize = if s.len() > 0 && s[0] == '+' {
        1
    } else {
        0
    };
    let d = crate::strings::sub_chars(s, start, s.len());
    proof {
        if start == 1 {
            assert(d@ =~= s@.drop_first());
        } else {
            assert(d@ =~= s@);
        }
    }
    if d.len() == 0 {
        return None;
    }
    digits_to_u64(&d, max)
}

/// `str::parse::<i64>`.
pub fn parse_i64_chars(s: &Vec<char>) -> (r: Option<i64>)
    ensures
        match r {
            Some(v) => parse_i64(s@) == Some(v as int),
            None => parse_i64(s@) is None,
        },
{
    let neg = s.len() > 1 && s[0] == '-';
    let start: usize = if s.len() > 1 && (s[0] == '-' || s[0] == '+') {
        1
    } else {
        0
    };
    let d = crate::strings::sub_chars(s, start, s.len());
    proof {
        if start == 1 {
            assert(d@ =~= s@.drop_first());
        } else {
            assert(d@ =~= s@);
        }
    }
    if d.len() == 0 {
        return None;
    }
    if neg {
        match digits_to_u64(&d, 9223372036854775808u64) {
            Some(v) => {
                if v == 9223372036854775808u64 {
                    Some(i64::MIN)
                } else {
                    Some(-(v as i64))
                }
            },
            None => None,
        }
    } else {
        match digits_to_u64(&d, 9223372036854775807u64) {
            Some(v) => Some(v as i64),
            None => None,
        }
    }
}

/// Whether `c` has the Unicode `White_Space` property, as
/// `char::is_whitespace` tests.
pub open spec fn is_whitespace(c: char) -> bool {
    ('\u{9}' <= c <= '\u{d}') || c == ' ' || c == '\u{85}' || c == '\u{a0}' || c == '\u{1680}'
        || ('\u{2000}' <= c <= '\u{200a}') || c == '\u{2028}' || c == '\u{2029}' || c == '\u{202f}'
        || c == '\u{205f}' || c == '\u{3000}'
}

pub fn is_whitespace_exec(c: char) -> (r: bool)
    ensures
        r == is_whitespace(c),
{
    ('\u{9}' <= c && c <= '\u{d}') || c == ' ' || c == '\u{85}' || c == '\u{a0}' || c == '\u{1680}'
        || ('\u{2000}' <= c && c <= '\u{200a}') || c == '\u{2028}' || c == '\u{2029}' || c
        == '\u{202f}' || c == '\u{205f}' || c == '\u{3000}'
}

/// Number of leading whitespace characters of `s`.
pub open spec fn leading_ws(s: Seq<char>) -> int
    decreases s.len(),
{
    if s.len() > 0 && is_whitespace(s[0]) {
        1 + leading_ws(s.drop_first())
    } else {
        0
    }
}

/// Number of trailing whitespace characters of `s`.
pub open spec fn trailing_ws(s: Seq<char>) -> int
    decreases s.len(),
{
    if s.len() > 0 && is_whitespace(s.last()) {
        1 + trailing_ws(s.drop_last())
    } else {
        0
    }
}

/// `s` without leading whitespace.
pub open spec fn trim_start(s: Seq<char>) -> Seq<char> {
    s.subrange(leading_ws(s), s.len() as int)
}

/// `s` without trailing whitespace.
pub open spec fn trim_end(s: Seq<char>) -> Seq<char> {
    s.subrange(0, s.len() - trailing_ws(s))
}

/// `s` without leading and trailing whitespace, as `str::trim` gives it.
pub open spec fn trim(s: Seq<char>) -> Seq<char> {
    trim_end(trim_start(s))
}

proof fn lemma_leading_ws(s: Seq<char>, i: int)
    requires
        0 <= i <= s.len(),
        forall|k: int| 0 <= k < i ==> is_whitespace(#[trigger] s[k]),
    ensures
        leading_ws(s) == i + leading_ws(s.subrange(i, s.len() as int)),
        0 <= leading_ws(s) <= s.len(),
    decreases i,
{
    if i > 0 {
        lemma_leading_ws(s.drop_first(), i - 1);
        assert(s.drop_first().subrange(i - 1, s.drop_first().len() as int) =~= s.subrange(
            i,
            s.len() as int,
        ));
    } else {
        assert(s.subrange(0, s.len() as int) =~= s);
        lemma_leading_ws_bound(s);
    }
}

proof fn lemma_leading_ws_bound(s: Seq<char>)
    ensures
        0 <= leading_ws(s) <= s.len(),
    decreases s.len(),
{
    if s.len() > 0 {
        lemma_leading_ws_bound(s.drop_first());
    }
}

proof fn lemma_trailing_ws(s: Seq<char>, i: int)
    requires
        0 <= i <= s.len(),
        forall|k: int| s.len() - i <= k < s.len() ==> is_whitespace(#[trigger] s[k]),
    ensures
        trailing_ws(s) == i + trailing_ws(s.subrange(0, s.len() - i)),
    decreases i,
{
    if i > 0 {
        lemma_trailing_ws(s.drop_last(), i - 1);
        assert(s.drop_last().subrange(0, s.drop_last().len() - (i - 1)) =~= s.subrange(
            0,
            s.len() - i,
        ));
    } else {
        assert(s.subrange(0, s.len() as int) =~= s);
    }
}

/// Trims leading and trailing whitespace off `s`.
pub fn trim_chars(s: &Vec<char>) -> (r: Vec<char>)
    ensures
        r@ == trim(s@),
{
    let mut lo: usize = 0;
    while lo < s.len() && is_whitespace_exec(s[lo])
        invariant
            0 <= lo <= s@.len(),
            forall|k: int| 0 <= k < lo ==> is_whitespace(#[trigger] s@[k]),
        decreases s@.len() - lo,
    {
        lo = lo + 1;
    }
    proof {
        lemma_leading_ws(s@, lo as int);
        let t = s@.subrange(lo as int, s@.len() as int);
        assert(leading_ws(t) == 0);
    }
    let mut hi: usize = s.len();
    while hi > lo && is_whitespace_exec(s[hi - 1])
        invariant
            lo <= hi <= s@.len(),
            forall|k: int| hi <= k < s@.len() ==> is_whitespace(#[trigger] s@[k]),
        decreases hi - lo,
    {
        hi = hi - 1;
    }
    let ghost t = s@.subrange(lo as int, s@.len() as int);
    proof {
        assert(trim_start(s@) =~= t);
        let n = s@.len() - hi;
        assert forall|k: int| t.len() - n <= k < t.len() implies is_whitespace(#[trigger] t[k]) by {
            assert(t[k] == s@[lo + k]);
        }
        lemma_trailing_ws(t, n);
        let u = t.subrange(0, t.len() - n);
        assert(u =~= s@.subrange(lo as int, hi as int));
        if u.len() > 0 {
            assert(u.last() == s@[hi - 1]);
        }
        assert(trailing_ws(u) == 0);
    }
    crate::strings::sub_chars(s, lo, hi)
}

} // verus!
