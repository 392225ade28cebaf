//! Substring search, suffix tests and removal of a pattern, over character
//! sequences.
use vstd::prelude::*;

use crate::strings::{chars_eq, sub_chars};

verus! {

/// Whether `p` occurs in `s` at position `i`.
pub open spec fn occurs_at(s: Seq<char>, p: Seq<char>, i: int) -> bool {
    0 <= i && i + p.len() <= s.len() && s.subrange(i, i + p.len()) == p
}

/// First position at or after `i` where `p` occurs in `s`.
pub open spec fn find_from(s: Seq<char>, p: Seq<char>, i: int) -> Option<int>
    decreases s.len() + 1 - i,
{
    if i < 0 || i + p.len() > s.len() {
        None
    } else if occurs_at(s, p, i) {
        Some(i)
    } else {
        find_from(s, p, i + 1)
    }
}

/// First position where `p` occurs in `s`, as `str::find` gives it.
pub open spec fn find_sub(s: Seq<char>, p: Seq<char>) -> Option<int> {
    find_from(s, p, 0)
}

pub proof fn lemma_find_from_bounds(s: Seq<char>, p: Seq<char>, i: int)
    ensures
        find_from(s, p, i) matches Some(j) ==> i <= j && occurs_at(s, p, j),
    decreases s.len() + 1 - i,
{
    if i >= 0 && i + p.len() <= s.len() && !occurs_at(s, p, i) {
        lemma_find_from_bounds(s, p, i + 1);
    }
}

/// Whether `p` occurs in `s` at `i`.
pub fn occurs_at_exec(s: &Vec<char>, p: &Vec<char>, i: usize) -> (r: bool)
    ensures
        r == occurs_at(s@, p@, i as int),
{
    if i > s.len() || p.len() > s.len() - i {
        return false;
    }
    let n = s.len();
    let mut k: usize = 0;
    while k < p.len()
        invariant
            n == s@.len(),
            i + p@.len() <= s@.len(),
            0 <= k <= p@.len(),
            forall|j: int| 0 <= j < k ==> s@[i + j] == p@[j],
        decreases p@.len() - k,
    {
        if s[i + k] != p[k] {
            proof {
                assert(s@.subrange(i as int, i + p@.len())[k as int] != p@[k as int]);
            }
            return false;
        }
        k = k + 1;
    }
    proof {
        assert(s@.subrange(i as int, i + p@.len()) =~= p@);
    }
    true
}

/// First position at or after `start` where `p` occurs in `s`.
pub fn find_sub_from(s: &Vec<char>, p: &Vec<char>, start: usize) -> (r: Option<usize>)
    ensures
        match r {
            Some(j) => find_from(s@, p@, start as int) == Some(j as int),
            None => find_from(s@, p@, start as int) is None,
        },
{
    if p.len() > s.len() || start > s.len() - p.len() {
        return None;
    }
    let last = s.len() - p.len();
    let mut i: usize = start;
    loop
        invariant
            start <= i <= last,
            last + p@.len() == s@.len(),
            find_from(s@, p@, start as int) == find_from(s@, p@, i as int),
        decreases last - i,
    {
        if occurs_at_exec(s, p, i) {
            return Some(i);
        }
        if i == last {
            proof {
                assert(find_from(s@, p@, i + 1) is None);
            }
            return None;
        }
        i = i + 1;
    }
}

/// Whether `s` ends with `p`.
pub open spec fn has_suffix(s: Seq<char>, p: Seq<char>) -> bool {
    p.len() <= s.len() && s.subrange(s.len() - p.len(), s.len() as int) == p
}

pub fn ends_with_chars(s: &Vec<char>, p: &Vec<char>) -> (r: bool)
    ensures
        r == has_suffix(s@, p@),
{
    if p.len() > s.len() {
        return false;
    }
    occurs_at_exec(s, p, s.len() - p.len())
}

/// `s` with every non-overlapping occurrence of the non-empty `p` removed,
/// left to right, as `str::replace(p, "")` gives it.
pub open spec fn remove_all(s: Seq<char>, p: Seq<char>) -> Seq<char>
    decreases s.len(),
{
    if p.len() == 0 {
        s
    } else {
        match find_sub(s, p) {
            None => s,
            Some(i) => {
                proof {
                    lemma_find_from_bounds(s, p, 0);
                }
                s.subrange(0, i) + remove_all(s.subrange(i + p.len(), s.len() as int), p)
            },
        }
    }
}

/// Removes every occurrence of the non-empty pattern `p` from `s`.
pub fn remove_all_chars(s: &Vec<char>, p: &Vec<char>) -> (r: Vec<char>)
    requires
        p@.len() > 0,
    ensures
        r@ == remove_all(s@, p@),
{
    let mut out: Vec<char> = Vec::new();
    let mut rest: Vec<char> = sub_chars(s, 0, s.len());
    proof {
        assert(rest@ =~= s@);
    }
    loop
        invariant
            p@.len() > 0,
            out@ + remove_all(rest@, p@) == remove_all(s@, p@),
        decreases rest@.len(),
    {
        proof {
            lemma_find_from_bounds(rest@, p@, 0);
        }
        match find_sub_from(&rest, p, 0) {
            None => {
                proof {
                    assert(out@ + rest@ == remove_all(s@, p@));
                }
                let mut k: usize = 0;
                let ghost o = out@;
                while k < rest.len()
                    invariant
                        0 <= k <= rest@.len(),
                        out@ == o + rest@.subrange(0, k as int),
                    decreases rest@.len() - k,
                {
                    out.push(rest[k]);
                    k = k + 1;
                    proof {
                        assert(out@ =~= o + rest@.subrange(0, k as int));
                    }
                }
                proof {
                    assert(rest@.subrange(0, rest@.len() as int) =~= rest@);
                }
                return out;
            },
            Some(i) => {
                let ghost o = out@;
                let mut k: usize = 0;
                while k < i
                    invariant
                        0 <= k <= i,
                        i + p@.len() <= rest@.len(),
                        out@ == o + rest@.subrange(0, k as int),
                    decreases i - k,
                {
                    out.push(rest[k]);
                    k = k + 1;
                    proof {
                        assert(out@ =~= o + rest@.subrange(0, k as int));
                    }
                }
                let n = rest.len();
                let next = sub_chars(&rest, i + p.len(), n);
                proof {
                    assert(o + (rest@.subrange(0, i as int) + remove_all(next@, p@)) =~= out@
                        + remove_all(next@, p@));
                }
                rest = next;
            },
        }
    }
}

} // verus!
