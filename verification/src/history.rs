use vstd::prelude::*;
use std::collections::VecDeque;
use std::time::Instant;
use crate::clock::{instant_now, nanos_between, nanos_since};
use crate::strings::str_eq;

verus! {

/// One press of a tracked key: when it began and, once released, when it
/// ended, in nanoseconds from the history's origin.
pub struct LogEntry {
    pub key: String,
    pub start: u64,
    pub end: Option<u64>,
}

/// The key-press history of an input-history element.
pub struct HistoryState {
    tracked_keys: Vec<String>,
    vertical: bool,
    highlight_overlap: bool,
    reverse_direction: bool,
    log: VecDeque<LogEntry>,
    origin: Instant,
}

/// What a `HistoryState` holds.
pub struct HistoryView {
    pub tracked_keys: Seq<Seq<char>>,
    pub vertical: bool,
    pub highlight_overlap: bool,
    pub reverse_direction: bool,
    pub log: Seq<LogEntry>,
}

impl View for HistoryState {
    type V = HistoryView;

    closed spec fn view(&self) -> HistoryView {
        HistoryView {
            tracked_keys: self.tracked_keys@.map_values(|k: String| k@),
            vertical: self.vertical,
            highlight_overlap: self.highlight_overlap,
            reverse_direction: self.reverse_direction,
            log: self.log@,
        }
    }
}

/// Whether `e` is a press of `key` that has not been released.
pub open spec fn is_open_press(e: LogEntry, key: Seq<char>) -> bool {
    e.key@ == key && e.end is None
}

/// The index of the latest unreleased press of `key`.
pub open spec fn last_open(log: Seq<LogEntry>, key: Seq<char>) -> Option<int>
    decreases log.len(),
{
    if log.len() == 0 {
        None
    } else if is_open_press(log.last(), key) {
        Some(log.len() - 1)
    } else {
        last_open(log.drop_last(), key)
    }
}

/// Whether `next` is the log after a press (`is_press`) or a release of
/// `key` at time `now`: a press opens a new entry, a release closes the latest
/// open press of that key, if there is one.
pub open spec fn after_edge(
    prev: Seq<LogEntry>,
    next: Seq<LogEntry>,
    key: Seq<char>,
    is_press: bool,
    now: u64,
) -> bool {
    if is_press {
        &&& next.len() == prev.len() + 1
        &&& next.drop_last() == prev
        &&& next.last().key@ == key
        &&& next.last().start == now
        &&& next.last().end is None
    } else {
        match last_open(prev, key) {
            Some(i) => next == prev.update(
                i,
                LogEntry { key: prev[i].key, start: prev[i].start, end: Some(now) },
            ),
            None => next == prev,
        }
    }
}

proof fn lemma_last_open_take(log: Seq<LogEntry>, key: Seq<char>, i: int)
    requires
        0 <= i <= log.len(),
        forall|k: int| i <= k < log.len() ==> !is_open_press(#[trigger] log[k], key),
    ensures
        last_open(log, key) == last_open(log.take(i), key),
    decreases log.len(),
{
    if i == log.len() {
        assert(log.take(i) =~= log);
    } else {
        let d = log.drop_last();
        assert forall|k: int| i <= k < d.len() implies !is_open_press(#[trigger] d[k], key) by {
            assert(d[k] == log[k]);
        }
        lemma_last_open_take(d, key, i);
        assert(d.take(i) =~= log.take(i));
    }
}

/// A release closes the press that the last press of the same key opened:
/// after pressing `key` at `t1` and releasing it at `t2`, the log holds one
/// more entry than before, the press of `key` from `t1` to `t2`.
pub proof fn lemma_press_then_release(
    log: Seq<LogEntry>,
    mid: Seq<LogEntry>,
    next: Seq<LogEntry>,
    key: Seq<char>,
    t1: u64,
    t2: u64,
)
    requires
        after_edge(log, mid, key, true, t1),
        after_edge(mid, next, key, false, t2),
    ensures
        next.len() == log.len() + 1,
        next.drop_last() == log,
        next.last().key@ == key,
        next.last().start == t1,
        next.last().end == Some(t2),
{
    assert(is_open_press(mid.last(), key));
    assert(last_open(mid, key) == Some(mid.len() - 1));
    assert(next.drop_last() =~= mid.drop_last());
}

impl HistoryState {
    /// The clock reading from which this history's times are counted.
    pub closed spec fn origin_instant(&self) -> Instant {
        self.origin
    }

    /// A history of the presses of `tracked_keys`, empty, its clock starting
    /// now.
    pub fn new(
        tracked_keys: Vec<String>,
        vertical: bool,
        highlight_overlap: bool,
        reverse_direction: bool,
    ) -> (r: HistoryState)
        ensures
            r@.tracked_keys == tracked_keys@.map_values(|k: String| k@),
            r@.vertical == vertical,
            r@.highlight_overlap == highlight_overlap,
            r@.reverse_direction == reverse_direction,
            r@.log.len() == 0,
    {
        HistoryState {
            tracked_keys,
            vertical,
            highlight_overlap,
            reverse_direction,
            log: VecDeque::new(),
            origin: instant_now(),
        }
    }

    /// Whether presses of `key` are recorded.
    pub fn tracks(&self, key: &str) -> (r: bool)
        ensures
            r == self@.tracked_keys.contains(key@),
    {
        let n = self.tracked_keys.len();
        let mut i: usize = 0;
        while i < n
            invariant
                n == self.tracked_keys@.len(),
                0 <= i <= n,
                forall|k: int| 0 <= k < i ==> self.tracked_keys@[k]@ != key@,
            decreases n - i,
        {
            if str_eq(self.tracked_keys[i].as_str(), key) {
                proof {
                    assert(self@.tracked_keys[i as int] == key@);
                }
                return true;
            }
            i = i + 1;
        }
        proof {
            if self@.tracked_keys.contains(key@) {
                let k = choose|k: int| 0 <= k < self@.tracked_keys.len() && self@.tracked_keys[k] == key@;
                assert(self.tracked_keys@[k]@ == key@);
            }
        }
        false
    }

    /// Records a press (`is_press`) or a release of `key` at time `now`, in
    /// nanoseconds from this history's origin.
    pub fn record_edge_at(&mut self, key: &str, is_press: bool, now: u64)
        ensures
            after_edge(old(self)@.log, final(self)@.log, key@, is_press, now),
            final(self)@.tracked_keys == old(self)@.tracked_keys,
            final(self)@.vertical == old(self)@.vertical,
            final(self)@.highlight_overlap == old(self)@.highlight_overlap,
            final(self)@.reverse_direction == old(self)@.reverse_direction,
            final(self).origin_instant() == old(self).origin_instant(),
    {
        if is_press {
            self.log.push_back(LogEntry { key: key.to_owned(), start: now, end: None });
            proof {
                assert(self.log@.drop_last() =~= old(self).log@);
            }
            return;
        }
        let mut i: usize = self.log.len();
        while i > 0
            invariant
                !is_press,
                i <= self.log@.len(),
                self.log@ == old(self).log@,
                self.tracked_keys == old(self).tracked_keys,
                self.vertical == old(self).vertical,
                self.highlight_overlap == old(self).highlight_overlap,
                self.reverse_direction == old(self).reverse_direction,
                self.origin == old(self).origin,
                forall|k: int| i <= k < self.log@.len() ==> !is_open_press(#[trigger] self.log@[k], key@),
            decreases i,
        {
            let j = i - 1;
            let matches = str_eq(self.log[j].key.as_str(), key) && self.log[j].end.is_none();
            if matches {
                proof {
                    lemma_last_open_take(self.log@, key@, i as int);
                    assert(self.log@.take(i as int).last() == self.log@[j as int]);
                    assert(is_open_press(self.log@[j as int], key@));
                    assert(last_open(self.log@.take(i as int), key@) == Some(j as int));
                }
                let removed = self.log.remove(j);
                match removed {
                    Some(e) => {
                        let closed = LogEntry { key: e.key, start: e.start, end: Some(now) };
                        self.log.insert(j, closed);
                        proof {
                            assert(self.log@ =~= old(self).log@.update(
                                j as int,
                                LogEntry {
                                    key: old(self).log@[j as int].key,
                                    start: old(self).log@[j as int].start,
                                    end: Some(now),
                                },
                            ));
                        }
                    },
                    None => {},
                }
                return;
            }
            i = j;
        }
        proof {
            lemma_last_open_take(self.log@, key@, 0);
        }
    }

    /// Records a press (`is_press`) or a release of `key` now.
    pub fn record_edge(&mut self, key: &str, is_press: bool)
        ensures
            exists|now: Instant|
                after_edge(
                    old(self)@.log,
                    final(self)@.log,
                    key@,
                    is_press,
                    #[trigger] nanos_between(now, old(self).origin_instant()),
                ),
            final(self)@.tracked_keys == old(self)@.tracked_keys,
            final(self)@.vertical == old(self)@.vertical,
            final(self)@.highlight_overlap == old(self)@.highlight_overlap,
            final(self)@.reverse_direction == old(self)@.reverse_direction,
            final(self).origin_instant() == old(self).origin_instant(),
    {
        let now = nanos_since(&self.origin);
        let ghost reading = choose|t: Instant| now == nanos_between(t, self.origin);
        self.record_edge_at(key, is_press, now);
        proof {
            assert(after_edge(old(self)@.log, self@.log, key@, is_press, nanos_between(reading, old(self).origin_instant())));
        }
    }

    /// Whether any press is still on record.
    pub fn is_live(&self) -> (r: bool)
        ensures
            r == (self@.log.len() > 0),
    {
        self.log.len() > 0
    }
}

/// When the press `e` ends: its release, or `now` while it is held.
pub open spec fn entry_end(e: LogEntry, now: u64) -> u64 {
    match e.end {
        Some(x) => x,
        None => now,
    }
}

/// The presses of `log` as half-open intervals `[start, end)` of time, in log
/// order, leaving out those of no length.
pub open spec fn intervals(log: Seq<LogEntry>, now: u64) -> Seq<(u64, u64)>
    decreases log.len(),
{
    if log.len() == 0 {
        Seq::empty()
    } else {
        let prev = intervals(log.drop_last(), now);
        let e = log.last();
        if e.start < entry_end(e, now) {
            prev.push((e.start, entry_end(e, now)))
        } else {
            prev
        }
    }
}

/// How many of `ivs` hold time `t`.
pub open spec fn coverage(ivs: Seq<(u64, u64)>, t: int) -> int
    decreases ivs.len(),
{
    if ivs.len() == 0 {
        0
    } else {
        coverage(ivs.drop_last(), t) + if ivs.last().0 <= t < ivs.last().1 {
            1int
        } else {
            0int
        }
    }
}

/// How many of `ivs` hold the instant just before `t`: start before it and
/// end at it or later.
pub open spec fn coverage_before(ivs: Seq<(u64, u64)>, t: int) -> int
    decreases ivs.len(),
{
    if ivs.len() == 0 {
        0
    } else {
        coverage_before(ivs.drop_last(), t) + if ivs.last().0 < t <= ivs.last().1 {
            1int
        } else {
            0int
        }
    }
}

/// How many of `ivs` start before `t` and end after it.
pub open spec fn coverage_through(ivs: Seq<(u64, u64)>, t: int) -> int
    decreases ivs.len(),
{
    if ivs.len() == 0 {
        0
    } else {
        coverage_through(ivs.drop_last(), t) + if ivs.last().0 < t < ivs.last().1 {
            1int
        } else {
            0int
        }
    }
}

/// Whether `x` starts or ends one of `ivs`.
pub open spec fn is_endpoint(ivs: Seq<(u64, u64)>, x: int) -> bool {
    exists|k: int| #![trigger ivs[k]] 0 <= k < ivs.len() && (ivs[k].0 == x || ivs[k].1 == x)
}

/// Whether time `t` lies in one of `ranges`.
pub open spec fn in_ranges(ranges: Seq<(u64, u64)>, t: int) -> bool {
    exists|i: int| 0 <= i < ranges.len() && #[trigger] ranges[i].0 <= t < ranges[i].1
}

/// Whether `ranges` are non-empty and in increasing order, each ending no
/// later than the next begins.
pub open spec fn ordered_ranges(ranges: Seq<(u64, u64)>) -> bool {
    &&& forall|i: int| 0 <= i < ranges.len() ==> #[trigger] ranges[i].0 < ranges[i].1
    &&& forall|i: int, k: int| 0 <= i < k < ranges.len() ==> #[trigger] ranges[i].1 <= #[trigger] ranges[k].0
}

/// Whether `v` is in strictly increasing order.
pub open spec fn strictly_sorted(v: Seq<u64>) -> bool {
    forall|i: int, k: int| 0 <= i < k < v.len() ==> #[trigger] v[i] < #[trigger] v[k]
}

proof fn lemma_coverage_before(ivs: Seq<(u64, u64)>, t: int)
    ensures
        coverage_before(ivs, t) == coverage(ivs, t - 1),
        0 <= coverage_through(ivs, t) <= coverage_before(ivs, t),
        coverage_through(ivs, t) <= coverage(ivs, t),
    decreases ivs.len(),
{
    if ivs.len() > 0 {
        lemma_coverage_before(ivs.drop_last(), t);
    }
}

proof fn lemma_coverage_bounds(ivs: Seq<(u64, u64)>, t: int)
    ensures
        0 <= coverage(ivs, t) <= ivs.len(),
        0 <= coverage_before(ivs, t) <= ivs.len(),
        0 <= coverage_through(ivs, t) <= ivs.len(),
    decreases ivs.len(),
{
    if ivs.len() > 0 {
        lemma_coverage_bounds(ivs.drop_last(), t);
    }
}

/// Coverage does not change between two times with no endpoint after the
/// first and up to the second.
proof fn lemma_coverage_const(ivs: Seq<(u64, u64)>, a: int, b: int)
    requires
        a <= b,
        forall|k: int|
            0 <= k < ivs.len() ==> !(a < #[trigger] ivs[k].0 <= b) && !(a < ivs[k].1 <= b),
    ensures
        coverage(ivs, a) == coverage(ivs, b),
    decreases ivs.len(),
{
    if ivs.len() > 0 {
        let d = ivs.drop_last();
        assert forall|k: int| 0 <= k < d.len() implies !(a < #[trigger] d[k].0 <= b) && !(a < d[k].1
            <= b) by {
            assert(d[k] == ivs[k]);
        }
        lemma_coverage_const(d, a, b);
        assert(ivs.last() == ivs[ivs.len() - 1]);
    }
}

/// No interval holds a time before every start.
proof fn lemma_coverage_zero(ivs: Seq<(u64, u64)>, t: int)
    requires
        forall|k: int| 0 <= k < ivs.len() ==> !(#[trigger] ivs[k].0 <= t < ivs[k].1),
    ensures
        coverage(ivs, t) == 0,
    decreases ivs.len(),
{
    if ivs.len() > 0 {
        let d = ivs.drop_last();
        assert forall|k: int| 0 <= k < d.len() implies !(#[trigger] d[k].0 <= t < d[k].1) by {
            assert(d[k] == ivs[k]);
        }
        lemma_coverage_zero(d, t);
        assert(ivs.last() == ivs[ivs.len() - 1]);
    }
}

/// Between the `j - 1`-th and the `j`-th of the sorted endpoints `ts` there is
/// none: no interval starts or ends after `lo` and at or before `hi`.
proof fn lemma_gap(ts: Seq<u64>, ivs: Seq<(u64, u64)>, j: int, lo: int, hi: int)
    requires
        strictly_sorted(ts),
        forall|x: u64| ts.contains(x) <==> is_endpoint(ivs, x as int),
        0 <= j <= ts.len(),
        j > 0 ==> ts[j - 1] <= lo,
        j < ts.len() ==> hi < ts[j],
    ensures
        forall|k: int|
            0 <= k < ivs.len() ==> !(lo < #[trigger] ivs[k].0 <= hi) && !(lo < ivs[k].1 <= hi),
{
    assert forall|k: int| 0 <= k < ivs.len() implies !(lo < #[trigger] ivs[k].0 <= hi) && !(lo
        < ivs[k].1 <= hi) by {
        let s = ivs[k].0;
        let e = ivs[k].1;
        assert(is_endpoint(ivs, s as int));
        assert(is_endpoint(ivs, e as int));
        assert(ts.contains(s));
        assert(ts.contains(e));
        let p = choose|p: int| 0 <= p < ts.len() && ts[p] == s;
        let q = choose|q: int| 0 <= q < ts.len() && ts[q] == e;
        if p < j {
            if p < j - 1 {
                assert(ts[p] < ts[j - 1]);
            }
        } else if j < ts.len() {
            if p > j {
                assert(ts[j] < ts[p]);
            }
        }
        if q < j {
            if q < j - 1 {
                assert(ts[q] < ts[j - 1]);
            }
        } else if j < ts.len() {
            if q > j {
                assert(ts[j] < ts[q]);
            }
        }
    }
}

proof fn lemma_in_ranges_push(r: Seq<(u64, u64)>, x: (u64, u64), t: int)
    ensures
        in_ranges(r.push(x), t) <==> (in_ranges(r, t) || (x.0 <= t < x.1)),
{
    let r2 = r.push(x);
    if in_ranges(r2, t) {
        let i = choose|i: int| 0 <= i < r2.len() && #[trigger] r2[i].0 <= t < r2[i].1;
        if i < r.len() {
            assert(r2[i] == r[i]);
        }
    }
    if in_ranges(r, t) {
        let i = choose|i: int| 0 <= i < r.len() && #[trigger] r[i].0 <= t < r[i].1;
        assert(r2[i] == r[i]);
    }
    if x.0 <= t < x.1 {
        assert(r2[r.len() as int] == x);
    }
}

fn collect_intervals(log: &VecDeque<LogEntry>, now: u64) -> (r: Vec<(u64, u64)>)
    ensures
        r@ == intervals(log@, now),
{
    let n = log.len();
    let mut r: Vec<(u64, u64)> = Vec::new();
    let mut i: usize = 0;
    while i < n
        invariant
            n == log@.len(),
            0 <= i <= n,
            r@ == intervals(log@.take(i as int), now),
        decreases n - i,
    {
        let e = &log[i];
        let end = match e.end {
            Some(x) => x,
            None => now,
        };
        if e.start < end {
            r.push((e.start, end));
        }
        proof {
            assert(log@.take(i as int + 1).drop_last() =~= log@.take(i as int));
            assert(log@.take(i as int + 1).last() == log@[i as int]);
        }
        i = i + 1;
    }
    proof {
        assert(log@.take(n as int) =~= log@);
    }
    r
}

proof fn lemma_insert_sorted(before: Seq<u64>, p: int, x: u64)
    requires
        strictly_sorted(before),
        0 <= p <= before.len(),
        forall|i: int| 0 <= i < p ==> before[i] < x,
        p < before.len() ==> before[p] > x,
    ensures
        strictly_sorted(before.insert(p, x)),
        forall|y: u64| before.insert(p, x).contains(y) <==> (before.contains(y) || y == x),
{
    let v = before.insert(p, x);
    assert forall|i: int, k: int| 0 <= i < k < v.len() implies #[trigger] v[i] < #[trigger] v[k] by {
        if k < p {
            assert(before[i] < before[k]);
        } else if k == p {
            assert(before[i] < x);
        } else if i < p {
            assert(before[i] < x);
            if k - 1 > p {
                assert(before[p] < before[k - 1]);
            }
        } else if i == p {
            if k - 1 > p {
                assert(before[p] < before[k - 1]);
            }
        } else {
            assert(before[i - 1] < before[k - 1]);
        }
    }
    assert forall|y: u64| v.contains(y) <==> (before.contains(y) || y == x) by {
        if v.contains(y) {
            let i = choose|i: int| 0 <= i < v.len() && v[i] == y;
            if i < p {
                assert(before[i] == y);
            } else if i > p {
                assert(before[i - 1] == y);
            }
        }
        if before.contains(y) {
            let i = choose|i: int| 0 <= i < before.len() && before[i] == y;
            if i < p {
                assert(v[i] == y);
            } else {
                assert(v[i + 1] == y);
            }
        }
        if y == x {
            assert(v[p] == x);
        }
    }
}

fn insert_sorted(v: &mut Vec<u64>, x: u64)
    requires
        strictly_sorted(old(v)@),
    ensures
        strictly_sorted(final(v)@),
        forall|y: u64| final(v)@.contains(y) <==> (old(v)@.contains(y) || y == x),
{
    let n = v.len();
    let mut p: usize = 0;
    while p < n && v[p] < x
        invariant
            n == v@.len(),
            v@ == old(v)@,
            0 <= p <= n,
            forall|i: int| 0 <= i < p ==> v@[i] < x,
        decreases n - p,
    {
        p = p + 1;
    }
    if p < n && v[p] == x {
        proof {
            assert(v@[p as int] == x);
            assert(v@ == old(v)@);
        }
        return;
    }
    proof {
        lemma_insert_sorted(v@, p as int, x);
    }
    v.insert(p, x);
}

fn endpoints(ivs: &Vec<(u64, u64)>) -> (ts: Vec<u64>)
    ensures
        strictly_sorted(ts@),
        forall|x: u64| ts@.contains(x) <==> is_endpoint(ivs@, x as int),
{
    let n = ivs.len();
    let mut ts: Vec<u64> = Vec::new();
    let mut i: usize = 0;
    while i < n
        invariant
            n == ivs@.len(),
            0 <= i <= n,
            strictly_sorted(ts@),
            forall|x: u64| ts@.contains(x) <==> is_endpoint(ivs@.take(i as int), x as int),
        decreases n - i,
    {
        let (a, b) = ivs[i];
        insert_sorted(&mut ts, a);
        insert_sorted(&mut ts, b);
        proof {
            let pre = ivs@.take(i as int);
            let post = ivs@.take(i as int + 1);
            assert forall|x: u64| ts@.contains(x) <==> is_endpoint(post, x as int) by {
                if is_endpoint(post, x as int) {
                    let k = choose|k: int| 0 <= k < post.len() && (#[trigger] post[k].0 == x || post[k].1 == x);
                    if k < i {
                        assert(pre[k] == post[k]);
                        assert(is_endpoint(pre, x as int));
                    } else {
                        assert(post[k] == ivs@[i as int]);
                    }
                }
                if is_endpoint(pre, x as int) {
                    let k = choose|k: int| 0 <= k < pre.len() && (#[trigger] pre[k].0 == x || pre[k].1 == x);
                    assert(pre[k] == post[k]);
                    assert(is_endpoint(post, x as int));
                }
                if x == a || x == b {
                    assert(post[i as int] == ivs@[i as int]);
                    assert(is_endpoint(post, x as int));
                }
            }
        }
        i = i + 1;
    }
    proof {
        assert(ivs@.take(n as int) =~= ivs@);
    }
    ts
}

fn counts_at(ivs: &Vec<(u64, u64)>, t: u64) -> (r: (usize, usize, usize))
    ensures
        r.0 == coverage_before(ivs@, t as int),
        r.1 == coverage_through(ivs@, t as int),
        r.2 == coverage(ivs@, t as int),
{
    let n = ivs.len();
    let mut before: usize = 0;
    let mut through: usize = 0;
    let mut at: usize = 0;
    let mut i: usize = 0;
    while i < n
        invariant
            n == ivs@.len(),
            0 <= i <= n,
            before == coverage_before(ivs@.take(i as int), t as int),
            through == coverage_through(ivs@.take(i as int), t as int),
            at == coverage(ivs@.take(i as int), t as int),
        decreases n - i,
    {
        proof {
            lemma_coverage_bounds(ivs@.take(i as int), t as int);
            assert(ivs@.take(i as int + 1).drop_last() =~= ivs@.take(i as int));
            assert(ivs@.take(i as int + 1).last() == ivs@[i as int]);
        }
        let (a, b) = ivs[i];
        if a < t && t <= b {
            before = before + 1;
        }
        if a < t && t < b {
            through = through + 1;
        }
        if a <= t && t < b {
            at = at + 1;
        }
        i = i + 1;
    }
    proof {
        assert(ivs@.take(n as int) =~= ivs@);
    }
    (before, through, at)
}

/// Whether a stretch of overlap starts at `t`: fewer than two presses run
/// on through `t`, but two or more hold it.
pub open spec fn opens_at(ivs: Seq<(u64, u64)>, t: int) -> bool {
    coverage_through(ivs, t) < 2 && coverage(ivs, t) >= 2
}

/// Whether a stretch of overlap ends at `t`: two or more presses held the
/// instant before `t`, but fewer than two run on through it.
pub open spec fn closes_at(ivs: Seq<(u64, u64)>, t: int) -> bool {
    coverage_through(ivs, t) < 2 && coverage_before(ivs, t) >= 2
}

/// Where no press starts or ends, the three counts agree: nothing opens or
/// closes there.
proof fn lemma_counts_off_endpoints(ivs: Seq<(u64, u64)>, t: int)
    requires
        forall|k: int| #![trigger ivs[k]] 0 <= k < ivs.len() ==> ivs[k].0 != t && ivs[k].1 != t,
    ensures
        coverage_before(ivs, t) == coverage_through(ivs, t),
        coverage_through(ivs, t) == coverage(ivs, t),
    decreases ivs.len(),
{
    if ivs.len() > 0 {
        let d = ivs.drop_last();
        assert forall|k: int| #![trigger d[k]] 0 <= k < d.len() implies d[k].0 != t && d[k].1 != t by {
            assert(d[k] == ivs[k]);
        }
        lemma_counts_off_endpoints(d, t);
        assert(ivs.last() == ivs[ivs.len() - 1]);
    }
}

/// The endpoint handled before the `j`-th, or -1 before the first.
pub open spec fn last_time(ts: Seq<u64>, j: int) -> int {
    if j == 0 {
        -1
    } else {
        ts[j - 1] as int
    }
}

/// Whether `t` lies in one of `ranges` or, when a range is open since `open`,
/// at or after its start.
pub open spec fn member(ranges: Seq<(u64, u64)>, open: Option<u64>, t: int) -> bool {
    in_ranges(ranges, t) || (open matches Some(o) && o <= t)
}

/// Every interval has ended by the last endpoint.
proof fn lemma_all_ended(ts: Seq<u64>, ivs: Seq<(u64, u64)>)
    requires
        strictly_sorted(ts),
        forall|x: u64| ts.contains(x) <==> is_endpoint(ivs, x as int),
    ensures
        coverage(ivs, last_time(ts, ts.len() as int)) == 0,
{
    let last = last_time(ts, ts.len() as int);
    assert forall|k: int| 0 <= k < ivs.len() implies !(#[trigger] ivs[k].0 <= last < ivs[k].1) by {
        let e = ivs[k].1;
        assert(is_endpoint(ivs, e as int));
        assert(ts.contains(e));
        let q = choose|q: int| 0 <= q < ts.len() && ts[q] == e;
        if q < ts.len() - 1 {
            assert(ts[q] < ts[ts.len() - 1]);
        }
    }
    lemma_coverage_zero(ivs, last);
}

/// The stretches of time during which two or more presses of `log` are held
/// at once, a press still held lasting until `now`. They come in order; a
/// time lies in one of them exactly when two or more presses hold it. Each
/// stretch starts at a time where one opens and ends at the first time after
/// it where one closes, and every opening time starts a stretch; so where one
/// press ends at the very time another starts, a stretch is split there.
pub fn overlap_ranges(log: &VecDeque<LogEntry>, now: u64) -> (r: Vec<(u64, u64)>)
    ensures
        ordered_ranges(r@),
        forall|t: int| #[trigger] in_ranges(r@, t) <==> coverage(intervals(log@, now), t) >= 2,
        forall|i: int|
            0 <= i < r@.len() ==> opens_at(intervals(log@, now), #[trigger] r@[i].0 as int)
                && closes_at(intervals(log@, now), r@[i].1 as int),
        forall|i: int, t: int|
            #![trigger r@[i], closes_at(intervals(log@, now), t)]
            0 <= i < r@.len() && r@[i].0 < t < r@[i].1 ==> !closes_at(intervals(log@, now), t),
        forall|t: int|
            #[trigger] opens_at(intervals(log@, now), t) ==> exists|i: int|
                0 <= i < r@.len() && r@[i].0 == t,
{
    let ivs = collect_intervals(log, now);
    let ts = endpoints(&ivs);
    let m = ts.len();
    let mut ranges: Vec<(u64, u64)> = Vec::new();
    let mut seg_start: Option<u64> = None;
    let mut j: usize = 0;
    proof {
        assert forall|t: int| (j == m || t < ts@[j as int]) implies (member(
            ranges@,
            seg_start,
            t,
        ) <==> #[trigger] coverage(ivs@, t) >= 2) by {
            lemma_gap(ts@, ivs@, 0, -1, t);
            if t >= -1 {
                lemma_coverage_const(ivs@, -1, t);
            }
            lemma_coverage_zero(ivs@, -1);
            if t < -1 {
                lemma_coverage_zero(ivs@, t);
            }
        }
        lemma_coverage_zero(ivs@, -1);
        assert forall|t: int| t <= -1 && #[trigger] opens_at(ivs@, t) implies false by {
            lemma_coverage_zero(ivs@, t);
        }
    }
    while j < m
        invariant
            m == ts@.len(),
            0 <= j <= m,
            strictly_sorted(ts@),
            forall|x: u64| ts@.contains(x) <==> is_endpoint(ivs@, x as int),
            ordered_ranges(ranges@),
            forall|i: int| 0 <= i < ranges@.len() ==> #[trigger] ranges@[i].1 <= last_time(ts@, j as int),
            seg_start matches Some(o) ==> o <= last_time(ts@, j as int) && forall|i: int|
                0 <= i < ranges@.len() ==> #[trigger] ranges@[i].1 <= o,
            seg_start is Some <==> coverage(ivs@, last_time(ts@, j as int)) >= 2,
            forall|t: int|
                (j == m || t < ts@[j as int]) ==> (member(ranges@, seg_start, t) <==> #[trigger] coverage(
                    ivs@,
                    t,
                ) >= 2),
            forall|i: int|
                0 <= i < ranges@.len() ==> opens_at(ivs@, #[trigger] ranges@[i].0 as int) && closes_at(
                    ivs@,
                    ranges@[i].1 as int,
                ),
            forall|i: int, t: int|
                #![trigger ranges@[i], closes_at(ivs@, t)]
                0 <= i < ranges@.len() && ranges@[i].0 < t < ranges@[i].1 ==> !closes_at(ivs@, t),
            seg_start matches Some(o) ==> opens_at(ivs@, o as int) && forall|t: int|
                o < t <= last_time(ts@, j as int) ==> !#[trigger] closes_at(ivs@, t),
            forall|t: int|
                t <= last_time(ts@, j as int) && #[trigger] opens_at(ivs@, t) ==> (exists|i: int|
                    0 <= i < ranges@.len() && ranges@[i].0 == t) || (seg_start matches Some(o) && o == t),
        decreases m - j,
    {
        let tau = ts[j];
        let (before, through, after) = counts_at(&ivs, tau);
        let ghost r0 = ranges@;
        let ghost s0 = seg_start;
        let ghost last = last_time(ts@, j as int);
        proof {
            lemma_coverage_before(ivs@, tau as int);
            if j > 0 {
                assert(ts@[j - 1] < ts@[j as int]);
            }
            lemma_gap(ts@, ivs@, j as int, last, tau - 1);
            lemma_coverage_const(ivs@, last, tau - 1);
        }
        if before >= 2 && through < 2 {
            match seg_start {
                Some(o) => {
                    ranges.push((o, tau));
                },
                None => {},
            }
            seg_start = None;
        }
        if through < 2 && after >= 2 {
            seg_start = Some(tau);
        }
        proof {
            assert(last_time(ts@, j as int + 1) == tau);
            assert forall|t: int| (j + 1 == m || t < ts@[j + 1]) implies (member(
                ranges@,
                seg_start,
                t,
            ) <==> #[trigger] coverage(ivs@, t) >= 2) by {
                if ranges@.len() > r0.len() {
                    lemma_in_ranges_push(r0, (s0->0, tau), t);
                } else {
                    assert(ranges@ == r0);
                }
                if t < tau {
                    assert(member(r0, s0, t) <==> coverage(ivs@, t) >= 2);
                } else {
                    lemma_gap(ts@, ivs@, j as int + 1, tau as int, t);
                    lemma_coverage_const(ivs@, tau as int, t);
                    if in_ranges(ranges@, t) {
                        let i = choose|i: int| 0 <= i < ranges@.len() && #[trigger] ranges@[i].0 <= t
                            < ranges@[i].1;
                        if i < r0.len() {
                            assert(ranges@[i] == r0[i]);
                        }
                    }
                }
            }
        }
        proof {
            let ivv = ivs@;
            assert forall|t: int|
                #![trigger opens_at(ivv, t)]
                #![trigger closes_at(ivv, t)]
                last < t < tau implies !opens_at(ivv, t) && !closes_at(ivv, t) by {
                lemma_counts_off_endpoints(ivv, t);
            }
            assert(closes_at(ivv, tau as int) == (before >= 2 && through < 2));
            assert(opens_at(ivv, tau as int) == (through < 2 && after >= 2));
            assert forall|i: int|
                0 <= i < ranges@.len() implies opens_at(ivv, #[trigger] ranges@[i].0 as int) && closes_at(
                ivv,
                ranges@[i].1 as int,
            ) by {
                if i < r0.len() {
                    assert(ranges@[i] == r0[i]);
                }
            }
            assert forall|i: int, t: int|
                #![trigger ranges@[i], closes_at(ivv, t)]
                0 <= i < ranges@.len() && ranges@[i].0 < t < ranges@[i].1 implies !closes_at(ivv, t) by {
                if i < r0.len() {
                    assert(ranges@[i] == r0[i]);
                    assert(r0[i].0 < t < r0[i].1);
                } else {
                    assert(ranges@ == r0.push((s0->0, tau)));
                    assert(ranges@[i] == (s0->0, tau));
                    if t > last {
                        assert(!closes_at(ivv, t));
                    }
                }
            }
            if let Some(o) = seg_start {
                if o != tau {
                    assert forall|t: int| o < t <= tau implies !#[trigger] closes_at(ivv, t) by {
                        if t > last && t < tau {
                            assert(!closes_at(ivv, t));
                        }
                    }
                }
            }
            assert forall|t: int|
                t <= tau && #[trigger] opens_at(ivv, t) implies (exists|i: int|
                0 <= i < ranges@.len() && ranges@[i].0 == t) || (seg_start matches Some(o) && o == t) by {
                if t <= last {
                    if exists|i: int| 0 <= i < r0.len() && r0[i].0 == t {
                        let i = choose|i: int| 0 <= i < r0.len() && r0[i].0 == t;
                        assert(ranges@[i] == r0[i]);
                    } else {
                        assert(s0 matches Some(o) && o == t);
                        if ranges@.len() > r0.len() {
                            assert(ranges@[r0.len() as int].0 == t);
                        }
                    }
                } else if t < tau {
                    assert(!opens_at(ivv, t));
                }
            }
        }
        j = j + 1;
    }
    proof {
        lemma_all_ended(ts@, ivs@);
        assert forall|t: int| #[trigger] in_ranges(ranges@, t) <==> coverage(ivs@, t) >= 2 by {
            assert(member(ranges@, seg_start, t) <==> coverage(ivs@, t) >= 2);
        }
        let last = last_time(ts@, m as int);
        assert forall|t: int| #[trigger] opens_at(ivs@, t) implies exists|i: int|
            0 <= i < ranges@.len() && ranges@[i].0 == t by {
            if t > last {
                lemma_gap(ts@, ivs@, m as int, last, t);
                lemma_counts_off_endpoints(ivs@, t);
            }
        }
    }
    ranges
}

/// Whether the press `e` still shows at time `now` on a track `max_age`
/// nanoseconds long: it ended (or is held) no more than `max_age` ago.
pub open spec fn still_shown(e: LogEntry, now: u64, max_age: u64) -> bool {
    now <= entry_end(e, now) + max_age
}

/// The entries of `log` that still show, in order.
pub open spec fn shown_entries(log: Seq<LogEntry>, now: u64, max_age: u64) -> Seq<LogEntry>
    decreases log.len(),
{
    if log.len() == 0 {
        Seq::empty()
    } else {
        let prev = shown_entries(log.drop_last(), now, max_age);
        if still_shown(log.last(), now, max_age) {
            prev.push(log.last())
        } else {
            prev
        }
    }
}

impl HistoryState {
    /// Drops the presses that have scrolled off a track `max_age`
    /// nanoseconds long, at time `now`.
    pub fn retain_recent_at(&mut self, now: u64, max_age: u64)
        ensures
            final(self)@.log == shown_entries(old(self)@.log, now, max_age),
            final(self)@.tracked_keys == old(self)@.tracked_keys,
            final(self)@.vertical == old(self)@.vertical,
            final(self)@.highlight_overlap == old(self)@.highlight_overlap,
            final(self)@.reverse_direction == old(self)@.reverse_direction,
            final(self).origin_instant() == old(self).origin_instant(),
    {
        let mut kept: VecDeque<LogEntry> = VecDeque::new();
        let ghost all = self.log@;
        let n = self.log.len();
        let mut i: usize = 0;
        while i < n
            invariant
                n == all.len(),
                0 <= i <= n,
                self.log@ == all.subrange(i as int, n as int),
                kept@ == shown_entries(all.take(i as int), now, max_age),
                self.tracked_keys == old(self).tracked_keys,
                self.vertical == old(self).vertical,
                self.highlight_overlap == old(self).highlight_overlap,
                self.reverse_direction == old(self).reverse_direction,
                self.origin == old(self).origin,
                all == old(self).log@,
            decreases n - i,
        {
            let front = self.log.pop_front();
            match front {
                Some(e) => {
                    proof {
                        assert(e == all[i as int]);
                        assert(all.take(i as int + 1).drop_last() =~= all.take(i as int));
                        assert(all.take(i as int + 1).last() == all[i as int]);
                    }
                    let end = match e.end {
                        Some(x) => x,
                        None => now,
                    };
                    if now <= end || now - end <= max_age {
                        kept.push_back(e);
                    }
                },
                None => {},
            }
            proof {
                assert(self.log@ =~= all.subrange(i as int + 1, n as int));
            }
            i = i + 1;
        }
        proof {
            assert(all.take(n as int) =~= all);
        }
        self.log = kept;
    }

    /// Drops the presses that have scrolled off a track `max_age`
    /// nanoseconds long, now.
    pub fn retain_recent(&mut self, max_age: u64)
        ensures
            exists|now: Instant|
                final(self)@ == (HistoryView {
                    log: shown_entries(
                        old(self)@.log,
                        #[trigger] nanos_between(now, old(self).origin_instant()),
                        max_age,
                    ),
                    ..old(self)@
                }),
            final(self).origin_instant() == old(self).origin_instant(),
    {
        let now = nanos_since(&self.origin);
        let ghost reading = choose|t: Instant| now == nanos_between(t, self.origin);
        self.retain_recent_at(now, max_age);
        proof {
            assert(self@ == (HistoryView {
                log: shown_entries(old(self)@.log, nanos_between(reading, old(self).origin_instant()), max_age),
                ..old(self)@
            }));
        }
    }

    /// Nanoseconds from this history's origin to now: the reading taken now,
    /// counted from the origin.
    pub fn now_nanos(&self) -> (r: u64)
        ensures
            exists|now: Instant| r == #[trigger] nanos_between(now, self.origin_instant()),
    {
        assert(self.origin_instant() == self.origin);
        nanos_since(&self.origin)
    }

    /// The keys whose presses are recorded, one track each.
    pub fn tracked_keys(&self) -> (r: &Vec<String>)
        ensures
            r@.map_values(|k: String| k@) == self@.tracked_keys,
    {
        &self.tracked_keys
    }

    /// Whether the tracks run vertically.
    pub fn vertical(&self) -> (r: bool)
        ensures
            r == self@.vertical,
    {
        self.vertical
    }

    /// Whether times when presses overlap are highlighted.
    pub fn highlight_overlap(&self) -> (r: bool)
        ensures
            r == self@.highlight_overlap,
    {
        self.highlight_overlap
    }

    /// Whether the tracks scroll the other way.
    pub fn reverse_direction(&self) -> (r: bool)
        ensures
            r == self@.reverse_direction,
    {
        self.reverse_direction
    }

    /// The presses on record, oldest first.
    pub fn log(&self) -> (r: &VecDeque<LogEntry>)
        ensures
            r@ == self@.log,
    {
        &self.log
    }
}

/// Pruning keeps the presses in their order and judges each on its own: a
/// released press stays exactly while no more than `max_age` nanoseconds
/// have passed since its release (its age counts from its end, not its
/// start), and a press still held always stays.
pub proof fn lemma_retain_by_release(log: Seq<LogEntry>, e: LogEntry, now: u64, max_age: u64)
    ensures
        shown_entries(Seq::empty(), now, max_age) == Seq::<LogEntry>::empty(),
        e.end matches Some(t) ==> shown_entries(log.push(e), now, max_age) == (if now <= t + max_age {
            shown_entries(log, now, max_age).push(e)
        } else {
            shown_entries(log, now, max_age)
        }),
        e.end is None ==> shown_entries(log.push(e), now, max_age) == shown_entries(
            log,
            now,
            max_age,
        ).push(e),
{
    assert(log.push(e).drop_last() =~= log);
    assert(log.push(e).last() == e);
}

} // verus!
