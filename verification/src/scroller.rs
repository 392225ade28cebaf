use vstd::prelude::*;
use std::time::{Duration, Instant};
use crate::clock::{duration_nanos, instant_now, nanos_of, nanos_since, saturated};

verus! {

/// The labels and the direction filter of a scroll-wheel element.
pub struct ScrollDisplayDef {
    default_label: String,
    up_label: String,
    down_label: String,
    dir_filter: Option<i8>,
    is_scroller: bool,
}

/// What a `ScrollDisplayDef` holds.
pub struct DisplayDefView {
    pub default_label: Seq<char>,
    pub up_label: Seq<char>,
    pub down_label: Seq<char>,
    pub dir_filter: Option<i8>,
    pub is_scroller: bool,
}

impl View for ScrollDisplayDef {
    type V = DisplayDefView;

    closed spec fn view(&self) -> DisplayDefView {
        DisplayDefView {
            default_label: self.default_label@,
            up_label: self.up_label@,
            down_label: self.down_label@,
            dir_filter: self.dir_filter,
            is_scroller: self.is_scroller,
        }
    }
}

/// `labels[idx]` when it exists and is not empty, else `default`.
pub open spec fn first_nonempty_spec(labels: Seq<Seq<char>>, idx: int, default: Seq<char>) -> Seq<
    char,
> {
    if 0 <= idx < labels.len() && labels[idx].len() > 0 {
        labels[idx]
    } else {
        default
    }
}

/// The texts of `labels`.
pub open spec fn label_texts(labels: Seq<String>) -> Seq<Seq<char>> {
    labels.map_values(|l: String| l@)
}

/// `labels[idx]` when it exists and is not empty, else `default`.
pub fn first_nonempty(labels: &[String], idx: usize, default: &str) -> (r: String)
    ensures
        r@ == first_nonempty_spec(label_texts(labels@), idx as int, default@),
{
    if idx < labels.len() {
        let l = labels[idx].as_str();
        if !l.is_empty() {
            return l.to_owned();
        }
    }
    default.to_owned()
}

/// The label chosen by a string that may be absent or empty.
pub open spec fn label_or(label: Option<Seq<char>>, default: Seq<char>) -> Seq<char> {
    match label {
        Some(l) => if l.len() > 0 {
            l
        } else {
            default
        },
        None => default,
    }
}

impl ScrollDisplayDef {
    /// The middle-button element with scroll arrows: its labels are the first
    /// three of `labels`, where present and not empty.
    pub fn scroller(labels: &[String]) -> (r: ScrollDisplayDef)
        ensures
            r@.default_label == first_nonempty_spec(label_texts(labels@), 0, "M3"@),
            r@.up_label == first_nonempty_spec(label_texts(labels@), 1, "▲"@),
            r@.down_label == first_nonempty_spec(label_texts(labels@), 2, "▼"@),
            r@.dir_filter is None,
            r@.is_scroller,
    {
        ScrollDisplayDef {
            default_label: first_nonempty(labels, 0, "M3"),
            up_label: first_nonempty(labels, 1, "▲"),
            down_label: first_nonempty(labels, 2, "▼"),
            dir_filter: None,
            is_scroller: true,
        }
    }

    /// An element that shows either scroll direction.
    pub fn scroll_updown(labels: &[String]) -> (r: ScrollDisplayDef)
        ensures
            r@.default_label == Seq::<char>::empty(),
            r@.up_label == first_nonempty_spec(label_texts(labels@), 0, "▲"@),
            r@.down_label == first_nonempty_spec(label_texts(labels@), 1, "▼"@),
            r@.dir_filter is None,
            !r@.is_scroller,
    {
        ScrollDisplayDef {
            default_label: String::new(),
            up_label: first_nonempty(labels, 0, "▲"),
            down_label: first_nonempty(labels, 1, "▼"),
            dir_filter: None,
            is_scroller: false,
        }
    }

    /// An element that shows scrolling up only.
    pub fn scroll_up(label: Option<&str>) -> (r: ScrollDisplayDef)
        ensures
            r@.default_label == label_or(
                match label {
                    Some(l) => Some(l@),
                    None => None,
                },
                "▲"@,
            ),
            r@.up_label == r@.default_label,
            r@.down_label == Seq::<char>::empty(),
            r@.dir_filter == Some(-1i8),
            !r@.is_scroller,
    {
        let chosen: &str = match label {
            Some(l) => if !l.is_empty() {
                l
            } else {
                "▲"
            },
            None => "▲",
        };
        let label = chosen.to_owned();
        ScrollDisplayDef {
            default_label: label.clone(),
            up_label: label,
            down_label: String::new(),
            dir_filter: Some(-1),
            is_scroller: false,
        }
    }

    /// An element that shows scrolling down only.
    pub fn scroll_down(label: Option<&str>) -> (r: ScrollDisplayDef)
        ensures
            r@.default_label == label_or(
                match label {
                    Some(l) => Some(l@),
                    None => None,
                },
                "▼"@,
            ),
            r@.down_label == r@.default_label,
            r@.up_label == Seq::<char>::empty(),
            r@.dir_filter == Some(1i8),
            !r@.is_scroller,
    {
        let chosen: &str = match label {
            Some(l) => if !l.is_empty() {
                l
            } else {
                "▼"
            },
            None => "▼",
        };
        let label = chosen.to_owned();
        ScrollDisplayDef {
            default_label: label.clone(),
            up_label: String::new(),
            down_label: label,
            dir_filter: Some(1),
            is_scroller: false,
        }
    }

    /// The label shown for the last scroll direction.
    pub open spec fn arrow_label_spec(self, last_direction: i8) -> Seq<char> {
        if self@.dir_filter is Some {
            self@.default_label
        } else if last_direction == -1 {
            self@.up_label
        } else if last_direction == 1 {
            self@.down_label
        } else {
            self@.default_label
        }
    }

    /// The label shown for the last scroll direction: a filtered element
    /// always shows its own label.
    pub fn arrow_label(&self, last_direction: i8) -> (r: &str)
        ensures
            r@ == self.arrow_label_spec(last_direction),
    {
        if self.dir_filter.is_some() {
            self.default_label.as_str()
        } else if last_direction == -1 {
            self.up_label.as_str()
        } else if last_direction == 1 {
            self.down_label.as_str()
        } else {
            self.default_label.as_str()
        }
    }

    /// The three labels, default first.
    pub fn all_labels(&self) -> (r: [&str; 3])
        ensures
            r@.len() == 3,
            r@[0]@ == self@.default_label,
            r@[1]@ == self@.up_label,
            r@[2]@ == self@.down_label,
    {
        [self.default_label.as_str(), self.up_label.as_str(), self.down_label.as_str()]
    }
}

/// The scroll counters of an element, with the time of the last scroll and
/// the time at which the display lapses, both in nanoseconds from `origin`.
pub struct ScrollState {
    current_count: u32,
    last_direction: i8,
    up_active: bool,
    down_active: bool,
    up_count: u32,
    down_count: u32,
    deadline: Option<u64>,
    last_tick: u64,
    origin: Instant,
}

/// What a `ScrollState` holds, times in nanoseconds from its own origin.
pub struct ScrollView {
    pub current_count: u32,
    pub last_direction: i8,
    pub up_active: bool,
    pub down_active: bool,
    pub up_count: u32,
    pub down_count: u32,
    pub deadline: Option<u64>,
    pub last_tick: u64,
}

impl View for ScrollState {
    type V = ScrollView;

    closed spec fn view(&self) -> ScrollView {
        ScrollView {
            current_count: self.current_count,
            last_direction: self.last_direction,
            up_active: self.up_active,
            down_active: self.down_active,
            up_count: self.up_count,
            down_count: self.down_count,
            deadline: self.deadline,
            last_tick: self.last_tick,
        }
    }
}

/// The state with no scroll recorded.
pub open spec fn idle_view(v: ScrollView) -> bool {
    &&& v.current_count == 0
    &&& v.last_direction == 0
    &&& !v.up_active
    &&& !v.down_active
    &&& v.up_count == 0
    &&& v.down_count == 0
    &&& v.deadline is None
    &&& v.last_tick == 0
}

/// The direction of a wheel rotation: up (-1) for a negative rotation, down (1)
/// otherwise.
pub open spec fn scroll_dir(rotation: i8) -> i8 {
    if rotation < 0 {
        -1i8
    } else {
        1i8
    }
}

/// The state after one scroll of `rotation` at time `now`, shown for `hold`
/// nanoseconds. The count wraps round to zero past `u32::MAX`.
pub open spec fn after_scroll(v: ScrollView, rotation: i8, hold: u64, now: u64) -> ScrollView {
    let dir = scroll_dir(rotation);
    let next = (if v.last_direction != 0 && v.last_direction != dir {
        0
    } else {
        v.current_count
    }) + 1;
    let count: u32 = if next > u32::MAX {
        0
    } else {
        next as u32
    };
    ScrollView {
        current_count: count,
        last_direction: dir,
        up_active: v.up_active || dir == -1,
        down_active: v.down_active || dir == 1,
        up_count: if dir == -1 {
            count
        } else {
            v.up_count
        },
        down_count: if dir == 1 {
            count
        } else {
            v.down_count
        },
        deadline: Some(
            (if now + hold <= u64::MAX {
                now + hold
            } else {
                u64::MAX as int
            }) as u64,
        ),
        last_tick: now,
    }
}

/// What an element shows: whether it is active, the count, and the
/// direction of its badge.
pub open spec fn display_spec(v: ScrollView, d: DisplayDefView) -> (bool, u32, i8) {
    match d.dir_filter {
        Some(f) => if f == -1 {
            (v.up_active, v.up_count, -1i8)
        } else if f == 1 {
            (v.down_active, v.down_count, 1i8)
        } else {
            (v.up_active || v.down_active, v.current_count, v.last_direction)
        },
        None => (v.up_active || v.down_active, v.current_count, v.last_direction),
    }
}

/// Nanoseconds from `tick` to `now`, zero when `now` is earlier.
pub open spec fn elapsed_since(now: u64, tick: u64) -> u64 {
    if now >= tick {
        (now - tick) as u64
    } else {
        0
    }
}

/// Whether `after` is `before` pruned at time `now`: cleared once `now` has
/// reached the deadline, unchanged before it or without one.
pub open spec fn pruned(before: ScrollView, after: ScrollView, now: u64) -> bool {
    match before.deadline {
        Some(d) => if now >= d {
            idle_view(after)
        } else {
            after == before
        },
        None => after == before,
    }
}

impl ScrollState {
    /// A state with no scroll recorded, its clock starting now.
    pub fn new() -> (r: ScrollState)
        ensures
            idle_view(r@),
    {
        ScrollState {
            current_count: 0,
            last_direction: 0,
            up_active: false,
            down_active: false,
            up_count: 0,
            down_count: 0,
            deadline: None,
            last_tick: 0,
            origin: instant_now(),
        }
    }

    /// Records a scroll of `rotation` at time `now` (nanoseconds from this
    /// state's origin), displayed for `hold` nanoseconds. A change of
    /// direction restarts the count; past `u32::MAX` it wraps round to zero.
    pub fn handle_scroll_at(&mut self, rotation: i8, hold: u64, now: u64)
        ensures
            final(self)@ == after_scroll(old(self)@, rotation, hold, now),
    {
        let dir: i8 = if rotation < 0 {
            -1
        } else {
            1
        };
        if self.last_direction != 0 && self.last_direction != dir {
            self.current_count = 0;
        }
        self.last_direction = dir;
        self.current_count = if self.current_count == u32::MAX {
            0
        } else {
            self.current_count + 1
        };
        if dir == -1 {
            self.up_active = true;
            self.up_count = self.current_count;
        } else {
            self.down_active = true;
            self.down_count = self.current_count;
        }
        self.last_tick = now;
        self.deadline = Some(now.saturating_add(hold));
    }

    /// Records a scroll of `rotation` now, displayed for `hold`.
    pub fn handle_scroll(&mut self, rotation: i8, hold: Duration)
        ensures
            exists|now: u64|
                final(self)@ == #[trigger] after_scroll(
                    old(self)@,
                    rotation,
                    saturated(nanos_of(hold)),
                    now,
                ),
    {
        let now = nanos_since(&self.origin);
        let hold_ns = duration_nanos(&hold);
        self.handle_scroll_at(rotation, hold_ns, now);
    }

    /// Clears the state once `now` has reached its deadline.
    pub fn prune_expired_at(&mut self, now: u64)
        ensures
            pruned(old(self)@, final(self)@, now),
    {
        if let Some(d) = self.deadline {
            if now >= d {
                *self = ScrollState::new();
            }
        }
    }

    /// Clears the state if its deadline has passed: the state becomes what
    /// pruning at the clock reading taken now gives.
    pub fn prune_expired(&mut self)
        ensures
            exists|now: u64| #[trigger] pruned(old(self)@, final(self)@, now),
    {
        let now = nanos_since(&self.origin);
        self.prune_expired_at(now);
    }

    /// Whether a scroll is still on display.
    pub fn is_live(&self) -> (r: bool)
        ensures
            r == self@.deadline is Some,
    {
        self.deadline.is_some()
    }

    /// Whether the element, described by `def`, is shown as pressed.
    pub fn is_active(&self, def: &ScrollDisplayDef, mouse_middle_held: bool) -> (r: bool)
        ensures
            r == ((def@.is_scroller && mouse_middle_held) || display_spec(self@, def@).0),
    {
        let (scroll_active, _, _) = self.display_state(def);
        (def.is_scroller && mouse_middle_held) || scroll_active
    }

    /// Whether the element is active, the count it shows and the direction
    /// of its badge.
    pub fn display_state(&self, def: &ScrollDisplayDef) -> (r: (bool, u32, i8))
        ensures
            r == display_spec(self@, def@),
    {
        match def.dir_filter {
            Some(f) => if f == -1 {
                (self.up_active, self.up_count, -1)
            } else if f == 1 {
                (self.down_active, self.down_count, 1)
            } else {
                (self.up_active || self.down_active, self.current_count, self.last_direction)
            },
            None => (self.up_active || self.down_active, self.current_count, self.last_direction),
        }
    }

    /// The direction of the last scroll: -1 up, 1 down, 0 none yet.
    pub fn last_direction(&self) -> (r: i8)
        ensures
            r == self@.last_direction,
    {
        self.last_direction
    }

    /// Nanoseconds since the last scroll (or since the state was made).
    pub fn nanos_since_last_tick(&self) -> (r: u64)
        ensures
            exists|now: u64| r == #[trigger] elapsed_since(now, self@.last_tick),
    {
        let now = nanos_since(&self.origin);
        let r = now.saturating_sub(self.last_tick);
        proof {
            assert(r == elapsed_since(now, self@.last_tick));
        }
        r
    }
}

/// After a scroll the element is live and shown active by every element
/// whose filter admits that direction; scrolling on in the same direction
/// counts up by one, a reversal starts again at one.
pub proof fn lemma_scroll_counts(v: ScrollView, rotation: i8, hold: u64, now: u64, d: DisplayDefView)
    requires
        v.current_count < u32::MAX,
    ensures
        after_scroll(v, rotation, hold, now).deadline is Some,
        now + hold <= u64::MAX ==> after_scroll(v, rotation, hold, now).deadline == Some(
            (now + hold) as u64,
        ),
        after_scroll(v, rotation, hold, now).current_count == (if v.last_direction == 0
            || v.last_direction == scroll_dir(rotation) {
            v.current_count + 1
        } else {
            1
        }),
        d.dir_filter is None || d.dir_filter == Some(scroll_dir(rotation)) ==> display_spec(
            after_scroll(v, rotation, hold, now),
            d,
        ).0,
{
}

} // verus!
