//! The decisions of the overlay renderer that do not depend on geometry:
//! which element is what, which keys are held, and how a key edge reaches
//! the input histories.
use vstd::prelude::*;
use crate::history::{after_edge, HistoryState};
use crate::scroller::{first_nonempty_spec, label_or, label_texts, DisplayDefView, ScrollDisplayDef};
use crate::strings::{chars_eq, chars_of, find_char, first_index_of, lemma_first_index_of_bounds, str_eq, sub_chars};

verus! {

/// How the mouse pad shows movement: the trail wraps at the edges, or the
/// view pans to follow it.
#[derive(Clone, Copy, PartialEq, Eq, Structural, Debug)]
pub enum PadMode {
    Wrap,
    Pan,
}

impl PadMode {
    /// The mode a trail-mode setting names: `pan`, else `Wrap`.
    pub fn from_setting(s: &str) -> (r: PadMode)
        ensures
            r == (if s@ == "pan"@ {
                PadMode::Pan
            } else {
                PadMode::Wrap
            }),
    {
        if str_eq(s, "pan") {
            PadMode::Pan
        } else {
            PadMode::Wrap
        }
    }
}

/// What a layout element is drawn as; histories and scroll displays carry
/// their index among elements of their kind.
#[derive(Clone, Copy, PartialEq, Eq, Structural, Debug)]
pub enum ElementKind {
    Key,
    MousePad,
    History(usize),
    Scroll(usize),
    Skip,
}

/// The type of an element up to its first `|`.
pub open spec fn base_type(t: Seq<char>) -> Seq<char> {
    match first_index_of(t, '|') {
        Some(i) => t.subrange(0, i),
        None => t,
    }
}

/// Whether the base type is one of the four scroll displays.
pub open spec fn is_scroll_type(b: Seq<char>) -> bool {
    b == "scroller"@ || b == "scroll_updown"@ || b == "scroll_up"@ || b == "scroll_down"@
}

/// The kinds of the elements from `i` on, given whether a mouse pad was
/// already placed and how many histories and scroll displays came before.
/// Only the first mouse pad is drawn; an element of another type is a key
/// when it has a label and is skipped otherwise.
pub open spec fn kinds_from(
    bases: Seq<Seq<char>>,
    labelled: Seq<bool>,
    i: int,
    pad_seen: bool,
    histories: nat,
    scrolls: nat,
) -> Seq<ElementKind>
    decreases bases.len() - i,
{
    if i < 0 || i >= bases.len() {
        Seq::empty()
    } else {
        let b = bases[i];
        if b == "mouse_pad"@ && !pad_seen {
            seq![ElementKind::MousePad] + kinds_from(bases, labelled, i + 1, true, histories, scrolls)
        } else if b == "input_history"@ {
            seq![ElementKind::History(histories as usize)] + kinds_from(
                bases,
                labelled,
                i + 1,
                pad_seen,
                histories + 1,
                scrolls,
            )
        } else if is_scroll_type(b) {
            seq![ElementKind::Scroll(scrolls as usize)] + kinds_from(
                bases,
                labelled,
                i + 1,
                pad_seen,
                histories,
                scrolls + 1,
            )
        } else if labelled[i] {
            seq![ElementKind::Key] + kinds_from(bases, labelled, i + 1, pad_seen, histories, scrolls)
        } else {
            seq![ElementKind::Skip] + kinds_from(bases, labelled, i + 1, pad_seen, histories, scrolls)
        }
    }
}

fn base_of(t: &String) -> (r: Vec<char>)
    ensures
        r@ == base_type(t@),
{
    let chars = chars_of(t.as_str());
    proof {
        lemma_first_index_of_bounds(t@, '|');
    }
    match find_char(&chars, '|') {
        Some(i) => sub_chars(&chars, 0, i),
        None => chars,
    }
}

/// The kind of each element, from its type and whether it has a label.
pub fn element_kinds(types: &Vec<String>, labelled: &Vec<bool>) -> (r: Vec<ElementKind>)
    requires
        types@.len() == labelled@.len(),
    ensures
        r@ == kinds_from(
            types@.map_values(|t: String| base_type(t@)),
            labelled@,
            0,
            false,
            0,
            0,
        ),
{
    let ghost bases = types@.map_values(|t: String| base_type(t@));
    let n = types.len();
    let mut r: Vec<ElementKind> = Vec::new();
    let mut pad_seen = false;
    let mut histories: usize = 0;
    let mut scrolls: usize = 0;
    let mouse_pad = chars_of("mouse_pad");
    let input_history = chars_of("input_history");
    let scroller = chars_of("scroller");
    let scroll_updown = chars_of("scroll_updown");
    let scroll_up = chars_of("scroll_up");
    let scroll_down = chars_of("scroll_down");
    let mut i: usize = 0;
    while i < n
        invariant
            n == types@.len(),
            n == labelled@.len(),
            bases == types@.map_values(|t: String| base_type(t@)),
            0 <= i <= n,
            histories <= i,
            scrolls <= i,
            mouse_pad@ == "mouse_pad"@,
            input_history@ == "input_history"@,
            scroller@ == "scroller"@,
            scroll_updown@ == "scroll_updown"@,
            scroll_up@ == "scroll_up"@,
            scroll_down@ == "scroll_down"@,
            r@ + kinds_from(bases, labelled@, i as int, pad_seen, histories as nat, scrolls as nat)
                == kinds_from(bases, labelled@, 0, false, 0, 0),
        decreases n - i,
    {
        let b = base_of(&types[i]);
        let ghost prev = r@;
        let ghost p0 = pad_seen;
        let ghost h0 = histories as nat;
        let ghost s0 = scrolls as nat;
        proof {
            assert(bases[i as int] == b@);
        }
        if chars_eq(&b, &mouse_pad) && !pad_seen {
            r.push(ElementKind::MousePad);
            pad_seen = true;
        } else if chars_eq(&b, &input_history) {
            r.push(ElementKind::History(histories));
            histories = histories + 1;
        } else if chars_eq(&b, &scroller) || chars_eq(&b, &scroll_updown) || chars_eq(&b, &scroll_up)
            || chars_eq(&b, &scroll_down) {
            r.push(ElementKind::Scroll(scrolls));
            scrolls = scrolls + 1;
        } else if labelled[i] {
            r.push(ElementKind::Key);
        } else {
            r.push(ElementKind::Skip);
        }
        proof {
            let rest = kinds_from(bases, labelled@, i as int + 1, pad_seen, histories as nat, scrolls as nat);
            assert(kinds_from(bases, labelled@, i as int, p0, h0, s0) == seq![r@.last()] + rest);
            assert(prev.push(r@.last()) =~= r@);
            assert(prev + (seq![r@.last()] + rest) =~= r@ + rest);
        }
        i = i + 1;
    }
    proof {
        assert(r@ + Seq::<ElementKind>::empty() =~= r@);
    }
    r
}

/// The names of the keys and buttons held down, each once.
///
/// Held in a `Vec` with no name twice rather than a `HashSet<String>`:
/// vstd's `HashSet` and `HashMap` specifications hold only for key types
/// that satisfy `obeys_key_model`, which vstd grants to the integer types
/// and `bool` but not to `String`; without an `assume` nothing about a set
/// of strings could be proved.
pub struct ActiveKeys {
    keys: Vec<String>,
}

impl View for ActiveKeys {
    type V = Set<Seq<char>>;

    closed spec fn view(&self) -> Set<Seq<char>> {
        Set::new(|k: Seq<char>| exists|i: int| 0 <= i < self.keys@.len() && #[trigger] self.keys@[i]@ == k)
    }
}

impl ActiveKeys {
    #[verifier::type_invariant]
    closed spec fn each_once(&self) -> bool {
        forall|i: int, j: int|
            0 <= i < j < self.keys@.len() ==> #[trigger] self.keys@[i]@ != #[trigger] self.keys@[j]@
    }

    /// No key held.
    pub fn new() -> (r: ActiveKeys)
        ensures
            r@ == Set::<Seq<char>>::empty(),
    {
        let r = ActiveKeys { keys: Vec::new() };
        proof {
            assert(r@ =~= Set::<Seq<char>>::empty());
        }
        r
    }

    fn position(&self, key: &str) -> (r: Option<usize>)
        ensures
            match r {
                Some(i) => i < self.keys@.len() && self.keys@[i as int]@ == key@,
                None => !self@.contains(key@),
            },
    {
        let n = self.keys.len();
        let mut i: usize = 0;
        while i < n
            invariant
                n == self.keys@.len(),
                0 <= i <= n,
                forall|k: int| 0 <= k < i ==> self.keys@[k]@ != key@,
            decreases n - i,
        {
            if str_eq(self.keys[i].as_str(), key) {
                return Some(i);
            }
            i = i + 1;
        }
        None
    }

    /// Whether `key` is held.
    pub fn contains(&self, key: &str) -> (r: bool)
        ensures
            r == self@.contains(key@),
    {
        match self.position(key) {
            Some(i) => {
                proof {
                    assert(self@.contains(key@) == (exists|k: int| 0 <= k < self.keys@.len() && #[trigger] self.keys@[k]@ == key@));
                }
                true
            },
            None => false,
        }
    }

    /// Marks `key` held; whether it was not held before.
    pub fn insert(&mut self, key: &str) -> (r: bool)
        ensures
            final(self)@ == old(self)@.insert(key@),
            r == !old(self)@.contains(key@),
    {
        proof {
            use_type_invariant(&*self);
        }
        match self.position(key) {
            Some(i) => {
                proof {
                    assert(self@.contains(key@) == (exists|k: int| 0 <= k < self.keys@.len() && #[trigger] self.keys@[k]@ == key@));
                    assert(self@.insert(key@) =~= self@);
                }
                false
            },
            None => {
                let ghost before = self@;
                let ghost old_keys = self.keys@;
                let mut keys = Vec::new();
                std::mem::swap(&mut keys, &mut self.keys);
                keys.push(key.to_owned());
                self.keys = keys;
                proof {
                    assert(self.keys@ == old_keys.push(self.keys@.last()));
                    assert forall|k: Seq<char>| #[trigger] self@.contains(k) == before.insert(key@).contains(k) by {
                        if before.contains(k) {
                            let w = choose|w: int| 0 <= w < old_keys.len() && #[trigger] old_keys[w]@ == k;
                            assert(self.keys@[w] == old_keys[w]);
                        }
                        if k == key@ {
                            assert(self.keys@[old_keys.len() as int]@ == k);
                        }
                        if self@.contains(k) {
                            let w = choose|w: int| 0 <= w < self.keys@.len() && #[trigger] self.keys@[w]@ == k;
                            if w < old_keys.len() {
                                assert(old_keys[w] == self.keys@[w]);
                            }
                        }
                    }
                    assert(self@ =~= before.insert(key@));
                }
                true
            },
        }
    }

    /// Marks `key` released; whether it was held before.
    pub fn remove(&mut self, key: &str) -> (r: bool)
        ensures
            final(self)@ == old(self)@.remove(key@),
            r == old(self)@.contains(key@),
    {
        proof {
            use_type_invariant(&*self);
        }
        match self.position(key) {
            Some(i) => {
                let ghost before = self@;
                let ghost old_keys = self.keys@;
                proof {
                    assert(before.contains(key@) == (exists|k: int| 0 <= k < old_keys.len() && #[trigger] old_keys[k]@ == key@));
                }
                let mut keys = Vec::new();
                std::mem::swap(&mut keys, &mut self.keys);
                keys.remove(i);
                self.keys = keys;
                proof {
                    assert(self.keys@ == old_keys.remove(i as int));
                    assert forall|k: Seq<char>| #[trigger] self@.contains(k) == before.remove(key@).contains(k) by {
                        if self@.contains(k) {
                            let w = choose|w: int| 0 <= w < self.keys@.len() && #[trigger] self.keys@[w]@ == k;
                            if w < i {
                                assert(old_keys[w] == self.keys@[w]);
                                assert(old_keys[w]@ != old_keys[i as int]@);
                            } else {
                                assert(old_keys[w + 1] == self.keys@[w]);
                                assert(old_keys[w + 1]@ != old_keys[i as int]@);
                            }
                        }
                        if before.contains(k) && k != key@ {
                            let w = choose|w: int| 0 <= w < old_keys.len() && #[trigger] old_keys[w]@ == k;
                            if w < i {
                                assert(self.keys@[w] == old_keys[w]);
                            } else {
                                assert(w != i);
                                assert(self.keys@[w - 1] == old_keys[w]);
                            }
                        }
                    }
                    assert(self@ =~= before.remove(key@));
                }
                true
            },
            None => {
                proof {
                    assert(self@.remove(key@) =~= self@);
                }
                false
            },
        }
    }
}

/// Whether an element with type `type_` and key list `keys` is pressed:
/// with no key list, when its type is held; otherwise when any of its keys
/// is.
pub open spec fn element_pressed(active: Set<Seq<char>>, type_: Seq<char>, keys: Seq<Seq<char>>) -> bool {
    if keys.len() == 0 {
        active.contains(type_)
    } else {
        exists|i: int| 0 <= i < keys.len() && active.contains(#[trigger] keys[i])
    }
}

/// Whether an element is pressed.
pub fn element_active(active: &ActiveKeys, type_: &str, keys: &Vec<String>) -> (r: bool)
    ensures
        r == element_pressed(active@, type_@, keys@.map_values(|k: String| k@)),
{
    let n = keys.len();
    if n == 0 {
        return active.contains(type_);
    }
    let ghost kv = keys@.map_values(|k: String| k@);
    let mut i: usize = 0;
    while i < n
        invariant
            n == keys@.len(),
            kv == keys@.map_values(|k: String| k@),
            0 <= i <= n,
            forall|k: int| 0 <= k < i ==> !active@.contains(#[trigger] kv[k]),
        decreases n - i,
    {
        if active.contains(keys[i].as_str()) {
            proof {
                assert(active@.contains(kv[i as int]));
            }
            return true;
        }
        i = i + 1;
    }
    false
}

/// Whether the history `after` is `before` with the key edge recorded when
/// it tracks the key, and `before` itself otherwise.
pub open spec fn history_edge(before: HistoryState, after: HistoryState, name: Seq<char>, pressed: bool) -> bool {
    if before@.tracked_keys.contains(name) {
        &&& exists|now: u64| after_edge(before@.log, after@.log, name, pressed, now)
        &&& after@.tracked_keys == before@.tracked_keys
        &&& after@.vertical == before@.vertical
        &&& after@.highlight_overlap == before@.highlight_overlap
        &&& after@.reverse_direction == before@.reverse_direction
    } else {
        after == before
    }
}

/// Whether the histories after a key edge are the histories before, each
/// with the edge recorded as `history_edge` says.
pub open spec fn edge_recorded(
    before: Seq<HistoryState>,
    after: Seq<HistoryState>,
    name: Seq<char>,
    pressed: bool,
) -> bool {
    &&& after.len() == before.len()
    &&& forall|k: int| 0 <= k < before.len() ==> #[trigger] history_edge(before[k], after[k], name, pressed)
}

/// Applies a press (`pressed`) or release of the key `name`: each history
/// that tracks it records the edge, and the key is marked held or released.
/// Whether the set of held keys changed; an unnamed key changes nothing.
pub fn set_active(
    active: &mut ActiveKeys,
    histories: &mut Vec<HistoryState>,
    name: Option<&str>,
    pressed: bool,
) -> (r: bool)
    ensures
        match name {
            None => !r && final(active)@ == old(active)@ && final(histories)@ == old(histories)@,
            Some(n) => {
                &&& edge_recorded(old(histories)@, final(histories)@, n@, pressed)
                &&& final(active)@ == (if pressed {
                    old(active)@.insert(n@)
                } else {
                    old(active)@.remove(n@)
                })
                &&& r == (if pressed {
                    !old(active)@.contains(n@)
                } else {
                    old(active)@.contains(n@)
                })
            },
        },
{
    let name = match name {
        Some(n) => n,
        None => {
            return false;
        },
    };
    let ghost before = histories@;
    let n = histories.len();
    let mut i: usize = 0;
    while i < n
        invariant
            n == histories@.len(),
            n == before.len(),
            0 <= i <= n,
            forall|k: int| i <= k < n ==> #[trigger] histories@[k] == before[k],
            forall|k: int| 0 <= k < i ==> #[trigger] history_edge(before[k], histories@[k], name@, pressed),
        decreases n - i,
    {
        let ghost h0 = histories@;
        if histories[i].tracks(name) {
            histories[i].record_edge(name, pressed);
        }
        proof {
            assert(histories@.len() == h0.len());
            assert(history_edge(before[i as int], histories@[i as int], name@, pressed));
            assert forall|k: int| 0 <= k < i + 1 implies #[trigger] history_edge(before[k], histories@[k], name@, pressed) by {
                if k < i {
                    assert(histories@[k] == h0[k]);
                    assert(history_edge(before[k], h0[k], name@, pressed));
                }
            }
        }
        i = i + 1;
    }
    if pressed {
        active.insert(name)
    } else {
        active.remove(name)
    }
}

/// Once a mouse pad has been placed, no later element is one.
proof fn lemma_no_pad_after(
    bases: Seq<Seq<char>>,
    labelled: Seq<bool>,
    i: int,
    histories: nat,
    scrolls: nat,
)
    ensures
        forall|k: int|
            0 <= k < kinds_from(bases, labelled, i, true, histories, scrolls).len() ==> #[trigger] kinds_from(
                bases,
                labelled,
                i,
                true,
                histories,
                scrolls,
            )[k] != ElementKind::MousePad,
    decreases bases.len() - i,
{
    if 0 <= i < bases.len() {
        let b = bases[i];
        if b == "input_history"@ {
            lemma_no_pad_after(bases, labelled, i + 1, histories + 1, scrolls);
        } else if is_scroll_type(b) {
            lemma_no_pad_after(bases, labelled, i + 1, histories, scrolls + 1);
        } else {
            lemma_no_pad_after(bases, labelled, i + 1, histories, scrolls);
        }
    }
}

/// At most one element is drawn as the mouse pad: the first of that type.
pub proof fn lemma_one_mouse_pad(
    bases: Seq<Seq<char>>,
    labelled: Seq<bool>,
    i: int,
    pad_seen: bool,
    histories: nat,
    scrolls: nat,
)
    ensures
        forall|j: int, k: int|
            0 <= j < k < kinds_from(bases, labelled, i, pad_seen, histories, scrolls).len() ==> !(
            #[trigger] kinds_from(bases, labelled, i, pad_seen, histories, scrolls)[j]
                == ElementKind::MousePad && #[trigger] kinds_from(
                bases,
                labelled,
                i,
                pad_seen,
                histories,
                scrolls,
            )[k] == ElementKind::MousePad),
    decreases bases.len() - i,
{
    if 0 <= i < bases.len() {
        let b = bases[i];
        let ks = kinds_from(bases, labelled, i, pad_seen, histories, scrolls);
        if b == "mouse_pad"@ && !pad_seen {
            lemma_no_pad_after(bases, labelled, i + 1, histories, scrolls);
            let rest = kinds_from(bases, labelled, i + 1, true, histories, scrolls);
            assert forall|j: int, k: int| 0 <= j < k < ks.len() implies !(#[trigger] ks[j]
                == ElementKind::MousePad && #[trigger] ks[k] == ElementKind::MousePad) by {
                assert(ks[k] == rest[k - 1]);
            }
        } else {
            let (p2, h2, s2) = if b == "input_history"@ {
                (pad_seen, histories + 1, scrolls)
            } else if is_scroll_type(b) {
                (pad_seen, histories, scrolls + 1)
            } else {
                (pad_seen, histories, scrolls)
            };
            lemma_one_mouse_pad(bases, labelled, i + 1, p2, h2, s2);
            let rest = kinds_from(bases, labelled, i + 1, p2, h2, s2);
            assert(ks == seq![ks[0]] + rest);
            assert(ks[0] != ElementKind::MousePad);
            assert forall|j: int, k: int| 0 <= j < k < ks.len() implies !(#[trigger] ks[j]
                == ElementKind::MousePad && #[trigger] ks[k] == ElementKind::MousePad) by {
                if j > 0 {
                    assert(ks[j] == rest[j - 1]);
                    assert(ks[k] == rest[k - 1]);
                }
            }
        }
    }
}

/// Pressing a key that was not held and then releasing it leaves the held
/// set as it was.
pub proof fn lemma_press_release_restores(active: Set<Seq<char>>, name: Seq<char>)
    requires
        !active.contains(name),
    ensures
        active.insert(name).remove(name) == active,
{
    assert(active.insert(name).remove(name) =~= active);
}

/// The scroll display an element of type `type_` stands for, given its
/// label list and its single label: by the type up to its first `|`.
pub fn scroll_def_for(type_: &str, labels: &[String], label: Option<&str>) -> (r: Option<
    ScrollDisplayDef,
>)
    ensures
        match r {
            None => !is_scroll_type(base_type(type_@)),
            Some(d) => {
                let b = base_type(type_@);
                let opt = match label {
                    Some(l) => Some(l@),
                    None => None,
                };
                &&& is_scroll_type(b)
                &&& b == "scroller"@ ==> d@.is_scroller && d@.dir_filter is None
                    && d@.default_label == first_nonempty_spec(label_texts(labels@), 0, "M3"@)
                    && d@.up_label == first_nonempty_spec(label_texts(labels@), 1, "▲"@)
                    && d@.down_label == first_nonempty_spec(label_texts(labels@), 2, "▼"@)
                &&& b == "scroll_updown"@ ==> !d@.is_scroller && d@.dir_filter is None
                    && d@.default_label == Seq::<char>::empty()
                    && d@.up_label == first_nonempty_spec(label_texts(labels@), 0, "▲"@)
                    && d@.down_label == first_nonempty_spec(label_texts(labels@), 1, "▼"@)
                &&& b == "scroll_up"@ ==> !d@.is_scroller && d@.dir_filter == Some(-1i8)
                    && d@.default_label == label_or(opt, "▲"@) && d@.up_label == d@.default_label
                    && d@.down_label == Seq::<char>::empty()
                &&& b == "scroll_down"@ ==> !d@.is_scroller && d@.dir_filter == Some(1i8)
                    && d@.default_label == label_or(opt, "▼"@) && d@.down_label == d@.default_label
                    && d@.up_label == Seq::<char>::empty()
            },
        },
{
    proof {
        reveal_strlit("scroller");
        reveal_strlit("scroll_updown");
        reveal_strlit("scroll_up");
        reveal_strlit("scroll_down");
        assert("scroller"@.len() == 8);
        assert("scroll_up"@.len() == 9);
        assert("scroll_down"@.len() == 11);
        assert("scroll_updown"@.len() == 13);
    }
    let t = type_.to_owned();
    let b = base_of(&t);
    if chars_eq(&b, &chars_of("scroller")) {
        Some(ScrollDisplayDef::scroller(labels))
    } else if chars_eq(&b, &chars_of("scroll_updown")) {
        Some(ScrollDisplayDef::scroll_updown(labels))
    } else if chars_eq(&b, &chars_of("scroll_up")) {
        Some(ScrollDisplayDef::scroll_up(label))
    } else if chars_eq(&b, &chars_of("scroll_down")) {
        Some(ScrollDisplayDef::scroll_down(label))
    } else {
        None
    }
}

} // verus!
