//! The layout tuples of an overlay: `[type, labels.., w, h, x, y, "top"?]`.
use vstd::prelude::*;
use serde_json::Value;
use crate::link::{arity_of, cfg_text, decode_base64url_zlib, label_arity, split_on, QueryParams};
use crate::strings::{
    chars_eq, chars_of, find_char, first_index_of, lemma_first_index_of_bounds,
    string_from_chars, sub_chars,
};

verus! {

/// One element of a layout tuple, as far as the layout reads it: a string,
/// a number (by its decimal text), a boolean, or anything else.
pub enum JsonScalar {
    Str(String),
    Num(String),
    Bool(bool),
    Other,
}

/// The text a tuple element stands for: a string itself, a number's
/// decimal text, `true` or `false`, and nothing for anything else.
pub open spec fn scalar_text(v: JsonScalar) -> Seq<char> {
    match v {
        JsonScalar::Str(s) => s@,
        JsonScalar::Num(t) => t@,
        JsonScalar::Bool(b) => if b {
            "true"@
        } else {
            "false"@
        },
        JsonScalar::Other => Seq::empty(),
    }
}

/// The text of a tuple element.
pub fn value_to_string(v: &JsonScalar) -> (r: String)
    ensures
        r@ == scalar_text(*v),
{
    match v {
        JsonScalar::Str(s) => s.clone(),
        JsonScalar::Num(t) => t.clone(),
        JsonScalar::Bool(b) => if *b {
            "true".to_owned()
        } else {
            "false".to_owned()
        },
        JsonScalar::Other => String::new(),
    }
}

/// The pieces of `s` between occurrences of `sep`.
pub fn split_chars(s: &Vec<char>, sep: char) -> (r: Vec<Vec<char>>)
    ensures
        r@.map_values(|p: Vec<char>| p@) == split_on(s@, sep),
{
    let mut out: Vec<Vec<char>> = Vec::new();
    let mut rest = sub_chars(s, 0, s.len());
    proof {
        assert(rest@ =~= s@);
        assert(out@.map_values(|p: Vec<char>| p@) + split_on(rest@, sep) =~= split_on(s@, sep));
    }
    loop
        invariant
            out@.map_values(|p: Vec<char>| p@) + split_on(rest@, sep) == split_on(s@, sep),
        decreases rest@.len(),
    {
        let ghost before = out@.map_values(|p: Vec<char>| p@);
        proof {
            lemma_first_index_of_bounds(rest@, sep);
        }
        match find_char(&rest, sep) {
            Some(i) => {
                let rl = rest.len();
                proof {
                    assert(i < rl);
                }
                let piece = sub_chars(&rest, 0, i);
                let tail = sub_chars(&rest, i + 1, rl);
                proof {
                    assert(split_on(rest@, sep) == seq![piece@] + split_on(tail@, sep));
                }
                out.push(piece);
                proof {
                    assert(out@.map_values(|p: Vec<char>| p@) =~= before.push(piece@));
                    assert(before.push(piece@) + split_on(tail@, sep) =~= before + (seq![piece@]
                        + split_on(tail@, sep)));
                }
                rest = tail;
            },
            None => {
                proof {
                    assert(split_on(rest@, sep) == seq![rest@]);
                }
                out.push(rest);
                proof {
                    assert(out@.map_values(|p: Vec<char>| p@) =~= split_on(s@, sep));
                }
                return out;
            },
        }
    }
}

/// The pieces that are not empty, in order.
pub open spec fn nonempty_pieces(pieces: Seq<Seq<char>>) -> Seq<Seq<char>>
    decreases pieces.len(),
{
    if pieces.len() == 0 {
        Seq::empty()
    } else {
        let prev = nonempty_pieces(pieces.drop_last());
        if pieces.last().len() > 0 {
            prev.push(pieces.last())
        } else {
            prev
        }
    }
}

/// The texts of `v`.
pub open spec fn texts(v: Seq<String>) -> Seq<Seq<char>> {
    v.map_values(|s: String| s@)
}

/// The text of an optional string.
pub open spec fn opt_text(o: Option<String>) -> Option<Seq<char>> {
    match o {
        Some(s) => Some(s@),
        None => None,
    }
}

pub(crate) fn nonempty_strings(pieces: &Vec<Vec<char>>) -> (r: Vec<String>)
    ensures
        texts(r@) == nonempty_pieces(pieces@.map_values(|p: Vec<char>| p@)),
{
    let ghost all = pieces@.map_values(|p: Vec<char>| p@);
    let n = pieces.len();
    let mut r: Vec<String> = Vec::new();
    let mut i: usize = 0;
    while i < n
        invariant
            n == pieces@.len(),
            all == pieces@.map_values(|p: Vec<char>| p@),
            0 <= i <= n,
            texts(r@) == nonempty_pieces(all.take(i as int)),
        decreases n - i,
    {
        let ghost prev = r@;
        proof {
            assert(all.take(i as int + 1).drop_last() =~= all.take(i as int));
            assert(all.take(i as int + 1).last() == pieces@[i as int]@);
        }
        if pieces[i].len() > 0 {
            let s = string_from_chars(pieces[i].as_slice());
            r.push(s);
            proof {
                assert(texts(r@) =~= texts(prev).push(s@));
            }
        }
        i = i + 1;
    }
    proof {
        assert(all.take(n as int) =~= all);
    }
    r
}

fn strings_of(pieces: &Vec<Vec<char>>) -> (r: Vec<String>)
    ensures
        texts(r@) == pieces@.map_values(|p: Vec<char>| p@),
{
    let n = pieces.len();
    let mut r: Vec<String> = Vec::new();
    let mut i: usize = 0;
    while i < n
        invariant
            n == pieces@.len(),
            0 <= i <= n,
            texts(r@) == pieces@.take(i as int).map_values(|p: Vec<char>| p@),
        decreases n - i,
    {
        let s = string_from_chars(pieces[i].as_slice());
        let ghost prev = r@;
        r.push(s);
        proof {
            assert(texts(r@) =~= texts(prev).push(s@));
            assert(pieces@.take(i as int + 1).map_values(|p: Vec<char>| p@) =~= pieces@.take(
                i as int,
            ).map_values(|p: Vec<char>| p@).push(pieces@[i as int]@));
        }
        i = i + 1;
    }
    proof {
        assert(pieces@.take(n as int) =~= pieces@);
    }
    r
}

/// The settings of an input-history element.
pub struct HistoryConfig {
    pub tracked_keys: Vec<String>,
    pub vertical: bool,
    pub scroll_speed_text: Option<String>,
    pub highlight_overlap: bool,
    pub reverse_direction: bool,
}

/// What the configuration text `cfg` of an input-history element says:
/// `keys;vertical;speed;highlight;reverse`, the keys comma-separated, each
/// flag set by `1`.
pub open spec fn history_config_ok(cfg: Seq<char>, h: HistoryConfig) -> bool {
    let parts = split_on(cfg, ';');
    &&& texts(h.tracked_keys@) == nonempty_pieces(split_on(parts[0], ','))
    &&& h.vertical == (parts.len() > 1 && parts[1] == "1"@)
    &&& opt_text(h.scroll_speed_text) == (if parts.len() > 2 {
        Some(parts[2])
    } else {
        None
    })
    &&& h.highlight_overlap == (parts.len() > 3 && parts[3] == "1"@)
    &&& h.reverse_direction == (parts.len() > 4 && parts[4] == "1"@)
}

/// Reads the configuration text of an input-history element.
pub fn parse_history_config(cfg: &Vec<char>) -> (r: HistoryConfig)
    ensures
        history_config_ok(cfg@, r),
{
    let parts = split_chars(cfg, ';');
    let ghost pv = parts@.map_values(|p: Vec<char>| p@);
    proof {
        assert(pv.len() > 0) by {
            lemma_first_index_of_bounds(cfg@, ';');
        }
    }
    let one = chars_of("1");
    let keys = split_chars(&parts[0], ',');
    let tracked_keys = nonempty_strings(&keys);
    let vertical = parts.len() > 1 && chars_eq(&parts[1], &one);
    let scroll_speed_text = if parts.len() > 2 {
        Some(string_from_chars(parts[2].as_slice()))
    } else {
        None
    };
    let highlight_overlap = parts.len() > 3 && chars_eq(&parts[3], &one);
    let reverse_direction = parts.len() > 4 && chars_eq(&parts[4], &one);
    proof {
        assert(pv[0] == parts@[0]@);
        if parts.len() > 1 {
            assert(pv[1] == parts@[1]@);
        }
        if parts.len() > 2 {
            assert(pv[2] == parts@[2]@);
        }
        if parts.len() > 3 {
            assert(pv[3] == parts@[3]@);
        }
        if parts.len() > 4 {
            assert(pv[4] == parts@[4]@);
        }
    }
    HistoryConfig {
        tracked_keys,
        vertical,
        scroll_speed_text,
        highlight_overlap,
        reverse_direction,
    }
}

/// What a layout tuple says, apart from its four numbers: those stand at
/// indices `dims_start..dims_end` of the tuple, width, height, x and y in
/// that order, as far as the tuple reaches.
pub struct TupleParts {
    pub type_: String,
    pub move_to_top: bool,
    pub label: Option<String>,
    pub labels: Vec<String>,
    pub keys: Vec<String>,
    pub dims_start: usize,
    pub dims_end: usize,
    pub history: Option<HistoryConfig>,
}

/// Whether the tuple ends in the marker `"top"` (which is not read as one of
/// its values).
pub open spec fn ends_in_top(items: Seq<JsonScalar>) -> bool {
    items.len() > 1 && (items.last() matches JsonScalar::Str(s) && s@ == "top"@)
}

/// The length of the tuple without its `"top"` marker.
pub open spec fn effective_len(items: Seq<JsonScalar>) -> int {
    if ends_in_top(items) {
        items.len() - 1
    } else {
        items.len() as int
    }
}

/// The smaller of two integers.
pub open spec fn min_int(a: int, b: int) -> int {
    if a <= b {
        a
    } else {
        b
    }
}

/// Whether `t` is what the non-empty tuple `items` says.
pub open spec fn tuple_ok(items: Seq<JsonScalar>, t: TupleParts) -> bool {
    let n = effective_len(items);
    let ty = scalar_text(items[0]);
    &&& t.move_to_top == ends_in_top(items)
    &&& t.type_@ == ty
    &&& t.dims_end == n
    &&& if ty == "input_history"@ {
        &&& t.history matches Some(h) && history_config_ok(
            if n > 1 {
                scalar_text(items[1])
            } else {
                Seq::empty()
            },
            h,
        )
        &&& t.label is None
        &&& t.labels@.len() == 0
        &&& t.keys@.len() == 0
        &&& t.dims_start == 2
    } else {
        let a = arity_of(ty) as int;
        let k = min_int(1 + a, n);
        let labels = items.subrange(1, k).map_values(|v: JsonScalar| scalar_text(v));
        &&& t.history is None
        &&& t.dims_start == k
        &&& texts(t.keys@) == (if first_index_of(ty, '|') is Some {
            split_on(ty, '|')
        } else {
            Seq::empty()
        })
        &&& opt_text(t.label) == (if a == 1 {
            Some(
                if labels.len() > 0 {
                    labels[0]
                } else {
                    Seq::empty()
                },
            )
        } else {
            None
        })
        &&& texts(t.labels@) == (if a > 1 {
            labels
        } else {
            Seq::empty()
        })
    }
}

fn is_top(v: &JsonScalar) -> (r: bool)
    ensures
        r == (*v matches JsonScalar::Str(s) && s@ == "top"@),
{
    match v {
        JsonScalar::Str(s) => chars_eq(&chars_of(s.as_str()), &chars_of("top")),
        _ => false,
    }
}

/// Reads a layout tuple; an empty one gives nothing.
pub fn parse_tuple(items: &Vec<JsonScalar>) -> (r: Option<TupleParts>)
    ensures
        match r {
            None => items@.len() == 0,
            Some(t) => items@.len() > 0 && tuple_ok(items@, t),
        },
{
    let len = items.len();
    if len == 0 {
        return None;
    }
    let move_to_top = len > 1 && is_top(&items[len - 1]);
    let n: usize = if move_to_top {
        len - 1
    } else {
        len
    };
    let type_ = value_to_string(&items[0]);
    let tchars = chars_of(type_.as_str());
    if chars_eq(&tchars, &chars_of("input_history")) {
        let cfg_text = if n > 1 {
            value_to_string(&items[1])
        } else {
            String::new()
        };
        let cfg = chars_of(cfg_text.as_str());
        let history = parse_history_config(&cfg);
        return Some(
            TupleParts {
                type_,
                move_to_top,
                label: None,
                labels: Vec::new(),
                keys: Vec::new(),
                dims_start: 2,
                dims_end: n,
                history: Some(history),
            },
        );
    }
    let a = label_arity(type_.as_str());
    let k: usize = if a < n - 1 {
        1 + a
    } else {
        n
    };
    let mut labels: Vec<String> = Vec::new();
    let mut i: usize = 1;
    while i < k
        invariant
            1 <= i <= k <= n <= len,
            len == items@.len(),
            texts(labels@) == items@.subrange(1, i as int).map_values(
                |v: JsonScalar| scalar_text(v),
            ),
        decreases k - i,
    {
        let s = value_to_string(&items[i]);
        let ghost prev = labels@;
        labels.push(s);
        proof {
            assert(texts(labels@) =~= texts(prev).push(s@));
            assert(items@.subrange(1, i as int + 1).map_values(|v: JsonScalar| scalar_text(v))
                =~= items@.subrange(1, i as int).map_values(|v: JsonScalar| scalar_text(v)).push(
                scalar_text(items@[i as int]),
            ));
        }
        i = i + 1;
    }
    proof {
        lemma_first_index_of_bounds(tchars@, '|');
    }
    let keys = match find_char(&tchars, '|') {
        Some(_) => strings_of(&split_chars(&tchars, '|')),
        None => {
            let v: Vec<String> = Vec::new();
            proof {
                assert(texts(v@) =~= Seq::<Seq<char>>::empty());
            }
            v
        },
    };
    let label = if a == 1 {
        if labels.len() > 0 {
            Some(labels[0].clone())
        } else {
            Some(String::new())
        }
    } else {
        None
    };
    proof {
        assert(i == k);
    }
    let labels = if a > 1 {
        labels
    } else {
        let v: Vec<String> = Vec::new();
        proof {
            assert(texts(v@) =~= Seq::<Seq<char>>::empty());
        }
        v
    };
    Some(
        TupleParts {
            type_,
            move_to_top,
            label,
            labels,
            keys,
            dims_start: k,
            dims_end: n,
            history: None,
        },
    )
}

/// What a tuple element holds, as a value.
pub enum ScalarView {
    Str(Seq<char>),
    Num(Seq<char>),
    Bool(bool),
    Other,
}

impl View for JsonScalar {
    type V = ScalarView;

    open spec fn view(&self) -> ScalarView {
        match self {
            JsonScalar::Str(s) => ScalarView::Str(s@),
            JsonScalar::Num(t) => ScalarView::Num(t@),
            JsonScalar::Bool(b) => ScalarView::Bool(*b),
            JsonScalar::Other => ScalarView::Other,
        }
    }
}

/// The values of a sequence of tuple elements.
pub open spec fn scalars_view(v: Seq<JsonScalar>) -> Seq<ScalarView> {
    v.map_values(|x: JsonScalar| x@)
}

/// The values of a list of tuples.
pub open spec fn tuples_view(v: Seq<Vec<JsonScalar>>) -> Seq<Seq<ScalarView>> {
    v.map_values(|t: Vec<JsonScalar>| scalars_view(t@))
}

/// The values of the elements of a JSON array, each a tuple of scalars when
/// it is an array itself.
pub open spec fn items_view(v: Seq<Option<Vec<JsonScalar>>>) -> Seq<Option<Seq<ScalarView>>> {
    v.map_values(
        |t: Option<Vec<JsonScalar>>|
            match t {
                Some(u) => Some(scalars_view(u@)),
                None => None,
            },
    )
}

/// The setting text of a JSON configuration value: strings as they are,
/// numbers by their text, booleans as `1` or `0`; other values give none.
pub open spec fn config_text(v: ScalarView) -> Option<Seq<char>> {
    match v {
        ScalarView::Str(s) => Some(s),
        ScalarView::Num(t) => Some(t),
        ScalarView::Bool(b) => Some(
            if b {
                "1"@
            } else {
                "0"@
            },
        ),
        ScalarView::Other => None,
    }
}

/// The settings parameters of a JSON configuration object, in its order:
/// every member but `keyLayout` whose value has a setting text.
pub open spec fn config_entries(members: Seq<(Seq<char>, ScalarView)>) -> Seq<(Seq<char>, Seq<char>)>
    decreases members.len(),
{
    if members.len() == 0 {
        Seq::empty()
    } else {
        let prev = config_entries(members.drop_last());
        let (k, v) = members.last();
        if k == "keyLayout"@ {
            prev
        } else {
            match config_text(v) {
                Some(t) => prev.push((k, t)),
                None => prev,
            }
        }
    }
}

/// The names and values of the members of a configuration object.
pub open spec fn members_view(m: Seq<(String, JsonScalar)>) -> Seq<(Seq<char>, ScalarView)> {
    m.map_values(|e: (String, JsonScalar)| (e.0@, e.1@))
}

/// The settings parameters of the members of a JSON configuration object.
pub fn config_params(members: &Vec<(String, JsonScalar)>) -> (r: QueryParams)
    ensures
        r@ == config_entries(members_view(members@)),
{
    let ghost mv = members_view(members@);
    let n = members.len();
    let mut entries: Vec<(String, String)> = Vec::new();
    let layout_key = chars_of("keyLayout");
    let mut i: usize = 0;
    while i < n
        invariant
            n == members@.len(),
            mv == members_view(members@),
            0 <= i <= n,
            layout_key@ == "keyLayout"@,
            entries@.map_values(|e: (String, String)| (e.0@, e.1@)) == config_entries(
                mv.take(i as int),
            ),
        decreases n - i,
    {
        let ghost prev = entries@;
        proof {
            assert(mv.take(i as int + 1).drop_last() =~= mv.take(i as int));
            assert(mv.take(i as int + 1).last() == mv[i as int]);
            assert(mv[i as int] == (members@[i as int].0@, members@[i as int].1@));
        }
        let (k, v) = &members[i];
        if !chars_eq(&chars_of(k.as_str()), &layout_key) {
            let text: Option<String> = match v {
                JsonScalar::Str(s) => Some(s.clone()),
                JsonScalar::Num(t) => Some(t.clone()),
                JsonScalar::Bool(b) => if *b {
                    Some("1".to_owned())
                } else {
                    Some("0".to_owned())
                },
                JsonScalar::Other => None,
            };
            match text {
                Some(t) => {
                    entries.push((k.clone(), t));
                    proof {
                        assert(entries@.map_values(|e: (String, String)| (e.0@, e.1@)) =~= prev.map_values(
                            |e: (String, String)| (e.0@, e.1@),
                        ).push((k@, t@)));
                    }
                },
                None => {},
            }
        }
        i = i + 1;
    }
    proof {
        assert(mv.take(n as int) =~= mv);
    }
    QueryParams { entries }
}

/// The tuples that the JSON text `s` holds, as `serde_json` reads it into an
/// array of values: each element that is itself an array becomes its
/// scalars, any other element is marked absent; nothing when `s` is not a
/// JSON array.
pub uninterp spec fn json_tuples(s: Seq<char>) -> Option<Seq<Option<Seq<ScalarView>>>>;

/// Reads the JSON text `s` as an array of tuples.
///
/// Trusted: `serde_json::from_str` into `Vec<serde_json::Value>` fails
/// exactly when `s` is not a JSON array, and is a function of `s` alone; the
/// elements are converted variant by variant (numbers by their text), so the
/// result is named `json_tuples`.
#[verifier::external_body]
fn parse_json_tuples(s: &str) -> (r: Option<Vec<Option<Vec<JsonScalar>>>>)
    ensures
        match r {
            Some(v) => json_tuples(s@) == Some(items_view(v@)),
            None => json_tuples(s@) is None,
        },
{
    let vals: Vec<Value> = serde_json::from_str(s).ok()?;
    let scalar = |x: &Value| match x {
        Value::String(t) => JsonScalar::Str(t.clone()),
        Value::Number(n) => JsonScalar::Num(n.to_string()),
        Value::Bool(b) => JsonScalar::Bool(*b),
        _ => JsonScalar::Other,
    };
    Some(vals.iter().map(|v| v.as_array().map(|a| a.iter().map(scalar).collect())).collect())
}

/// The elements that are tuples, in order.
pub open spec fn arrays_only(v: Seq<Option<Seq<ScalarView>>>) -> Seq<Seq<ScalarView>>
    decreases v.len(),
{
    if v.len() == 0 {
        Seq::empty()
    } else {
        let prev = arrays_only(v.drop_last());
        match v.last() {
            Some(t) => prev.push(t),
            None => prev,
        }
    }
}

fn keep_arrays(items: Vec<Option<Vec<JsonScalar>>>) -> (r: Vec<Vec<JsonScalar>>)
    ensures
        tuples_view(r@) == arrays_only(items_view(items@)),
{
    let ghost all = items_view(items@);
    let n = items.len();
    proof {
        assert(all.subrange(0, n as int) =~= all);
    }
    let mut rest = items;
    let mut out: Vec<Vec<JsonScalar>> = Vec::new();
    let mut i: usize = 0;
    while i < n
        invariant
            n == all.len(),
            0 <= i <= n,
            items_view(rest@) == all.subrange(i as int, n as int),
            rest@.len() == n - i,
            tuples_view(out@) == arrays_only(all.take(i as int)),
        decreases n - i,
    {
        let ghost before = rest@;
        let ghost prev = out@;
        proof {
            assert(items_view(before)[0] == all[i as int]);
            assert(all.take(i as int + 1).drop_last() =~= all.take(i as int));
            assert(all.take(i as int + 1).last() == all[i as int]);
        }
        let item = rest.remove(0);
        proof {
            assert(items_view(rest@) =~= all.subrange(i as int + 1, n as int)) by {
                assert forall|k: int| 0 <= k < rest@.len() implies #[trigger] items_view(rest@)[k]
                    == all.subrange(i as int + 1, n as int)[k] by {
                    assert(rest@[k] == before[k + 1]);
                    assert(items_view(before)[k + 1] == all[i + 1 + k]);
                }
            }
        }
        match item {
            Some(t) => {
                out.push(t);
                proof {
                    assert(tuples_view(out@) =~= tuples_view(prev).push(scalars_view(out@.last()@)));
                }
            },
            None => {},
        }
        i = i + 1;
    }
    proof {
        assert(all.take(n as int) =~= all);
    }
    out
}

/// The tuples of a key-layout parameter: compressed (URL-safe base64 of
/// zlib) unless it is empty or starts like JSON, otherwise, or when that
/// fails, plain JSON; the elements that are not tuples are left out.
pub open spec fn key_layout_tuples(raw: Seq<char>) -> Option<Seq<Seq<ScalarView>>> {
    let compressed = if raw.len() == 0 || raw[0] == '[' || raw[0] == '{' {
        None
    } else {
        match cfg_text(raw) {
            Some(t) => json_tuples(t),
            None => None,
        }
    };
    match compressed {
        Some(ts) => Some(arrays_only(ts)),
        None => match json_tuples(raw) {
            Some(ts) => Some(arrays_only(ts)),
            None => None,
        },
    }
}

/// Reads the tuples of a key-layout parameter.
pub fn decode_key_layout(raw: &str) -> (r: Option<Vec<Vec<JsonScalar>>>)
    ensures
        match r {
            Some(v) => key_layout_tuples(raw@) == Some(tuples_view(v@)),
            None => key_layout_tuples(raw@) is None,
        },
{
    let chars = chars_of(raw);
    let compressed = if chars.len() == 0 || chars[0] == '[' || chars[0] == '{' {
        None
    } else {
        match decode_base64url_zlib(raw) {
            Some(t) => parse_json_tuples(t.as_str()),
            None => None,
        }
    };
    let tuples = match compressed {
        Some(ts) => Some(ts),
        None => parse_json_tuples(raw),
    };
    match tuples {
        Some(ts) => Some(keep_arrays(ts)),
        None => None,
    }
}

/// A member of a JSON configuration object: a scalar, or an array whose
/// elements are tuples of scalars where they are arrays.
pub enum JsonMember {
    Scalar(JsonScalar),
    Array(Vec<Option<Vec<JsonScalar>>>),
}

/// What a member holds, as a value.
pub enum MemberView {
    Scalar(ScalarView),
    Array(Seq<Option<Seq<ScalarView>>>),
}

impl View for JsonMember {
    type V = MemberView;

    open spec fn view(&self) -> MemberView {
        match self {
            JsonMember::Scalar(x) => MemberView::Scalar(x@),
            JsonMember::Array(a) => MemberView::Array(items_view(a@)),
        }
    }
}

/// The names and values of the members of an object.
pub open spec fn entries_view(v: Seq<(String, JsonMember)>) -> Seq<(Seq<char>, MemberView)> {
    v.map_values(|m: (String, JsonMember)| (m.0@, m.1@))
}

/// The members that the JSON text `s` holds, in the order `serde_json`'s
/// object map gives them; nothing when `s` is not a JSON object.
pub uninterp spec fn json_object(s: Seq<char>) -> Option<Seq<(Seq<char>, MemberView)>>;

/// Reads the JSON text `s` as an object.
///
/// Trusted: `serde_json::from_str` into `serde_json::Value` followed by
/// `as_object` gives the object's members, in the map's order, and nothing
/// for other text; a function of `s` alone, named `json_object`. The values
/// are converted variant by variant (numbers by their text).
#[verifier::external_body]
fn parse_json_object(s: &str) -> (r: Option<Vec<(String, JsonMember)>>)
    ensures
        match r {
            Some(v) => json_object(s@) == Some(entries_view(v@)),
            None => json_object(s@) is None,
        },
{
    let v: Value = serde_json::from_str(s).ok()?;
    let scalar = |x: &Value| match x {
        Value::String(t) => JsonScalar::Str(t.clone()),
        Value::Number(n) => JsonScalar::Num(n.to_string()),
        Value::Bool(b) => JsonScalar::Bool(*b),
        _ => JsonScalar::Other,
    };
    Some(v.as_object()?.iter().map(|(k, m)| (k.clone(), match m.as_array() {
        Some(a) => JsonMember::Array(a.iter().map(|t| t.as_array().map(|u| u.iter().map(scalar).collect())).collect()),
        None => JsonMember::Scalar(scalar(m)),
    })).collect())
}

/// The scalar a member stands for in the settings: arrays stand for none.
pub open spec fn member_scalar(m: MemberView) -> ScalarView {
    match m {
        MemberView::Scalar(x) => x,
        MemberView::Array(_) => ScalarView::Other,
    }
}

/// The key layout of a configuration object: the tuples of its last
/// `keyLayout` member that is an array.
pub open spec fn layout_member(ms: Seq<(Seq<char>, MemberView)>) -> Option<Seq<Seq<ScalarView>>>
    decreases ms.len(),
{
    if ms.len() == 0 {
        None
    } else {
        match ms.last().1 {
            MemberView::Array(ts) => if ms.last().0 == "keyLayout"@ {
                Some(arrays_only(ts))
            } else {
                layout_member(ms.drop_last())
            },
            MemberView::Scalar(_) => layout_member(ms.drop_last()),
        }
    }
}

/// What a JSON configuration file says: its settings parameters and, when it
/// has one, its key layout; nothing when it is not a JSON object.
pub open spec fn json_config(s: Seq<char>) -> Option<(Seq<(Seq<char>, Seq<char>)>, Option<Seq<Seq<ScalarView>>>)> {
    match json_object(s) {
        None => None,
        Some(ms) => Some(
            (
                config_entries(ms.map_values(|m: (Seq<char>, MemberView)| (m.0, member_scalar(m.1)))),
                layout_member(ms),
            ),
        ),
    }
}

/// Reads a JSON configuration file: the settings parameters and the key
/// layout.
pub fn decode_json_config(json: &str) -> (r: Option<(QueryParams, Option<Vec<Vec<JsonScalar>>>)>)
    ensures
        match r {
            None => json_config(json@) is None,
            Some((p, layout)) => json_config(json@) == Some(
                (
                    p@,
                    match layout {
                        Some(v) => Some(tuples_view(v@)),
                        None => None,
                    },
                ),
            ),
        },
{
    let members = match parse_json_object(json) {
        Some(m) => m,
        None => {
            return None;
        },
    };
    let ghost all = entries_view(members@);
    let n = members.len();
    proof {
        assert(all.subrange(0, n as int) =~= all);
        assert(all.take(0) =~= Seq::<(Seq<char>, MemberView)>::empty());
        assert(members_view(Seq::<(String, JsonScalar)>::empty()) =~= Seq::<(Seq<char>, ScalarView)>::empty());
    }
    let mut rest = members;
    let mut scalars: Vec<(String, JsonScalar)> = Vec::new();
    let mut layout: Option<Vec<Vec<JsonScalar>>> = None;
    let layout_key = chars_of("keyLayout");
    let mut i: usize = 0;
    while i < n
        invariant
            n == all.len(),
            0 <= i <= n,
            layout_key@ == "keyLayout"@,
            entries_view(rest@) == all.subrange(i as int, n as int),
            rest@.len() == n - i,
            members_view(scalars@) == all.take(i as int).map_values(
                |m: (Seq<char>, MemberView)| (m.0, member_scalar(m.1)),
            ),
            layout_member(all.take(i as int)) == match layout {
                Some(v) => Some(tuples_view(v@)),
                None => None,
            },
        decreases n - i,
    {
        let ghost before = rest@;
        let ghost prev = scalars@;
        proof {
            assert(entries_view(before)[0] == all[i as int]);
            assert(all.take(i as int + 1).drop_last() =~= all.take(i as int));
            assert(all.take(i as int + 1).last() == all[i as int]);
        }
        let item = rest.remove(0);
        let (key, member) = item;
        proof {
            assert(rest@ == before.remove(0));
            assert(rest@ =~= before.subrange(1, before.len() as int));
            assert(entries_view(before).subrange(1, before.len() as int) =~= entries_view(rest@));
            assert(entries_view(before) == all.subrange(i as int, n as int));
            assert(entries_view(rest@) =~= all.subrange(i as int + 1, n as int));
            assert(all[i as int] == (key@, member@));
        }
        let is_layout = chars_eq(&chars_of(key.as_str()), &layout_key);
        match member {
            JsonMember::Scalar(x) => {
                scalars.push((key, x));
            },
            JsonMember::Array(ts) => {
                scalars.push((key, JsonScalar::Other));
                if is_layout {
                    layout = Some(keep_arrays(ts));
                }
            },
        }
        proof {
            assert(members_view(scalars@) =~= members_view(prev).push(
                (all[i as int].0, member_scalar(all[i as int].1)),
            ));
            assert(all.take(i as int + 1).map_values(
                |m: (Seq<char>, MemberView)| (m.0, member_scalar(m.1)),
            ) =~= all.take(i as int).map_values(
                |m: (Seq<char>, MemberView)| (m.0, member_scalar(m.1)),
            ).push((all[i as int].0, member_scalar(all[i as int].1))));
        }
        i = i + 1;
    }
    proof {
        assert(all.take(n as int) =~= all);
    }
    let params = config_params(&scalars);
    Some((params, layout))
}

} // verus!
