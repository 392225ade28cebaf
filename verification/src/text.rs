//! Label text: what is drawn as text, what is an `<img>` tag, and the
//! attributes read from such a tag.
use vstd::prelude::*;

use crate::link::split_on;
use crate::numbers::{is_whitespace, is_whitespace_exec, leading_ws, trim, trim_chars, trim_start};
use crate::search::{find_sub, find_sub_from, lemma_find_from_bounds, remove_all, remove_all_chars};
use crate::strings::{
    chars_eq, chars_of, find_char, first_index_of, has_prefix, lemma_first_index_of_bounds,
    lemma_first_index_of_step,
    starts_with_chars, string_from_chars, sub_chars,
};

verus! {

/// Which corner of a text box sits at the anchor point.
pub enum Corner {
    TopLeft,
    BottomRight,
}

/// Whether byte `i` of `b` opens an HTML tag: a `<` followed by a letter,
/// `/`, `!` or `?`.
pub open spec fn tag_start_at(b: Seq<u8>, i: int) -> bool {
    b[i] == 0x3c && i + 1 < b.len() && ((0x41 <= b[i + 1] <= 0x5a) || (0x61 <= b[i + 1] <= 0x7a)
        || b[i + 1] == 0x2f || b[i + 1] == 0x21 || b[i + 1] == 0x3f)
}

/// Whether the text whose bytes are `b` holds the start of an HTML tag.
pub open spec fn has_tag_start(b: Seq<u8>) -> bool {
    exists|i: int| 0 <= i < b.len() && #[trigger] tag_start_at(b, i)
}

/// Whether `text` holds the start of an HTML tag.
pub fn contains_html_tag_start(text: &str) -> (r: bool)
    ensures
        r == has_tag_start(vstd::utf8::encode_utf8(text@)),
{
    let b = text.as_bytes();
    let mut i: usize = 0;
    while i < b.len()
        invariant
            0 <= i <= b@.len(),
            b@ == vstd::utf8::encode_utf8(text@),
            forall|k: int| 0 <= k < i ==> !#[trigger] tag_start_at(b@, k),
        decreases b@.len() - i,
    {
        if b[i] == 0x3c && b.len() - i > 1 {
            let n = b[i + 1];
            if (0x41 <= n && n <= 0x5a) || (0x61 <= n && n <= 0x7a) || n == 0x2f || n == 0x21 || n
                == 0x3f {
                proof {
                    assert(tag_start_at(b@, i as int));
                }
                return true;
            }
        }
        i = i + 1;
    }
    false
}

/// The text a label draws: trimmed, and nothing when it is empty or holds an
/// HTML tag.
pub open spec fn sanitized(text: Seq<char>) -> Option<Seq<char>> {
    let t = trim(text);
    if t.len() == 0 || has_tag_start(vstd::utf8::encode_utf8(t)) {
        None
    } else {
        Some(t)
    }
}

/// The text a label draws, if any.
pub fn sanitize(text: &str) -> (r: Option<String>)
    ensures
        match r {
            Some(t) => sanitized(text@) == Some(t@),
            None => sanitized(text@) is None,
        },
{
    let t = trim_chars(&chars_of(text));
    if t.len() == 0 {
        return None;
    }
    let s = string_from_chars(t.as_slice());
    if contains_html_tag_start(s.as_str()) {
        None
    } else {
        Some(s)
    }
}

/// The quoted value of attribute `attr` in the body of a tag: the first
/// occurrence of `attr`, then (past blanks only) `=`, blanks, a quote, and
/// everything up to the matching quote.
pub open spec fn quoted_attr(body: Seq<char>, attr: Seq<char>) -> Option<Seq<char>> {
    match find_sub(body, attr) {
        None => None,
        Some(p) => {
            let after = body.subrange(p + attr.len(), body.len() as int);
            match first_index_of(after, '=') {
                None => None,
                Some(e) => if !(forall|k: int| 0 <= k < e ==> is_whitespace(#[trigger] after[k])) {
                    None
                } else {
                    let after_eq = trim_start(after.subrange(e + 1, after.len() as int));
                    if after_eq.len() == 0 || (after_eq[0] != '"' && after_eq[0] != '\'') {
                        None
                    } else {
                        let rest = after_eq.drop_first();
                        match first_index_of(rest, after_eq[0]) {
                            None => None,
                            Some(end) => Some(rest.subrange(0, end)),
                        }
                    }
                },
            }
        },
    }
}

fn all_whitespace(s: &Vec<char>, n: usize) -> (r: bool)
    requires
        n <= s@.len(),
    ensures
        r == (forall|k: int| 0 <= k < n ==> is_whitespace(#[trigger] s@[k])),
{
    let mut i: usize = 0;
    while i < n
        invariant
            n <= s@.len(),
            0 <= i <= n,
            forall|k: int| 0 <= k < i ==> is_whitespace(#[trigger] s@[k]),
        decreases n - i,
    {
        if !is_whitespace_exec(s[i]) {
            return false;
        }
        i = i + 1;
    }
    true
}

/// Value of the quoted attribute `attr` in the tag body `body`.
pub fn extract_quoted_attr(body: &Vec<char>, attr: &Vec<char>) -> (r: Option<Vec<char>>)
    ensures
        match r {
            Some(v) => quoted_attr(body@, attr@) == Some(v@),
            None => quoted_attr(body@, attr@) is None,
        },
{
    proof {
        lemma_find_from_bounds(body@, attr@, 0);
    }
    let p = match find_sub_from(body, attr, 0) {
        Some(p) => p,
        None => return None,
    };
    let n = body.len();
    let after = sub_chars(body, p + attr.len(), n);
    proof {
        lemma_first_index_of_bounds(after@, '=');
    }
    let e = match find_char(&after, '=') {
        Some(e) => e,
        None => return None,
    };
    if !all_whitespace(&after, e) {
        return None;
    }
    let m = after.len();
    let tail = sub_chars(&after, e + 1, m);
    let ghost tail_view = tail@;
    let mut lo: usize = 0;
    while lo < tail.len() && is_whitespace_exec(tail[lo])
        invariant
            0 <= lo <= tail@.len(),
            forall|k: int| 0 <= k < lo ==> is_whitespace(#[trigger] tail@[k]),
        decreases tail@.len() - lo,
    {
        lo = lo + 1;
    }
    proof {
        lemma_leading(tail@, lo as int);
    }
    let after_eq = sub_chars(&tail, lo, tail.len());
    proof {
        assert(after_eq@ == trim_start(tail_view));
    }
    if after_eq.len() == 0 {
        return None;
    }
    let q = after_eq[0];
    if q != '"' && q != '\'' {
        return None;
    }
    let rest = sub_chars(&after_eq, 1, after_eq.len());
    proof {
        assert(rest@ =~= after_eq@.drop_first());
        lemma_first_index_of_bounds(rest@, q);
    }
    match find_char(&rest, q) {
        Some(end) => Some(sub_chars(&rest, 0, end)),
        None => None,
    }
}

proof fn lemma_leading(s: Seq<char>, i: int)
    requires
        0 <= i <= s.len(),
        forall|k: int| 0 <= k < i ==> is_whitespace(#[trigger] s[k]),
        i == s.len() || !is_whitespace(s[i]),
    ensures
        leading_ws(s) == i,
    decreases i,
{
    if i > 0 {
        lemma_leading(s.drop_first(), i - 1);
    }
}

/// The raw style values an image tag sets: the cleaned value of the last
/// `max-width`, `max-height` and `opacity` declaration.
pub type StyleValues = (Option<Seq<char>>, Option<Seq<char>>, Option<Seq<char>>);

/// One `prop: value` declaration applied to the values read so far: the
/// value loses every `!important` and is trimmed; a declaration without `:`
/// or of another property changes nothing.
pub open spec fn apply_decl(decl: Seq<char>, st: StyleValues) -> StyleValues {
    match first_index_of(decl, ':') {
        None => st,
        Some(i) => {
            let prop = trim(decl.subrange(0, i));
            let value = trim(remove_all(decl.subrange(i + 1, decl.len() as int), "!important"@));
            if prop == "max-width"@ {
                (Some(value), st.1, st.2)
            } else if prop == "max-height"@ {
                (st.0, Some(value), st.2)
            } else if prop == "opacity"@ {
                (st.0, st.1, Some(value))
            } else {
                st
            }
        },
    }
}

/// The declarations `decls` applied in order to `st`.
pub open spec fn style_values(decls: Seq<Seq<char>>, st: StyleValues) -> StyleValues
    decreases decls.len(),
{
    if decls.len() == 0 {
        st
    } else {
        style_values(decls.drop_first(), apply_decl(decls[0], st))
    }
}

/// Source and raw style values of an `<img ...>` label.
pub struct ImgTagText {
    pub src: String,
    pub max_width: Option<String>,
    pub max_height: Option<String>,
    pub opacity: Option<String>,
}

/// What an `<img>` label holds: after trimming it starts with `<img` followed
/// by a blank, `/` or `>`, and has a non-empty quoted `src`; the style
/// values come from the `;`-separated declarations of its quoted `style`.
pub open spec fn img_tag(label: Seq<char>) -> Option<(Seq<char>, StyleValues)> {
    let t = trim(label);
    if !has_prefix(t, "<img"@) {
        None
    } else {
        let after = t.subrange("<img"@.len() as int, t.len() as int);
        if after.len() == 0 || !(is_whitespace(after[0]) || after[0] == '/' || after[0] == '>') {
            None
        } else {
            match quoted_attr(after, "src"@) {
                None => None,
                Some(src) => if src.len() == 0 {
                    None
                } else {
                    let decls = match quoted_attr(after, "style"@) {
                        Some(st) => split_on(st, ';'),
                        None => Seq::empty(),
                    };
                    Some((src, style_values(decls, (None, None, None))))
                },
            }
        }
    }
}

fn opt_string(v: &Option<Vec<char>>) -> (r: Option<String>)
    ensures
        match r {
            Some(s) => v is Some && v.unwrap()@ == s@,
            None => v is None,
        },
{
    match v {
        Some(c) => Some(string_from_chars(c.as_slice())),
        None => None,
    }
}

/// Applies one declaration to the values read so far.
fn apply_decl_exec(
    decl: &Vec<char>,
    st: (Option<Vec<char>>, Option<Vec<char>>, Option<Vec<char>>),
) -> (r: (Option<Vec<char>>, Option<Vec<char>>, Option<Vec<char>>))
    ensures
        (
            match r.0 {
                Some(v) => Some(v@),
                None => None,
            },
            match r.1 {
                Some(v) => Some(v@),
                None => None,
            },
            match r.2 {
                Some(v) => Some(v@),
                None => None,
            },
        ) == apply_decl(
            decl@,
            (
                match st.0 {
                    Some(v) => Some(v@),
                    None => None,
                },
                match st.1 {
                    Some(v) => Some(v@),
                    None => None,
                },
                match st.2 {
                    Some(v) => Some(v@),
                    None => None,
                },
            ),
        ),
{
    proof {
        lemma_first_index_of_bounds(decl@, ':');
    }
    let i = match find_char(decl, ':') {
        Some(i) => i,
        None => return st,
    };
    let n = decl.len();
    let prop = trim_chars(&sub_chars(decl, 0, i));
    let important = chars_of("!important");
    proof {
        reveal_strlit("!important");
    }
    let value = trim_chars(&remove_all_chars(&sub_chars(decl, i + 1, n), &important));
    if chars_eq(&prop, &chars_of("max-width")) {
        (Some(value), st.1, st.2)
    } else if chars_eq(&prop, &chars_of("max-height")) {
        (st.0, Some(value), st.2)
    } else if chars_eq(&prop, &chars_of("opacity")) {
        (st.0, st.1, Some(value))
    } else {
        st
    }
}

pub open spec fn opt_view(o: Option<Vec<char>>) -> Option<Seq<char>> {
    match o {
        Some(v) => Some(v@),
        None => None,
    }
}

/// Reads an `<img ...>` label.
pub fn parse_img_tag(label: &str) -> (r: Option<ImgTagText>)
    ensures
        match r {
            Some(tag) => img_tag(label@) == Some(
                (
                    tag.src@,
                    (
                        match tag.max_width {
                            Some(v) => Some(v@),
                            None => None,
                        },
                        match tag.max_height {
                            Some(v) => Some(v@),
                            None => None,
                        },
                        match tag.opacity {
                            Some(v) => Some(v@),
                            None => None,
                        },
                    ),
                ),
            ),
            None => img_tag(label@) is None,
        },
{
    let t = trim_chars(&chars_of(label));
    let open_tag = chars_of("<img");
    if !starts_with_chars(&t, &open_tag) {
        return None;
    }
    let after = sub_chars(&t, open_tag.len(), t.len());
    if after.len() == 0 {
        return None;
    }
    let c0 = after[0];
    if !(is_whitespace_exec(c0) || c0 == '/' || c0 == '>') {
        return None;
    }
    let src = match extract_quoted_attr(&after, &chars_of("src")) {
        Some(s) => s,
        None => return None,
    };
    if src.len() == 0 {
        return None;
    }
    let mut st: (Option<Vec<char>>, Option<Vec<char>>, Option<Vec<char>>) = (None, None, None);
    let style = extract_quoted_attr(&after, &chars_of("style"));
    let ghost decls: Seq<Seq<char>> = match opt_view(style) {
        Some(s) => split_on(s, ';'),
        None => Seq::empty(),
    };
    match style {
        Some(style) => {
            let mut start: usize = 0;
            proof {
                assert(style@.subrange(0, style@.len() as int) =~= style@);
            }
            loop
                invariant_except_break
                    0 <= start <= style@.len(),
                    decls == split_on(style@, ';'),
                    style_values(decls, (None, None, None)) == style_values(
                        split_on(style@.subrange(start as int, style@.len() as int), ';'),
                        (opt_view(st.0), opt_view(st.1), opt_view(st.2)),
                    ),
                ensures
                    style_values(decls, (None, None, None)) == (
                        opt_view(st.0),
                        opt_view(st.1),
                        opt_view(st.2),
                    ),
                decreases style@.len() - start,
            {
                let tail = sub_chars(&style, start, style.len());
                proof {
                    lemma_first_index_of_bounds(tail@, ';');
                }
                match find_char(&tail, ';') {
                    Some(i) => {
                        let piece = sub_chars(&tail, 0, i);
                        let ghost rest = split_on(tail@.subrange(i + 1, tail@.len() as int), ';');
                        proof {
                            assert(split_on(tail@, ';') == seq![piece@] + rest);
                            assert((seq![piece@] + rest).drop_first() =~= rest);
                            assert(tail@.subrange(i + 1, tail@.len() as int) =~= style@.subrange(
                                start + i + 1,
                                style@.len() as int,
                            ));
                        }
                        st = apply_decl_exec(&piece, st);
                        start = start + i + 1;
                    },
                    None => {
                        let ghost before = (opt_view(st.0), opt_view(st.1), opt_view(st.2));
                        proof {
                            assert(split_on(tail@, ';') == seq![tail@]);
                            assert(seq![tail@].drop_first() =~= Seq::<Seq<char>>::empty());
                            assert(style_values(seq![tail@], before) == style_values(
                                Seq::<Seq<char>>::empty(),
                                apply_decl(tail@, before),
                            ));
                        }
                        st = apply_decl_exec(&tail, st);
                        break ;
                    },
                }
            }
        },
        None => {},
    }
    Some(
        ImgTagText {
            src: string_from_chars(src.as_slice()),
            max_width: opt_string(&st.0),
            max_height: opt_string(&st.1),
            opacity: opt_string(&st.2),
        },
    )
}

/// A `<` followed by an ASCII letter, capital or small, starts an HTML tag,
/// and so does one followed by `/`, `!` or `?`; a `<` followed by anything
/// else (a digit, a space, another `<`) starts none there, and text without a
/// `<` holds no tag start at all.
pub proof fn lemma_tag_start_letters(b: Seq<u8>, i: int)
    ensures
        0 <= i && i + 1 < b.len() && b[i] == 0x3c && (('A' as u8 <= b[i + 1] <= 'Z' as u8) || (
        'a' as u8 <= b[i + 1] <= 'z' as u8) || b[i + 1] == '/' as u8 || b[i + 1] == '!' as u8
            || b[i + 1] == '?' as u8) ==> has_tag_start(b),
        0 <= i && i + 1 < b.len() && b[i] == '<' as u8 && ('0' as u8 <= b[i + 1] <= '9' as u8
            || b[i + 1] == ' ' as u8 || b[i + 1] == '<' as u8) ==> !tag_start_at(b, i),
        (forall|k: int| 0 <= k < b.len() ==> b[k] != '<' as u8) ==> !has_tag_start(b),
{
    if 0 <= i && i + 1 < b.len() && b[i] == 0x3c && (('A' as u8 <= b[i + 1] <= 'Z' as u8) || (
    'a' as u8 <= b[i + 1] <= 'z' as u8) || b[i + 1] == '/' as u8 || b[i + 1] == '!' as u8
        || b[i + 1] == '?' as u8) {
        assert(tag_start_at(b, i));
    }
}

/// The declaration `p: v`, where the property part `p` holds no `:`.
pub open spec fn declaration(p: Seq<char>, v: Seq<char>) -> Seq<char> {
    p + seq![':'] + v
}

proof fn lemma_declaration_split(p: Seq<char>, v: Seq<char>)
    requires
        !p.contains(':'),
    ensures
        first_index_of(declaration(p, v), ':') == Some(p.len() as int),
        declaration(p, v).subrange(0, p.len() as int) == p,
        declaration(p, v).subrange(p.len() as int + 1, declaration(p, v).len() as int) == v,
{
    let d = declaration(p, v);
    assert forall|k: int| 0 <= k < p.len() implies d[k] != ':' by {
        assert(d[k] == p[k]);
        if p[k] == ':' {
            assert(p.contains(':'));
        }
    }
    assert(d[p.len() as int] == ':');
    lemma_first_index_of_step(d, ':', p.len() as int);
    assert(d.subrange(0, p.len() as int) =~= p);
    assert(d.subrange(p.len() as int + 1, d.len() as int) =~= v);
}

/// A `max-width`, `max-height` or `opacity` declaration (the property name
/// trimmed) always sets that value, to the declared value with every
/// `!important` removed and trimmed, and leaves the other two as they were.
pub proof fn lemma_style_declarations(p: Seq<char>, v: Seq<char>, st: StyleValues)
    requires
        !p.contains(':'),
    ensures
        trim(p) == "max-width"@ ==> apply_decl(declaration(p, v), st) == (
            Some(trim(remove_all(v, "!important"@))),
            st.1,
            st.2,
        ),
        trim(p) == "max-height"@ ==> apply_decl(declaration(p, v), st) == (
            st.0,
            Some(trim(remove_all(v, "!important"@))),
            st.2,
        ),
        trim(p) == "opacity"@ ==> apply_decl(declaration(p, v), st) == (
            st.0,
            st.1,
            Some(trim(remove_all(v, "!important"@))),
        ),
{
    lemma_declaration_split(p, v);
    reveal_strlit("max-width");
    reveal_strlit("max-height");
    reveal_strlit("opacity");
    assert("max-width"@.len() == 9);
    assert("max-height"@.len() == 10);
    assert("opacity"@.len() == 7);
}

} // verus!
