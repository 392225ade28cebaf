//! Web fonts of the overlay: the stylesheet address of each font family the
//! configurator offers, the choice of a face out of a Google Fonts stylesheet,
//! and the system font files tried when no web font is loaded.
use vstd::prelude::*;

use crate::numbers::{is_digit, is_whitespace_exec, parse_unsigned, parse_unsigned_chars, trim_start};
use crate::search::{find_sub, find_sub_from, lemma_find_from_bounds};
use crate::strings::{
    chars_of, find_char, first_index_of, has_prefix, lemma_first_index_of_bounds,
    starts_with_chars, str_eq, string_from_chars, sub_chars,
};

verus! {

/// Stylesheet address of a font family offered by the configurator.
pub open spec fn font_url_of(f: Seq<char>) -> Option<Seq<char>> {
    if f == "ArialPixel"@ {
        Some("https://fonts.googleapis.com/css2?family=Geist+Pixel&display=swap"@)
    } else if f == "Borevs"@ {
        Some("https://fonts.googleapis.com/css2?family=IM+Fell+English+SC&display=swap"@)
    } else if f == "abel"@ {
        Some("https://fonts.googleapis.com/css2?family=Abel&display=swap"@)
    } else if f == "archivo-black"@ {
        Some("https://fonts.googleapis.com/css2?family=Archivo+Black&display=swap"@)
    } else if f == "arimo"@ {
        Some("https://fonts.googleapis.com/css2?family=Arimo:ital,wght@0,400..700;1,400..700&display=swap"@)
    } else if f == "bebas-neue"@ {
        Some("https://fonts.googleapis.com/css2?family=Bebas+Neue&display=swap"@)
    } else if f == "bitcount-prop-single"@ {
        Some("https://fonts.googleapis.com/css2?family=Bitcount+Prop+Single:wght@100..900&display=swap"@)
    } else if f == "bungee"@ {
        Some("https://fonts.googleapis.com/css2?family=Bungee&display=swap"@)
    } else if f == "caveat-brush"@ {
        Some("https://fonts.googleapis.com/css2?family=Caveat+Brush&display=swap"@)
    } else if f == "chewy"@ {
        Some("https://fonts.googleapis.com/css2?family=Chewy&display=swap"@)
    } else if f == "cinzel"@ {
        Some("https://fonts.googleapis.com/css2?family=Cinzel:wght@400..900&display=swap"@)
    } else if f == "comfortaa"@ {
        Some("https://fonts.googleapis.com/css2?family=Comfortaa:wght@300..700&display=swap"@)
    } else if f == "fjalla-one"@ {
        Some("https://fonts.googleapis.com/css2?family=Fjalla+One&display=swap"@)
    } else if f == "fredoka"@ {
        Some("https://fonts.googleapis.com/css2?family=Fredoka:wght@300..700&display=swap"@)
    } else if f == "inter"@ {
        Some("https://fonts.googleapis.com/css2?family=Inter:ital,opsz,wght@0,14..32,100..900;1,14..32,100..900&display=swap"@)
    } else if f == "josefin-sans"@ {
        Some("https://fonts.googleapis.com/css2?family=Josefin+Sans:ital,wght@0,100..700;1,100..700&display=swap"@)
    } else if f == "knewave"@ {
        Some("https://fonts.googleapis.com/css2?family=Knewave&display=swap"@)
    } else if f == "lato"@ {
        Some("https://fonts.googleapis.com/css2?family=Lato:ital,wght@0,100;0,300;0,400;0,700;0,900;1,100;1,300;1,400;1,700;1,900&display=swap"@)
    } else if f == "lexend"@ {
        Some("https://fonts.googleapis.com/css2?family=Lexend:wght@100..900&display=swap"@)
    } else if f == "lexend-giga"@ {
        Some("https://fonts.googleapis.com/css2?family=Lexend+Giga:wght@100..900&display=swap"@)
    } else if f == "lilita-one"@ {
        Some("https://fonts.googleapis.com/css2?family=Lilita+One&display=swap"@)
    } else if f == "montserrat"@ {
        Some("https://fonts.googleapis.com/css2?family=Montserrat:ital,wght@0,100..900;1,100..900&display=swap"@)
    } else if f == "noto-sans"@ {
        Some("https://fonts.googleapis.com/css2?family=Noto+Sans:ital,wght@0,100..900;1,100..900&display=swap"@)
    } else if f == "open-sans"@ {
        Some("https://fonts.googleapis.com/css2?family=Open+Sans:ital,wght@0,300..800;1,300..800&display=swap"@)
    } else if f == "orbitron"@ {
        Some("https://fonts.googleapis.com/css2?family=Orbitron:wght@400..900&display=swap"@)
    } else if f == "oswald"@ {
        Some("https://fonts.googleapis.com/css2?family=Oswald:wght@200..700&display=swap"@)
    } else if f == "pacifico"@ {
        Some("https://fonts.googleapis.com/css2?family=Pacifico&display=swap"@)
    } else if f == "press-start-2p"@ {
        Some("https://fonts.googleapis.com/css2?family=Press+Start+2P&display=swap"@)
    } else if f == "raleway"@ {
        Some("https://fonts.googleapis.com/css2?family=Raleway:ital,wght@0,100..900;1,100..900&display=swap"@)
    } else if f == "roboto-condensed"@ {
        Some("https://fonts.googleapis.com/css2?family=Roboto+Condensed:ital,wght@0,100..900;1,100..900&display=swap"@)
    } else if f == "roboto-mono"@ {
        Some("https://fonts.googleapis.com/css2?family=Roboto+Mono:ital,wght@0,100..700;1,100..700&display=swap"@)
    } else if f == "roboto"@ {
        Some("https://fonts.googleapis.com/css2?family=Roboto:ital,wght@0,100..900;1,100..900&display=swap"@)
    } else if f == "share-tech"@ {
        Some("https://fonts.googleapis.com/css2?family=Share+Tech&display=swap"@)
    } else if f == "smooch-sans"@ {
        Some("https://fonts.googleapis.com/css2?family=Smooch+Sans:wght@100..900&display=swap"@)
    } else if f == "sora"@ {
        Some("https://fonts.googleapis.com/css2?family=Sora:wght@100..800&display=swap"@)
    } else if f == "special-elite"@ {
        Some("https://fonts.googleapis.com/css2?family=Special+Elite&display=swap"@)
    } else if f == "titan-one"@ {
        Some("https://fonts.googleapis.com/css2?family=Titan+One&display=swap"@)
    } else if f == "ubuntu"@ {
        Some("https://fonts.googleapis.com/css2?family=Ubuntu:ital,wght@0,300;0,400;0,500;0,700;1,300;1,400;1,500;1,700&display=swap"@)
    } else {
        None
    }
}

/// Stylesheet address of the font family `fontfamily`, when it is one the
/// configurator offers.
pub fn google_font_url(fontfamily: &str) -> (r: Option<&'static str>)
    ensures
        match r {
            Some(u) => font_url_of(fontfamily@) == Some(u@),
            None => font_url_of(fontfamily@) is None,
        },
{
    if str_eq(fontfamily, "ArialPixel") {
        Some("https://fonts.googleapis.com/css2?family=Geist+Pixel&display=swap")
    } else if str_eq(fontfamily, "Borevs") {
        Some("https://fonts.googleapis.com/css2?family=IM+Fell+English+SC&display=swap")
    } else if str_eq(fontfamily, "abel") {
        Some("https://fonts.googleapis.com/css2?family=Abel&display=swap")
    } else if str_eq(fontfamily, "archivo-black") {
        Some("https://fonts.googleapis.com/css2?family=Archivo+Black&display=swap")
    } else if str_eq(fontfamily, "arimo") {
        Some("https://fonts.googleapis.com/css2?family=Arimo:ital,wght@0,400..700;1,400..700&display=swap")
    } else if str_eq(fontfamily, "bebas-neue") {
        Some("https://fonts.googleapis.com/css2?family=Bebas+Neue&display=swap")
    } else if str_eq(fontfamily, "bitcount-prop-single") {
        Some("https://fonts.googleapis.com/css2?family=Bitcount+Prop+Single:wght@100..900&display=swap")
    } else if str_eq(fontfamily, "bungee") {
        Some("https://fonts.googleapis.com/css2?family=Bungee&display=swap")
    } else if str_eq(fontfamily, "caveat-brush") {
        Some("https://fonts.googleapis.com/css2?family=Caveat+Brush&display=swap")
    } else if str_eq(fontfamily, "chewy") {
        Some("https://fonts.googleapis.com/css2?family=Chewy&display=swap")
    } else if str_eq(fontfamily, "cinzel") {
        Some("https://fonts.googleapis.com/css2?family=Cinzel:wght@400..900&display=swap")
    } else if str_eq(fontfamily, "comfortaa") {
        Some("https://fonts.googleapis.com/css2?family=Comfortaa:wght@300..700&display=swap")
    } else if str_eq(fontfamily, "fjalla-one") {
        Some("https://fonts.googleapis.com/css2?family=Fjalla+One&display=swap")
    } else if str_eq(fontfamily, "fredoka") {
        Some("https://fonts.googleapis.com/css2?family=Fredoka:wght@300..700&display=swap")
    } else if str_eq(fontfamily, "inter") {
        Some("https://fonts.googleapis.com/css2?family=Inter:ital,opsz,wght@0,14..32,100..900;1,14..32,100..900&display=swap")
    } else if str_eq(fontfamily, "josefin-sans") {
        Some("https://fonts.googleapis.com/css2?family=Josefin+Sans:ital,wght@0,100..700;1,100..700&display=swap")
    } else if str_eq(fontfamily, "knewave") {
        Some("https://fonts.googleapis.com/css2?family=Knewave&display=swap")
    } else if str_eq(fontfamily, "lato") {
        Some("https://fonts.googleapis.com/css2?family=Lato:ital,wght@0,100;0,300;0,400;0,700;0,900;1,100;1,300;1,400;1,700;1,900&display=swap")
    } else if str_eq(fontfamily, "lexend") {
        Some("https://fonts.googleapis.com/css2?family=Lexend:wght@100..900&display=swap")
    } else if str_eq(fontfamily, "lexend-giga") {
        Some("https://fonts.googleapis.com/css2?family=Lexend+Giga:wght@100..900&display=swap")
    } else if str_eq(fontfamily, "lilita-one") {
        Some("https://fonts.googleapis.com/css2?family=Lilita+One&display=swap")
    } else if str_eq(fontfamily, "montserrat") {
        Some("https://fonts.googleapis.com/css2?family=Montserrat:ital,wght@0,100..900;1,100..900&display=swap")
    } else if str_eq(fontfamily, "noto-sans") {
        Some("https://fonts.googleapis.com/css2?family=Noto+Sans:ital,wght@0,100..900;1,100..900&display=swap")
    } else if str_eq(fontfamily, "open-sans") {
        Some("https://fonts.googleapis.com/css2?family=Open+Sans:ital,wght@0,300..800;1,300..800&display=swap")
    } else if str_eq(fontfamily, "orbitron") {
        Some("https://fonts.googleapis.com/css2?family=Orbitron:wght@400..900&display=swap")
    } else if str_eq(fontfamily, "oswald") {
        Some("https://fonts.googleapis.com/css2?family=Oswald:wght@200..700&display=swap")
    } else if str_eq(fontfamily, "pacifico") {
        Some("https://fonts.googleapis.com/css2?family=Pacifico&display=swap")
    } else if str_eq(fontfamily, "press-start-2p") {
        Some("https://fonts.googleapis.com/css2?family=Press+Start+2P&display=swap")
    } else if str_eq(fontfamily, "raleway") {
        Some("https://fonts.googleapis.com/css2?family=Raleway:ital,wght@0,100..900;1,100..900&display=swap")
    } else if str_eq(fontfamily, "roboto-condensed") {
        Some("https://fonts.googleapis.com/css2?family=Roboto+Condensed:ital,wght@0,100..900;1,100..900&display=swap")
    } else if str_eq(fontfamily, "roboto-mono") {
        Some("https://fonts.googleapis.com/css2?family=Roboto+Mono:ital,wght@0,100..700;1,100..700&display=swap")
    } else if str_eq(fontfamily, "roboto") {
        Some("https://fonts.googleapis.com/css2?family=Roboto:ital,wght@0,100..900;1,100..900&display=swap")
    } else if str_eq(fontfamily, "share-tech") {
        Some("https://fonts.googleapis.com/css2?family=Share+Tech&display=swap")
    } else if str_eq(fontfamily, "smooch-sans") {
        Some("https://fonts.googleapis.com/css2?family=Smooch+Sans:wght@100..900&display=swap")
    } else if str_eq(fontfamily, "sora") {
        Some("https://fonts.googleapis.com/css2?family=Sora:wght@100..800&display=swap")
    } else if str_eq(fontfamily, "special-elite") {
        Some("https://fonts.googleapis.com/css2?family=Special+Elite&display=swap")
    } else if str_eq(fontfamily, "titan-one") {
        Some("https://fonts.googleapis.com/css2?family=Titan+One&display=swap")
    } else if str_eq(fontfamily, "ubuntu") {
        Some("https://fonts.googleapis.com/css2?family=Ubuntu:ital,wght@0,300;0,400;0,500;0,700;1,300;1,400;1,500;1,700&display=swap")
    } else {
        None
    }
}

/// The pieces of `s` between occurrences of the non-empty `sep`.
pub open spec fn split_sub(s: Seq<char>, sep: Seq<char>) -> Seq<Seq<char>>
    decreases s.len(),
{
    if sep.len() == 0 {
        seq![s]
    } else {
        match find_sub(s, sep) {
            None => seq![s],
            Some(i) => {
                proof {
                    lemma_find_from_bounds(s, sep, 0);
                }
                seq![s.subrange(0, i)] + split_sub(s.subrange(i + sep.len(), s.len() as int), sep)
            },
        }
    }
}

/// Length of the run of ASCII digits that `s` starts with.
pub open spec fn digit_run(s: Seq<char>) -> int
    decreases s.len(),
{
    if s.len() > 0 && is_digit(s[0]) {
        1 + digit_run(s.drop_first())
    } else {
        0
    }
}

/// Number of leading characters equal to `c`.
pub open spec fn lead_count(s: Seq<char>, c: char) -> int
    decreases s.len(),
{
    if s.len() > 0 && s[0] == c {
        1 + lead_count(s.drop_first(), c)
    } else {
        0
    }
}

/// Number of trailing characters equal to `c`.
pub open spec fn trail_count(s: Seq<char>, c: char) -> int
    decreases s.len(),
{
    if s.len() > 0 && s.last() == c {
        1 + trail_count(s.drop_last(), c)
    } else {
        0
    }
}

/// `s` without leading and trailing `c`, as `str::trim_matches` gives it.
pub open spec fn trim_matches(s: Seq<char>, c: char) -> Seq<char> {
    let t = s.subrange(lead_count(s, c), s.len() as int);
    t.subrange(0, t.len() - trail_count(t, c))
}

/// Whether a `@font-face` block declares an italic face.
pub open spec fn face_italic(block: Seq<char>) -> bool {
    match find_sub(block, "font-style:"@) {
        Some(i) => has_prefix(
            trim_start(block.subrange(i + "font-style:"@.len(), block.len() as int)),
            "italic"@,
        ),
        None => false,
    }
}

/// The weight a `@font-face` block declares: the digits after
/// `font-weight:`, 400 when missing or not an `i32`.
pub open spec fn face_weight(block: Seq<char>) -> int {
    match find_sub(block, "font-weight:"@) {
        Some(i) => {
            let t = trim_start(block.subrange(i + "font-weight:"@.len(), block.len() as int));
            match parse_unsigned(t.subrange(0, digit_run(t)), i32::MAX as int) {
                Some(v) => v,
                None => 400,
            }
        },
        None => 400,
    }
}

/// The font address of a `@font-face` block: what `url(` and the next `)`
/// enclose, without surrounding single, then double quotes.
pub open spec fn face_url(block: Seq<char>) -> Option<Seq<char>> {
    match find_sub(block, "url("@) {
        None => None,
        Some(u) => {
            let rest = block.subrange(u + "url("@.len(), block.len() as int);
            match first_index_of(rest, ')') {
                None => None,
                Some(e) => Some(trim_matches(trim_matches(rest.subrange(0, e), '\''), '"')),
            }
        },
    }
}

/// The best face so far: italic flag, distance of its weight from the
/// target, and its address.
pub type FaceChoice = Option<(bool, int, Seq<char>)>;

/// Whether `(italic, dist)` ranks before `(bi, bd)`: upright before italic,
/// then the closer weight.
pub open spec fn ranks_before(italic: bool, dist: int, bi: bool, bd: int) -> bool {
    (!italic && bi) || (italic == bi && dist < bd)
}

/// The blocks considered one by one; a block without an address is skipped,
/// and a block replaces the best so far only when it ranks strictly before it.
pub open spec fn best_face(blocks: Seq<Seq<char>>, target: int, best: FaceChoice) -> FaceChoice
    decreases blocks.len(),
{
    if blocks.len() == 0 {
        best
    } else {
        let b = blocks[0];
        let next = match face_url(b) {
            None => best,
            Some(url) => {
                let italic = face_italic(b);
                let dist = if face_weight(b) >= target {
                    face_weight(b) - target
                } else {
                    target - face_weight(b)
                };
                match best {
                    Some((bi, bd, _)) => if ranks_before(italic, dist, bi, bd) {
                        Some((italic, dist, url))
                    } else {
                        best
                    },
                    None => Some((italic, dist, url)),
                }
            },
        };
        best_face(blocks.drop_first(), target, next)
    }
}

/// The face a stylesheet offers for regular (400) or bold (700) text: upright
/// faces first, then the weight closest to the target, the first of equals.
pub open spec fn picked_face(css: Seq<char>, bold: bool) -> Option<Seq<char>> {
    match best_face(
        split_sub(css, "@font-face"@).drop_first(),
        if bold {
            700
        } else {
            400
        },
        None,
    ) {
        Some((_, _, url)) => Some(url),
        None => None,
    }
}

pub open spec fn choice_view(best: Option<(bool, i32, Vec<char>)>) -> FaceChoice {
    match best {
        Some((bi, bd, bu)) => Some((bi, bd as int, bu@)),
        None => None,
    }
}

proof fn lemma_count_run(s: Seq<char>, i: int, c: char)
    requires
        0 <= i <= s.len(),
        forall|k: int| 0 <= k < i ==> #[trigger] s[k] == c,
        i == s.len() || s[i] != c,
    ensures
        lead_count(s, c) == i,
    decreases i,
{
    if i > 0 {
        lemma_count_run(s.drop_first(), i - 1, c);
    }
}

proof fn lemma_trail_run(s: Seq<char>, n: int, c: char)
    requires
        0 <= n <= s.len(),
        forall|k: int| s.len() - n <= k < s.len() ==> #[trigger] s[k] == c,
        n == s.len() || s[s.len() - n - 1] != c,
    ensures
        trail_count(s, c) == n,
    decreases n,
{
    if n > 0 {
        lemma_trail_run(s.drop_last(), n - 1, c);
    }
}

/// `s` without leading and trailing `c`.
pub fn trim_matches_chars(s: &Vec<char>, c: char) -> (r: Vec<char>)
    ensures
        r@ == trim_matches(s@, c),
{
    let mut lo: usize = 0;
    while lo < s.len() && s[lo] == c
        invariant
            0 <= lo <= s@.len(),
            forall|k: int| 0 <= k < lo ==> #[trigger] s@[k] == c,
        decreases s@.len() - lo,
    {
        lo = lo + 1;
    }
    proof {
        lemma_count_run(s@, lo as int, c);
    }
    let t = sub_chars(s, lo, s.len());
    let mut hi: usize = t.len();
    while hi > 0 && t[hi - 1] == c
        invariant
            0 <= hi <= t@.len(),
            forall|k: int| hi <= k < t@.len() ==> #[trigger] t@[k] == c,
        decreases hi,
    {
        hi = hi - 1;
    }
    proof {
        lemma_trail_run(t@, t@.len() - hi, c);
    }
    sub_chars(&t, 0, hi)
}

proof fn lemma_digit_run(s: Seq<char>, i: int)
    requires
        0 <= i <= s.len(),
        forall|k: int| 0 <= k < i ==> is_digit(#[trigger] s[k]),
        i == s.len() || !is_digit(s[i]),
    ensures
        digit_run(s) == i,
    decreases i,
{
    if i > 0 {
        lemma_digit_run(s.drop_first(), i - 1);
    }
}

proof fn lemma_leading_ws_run(s: Seq<char>, i: int)
    requires
        0 <= i <= s.len(),
        forall|k: int| 0 <= k < i ==> crate::numbers::is_whitespace(#[trigger] s[k]),
        i == s.len() || !crate::numbers::is_whitespace(s[i]),
    ensures
        crate::numbers::leading_ws(s) == i,
    decreases i,
{
    if i > 0 {
        lemma_leading_ws_run(s.drop_first(), i - 1);
    }
}

fn trim_start_chars(s: &Vec<char>) -> (r: Vec<char>)
    ensures
        r@ == trim_start(s@),
{
    let mut lo: usize = 0;
    while lo < s.len() && is_whitespace_exec(s[lo])
        invariant
            0 <= lo <= s@.len(),
            forall|k: int| 0 <= k < lo ==> crate::numbers::is_whitespace(#[trigger] s@[k]),
        decreases s@.len() - lo,
    {
        lo = lo + 1;
    }
    proof {
        lemma_leading_ws_run(s@, lo as int);
    }
    sub_chars(s, lo, s.len())
}

fn face_italic_exec(block: &Vec<char>) -> (r: bool)
    ensures
        r == face_italic(block@),
{
    let key = chars_of("font-style:");
    proof {
        lemma_find_from_bounds(block@, key@, 0);
    }
    match find_sub_from(block, &key, 0) {
        Some(i) => {
            let n = block.len();
            let t = trim_start_chars(&sub_chars(block, i + key.len(), n));
            starts_with_chars(&t, &chars_of("italic"))
        },
        None => false,
    }
}

fn face_weight_exec(block: &Vec<char>) -> (r: i32)
    ensures
        r == face_weight(block@),
        0 <= r,
{
    let key = chars_of("font-weight:");
    proof {
        lemma_find_from_bounds(block@, key@, 0);
    }
    match find_sub_from(block, &key, 0) {
        Some(i) => {
            let n = block.len();
            let t = trim_start_chars(&sub_chars(block, i + key.len(), n));
            let mut k: usize = 0;
            while k < t.len() && '0' <= t[k] && t[k] <= '9'
                invariant
                    0 <= k <= t@.len(),
                    forall|j: int| 0 <= j < k ==> is_digit(#[trigger] t@[j]),
                decreases t@.len() - k,
            {
                k = k + 1;
            }
            proof {
                lemma_digit_run(t@, k as int);
            }
            match parse_unsigned_chars(&sub_chars(&t, 0, k), 2147483647u64) {
                Some(v) => v as i32,
                None => 400,
            }
        },
        None => 400,
    }
}

fn face_url_exec(block: &Vec<char>) -> (r: Option<Vec<char>>)
    ensures
        match r {
            Some(u) => face_url(block@) == Some(u@),
            None => face_url(block@) is None,
        },
{
    let key = chars_of("url(");
    proof {
        lemma_find_from_bounds(block@, key@, 0);
    }
    let u = match find_sub_from(block, &key, 0) {
        Some(u) => u,
        None => return None,
    };
    let n = block.len();
    let rest = sub_chars(block, u + key.len(), n);
    proof {
        lemma_first_index_of_bounds(rest@, ')');
    }
    match find_char(&rest, ')') {
        Some(e) => {
            let inner = sub_chars(&rest, 0, e);
            Some(trim_matches_chars(&trim_matches_chars(&inner, '\''), '"'))
        },
        None => None,
    }
}

/// Chooses the font address out of a Google Fonts stylesheet for regular or
/// bold text.
pub fn pick_best_face(css: &str, bold: bool) -> (r: Option<String>)
    ensures
        match r {
            Some(u) => picked_face(css@, bold) == Some(u@),
            None => picked_face(css@, bold) is None,
        },
{
    let target: i32 = if bold {
        700
    } else {
        400
    };
    let s = chars_of(css);
    let sep = chars_of("@font-face");
    proof {
        reveal_strlit("@font-face");
    }
    let mut best: Option<(bool, i32, Vec<char>)> = None;
    let ghost blocks = split_sub(s@, sep@).drop_first();
    // skip the text before the first separator
    proof {
        lemma_find_from_bounds(s@, sep@, 0);
    }
    let n = s.len();
    let mut start: usize = match find_sub_from(&s, &sep, 0) {
        Some(i) => {
            assert(i + sep@.len() <= n);
            i + sep.len()
        },
        None => {
            proof {
                assert(split_sub(s@, sep@) == seq![s@]);
                assert(blocks =~= Seq::<Seq<char>>::empty());
            }
            return None;
        },
    };
    proof {
        let i = find_sub(s@, sep@).unwrap();
        assert(blocks == split_sub(s@.subrange(start as int, s@.len() as int), sep@)) by {
            assert((seq![s@.subrange(0, i)] + split_sub(s@.subrange(start as int, s@.len() as int), sep@)).drop_first()
                =~= split_sub(s@.subrange(start as int, s@.len() as int), sep@));
        }
    }
    loop
        invariant_except_break
            0 <= start <= s@.len(),
            sep@ == "@font-face"@,
            sep@.len() > 0,
            target == (if bold { 700int } else { 400int }),
            best_face(blocks, target as int, None) == best_face(
                split_sub(s@.subrange(start as int, s@.len() as int), sep@),
                target as int,
                choice_view(best),
            ),
            best matches Some((bi, bd, bu)) ==> 0 <= bd <= i32::MAX,
        ensures
            best_face(blocks, target as int, None) == choice_view(best),
        decreases s@.len() - start,
    {
        let tail = sub_chars(&s, start, s.len());
        proof {
            lemma_find_from_bounds(tail@, sep@, 0);
        }
        let found = find_sub_from(&tail, &sep, 0);
        let block = match found {
            Some(i) => sub_chars(&tail, 0, i),
            None => sub_chars(&tail, 0, tail.len()),
        };
        let ghost old_best: FaceChoice = choice_view(best);
        match face_url_exec(&block) {
            None => {},
            Some(url) => {
                let italic = face_italic_exec(&block);
                let weight = face_weight_exec(&block);
                let dist: i32 = if weight >= target {
                    weight - target
                } else {
                    target - weight
                };
                let better = match &best {
                    Some((bi, bd, _)) => (!italic && *bi) || (italic == *bi && dist < *bd),
                    None => true,
                };
                if better {
                    best = Some((italic, dist, url));
                }
            },
        }
        let ghost new_best: FaceChoice = choice_view(best);
        match found {
            Some(i) => {
                let ghost rest = split_sub(tail@.subrange(i + sep@.len(), tail@.len() as int), sep@);
                proof {
                    assert(split_sub(tail@, sep@) == seq![block@] + rest);
                    assert((seq![block@] + rest).drop_first() =~= rest);
                    assert((seq![block@] + rest)[0] == block@);
                    assert(tail@.subrange(i + sep@.len(), tail@.len() as int) =~= s@.subrange(
                        start + i + sep@.len(),
                        s@.len() as int,
                    ));
                    assert(best_face(seq![block@] + rest, target as int, old_best) == best_face(
                        rest,
                        target as int,
                        new_best,
                    ));
                }
                start = start + i + sep.len();
            },
            None => {
                proof {
                    assert(block@ =~= tail@);
                    assert(split_sub(tail@, sep@) == seq![tail@]);
                    assert(seq![tail@].drop_first() =~= Seq::<Seq<char>>::empty());
                    assert(best_face(seq![tail@], target as int, old_best) == best_face(
                        Seq::<Seq<char>>::empty(),
                        target as int,
                        new_best,
                    ));
                }
                break ;
            },
        }
    }
    match best {
        Some((_, _, url)) => Some(string_from_chars(url.as_slice())),
        None => None,
    }
}

/// Font files tried, in order, for labels when no web font is loaded: under
/// `root\Fonts` on Windows (`windows_root` given), the usual system
/// locations otherwise.
pub open spec fn system_fonts(bold: bool, windows_root: Option<Seq<char>>) -> Seq<Seq<char>> {
    match windows_root {
        Some(root) => {
            let files = if bold {
                seq!["segoeuib.ttf"@, "arialbd.ttf"@, "calibrib.ttf"@, "tahomabd.ttf"@]
            } else {
                seq!["segoeui.ttf"@, "arial.ttf"@, "calibri.ttf"@, "tahoma.ttf"@]
            };
            files.map_values(|f: Seq<char>| root + "\\Fonts\\"@ + f)
        },
        None => if bold {
            seq![
                "/usr/share/fonts/truetype/dejavu/DejaVuSans-Bold.ttf"@,
                "/usr/share/fonts/truetype/liberation/LiberationSans-Bold.ttf"@,
                "/usr/share/fonts/truetype/noto/NotoSans-Bold.ttf"@,
            ]
        } else {
            seq![
                "/usr/share/fonts/truetype/dejavu/DejaVuSans.ttf"@,
                "/usr/share/fonts/truetype/liberation/LiberationSans-Regular.ttf"@,
                "/usr/share/fonts/truetype/noto/NotoSans-Regular.ttf"@,
                "/usr/share/fonts/TTF/DejaVuSans.ttf"@,
                "/usr/share/fonts/dejavu/DejaVuSans.ttf"@,
            ]
        },
    }
}

/// Font files tried, in order, for symbols a label font lacks.
pub open spec fn symbol_fonts(windows_root: Option<Seq<char>>) -> Seq<Seq<char>> {
    match windows_root {
        Some(root) => seq!["seguisym.ttf"@, "seguiemj.ttf"@].map_values(
            |f: Seq<char>| root + "\\Fonts\\"@ + f,
        ),
        None => seq![
            "/usr/share/fonts/truetype/dejavu/DejaVuSans.ttf"@,
            "/usr/share/fonts/truetype/noto/NotoSansSymbols-Regular.ttf"@,
            "/usr/share/fonts/truetype/noto/NotoSansSymbols2-Regular.ttf"@,
        ],
    }
}

fn concat3(a: &str, b: &str, c: &str) -> (r: String)
    ensures
        r@ == a@ + b@ + c@,
{
    let mut v = chars_of(a);
    let bv = chars_of(b);
    let cv = chars_of(c);
    let ghost a0 = v@;
    let mut i: usize = 0;
    while i < bv.len()
        invariant
            0 <= i <= bv@.len(),
            v@ == a0 + bv@.subrange(0, i as int),
        decreases bv@.len() - i,
    {
        v.push(bv[i]);
        i = i + 1;
        proof {
            assert(v@ =~= a0 + bv@.subrange(0, i as int));
        }
    }
    let ghost ab = v@;
    let mut j: usize = 0;
    while j < cv.len()
        invariant
            0 <= j <= cv@.len(),
            v@ == ab + cv@.subrange(0, j as int),
        decreases cv@.len() - j,
    {
        v.push(cv[j]);
        j = j + 1;
        proof {
            assert(v@ =~= ab + cv@.subrange(0, j as int));
        }
    }
    proof {
        assert(bv@.subrange(0, bv@.len() as int) =~= bv@);
        assert(cv@.subrange(0, cv@.len() as int) =~= cv@);
    }
    string_from_chars(v.as_slice())
}

fn paths_under(root: &str, files: &Vec<&str>) -> (r: Vec<String>)
    ensures
        r@.map_values(|s: String| s@) == files@.map_values(|f: &str| f@).map_values(
            |f: Seq<char>| root@ + "\\Fonts\\"@ + f,
        ),
{
    let mut out: Vec<String> = Vec::new();
    let mut i: usize = 0;
    while i < files.len()
        invariant
            0 <= i <= files@.len(),
            out@.len() == i,
            forall|k: int|
                0 <= k < i ==> #[trigger] out@[k]@ == root@ + "\\Fonts\\"@ + files@[k]@,
        decreases files@.len() - i,
    {
        out.push(concat3(root, "\\Fonts\\", files[i]));
        i = i + 1;
    }
    proof {
        assert(out@.map_values(|s: String| s@) =~= files@.map_values(|f: &str| f@).map_values(
            |f: Seq<char>| root@ + "\\Fonts\\"@ + f,
        ));
    }
    out
}

fn owned_all(files: &Vec<&str>) -> (r: Vec<String>)
    ensures
        r@.map_values(|s: String| s@) == files@.map_values(|f: &str| f@),
{
    let mut out: Vec<String> = Vec::new();
    let mut i: usize = 0;
    while i < files.len()
        invariant
            0 <= i <= files@.len(),
            out@.len() == i,
            forall|k: int| 0 <= k < i ==> #[trigger] out@[k]@ == files@[k]@,
        decreases files@.len() - i,
    {
        out.push(files[i].to_owned());
        i = i + 1;
    }
    proof {
        assert(out@.map_values(|s: String| s@) =~= files@.map_values(|f: &str| f@));
    }
    out
}

/// Font files tried for labels, in order.
pub fn system_font_candidates(bold: bool, windows_root: Option<&str>) -> (r: Vec<String>)
    ensures
        r@.map_values(|s: String| s@) == system_fonts(
            bold,
            match windows_root {
                Some(root) => Some(root@),
                None => None,
            },
        ),
{
    match windows_root {
        Some(root) => {
            let files: Vec<&str> = if bold {
                vec!["segoeuib.ttf", "arialbd.ttf", "calibrib.ttf", "tahomabd.ttf"]
            } else {
                vec!["segoeui.ttf", "arial.ttf", "calibri.ttf", "tahoma.ttf"]
            };
            let r = paths_under(root, &files);
            proof {
                let expect = if bold {
                    seq!["segoeuib.ttf"@, "arialbd.ttf"@, "calibrib.ttf"@, "tahomabd.ttf"@]
                } else {
                    seq!["segoeui.ttf"@, "arial.ttf"@, "calibri.ttf"@, "tahoma.ttf"@]
                };
                assert(files@.map_values(|f: &str| f@) =~= expect);
            }
            r
        },
        None => {
            let files: Vec<&str> = if bold {
                vec![
                    "/usr/share/fonts/truetype/dejavu/DejaVuSans-Bold.ttf",
                    "/usr/share/fonts/truetype/liberation/LiberationSans-Bold.ttf",
                    "/usr/share/fonts/truetype/noto/NotoSans-Bold.ttf",
                ]
            } else {
                vec![
                    "/usr/share/fonts/truetype/dejavu/DejaVuSans.ttf",
                    "/usr/share/fonts/truetype/liberation/LiberationSans-Regular.ttf",
                    "/usr/share/fonts/truetype/noto/NotoSans-Regular.ttf",
                    "/usr/share/fonts/TTF/DejaVuSans.ttf",
                    "/usr/share/fonts/dejavu/DejaVuSans.ttf",
                ]
            };
            let r = owned_all(&files);
            proof {
                assert(files@.map_values(|f: &str| f@) =~= system_fonts(bold, None));
            }
            r
        },
    }
}

/// Font files tried for symbols, in order.
pub fn symbol_fallback_candidates(windows_root: Option<&str>) -> (r: Vec<String>)
    ensures
        r@.map_values(|s: String| s@) == symbol_fonts(
            match windows_root {
                Some(root) => Some(root@),
                None => None,
            },
        ),
{
    match windows_root {
        Some(root) => {
            let files: Vec<&str> = vec!["seguisym.ttf", "seguiemj.ttf"];
            let r = paths_under(root, &files);
            proof {
                assert(files@.map_values(|f: &str| f@) =~= seq!["seguisym.ttf"@, "seguiemj.ttf"@]);
            }
            r
        },
        None => {
            let files: Vec<&str> = vec![
                "/usr/share/fonts/truetype/dejavu/DejaVuSans.ttf",
                "/usr/share/fonts/truetype/noto/NotoSansSymbols-Regular.ttf",
                "/usr/share/fonts/truetype/noto/NotoSansSymbols2-Regular.ttf",
            ];
            let r = owned_all(&files);
            proof {
                assert(files@.map_values(|f: &str| f@) =~= symbol_fonts(None));
            }
            r
        },
    }
}

/// On Windows, text that is not bold tries the regular faces of Segoe UI,
/// Arial, Calibri and Tahoma under `root\Fonts`, and bold text their bold
/// faces, in that order; elsewhere regular and bold text try different files
/// first too.
pub proof fn lemma_regular_and_bold_faces(root: Seq<char>)
    ensures
        system_fonts(false, Some(root)) == seq![
            root + "\\Fonts\\"@ + "segoeui.ttf"@,
            root + "\\Fonts\\"@ + "arial.ttf"@,
            root + "\\Fonts\\"@ + "calibri.ttf"@,
            root + "\\Fonts\\"@ + "tahoma.ttf"@,
        ],
        system_fonts(true, Some(root)) == seq![
            root + "\\Fonts\\"@ + "segoeuib.ttf"@,
            root + "\\Fonts\\"@ + "arialbd.ttf"@,
            root + "\\Fonts\\"@ + "calibrib.ttf"@,
            root + "\\Fonts\\"@ + "tahomabd.ttf"@,
        ],
        system_fonts(false, Some(root))[0] != system_fonts(true, Some(root))[0],
        system_fonts(false, None)[0] != system_fonts(true, None)[0],
{
    let dir = root + "\\Fonts\\"@;
    assert(system_fonts(false, Some(root)) =~= seq![
        dir + "segoeui.ttf"@,
        dir + "arial.ttf"@,
        dir + "calibri.ttf"@,
        dir + "tahoma.ttf"@,
    ]);
    assert(system_fonts(true, Some(root)) =~= seq![
        dir + "segoeuib.ttf"@,
        dir + "arialbd.ttf"@,
        dir + "calibrib.ttf"@,
        dir + "tahomabd.ttf"@,
    ]);
    reveal_strlit("segoeui.ttf");
    reveal_strlit("segoeuib.ttf");
    assert((dir + "segoeui.ttf"@).len() != (dir + "segoeuib.ttf"@).len());
    reveal_strlit("/usr/share/fonts/truetype/dejavu/DejaVuSans.ttf");
    reveal_strlit("/usr/share/fonts/truetype/dejavu/DejaVuSans-Bold.ttf");
    assert("/usr/share/fonts/truetype/dejavu/DejaVuSans.ttf"@.len()
        != "/usr/share/fonts/truetype/dejavu/DejaVuSans-Bold.ttf"@.len());
}

} // verus!
