//! Colour arithmetic on 8-bit channels: reading `#rrggbb[aa]` settings,
//! choosing an outline that contrasts with a colour, and blending a glyph's
//! coverage over a premultiplied pixel.
use vstd::prelude::*;

use crate::link::hex_pair;

verus! {

/// `b` without all its leading bytes equal to `x`.
pub open spec fn strip_leading_byte(b: Seq<u8>, x: u8) -> Seq<u8>
    decreases b.len(),
{
    if b.len() > 0 && b[0] == x {
        strip_leading_byte(b.drop_first(), x)
    } else {
        b
    }
}

/// Channel read from the two bytes at `i`: their hex value, 0 when they are
/// missing or do not read as a hex byte.
pub open spec fn color_byte(b: Seq<u8>, i: int) -> u8 {
    if i + 2 <= b.len() {
        match hex_pair(b[i], b[i + 1]) {
            Some(v) => v,
            None => 0,
        }
    } else {
        0
    }
}

/// The channels `(r, g, b, a)` of a hex colour setting; the alpha is read
/// only from an eight-digit colour and is `fallback_alpha` otherwise.
pub open spec fn hex_rgba(s: Seq<char>, fallback_alpha: u8) -> (u8, u8, u8, u8) {
    let t = strip_leading_byte(vstd::utf8::encode_utf8(s), 0x23);
    (
        color_byte(t, 0),
        color_byte(t, 2),
        color_byte(t, 4),
        if t.len() >= 8 {
            color_byte(t, 6)
        } else {
            fallback_alpha
        },
    )
}

proof fn lemma_strip_leading_byte(b: Seq<u8>, x: u8, i: int)
    requires
        0 <= i <= b.len(),
        forall|k: int| 0 <= k < i ==> #[trigger] b[k] == x,
    ensures
        strip_leading_byte(b, x) == strip_leading_byte(b.subrange(i, b.len() as int), x),
    decreases i,
{
    if i > 0 {
        lemma_strip_leading_byte(b.drop_first(), x, i - 1);
        assert(b.drop_first().subrange(i - 1, b.drop_first().len() as int) =~= b.subrange(
            i,
            b.len() as int,
        ));
    } else {
        assert(b.subrange(0, b.len() as int) =~= b);
    }
}

fn color_byte_exec(b: &[u8], start: usize, i: usize) -> (r: u8)
    requires
        start <= b@.len(),
    ensures
        r == color_byte(b@.subrange(start as int, b@.len() as int), i as int),
{
    let n = b.len() - start;
    if i <= n && n - i >= 2 {
        let b1 = b[start + i];
        let b2 = b[start + i + 1];
        match crate::link::hex_pair_exec(b1, b2) {
            Some(v) => v,
            None => 0,
        }
    } else {
        0
    }
}

/// Reads a `#rrggbb` or `#rrggbbaa` colour; unreadable channels are 0.
pub fn parse_hex_rgba(s: &str, fallback_alpha: u8) -> (r: (u8, u8, u8, u8))
    ensures
        r == hex_rgba(s@, fallback_alpha),
{
    let b = s.as_bytes();
    let mut start: usize = 0;
    while start < b.len() && b[start] == 0x23
        invariant
            0 <= start <= b@.len(),
            forall|k: int| 0 <= k < start ==> #[trigger] b@[k] == 0x23,
        decreases b@.len() - start,
    {
        start = start + 1;
    }
    proof {
        lemma_strip_leading_byte(b@, 0x23, start as int);
        let t = b@.subrange(start as int, b@.len() as int);
        assert(strip_leading_byte(t, 0x23) == t);
    }
    let red = color_byte_exec(b, start, 0);
    let green = color_byte_exec(b, start, 2);
    let blue = color_byte_exec(b, start, 4);
    let alpha = if b.len() - start >= 8 {
        color_byte_exec(b, start, 6)
    } else {
        fallback_alpha
    };
    (red, green, blue, alpha)
}

/// Whether black (rather than white) contrasts with the colour `(r, g, b)`:
/// its 24-bit value exceeds half of `0xFFFFFF`.
pub open spec fn prefers_black(r: u8, g: u8, b: u8) -> bool {
    r * 65536 + g * 256 + b > 0x00FF_FFFFint / 2
}

/// Whether the outline drawn around text of colour `(r, g, b)` is black.
pub fn contrast_is_black(r: u8, g: u8, b: u8) -> (res: bool)
    ensures
        res == prefers_black(r, g, b),
{
    let value: u32 = (r as u32) * 65536 + (g as u32) * 256 + b as u32;
    value > 0x00FF_FFFF / 2
}

/// A source channel weighted by the effective source alpha.
pub open spec fn premul(channel: int, src_a: int) -> int {
    channel * src_a / 255
}

/// The pixel `dst` after blending the colour `(r, g, b, a)` over it with
/// coverage `cov`: source-over in integer arithmetic, each channel capped at 255.
pub open spec fn blend_over(dst: Seq<u8>, r: u8, g: u8, b: u8, a: u8, cov: u8) -> Seq<u8> {
    let src_a = a * cov / 255;
    let inv = 255 - src_a;
    seq![
        imin255(premul(r as int, src_a) + dst[0] * inv / 255) as u8,
        imin255(premul(g as int, src_a) + dst[1] * inv / 255) as u8,
        imin255(premul(b as int, src_a) + dst[2] * inv / 255) as u8,
        imin255(src_a + dst[3] * inv / 255) as u8,
    ]
}

pub open spec fn imin255(v: int) -> int {
    if v < 255 {
        v
    } else {
        255
    }
}

/// Blends the colour `(r, g, b, a)` with coverage `coverage` over the four
/// channels of `dst` starting at `at`; nothing else changes.
pub fn blend_pixel_over(dst: &mut Vec<u8>, at: usize, r: u8, g: u8, b: u8, a: u8, coverage: u8)
    requires
        at + 4 <= old(dst)@.len(),
    ensures
        final(dst)@.len() == old(dst)@.len(),
        final(dst)@.subrange(at as int, at + 4) == blend_over(
            old(dst)@.subrange(at as int, at + 4),
            r,
            g,
            b,
            a,
            coverage,
        ),
        forall|k: int|
            0 <= k < old(dst)@.len() && !(at <= k < at + 4) ==> #[trigger] final(dst)@[k] == old(
                dst,
            )@[k],
{
    proof {
        assert(a as u32 * coverage as u32 <= 255 * 255) by (nonlinear_arith)
            requires
                a <= 255,
                coverage <= 255,
        ;
    }
    let src_a: u32 = a as u32 * coverage as u32 / 255;
    proof {
        assert(src_a <= 255) by (nonlinear_arith)
            requires
                src_a == (a as u32 * coverage as u32) / 255,
                a as u32 * coverage as u32 <= 255 * 255,
        ;
    }
    let inv: u32 = 255 - src_a;
    let ghost d = old(dst)@.subrange(at as int, at + 4);
    let n = dst.len();
    let mut c: usize = 0;
    while c < 4
        invariant
            0 <= c <= 4,
            n == dst@.len(),
            at + 4 <= dst@.len(),
            dst@.len() == old(dst)@.len(),
            d == old(dst)@.subrange(at as int, at + 4),
            src_a == a * coverage / 255,
            src_a <= 255,
            inv == 255 - src_a,
            forall|k: int| 0 <= k < c ==> #[trigger] dst@[at + k] == blend_over(d, r, g, b, a, coverage)[k],
            forall|k: int|
                0 <= k < old(dst)@.len() && !(at <= k < at + c) ==> #[trigger] dst@[k] == old(
                    dst,
                )@[k],
        decreases 4 - c,
    {
        let channel: u32 = if c == 0 {
            r as u32
        } else if c == 1 {
            g as u32
        } else if c == 2 {
            b as u32
        } else {
            255
        };
        let old_v: u32 = dst[at + c] as u32;
        proof {
            assert(old_v * inv <= 255 * 255) by (nonlinear_arith)
                requires
                    old_v <= 255,
                    inv <= 255,
            ;
            assert(channel * src_a <= 255 * 255) by (nonlinear_arith)
                requires
                    channel <= 255,
                    src_a <= 255,
            ;
        }
        let p: u32 = if c == 3 {
            src_a
        } else {
            channel * src_a / 255
        };
        let v: u32 = p + old_v * inv / 255;
        let capped: u8 = if v < 255 {
            v as u8
        } else {
            255
        };
        proof {
            assert(old_v == d[c as int]);
            assert(capped == blend_over(d, r, g, b, a, coverage)[c as int]);
        }
        dst.set(at + c, capped);
        c = c + 1;
    }
    proof {
        let bo = blend_over(d, r, g, b, a, coverage);
        assert(bo.len() == 4);
        assert forall|k: int| 0 <= k < 4 implies #[trigger] dst@.subrange(at as int, at + 4)[k]
            == bo[k] by {
            assert(dst@[at + k] == bo[k]);
        }
        assert(dst@.subrange(at as int, at + 4) =~= bo);
    }
}

/// Blending with no coverage, or a transparent colour, leaves the pixel as
/// it was; an opaque colour at full coverage replaces it.
pub proof fn lemma_blend_extremes(dst: Seq<u8>, r: u8, g: u8, b: u8, a: u8, cov: u8)
    requires
        dst.len() == 4,
    ensures
        (cov == 0 || a == 0) ==> blend_over(dst, r, g, b, a, cov) == dst,
        (a == 255 && cov == 255) ==> blend_over(dst, r, g, b, a, cov) == seq![r, g, b, 255u8],
{
    if cov == 0 || a == 0 {
        assert(a * cov == 0) by (nonlinear_arith)
            requires
                cov == 0 || a == 0,
        ;
        vstd::arithmetic::div_mod::lemma_div_by_multiple(dst[0] as int, 255);
        vstd::arithmetic::div_mod::lemma_div_by_multiple(dst[1] as int, 255);
        vstd::arithmetic::div_mod::lemma_div_by_multiple(dst[2] as int, 255);
        vstd::arithmetic::div_mod::lemma_div_by_multiple(dst[3] as int, 255);
        vstd::arithmetic::div_mod::lemma_div_by_multiple(r as int, 255);
        vstd::arithmetic::div_mod::lemma_div_by_multiple(g as int, 255);
        vstd::arithmetic::div_mod::lemma_div_by_multiple(b as int, 255);
        assert(premul(r as int, 0) == 0);
        assert(premul(g as int, 0) == 0);
        assert(premul(b as int, 0) == 0);
        assert(blend_over(dst, r, g, b, a, cov) =~= dst);
    }
    if a == 255 && cov == 255 {
        assert(a * cov / 255 == 255) by (nonlinear_arith)
            requires
                a == 255 && cov == 255,
        ;
        vstd::arithmetic::div_mod::lemma_div_by_multiple(dst[0] as int, 255);
        vstd::arithmetic::div_mod::lemma_div_by_multiple(dst[1] as int, 255);
        vstd::arithmetic::div_mod::lemma_div_by_multiple(dst[2] as int, 255);
        vstd::arithmetic::div_mod::lemma_div_by_multiple(dst[3] as int, 255);
        vstd::arithmetic::div_mod::lemma_div_by_multiple(r as int, 255);
        vstd::arithmetic::div_mod::lemma_div_by_multiple(g as int, 255);
        vstd::arithmetic::div_mod::lemma_div_by_multiple(b as int, 255);
        assert(premul(r as int, 255) == r);
        assert(premul(g as int, 255) == g);
        assert(premul(b as int, 255) == b);
        assert(blend_over(dst, r, g, b, a, cov) =~= seq![r, g, b, 255u8]);
    }
}

} // verus!
