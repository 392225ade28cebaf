//! Separable box blur over an RGBA8 pixel buffer: one pass runs a sliding
//! window along every row (or every column) and replaces each channel by the
//! mean of the window, truncated and clamped to a byte.
use vstd::prelude::*;

verus! {

/// Sum of channel `c` over the pixels `lo..hi` of an RGBA line.
pub open spec fn channel_sum(line: Seq<i64>, c: int, lo: int, hi: int) -> int
    decreases hi - lo,
{
    if hi <= lo {
        0
    } else {
        channel_sum(line, c, lo, hi - 1) + line[(hi - 1) * 4 + c]
    }
}

/// Byte offset of channel `c` of pixel `(x, y)` in a buffer `w` pixels wide.
pub open spec fn pixel_index(w: int, x: int, y: int, c: int) -> int {
    (y * w + x) * 4 + c
}

pub open spec fn clamp_byte(v: int) -> int {
    if v < 0 {
        0
    } else if v > 255 {
        255
    } else {
        v
    }
}

pub open spec fn imax(a: int, b: int) -> int {
    if a < b { b } else { a }
}

pub open spec fn imin(a: int, b: int) -> int {
    if a < b { a } else { b }
}

/// First pixel of the window centred on `i`.
pub open spec fn window_lo(i: int, r: int) -> int {
    imax(0, i - r)
}

/// One past the last pixel of the window centred on `i` on a line of `inner` pixels.
pub open spec fn window_hi(inner: int, i: int, r: int) -> int {
    imin(inner, i + r + 1)
}

/// Offset of channel `c` of the `i`-th pixel along line `o`: row `o` when
/// `horizontal`, column `o` otherwise.
pub open spec fn line_pixel(w: int, horizontal: bool, o: int, i: int, c: int) -> int {
    if horizontal {
        pixel_index(w, i, o, c)
    } else {
        pixel_index(w, o, i, c)
    }
}

/// Sum of channel `c` of the buffer `d` over the positions `lo..hi` of line `o`.
pub open spec fn axis_sum(
    d: Seq<u8>,
    w: int,
    horizontal: bool,
    o: int,
    c: int,
    lo: int,
    hi: int,
) -> int
    decreases hi - lo,
{
    if hi <= lo {
        0
    } else {
        axis_sum(d, w, horizontal, o, c, lo, hi - 1) + d[line_pixel(w, horizontal, o, hi - 1, c)] as int
    }
}

/// The value that one pass of the box blur of radius `r` gives channel `c`
/// of pixel `(x, y)` of the `w` by `h` buffer `d`.
pub open spec fn blurred_channel(
    d: Seq<u8>,
    w: int,
    h: int,
    r: int,
    horizontal: bool,
    x: int,
    y: int,
    c: int,
) -> int {
    let inner = if horizontal { w } else { h };
    let o = if horizontal { y } else { x };
    let i = if horizontal { x } else { y };
    clamp_byte(
        axis_sum(d, w, horizontal, o, c, window_lo(i, r), window_hi(inner, i, r)) / (2 * r + 1),
    )
}

/// The whole buffer after one pass: every byte of the image is the blurred
/// value of the channel it belongs to; bytes past the `w` by `h` image are
/// left as they were.
pub open spec fn box_pass(d: Seq<u8>, w: int, h: int, r: int, horizontal: bool) -> Seq<u8> {
    Seq::new(
        d.len(),
        |k: int|
            if k < w * h * 4 {
                blurred_channel(d, w, h, r, horizontal, (k / 4) % w, (k / 4) / w, k % 4) as u8
            } else {
                d[k]
            },
    )
}

proof fn lemma_decompose(w: int, h: int, k: int)
    requires
        0 < w,
        0 <= h,
        0 <= k < w * h * 4,
    ensures
        0 <= (k / 4) % w < w,
        0 <= (k / 4) / w < h,
        0 <= k % 4 < 4,
        pixel_index(w, (k / 4) % w, (k / 4) / w, k % 4) == k,
{
    let q = k / 4;
    vstd::arithmetic::div_mod::lemma_fundamental_div_mod(k, 4);
    vstd::arithmetic::div_mod::lemma_fundamental_div_mod(q, w);
    vstd::arithmetic::div_mod::lemma_mod_pos_bound(k, 4);
    vstd::arithmetic::div_mod::lemma_mod_pos_bound(q, w);
    vstd::arithmetic::div_mod::lemma_div_pos_is_pos(k, 4);
    vstd::arithmetic::div_mod::lemma_div_pos_is_pos(q, w);
    assert(q < w * h) by {
        vstd::arithmetic::div_mod::lemma_multiply_divide_lt(k, 4, w * h);
        assert(4 * (w * h) == w * h * 4) by (nonlinear_arith);
    }
    vstd::arithmetic::div_mod::lemma_multiply_divide_lt(q, w, h);
    assert(w * (q / w) == (q / w) * w) by (nonlinear_arith);
}

proof fn lemma_channel_sum_bounds(line: Seq<i64>, n: int, c: int, lo: int, hi: int)
    requires
        0 <= c < 4,
        0 <= lo,
        hi <= n,
        n * 4 <= line.len(),
        forall|k: int| 0 <= k < n * 4 ==> 0 <= #[trigger] line[k] <= 255,
    ensures
        0 <= channel_sum(line, c, lo, hi),
        channel_sum(line, c, lo, hi) <= 255 * imax(0, hi - lo),
    decreases hi - lo,
{
    if hi > lo {
        lemma_channel_sum_bounds(line, n, c, lo, hi - 1);
        assert(0 <= (hi - 1) * 4 + c < n * 4);
    }
}

proof fn lemma_channel_sum_front(line: Seq<i64>, c: int, lo: int, hi: int)
    requires
        lo < hi,
    ensures
        channel_sum(line, c, lo, hi) == line[lo * 4 + c] + channel_sum(line, c, lo + 1, hi),
    decreases hi - lo,
{
    if hi - 1 > lo {
        lemma_channel_sum_front(line, c, lo, hi - 1);
        assert(channel_sum(line, c, lo + 1, hi) == channel_sum(line, c, lo + 1, hi - 1) + line[(hi
            - 1) * 4 + c]);
    } else {
        assert(channel_sum(line, c, lo, lo) == 0);
        assert(channel_sum(line, c, lo + 1, hi) == 0);
    }
}

/// Sliding-window pass over one loaded line of `inner` pixels.
fn blur_line(line: &Vec<i64>, inner: usize, radius: i64, out_line: &mut Vec<u8>)
    requires
        inner * 4 <= line@.len(),
        inner * 4 <= usize::MAX,
        inner * 4 <= old(out_line)@.len(),
        0 <= radius,
        2 * radius + 1 <= i64::MAX,
        inner + radius <= i64::MAX,
        forall|k: int| 0 <= k < inner * 4 ==> 0 <= #[trigger] line@[k] <= 255,
    ensures
        final(out_line)@.len() == old(out_line)@.len(),
        forall|i: int, c: int|
            0 <= i < inner && 0 <= c < 4 ==> #[trigger] final(out_line)@[i * 4 + c] == clamp_byte(
                channel_sum(line@, c, window_lo(i, radius as int), window_hi(inner as int, i, radius as int))
                    / (2 * radius + 1),
            ),
{
    let window: i64 = 2 * radius + 1;
    let mut sums: Vec<i128> = vec![0, 0, 0, 0];
    let mut k: usize = 0;
    while (k as i64) <= radius && k < inner
        invariant
            sums@.len() == 4,
            0 <= k <= inner,
            k <= radius + 1,
            inner * 4 <= line@.len(),
            inner * 4 <= usize::MAX,
            0 <= radius,
            2 * radius + 1 <= i64::MAX,
            inner + radius <= i64::MAX,
            forall|j: int| 0 <= j < inner * 4 ==> 0 <= #[trigger] line@[j] <= 255,
            forall|c: int| 0 <= c < 4 ==> #[trigger] sums@[c] == channel_sum(line@, c, 0, k as int),
        decreases inner - k,
    {
        let mut c: usize = 0;
        while c < 4
            invariant
                sums@.len() == 4,
                0 <= c <= 4,
                0 <= k < inner,
                inner * 4 <= line@.len(),
                inner * 4 <= usize::MAX,
                forall|j: int| 0 <= j < inner * 4 ==> 0 <= #[trigger] line@[j] <= 255,
                forall|cc: int|
                    0 <= cc < c ==> #[trigger] sums@[cc] == channel_sum(line@, cc, 0, k + 1),
                forall|cc: int|
                    c <= cc < 4 ==> #[trigger] sums@[cc] == channel_sum(line@, cc, 0, k as int),
            decreases 4 - c,
        {
            proof {
                lemma_channel_sum_bounds(line@, inner as int, c as int, 0, k as int);
            }
            let v = sums[c] + line[k * 4 + c] as i128;
            sums.set(c, v);
            c = c + 1;
        }
        k = k + 1;
    }
    let mut i: usize = 0;
    while i < inner
        invariant
            sums@.len() == 4,
            0 <= i <= inner,
            window == 2 * radius + 1,
            inner * 4 <= line@.len(),
            inner * 4 <= usize::MAX,
            inner * 4 <= old(out_line)@.len(),
            out_line@.len() == old(out_line)@.len(),
            0 <= radius,
            2 * radius + 1 <= i64::MAX,
            inner + radius <= i64::MAX,
            forall|j: int| 0 <= j < inner * 4 ==> 0 <= #[trigger] line@[j] <= 255,
            forall|c: int|
                0 <= c < 4 ==> #[trigger] sums@[c] == channel_sum(
                    line@,
                    c,
                    window_lo(i as int, radius as int),
                    window_hi(inner as int, i as int, radius as int),
                ),
            forall|ii: int, c: int|
                0 <= ii < i && 0 <= c < 4 ==> #[trigger] out_line@[ii * 4 + c] == clamp_byte(
                    channel_sum(
                        line@,
                        c,
                        window_lo(ii, radius as int),
                        window_hi(inner as int, ii, radius as int),
                    ) / (2 * radius + 1),
                ),
        decreases inner - i,
    {
        let ghost lo = window_lo(i as int, radius as int);
        let ghost hi = window_hi(inner as int, i as int, radius as int);
        let mut c: usize = 0;
        while c < 4
            invariant
                sums@.len() == 4,
                0 <= c <= 4,
                0 <= i < inner,
                window == 2 * radius + 1,
                0 <= radius,
                2 * radius + 1 <= i64::MAX,
                inner + radius <= i64::MAX,
                inner * 4 <= old(out_line)@.len(),
                out_line@.len() == old(out_line)@.len(),
                inner * 4 <= line@.len(),
                inner * 4 <= usize::MAX,
                lo == window_lo(i as int, radius as int),
                hi == window_hi(inner as int, i as int, radius as int),
                forall|j: int| 0 <= j < inner * 4 ==> 0 <= #[trigger] line@[j] <= 255,
                forall|cc: int| 0 <= cc < 4 ==> #[trigger] sums@[cc] == channel_sum(line@, cc, lo, hi),
                forall|ii: int, cc: int|
                    0 <= ii < i && 0 <= cc < 4 ==> #[trigger] out_line@[ii * 4 + cc] == clamp_byte(
                        channel_sum(
                            line@,
                            cc,
                            window_lo(ii, radius as int),
                            window_hi(inner as int, ii, radius as int),
                        ) / (2 * radius + 1),
                    ),
                forall|cc: int|
                    0 <= cc < c ==> #[trigger] out_line@[i * 4 + cc] == clamp_byte(
                        channel_sum(line@, cc, lo, hi) / (2 * radius + 1),
                    ),
            decreases 4 - c,
        {
            proof {
                lemma_channel_sum_bounds(line@, inner as int, c as int, lo, hi);
            }
            let q: i128 = sums[c] / (window as i128);
            let v: u8 = if q < 0 {
                0
            } else if q > 255 {
                255
            } else {
                q as u8
            };
            out_line.set(i * 4 + c, v);
            proof {
                assert forall|ii: int, cc: int|
                    0 <= ii < i && 0 <= cc < 4 implies #[trigger] out_line@[ii * 4 + cc]
                    == clamp_byte(
                    channel_sum(
                        line@,
                        cc,
                        window_lo(ii, radius as int),
                        window_hi(inner as int, ii, radius as int),
                    ) / (2 * radius + 1),
                ) by {
                    assert(ii * 4 + cc != i * 4 + c);
                }
            }
            c = c + 1;
        }
        let add_idx: i64 = i as i64 + radius + 1;
        let remove_idx: i64 = i as i64 - radius;
        let mut c: usize = 0;
        while c < 4
            invariant
                sums@.len() == 4,
                0 <= c <= 4,
                0 <= i < inner,
                0 <= radius,
                2 * radius + 1 <= i64::MAX,
                inner + radius <= i64::MAX,
                inner * 4 <= line@.len(),
                inner * 4 <= usize::MAX,
                add_idx == i + radius + 1,
                remove_idx == i - radius,
                lo == window_lo(i as int, radius as int),
                hi == window_hi(inner as int, i as int, radius as int),
                forall|j: int| 0 <= j < inner * 4 ==> 0 <= #[trigger] line@[j] <= 255,
                forall|cc: int|
                    0 <= cc < c ==> #[trigger] sums@[cc] == channel_sum(
                        line@,
                        cc,
                        window_lo(i + 1, radius as int),
                        window_hi(inner as int, i + 1, radius as int),
                    ),
                forall|cc: int| c <= cc < 4 ==> #[trigger] sums@[cc] == channel_sum(line@, cc, lo, hi),
            decreases 4 - c,
        {
            proof {
                lemma_channel_sum_bounds(line@, inner as int, c as int, lo, hi);
            }
            let mut s: i128 = sums[c];
            let ghost mid_hi = hi;
            if add_idx >= 0 && add_idx < inner as i64 {
                s = s + line[add_idx as usize * 4 + c] as i128;
                proof {
                    assert(window_hi(inner as int, i + 1, radius as int) == hi + 1);
                }
            } else {
                proof {
                    assert(window_hi(inner as int, i + 1, radius as int) == hi);
                }
            }
            let ghost new_hi = window_hi(inner as int, i + 1, radius as int);
            assert(s == channel_sum(line@, c as int, lo, new_hi));
            proof {
                lemma_channel_sum_bounds(line@, inner as int, c as int, lo, new_hi);
            }
            if remove_idx >= 0 && remove_idx < inner as i64 {
                proof {
                    lemma_channel_sum_front(line@, c as int, lo, new_hi);
                }
                s = s - line[remove_idx as usize * 4 + c] as i128;
            }
            sums.set(c, s);
            c = c + 1;
        }
        i = i + 1;
    }
}

proof fn lemma_pixel_bounds(w: int, h: int, x: int, y: int, c: int)
    requires
        0 <= x < w,
        0 <= y < h,
        0 <= c < 4,
    ensures
        0 <= y * w,
        0 <= pixel_index(w, x, y, c) < w * h * 4,
        pixel_index(w, x, y, c) + (4 - c) <= w * h * 4,
{
    assert(y * w + x < h * w) by (nonlinear_arith)
        requires
            0 <= x < w,
            0 <= y < h,
    ;
    assert(0 <= y * w) by (nonlinear_arith)
        requires
            0 <= w,
            0 <= y,
    ;
    assert(h * w * 4 == w * h * 4) by (nonlinear_arith);
}

proof fn lemma_pixel_injective(w: int, x1: int, y1: int, c1: int, x2: int, y2: int, c2: int)
    requires
        0 <= x1 < w,
        0 <= x2 < w,
        0 <= y1,
        0 <= y2,
        0 <= c1 < 4,
        0 <= c2 < 4,
        pixel_index(w, x1, y1, c1) == pixel_index(w, x2, y2, c2),
    ensures
        x1 == x2,
        y1 == y2,
        c1 == c2,
{
    let a1 = y1 * w + x1;
    let a2 = y2 * w + x2;
    assert(a1 == a2 && c1 == c2);
    if y1 < y2 {
        assert(y1 * w + w <= y2 * w) by (nonlinear_arith)
            requires
                y1 < y2,
                0 <= w,
        ;
    } else if y2 < y1 {
        assert(y2 * w + w <= y1 * w) by (nonlinear_arith)
            requires
                y2 < y1,
                0 <= w,
        ;
    }
}

proof fn lemma_line_fits(width: int, height: int, horizontal: bool, o: int)
    requires
        0 <= width,
        0 <= height,
        0 <= o < (if horizontal { height } else { width }),
    ensures
        (if horizontal { width } else { height }) * 4 <= width * height * 4,
{
    if horizontal {
        assert(width * 4 <= width * height * 4) by (nonlinear_arith)
            requires
                0 <= width,
                1 <= height,
        ;
    } else {
        assert(height * 4 <= width * height * 4) by (nonlinear_arith)
            requires
                1 <= width,
                0 <= height,
        ;
    }
}

proof fn lemma_line_sum_matches(
    line: Seq<i64>,
    d: Seq<u8>,
    w: int,
    horizontal: bool,
    o: int,
    c: int,
    lo: int,
    hi: int,
)
    requires
        forall|k: int|
            lo <= k < hi ==> #[trigger] line[k * 4 + c] == d[line_pixel(w, horizontal, o, k, c)] as int,
    ensures
        channel_sum(line, c, lo, hi) == axis_sum(d, w, horizontal, o, c, lo, hi),
    decreases hi - lo,
{
    if hi > lo {
        lemma_line_sum_matches(line, d, w, horizontal, o, c, lo, hi - 1);
    }
}

/// Copies line `o` of `data` into `line`, one `i64` per channel.
fn load_line(
    data: &Vec<u8>,
    width: usize,
    height: usize,
    o: usize,
    horizontal: bool,
    line: &mut Vec<i64>,
)
    requires
        width * height * 4 <= data@.len(),
        data@.len() <= usize::MAX,
        o < (if horizontal { height } else { width }),
        (if horizontal { width } else { height }) * 4 <= old(line)@.len(),
    ensures
        final(line)@.len() == old(line)@.len(),
        forall|i: int, c: int|
            0 <= i < (if horizontal { width } else { height }) && 0 <= c < 4
                ==> #[trigger] final(line)@[i * 4 + c] == data@[line_pixel(
                width as int,
                horizontal,
                o as int,
                i,
                c,
            )] as int,
        forall|k: int| 0 <= k < (if horizontal { width } else { height }) * 4
            ==> 0 <= #[trigger] final(line)@[k] <= 255,
{
    let inner: usize = if horizontal { width } else { height };
    proof {
        lemma_line_fits(width as int, height as int, horizontal, o as int);
    }
    let mut i: usize = 0;
    while i < inner
        invariant
            inner == (if horizontal { width } else { height }),
            inner * 4 <= data@.len(),
            width * height * 4 <= data@.len(),
            data@.len() <= usize::MAX,
            o < (if horizontal { height } else { width }),
            inner * 4 <= line@.len(),
            line@.len() == old(line)@.len(),
            0 <= i <= inner,
            forall|ii: int, c: int|
                0 <= ii < i && 0 <= c < 4 ==> #[trigger] line@[ii * 4 + c] == data@[line_pixel(
                    width as int,
                    horizontal,
                    o as int,
                    ii,
                    c,
                )] as int,
        decreases inner - i,
    {
        let (x, y) = if horizontal {
            (i, o)
        } else {
            (o, i)
        };
        proof {
            lemma_pixel_bounds(width as int, height as int, x as int, y as int, 0);
        }
        let idx = (y * width + x) * 4;
        let mut c: usize = 0;
        while c < 4
            invariant
                inner == (if horizontal { width } else { height }),
                inner * 4 <= data@.len(),
                width * height * 4 <= data@.len(),
                data@.len() <= usize::MAX,
                inner * 4 <= line@.len(),
                line@.len() == old(line)@.len(),
                0 <= i < inner,
                0 <= c <= 4,
                idx == line_pixel(width as int, horizontal, o as int, i as int, 0),
                idx + 4 <= width * height * 4,
                forall|ii: int, cc: int|
                    0 <= ii < i && 0 <= cc < 4 ==> #[trigger] line@[ii * 4 + cc]
                        == data@[line_pixel(width as int, horizontal, o as int, ii, cc)] as int,
                forall|cc: int|
                    0 <= cc < c ==> #[trigger] line@[i * 4 + cc] == data@[line_pixel(
                        width as int,
                        horizontal,
                        o as int,
                        i as int,
                        cc,
                    )] as int,
            decreases 4 - c,
        {
            line.set(i * 4 + c, data[idx + c] as i64);
            c = c + 1;
        }
        i = i + 1;
    }
    proof {
        assert forall|k: int| 0 <= k < inner * 4 implies 0 <= #[trigger] line@[k] <= 255 by {
            let ii = k / 4;
            let cc = k % 4;
            assert(k == ii * 4 + cc);
            assert(line@[ii * 4 + cc] == data@[line_pixel(
                width as int,
                horizontal,
                o as int,
                ii,
                cc,
            )] as int);
        }
    }
}

/// Writes the blurred `out_line` back into line `o` of `data`.
fn store_line(
    data: &mut Vec<u8>,
    width: usize,
    height: usize,
    o: usize,
    horizontal: bool,
    out_line: &Vec<u8>,
)
    requires
        width * height * 4 <= old(data)@.len(),
        old(data)@.len() <= usize::MAX,
        o < (if horizontal { height } else { width }),
        (if horizontal { width } else { height }) * 4 <= out_line@.len(),
    ensures
        final(data)@.len() == old(data)@.len(),
        forall|k: int|
            width * height * 4 <= k < old(data)@.len() ==> #[trigger] final(data)@[k] == old(data)@[k],
        forall|x: int, y: int, c: int|
            0 <= x < width && 0 <= y < height && 0 <= c < 4 ==> #[trigger] final(data)@[pixel_index(
                width as int,
                x,
                y,
                c,
            )] == (if (if horizontal { y } else { x }) == o {
                out_line@[(if horizontal { x } else { y }) * 4 + c]
            } else {
                old(data)@[pixel_index(width as int, x, y, c)]
            }),
{
    let inner: usize = if horizontal { width } else { height };
    proof {
        lemma_line_fits(width as int, height as int, horizontal, o as int);
    }
    let mut i: usize = 0;
    while i < inner
        invariant
            inner == (if horizontal { width } else { height }),
            inner * 4 <= data@.len(),
            width * height * 4 <= data@.len(),
            data@.len() <= usize::MAX,
            data@.len() == old(data)@.len(),
            forall|k: int|
                width * height * 4 <= k < data@.len() ==> #[trigger] data@[k] == old(data)@[k],
            o < (if horizontal { height } else { width }),
            inner * 4 <= out_line@.len(),
            0 <= i <= inner,
            forall|x: int, y: int, c: int|
                0 <= x < width && 0 <= y < height && 0 <= c < 4 ==> #[trigger] data@[pixel_index(
                    width as int,
                    x,
                    y,
                    c,
                )] == (if (if horizontal { y } else { x }) == o && (if horizontal {
                    x
                } else {
                    y
                }) < i {
                    out_line@[(if horizontal { x } else { y }) * 4 + c]
                } else {
                    old(data)@[pixel_index(width as int, x, y, c)]
                }),
        decreases inner - i,
    {
        let (px, py) = if horizontal {
            (i, o)
        } else {
            (o, i)
        };
        proof {
            lemma_pixel_bounds(width as int, height as int, px as int, py as int, 0);
        }
        let idx = (py * width + px) * 4;
        let mut c: usize = 0;
        while c < 4
            invariant
                inner == (if horizontal { width } else { height }),
                inner * 4 <= data@.len(),
                width * height * 4 <= data@.len(),
                data@.len() <= usize::MAX,
                data@.len() == old(data)@.len(),
                forall|k: int|
                    width * height * 4 <= k < data@.len() ==> #[trigger] data@[k] == old(data)@[k],
            forall|k: int|
                width * height * 4 <= k < data@.len() ==> #[trigger] data@[k] == old(data)@[k],
                o < (if horizontal { height } else { width }),
                inner * 4 <= out_line@.len(),
                0 <= i < inner,
                0 <= c <= 4,
                px == (if horizontal { i } else { o }),
                py == (if horizontal { o } else { i }),
                idx == pixel_index(width as int, px as int, py as int, 0),
                idx + 4 <= width * height * 4,
                forall|x: int, y: int, cc: int|
                    0 <= x < width && 0 <= y < height && 0 <= cc < 4 ==> #[trigger] data@[pixel_index(
                        width as int,
                        x,
                        y,
                        cc,
                    )] == (if ((if horizontal { y } else { x }) == o && (if horizontal {
                        x
                    } else {
                        y
                    }) < i) || (x == px && y == py && cc < c) {
                        out_line@[(if horizontal { x } else { y }) * 4 + cc]
                    } else {
                        old(data)@[pixel_index(width as int, x, y, cc)]
                    }),
            decreases 4 - c,
        {
            let ghost before = data@;
            data.set(idx + c, out_line[i * 4 + c]);
            proof {
                assert forall|x: int, y: int, cc: int|
                    0 <= x < width && 0 <= y < height && 0 <= cc < 4 implies #[trigger] data@[pixel_index(
                    width as int,
                    x,
                    y,
                    cc,
                )] == (if ((if horizontal { y } else { x }) == o && (if horizontal {
                    x
                } else {
                    y
                }) < i) || (x == px && y == py && cc < c + 1) {
                    out_line@[(if horizontal { x } else { y }) * 4 + cc]
                } else {
                    old(data)@[pixel_index(width as int, x, y, cc)]
                }) by {
                    if pixel_index(width as int, x, y, cc) == idx + c {
                        lemma_pixel_injective(width as int, x, y, cc, px as int, py as int, c as int);
                    } else {
                        lemma_pixel_bounds(width as int, height as int, x, y, cc);
                        assert(data@[pixel_index(width as int, x, y, cc)] == before[pixel_index(
                            width as int,
                            x,
                            y,
                            cc,
                        )]);
                    }
                }
            }
            c = c + 1;
        }
        i = i + 1;
    }
}

/// One pass of the box blur of radius `radius` over the `width` by `height`
/// RGBA buffer `data`, along rows when `horizontal` and along columns
/// otherwise. `line` and `out_line` are scratch space for one line.
pub fn box_blur_1d(
    data: &mut Vec<u8>,
    width: usize,
    height: usize,
    radius: i64,
    horizontal: bool,
    line: &mut Vec<i64>,
    out_line: &mut Vec<u8>,
)
    requires
        width * height * 4 <= old(data)@.len(),
        0 <= radius,
        2 * radius + 1 <= i64::MAX,
        (if horizontal { width } else { height }) + radius <= i64::MAX,
        (if horizontal { width } else { height }) * 4 <= old(line)@.len(),
        (if horizontal { width } else { height }) * 4 <= old(out_line)@.len(),
    ensures
        final(data)@ == box_pass(old(data)@, width as int, height as int, radius as int, horizontal),
        final(line)@.len() == old(line)@.len(),
        final(out_line)@.len() == old(out_line)@.len(),
{
    let ghost orig = data@;
    let _data_len = data.len();
    let _line_len = line.len();
    let (outer, inner) = if horizontal {
        (height, width)
    } else {
        (width, height)
    };
    let mut o: usize = 0;
    while o < outer
        invariant
            outer == (if horizontal { height } else { width }),
            inner == (if horizontal { width } else { height }),
            orig == old(data)@,
            width * height * 4 <= data@.len(),
            data@.len() == orig.len(),
            data@.len() <= usize::MAX,
            line@.len() <= usize::MAX,
            forall|k: int| width * height * 4 <= k < data@.len() ==> #[trigger] data@[k] == orig[k],
            0 <= radius,
            2 * radius + 1 <= i64::MAX,
            inner + radius <= i64::MAX,
            inner * 4 <= line@.len(),
            inner * 4 <= out_line@.len(),
            line@.len() == old(line)@.len(),
            out_line@.len() == old(out_line)@.len(),
            0 <= o <= outer,
            forall|x: int, y: int, c: int|
                0 <= x < width && 0 <= y < height && 0 <= c < 4 ==> #[trigger] data@[pixel_index(
                    width as int,
                    x,
                    y,
                    c,
                )] == (if (if horizontal { y } else { x }) < o {
                    blurred_channel(orig, width as int, height as int, radius as int, horizontal, x, y, c) as u8
                } else {
                    orig[pixel_index(width as int, x, y, c)]
                }),
        decreases outer - o,
    {
        proof {
            lemma_line_fits(width as int, height as int, horizontal, o as int);
        }
        let ghost before = data@;
        load_line(data, width, height, o, horizontal, line);
        proof {
            assert forall|i: int, c: int| 0 <= i < inner && 0 <= c < 4 implies #[trigger] line@[i
                * 4 + c] == orig[line_pixel(width as int, horizontal, o as int, i, c)] as int by {
                let (x, y) = if horizontal {
                    (i, o as int)
                } else {
                    (o as int, i)
                };
                assert(data@[pixel_index(width as int, x, y, c)] == orig[pixel_index(
                    width as int,
                    x,
                    y,
                    c,
                )]);
            }
        }
        blur_line(line, inner, radius, out_line);
        store_line(data, width, height, o, horizontal, out_line);
        proof {
            assert forall|x: int, y: int, c: int|
                0 <= x < width && 0 <= y < height && 0 <= c < 4 implies #[trigger] data@[pixel_index(
                width as int,
                x,
                y,
                c,
            )] == (if (if horizontal { y } else { x }) < o + 1 {
                blurred_channel(orig, width as int, height as int, radius as int, horizontal, x, y, c) as u8
            } else {
                orig[pixel_index(width as int, x, y, c)]
            }) by {
                if (if horizontal { y } else { x }) == o {
                    let i = if horizontal { x } else { y };
                    let lo = window_lo(i, radius as int);
                    let hi = window_hi(inner as int, i, radius as int);
                    assert forall|k: int| lo <= k < hi implies #[trigger] line@[k * 4 + c]
                        == orig[line_pixel(width as int, horizontal, o as int, k, c)] as int by {}
                    lemma_line_sum_matches(line@, orig, width as int, horizontal, o as int, c, lo, hi);
                }
            }
        }
        o = o + 1;
    }
    proof {
        assert forall|k: int| 0 <= k < data@.len() implies #[trigger] data@[k] == box_pass(
            orig,
            width as int,
            height as int,
            radius as int,
            horizontal,
        )[k] by {
            if k < width * height * 4 {
                if width == 0 {
                    assert(width * height * 4 == 0);
                }
                lemma_decompose(width as int, height as int, k);
            }
        }
        assert(data@ =~= box_pass(orig, width as int, height as int, radius as int, horizontal));
    }
}

/// Both passes of the box blur of radius `radius` (rows, then columns) over the
/// `width` by `height` RGBA buffer `data`.
pub fn box_blur(data: &mut Vec<u8>, width: usize, height: usize, radius: i64)
    requires
        width * height * 4 <= old(data)@.len(),
        0 <= radius,
        2 * radius + 1 <= i64::MAX,
        width + radius <= i64::MAX,
        height + radius <= i64::MAX,
    ensures
        final(data)@ == box_pass(
            box_pass(old(data)@, width as int, height as int, radius as int, true),
            width as int,
            height as int,
            radius as int,
            false,
        ),
{
    if width == 0 || height == 0 {
        proof {
            assert(width * height * 4 == 0) by (nonlinear_arith)
                requires
                    width == 0 || height == 0,
            ;
            let p = box_pass(data@, width as int, height as int, radius as int, true);
            assert(p =~= data@);
            assert(data@ =~= box_pass(p, width as int, height as int, radius as int, false));
        }
        return;
    }
    let _data_len = data.len();
    let inner_max = if width < height {
        height
    } else {
        width
    };
    proof {
        lemma_line_fits(width as int, height as int, true, 0);
        lemma_line_fits(width as int, height as int, false, 0);
    }
    let mut line: Vec<i64> = vec![0i64; inner_max * 4];
    let mut out_line: Vec<u8> = vec![0u8; inner_max * 4];
    box_blur_1d(data, width, height, radius, true, &mut line, &mut out_line);
    box_blur_1d(data, width, height, radius, false, &mut line, &mut out_line);
}

/// A pass of radius 0 leaves the buffer unchanged: each window is the pixel
/// itself.
pub proof fn lemma_radius_zero_pass(d: Seq<u8>, w: int, h: int, horizontal: bool)
    requires
        0 < w,
        0 <= h,
        w * h * 4 <= d.len(),
    ensures
        box_pass(d, w, h, 0, horizontal) == d,
{
    let p = box_pass(d, w, h, 0, horizontal);
    assert forall|k: int| 0 <= k < d.len() implies #[trigger] p[k] == d[k] by {
        if k < w * h * 4 {
            lemma_decompose(w, h, k);
            let x = (k / 4) % w;
            let y = (k / 4) / w;
            let c = k % 4;
            let o = if horizontal { y } else { x };
            let i = if horizontal { x } else { y };
            let inner = if horizontal { w } else { h };
            assert(window_lo(i, 0) == i);
            assert(window_hi(inner, i, 0) == i + 1);
            assert(axis_sum(d, w, horizontal, o, c, i, i) == 0);
            assert(line_pixel(w, horizontal, o, i, c) == k);
            assert(axis_sum(d, w, horizontal, o, c, i, i + 1) == d[k] as int);
            assert((d[k] as int) / 1 == d[k] as int);
            assert(blurred_channel(d, w, h, 0, horizontal, x, y, c) == d[k] as int);
            assert(p.len() == d.len());
            assert(p[k] == blurred_channel(d, w, h, 0, horizontal, x, y, c) as u8);
        }
    }
    assert(p =~= d);
}

/// A whole blur of radius 0 leaves the image unchanged.
pub proof fn lemma_radius_zero_blur(d: Seq<u8>, w: int, h: int)
    requires
        0 < w,
        0 <= h,
        w * h * 4 <= d.len(),
    ensures
        box_pass(box_pass(d, w, h, 0, true), w, h, 0, false) == d,
{
    lemma_radius_zero_pass(d, w, h, true);
    lemma_radius_zero_pass(d, w, h, false);
}

} // verus!
