use vstd::prelude::*;
use crate::strings::{chars_of, lowercase, string_from_chars, sub_chars, to_lowercase};
use crate::search::{ends_with_chars, has_suffix};
use crate::numbers::{trim, trim_chars};

verus! {

/// Whether `c` ends the path part of a URL (a query or a fragment starts).
pub open spec fn ends_path(c: char) -> bool {
    c == '?' || c == '#'
}

/// Length of the path part of `url`: everything before the first `?` or `#`.
pub open spec fn path_len(url: Seq<char>) -> int
    decreases url.len(),
{
    if url.len() == 0 || ends_path(url[0]) {
        0
    } else {
        1 + path_len(url.drop_first())
    }
}

/// The path part of `url`.
pub open spec fn url_path(url: Seq<char>) -> Seq<char> {
    url.take(path_len(url))
}

/// Whether the lower-cased path of `url` ends in `.` followed by one of `exts`.
pub open spec fn has_extension_spec(url: Seq<char>, exts: Seq<Seq<char>>) -> bool {
    exists|i: int|
        0 <= i < exts.len() && #[trigger] has_suffix(
            lowercase(url_path(url)),
            seq!['.'] + exts[i],
        )
}

/// The file extensions that are treated as video.
pub open spec fn video_extensions() -> Seq<Seq<char>> {
    seq!["mp4"@, "webm"@, "ogv"@, "ogg"@, "mov"@, "mkv"@]
}

proof fn lemma_path_len(url: Seq<char>, k: int)
    requires
        0 <= k <= url.len(),
        forall|j: int| 0 <= j < k ==> !ends_path(#[trigger] url[j]),
        k == url.len() || ends_path(url[k]),
    ensures
        path_len(url) == k,
    decreases k,
{
    if k > 0 {
        assert forall|j: int| 0 <= j < k - 1 implies !ends_path(#[trigger] url.drop_first()[j]) by {
            assert(url.drop_first()[j] == url[j + 1]);
        }
        lemma_path_len(url.drop_first(), k - 1);
    }
}

fn path_end(s: &Vec<char>) -> (k: usize)
    ensures
        k == path_len(s@),
        k <= s@.len(),
{
    let n = s.len();
    let mut k: usize = 0;
    while k < n
        invariant
            n == s@.len(),
            0 <= k <= n,
            forall|j: int| 0 <= j < k ==> !ends_path(#[trigger] s@[j]),
        decreases n - k,
    {
        if s[k] == '?' || s[k] == '#' {
            proof {
                lemma_path_len(s@, k as int);
            }
            return k;
        }
        k = k + 1;
    }
    proof {
        lemma_path_len(s@, k as int);
    }
    k
}

/// Whether the path of `url` (before any `?` or `#`), lower-cased, ends in
/// `.` and one of `exts`.
pub fn has_extension(url: &str, exts: &[&str]) -> (r: bool)
    ensures
        r == has_extension_spec(url@, exts@.map_values(|e: &str| e@)),
{
    let chars = chars_of(url);
    let end = path_end(&chars);
    let path = sub_chars(&chars, 0, end);
    let path_str = string_from_chars(path.as_slice());
    let lower = to_lowercase(path_str.as_str());
    let lc = chars_of(lower.as_str());
    proof {
        assert(path@ =~= url_path(url@));
    }
    let ghost all = exts@.map_values(|e: &str| e@);
    let n = exts.len();
    let mut i: usize = 0;
    while i < n
        invariant
            n == exts@.len(),
            all == exts@.map_values(|e: &str| e@),
            lc@ == lowercase(url_path(url@)),
            0 <= i <= n,
            forall|j: int| 0 <= j < i ==> !has_suffix(lc@, seq!['.'] + #[trigger] all[j]),
        decreases n - i,
    {
        let mut pat: Vec<char> = Vec::new();
        pat.push('.');
        let e = chars_of(exts[i]);
        let m = e.len();
        let mut k: usize = 0;
        while k < m
            invariant
                m == e@.len(),
                0 <= k <= m,
                pat@ == seq!['.'] + e@.take(k as int),
            decreases m - k,
        {
            pat.push(e[k]);
            proof {
                assert(e@.take(k as int + 1) =~= e@.take(k as int).push(e@[k as int]));
            }
            k = k + 1;
        }
        proof {
            assert(e@.take(m as int) =~= e@);
            assert(all[i as int] == e@);
        }
        if ends_with_chars(&lc, &pat) {
            return true;
        }
        i = i + 1;
    }
    false
}

/// Whether `url` names a video file by its extension.
pub fn is_video(url: &str) -> (r: bool)
    ensures
        r == has_extension_spec(url@, video_extensions()),
{
    let exts: [&str; 6] = ["mp4", "webm", "ogv", "ogg", "mov", "mkv"];
    let r = has_extension(url, &exts);
    proof {
        assert(exts@.map_values(|e: &str| e@) =~= video_extensions());
    }
    r
}

/// Whether `url` names a GIF file by its extension.
pub fn is_gif(url: &str) -> (r: bool)
    ensures
        r == has_extension_spec(url@, seq!["gif"@]),
{
    let exts: [&str; 1] = ["gif"];
    let r = has_extension(url, &exts);
    proof {
        assert(exts@.map_values(|e: &str| e@) =~= seq!["gif"@]);
    }
    r
}

/// An image decoded to RGBA8: `width` by `height` pixels, row by row, four
/// bytes each.
pub struct DecodedImage {
    pub width: u32,
    pub height: u32,
    pub pixels: Vec<u8>,
}

/// What the `image` crate makes of the file `bytes`: its width, height and
/// RGBA8 pixels, or nothing when it cannot read it.
pub uninterp spec fn image_rgba(bytes: Seq<u8>) -> Option<(u32, u32, Seq<u8>)>;

/// Decodes an image file held in memory.
///
/// Trusted: `image::load_from_memory` guesses the format from the bytes and
/// decodes them, `to_rgba8` converts the result to RGBA8, and `dimensions`
/// and `into_raw` hand out its size and pixels. All of it depends on the
/// bytes alone; the outcome is named `image_rgba`.
#[verifier::external_body]
fn decode_rgba(bytes: &[u8]) -> (r: Option<(u32, u32, Vec<u8>)>)
    ensures
        match r {
            Some((w, h, px)) => image_rgba(bytes@) == Some((w, h, px@)),
            None => image_rgba(bytes@) is None,
        },
{
    match image::load_from_memory(bytes) {
        Ok(img) => {
            let rgba = img.to_rgba8();
            let (w, h) = rgba.dimensions();
            Some((w, h, rgba.into_raw()))
        },
        Err(_) => None,
    }
}

/// Decodes the texture file `bytes`; nothing when it is not an image that
/// the decoder reads.
pub fn decode_texture(bytes: &[u8]) -> (r: Option<DecodedImage>)
    ensures
        match r {
            Some(img) => image_rgba(bytes@) == Some((img.width, img.height, img.pixels@)),
            None => image_rgba(bytes@) is None,
        },
{
    match decode_rgba(bytes) {
        Some((width, height, pixels)) => Some(DecodedImage { width, height, pixels }),
        None => None,
    }
}

/// Where a texture given as `url` is loaded from: the trimmed text, unless
/// it is empty or names a video.
pub open spec fn texture_url(url: Seq<char>) -> Option<Seq<char>> {
    let t = trim(url);
    if t.len() == 0 || has_extension_spec(t, video_extensions()) {
        None
    } else {
        Some(t)
    }
}

/// The location to load the texture `url` from, or nothing when there is
/// none to load.
pub fn texture_source(url: &str) -> (r: Option<String>)
    ensures
        match r {
            Some(s) => texture_url(url@) == Some(s@),
            None => texture_url(url@) is None,
        },
{
    let t = trim_chars(&chars_of(url));
    if t.len() == 0 {
        return None;
    }
    let s = string_from_chars(t.as_slice());
    if is_video(s.as_str()) {
        None
    } else {
        Some(s)
    }
}

} // verus!
