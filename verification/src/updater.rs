//! Release checks of the standalone server: version numbers, the choice of
//! the release asset, the decision whether to offer an update and the
//! progress percentage of a download.
use vstd::prelude::*;

use crate::numbers::{parse_unsigned, parse_unsigned_chars};
use crate::strings::{chars_eq, chars_of, find_char, first_index_of, lemma_first_index_of_bounds, string_from_chars, sub_chars};

verus! {

/// An update that can be offered to the user.
pub struct UpdateInfo {
    pub version: String,
    pub release_url: String,
    pub download_url: String,
    pub body: String,
}

/// Progress of a running update, as sent to the user interface.
pub struct ProgressPayload {
    pub percent: u32,
    pub status: String,
}

/// One downloadable file of a release.
pub struct ReleaseAsset {
    pub name: String,
    pub browser_download_url: String,
}

/// The fields of the latest release that the update check reads.
pub struct ReleaseInfo {
    pub tag_name: String,
    pub html_url: String,
    pub body: Option<String>,
    pub assets: Vec<ReleaseAsset>,
}

/// Number of leading characters of `s` equal to `c`.
pub open spec fn leading_count(s: Seq<char>, c: char) -> int
    decreases s.len(),
{
    if s.len() > 0 && s[0] == c {
        1 + leading_count(s.drop_first(), c)
    } else {
        0
    }
}

/// `s` without all its leading `c`, as `str::trim_start_matches` gives it.
pub open spec fn trim_leading(s: Seq<char>, c: char) -> Seq<char> {
    s.subrange(leading_count(s, c), s.len() as int)
}

/// A version component: the number the piece reads as, 0 when it is
/// missing or not a `u32`.
pub open spec fn ver_component(piece: Option<Seq<char>>) -> u32 {
    match piece {
        Some(p) => match parse_unsigned(p, u32::MAX as int) {
            Some(v) => v as u32,
            None => 0,
        },
        None => 0,
    }
}

/// The at most three pieces of `s` cut at its first two dots, as
/// `str::splitn(3, '.')` yields them.
pub open spec fn three_pieces(s: Seq<char>) -> (Seq<char>, Option<Seq<char>>, Option<Seq<char>>) {
    match first_index_of(s, '.') {
        None => (s, None, None),
        Some(i) => {
            let rest = s.subrange(i + 1, s.len() as int);
            match first_index_of(rest, '.') {
                None => (s.subrange(0, i), Some(rest), None),
                Some(j) => (
                    s.subrange(0, i),
                    Some(rest.subrange(0, j)),
                    Some(rest.subrange(j + 1, rest.len() as int)),
                ),
            }
        },
    }
}

/// The `(major, minor, patch)` triple of a version string such as `v1.2.3`.
pub open spec fn version_of(v: Seq<char>) -> (u32, u32, u32) {
    let (a, b, c) = three_pieces(trim_leading(v, 'v'));
    (ver_component(Some(a)), ver_component(b), ver_component(c))
}

/// Lexicographic order on version triples.
pub open spec fn version_le(a: (u32, u32, u32), b: (u32, u32, u32)) -> bool {
    a.0 < b.0 || (a.0 == b.0 && (a.1 < b.1 || (a.1 == b.1 && a.2 <= b.2)))
}

proof fn lemma_leading_count(s: Seq<char>, c: char, i: int)
    requires
        0 <= i <= s.len(),
        forall|k: int| 0 <= k < i ==> #[trigger] s[k] == c,
        i == s.len() || s[i] != c,
    ensures
        leading_count(s, c) == i,
    decreases i,
{
    if i > 0 {
        lemma_leading_count(s.drop_first(), c, i - 1);
    }
}

/// `s` without all its leading `c`.
pub fn trim_leading_chars(s: &Vec<char>, c: char) -> (r: Vec<char>)
    ensures
        r@ == trim_leading(s@, c),
{
    let mut i: usize = 0;
    while i < s.len() && s[i] == c
        invariant
            0 <= i <= s@.len(),
            forall|k: int| 0 <= k < i ==> #[trigger] s@[k] == c,
        decreases s@.len() - i,
    {
        i = i + 1;
    }
    proof {
        lemma_leading_count(s@, c, i as int);
    }
    sub_chars(s, i, s.len())
}

fn ver_component_exec(piece: &Vec<char>) -> (r: u32)
    ensures
        r == ver_component(Some(piece@)),
{
    match parse_unsigned_chars(piece, 4294967295u64) {
        Some(v) => v as u32,
        None => 0,
    }
}

/// Reads a version string such as `v1.2.3` as `(1, 2, 3)`; missing or
/// unreadable components count as 0.
pub fn parse_ver(v: &str) -> (r: (u32, u32, u32))
    ensures
        r == version_of(v@),
{
    let chars = chars_of(v);
    let s = trim_leading_chars(&chars, 'v');
    proof {
        lemma_first_index_of_bounds(s@, '.');
    }
    match find_char(&s, '.') {
        None => (ver_component_exec(&s), 0, 0),
        Some(i) => {
            let n = s.len();
            let first = sub_chars(&s, 0, i);
            let rest = sub_chars(&s, i + 1, n);
            proof {
                lemma_first_index_of_bounds(rest@, '.');
            }
            match find_char(&rest, '.') {
                None => (ver_component_exec(&first), ver_component_exec(&rest), 0),
                Some(j) => {
                    let m = rest.len();
                    let second = sub_chars(&rest, 0, j);
                    let third = sub_chars(&rest, j + 1, m);
                    (ver_component_exec(&first), ver_component_exec(&second), ver_component_exec(&third))
                },
            }
        },
    }
}

/// Whether version triple `a` is not newer than `b`.
pub fn version_not_newer(a: (u32, u32, u32), b: (u32, u32, u32)) -> (r: bool)
    ensures
        r == version_le(a, b),
{
    a.0 < b.0 || (a.0 == b.0 && (a.1 < b.1 || (a.1 == b.1 && a.2 <= b.2)))
}

/// Index of the first asset named `name`.
pub open spec fn asset_index(assets: Seq<ReleaseAsset>, name: Seq<char>) -> Option<int>
    decreases assets.len(),
{
    if assets.len() == 0 {
        None
    } else if assets[0].name@ == name {
        Some(0)
    } else {
        match asset_index(assets.drop_first(), name) {
            Some(i) => Some(i + 1),
            None => None,
        }
    }
}

proof fn lemma_asset_index(assets: Seq<ReleaseAsset>, name: Seq<char>, j: int)
    requires
        0 <= j <= assets.len(),
        forall|k: int| 0 <= k < j ==> #[trigger] assets[k].name@ != name,
    ensures
        j < assets.len() && assets[j].name@ == name ==> asset_index(assets, name) == Some(j),
        j == assets.len() ==> asset_index(assets, name) is None,
    decreases j,
{
    if j > 0 {
        lemma_asset_index(assets.drop_first(), name, j - 1);
    }
}

/// What the update check offers for a release: nothing when the release is
/// not newer than the running version, when the user dismissed it, or when
/// it has no asset of the expected name; else the release's version, page,
/// the asset's download address and the release notes (empty when absent).
pub open spec fn offered_update(
    release: ReleaseInfo,
    current_version: Seq<char>,
    dismissed: Seq<Seq<char>>,
    asset_name: Seq<char>,
) -> Option<(Seq<char>, Seq<char>, Seq<char>, Seq<char>)> {
    let version = trim_leading(release.tag_name@, 'v');
    if version_le(version_of(version), version_of(current_version)) {
        None
    } else if dismissed.contains(version) {
        None
    } else {
        match asset_index(release.assets@, asset_name) {
            None => None,
            Some(i) => Some(
                (
                    version,
                    release.html_url@,
                    release.assets@[i].browser_download_url@,
                    match release.body {
                        Some(b) => b@,
                        None => Seq::empty(),
                    },
                ),
            ),
        }
    }
}

/// Decides whether `release` is offered as an update to a user running
/// `current_version` who dismissed the versions `dismissed`.
pub fn select_update(
    release: ReleaseInfo,
    current_version: &str,
    dismissed: &Vec<String>,
    asset_name: &str,
) -> (r: Option<UpdateInfo>)
    ensures
        match r {
            Some(u) => offered_update(
                release,
                current_version@,
                dismissed@.map_values(|d: String| d@),
                asset_name@,
            ) == Some((u.version@, u.release_url@, u.download_url@, u.body@)),
            None => offered_update(
                release,
                current_version@,
                dismissed@.map_values(|d: String| d@),
                asset_name@,
            ) is None,
        },
{
    let ghost rel = release;
    let tag = chars_of(release.tag_name.as_str());
    let version_chars = trim_leading_chars(&tag, 'v');
    let version = string_from_chars(version_chars.as_slice());
    if version_not_newer(parse_ver(version.as_str()), parse_ver(current_version)) {
        return None;
    }
    assert(version_chars@ == version@);
    let ghost ds = dismissed@.map_values(|d: String| d@);
    let mut i: usize = 0;
    while i < dismissed.len()
        invariant
            0 <= i <= dismissed@.len(),
            ds == dismissed@.map_values(|d: String| d@),
            release == rel,
            version@ == trim_leading(rel.tag_name@, 'v'),
            version_chars@ == version@,
            !version_le(version_of(version@), version_of(current_version@)),
            forall|k: int| 0 <= k < i ==> ds[k] != version@,
        decreases dismissed@.len() - i,
    {
        proof {
            assert(ds[i as int] == dismissed@[i as int]@);
        }
        if chars_eq(&chars_of(dismissed[i].as_str()), &version_chars) {
            proof {
                assert(ds[i as int] == version@);
                assert(ds.contains(version@));
            }
            return None;
        }
        i = i + 1;
    }
    proof {
        assert(!ds.contains(version@));
    }
    let name = chars_of(asset_name);
    let mut j: usize = 0;
    while j < release.assets.len()
        invariant
            0 <= j <= release.assets@.len(),
            release == rel,
            name@ == asset_name@,
            version@ == trim_leading(rel.tag_name@, 'v'),
            !version_le(version_of(version@), version_of(current_version@)),
            !ds.contains(version@),
            ds == dismissed@.map_values(|d: String| d@),
            forall|k: int| 0 <= k < j ==> release.assets@[k].name@ != asset_name@,
        decreases release.assets@.len() - j,
    {
        if chars_eq(&chars_of(release.assets[j].name.as_str()), &name) {
            proof {
                lemma_asset_index(release.assets@, asset_name@, j as int);
            }
            let download_url = release.assets[j].browser_download_url.clone();
            let body = match release.body {
                Some(b) => b,
                None => String::new(),
            };
            return Some(
                UpdateInfo { version, release_url: release.html_url, download_url, body },
            );
        }
        j = j + 1;
    }
    proof {
        lemma_asset_index(release.assets@, asset_name@, j as int);
    }
    None
}

/// Percentage shown while `downloaded` of `total` bytes have arrived: 5 plus
/// 65 times the fraction, none when the total is unknown (0).
pub fn download_progress(downloaded: u64, total: u64) -> (r: Option<u32>)
    requires
        downloaded * 65 <= u64::MAX,
        total > 0 ==> 5 + ((downloaded * 65) as int / total as int) as u32 <= u32::MAX,
    ensures
        total == 0 ==> r is None,
        total > 0 ==> r == Some((5 + ((downloaded * 65) as int / total as int) as u32) as u32),
{
    match (downloaded * 65).checked_div(total) {
        Some(div) => Some(5 + div as u32),
        None => None,
    }
}

/// Release asset of the Linux build: the AppImage when running as one, else
/// the zipped binary.
pub fn linux_asset_name(running_as_appimage: bool) -> (r: &'static str)
    ensures
        r@ == (if running_as_appimage {
            "input-overlay-ws-linux.AppImage"@
        } else {
            "input-overlay-ws-linux-binary.zip"@
        }),
{
    if running_as_appimage {
        "input-overlay-ws-linux.AppImage"
    } else {
        "input-overlay-ws-linux-binary.zip"
    }
}

/// Versions are totally ordered: every two compare, the order is
/// transitive, and two versions each no newer than the other are equal.
pub proof fn lemma_version_order(a: (u32, u32, u32), b: (u32, u32, u32), c: (u32, u32, u32))
    ensures
        version_le(a, a),
        version_le(a, b) || version_le(b, a),
        version_le(a, b) && version_le(b, c) ==> version_le(a, c),
        version_le(a, b) && version_le(b, a) ==> a == b,
{
}

} // verus!
