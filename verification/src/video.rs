//! Settings of the overlay video source that are plain text (the output
//! resolution), and the render worker's decisions.
use vstd::prelude::*;

use crate::numbers::{parse_i64, parse_i64_chars, trim, trim_chars};
use crate::strings::{str_eq, chars_of, find_char, first_index_of, lemma_first_index_of_bounds, lowercase, string_from_chars, sub_chars, to_lowercase};

verus! {

/// Width and height used when the resolution setting does not read.
pub const DEFAULT_WIDTH: u32 = 512;

pub const DEFAULT_HEIGHT: u32 = 512;

/// Smallest and largest side accepted.
pub const MIN_DIMENSION: i32 = 64;

pub const MAX_DIMENSION: i32 = 7680;

/// A side length kept within `MIN_DIMENSION..=MAX_DIMENSION`.
pub open spec fn clamp_dimension(v: int) -> u32 {
    if v < MIN_DIMENSION {
        MIN_DIMENSION as u32
    } else if v > MAX_DIMENSION {
        MAX_DIMENSION as u32
    } else {
        v as u32
    }
}

/// The resolution a setting such as `1920x1080` gives: trimmed and
/// lower-cased, cut at its first `x`; both sides trimmed must read as
/// integers, which are then clamped; otherwise the default.
pub open spec fn resolution_of(s: Seq<char>) -> (u32, u32) {
    let t = lowercase(trim(s));
    match first_index_of(t, 'x') {
        Some(i) => match (
            parse_i64(trim(t.subrange(0, i))),
            parse_i64(trim(t.subrange(i + 1, t.len() as int))),
        ) {
            (Some(w), Some(h)) => (clamp_dimension(w), clamp_dimension(h)),
            _ => (DEFAULT_WIDTH, DEFAULT_HEIGHT),
        },
        None => (DEFAULT_WIDTH, DEFAULT_HEIGHT),
    }
}

fn clamp_dimension_exec(v: i64) -> (r: u32)
    ensures
        r == clamp_dimension(v as int),
{
    if v < MIN_DIMENSION as i64 {
        MIN_DIMENSION as u32
    } else if v > MAX_DIMENSION as i64 {
        MAX_DIMENSION as u32
    } else {
        v as u32
    }
}

/// Reads the resolution setting of the video source.
pub fn parse_resolution(s: &str) -> (r: (u32, u32))
    ensures
        r == resolution_of(s@),
{
    let trimmed = trim_chars(&chars_of(s));
    let lower = to_lowercase(string_from_chars(trimmed.as_slice()).as_str());
    let t = chars_of(lower.as_str());
    proof {
        lemma_first_index_of_bounds(t@, 'x');
    }
    match find_char(&t, 'x') {
        Some(i) => {
            let n = t.len();
            let w = trim_chars(&sub_chars(&t, 0, i));
            let h = trim_chars(&sub_chars(&t, i + 1, n));
            match (parse_i64_chars(&w), parse_i64_chars(&h)) {
                (Some(w), Some(h)) => (clamp_dimension_exec(w), clamp_dimension_exec(h)),
                _ => (DEFAULT_WIDTH, DEFAULT_HEIGHT),
            }
        },
        None => (DEFAULT_WIDTH, DEFAULT_HEIGHT),
    }
}

/// What the video source last applied of its settings.
pub struct SourceSettings {
    pub width: u32,
    pub height: u32,
    pub link: String,
    pub json_file: String,
    pub use_link: bool,
    pub configured: bool,
}

impl SourceSettings {
    /// Nothing applied yet, at the default size.
    pub fn new() -> (r: SourceSettings)
        ensures
            r.width == DEFAULT_WIDTH,
            r.height == DEFAULT_HEIGHT,
            r.link@ == Seq::<char>::empty(),
            r.json_file@ == Seq::<char>::empty(),
            !r.use_link,
            !r.configured,
    {
        SourceSettings {
            width: DEFAULT_WIDTH,
            height: DEFAULT_HEIGHT,
            link: String::new(),
            json_file: String::new(),
            use_link: false,
            configured: false,
        }
    }
}

/// Where the renderer is to take its layout from after a settings change.
#[derive(PartialEq, Eq, Structural, Debug)]
pub enum LayoutSource {
    /// From the overlay link.
    Link,
    /// From the JSON configuration file, read off the calling thread.
    JsonFile,
    /// The layout source did not change.
    Unchanged,
}

/// What a settings change asks of the video source.
pub struct UpdatePlan {
    pub load: LayoutSource,
    /// Whether the default layout is to be shown while the file loads (on the
    /// first configuration only).
    pub show_default_first: bool,
    /// Whether the output size changed.
    pub resize: bool,
}

/// Whether the layout source settings differ from those applied (or none
/// were applied yet).
pub open spec fn source_changed(
    s: SourceSettings,
    link: Seq<char>,
    json_file: Seq<char>,
    use_link: bool,
) -> bool {
    !s.configured || link != s.link@ || json_file != s.json_file@ || use_link != s.use_link
}

/// Applies new settings of the video source to `state` and says what is to
/// be done: a new size is applied always, a new layout source when it
/// changed, loading from the link or from the file.
pub fn plan_update(
    state: &mut SourceSettings,
    resolution: &str,
    link: String,
    json_file: String,
    use_link: bool,
) -> (plan: UpdatePlan)
    ensures
        (final(state).width, final(state).height) == resolution_of(resolution@),
        plan.resize == ((final(state).width, final(state).height) != (
            old(state).width,
            old(state).height,
        )),
        if source_changed(*old(state), link@, json_file@, use_link) {
            &&& final(state).link@ == link@
            &&& final(state).json_file@ == json_file@
            &&& final(state).use_link == use_link
            &&& final(state).configured
            &&& plan.load == (if use_link {
                LayoutSource::Link
            } else {
                LayoutSource::JsonFile
            })
            &&& plan.show_default_first == (!use_link && !old(state).configured)
        } else {
            &&& final(state).link == old(state).link
            &&& final(state).json_file == old(state).json_file
            &&& final(state).use_link == old(state).use_link
            &&& final(state).configured == old(state).configured
            &&& plan.load == LayoutSource::Unchanged
            &&& !plan.show_default_first
        },
{
    let (width, height) = parse_resolution(resolution);
    let resize = width != state.width || height != state.height;
    state.width = width;
    state.height = height;
    let first = !state.configured;
    let changed = first || !str_eq(link.as_str(), state.link.as_str()) || !str_eq(
        json_file.as_str(),
        state.json_file.as_str(),
    ) || use_link != state.use_link;
    if changed {
        state.link = link;
        state.json_file = json_file;
        state.use_link = use_link;
        state.configured = true;
        let load = if use_link {
            LayoutSource::Link
        } else {
            LayoutSource::JsonFile
        };
        UpdatePlan { load, show_default_first: !use_link && first, resize }
    } else {
        UpdatePlan { load: LayoutSource::Unchanged, show_default_first: false, resize }
    }
}

/// What the render worker does on one turn, once its commands are read.
pub enum WorkerPhase {
    /// The command channel is gone: the worker ends.
    Stop,
    /// The source is hidden or inactive: wait, drawing nothing.
    Idle,
    /// Read the input events and draw if needed.
    Render,
}

/// The render worker's phase for this turn.
pub fn worker_phase(shutdown: bool, shown: bool, active: bool) -> (r: WorkerPhase)
    ensures
        r == (if shutdown {
            WorkerPhase::Stop
        } else if !shown || !active {
            WorkerPhase::Idle
        } else {
            WorkerPhase::Render
        }),
{
    if shutdown {
        WorkerPhase::Stop
    } else if !shown || !active {
        WorkerPhase::Idle
    } else {
        WorkerPhase::Render
    }
}

/// Whether to draw a frame after reading the events, and at what size: when
/// there is a renderer and an event changed what it shows or it animates,
/// at the output size with each side at least one pixel.
pub fn redraw_size(
    changed: bool,
    constant_redraw: bool,
    has_renderer: bool,
    width: u32,
    height: u32,
) -> (r: Option<(u32, u32)>)
    ensures
        r == (if has_renderer && (changed || constant_redraw) {
            Some((if width < 1 { 1u32 } else { width }, if height < 1 { 1u32 } else { height }))
        } else {
            None
        }),
{
    if has_renderer && (changed || constant_redraw) {
        let w = if width < 1 { 1 } else { width };
        let h = if height < 1 { 1 } else { height };
        Some((w, h))
    } else {
        None
    }
}

/// The layout is reloaded on the first configuration and whenever the link,
/// the file or the choice between them differs from what was applied;
/// handing over the settings already applied reloads nothing.
pub proof fn lemma_reload_on_change(
    s: SourceSettings,
    link: Seq<char>,
    json_file: Seq<char>,
    use_link: bool,
)
    ensures
        !s.configured ==> source_changed(s, link, json_file, use_link),
        link != s.link@ ==> source_changed(s, link, json_file, use_link),
        json_file != s.json_file@ ==> source_changed(s, link, json_file, use_link),
        use_link != s.use_link ==> source_changed(s, link, json_file, use_link),
        s.configured && link == s.link@ && json_file == s.json_file@ && use_link == s.use_link
            ==> !source_changed(s, link, json_file, use_link),
{
}

} // verus!
