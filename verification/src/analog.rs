use vstd::prelude::*;
use crate::strings::str_eq;

verus! {

/// How an analog key shows its depth.
#[derive(Clone, Copy, PartialEq, Eq, Structural, Debug)]
pub enum DisplayMode {
    Fill,
    Percent,
    Both,
}

impl DisplayMode {
    /// The mode a setting string names: `"percent"` and `"both"` are
    /// recognised, anything else is `Fill`.
    pub open spec fn parse_spec(s: Seq<char>) -> DisplayMode {
        if s == "percent"@ {
            DisplayMode::Percent
        } else if s == "both"@ {
            DisplayMode::Both
        } else {
            DisplayMode::Fill
        }
    }

    pub fn parse(s: &str) -> (r: DisplayMode)
        ensures
            r == DisplayMode::parse_spec(s@),
    {
        if str_eq(s, "percent") {
            DisplayMode::Percent
        } else if str_eq(s, "both") {
            DisplayMode::Both
        } else {
            DisplayMode::Fill
        }
    }

    /// Every mode but `Percent` fills the key face.
    pub open spec fn fills(self) -> bool {
        self != DisplayMode::Percent
    }

    /// `Percent` and `Both` print the depth.
    pub open spec fn prints_percent(self) -> bool {
        self == DisplayMode::Percent || self == DisplayMode::Both
    }

    /// Whether the key face is filled in proportion to the depth.
    pub fn show_fill(self) -> (r: bool)
        ensures
            r == self.fills(),
    {
        self != DisplayMode::Percent
    }

    /// Whether the depth is printed as a percentage.
    pub fn show_percent(self) -> (r: bool)
        ensures
            r == self.prints_percent(),
    {
        match self {
            DisplayMode::Percent | DisplayMode::Both => true,
            DisplayMode::Fill => false,
        }
    }
}

/// How the legend of an analog key reacts to its depth.
#[derive(Clone, Copy, PartialEq, Eq, Structural, Debug)]
pub enum LegendMode {
    Fading,
    Inverting,
    Digital,
}

impl LegendMode {
    /// The mode a setting string names: `"inverting"` and `"digital"` are
    /// recognised, anything else is `Fading`.
    pub open spec fn parse_spec(s: Seq<char>) -> LegendMode {
        if s == "inverting"@ {
            LegendMode::Inverting
        } else if s == "digital"@ {
            LegendMode::Digital
        } else {
            LegendMode::Fading
        }
    }

    pub fn parse(s: &str) -> (r: LegendMode)
        ensures
            r == LegendMode::parse_spec(s@),
    {
        if str_eq(s, "inverting") {
            LegendMode::Inverting
        } else if str_eq(s, "digital") {
            LegendMode::Digital
        } else {
            LegendMode::Fading
        }
    }
}

/// Whatever the mode, the depth is shown in at least one way, and in both
/// ways exactly for `Both`.
pub proof fn lemma_display_mode_shows_depth(m: DisplayMode)
    ensures
        m.fills() || m.prints_percent(),
        (m.fills() && m.prints_percent()) <==> m == DisplayMode::Both,
{
}

} // verus!
