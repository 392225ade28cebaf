use vstd::prelude::*;

pub mod strings;
pub mod blur;
pub mod link;
pub mod numbers;
pub mod updater;
pub mod archive;
pub mod server_settings;
pub mod token;
pub mod color;
pub mod video;
pub mod search;
pub mod text;
pub mod fonts;
pub mod texture;
pub mod gif;
pub mod analog;
pub mod clock;
pub mod scroller;
pub mod profiler;
pub mod history;
pub mod layout;
pub mod render;
pub mod obs;
