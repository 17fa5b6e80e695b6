//! ASCII Arcade engine: coloured character frames, the scene simulations that
//! fill them, the DOOM terminal-stream parser and the software rasteriser.

use vstd::prelude::*;

pub mod color;
pub mod text;
pub mod frame;
pub mod theme;
pub mod rng;
pub mod screen_spec;
pub mod screen;
pub mod ansi;
pub mod font;
pub mod render;
pub mod bloom;
pub mod life;
pub mod pipes;
pub mod fire;
pub mod catalog;
pub mod doom;
pub mod wire;
pub mod windows_shell;
pub mod linux_shell;
pub mod launcher;
pub mod play;
pub mod shapes;
pub mod cli;
pub mod clock;
pub mod socket;
pub mod engine;
pub mod settings;

verus! {

} // verus!
