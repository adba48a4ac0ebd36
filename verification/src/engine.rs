//! Engine configuration: the window and timing parameters a game starts
//! with.

use vstd::prelude::*;

verus! {

/// How the engine's window and frame loop are set up.
#[derive(Clone, Debug)]
pub struct EngineConfig {
    /// The window title.
    pub title: String,
    /// Window width in pixels.
    pub width: u32,
    /// Window height in pixels.
    pub height: u32,
    /// Whether presentation waits for vertical sync.
    pub vsync: bool,
    /// An explicit frame-rate cap; none means the monitor's rate.
    pub fps_limit: Option<u32>,
}

impl Default for EngineConfig {
    /// An 800 by 600 window titled "Game", with vertical sync and no
    /// frame-rate cap.
    fn default() -> (r: EngineConfig)
        ensures
            r.title@ == "Game"@,
            r.width == 800,
            r.height == 600,
            r.vsync == true,
            r.fps_limit is None,
    {
        EngineConfig {
            title: "Game".to_owned(),
            width: 800,
            height: 600,
            vsync: true,
            fps_limit: None,
        }
    }
}

} // verus!
