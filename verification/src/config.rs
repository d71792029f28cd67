//! Run configuration.
//!
//! The same knobs the command line offers, with floats replaced by exact
//! integers: the pitch is held in angle units of 1/10000 radian, so the
//! default pitch 0.5234 rad is `5234`.

use vstd::prelude::*;
use vstd::string::StringExecFns;

verus! {

/// Default initial pitch, in angle units of 1/10000 radian (0.5234 rad).
pub const DEFAULT_PITCH: i64 = 5234;

/// Configuration of one run.
pub struct Config {
    /// How many frames to generate; 0 means unbounded.
    pub frames: usize,
    /// Milliseconds between frames of the output animation.
    pub secs: u32,
    /// Initial camera pitch, in angle units of 1/10000 radian.
    pub initial_pitch: i64,
    /// Stride between window starts; also a quarter of the window width.
    pub skip: usize,
    /// Name of the dataset to load.
    pub filekey: String,
    /// Directory the output animation is written to.
    pub output_dir: String,
    /// Directory searched for a local copy of the dataset.
    pub input_dir: String,
}

impl Default for Config {
    /// The default run: unbounded frames, 40 ms delay, pitch 0.5234 rad,
    /// stride 40, dataset "walker", output under "data", input under
    /// "input".
    fn default() -> (c: Config)
        ensures
            c.frames == 0,
            c.secs == 40,
            c.initial_pitch == DEFAULT_PITCH,
            c.skip == 40,
            c.filekey@ == "walker"@,
            c.output_dir@ == "data"@,
            c.input_dir@ == "input"@,
    {
        Config {
            frames: 0,
            secs: 40,
            initial_pitch: DEFAULT_PITCH,
            skip: 40,
            filekey: String::from_str("walker"),
            output_dir: String::from_str("data"),
            input_dir: String::from_str("input"),
        }
    }
}

} // verus!
