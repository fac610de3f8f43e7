use vstd::prelude::*;

verus! {

/// Run-wide settings for one sort: whether frames are rendered at all, and
/// the pause, in milliseconds, that surrounds every rendered frame.
pub struct Config {
    pub silent: bool,
    pub delay: usize,
}

impl Config {
    pub fn new(silent: bool, delay: usize) -> (c: Config)
        ensures
            c.silent == silent,
            c.delay == delay,
    {
        Config { silent, delay }
    }
}

} // verus!
