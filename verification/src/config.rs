//! The options of the formatter.

use vstd::prelude::*;

verus! {

/// The options that a caller may set. The printer reads `tab_spaces`, the
/// width of one level of indentation.
#[derive(Clone, Copy, Debug, PartialEq, Eq, Structural)]
pub struct Config {
    /// The number of spaces of one level of indentation.
    pub tab_spaces: usize,
    /// The width that a line should not exceed.
    pub max_width: usize,
    /// The number of lines between two definitions.
    pub margin: usize,
}

impl Config {
    pub fn new(tab_spaces: usize, max_width: usize, margin: usize) -> (config: Config)
        ensures
            config == (Config { tab_spaces: tab_spaces, max_width: max_width, margin: margin }),
    {
        Config { tab_spaces, max_width, margin }
    }
}

impl Default for Config {
    /// Four spaces to a level, lines of eighty bytes, a margin of one line.
    fn default() -> (config: Config)
        ensures
            config == (Config { tab_spaces: 4, max_width: 80, margin: 1 }),
    {
        Config { tab_spaces: 4, max_width: 80, margin: 1 }
    }
}

} // verus!
