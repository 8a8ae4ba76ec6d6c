//! ANSI terminal escape sequences.
pub mod background;
pub mod bright;
pub mod normal;

use vstd::prelude::*;

verus! {

pub const ANSI_NORMAL: &'static str = "\x1b[0m";
pub const ANSI_BOLD: &'static str = "\x1b[1m";
pub const ANSI_UNDERLINE: &'static str = "\x1b[4m";
pub const ANSI_REVERSED: &'static str = "\x1b[7m";

} // verus!
