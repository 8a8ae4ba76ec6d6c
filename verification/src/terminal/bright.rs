//! Bright foreground colors.
use vstd::prelude::*;

verus! {

pub const BLACK: &'static str = "\x1b[90m";
pub const RED: &'static str = "\x1b[91m";
pub const GREEN: &'static str = "\x1b[92m";
pub const YELLOW: &'static str = "\x1b[93m";
pub const BLUE: &'static str = "\x1b[94m";
pub const MAGENTA: &'static str = "\x1b[95m";
pub const CYAN: &'static str = "\x1b[96m";
pub const WHITE: &'static str = "\x1b[97m";

} // verus!
