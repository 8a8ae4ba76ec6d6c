//! Background colors.
use vstd::prelude::*;

verus! {

pub const BLACK: &'static str = "\x1b[40m";
pub const RED: &'static str = "\x1b[41m";
pub const GREEN: &'static str = "\x1b[42m";
pub const YELLOW: &'static str = "\x1b[43m";
pub const BLUE: &'static str = "\x1b[44m";
pub const MAGENTA: &'static str = "\x1b[45m";
pub const CYAN: &'static str = "\x1b[46m";
pub const WHITE: &'static str = "\x1b[47m";

} // verus!
