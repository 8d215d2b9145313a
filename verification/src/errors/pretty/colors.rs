//! ANSI color codes for terminal output.

use vstd::prelude::*;

verus! {

pub const RESET: &'static str = "\x1b[0m";

pub const BOLD: &'static str = "\x1b[1m";

pub const DIM: &'static str = "\x1b[2m";

pub const UNDERLINE: &'static str = "\x1b[4m";

// Foreground colors
pub const RED: &'static str = "\x1b[31m";

pub const GREEN: &'static str = "\x1b[32m";

pub const YELLOW: &'static str = "\x1b[33m";

pub const BLUE: &'static str = "\x1b[34m";

pub const MAGENTA: &'static str = "\x1b[35m";

pub const CYAN: &'static str = "\x1b[36m";

pub const WHITE: &'static str = "\x1b[37m";

// Bright colors
pub const BRIGHT_RED: &'static str = "\x1b[91m";

pub const BRIGHT_GREEN: &'static str = "\x1b[92m";

pub const BRIGHT_YELLOW: &'static str = "\x1b[93m";

pub const BRIGHT_BLUE: &'static str = "\x1b[94m";

pub const BRIGHT_MAGENTA: &'static str = "\x1b[95m";

pub const BRIGHT_CYAN: &'static str = "\x1b[96m";

} // verus!
