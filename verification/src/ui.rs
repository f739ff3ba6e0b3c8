//! The ANSI colours and symbols of `bdd`'s output.
use vstd::prelude::*;

verus! {

pub const RESET: &'static str = "\x1b[0m";
pub const BOLD: &'static str = "\x1b[1m";
pub const DIM: &'static str = "\x1b[2m";
pub const GREEN: &'static str = "\x1b[32m";
pub const CYAN: &'static str = "\x1b[36m";
pub const YELLOW: &'static str = "\x1b[33m";
/// Dark blue.
pub const BLUE: &'static str = "\x1b[34m";
pub const RED: &'static str = "\x1b[31m";
/// A darker red.
pub const DARK_RED: &'static str = "\x1b[38;5;88m";
/// Faded text.
pub const FADED: &'static str = "\x1b[2m";
pub const FADED_RED: &'static str = "\x1b[2;31m";

pub const CHECK: &'static str = "\u{2713}";
pub const CROSS: &'static str = "\u{2717}";
pub const ARROW: &'static str = "\u{2190}";
pub const BALL: &'static str = "\u{25cf}";
pub const BANG: &'static str = "!";

/// `s` in colour `color`, then back to the defaults.
pub open spec fn painted(color: Seq<char>, s: Seq<char>) -> Seq<char> {
    color + s + RESET@
}

/// `s` in colour `color`, then back to the defaults.
pub fn paint(color: &str, s: &str) -> (r: String)
    ensures
        r@ == painted(color@, s@),
{
    let mut out = color.to_string();
    out.append(s);
    out.append(RESET);
    out
}

} // verus!
