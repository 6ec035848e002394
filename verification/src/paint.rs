//! Wrapping text in colour control sequences through the `colored` crate.
//!
//! What those calls return depends on the process environment (whether
//! the output is a terminal, and variables such as `NO_COLOR` and
//! `COLORTERM`), so nothing can be promised of the result; the screen
//! buffer and the cursor always work on the plain text instead.

use vstd::prelude::*;

verus! {

/// Relies on `colored::Colorize::truecolor`: wraps the text in a
/// foreground-colour sequence when the environment enables colour.  The
/// result depends on that environment, so nothing is promised of it.
#[verifier::external_body]
pub fn paint_fg(s: &str, r: u8, g: u8, b: u8) -> (out: String) {
    format!("{}", colored::Colorize::truecolor(s, r, g, b))
}

/// Relies on `colored::Colorize::on_truecolor`: as `paint_fg`, for the
/// background colour.
#[verifier::external_body]
pub fn paint_bg(s: &str, r: u8, g: u8, b: u8) -> (out: String) {
    format!("{}", colored::Colorize::on_truecolor(s, r, g, b))
}

} // verus!
