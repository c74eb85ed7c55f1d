use colored::Colorize;
use vstd::prelude::*;

verus! {

use crate::utils::nl_count;

/// Relies on colored's Colorize::red. Whether and how the text is
/// wrapped in color escape codes depends on the process's color
/// settings; the codes themselves never hold a newline, so the line
/// structure of the text is kept.
#[verifier::external_body]
pub fn paint_red(s: &str) -> (r: String)
    ensures
        nl_count(r@) == nl_count(s@),
{
    s.red().to_string()
}

/// Relies on colored's Colorize::green; see `paint_red`.
#[verifier::external_body]
pub fn paint_green(s: &str) -> (r: String)
    ensures
        nl_count(r@) == nl_count(s@),
{
    s.green().to_string()
}

/// Relies on colored's Colorize::yellow; see `paint_red`.
#[verifier::external_body]
pub fn paint_yellow(s: &str) -> (r: String)
    ensures
        nl_count(r@) == nl_count(s@),
{
    s.yellow().to_string()
}

/// Relies on colored's Colorize::dimmed; see `paint_red`.
#[verifier::external_body]
pub fn paint_dimmed(s: &str) -> (r: String)
    ensures
        nl_count(r@) == nl_count(s@),
{
    s.dimmed().to_string()
}

/// Relies on terminal_size::terminal_size: the (width, height) of the
/// terminal when the output is one. The answer depends on the machine
/// the process runs on, so nothing is promised of it.
#[verifier::external_body]
pub fn query_terminal_size() -> (r: Option<(u16, u16)>) {
    terminal_size::terminal_size().map(|(w, h)| (w.0, h.0))
}

} // verus!
