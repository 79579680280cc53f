//! The look of terminal output: which color a state badge takes, how a document number
//! is written, and the status symbols.

use crate::text::{lowercase, str_to_lowercase, string_from_chars, zero_padded, zero_padded_chars};
use crate::textops::str_equal;
use vstd::prelude::*;

verus! {

/// The colors a state badge is shown in.
#[derive(Debug, Clone, Copy, PartialEq, Eq, Structural)]
pub enum BadgeColor {
    Yellow,
    Cyan,
    Blue,
    Green,
    GreenBold,
    Magenta,
    Red,
    White,
}

/// The badge color of a state name, given in lower case: one per known state, white for
/// any other name.
pub open spec fn badge_color_of(lower: Seq<char>) -> BadgeColor {
    if lower == "draft"@ {
        BadgeColor::Yellow
    } else if lower == "under review"@ {
        BadgeColor::Cyan
    } else if lower == "revised"@ {
        BadgeColor::Blue
    } else if lower == "accepted"@ {
        BadgeColor::Green
    } else if lower == "active"@ || lower == "final"@ {
        BadgeColor::GreenBold
    } else if lower == "deferred"@ {
        BadgeColor::Magenta
    } else if lower == "rejected"@ || lower == "withdrawn"@ || lower == "superseded"@ {
        BadgeColor::Red
    } else {
        BadgeColor::White
    }
}

/// The color in which the badge of `state` is shown; the name is compared in lower case.
pub fn badge_color(state: &str) -> (c: BadgeColor)
    ensures
        c == badge_color_of(lowercase(state@)),
{
    let lower = str_to_lowercase(state);
    let l = lower.as_str();
    if str_equal(l, "draft") {
        BadgeColor::Yellow
    } else if str_equal(l, "under review") {
        BadgeColor::Cyan
    } else if str_equal(l, "revised") {
        BadgeColor::Blue
    } else if str_equal(l, "accepted") {
        BadgeColor::Green
    } else if str_equal(l, "active") || str_equal(l, "final") {
        BadgeColor::GreenBold
    } else if str_equal(l, "deferred") {
        BadgeColor::Magenta
    } else if str_equal(l, "rejected") || str_equal(l, "withdrawn") || str_equal(
        l,
        "superseded",
    ) {
        BadgeColor::Red
    } else {
        BadgeColor::White
    }
}

/// A document number as shown: in decimal, padded with zeros to four digits.
pub fn doc_number_label(num: u32) -> (s: String)
    ensures
        s@ == zero_padded(num as nat, 4),
{
    let v = zero_padded_chars(num as u64, 4);
    string_from_chars(v.as_slice())
}

/// The symbol shown before a success message.
pub fn success_symbol() -> (s: &'static str)
    ensures
        s@ == "\u{2713}"@,
{
    "\u{2713}"
}

/// The symbol shown before an error message.
pub fn error_symbol() -> (s: &'static str)
    ensures
        s@ == "\u{2717}"@,
{
    "\u{2717}"
}

/// The symbol shown before a warning.
pub fn warning_symbol() -> (s: &'static str)
    ensures
        s@ == "\u{26a0}"@,
{
    "\u{26a0}"
}

/// The symbol shown before an informational message.
pub fn info_symbol() -> (s: &'static str)
    ensures
        s@ == "\u{2192}"@,
{
    "\u{2192}"
}

} // verus!
