//! Styled text for the terminal.

use crate::status::Hue;
use vstd::prelude::*;

verus! {

/// The styling that a piece of a line receives.
#[derive(Clone, Copy, Debug, PartialEq, Eq, Structural)]
pub enum Tint {
    Plain,
    Bold,
    Colored(Hue),
}

/// `text` in bold, as it is written for a terminal that takes colours.
pub uninterp spec fn bold_text(text: Seq<char>) -> Seq<char>;

/// `text` in the colour `hue`, as it is written for a terminal that takes
/// colours.
pub uninterp spec fn colored_text(hue: Hue, text: Seq<char>) -> Seq<char>;

/// `colored::Colorize::bold` on a `&str`, written out as text. Whether the
/// styling is applied depends on the environment of the process (its
/// variables, whether the output is a terminal, an override set by the
/// program): the result is the text unchanged, or the text in bold. This
/// supposes that the override is not changed while the call runs.
#[verifier::external_body]
fn embolden(text: &str) -> (shown: String)
    ensures
        shown@ == text@ || shown@ == bold_text(text@),
{
    colored::Colorize::bold(text).to_string()
}

/// `colored::Colorize::color` on a `&str`, written out as text. As for bold:
/// the result is the text unchanged, or the text in the colour, as the
/// environment of the process decides.
#[verifier::external_body]
fn colorize(text: &str, hue: Hue) -> (shown: String)
    ensures
        shown@ == text@ || shown@ == colored_text(hue, text@),
{
    let color = match hue {
        Hue::Green => colored::Color::Green,
        Hue::Cyan => colored::Color::Cyan,
        Hue::Yellow => colored::Color::Yellow,
        Hue::Red => colored::Color::Red,
    };
    colored::Colorize::color(text, color).to_string()
}

/// What a text with a tint may be shown as: itself, or itself in the tint's
/// styling. Plain text is always shown as itself.
pub open spec fn shows(tint: Tint, text: Seq<char>, shown: Seq<char>) -> bool {
    match tint {
        Tint::Plain => shown == text,
        Tint::Bold => shown == text || shown == bold_text(text),
        Tint::Colored(hue) => shown == text || shown == colored_text(hue, text),
    }
}

/// Styles a text for the terminal.
pub fn apply(tint: Tint, text: &str) -> (shown: String)
    ensures
        shows(tint, text@, shown@),
{
    match tint {
        Tint::Plain => String::from_str(text),
        Tint::Bold => embolden(text),
        Tint::Colored(hue) => colorize(text, hue),
    }
}

} // verus!
