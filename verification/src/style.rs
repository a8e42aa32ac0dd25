//! Terminal styling, which the `console` crate provides: whether colours
//! are used, and how a text is styled.

use vstd::prelude::*;

verus! {

/// What `console` makes of `text` under the style that the dotted
/// description `style` names ("red.bold"), with styling forced on or off.
pub uninterp spec fn styled_text(style: Seq<char>, text: Seq<char>, forced: bool) -> Seq<char>;

/// Calls `console::Style::from_dotted_str`, forces styling on or off, applies
/// the style to `text` and formats the result. With styling forced, the
/// result depends on the arguments alone, and with styling forced off, the
/// formatter writes the text and nothing else.
#[verifier::external_body]
pub(crate) fn styled(style: &str, text: &str, forced: bool) -> (out: String)
    ensures
        out@ == styled_text(style@, text@, forced),
        !forced ==> out@ == text@,
{
    console::Style::from_dotted_str(style).force_styling(forced).apply_to(text).to_string()
}

/// Calls `console::colors_enabled`: whether `console` would colour what goes
/// to standard output. The answer depends on the terminal, on the
/// environment and on what was set before, so nothing is promised of it.
#[verifier::external_body]
pub(crate) fn colors_detected() -> (enabled: bool) {
    console::colors_enabled()
}

/// Calls `console::set_colors_enabled`, which sets whether `console` colours
/// what goes to standard output.
#[verifier::external_body]
pub(crate) fn set_colors(enabled: bool) {
    console::set_colors_enabled(enabled)
}

/// Calls `console::set_colors_enabled_stderr`, which sets whether `console`
/// colours what goes to standard error.
#[verifier::external_body]
pub(crate) fn set_colors_stderr(enabled: bool) {
    console::set_colors_enabled_stderr(enabled)
}

/// Whether output is coloured: always where colour is forced, else where
/// the terminal was found to take it.
pub fn color_for(force_color: bool, detected: bool) -> (color: bool)
    ensures
        color == (force_color || detected),
{
    force_color || detected
}

/// Settles whether output is coloured. Where `force_color` is set, colours
/// are switched on for standard output and standard error, and the answer is
/// yes, whatever the terminal is; else the answer is what the terminal was
/// found to take.
pub fn settle_colors(force_color: bool) -> (color: bool)
    ensures
        force_color ==> color,
{
    if force_color {
        set_colors(true);
        set_colors_stderr(true);
    }
    color_for(force_color, colors_detected())
}

} // verus!
