use vstd::prelude::*;

use colored::Colorize;

verus! {

/// The escape sequence that starts red text on a terminal.
pub open spec fn red_style() -> Seq<char> {
    seq!['\u{1b}', '[', '3', '1', 'm']
}

/// The escape sequence that starts red, underlined text on a terminal.
pub open spec fn red_underline_style() -> Seq<char> {
    seq!['\u{1b}', '[', '4', ';', '3', '1', 'm']
}

/// The escape sequence that ends styled text on a terminal.
pub open spec fn reset_style() -> Seq<char> {
    seq!['\u{1b}', '[', '0', 'm']
}

/// `s` with `style` written again after each reset sequence in it, so that
/// text nested in `s` does not end the style early.
pub open spec fn restyle_resets(s: Seq<char>, style: Seq<char>) -> Seq<char>
    decreases s.len(),
{
    if s.len() == 0 {
        s
    } else if s.len() >= 4 && s.take(4) == reset_style() {
        reset_style() + style + restyle_resets(s.skip(4), style)
    } else {
        seq![s[0]] + restyle_resets(s.drop_first(), style)
    }
}

/// `s` written in `style` on a terminal.
pub open spec fn painted(s: Seq<char>, style: Seq<char>) -> Seq<char> {
    style + restyle_resets(s, style) + reset_style()
}

/// `s` in red, as the `colored` crate writes it: `Colorize::red` on the
/// text, then its `Display`.
///
/// What comes back depends on the process: `colored` paints only where its
/// colour setting (the `CLICOLOR`, `CLICOLOR_FORCE` and `NO_COLOR`
/// variables, whether standard output is a terminal, or an override set by
/// the program) says so, and otherwise hands the text back as it is. The
/// contract states both outcomes, for a setting that does not change while
/// the call runs.
#[verifier::external_body]
pub(crate) fn paint_red(s: &str) -> (r: String)
    ensures
        r@ == s@ || r@ == painted(s@, red_style()),
{
    s.red().to_string()
}

/// `s` in red and underlined, as the `colored` crate writes it:
/// `Colorize::red`, then `ColoredString::underline`, then its `Display`.
///
/// As with `paint_red`, the text comes back unpainted where the colour
/// setting of the process says so; the contract states both outcomes, for a
/// setting that does not change while the call runs.
#[verifier::external_body]
pub(crate) fn paint_red_underline(s: &str) -> (r: String)
    ensures
        r@ == s@ || r@ == painted(s@, red_underline_style()),
{
    s.red().underline().to_string()
}

} // verus!
