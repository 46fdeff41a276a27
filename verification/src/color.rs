//! ANSI colouring of terminal text.
//!
//! Whether the terminal supports colour is decided here ([`color_support`])
//! from the environment values (`NO_COLOR`, `COLORTERM`, `WT_SESSION`,
//! `TERM`) that the caller reads.
use vstd::prelude::*;
use crate::error::prefixed;

verus! {

/// The colours and styles used by the command-line front end.
#[derive(Clone, Copy, PartialEq, Eq, Structural)]
pub enum Color {
    Green,
    BrightGreen,
    Dim,
    Bold,
    Red,
}

/// The escape sequence that starts a colour.
pub open spec fn color_start(color: Color) -> Seq<char> {
    match color {
        Color::Green => "\x1b[38;2;5;150;105m"@,
        Color::BrightGreen => "\x1b[38;2;52;211;153m"@,
        Color::Dim => "\x1b[2m"@,
        Color::Bold => "\x1b[1m"@,
        Color::Red => "\x1b[38;2;239;68;68m"@,
    }
}

/// `s` in `color` when colour is enabled, else `s` unchanged.
pub open spec fn colored(s: Seq<char>, color: Color, enabled: bool) -> Seq<char> {
    if enabled {
        color_start(color) + s + "\x1b[0m"@
    } else {
        s
    }
}

/// Wraps `s` in the escape sequences of `color`, when colour is enabled.
pub fn colorize(s: &str, color: Color, enabled: bool) -> (r: String)
    ensures
        r@ == colored(s@, color, enabled),
{
    if !enabled {
        return s.to_string();
    }
    let mut r = match color {
        Color::Green => prefixed("\x1b[38;2;5;150;105m", s),
        Color::BrightGreen => prefixed("\x1b[38;2;52;211;153m", s),
        Color::Dim => prefixed("\x1b[2m", s),
        Color::Bold => prefixed("\x1b[1m", s),
        Color::Red => prefixed("\x1b[38;2;239;68;68m", s),
    };
    r.append("\x1b[0m");
    r
}

/// Green text.
pub fn green(s: &str, enabled: bool) -> (r: String)
    ensures
        r@ == colored(s@, Color::Green, enabled),
{
    colorize(s, Color::Green, enabled)
}

/// Bright green text.
pub fn bright_green(s: &str, enabled: bool) -> (r: String)
    ensures
        r@ == colored(s@, Color::BrightGreen, enabled),
{
    colorize(s, Color::BrightGreen, enabled)
}

/// Dimmed text.
pub fn dim(s: &str, enabled: bool) -> (r: String)
    ensures
        r@ == colored(s@, Color::Dim, enabled),
{
    colorize(s, Color::Dim, enabled)
}

/// Bold text.
pub fn bold(s: &str, enabled: bool) -> (r: String)
    ensures
        r@ == colored(s@, Color::Bold, enabled),
{
    colorize(s, Color::Bold, enabled)
}

/// Red text.
pub fn red(s: &str, enabled: bool) -> (r: String)
    ensures
        r@ == colored(s@, Color::Red, enabled),
{
    colorize(s, Color::Red, enabled)
}


/// Whether the terminal gets colours.
#[derive(Clone, Copy, PartialEq, Eq, Structural)]
pub enum ColorSupport {
    /// No colours.
    Off,
    /// Colours.
    On,
    /// Colours, once the Windows console has been switched to process
    /// escape sequences.
    OnWithVt,
}

/// The colour support that the environment asks for: none when `NO_COLOR`
/// is set; colours (with VT processing) for a true-colour `COLORTERM` or in
/// Windows Terminal (`WT_SESSION`); off Windows, colours for any `TERM` but
/// `dumb`; else none.
pub open spec fn color_support_spec(
    no_color: bool,
    colorterm: Option<Seq<char>>,
    wt_session: bool,
    term: Option<Seq<char>>,
    windows: bool,
) -> ColorSupport {
    if no_color {
        ColorSupport::Off
    } else if colorterm == Some("truecolor"@) || colorterm == Some("24bit"@) {
        ColorSupport::OnWithVt
    } else if wt_session {
        ColorSupport::OnWithVt
    } else if !windows && term.is_some() && term != Some("dumb"@) {
        ColorSupport::On
    } else {
        ColorSupport::Off
    }
}

/// An optional string as an optional sequence.
pub open spec fn opt_str(o: Option<String>) -> Option<Seq<char>> {
    match o {
        Some(s) => Some(s@),
        None => None,
    }
}

/// Decides colour support from the environment: whether `NO_COLOR` is set,
/// the values of `COLORTERM` and `TERM` (when set), whether `WT_SESSION` is
/// set, and whether this is Windows.
pub fn color_support(
    no_color: bool,
    colorterm: Option<String>,
    wt_session: bool,
    term: Option<String>,
    windows: bool,
) -> (r: ColorSupport)
    ensures
        r == color_support_spec(no_color, opt_str(colorterm), wt_session, opt_str(term), windows),
{
    if no_color {
        return ColorSupport::Off;
    }
    match colorterm {
        Some(v) => {
            if v == String::from_str("truecolor") || v == String::from_str("24bit") {
                return ColorSupport::OnWithVt;
            }
        },
        None => {},
    }
    if wt_session {
        return ColorSupport::OnWithVt;
    }
    if !windows {
        match term {
            Some(t) => {
                if t != String::from_str("dumb") {
                    return ColorSupport::On;
                }
            },
            None => {},
        }
    }
    ColorSupport::Off
}

} // verus!
