//! Colors and colorization choices for rendered entries.
use vstd::prelude::*;
use crate::text::str_eq;

verus! {

/// The sixteen named ANSI terminal colors.
#[derive(Debug, PartialEq, Eq, Structural, Clone, Copy)]
pub enum AnsiColor {
    Black,
    Red,
    Green,
    Yellow,
    Blue,
    Magenta,
    Cyan,
    White,
    BrightBlack,
    BrightRed,
    BrightGreen,
    BrightYellow,
    BrightBlue,
    BrightMagenta,
    BrightCyan,
    BrightWhite,
}

/// Either a named ANSI color or a full RGB value.
#[derive(Debug, PartialEq, Eq, Structural, Clone, Copy)]
pub enum Color {
    Ansi(AnsiColor),
    Rgb(u8, u8, u8),
}

/// Controls when output is colorized.
#[derive(Debug, PartialEq, Eq, Structural, Clone, Copy)]
pub enum ColorChoice {
    /// Always emit color escape sequences.
    Always,
    /// Never emit color escape sequences.
    Never,
    /// Follow what the terminal reports.
    Auto,
}

/// Whether a choice turns colors on, given what the terminal reports.
pub open spec fn spec_color_enabled(choice: ColorChoice, terminal_colors: bool) -> bool {
    match choice {
        ColorChoice::Always => true,
        ColorChoice::Never => false,
        ColorChoice::Auto => terminal_colors,
    }
}

impl ColorChoice {
    /// Resolves the choice against what the terminal reports.
    pub fn resolve(&self, terminal_colors: bool) -> (r: bool)
        ensures
            r == spec_color_enabled(*self, terminal_colors),
    {
        match self {
            ColorChoice::Always => true,
            ColorChoice::Never => false,
            ColorChoice::Auto => terminal_colors,
        }
    }

    /// Reads a choice from its configured name: `always`, `never` or `auto`.
    pub fn from_string(s: &str) -> (r: Option<ColorChoice>)
        ensures
            r == (if s@ == "always"@ {
                Some(ColorChoice::Always)
            } else if s@ == "never"@ {
                Some(ColorChoice::Never)
            } else if s@ == "auto"@ {
                Some(ColorChoice::Auto)
            } else {
                None::<ColorChoice>
            }),
    {
        if str_eq(s, "always") {
            Some(ColorChoice::Always)
        } else if str_eq(s, "never") {
            Some(ColorChoice::Never)
        } else if str_eq(s, "auto") {
            Some(ColorChoice::Auto)
        } else {
            None
        }
    }
}

impl Default for ColorChoice {
    /// By default the terminal decides.
    fn default() -> (r: Self)
        ensures
            r == ColorChoice::Auto,
    {
        ColorChoice::Auto
    }
}

/// The ANSI foreground code of a named color: 30 to 37 for the plain
/// colors, 90 to 97 for the bright ones.
pub open spec fn spec_ansi_fg_code(c: AnsiColor) -> u8 {
    match c {
        AnsiColor::Black => 30,
        AnsiColor::Red => 31,
        AnsiColor::Green => 32,
        AnsiColor::Yellow => 33,
        AnsiColor::Blue => 34,
        AnsiColor::Magenta => 35,
        AnsiColor::Cyan => 36,
        AnsiColor::White => 37,
        AnsiColor::BrightBlack => 90,
        AnsiColor::BrightRed => 91,
        AnsiColor::BrightGreen => 92,
        AnsiColor::BrightYellow => 93,
        AnsiColor::BrightBlue => 94,
        AnsiColor::BrightMagenta => 95,
        AnsiColor::BrightCyan => 96,
        AnsiColor::BrightWhite => 97,
    }
}

/// The configured name of a named ANSI color.
pub open spec fn spec_ansi_name(c: AnsiColor) -> Seq<char> {
    match c {
        AnsiColor::Black => "black"@,
        AnsiColor::Red => "red"@,
        AnsiColor::Green => "green"@,
        AnsiColor::Yellow => "yellow"@,
        AnsiColor::Blue => "blue"@,
        AnsiColor::Magenta => "magenta"@,
        AnsiColor::Cyan => "cyan"@,
        AnsiColor::White => "white"@,
        AnsiColor::BrightBlack => "bright-black"@,
        AnsiColor::BrightRed => "bright-red"@,
        AnsiColor::BrightGreen => "bright-green"@,
        AnsiColor::BrightYellow => "bright-yellow"@,
        AnsiColor::BrightBlue => "bright-blue"@,
        AnsiColor::BrightMagenta => "bright-magenta"@,
        AnsiColor::BrightCyan => "bright-cyan"@,
        AnsiColor::BrightWhite => "bright-white"@,
    }
}

impl AnsiColor {
    /// The ANSI foreground code of this color.
    pub fn fg_code(&self) -> (r: u8)
        ensures
            r == spec_ansi_fg_code(*self),
    {
        match self {
            AnsiColor::Black => 30,
            AnsiColor::Red => 31,
            AnsiColor::Green => 32,
            AnsiColor::Yellow => 33,
            AnsiColor::Blue => 34,
            AnsiColor::Magenta => 35,
            AnsiColor::Cyan => 36,
            AnsiColor::White => 37,
            AnsiColor::BrightBlack => 90,
            AnsiColor::BrightRed => 91,
            AnsiColor::BrightGreen => 92,
            AnsiColor::BrightYellow => 93,
            AnsiColor::BrightBlue => 94,
            AnsiColor::BrightMagenta => 95,
            AnsiColor::BrightCyan => 96,
            AnsiColor::BrightWhite => 97,
        }
    }

    /// The configured name of this color.
    pub fn ansi_name(&self) -> (r: &'static str)
        ensures
            r@ == spec_ansi_name(*self),
    {
        match self {
            AnsiColor::Black => "black",
            AnsiColor::Red => "red",
            AnsiColor::Green => "green",
            AnsiColor::Yellow => "yellow",
            AnsiColor::Blue => "blue",
            AnsiColor::Magenta => "magenta",
            AnsiColor::Cyan => "cyan",
            AnsiColor::White => "white",
            AnsiColor::BrightBlack => "bright-black",
            AnsiColor::BrightRed => "bright-red",
            AnsiColor::BrightGreen => "bright-green",
            AnsiColor::BrightYellow => "bright-yellow",
            AnsiColor::BrightBlue => "bright-blue",
            AnsiColor::BrightMagenta => "bright-magenta",
            AnsiColor::BrightCyan => "bright-cyan",
            AnsiColor::BrightWhite => "bright-white",
        }
    }
}

impl Color {
    /// Reads a named ANSI color from its configured name.
    pub fn from_ansi_name(s: &str) -> (r: Option<Color>)
        ensures
            r matches Some(c) ==> c matches Color::Ansi(a) && spec_ansi_name(a) == s@,
            r is None ==> (forall|a: AnsiColor| spec_ansi_name(a) != s@),
    {
        let found: Option<AnsiColor> = if str_eq(s, "black") {
            Some(AnsiColor::Black)
        } else if str_eq(s, "red") {
            Some(AnsiColor::Red)
        } else if str_eq(s, "green") {
            Some(AnsiColor::Green)
        } else if str_eq(s, "yellow") {
            Some(AnsiColor::Yellow)
        } else if str_eq(s, "blue") {
            Some(AnsiColor::Blue)
        } else if str_eq(s, "magenta") {
            Some(AnsiColor::Magenta)
        } else if str_eq(s, "cyan") {
            Some(AnsiColor::Cyan)
        } else if str_eq(s, "white") {
            Some(AnsiColor::White)
        } else if str_eq(s, "bright-black") {
            Some(AnsiColor::BrightBlack)
        } else if str_eq(s, "bright-red") {
            Some(AnsiColor::BrightRed)
        } else if str_eq(s, "bright-green") {
            Some(AnsiColor::BrightGreen)
        } else if str_eq(s, "bright-yellow") {
            Some(AnsiColor::BrightYellow)
        } else if str_eq(s, "bright-blue") {
            Some(AnsiColor::BrightBlue)
        } else if str_eq(s, "bright-magenta") {
            Some(AnsiColor::BrightMagenta)
        } else if str_eq(s, "bright-cyan") {
            Some(AnsiColor::BrightCyan)
        } else if str_eq(s, "bright-white") {
            Some(AnsiColor::BrightWhite)
        } else {
            None
        };
        proof {
            if found is None {
                assert forall|a: AnsiColor| spec_ansi_name(a) != s@ by {}
            }
        }
        match found {
            Some(a) => Some(Color::Ansi(a)),
            None => None,
        }
    }
}

/// The decimal digits of `n`, most significant first, no leading zeros.
pub open spec fn dec_digits(n: nat) -> Seq<char>
    decreases n,
{
    if n < 10 {
        seq![(((48 + n) as u32) as char)]
    } else {
        dec_digits(n / 10).push((((48 + n % 10) as u32) as char))
    }
}

/// Appends the decimal digits of `n` to `out`.
pub fn push_dec(out: &mut Vec<char>, n: u8)
    ensures
        final(out)@ == old(out)@ + dec_digits(n as nat),
    decreases n,
{
    if n >= 10 {
        push_dec(out, n / 10);
    }
    let d: u8 = 48 + n % 10;
    out.push(d as char);
    proof {
        assert((d as char) == (((48 + (n as nat) % 10) as u32) as char));
        if n < 10 {
            assert(out@ =~= old(out)@ + dec_digits(n as nat));
        } else {
            assert(out@ =~= old(out)@ + dec_digits(n as nat));
        }
    }
}

/// The escape sequence that switches the foreground to `c`.
pub open spec fn spec_fg_prefix(c: Color) -> Seq<char> {
    match c {
        Color::Ansi(a) => "\u{1b}["@ + dec_digits(spec_ansi_fg_code(a) as nat) + "m"@,
        Color::Rgb(r, g, b) => "\u{1b}[38;2;"@ + dec_digits(r as nat) + ";"@ + dec_digits(g as nat)
            + ";"@ + dec_digits(b as nat) + "m"@,
    }
}

/// The escape sequence that resets all colors.
pub open spec fn spec_color_reset() -> Seq<char> {
    "\u{1b}[0m"@
}

/// Appends the foreground escape sequence for `c` to `out`.
pub fn push_fg_prefix(out: &mut Vec<char>, c: &Color)
    ensures
        final(out)@ == old(out)@ + spec_fg_prefix(*c),
{
    match c {
        Color::Ansi(a) => {
            crate::text::push_str_chars(out, "\u{1b}[");
            push_dec(out, a.fg_code());
            crate::text::push_str_chars(out, "m");
            assert(out@ =~= old(out)@ + spec_fg_prefix(*c));
        },
        Color::Rgb(r, g, b) => {
            crate::text::push_str_chars(out, "\u{1b}[38;2;");
            push_dec(out, *r);
            crate::text::push_str_chars(out, ";");
            push_dec(out, *g);
            crate::text::push_str_chars(out, ";");
            push_dec(out, *b);
            crate::text::push_str_chars(out, "m");
            assert(out@ =~= old(out)@ + spec_fg_prefix(*c));
        },
    }
}

/// Appends the color reset escape sequence to `out`.
pub fn push_color_reset(out: &mut Vec<char>)
    ensures
        final(out)@ == old(out)@ + spec_color_reset(),
{
    crate::text::push_str_chars(out, "\u{1b}[0m");
}

} // verus!
