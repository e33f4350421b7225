//! Themes: the colors, severity symbols and arrow glyphs used when
//! rendering diagnostics.

use vstd::prelude::*;

use crate::diagnostic::Severity;

verus! {

/// The color of a piece of styled text: none, a true-color value, or one of
/// the bright ANSI colors.
#[derive(Debug, Clone, Copy, PartialEq, Eq, Structural)]
pub enum ColorSpec {
    NoColor,
    Rgb(u8, u8, u8),
    BrightRed,
    BrightYellow,
    BrightGreen,
    BrightBlue,
    BrightCyan,
    BrightWhite,
}

/// How a piece of text is styled: a color and an optional bold weight.
#[derive(Debug, Clone, Copy, PartialEq, Eq, Structural)]
pub struct TextStyle {
    pub color: ColorSpec,
    pub bold: bool,
}

/// An injective integer code for a color, used to state what the painting
/// of a text with a style returns.
pub open spec fn color_code(c: ColorSpec) -> int {
    match c {
        ColorSpec::NoColor => -1,
        ColorSpec::Rgb(r, g, b) => r * 0x10000 + g * 0x100 + b,
        ColorSpec::BrightRed => 0x1000000,
        ColorSpec::BrightYellow => 0x1000001,
        ColorSpec::BrightGreen => 0x1000002,
        ColorSpec::BrightBlue => 0x1000003,
        ColorSpec::BrightCyan => 0x1000004,
        ColorSpec::BrightWhite => 0x1000005,
    }
}

/// The styles a theme uses for each severity and for the parts of a
/// snippet.
#[derive(Debug, Clone, Copy, PartialEq, Eq, Structural)]
pub struct ThemeStyle {
    pub error: TextStyle,
    pub warning: TextStyle,
    pub info: TextStyle,
    pub note: TextStyle,
    pub help: TextStyle,
    pub deletion: TextStyle,
    pub insertion: TextStyle,
    pub link: TextStyle,
    pub gutter: TextStyle,
}

/// The style preset `ThemeStyle::rgb` builds.
pub open spec fn spec_rgb_theme() -> ThemeStyle {
    ThemeStyle {
        error: TextStyle { color: ColorSpec::Rgb(233, 114, 99), bold: true },
        warning: TextStyle { color: ColorSpec::Rgb(235, 191, 131), bold: true },
        info: TextStyle { color: ColorSpec::Rgb(114, 159, 207), bold: false },
        note: TextStyle { color: ColorSpec::Rgb(166, 227, 161), bold: false },
        help: TextStyle { color: ColorSpec::Rgb(171, 161, 247), bold: false },
        deletion: TextStyle { color: ColorSpec::Rgb(233, 114, 99), bold: false },
        insertion: TextStyle { color: ColorSpec::Rgb(166, 227, 161), bold: false },
        link: TextStyle { color: ColorSpec::Rgb(166, 173, 200), bold: false },
        gutter: TextStyle { color: ColorSpec::Rgb(156, 156, 192), bold: false },
    }
}

/// The style preset `ThemeStyle::ansi` builds.
pub open spec fn spec_ansi_theme() -> ThemeStyle {
    ThemeStyle {
        error: TextStyle { color: ColorSpec::BrightRed, bold: true },
        warning: TextStyle { color: ColorSpec::BrightYellow, bold: true },
        info: TextStyle { color: ColorSpec::BrightBlue, bold: true },
        note: TextStyle { color: ColorSpec::BrightGreen, bold: true },
        help: TextStyle { color: ColorSpec::BrightCyan, bold: true },
        deletion: TextStyle { color: ColorSpec::BrightRed, bold: false },
        insertion: TextStyle { color: ColorSpec::BrightGreen, bold: false },
        link: TextStyle { color: ColorSpec::BrightWhite, bold: false },
        gutter: TextStyle { color: ColorSpec::BrightWhite, bold: false },
    }
}

/// The style a theme uses for the given severity.
pub open spec fn spec_style_of(t: ThemeStyle, severity: Severity) -> TextStyle {
    match severity {
        Severity::Error => t.error,
        Severity::Warning => t.warning,
        Severity::Info => t.info,
        Severity::Note => t.note,
        Severity::Help => t.help,
    }
}

impl ThemeStyle {
    /// A preset which uses RGB colors within the terminal.
    pub fn rgb() -> (r: ThemeStyle)
        ensures
            r == spec_rgb_theme(),
    {
        ThemeStyle {
            error: TextStyle { color: ColorSpec::Rgb(233, 114, 99), bold: true },
            warning: TextStyle { color: ColorSpec::Rgb(235, 191, 131), bold: true },
            info: TextStyle { color: ColorSpec::Rgb(114, 159, 207), bold: false },
            note: TextStyle { color: ColorSpec::Rgb(166, 227, 161), bold: false },
            help: TextStyle { color: ColorSpec::Rgb(171, 161, 247), bold: false },
            deletion: TextStyle { color: ColorSpec::Rgb(233, 114, 99), bold: false },
            insertion: TextStyle { color: ColorSpec::Rgb(166, 227, 161), bold: false },
            link: TextStyle { color: ColorSpec::Rgb(166, 173, 200), bold: false },
            gutter: TextStyle { color: ColorSpec::Rgb(156, 156, 192), bold: false },
        }
    }

    /// A preset which uses ANSI color codes within the terminal.
    pub fn ansi() -> (r: ThemeStyle)
        ensures
            r == spec_ansi_theme(),
    {
        ThemeStyle {
            error: TextStyle { color: ColorSpec::BrightRed, bold: true },
            warning: TextStyle { color: ColorSpec::BrightYellow, bold: true },
            info: TextStyle { color: ColorSpec::BrightBlue, bold: true },
            note: TextStyle { color: ColorSpec::BrightGreen, bold: true },
            help: TextStyle { color: ColorSpec::BrightCyan, bold: true },
            deletion: TextStyle { color: ColorSpec::BrightRed, bold: false },
            insertion: TextStyle { color: ColorSpec::BrightGreen, bold: false },
            link: TextStyle { color: ColorSpec::BrightWhite, bold: false },
            gutter: TextStyle { color: ColorSpec::BrightWhite, bold: false },
        }
    }

    /// The style used for the given severity.
    pub fn from_severity(&self, severity: Severity) -> (r: TextStyle)
        ensures
            r == spec_style_of(*self, severity),
    {
        match severity {
            Severity::Error => self.error,
            Severity::Warning => self.warning,
            Severity::Info => self.info,
            Severity::Note => self.note,
            Severity::Help => self.help,
        }
    }
}

/// The symbols a theme shows next to each severity word.
#[derive(Debug, Clone, Copy, PartialEq, Eq, Structural)]
pub struct ThemeSymbols {
    pub error: char,
    pub warning: char,
    pub info: char,
    pub note: char,
    pub help: char,
}

/// The symbol preset `ThemeSymbols::unicode` builds.
pub open spec fn spec_unicode_symbols() -> ThemeSymbols {
    ThemeSymbols { error: '×', warning: '⚠', info: '☞', note: '☞', help: '☞' }
}

/// The symbol a theme uses for the given severity.
pub open spec fn spec_symbol_of(t: ThemeSymbols, severity: Severity) -> char {
    match severity {
        Severity::Error => t.error,
        Severity::Warning => t.warning,
        Severity::Info => t.info,
        Severity::Note => t.note,
        Severity::Help => t.help,
    }
}

impl ThemeSymbols {
    /// The Unicode symbol preset.
    pub fn unicode() -> (r: ThemeSymbols)
        ensures
            r == spec_unicode_symbols(),
    {
        ThemeSymbols { error: '×', warning: '⚠', info: '☞', note: '☞', help: '☞' }
    }

    /// The symbol used for the given severity.
    pub fn from_severity(&self, severity: Severity) -> (r: char)
        ensures
            r == spec_symbol_of(*self, severity),
    {
        match severity {
            Severity::Error => self.error,
            Severity::Warning => self.warning,
            Severity::Info => self.info,
            Severity::Note => self.note,
            Severity::Help => self.help,
        }
    }
}

/// The glyphs used to draw gutters, underlines and connectors.
#[derive(Debug, Clone, Copy, PartialEq, Eq, Structural)]
pub struct ArrowSymbols {
    /// Horizontal bar.
    pub hbar: char,
    /// Horizontal bar with a downward tee.
    pub hbot: char,
    /// Vertical bar.
    pub vertical: char,
    /// Dotted vertical break.
    pub vertical_break: char,
    /// Top-left corner.
    pub top_left: char,
    /// Bottom-left corner.
    pub bottom_left: char,
    /// Vertical bar with a rightward tee.
    pub horizontal_right: char,
    /// Upward-pointing marker.
    pub arrow_up: char,
    /// Rightward-pointing marker.
    pub arrow_right: char,
}

/// The glyph preset `ArrowSymbols::unicode` builds.
pub open spec fn spec_unicode_arrows() -> ArrowSymbols {
    ArrowSymbols {
        hbar: '─',
        hbot: '┬',
        vertical: '│',
        vertical_break: '∶',
        top_left: '╭',
        bottom_left: '╰',
        horizontal_right: '├',
        arrow_up: '^',
        arrow_right: '▶',
    }
}

impl ArrowSymbols {
    /// The Unicode glyph preset.
    pub fn unicode() -> (r: ArrowSymbols)
        ensures
            r == spec_unicode_arrows(),
    {
        ArrowSymbols {
            hbar: '─',
            hbot: '┬',
            vertical: '│',
            vertical_break: '∶',
            top_left: '╭',
            bottom_left: '╰',
            horizontal_right: '├',
            arrow_up: '^',
            arrow_right: '▶',
        }
    }
}

/// A theme: a style preset, a symbol preset and a glyph preset.
#[derive(Debug, Clone, Copy, PartialEq, Eq, Structural)]
pub struct Theme {
    pub style: ThemeStyle,
    pub symbols: ThemeSymbols,
    pub arrows: ArrowSymbols,
}

impl Theme {
    /// The fancy preset: RGB colors with Unicode symbols and glyphs.
    pub fn fancy() -> (r: Theme)
        ensures
            r.style == spec_rgb_theme(),
            r.symbols == spec_unicode_symbols(),
            r.arrows == spec_unicode_arrows(),
    {
        Theme { style: ThemeStyle::rgb(), symbols: ThemeSymbols::unicode(), arrows: ArrowSymbols::unicode() }
    }
}

} // verus!
