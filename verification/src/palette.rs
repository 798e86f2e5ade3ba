//! SGR colors to sRGB for the contrast rule. Channels are the 8-bit values
//! the palette tables hold.

use vstd::prelude::*;

use crate::capture::{Color, Style};
use crate::text::{chars_of, same_chars, string_of};

verus! {

/// An sRGB color, one byte per channel.
pub type Rgb = (u8, u8, u8);

/// The reference palette contrast is measured on. The two differ only in
/// the default foreground and background.
#[derive(Debug, Clone, Copy, PartialEq, Eq, Structural)]
pub enum Palette {
    Dark,
    Light,
}

impl Default for Palette {
    fn default() -> (p: Palette)
        ensures
            p == Palette::Dark,
    {
        Palette::Dark
    }
}

/// xterm's sixteen named colors, the table both palettes share: the rule is
/// about the pairs the app chose, not about a theme.
pub open spec fn ansi16(i: int) -> Rgb {
    if i == 0 { (0x00, 0x00, 0x00) }
    else if i == 1 { (0xcd, 0x00, 0x00) }
    else if i == 2 { (0x00, 0xcd, 0x00) }
    else if i == 3 { (0xcd, 0xcd, 0x00) }
    else if i == 4 { (0x00, 0x00, 0xee) }
    else if i == 5 { (0xcd, 0x00, 0xcd) }
    else if i == 6 { (0x00, 0xcd, 0xcd) }
    else if i == 7 { (0xe5, 0xe5, 0xe5) }
    else if i == 8 { (0x7f, 0x7f, 0x7f) }
    else if i == 9 { (0xff, 0x00, 0x00) }
    else if i == 10 { (0x00, 0xff, 0x00) }
    else if i == 11 { (0xff, 0xff, 0x00) }
    else if i == 12 { (0x5c, 0x5c, 0xff) }
    else if i == 13 { (0xff, 0x00, 0xff) }
    else if i == 14 { (0x00, 0xff, 0xff) }
    else { (0xff, 0xff, 0xff) }
}

/// One axis of the 6x6x6 cube: 0, then 95, 135, 175, 215, 255.
pub open spec fn cube_level(v: int) -> int {
    if v == 0 { 0 } else { 55 + 40 * v }
}

/// The 256-color space: the named sixteen, the 6x6x6 cube, the 24 grays.
pub open spec fn indexed_rgb(index: u8) -> Rgb {
    if index < 16 {
        ansi16(index as int)
    } else if index <= 231 {
        let n = index - 16;
        (cube_level(n / 36) as u8, cube_level((n / 6) % 6) as u8, cube_level(n % 6) as u8)
    } else {
        let v = 8 + 10 * (index - 232);
        (v as u8, v as u8, v as u8)
    }
}

fn ansi16_exec(i: u8) -> (c: Rgb)
    requires
        i < 16,
    ensures
        c == ansi16(i as int),
{
    match i {
        0 => (0x00, 0x00, 0x00),
        1 => (0xcd, 0x00, 0x00),
        2 => (0x00, 0xcd, 0x00),
        3 => (0xcd, 0xcd, 0x00),
        4 => (0x00, 0x00, 0xee),
        5 => (0xcd, 0x00, 0xcd),
        6 => (0x00, 0xcd, 0xcd),
        7 => (0xe5, 0xe5, 0xe5),
        8 => (0x7f, 0x7f, 0x7f),
        9 => (0xff, 0x00, 0x00),
        10 => (0x00, 0xff, 0x00),
        11 => (0xff, 0xff, 0x00),
        12 => (0x5c, 0x5c, 0xff),
        13 => (0xff, 0x00, 0xff),
        14 => (0x00, 0xff, 0xff),
        _ => (0xff, 0xff, 0xff),
    }
}

fn level(v: u8) -> (r: u8)
    requires
        v < 6,
    ensures
        r as int == cube_level(v as int),
{
    if v == 0 { 0 } else { 55 + 40 * v }
}

/// The 256-color space: the named sixteen, the 6x6x6 cube, the 24 grays.
pub fn indexed(index: u8) -> (c: Rgb)
    ensures
        c == indexed_rgb(index),
{
    if index < 16 {
        ansi16_exec(index)
    } else if index <= 231 {
        let n = index - 16;
        (level(n / 36), level((n / 6) % 6), level(n % 6))
    } else {
        let v = 8 + 10 * (index - 232);
        (v, v, v)
    }
}

impl Palette {
    /// `--palette` as written: `dark` or `light`.
    pub open spec fn named(name: Seq<char>) -> Option<Palette> {
        if name == "dark"@ {
            Some(Palette::Dark)
        } else if name == "light"@ {
            Some(Palette::Light)
        } else {
            None
        }
    }

    /// `dark` or `light`; anything else is no palette.
    pub fn parse(name: &str) -> (p: Option<Palette>)
        ensures
            p == Palette::named(name@),
    {
        let n = chars_of(name);
        let dark = chars_of("dark");
        let light = chars_of("light");
        if same_chars(n.as_slice(), dark.as_slice()) {
            Some(Palette::Dark)
        } else if same_chars(n.as_slice(), light.as_slice()) {
            Some(Palette::Light)
        } else {
            None
        }
    }

    /// The default foreground: white on dark, black on light.
    pub open spec fn fg_default(self) -> Rgb {
        match self {
            Palette::Dark => (0xff, 0xff, 0xff),
            Palette::Light => (0x00, 0x00, 0x00),
        }
    }

    /// The default background: black on dark, white on light.
    pub open spec fn bg_default(self) -> Rgb {
        match self {
            Palette::Dark => (0x00, 0x00, 0x00),
            Palette::Light => (0xff, 0xff, 0xff),
        }
    }

    pub fn default_fg(self) -> (c: Rgb)
        ensures
            c == self.fg_default(),
    {
        match self {
            Palette::Dark => (0xff, 0xff, 0xff),
            Palette::Light => (0x00, 0x00, 0x00),
        }
    }

    pub fn default_bg(self) -> (c: Rgb)
        ensures
            c == self.bg_default(),
    {
        match self {
            Palette::Dark => (0x00, 0x00, 0x00),
            Palette::Light => (0xff, 0xff, 0xff),
        }
    }

    /// The sRGB a color renders with, as a foreground or as a background.
    pub open spec fn rgb_of(self, color: Color, foreground: bool) -> Rgb {
        match color {
            Color::Default => if foreground { self.fg_default() } else { self.bg_default() },
            Color::Indexed(i) => indexed_rgb(i),
            Color::Rgb(r, g, b) => (r, g, b),
        }
    }

    /// The (foreground, background) a style renders with, after `reverse`.
    pub open spec fn resolved(self, style: Style) -> (Rgb, Rgb) {
        let fg = self.rgb_of(style.fg, true);
        let bg = self.rgb_of(style.bg, false);
        if style.reverse {
            (bg, fg)
        } else {
            (fg, bg)
        }
    }

    pub fn color(self, color: Color, foreground: bool) -> (c: Rgb)
        ensures
            c == self.rgb_of(color, foreground),
    {
        match color {
            Color::Default => if foreground { self.default_fg() } else { self.default_bg() },
            Color::Indexed(i) => indexed(i),
            Color::Rgb(r, g, b) => (r, g, b),
        }
    }

    /// The (foreground, background) a cell renders with, after `reverse`.
    pub fn resolve(self, style: &Style) -> (pair: (Rgb, Rgb))
        ensures
            pair == self.resolved(*style),
    {
        let fg = self.color(style.fg, true);
        let bg = self.color(style.bg, false);
        if style.reverse {
            (bg, fg)
        } else {
            (fg, bg)
        }
    }
}

/// The lowercase hex digit for `n < 16`.
pub open spec fn hex_digit(n: int) -> char {
    if n < 10 {
        (('0' as int) + n) as char
    } else {
        (('a' as int) + n - 10) as char
    }
}

/// `#rrggbb`, lowercase.
pub open spec fn hex_code(c: Rgb) -> Seq<char> {
    seq![
        '#',
        hex_digit(c.0 as int / 16),
        hex_digit(c.0 as int % 16),
        hex_digit(c.1 as int / 16),
        hex_digit(c.1 as int % 16),
        hex_digit(c.2 as int / 16),
        hex_digit(c.2 as int % 16),
    ]
}

fn hex_digit_exec(n: u8) -> (c: char)
    requires
        n < 16,
    ensures
        c == hex_digit(n as int),
{
    match n {
        0 => '0', 1 => '1', 2 => '2', 3 => '3', 4 => '4', 5 => '5', 6 => '6', 7 => '7',
        8 => '8', 9 => '9', 10 => 'a', 11 => 'b', 12 => 'c', 13 => 'd', 14 => 'e', _ => 'f',
    }
}

/// `#rrggbb`, lowercase, as characters.
pub fn hex_chars(color: Rgb) -> (s: Vec<char>)
    ensures
        s@ == hex_code(color),
{
    let mut v: Vec<char> = Vec::new();
    v.push('#');
    v.push(hex_digit_exec(color.0 / 16));
    v.push(hex_digit_exec(color.0 % 16));
    v.push(hex_digit_exec(color.1 / 16));
    v.push(hex_digit_exec(color.1 % 16));
    v.push(hex_digit_exec(color.2 / 16));
    v.push(hex_digit_exec(color.2 % 16));
    proof {
        assert(v@ =~= hex_code(color));
    }
    v
}

/// `#rrggbb`, lowercase, for snippets.
pub fn hex(color: &Rgb) -> (s: String)
    ensures
        s@ == hex_code(*color),
{
    let v = hex_chars(*color);
    string_of(v.as_slice())
}

// ─── Laws ───────────────────────────────────────────────────────────────────

/// The two palettes differ only in the default colors: a named, indexed, or
/// truecolor color renders the same on both.
pub proof fn law_palettes_share_explicit_colors(color: Color, foreground: bool)
    requires
        color != Color::Default,
    ensures
        Palette::Dark.rgb_of(color, foreground) == Palette::Light.rgb_of(color, foreground),
{
}

/// The light palette inverts the defaults of the dark one.
pub proof fn law_light_inverts_the_defaults()
    ensures
        Palette::Light.fg_default() == Palette::Dark.bg_default(),
        Palette::Light.bg_default() == Palette::Dark.fg_default(),
{
}

/// `reverse` swaps the rendered foreground and background.
pub proof fn law_reverse_swaps(p: Palette, style: Style)
    ensures
        p.resolved(Style { reverse: !style.reverse, ..style }) == (p.resolved(style).1, p.resolved(style).0),
{
}

} // verus!
