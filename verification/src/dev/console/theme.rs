//! Colors, and the escape sequences that select them.

use vstd::prelude::*;

verus! {

/// The colors of a terminal: those it starts with, and the eight normal and eight bright ones
/// that a program can select. A color is `0xRRGGBB`.
#[derive(Debug, Clone, Copy)]
pub struct Theme {
    pub default_fg: u32,
    pub default_bg: u32,
    /// Black, red, green, yellow, blue, magenta, cyan, white.
    pub colors: [u32; 8],
    /// The bright variants, in the same order.
    pub bright_colors: [u32; 8],
}

pub const VGA_COLORS: [u32; 8] = [
    0x000000,
    0xAA0000,
    0x00AA00,
    0xAA5500,
    0x0000AA,
    0xAA00AA,
    0x00AAAA,
    0xAAAAAA,
];

pub const VGA_BRIGHT_COLORS: [u32; 8] = [
    0x555555,
    0xFF5555,
    0x55FF55,
    0xFFFF55,
    0x5555FF,
    0xFF55FF,
    0x55FFFF,
    0xFFFFFF,
];

pub const GRUVBOX_COLORS: [u32; 8] = [
    0x282828,
    0xCC241D,
    0x98971A,
    0xD79921,
    0x458588,
    0xB16286,
    0x689D6A,
    0xEBDBB2,
];

pub const GRUVBOX_BRIGHT_COLORS: [u32; 8] = [
    0x665C54,
    0xFB4934,
    0xB8BB26,
    0xFABD2F,
    0x83A598,
    0xD3869B,
    0x8EC07C,
    0xEBDBB2,
];

pub const TOKYO_NIGHT_COLORS: [u32; 8] = [
    0x1A1B26,
    0xF7768E,
    0x9ECE6A,
    0xE0AF68,
    0x7AA2F7,
    0xBB9AF7,
    0x7DCFFF,
    0xC0C0C0,
];

pub const TOKYO_NIGHT_BRIGHT_COLORS: [u32; 8] = [
    0x414868,
    0xFF7A93,
    0xB9F27C,
    0xE6C384,
    0x7AA2F7,
    0xBB9AF7,
    0x7DCFFF,
    0xFFFFFF,
];

/// The palette of the VGA text mode.
pub fn vga_theme() -> (theme: Theme)
    ensures
        theme == (Theme {
            default_fg: 0xC0C0C0,
            default_bg: 0x000000,
            colors: VGA_COLORS,
            bright_colors: VGA_BRIGHT_COLORS,
        }),
{
    Theme {
        default_fg: 0xC0C0C0,
        default_bg: 0x000000,
        colors: VGA_COLORS,
        bright_colors: VGA_BRIGHT_COLORS,
    }
}

pub fn gruvbox_theme() -> (theme: Theme)
    ensures
        theme == (Theme {
            default_fg: 0xEBDBB2,
            default_bg: 0x282828,
            colors: GRUVBOX_COLORS,
            bright_colors: GRUVBOX_BRIGHT_COLORS,
        }),
{
    Theme {
        default_fg: 0xEBDBB2,
        default_bg: 0x282828,
        colors: GRUVBOX_COLORS,
        bright_colors: GRUVBOX_BRIGHT_COLORS,
    }
}

pub open spec fn tokyo_night() -> Theme {
    Theme {
        default_fg: 0xC0C0C0,
        default_bg: 0x1A1B26,
        colors: TOKYO_NIGHT_COLORS,
        bright_colors: TOKYO_NIGHT_BRIGHT_COLORS,
    }
}

pub fn tokyo_night_theme() -> (theme: Theme)
    ensures
        theme == tokyo_night(),
{
    Theme {
        default_fg: 0xC0C0C0,
        default_bg: 0x1A1B26,
        colors: TOKYO_NIGHT_COLORS,
        bright_colors: TOKYO_NIGHT_BRIGHT_COLORS,
    }
}

/// The pair of colors that a terminal draws with.
#[derive(Debug, Clone, Copy, PartialEq, Eq, Structural)]
pub struct Colors {
    pub fg: u32,
    pub bg: u32,
}

impl Theme {
    /// The colors a terminal starts with.
    pub open spec fn initial(self) -> Colors {
        Colors { fg: self.default_fg, bg: self.default_bg }
    }

    /// The colors after the parameter `param` of a "select graphic rendition" sequence: 0 resets
    /// both, 30 to 37 and 90 to 97 select a normal and a bright foreground, 40 to 47 and 100 to
    /// 107 a normal and a bright background, 39 and 49 reset one of them. Any other parameter
    /// changes nothing.
    pub open spec fn select(self, colors: Colors, param: int) -> Colors {
        if param == 0 {
            self.initial()
        } else if 30 <= param <= 37 {
            Colors { fg: self.colors@[param - 30], ..colors }
        } else if param == 39 {
            Colors { fg: self.default_fg, ..colors }
        } else if 40 <= param <= 47 {
            Colors { bg: self.colors@[param - 40], ..colors }
        } else if param == 49 {
            Colors { bg: self.default_bg, ..colors }
        } else if 90 <= param <= 97 {
            Colors { fg: self.bright_colors@[param - 90], ..colors }
        } else if 100 <= param <= 107 {
            Colors { bg: self.bright_colors@[param - 100], ..colors }
        } else {
            colors
        }
    }

    /// The colors after all of `params`, taken in order.
    pub open spec fn select_all(self, colors: Colors, params: Seq<usize>) -> Colors
        decreases params.len(),
    {
        if params.len() == 0 {
            colors
        } else {
            self.select(self.select_all(colors, params.drop_last()), params.last() as int)
        }
    }

    /// The colors after the parameter `param`.
    pub fn apply(&self, colors: Colors, param: usize) -> (r: Colors)
        ensures
            r == self.select(colors, param as int),
    {
        match param {
            0 => Colors { fg: self.default_fg, bg: self.default_bg },
            30..=37 => Colors { fg: self.colors[param - 30], bg: colors.bg },
            39 => Colors { fg: self.default_fg, bg: colors.bg },
            40..=47 => Colors { fg: colors.fg, bg: self.colors[param - 40] },
            49 => Colors { fg: colors.fg, bg: self.default_bg },
            90..=97 => Colors { fg: self.bright_colors[param - 90], bg: colors.bg },
            100..=107 => Colors { fg: colors.fg, bg: self.bright_colors[param - 100] },
            // there are way more...
            _ => colors,
        }
    }
}

/// The colors of the palettes, from black to white.
pub proof fn palettes()
    ensures
        VGA_COLORS@ == seq![
            0x000000u32,
            0xAA0000,
            0x00AA00,
            0xAA5500,
            0x0000AA,
            0xAA00AA,
            0x00AAAA,
            0xAAAAAA,
        ],
        VGA_BRIGHT_COLORS@ == seq![
            0x555555u32,
            0xFF5555,
            0x55FF55,
            0xFFFF55,
            0x5555FF,
            0xFF55FF,
            0x55FFFF,
            0xFFFFFF,
        ],
        GRUVBOX_COLORS@ == seq![
            0x282828u32,
            0xCC241D,
            0x98971A,
            0xD79921,
            0x458588,
            0xB16286,
            0x689D6A,
            0xEBDBB2,
        ],
        GRUVBOX_BRIGHT_COLORS@ == seq![
            0x665C54u32,
            0xFB4934,
            0xB8BB26,
            0xFABD2F,
            0x83A598,
            0xD3869B,
            0x8EC07C,
            0xEBDBB2,
        ],
{
}

} // verus!
