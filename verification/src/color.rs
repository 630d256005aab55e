//! The indexed colour table of the terminal.

use vstd::prelude::*;
use crate::rgb::Rgb;

verus! {

/// Number of entries of the colour table.
pub const COUNT: usize = 269;

/// The named colours and their index in the colour table.
#[derive(Debug, Copy, Clone, PartialEq, Eq, Structural)]
pub enum NamedColor {
    Black,
    Red,
    Green,
    Yellow,
    Blue,
    Magenta,
    Cyan,
    White,
    BrightBlack,
    BrightRed,
    BrightGreen,
    BrightYellow,
    BrightBlue,
    BrightMagenta,
    BrightCyan,
    BrightWhite,
    Foreground,
    Background,
    Cursor,
    DimBlack,
    DimRed,
    DimGreen,
    DimYellow,
    DimBlue,
    DimMagenta,
    DimCyan,
    DimWhite,
    BrightForeground,
    DimForeground,
}

impl NamedColor {
    /// Index of the colour in the colour table.
    pub open spec fn spec_index(self) -> int {
        match self {
            NamedColor::Black => 0,
            NamedColor::Red => 1,
            NamedColor::Green => 2,
            NamedColor::Yellow => 3,
            NamedColor::Blue => 4,
            NamedColor::Magenta => 5,
            NamedColor::Cyan => 6,
            NamedColor::White => 7,
            NamedColor::BrightBlack => 8,
            NamedColor::BrightRed => 9,
            NamedColor::BrightGreen => 10,
            NamedColor::BrightYellow => 11,
            NamedColor::BrightBlue => 12,
            NamedColor::BrightMagenta => 13,
            NamedColor::BrightCyan => 14,
            NamedColor::BrightWhite => 15,
            NamedColor::Foreground => 256,
            NamedColor::Background => 257,
            NamedColor::Cursor => 258,
            NamedColor::DimBlack => 259,
            NamedColor::DimRed => 260,
            NamedColor::DimGreen => 261,
            NamedColor::DimYellow => 262,
            NamedColor::DimBlue => 263,
            NamedColor::DimMagenta => 264,
            NamedColor::DimCyan => 265,
            NamedColor::DimWhite => 266,
            NamedColor::BrightForeground => 267,
            NamedColor::DimForeground => 268,
        }
    }

    /// Index of the colour in the colour table.
    pub fn index(self) -> (r: usize)
        ensures
            r == self.spec_index(),
            r < COUNT,
    {
        match self {
            NamedColor::Black => 0,
            NamedColor::Red => 1,
            NamedColor::Green => 2,
            NamedColor::Yellow => 3,
            NamedColor::Blue => 4,
            NamedColor::Magenta => 5,
            NamedColor::Cyan => 6,
            NamedColor::White => 7,
            NamedColor::BrightBlack => 8,
            NamedColor::BrightRed => 9,
            NamedColor::BrightGreen => 10,
            NamedColor::BrightYellow => 11,
            NamedColor::BrightBlue => 12,
            NamedColor::BrightMagenta => 13,
            NamedColor::BrightCyan => 14,
            NamedColor::BrightWhite => 15,
            NamedColor::Foreground => 256,
            NamedColor::Background => 257,
            NamedColor::Cursor => 258,
            NamedColor::DimBlack => 259,
            NamedColor::DimRed => 260,
            NamedColor::DimGreen => 261,
            NamedColor::DimYellow => 262,
            NamedColor::DimBlue => 263,
            NamedColor::DimMagenta => 264,
            NamedColor::DimCyan => 265,
            NamedColor::DimWhite => 266,
            NamedColor::BrightForeground => 267,
            NamedColor::DimForeground => 268,
        }
    }
}

/// The eight ANSI colours of one intensity.
#[derive(Debug, Copy, Clone, PartialEq, Eq, Structural)]
pub struct AnsiColors {
    pub black: Rgb,
    pub red: Rgb,
    pub green: Rgb,
    pub yellow: Rgb,
    pub blue: Rgb,
    pub magenta: Rgb,
    pub cyan: Rgb,
    pub white: Rgb,
}

/// The foreground and background colours.
#[derive(Debug, Copy, Clone, PartialEq, Eq, Structural)]
pub struct PrimaryColors {
    pub foreground: Rgb,
    pub background: Rgb,
    pub bright_foreground: Option<Rgb>,
    pub dim_foreground: Option<Rgb>,
}

/// A colour configured for one index of the colour table.
#[derive(Debug, Copy, Clone, PartialEq, Eq, Structural)]
pub struct IndexedColor {
    pub index: u8,
    pub color: Rgb,
}

/// The configured colours.
pub struct Colors {
    pub primary: PrimaryColors,
    pub normal: AnsiColors,
    pub bright: AnsiColors,
    pub dim: Option<AnsiColors>,
    pub indexed_colors: Vec<IndexedColor>,
}

impl Colors {
    /// The colours of normal intensity.
    pub fn normal(&self) -> (r: &AnsiColors)
        ensures
            *r == self.normal,
    {
        &self.normal
    }

    /// The colours of bright intensity.
    pub fn bright(&self) -> (r: &AnsiColors)
        ensures
            *r == self.bright,
    {
        &self.bright
    }
}

/// The colour the first entry of `indexed` configures for `index`, if any.
pub open spec fn configured_color(indexed: Seq<IndexedColor>, index: u8) -> Option<Rgb>
    decreases indexed.len(),
{
    if indexed.len() == 0 {
        None
    } else if indexed[0].index == index {
        Some(indexed[0].color)
    } else {
        configured_color(indexed.drop_first(), index)
    }
}

/// The colour the first entry of `indexed` configures for `index`, if any.
pub fn find_configured_color(indexed: &Vec<IndexedColor>, index: u8) -> (r: Option<Rgb>)
    ensures
        r == configured_color(indexed@, index),
{
    let mut i: usize = 0;
    assert(indexed@.subrange(0, indexed@.len() as int) =~= indexed@);
    while i < indexed.len()
        invariant
            i <= indexed@.len(),
            configured_color(indexed@.subrange(i as int, indexed@.len() as int), index)
                == configured_color(indexed@, index),
        decreases indexed@.len() - i,
    {
        assert(indexed@.subrange(i as int + 1, indexed@.len() as int) =~= indexed@.subrange(
            i as int,
            indexed@.len() as int,
        ).drop_first());
        if indexed[i].index == index {
            return Some(indexed[i].color);
        }
        i = i + 1;
    }
    None
}

/// Black, the colour of an entry that nothing has set.
pub open spec fn black() -> Rgb {
    Rgb { r: 0, g: 0, b: 0 }
}

/// Intensity of one component of the 6x6x6 colour cube at level `level`.
pub open spec fn cube_level(level: int) -> int {
    if level == 0 {
        0
    } else {
        level * 40 + 55
    }
}

/// The colour of the cube for table index `index`, between 16 and 231.
pub open spec fn cube_color(index: int) -> Rgb {
    let n = index - 16;
    Rgb {
        r: cube_level(n / 36) as u8,
        g: cube_level((n / 6) % 6) as u8,
        b: cube_level(n % 6) as u8,
    }
}

/// The grey of the ramp for table index `index`, between 232 and 255.
pub open spec fn gray_color(index: int) -> Rgb {
    let value = (index - 232) * 10 + 8;
    Rgb { r: value as u8, g: value as u8, b: value as u8 }
}

/// Entry `index` of the colour cube: the configured colour for that index, if any, else
/// the cube's own.
pub open spec fn cube_entry(indexed: Seq<IndexedColor>, index: int) -> Rgb {
    match configured_color(indexed, index as u8) {
        Some(c) => c,
        None => cube_color(index),
    }
}

/// Entry `index` of the grey ramp: the configured colour for that index, if any, else the
/// ramp's own.
pub open spec fn gray_entry(indexed: Seq<IndexedColor>, index: int) -> Rgb {
    match configured_color(indexed, index as u8) {
        Some(c) => c,
        None => gray_color(index),
    }
}

/// The colour `colors` sets for a named colour.
pub open spec fn named_color(colors: Colors, name: NamedColor) -> Rgb {
    let normal = colors.normal;
    let bright = colors.bright;
    let primary = colors.primary;
    match name {
        NamedColor::Black => normal.black,
        NamedColor::Red => normal.red,
        NamedColor::Green => normal.green,
        NamedColor::Yellow => normal.yellow,
        NamedColor::Blue => normal.blue,
        NamedColor::Magenta => normal.magenta,
        NamedColor::Cyan => normal.cyan,
        NamedColor::White => normal.white,
        NamedColor::BrightBlack => bright.black,
        NamedColor::BrightRed => bright.red,
        NamedColor::BrightGreen => bright.green,
        NamedColor::BrightYellow => bright.yellow,
        NamedColor::BrightBlue => bright.blue,
        NamedColor::BrightMagenta => bright.magenta,
        NamedColor::BrightCyan => bright.cyan,
        NamedColor::BrightWhite => bright.white,
        NamedColor::BrightForeground => match primary.bright_foreground {
            Some(c) => c,
            None => primary.foreground,
        },
        NamedColor::Foreground => primary.foreground,
        NamedColor::Background => primary.background,
        NamedColor::DimForeground => match primary.dim_foreground {
            Some(c) => c,
            None => dimmed(primary.foreground),
        },
        NamedColor::DimBlack => dim_of(colors).black,
        NamedColor::DimRed => dim_of(colors).red,
        NamedColor::DimGreen => dim_of(colors).green,
        NamedColor::DimYellow => dim_of(colors).yellow,
        NamedColor::DimBlue => dim_of(colors).blue,
        NamedColor::DimMagenta => dim_of(colors).magenta,
        NamedColor::DimCyan => dim_of(colors).cyan,
        NamedColor::DimWhite => dim_of(colors).white,
        NamedColor::Cursor => black(),
    }
}

/// A colour with every component scaled by the dim factor.
pub open spec fn dimmed(c: Rgb) -> Rgb {
    Rgb { r: Rgb::dim_component(c.r), g: Rgb::dim_component(c.g), b: Rgb::dim_component(c.b) }
}

/// The dim colours: the configured ones, or the normal ones scaled by the dim factor.
pub open spec fn dim_of(colors: Colors) -> AnsiColors {
    match colors.dim {
        Some(d) => d,
        None => AnsiColors {
            black: dimmed(colors.normal.black),
            red: dimmed(colors.normal.red),
            green: dimmed(colors.normal.green),
            yellow: dimmed(colors.normal.yellow),
            blue: dimmed(colors.normal.blue),
            magenta: dimmed(colors.normal.magenta),
            cyan: dimmed(colors.normal.cyan),
            white: dimmed(colors.normal.white),
        },
    }
}

/// The named colours `fill_named` sets: every one but the cursor.
pub open spec fn filled_by_name(name: NamedColor) -> bool {
    name != NamedColor::Cursor
}

/// The colour table: the 16 ANSI colours, the 6x6x6 colour cube (16..232), the grey ramp
/// (232..256), then the foreground, background and cursor colours, the 8 dim colours, and the
/// bright and dim foreground.
#[derive(Copy, Clone)]
pub struct List(pub [Rgb; 269]);

impl List {
    /// The entries of the table.
    pub open spec fn entries(&self) -> Seq<Rgb> {
        self.0@
    }

    /// A table with every entry black.
    pub fn new() -> (r: List)
        ensures
            forall|i: int| 0 <= i < COUNT ==> #[trigger] r.entries()[i] == black(),
    {
        List([Rgb { r: 0, g: 0, b: 0 }; 269])
    }

    /// The table filled from the configured colours: named colours, cube and grey ramp.
    pub fn from_colors(colors: &Colors) -> (r: List)
        ensures
            forall|i: int| 16 <= i < 232 ==> #[trigger] r.entries()[i] == cube_entry(colors.indexed_colors@, i),
            forall|i: int| 232 <= i < 256 ==> #[trigger] r.entries()[i] == gray_entry(colors.indexed_colors@, i),
            forall|name: NamedColor| filled_by_name(name) ==> #[trigger] r.entries()[name.spec_index()]
                == named_color(*colors, name),
            r.entries()[NamedColor::Cursor.spec_index()] == black(),
    {
        let mut list = List::new();
        list.fill_named(colors);
        list.fill_cube(colors);
        list.fill_gray_ramp(colors);
        list
    }

    /// The entry at `idx`.
    pub fn get(&self, idx: usize) -> (r: Rgb)
        requires
            idx < COUNT,
        ensures
            r == self.entries()[idx as int],
    {
        self.0[idx]
    }

    /// Sets the entry at `idx`.
    pub fn set_entry(&mut self, idx: usize, color: Rgb)
        requires
            idx < COUNT,
        ensures
            final(self).entries() == old(self).entries().update(idx as int, color),
    {
        self.0[idx] = color;
    }

    /// The entry of a named colour.
    pub fn named(&self, name: NamedColor) -> (r: Rgb)
        ensures
            r == self.entries()[name.spec_index()],
    {
        self.0[name.index()]
    }

    /// Sets the entry of a named colour.
    pub fn set_named(&mut self, name: NamedColor, color: Rgb)
        ensures
            final(self).entries() == old(self).entries().update(name.spec_index(), color),
    {
        let idx = name.index();
        self.0[idx] = color;
    }

    /// Reading a named colour gives back the colour last set for it, and setting one named
    /// colour leaves every other entry as it was.
    pub proof fn lemma_set_then_read(entries: Seq<Rgb>, name: NamedColor, color: Rgb, other: int)
        requires
            entries.len() == COUNT,
            0 <= other < COUNT,
            other != name.spec_index(),
        ensures
            entries.update(name.spec_index(), color)[name.spec_index()] == color,
            entries.update(name.spec_index(), color)[other] == entries[other],
    {
    }

    /// Sets the named colours from the configuration: normal and bright colours, foreground
    /// and background, the bright and dim foreground (derived from the foreground when not
    /// configured) and the dim colours (derived from the normal ones when not configured).
    pub fn fill_named(&mut self, colors: &Colors)
        ensures
            forall|name: NamedColor| filled_by_name(name) ==> #[trigger] final(self).entries()[name.spec_index()]
                == named_color(*colors, name),
            forall|i: int|
                0 <= i < COUNT && !(0 <= i < 16) && !(256 <= i < COUNT && i != 258) ==> #[trigger] final(self).entries()[i] == old(self).entries()[i],
            final(self).entries()[258] == old(self).entries()[258],
    {
        let normal = *colors.normal();
        let bright = *colors.bright();
        self.set_named(NamedColor::Black, normal.black);
        self.set_named(NamedColor::Red, normal.red);
        self.set_named(NamedColor::Green, normal.green);
        self.set_named(NamedColor::Yellow, normal.yellow);
        self.set_named(NamedColor::Blue, normal.blue);
        self.set_named(NamedColor::Magenta, normal.magenta);
        self.set_named(NamedColor::Cyan, normal.cyan);
        self.set_named(NamedColor::White, normal.white);

        self.set_named(NamedColor::BrightBlack, bright.black);
        self.set_named(NamedColor::BrightRed, bright.red);
        self.set_named(NamedColor::BrightGreen, bright.green);
        self.set_named(NamedColor::BrightYellow, bright.yellow);
        self.set_named(NamedColor::BrightBlue, bright.blue);
        self.set_named(NamedColor::BrightMagenta, bright.magenta);
        self.set_named(NamedColor::BrightCyan, bright.cyan);
        self.set_named(NamedColor::BrightWhite, bright.white);
        let bright_foreground = match colors.primary.bright_foreground {
            Some(c) => c,
            None => colors.primary.foreground,
        };
        self.set_named(NamedColor::BrightForeground, bright_foreground);

        self.set_named(NamedColor::Foreground, colors.primary.foreground);
        self.set_named(NamedColor::Background, colors.primary.background);

        let dim_foreground = match colors.primary.dim_foreground {
            Some(c) => c,
            None => colors.primary.foreground.dim(),
        };
        self.set_named(NamedColor::DimForeground, dim_foreground);
        match colors.dim {
            Some(dim) => {
                self.set_named(NamedColor::DimBlack, dim.black);
                self.set_named(NamedColor::DimRed, dim.red);
                self.set_named(NamedColor::DimGreen, dim.green);
                self.set_named(NamedColor::DimYellow, dim.yellow);
                self.set_named(NamedColor::DimBlue, dim.blue);
                self.set_named(NamedColor::DimMagenta, dim.magenta);
                self.set_named(NamedColor::DimCyan, dim.cyan);
                self.set_named(NamedColor::DimWhite, dim.white);
            },
            None => {
                self.set_named(NamedColor::DimBlack, normal.black.dim());
                self.set_named(NamedColor::DimRed, normal.red.dim());
                self.set_named(NamedColor::DimGreen, normal.green.dim());
                self.set_named(NamedColor::DimYellow, normal.yellow.dim());
                self.set_named(NamedColor::DimBlue, normal.blue.dim());
                self.set_named(NamedColor::DimMagenta, normal.magenta.dim());
                self.set_named(NamedColor::DimCyan, normal.cyan.dim());
                self.set_named(NamedColor::DimWhite, normal.white.dim());
            },
        }
        assert forall|name: NamedColor| filled_by_name(name) implies #[trigger] self.entries()[name.spec_index()]
            == named_color(*colors, name) by {
            match name {
                _ => {},
            }
        }
    }

    /// Sets entries 16 to 231, the 6x6x6 colour cube, taking a configured colour for an
    /// index where there is one.
    pub fn fill_cube(&mut self, colors: &Colors)
        ensures
            forall|i: int| 16 <= i < 232 ==> #[trigger] final(self).entries()[i] == cube_entry(colors.indexed_colors@, i),
            forall|i: int|
                0 <= i < COUNT && !(16 <= i < 232) ==> #[trigger] final(self).entries()[i] == old(self).entries()[i],
    {
        let mut index: usize = 16;
        let mut r: u8 = 0;
        while r < 6
            invariant
                0 <= r <= 6,
                index == 16 + 36 * r,
                forall|i: int| 16 <= i < index ==> #[trigger] self.entries()[i] == cube_entry(colors.indexed_colors@, i),
                forall|i: int|
                    0 <= i < COUNT && !(16 <= i < index) ==> #[trigger] self.entries()[i] == old(self).entries()[i],
            decreases 6 - r,
        {
            let mut g: u8 = 0;
            while g < 6
                invariant
                    0 <= r < 6,
                    0 <= g <= 6,
                    index == 16 + 36 * r + 6 * g,
                    forall|i: int| 16 <= i < index ==> #[trigger] self.entries()[i] == cube_entry(colors.indexed_colors@, i),
                    forall|i: int|
                        0 <= i < COUNT && !(16 <= i < index) ==> #[trigger] self.entries()[i] == old(self).entries()[i],
                decreases 6 - g,
            {
                let mut b: u8 = 0;
                while b < 6
                    invariant
                        0 <= r < 6,
                        0 <= g < 6,
                        0 <= b <= 6,
                        index == 16 + 36 * r + 6 * g + b,
                        forall|i: int| 16 <= i < index ==> #[trigger] self.entries()[i] == cube_entry(colors.indexed_colors@, i),
                        forall|i: int|
                            0 <= i < COUNT && !(16 <= i < index) ==> #[trigger] self.entries()[i]
                                == old(self).entries()[i],
                    decreases 6 - b,
                {
                    let color = match find_configured_color(&colors.indexed_colors, index as u8) {
                        Some(c) => c,
                        None => Rgb {
                            r: if r == 0 { 0 } else { r * 40 + 55 },
                            b: if b == 0 { 0 } else { b * 40 + 55 },
                            g: if g == 0 { 0 } else { g * 40 + 55 },
                        },
                    };
                    assert(cube_color(index as int) == (Rgb {
                        r: if r == 0 { 0 } else { (r * 40 + 55) as u8 },
                        g: if g == 0 { 0 } else { (g * 40 + 55) as u8 },
                        b: if b == 0 { 0 } else { (b * 40 + 55) as u8 },
                    })) by {
                        let n = index - 16;
                        assert(n == 36 * r + 6 * g + b);
                        vstd::arithmetic::div_mod::lemma_fundamental_div_mod_converse(
                            n as int,
                            36,
                            r as int,
                            (6 * g + b) as int,
                        );
                        vstd::arithmetic::div_mod::lemma_fundamental_div_mod_converse(
                            n as int,
                            6,
                            (6 * r + g) as int,
                            b as int,
                        );
                        vstd::arithmetic::div_mod::lemma_fundamental_div_mod_converse(
                            (6 * r + g) as int,
                            6,
                            r as int,
                            g as int,
                        );
                    }
                    self.set_entry(index, color);
                    index = index + 1;
                    b = b + 1;
                }
                g = g + 1;
            }
            r = r + 1;
        }
    }

    /// Sets entries 232 to 255, the grey ramp, taking a configured colour for an index where
    /// there is one.
    pub fn fill_gray_ramp(&mut self, colors: &Colors)
        ensures
            forall|i: int| 232 <= i < 256 ==> #[trigger] final(self).entries()[i] == gray_entry(colors.indexed_colors@, i),
            forall|i: int|
                0 <= i < COUNT && !(232 <= i < 256) ==> #[trigger] final(self).entries()[i] == old(self).entries()[i],
    {
        let mut index: usize = 232;
        let mut i: u8 = 0;
        while i < 24
            invariant
                0 <= i <= 24,
                index == 232 + i,
                forall|k: int| 232 <= k < index ==> #[trigger] self.entries()[k] == gray_entry(colors.indexed_colors@, k),
                forall|k: int|
                    0 <= k < COUNT && !(232 <= k < index) ==> #[trigger] self.entries()[k] == old(self).entries()[k],
            decreases 24 - i,
        {
            let color_index: u8 = 16 + 216 + i;
            match find_configured_color(&colors.indexed_colors, color_index) {
                Some(c) => {
                    self.set_entry(index, c);
                },
                None => {
                    let value = i * 10 + 8;
                    self.set_entry(index, Rgb { r: value, g: value, b: value });
                },
            }
            index = index + 1;
            i = i + 1;
        }
    }
}

/// The bright foreground of the table is the configured bright foreground when there is
/// one, and the foreground otherwise; likewise the dim foreground is the configured one when
/// there is one. Both are entries the table fills from the configuration, at the indices 267
/// and 268.
pub proof fn lemma_configured_foregrounds(colors: Colors)
    ensures
        filled_by_name(NamedColor::BrightForeground),
        filled_by_name(NamedColor::DimForeground),
        NamedColor::BrightForeground.spec_index() == 267,
        NamedColor::DimForeground.spec_index() == 268,
        colors.primary.bright_foreground matches Some(c) ==> named_color(colors, NamedColor::BrightForeground) == c,
        colors.primary.bright_foreground is None ==> named_color(colors, NamedColor::BrightForeground) == colors.primary.foreground,
        colors.primary.dim_foreground matches Some(c) ==> named_color(colors, NamedColor::DimForeground) == c,
        named_color(colors, NamedColor::Foreground) == colors.primary.foreground,
        named_color(colors, NamedColor::Background) == colors.primary.background,
{
}

/// The first sixteen entries of the table are the configured normal colours (indices 0 to 7)
/// and bright colours (indices 8 to 15), in the order black, red, green, yellow, blue,
/// magenta, cyan, white.
pub proof fn lemma_ansi_named_colors(colors: Colors)
    ensures
        named_color(colors, NamedColor::Black) == colors.normal.black,
        named_color(colors, NamedColor::Red) == colors.normal.red,
        named_color(colors, NamedColor::Green) == colors.normal.green,
        named_color(colors, NamedColor::Yellow) == colors.normal.yellow,
        named_color(colors, NamedColor::Blue) == colors.normal.blue,
        named_color(colors, NamedColor::Magenta) == colors.normal.magenta,
        named_color(colors, NamedColor::Cyan) == colors.normal.cyan,
        named_color(colors, NamedColor::White) == colors.normal.white,
        named_color(colors, NamedColor::BrightBlack) == colors.bright.black,
        named_color(colors, NamedColor::BrightRed) == colors.bright.red,
        named_color(colors, NamedColor::BrightGreen) == colors.bright.green,
        named_color(colors, NamedColor::BrightYellow) == colors.bright.yellow,
        named_color(colors, NamedColor::BrightBlue) == colors.bright.blue,
        named_color(colors, NamedColor::BrightMagenta) == colors.bright.magenta,
        named_color(colors, NamedColor::BrightCyan) == colors.bright.cyan,
        named_color(colors, NamedColor::BrightWhite) == colors.bright.white,
        NamedColor::Black.spec_index() == 0,
        NamedColor::Red.spec_index() == 1,
        NamedColor::White.spec_index() == 7,
        NamedColor::BrightBlack.spec_index() == 8,
        NamedColor::BrightWhite.spec_index() == 15,
{
}

} // verus!
