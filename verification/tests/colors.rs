use chartacritty::color::{AnsiColors, Colors, IndexedColor, List, NamedColor, PrimaryColors, COUNT};
use chartacritty::rgb::Rgb;

fn rgb(r: u8, g: u8, b: u8) -> Rgb {
    Rgb { r, g, b }
}

fn ansi(base: u8) -> AnsiColors {
    AnsiColors {
        black: rgb(base, 0, 0),
        red: rgb(base, 1, 0),
        green: rgb(base, 2, 0),
        yellow: rgb(base, 3, 0),
        blue: rgb(base, 4, 0),
        magenta: rgb(base, 5, 0),
        cyan: rgb(base, 6, 0),
        white: rgb(base, 7, 200),
    }
}

fn colors(dim: Option<AnsiColors>, indexed_colors: Vec<IndexedColor>) -> Colors {
    Colors {
        primary: PrimaryColors {
            foreground: rgb(100, 150, 200),
            background: rgb(1, 2, 3),
            bright_foreground: None,
            dim_foreground: None,
        },
        normal: ansi(10),
        bright: ansi(20),
        dim,
        indexed_colors,
    }
}

#[test]
fn parses_hex_colors() {
    assert_eq!(Rgb::parse_hex("#ff8000"), Ok(rgb(255, 128, 0)));
    assert_eq!(Rgb::parse_hex("0x0A0b0C"), Ok(rgb(10, 11, 12)));
    assert_eq!("#123456".parse::<Rgb>(), Ok(rgb(0x12, 0x34, 0x56)));
    assert_eq!(Rgb::parse_hex("ff8000"), Err(()));
    assert_eq!(Rgb::parse_hex("0y000000"), Err(()));
    assert_eq!(Rgb::parse_hex("#12345"), Err(()));
    assert_eq!(Rgb::parse_hex("#12345g"), Err(()));
}

#[test]
fn dims_by_two_thirds() {
    assert_eq!(rgb(255, 100, 0).dim(), rgb(168, 66, 0));
    assert_eq!(rgb(1, 2, 3).dim(), rgb(0, 1, 1));
}

#[test]
fn fills_the_colour_cube() {
    let list = List::from_colors(&colors(None, vec![]));
    assert_eq!(list.get(16), rgb(0, 0, 0));
    assert_eq!(list.get(17), rgb(0, 0, 95));
    assert_eq!(list.get(16 + 36 + 6 + 1), rgb(95, 95, 95));
    assert_eq!(list.get(231), rgb(255, 255, 255));
    assert_eq!(list.get(16 + 2 * 36 + 3 * 6 + 4), rgb(135, 175, 215));
}

#[test]
fn fills_the_grey_ramp() {
    let list = List::from_colors(&colors(None, vec![]));
    assert_eq!(list.get(232), rgb(8, 8, 8));
    assert_eq!(list.get(233), rgb(18, 18, 18));
    assert_eq!(list.get(255), rgb(238, 238, 238));
}

#[test]
fn configured_indexed_colours_win() {
    let indexed = vec![
        IndexedColor { index: 17, color: rgb(1, 1, 1) },
        IndexedColor { index: 240, color: rgb(2, 2, 2) },
        IndexedColor { index: 17, color: rgb(3, 3, 3) },
    ];
    let list = List::from_colors(&colors(None, indexed));
    assert_eq!(list.get(17), rgb(1, 1, 1));
    assert_eq!(list.get(240), rgb(2, 2, 2));
    assert_eq!(list.get(18), rgb(0, 0, 135));
}

#[test]
fn fills_named_colours() {
    let list = List::from_colors(&colors(None, vec![]));
    assert_eq!(list.named(NamedColor::Red), rgb(10, 1, 0));
    assert_eq!(list.named(NamedColor::BrightWhite), rgb(20, 7, 200));
    assert_eq!(list.named(NamedColor::Foreground), rgb(100, 150, 200));
    assert_eq!(list.named(NamedColor::Background), rgb(1, 2, 3));
    assert_eq!(list.named(NamedColor::BrightForeground), rgb(100, 150, 200));
    assert_eq!(list.named(NamedColor::DimForeground), rgb(66, 99, 132));
    assert_eq!(list.named(NamedColor::DimWhite), rgb(6, 4, 132));
    assert_eq!(list.named(NamedColor::Cursor), rgb(0, 0, 0));
    assert_eq!(NamedColor::DimForeground.index(), COUNT - 1);
}

#[test]
fn configured_dim_colours_win() {
    let list = List::from_colors(&colors(Some(ansi(30)), vec![]));
    assert_eq!(list.named(NamedColor::DimRed), rgb(30, 1, 0));
    assert_eq!(list.named(NamedColor::DimBlack), rgb(30, 0, 0));
}

#[test]
fn sets_one_named_entry() {
    let mut list = List::new();
    list.set_named(NamedColor::Cursor, rgb(9, 9, 9));
    assert_eq!(list.get(258), rgb(9, 9, 9));
    assert_eq!(list.get(257), rgb(0, 0, 0));
}
