use impeccable_terminal::capture::{Color, Style};
use impeccable_terminal::palette::{hex, indexed, Palette};

#[test]
fn indexed_cube_and_grays_match_xterm() {
    assert_eq!(indexed(16), (0, 0, 0));
    assert_eq!(indexed(196), (255, 0, 0));
    assert_eq!(indexed(208), (255, 135, 0));
    assert_eq!(indexed(232), (8, 8, 8));
    assert_eq!(indexed(255), (238, 238, 238));
}

#[test]
fn reverse_swaps_foreground_and_background() {
    let style = Style { fg: Color::Indexed(1), bg: Color::Default, reverse: true, ..Style::default() };
    let (fg, bg) = Palette::Dark.resolve(&style);
    assert_eq!(hex(&fg), "#000000");
    assert_eq!(hex(&bg), "#cd0000");
}

#[test]
fn light_palette_inverts_only_the_defaults() {
    let plain = Style::default();
    let (dfg, dbg) = Palette::Dark.resolve(&plain);
    let (lfg, lbg) = Palette::Light.resolve(&plain);
    assert_eq!((hex(&dfg), hex(&dbg)), ("#ffffff".to_string(), "#000000".to_string()));
    assert_eq!((hex(&lfg), hex(&lbg)), ("#000000".to_string(), "#ffffff".to_string()));
    let red = Style { fg: Color::Indexed(9), ..Style::default() };
    assert_eq!(hex(&Palette::Light.resolve(&red).0), hex(&Palette::Dark.resolve(&red).0));
    assert_eq!(Palette::parse("sepia"), None);
    assert_eq!(Palette::parse("light"), Some(Palette::Light));
}

#[test]
fn named_colors_and_the_default_palette() {
    assert_eq!(Palette::default(), Palette::Dark);
    assert_eq!(Palette::parse("dark"), Some(Palette::Dark));
    assert_eq!(indexed(0), (0, 0, 0));
    assert_eq!(indexed(1), (0xcd, 0, 0));
    assert_eq!(indexed(15), (255, 255, 255));
    assert_eq!(indexed(21), (0, 0, 255));
    assert_eq!(indexed(244), (128, 128, 128));
}

#[test]
fn truecolor_renders_as_written_on_both_palettes() {
    let s = Style { fg: Color::Rgb(1, 2, 3), bg: Color::Rgb(250, 251, 252), ..Style::default() };
    assert_eq!(Palette::Dark.resolve(&s), ((1, 2, 3), (250, 251, 252)));
    assert_eq!(Palette::Light.resolve(&s), ((1, 2, 3), (250, 251, 252)));
    assert_eq!(hex(&(250, 251, 252)), "#fafbfc");
}
