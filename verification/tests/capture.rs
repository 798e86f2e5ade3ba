use impeccable_terminal::capture::{parse_frames, parse_rows, Cell, Color, Frame, FrameRole, Style};

/// A row parsed on its own, starting (and ending) with a default style.
fn parse_row(line: &str) -> Vec<Cell> {
    impeccable_terminal::capture::parse_row(line, &mut Style::default())
}

#[test]
fn sgr_colors_and_attributes_land_on_the_cells_they_precede() {
    let cells = parse_row("\x1b[1m\x1b[38;2;120;120;120m\x1b[48;2;100;100;100mhi\x1b[0m \x1b[31mred\x1b[39m!");
    assert_eq!(cells.len(), 7);
    assert_eq!(
        cells[0].style,
        Style { fg: Color::Rgb(120, 120, 120), bg: Color::Rgb(100, 100, 100), bold: true, ..Style::default() }
    );
    assert_eq!(cells[2].style, Style::default(), "0 resets everything");
    assert_eq!(cells[3].style.fg, Color::Indexed(1));
    assert_eq!(cells[6].style.fg, Color::Default, "39 resets the foreground only");
    assert_eq!(cells[6].glyph, Some('!'));
}

#[test]
fn bright_indexed_and_combined_parameters_map_into_the_256_index_space() {
    let cells = parse_row("\x1b[97;104ma\x1b[38;5;208mb\x1b[7mc\x1b[38;2;1;2;3;48;2;4;5;6md");
    assert_eq!((cells[0].style.fg, cells[0].style.bg), (Color::Indexed(15), Color::Indexed(12)));
    assert_eq!(cells[1].style.fg, Color::Indexed(208));
    assert!(cells[2].style.reverse);
    assert_eq!((cells[3].style.fg, cells[3].style.bg), (Color::Rgb(1, 2, 3), Color::Rgb(4, 5, 6)));
}

#[test]
fn wide_glyphs_take_two_cells_and_zero_width_marks_take_none() {
    let cells = parse_row("a😀b日本⚠\u{FE0F}");
    assert_eq!(cells.len(), 10, "⚠ with U+FE0F is two cells");
    assert!(cells[2].wide_tail && cells[2].glyph.is_none());
    let frame = Frame { rows: vec![cells], ..Frame::default() };
    assert_eq!(frame.text(0), "a😀b日本⚠");
    assert!(frame.has_wide(0));
    assert_eq!(frame.row_width(0), 10);
}

#[test]
fn capture_parser_replays_without_tmux() {
    let text = "#!capture width=40 height=3 termfeatures=256 colorterm=truecolor\nrow one\n\n\n#!capture width=40 height=3 role=recapture\nrow two\n";
    let frames = parse_frames(text).unwrap();
    assert_eq!(frames.len(), 2);
    assert_eq!((frames[0].width, frames[0].height, frames[0].rows.len()), (40, 3, 2));
    assert!(frames[0].is_blank(1), "an empty row inside a frame is kept");
    assert_eq!(frames[0].termfeatures, "256");
    assert_eq!(frames[0].colorterm, "truecolor");
    assert_eq!(frames[0].role, FrameRole::Capture);
    assert_eq!(frames[1].role, FrameRole::Recapture);
    assert_eq!(frames[1].text(0), "row two");
}

#[test]
fn headerless_capture_measures_itself_and_knows_no_client() {
    let frames = parse_frames("ab\nabcd\n").unwrap();
    assert_eq!(frames.len(), 1);
    assert_eq!((frames[0].width, frames[0].height), (4, 2));
    assert_eq!(frames[0].termfeatures, "");
    assert_eq!(frames[0].role, FrameRole::Capture);
}

#[test]
fn bad_headers_are_errors_not_guesses() {
    assert_eq!(parse_frames("#!capture width=wide\n").unwrap_err(), "capture header: width \"wide\" is not a number");
    assert_eq!(parse_frames("#!capture role=third\n").unwrap_err(), "capture header: unknown role \"third\"");
    assert_eq!(parse_frames("#!capture depth=8\n").unwrap_err(), "capture header: unknown key \"depth\"");
    assert_eq!(parse_frames("#!capture width\n").unwrap_err(), "capture header: expected key=value, got \"width\"");
}

#[test]
fn background_set_on_one_row_still_applies_on_the_next() {
    let rows = parse_rows("\x1b[48;5;15mA\nB");
    assert_eq!(rows[0][0].style.bg, Color::Indexed(15));
    assert_eq!(rows[1][0].style.bg, rows[0][0].style.bg, "row 2 inherits row 1's background");
}

#[test]
fn a_new_frame_header_resets_the_carried_style() {
    let text = "#!capture width=1 height=1\n\x1b[48;5;15mA\n#!capture width=1 height=1\nB\n";
    let frames = parse_frames(text).unwrap();
    assert_eq!(frames[0].rows[0][0].style.bg, Color::Indexed(15));
    assert_eq!(frames[1].rows[0][0].style, Style::default(), "a new #!capture header starts clean");
}

#[test]
fn an_osc_8_hyperlink_adds_no_cells() {
    let cells = parse_row("\x1b]8;;https://example.com\x1b\\link\x1b]8;;\x1b\\ tail");
    assert_eq!(cells.len(), 9);
    let frame = Frame { rows: vec![cells], ..Frame::default() };
    assert_eq!(frame.row_width(0), 9);
    assert_eq!(frame.text(0), "link tail");
}

#[test]
fn a_private_csi_adds_no_cells() {
    let cells = parse_row("\x1b[?25l hidden \x1b[?25h");
    let frame = Frame { rows: vec![cells], ..Frame::default() };
    assert_eq!(frame.row_width(0), 8);
    assert_eq!(frame.text(0), " hidden ");
}

#[test]
fn an_osc_terminated_by_bel_adds_no_cells() {
    let cells = parse_row("\x1b]0;title\x07x");
    assert_eq!(cells.len(), 1);
    assert_eq!(cells[0].glyph, Some('x'));
}

#[test]
fn underline_color_parameters_do_not_reset_the_cell_colors() {
    let cells = parse_row("\x1b[38;5;15m\x1b[48;5;4m\x1b[58;2;255;0;0mX");
    assert_eq!(cells[0].style.fg, Color::Indexed(15));
    assert_eq!(cells[0].style.bg, Color::Indexed(4));
    assert!(!cells[0].style.dim, "the underline-color RGB channels must not be read as SGR 2 (dim)");
}

#[test]
fn emoji_sequences_measure_two_cells_like_tmux() {
    for s in ["❤\u{FE0F}", "✔\u{FE0F}", "☀\u{FE0F}", "⚠\u{FE0F}", "👍\u{1F3FD}", "🧑\u{200D}💻"] {
        let cells = parse_row(s);
        assert_eq!(cells.len(), 2, "{s:?} measures two cells");
        assert!(cells[0].glyph.is_some() && cells[1].wide_tail, "{s:?} is one glyph and its wide tail");
    }
    assert_eq!(parse_row("❤").len(), 1, "without U+FE0F the heart stays one cell, as tmux draws it");
    assert_eq!(parse_row("日\u{FE0F}").len(), 2, "U+FE0F never widens a glyph that is already two cells");
    assert_eq!(parse_row("a\u{200D}b c").len(), 3, "the character after U+200D takes no cell");
}

#[test]
fn a_row_counts_one_wide_glyph_per_two_cell_cluster() {
    let frame = Frame { rows: vec![parse_row("❤\u{FE0F} 🚀 日 ok")], ..Frame::default() };
    assert_eq!(frame.wide_count(0), 3);
    assert_eq!(frame.wide_count(1), 0, "a missing row holds none");
}

// ─── More cases ─────────────────────────────────────────────────────────────

#[test]
fn a_trailing_newline_adds_no_row() {
    assert_eq!(parse_rows("a\nb\n").len(), parse_rows("a\nb").len());
    assert_eq!(parse_rows("").len(), 0);
    assert_eq!(parse_rows("\n").len(), 1, "one empty row, then nothing after the final newline");
}

#[test]
fn the_style_carried_out_of_a_row_is_the_next_rows_start() {
    let mut style = Style::default();
    let first = impeccable_terminal::capture::parse_row("\x1b[1mA", &mut style);
    assert!(first[0].style.bold);
    assert!(style.bold, "the style after a row is passed on");
    let second = impeccable_terminal::capture::parse_row("B", &mut style);
    assert!(second[0].style.bold);
}

#[test]
fn cells_with_a_missing_row_are_empty() {
    let frame = Frame { rows: vec![parse_row("ab")], ..Frame::default() };
    assert_eq!(frame.glyph(0, 1), Some('b'));
    assert_eq!(frame.glyph(0, 2), None);
    assert_eq!(frame.glyph(5, 0), None);
    assert_eq!(frame.row_width(3), 0);
    assert_eq!(frame.text(3), "");
    assert!(!frame.has_wide(3));
}

#[test]
fn a_blank_row_holds_only_whitespace() {
    let frame = Frame { rows: vec![parse_row("   "), parse_row(" x ")], ..Frame::default() };
    assert!(frame.is_blank(0));
    assert!(!frame.is_blank(1));
}

#[test]
fn a_header_names_every_field() {
    let frames = parse_frames("#!capture width=7 height=2 termfeatures=256,RGB colorterm=24bit role=capture\nx\n").unwrap();
    assert_eq!((frames[0].width, frames[0].height), (7, 2));
    assert_eq!(frames[0].termfeatures, "256,RGB");
    assert_eq!(frames[0].colorterm, "24bit");
    assert_eq!(frames[0].role, FrameRole::Capture);
    assert_eq!(parse_frames("#!capture height=x\n").unwrap_err(), "capture header: height \"x\" is not a number");
}

#[test]
fn zero_width_marks_take_no_cell() {
    let cells = parse_row("e\u{301}x");
    assert_eq!(cells.len(), 2);
    assert_eq!(cells[1].glyph, Some('x'));
}

#[test]
fn plain_ascii_is_one_cell_per_character_in_the_running_style() {
    let mut style = Style { fg: Color::Indexed(2), ..Style::default() };
    let cells = impeccable_terminal::capture::parse_row("ok: 12 ~ [a]", &mut style);
    assert_eq!(cells.len(), 12);
    for (cell, ch) in cells.iter().zip("ok: 12 ~ [a]".chars()) {
        assert_eq!(cell.glyph, Some(ch));
        assert!(!cell.wide_tail);
        assert_eq!(cell.style, Style { fg: Color::Indexed(2), ..Style::default() });
    }
    assert_eq!(style, Style { fg: Color::Indexed(2), ..Style::default() });
}

#[test]
fn control_characters_never_become_glyphs_and_escape_free_rows_keep_the_style() {
    let mut style = Style { bold: true, ..Style::default() };
    let cells = impeccable_terminal::capture::parse_row("a\u{7}b\tc\u{85}d\r", &mut style);
    let glyphs: String = cells.iter().filter_map(|c| c.glyph).collect();
    assert_eq!(glyphs, "abcd");
    assert_eq!(style, Style { bold: true, ..Style::default() });
}
