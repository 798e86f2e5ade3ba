use impeccable_terminal::capture::{parse_rows, Frame, FrameRole};
use impeccable_terminal::findings::{Extra, Finding};
use impeccable_terminal::palette::{Palette, Rgb};
use impeccable_terminal::rules::{
    find_boxes, mode_of, overflow_verdict, rt_collapse_narrow, rt_finding, rt_low_contrast, rt_nested_borders,
    rt_no_key_hints, rt_spinner_never_rests, rt_truecolor_on_256, rt_width_drift, scan_frames, text_color_pairs,
    ColorPair, Overflow,
};

fn frame(width: usize, rows: &[&str]) -> Frame {
    Frame { width, height: rows.len(), rows: parse_rows(&rows.join("\n")), ..Frame::default() }
}

fn ids(findings: &[Finding]) -> Vec<&str> {
    findings.iter().map(|f| f.antipattern.as_str()).collect()
}

fn extra<'a>(f: &'a Finding, key: &str) -> Option<&'a Extra> {
    f.extras.iter().find(|(k, _)| k == key).map(|(_, v)| v)
}

fn count(n: u128) -> Extra {
    Extra::Int(n)
}

fn text(s: &str) -> Extra {
    Extra::Text(s.to_string())
}

// WCAG 2 contrast, the ratio the ratings table is made from.
fn channel(c: u8) -> f64 {
    let s = c as f64 / 255.0;
    if s <= 0.03928 {
        s / 12.92
    } else {
        ((s + 0.055) / 1.055).powf(2.4)
    }
}

fn luminance(c: Rgb) -> f64 {
    0.2126 * channel(c.0) + 0.7152 * channel(c.1) + 0.0722 * channel(c.2)
}

fn contrast_ratio(a: Rgb, b: Rgb) -> f64 {
    let (x, y) = (luminance(a), luminance(b));
    let (hi, lo) = if x > y { (x, y) } else { (y, x) };
    (hi + 0.05) / (lo + 0.05)
}

fn ratings(f: &Frame, palette: Palette) -> Vec<(ColorPair, Option<u32>)> {
    text_color_pairs(f, palette)
        .into_iter()
        .map(|p| {
            let r = contrast_ratio(p.0, p.1);
            (p, if r >= 4.5 { None } else { Some((r * 10.0).floor() as u32) })
        })
        .collect()
}

fn low_contrast(f: &Frame, palette: Palette) -> Vec<Finding> {
    rt_low_contrast(f, palette, "x", &ratings(f, palette))
}

fn scan(frames: &[Frame], palette: Palette, file: &str) -> Vec<Finding> {
    let r = if frames.is_empty() { Vec::new() } else { ratings(&frames[0], palette) };
    scan_frames(frames, palette, file, &r)
}

const HINTS: &str = " q quit  ? help";

#[test]
fn gray_on_gray_text_is_low_contrast_and_borders_never_count() {
    let gray = "\x1b[38;2;120;120;120;48;2;100;100;100m";
    let f = frame(40, &["┌──────┐", &format!("│ {gray}faint\x1b[0m │"), &format!("{gray}└──────┘\x1b[0m"), HINTS]);
    let out = low_contrast(&f, Palette::Dark);
    assert_eq!(out.len(), 1, "{:?}", ids(&out));
    assert_eq!(out[0].line, 2);
    assert_eq!(extra(&out[0], "column"), Some(&count(3)));
    assert_eq!(extra(&out[0], "cellCount"), Some(&count(5)));
    assert_eq!(extra(&out[0], "frame"), Some(&text("40x4")));
    assert_eq!(out[0].snippet, "\"faint\" #787878 on #646464: 1.3:1 (need 4.5:1)");
}

#[test]
fn black_text_fails_on_the_dark_default_and_passes_on_light() {
    let f = frame(40, &["title", "\x1b[30mblack on default\x1b[0m", HINTS]);
    let dark = low_contrast(&f, Palette::Dark);
    assert_eq!(dark.len(), 1);
    assert_eq!(dark[0].snippet, "\"black on default\" #000000 on #000000: 1.0:1 (need 4.5:1)");
    assert!(low_contrast(&f, Palette::Light).is_empty());
}

#[test]
fn a_ratio_just_under_the_floor_never_prints_as_the_floor() {
    let gray = (100u8..140)
        .find(|&g| {
            let ratio = contrast_ratio((g, g, g), (255, 255, 255));
            (4.45..4.5).contains(&ratio)
        })
        .expect("a gray in 100..140 with a ratio between 4.45 and 4.5");
    let sgr = format!("\x1b[38;2;{gray};{gray};{gray};48;2;255;255;255m");
    let f = frame(40, &[&format!("{sgr}faint\x1b[0m"), HINTS]);
    let out = low_contrast(&f, Palette::Dark);
    assert_eq!(out.len(), 1, "{:?}", ids(&out));
    assert!(!out[0].snippet.contains("4.5:1 (need"), "{}", out[0].snippet);
}

#[test]
fn each_failing_pair_reports_once() {
    let f = frame(40, &["\x1b[30ma\x1b[0m \x1b[30mb\x1b[0m", "\x1b[30mc\x1b[0m", HINTS]);
    let out = low_contrast(&f, Palette::Dark);
    assert_eq!(out.len(), 1);
    assert_eq!(extra(&out[0], "cellCount"), Some(&count(3)));
}

#[test]
fn truecolor_fires_only_when_the_client_is_known_to_lack_rgb() {
    let mut f = frame(40, &["\x1b[38;2;200;100;50mwarm\x1b[0m", "body", HINTS]);
    assert!(rt_truecolor_on_256(&f, "x").is_empty(), "unknown client stays silent");
    f.termfeatures = "256".into();
    let out = rt_truecolor_on_256(&f, "x");
    assert_eq!(out.len(), 1);
    assert_eq!((out[0].line, extra(&out[0], "column")), (1, Some(&count(1))));
    assert_eq!(out[0].snippet, "truecolor SGR 38;2;200;100;50 while the client reports 256");
    f.termfeatures = "256,RGB".into();
    assert!(rt_truecolor_on_256(&f, "x").is_empty());
    f.termfeatures = "256".into();
    f.colorterm = "truecolor".into();
    assert!(rt_truecolor_on_256(&f, "x").is_empty(), "COLORTERM vouches for the outer terminal");
}

#[test]
fn bottom_row_without_a_key_is_flagged_and_hints_or_prompts_pass() {
    let bare = frame(40, &["┌──┐", "│ab│", "└──┘", "Loading complete."]);
    let out = rt_no_key_hints(&bare, "x");
    assert_eq!(out.len(), 1);
    assert_eq!(out[0].line, 4);
    assert_eq!(out[0].snippet, "bottom row \"Loading complete.\" names no key");
    for hints in [" q quit  ? help", "[Enter] open  <Esc> back", "^C exit", "j/k move", "Press F1 for help"] {
        assert!(rt_no_key_hints(&frame(40, &["┌──┐", "│ab│", hints]), "x").is_empty(), "{hints}");
    }
    assert!(rt_no_key_hints(&frame(40, &["$ ", "Loading complete."]), "x").is_empty(), "a prompt is not a screen");
    assert!(rt_no_key_hints(&frame(40, &["┌──┐", "│ab│", "└──┘", HINTS, "", ""]), "x").is_empty(), "trailing blank rows are skipped");
}

#[test]
fn spinner_cycling_across_the_recapture_is_flagged_once() {
    let a = frame(40, &["working ⠋  ⠙", "│ x │", HINTS]);
    let mut b = frame(40, &["working ⠙  ⠹", "│ x │", HINTS]);
    b.role = FrameRole::Recapture;
    let out = rt_spinner_never_rests(&a, &b, "x");
    assert_eq!(out.len(), 1, "one finding per pair, at the first cycling cell");
    assert_eq!((out[0].line, extra(&out[0], "column")), (1, Some(&count(9))));
    assert_eq!(out[0].snippet, "spinner glyph ⠋ became ⠙ after one second with no input");
    assert!(rt_spinner_never_rests(&a, &a, "x").is_empty(), "a resting glyph is fine");
    let c = frame(40, &["working ✓  ✓", "│ x │", HINTS]);
    assert!(rt_spinner_never_rests(&a, &c, "x").is_empty(), "a spinner that resolved is fine");
}

#[test]
fn box_directly_inside_a_box_is_flagged_and_content_between_is_not() {
    let nested = frame(40, &["┌──────────┐", "│┌────────┐│", "││ inner  ││", "│└────────┘│", "└──────────┘", HINTS]);
    let out = rt_nested_borders(&nested, "x");
    assert_eq!(out.len(), 1, "{:?}", ids(&out));
    assert_eq!((out[0].line, extra(&out[0], "column")), (2, Some(&count(2))));
    assert_eq!(out[0].snippet, "10x3 box drawn directly inside a 12x5 box");
    let spaced = frame(40, &["┌ Title ────┐", "│ label     │", "│ ┌───────┐ │", "│ │ inner │ │", "│ └───────┘ │", "└───────────┘", HINTS]);
    assert!(rt_nested_borders(&spaced, "x").is_empty(), "text between the borders is content");
    let siblings = frame(40, &["┌──┐ ┌──┐", "│a │ │b │", "└──┘ └──┘", HINTS]);
    assert!(rt_nested_borders(&siblings, "x").is_empty());
    assert_eq!(find_boxes(&siblings).len(), 2);
    let split = frame(40, &["┌────┬────┐", "│ a  │ b  │", "└────┴────┘", HINTS]);
    assert_eq!(find_boxes(&split).len(), 1, "a divider with tees is one box");
}

#[test]
fn emoji_row_wider_than_the_pane_is_width_drift_and_a_shifted_border_too() {
    let f = frame(12, &["┌──────────┐", "│ plain    │", "│ 🚀 launch │", "│ 日本 tok│", "└──────────┘", HINTS]);
    let out = rt_width_drift(&f, "x");
    assert_eq!(ids(&out), vec!["tui-rt-width-drift", "tui-rt-width-drift"]);
    assert_eq!((out[0].line, extra(&out[0], "column")), (3, Some(&count(13))));
    assert_eq!(out[0].snippet, "row measures 13 cells on a 12-column pane");
    assert_eq!((out[1].line, extra(&out[1], "column")), (4, Some(&count(11))));
    assert_eq!(out[1].snippet, "border ends at column 11 while other rows end at 12");
}

#[test]
fn ascii_rows_never_trip_width_drift() {
    let f = frame(12, &["┌──────────┐", "│ plain    │", "│ overflow row │", "└──────────┘", HINTS]);
    assert!(rt_width_drift(&f, "x").is_empty());
}

#[test]
fn narrow_frame_overflow_lost_corner_and_split_word_are_collapse() {
    let top = format!("┌{}┐", "─".repeat(48));
    let f = frame(40, &[&top, "┌────────", "Processing the selected directory record", "s to the index", "q quit"]);
    let out = rt_collapse_narrow(&f, "x");
    assert_eq!(ids(&out), vec!["tui-rt-collapse-narrow"; 3]);
    assert_eq!(out[0].snippet, "row overflows the 40-column pane by 10 cells");
    assert_eq!(out[1].snippet, "border loses its right corner");
    assert_eq!(out[2].snippet, "word split at the pane edge: \"tory record\"");
    assert_eq!(out[2].line, 3);
}

#[test]
fn geometry_rules_skip_the_recapture_and_size_rules_read_the_first_frame() {
    let first = frame(40, &["┌──┐", "│ab│", "└──┘", HINTS]);
    let mut recap = frame(40, &["┌────┐", "│┌──┐│", "││ab││", "│└──┘│", "└────┘", HINTS]);
    recap.role = FrameRole::Recapture;
    let narrow = frame(20, &["┌──────────────────────┐", "text", HINTS]);
    let out = scan(&[first, recap, narrow], Palette::Dark, "tmux:app:0.0");
    let found = ids(&out);
    assert!(!found.contains(&"tui-rt-nested-borders"), "the recapture is never scanned for geometry: {found:?}");
    assert!(found.contains(&"tui-rt-collapse-narrow"), "{found:?}");
    assert!(
        out.iter().filter(|f| f.antipattern == "tui-rt-collapse-narrow").all(|f| extra(f, "frame") == Some(&text("20x3"))),
        "collapse only on the narrow frame"
    );
    assert!(out.iter().all(|f| f.advisory == Some(true) && f.file == "tmux:app:0.0"));
    let wide = frame(80, &["┌──────────────────────────────────────────────────────────────────────────────────────┐", "text", HINTS]);
    assert!(!ids(&scan(&[wide], Palette::Dark, "x")).contains(&"tui-rt-collapse-narrow"), "80 columns is not narrow");
}

const PROSE: &str = "The quick brown fox jumps over the lazy dog while the index rebuilds in the background.";

#[test]
fn joined_prose_row_under_sixty_columns_reports_nothing() {
    let top = format!("┌{}┐", "─".repeat(38));
    let bottom = format!("└{}┘", "─".repeat(38));
    let f = frame(40, &[&top, &bottom, PROSE, HINTS]);
    assert_eq!(overflow_verdict(&f, 2), Overflow::Wrapped);
    assert!(rt_collapse_narrow(&f, "x").is_empty(), "a row -J joined is the terminal's wrap");
    assert!(rt_width_drift(&f, "x").is_empty());
}

#[test]
fn emoji_overflow_under_sixty_columns_is_width_drift_only() {
    let top = format!("┌{}┐", "─".repeat(38));
    let rocket = format!("│ 🚀 launch{}│", " ".repeat(29));
    let bottom = format!("└{}┘", "─".repeat(38));
    let f = frame(40, &[&top, &rocket, &bottom, HINTS]);
    assert_eq!(f.row_width(1), 41);
    assert_eq!(overflow_verdict(&f, 1), Overflow::WidthDrift);
    let out = scan(&[f], Palette::Dark, "x");
    assert_eq!(ids(&out), vec!["tui-rt-width-drift"], "one verdict per row: no collapse beside the drift");
    assert_eq!(out[0].snippet, "row measures 41 cells on a 40-column pane");
}

#[test]
fn heart_with_emoji_presentation_counts_as_one_wide_glyph() {
    let one_over = frame(40, &[&format!("│ ❤\u{FE0F} ok{}│", " ".repeat(33))]);
    assert_eq!((one_over.row_width(0), one_over.wide_count(0)), (41, 1));
    assert_eq!(overflow_verdict(&one_over, 0), Overflow::WidthDrift);
    let two_over = frame(40, &[&format!("│ ❤\u{FE0F} ok{}│", " ".repeat(34))]);
    assert_eq!(overflow_verdict(&two_over, 0), Overflow::Collapse, "42 cells with one wide glyph is more than drift");
}

#[test]
fn boxed_overflow_under_sixty_columns_is_collapse_only() {
    let f = frame(40, &[&format!("┌{}┐", "─".repeat(48)), HINTS]);
    assert_eq!(overflow_verdict(&f, 0), Overflow::Collapse);
    assert_eq!(ids(&rt_collapse_narrow(&f, "x")), vec!["tui-rt-collapse-narrow"]);
    assert!(rt_width_drift(&f, "x").is_empty());
}

#[test]
fn overflow_past_the_wide_glyph_count_at_sixty_columns_or_more_reports_nothing() {
    let f = frame(80, &[&format!("│ 🚀 {}", "word ".repeat(20)), HINTS]);
    assert_eq!(overflow_verdict(&f, 0), Overflow::Wrapped);
    assert!(rt_width_drift(&f, "x").is_empty());
    assert_eq!(overflow_verdict(&f, 1), Overflow::Fits);
}

#[test]
fn a_key_on_the_first_row_or_a_pager_prompt_at_the_bottom_silences_key_hints() {
    let help_on_top = frame(80, &["q quit  / search  ? help", "NAME        SIZE", "a.txt       12K", "b.txt       40K"]);
    assert!(rt_no_key_hints(&help_on_top, "x").is_empty(), "a screen whose first row names the keys");
    for prompt in [":", ":                    ", "(END)", "--More--(42%)", "lines 1-24/200 12%", "README.md lines 25-48"] {
        let pager = frame(80, &["NAME", "     less - opposite of more", "DESCRIPTION", prompt]);
        assert!(rt_no_key_hints(&pager, "x").is_empty(), "pager prompt {prompt:?}");
    }
    let top = frame(100, &[
        "Processes: 714 total, 2 running, 712 sleeping, 4442 threads                                14:22:30",
        "Load Avg: 4.94, 5.73, 7.70  CPU usage: 13.12% user, 22.89% sys, 63.98% idle",
        "87568  installd     0.0  00:00.21 2     1    59    1216K 0B    0B    87568 1     sleeping",
    ]);
    assert_eq!(rt_no_key_hints(&top, "x").len(), 1, "top names no key on its first row, so it still fires");
    let colon_inside = frame(80, &["NAME", "     less - opposite of more", "DESCRIPTION", "Status: idle"]);
    assert_eq!(rt_no_key_hints(&colon_inside, "x").len(), 1, "a colon inside text is not a prompt");
    let guidelines = frame(80, &["NAME", "     less - opposite of more", "DESCRIPTION", "Guidelines 1-5 apply"]);
    assert_eq!(rt_no_key_hints(&guidelines, "x").len(), 1, "\"lines\" inside another word is not a pager prompt");
    let readme_lines = frame(80, &["NAME", "     less - opposite of more", "DESCRIPTION", "README.md lines 25-48"]);
    assert!(rt_no_key_hints(&readme_lines, "x").is_empty(), "a real lines prompt still silences");
}

#[test]
fn a_ratio_over_theme_colors_is_marked_palette_relative() {
    let f = frame(40, &[
        "\x1b[38;2;120;120;120;48;2;100;100;100mfaint\x1b[0m",
        "\x1b[30mblack on default\x1b[0m",
        "\x1b[38;5;236;48;5;235mdim cube\x1b[0m",
        HINTS,
    ]);
    let out = low_contrast(&f, Palette::Dark);
    assert_eq!(out.len(), 3, "{:?}", out.iter().map(|x| &x.snippet).collect::<Vec<_>>());
    assert_eq!(extra(&out[0], "paletteRelative"), Some(&Extra::Bool(false)), "truecolor on truecolor is the same on every theme");
    assert_eq!(extra(&out[1], "paletteRelative"), Some(&Extra::Bool(true)), "named black on the default background comes from the theme");
    assert_eq!(extra(&out[2], "paletteRelative"), Some(&Extra::Bool(false)), "the 256-color cube and grays are fixed");
    let keys: Vec<&str> = out[0].extras.iter().map(|(k, _)| k.as_str()).collect();
    assert_eq!(keys, vec!["column", "frame", "cellCount", "paletteRelative"], "the new extra comes last");
}

// ─── More cases ─────────────────────────────────────────────────────────────

#[test]
fn a_finding_at_a_cell_is_one_based_with_the_frame_size() {
    let f = frame(30, &["a", "b"]);
    let x = rt_finding("tui-rt-test", "file.cap", &f, 4, 6, &"snip".chars().collect::<Vec<_>>());
    assert_eq!(x.line, 5);
    assert_eq!(extra(&x, "column"), Some(&count(7)));
    assert_eq!(extra(&x, "frame"), Some(&text("30x2")));
    assert_eq!(x.snippet, "snip");
    assert_eq!(x.severity, "advisory");
    assert_eq!(x.advisory, None);
}

#[test]
fn the_usual_border_end_needs_two_rows_and_ties_go_larger() {
    assert_eq!(mode_of(&vec![]), None);
    assert_eq!(mode_of(&vec![3]), None, "one row agrees with nobody");
    assert_eq!(mode_of(&vec![3, 5]), None);
    assert_eq!(mode_of(&vec![3, 5, 3]), Some(3));
    assert_eq!(mode_of(&vec![3, 5, 5, 3]), Some(5), "a tie goes to the larger");
    assert_eq!(mode_of(&vec![9, 2, 2, 2, 9]), Some(2));
}

#[test]
fn text_pairs_are_distinct_and_skip_borders() {
    let f = frame(20, &["\x1b[30mab\x1b[0m cd", "┌──┐ ef"]);
    let pairs = text_color_pairs(&f, Palette::Dark);
    assert_eq!(pairs, vec![((0, 0, 0), (0, 0, 0)), ((255, 255, 255), (0, 0, 0))]);
}

#[test]
fn a_pair_missing_from_the_ratings_passes() {
    let f = frame(40, &["\x1b[30mblack\x1b[0m", HINTS]);
    assert!(rt_low_contrast(&f, Palette::Dark, "x", &[]).is_empty());
    let r = vec![(((0, 0, 0), (0, 0, 0)), Some(10))];
    let out = rt_low_contrast(&f, Palette::Dark, "x", &r);
    assert_eq!(out[0].snippet, "\"black\" #000000 on #000000: 1.0:1 (need 4.5:1)");
}

#[test]
fn a_background_truecolor_is_reported_with_its_own_sgr() {
    let mut f = frame(40, &["plain", "\x1b[48;2;1;2;3mbg\x1b[0m"]);
    f.termfeatures = "256, rgb ".into();
    assert!(rt_truecolor_on_256(&f, "x").is_empty(), "rgb in any case, trimmed");
    f.termfeatures = "256".into();
    let out = rt_truecolor_on_256(&f, "x");
    assert_eq!(out[0].snippet, "truecolor SGR 48;2;1;2;3 while the client reports 256");
    assert_eq!(out[0].line, 2);
}

#[test]
fn an_empty_capture_scans_to_nothing() {
    assert!(scan(&[], Palette::Dark, "x").is_empty());
}
