use impeccable_terminal::findings::{Extra, Finding};
use impeccable_terminal::source_rules::{
    classify_terminal_source, scan_terminal_source, strip_c_comments, strip_python_comments, ProjectSignals, Stack,
    ADAPTIVE_PRESENT_NOTE, SIGNALS_NOTE, TERMINAL_EXTENSIONS,
};

fn extra<'a>(f: &'a Finding, key: &str) -> Option<&'a Extra> {
    f.extras.iter().find(|(k, _)| k == key).map(|(_, v)| v)
}

#[test]
fn framework_detection_follows_the_spec_table() {
    assert_eq!(classify_terminal_source(".rs", "use ratatui::prelude::*;"), Some(Stack::Ratatui));
    assert_eq!(classify_terminal_source(".rs", "use crossterm::event;"), Some(Stack::Ratatui));
    assert_eq!(classify_terminal_source(".go", "import tea \"github.com/charmbracelet/bubbletea\""), Some(Stack::Charm));
    assert_eq!(classify_terminal_source(".py", "from textual.app import App"), Some(Stack::Textual));
    assert_eq!(classify_terminal_source(".py", "import rich\n"), Some(Stack::Textual));
    assert_eq!(classify_terminal_source(".tcss", "Screen { }"), Some(Stack::TextualCss));
    assert_eq!(classify_terminal_source(".tsx", "import { Box } from 'ink';"), Some(Stack::Ink));
    assert_eq!(classify_terminal_source(".js", "const { render } = require(\"ink\");"), Some(Stack::Ink));
    assert_eq!(classify_terminal_source(".tsx", "import Spinner from 'ink-spinner';"), Some(Stack::Ink));
}

#[test]
fn bevy_game_and_django_backend_are_not_terminal_source() {
    assert_eq!(classify_terminal_source(".rs", "use bevy::prelude::*; let c = Color::Rgb(1,2,3);"), None);
    assert_eq!(classify_terminal_source(".py", "from django.db import models\nprint('x')"), None);
    assert_eq!(classify_terminal_source(".py", "enrich = richness(3)"), None, "rich as a substring is not an import");
    assert_eq!(classify_terminal_source(".go", "package main\nimport \"fmt\""), None);
    assert_eq!(classify_terminal_source(".tsx", "import React from 'react'; // ink is a word"), None);
    assert_eq!(classify_terminal_source(".html", "<b>ratatui</b>"), None);
}

#[test]
fn project_signals_fold_across_files() {
    let s = ProjectSignals::collect(&["fn main() {}", "if std::io::stdout().is_terminal() {}", "use unicode_width::UnicodeWidthStr;"]);
    assert!(s.has_tty_guard);
    assert!(s.has_width_lib);
    assert!(!s.has_adaptive_color);
    assert!(!s.has_icon_toggle);
    assert!(!s.has_plain_flag);
    let s = ProjectSignals::collect(&["if os.environ.get(\"CI\"): quiet()", "style = lipgloss.AdaptiveColor{}", "flags.Bool(\"no-icons\", ...)  // --no-icons", "--json"]);
    assert!(s.has_tty_guard && s.has_adaptive_color && s.has_icon_toggle && s.has_plain_flag);
}

#[test]
fn c_comment_blanking_keeps_lines_and_strings() {
    let src = "let url = \"http://x\"; // Color::Rgb(1,2,3)\n/* BorderType::Double\n   spans */ let c = '/';\nlet ok = 1;\n";
    let out = strip_c_comments(src);
    assert_eq!(out.matches('\n').count(), src.matches('\n').count());
    assert!(out.contains("\"http://x\""));
    assert!(out.contains("'/'"));
    assert!(!out.contains("Color::Rgb"));
    assert!(!out.contains("BorderType::Double"));
    assert!(out.contains("let ok = 1;"));
    let go = "s := `raw // not a comment`\n// real\n";
    assert!(strip_c_comments(go).contains("raw // not a comment"));
    assert!(!strip_c_comments(go).contains("real"));
    let lifetime = "fn f<'a>(s: &'a str) -> &'a str { s } // BorderType::Double\n";
    assert!(!strip_c_comments(lifetime).contains("BorderType::Double"), "a lifetime tick is not a char literal");
}

#[test]
fn python_blanking_keeps_the_css_block_but_drops_docstrings_and_hashes() {
    let src = "class A(App):\n    \"\"\"A [blink] docstring.\"\"\"\n    CSS = \"\"\"\n    Screen { border: double; }\n    \"\"\"\n    x = 1  # text-style: blink\n    y = \"# not a comment\"\n";
    let out = strip_python_comments(src);
    assert_eq!(out.matches('\n').count(), src.matches('\n').count());
    assert!(!out.contains("[blink] docstring"));
    assert!(out.contains("border: double"));
    assert!(!out.contains("text-style: blink"));
    assert!(out.contains("\"# not a comment\""));
}

fn ids(findings: &[Finding]) -> Vec<&str> {
    findings.iter().map(|f| f.antipattern.as_str()).collect()
}
fn scan(src: &str, stack: Stack, signals: Option<&ProjectSignals>) -> Vec<Finding> {
    scan_terminal_source(src, "app.rs", stack, signals)
}
const ALL: ProjectSignals = ProjectSignals {
    has_tty_guard: true,
    has_adaptive_color: true,
    has_width_lib: true,
    has_icon_toggle: true,
    has_plain_flag: true,
};
const NONE: ProjectSignals = ProjectSignals {
    has_tty_guard: false,
    has_adaptive_color: false,
    has_width_lib: false,
    has_icon_toggle: false,
    has_plain_flag: false,
};

#[test]
fn figlet_import_and_hand_drawn_banner_are_flagged() {
    let src = "use figlet_rs::FIGfont;\nlet a = \"███╗   ███╗\";\nlet b = \"████╗ ████║\";\nlet c = \"██╔████╔██║\";\nlet d = \"██║╚██╔╝██║\";\nlet e = 1;\n";
    let f = scan(src, Stack::Ratatui, Some(&ALL));
    let lines: Vec<usize> = f.iter().filter(|f| f.antipattern == "tui-figlet-banner").map(|f| f.line).collect();
    assert_eq!(lines, vec![1, 2], "{f:?}");
    assert_eq!(extra(&f[1], "bannerLines"), Some(&Extra::Int(4)));
}

#[test]
fn one_box_drawing_line_is_not_a_banner() {
    let src = "let top = \"╔══════╗\";\nlet mid = \"║ text ║\";\nlet ok = render();\n";
    assert!(ids(&scan(src, Stack::Ratatui, Some(&ALL))).is_empty());
}

#[test]
fn gradient_title_is_flagged_and_blend_needs_title_context() {
    let src = "import Gradient from 'ink-gradient';\nconst t = <Gradient name=\"rainbow\">Hi</Gradient>;\n";
    assert_eq!(ids(&scan(src, Stack::Ink, Some(&ALL))), vec!["tui-gradient-title", "tui-gradient-title"]);
    let go = "title := lipgloss.NewStyle().Foreground(lipgloss.Blend1D(0.5, a, b))\nbar := lipgloss.Blend1D(0.2, a, b)\nheaderStyle := lipgloss.NewStyle().\n\tForeground(lipgloss.Blend1D(0.5, a, b))\n";
    let f = scan(go, Stack::Charm, Some(&ALL));
    let lines: Vec<usize> = f.iter().map(|f| f.line).collect();
    assert_eq!(ids(&f), vec!["tui-gradient-title", "tui-gradient-title"]);
    assert_eq!(lines, vec![1, 4], "line 2 follows a title but is its own statement");
    assert_eq!(ids(&scan("use tui_gradient::gradient;\n", Stack::Ratatui, Some(&ALL))), vec!["tui-gradient-title"]);
}

#[test]
fn blink_is_flagged_in_every_stack_spelling() {
    for (src, stack) in [
        ("Style::default().add_modifier(Modifier::SLOW_BLINK)", Stack::Ratatui),
        ("lipgloss.NewStyle().Blink(true)", Stack::Charm),
        ("console.print(\"[blink]go[/blink]\")", Stack::Textual),
        ("Label { text-style: bold blink; }", Stack::TextualCss),
        ("process.stdout.write(\"\\x1b[5mHi\")", Stack::Ink),
    ] {
        assert_eq!(ids(&scan(src, stack, Some(&ALL))), vec!["tui-blink-attribute"], "{src}");
    }
    assert!(scan("Label { text-style: bold; }", Stack::TextualCss, Some(&ALL)).is_empty());
}

#[test]
fn emoji_density_reports_once_per_file_with_a_count() {
    let many = "let s = [\"🚀\", \"✅\", \"❌\", \"🎉\", \"📦\", \"🔧\", \"🔥\", \"💡\", \"✨\"];\nlet t = 1;\n";
    let f = scan(many, Stack::Ratatui, Some(&ALL));
    assert_eq!(ids(&f), vec!["tui-emoji-density"]);
    assert_eq!(extra(&f[0], "emojiCount"), Some(&Extra::Int(9)));
    let canonical = "print(\"🚀 start\")\nprint(\"✅ done\")\nprint(\"❌ fail\")\n";
    assert_eq!(ids(&scan(canonical, Stack::Textual, Some(&ALL))), vec!["tui-emoji-density"]);
    let few = "print(\"🚀 start\")\nprint(\"done\")\n";
    assert!(scan(few, Stack::Textual, Some(&ALL)).is_empty());
}

#[test]
fn double_border_is_flagged_and_single_border_passes() {
    for (src, stack) in [
        ("Block::default().border_type(BorderType::Double)", Stack::Ratatui),
        ("lipgloss.NewStyle().Border(lipgloss.DoubleBorder())", Stack::Charm),
        ("Panel(x, box=box.DOUBLE)", Stack::Textual),
        ("#main { border: double $accent; }", Stack::TextualCss),
        ("<Box borderStyle=\"double\">", Stack::Ink),
    ] {
        assert_eq!(ids(&scan(src, stack, Some(&ALL))), vec!["tui-double-border"], "{src}");
    }
    assert!(scan("Block::default().border_type(BorderType::Rounded)", Stack::Ratatui, Some(&ALL)).is_empty());
    assert!(scan("#main { border: round $accent; }", Stack::TextualCss, Some(&ALL)).is_empty());
}

#[test]
fn hardcoded_truecolor_reports_plainly_without_adaptation_and_with_a_note_otherwise() {
    let src = "let c = Color::Rgb(255, 0, 128);\n";
    let plain = scan(src, Stack::Ratatui, Some(&NONE));
    assert_eq!(ids(&plain), vec!["tui-hardcoded-rgb-no-adapt"]);
    assert!(extra(&plain[0], "note").is_none());
    let adapted = scan(src, Stack::Ratatui, Some(&ALL));
    assert_eq!(extra(&adapted[0], "note"), Some(&Extra::Text(ADAPTIVE_PRESENT_NOTE.into())));
    let single = scan(src, Stack::Ratatui, None);
    assert_eq!(extra(&single[0], "note"), Some(&Extra::Text(SIGNALS_NOTE.into())));
    assert!(scan("#main { color: #ff0080; }", Stack::TextualCss, Some(&NONE)).is_empty(), "tcss is excluded");
    for (s, stack) in [
        ("lipgloss.Color(\"#ff0080\")", Stack::Charm),
        ("console.print(\"[#ff0080]x[/]\")", Stack::Textual),
        ("<Text color=\"#ff0080\">x</Text>", Stack::Ink),
    ] {
        assert_eq!(ids(&scan(s, stack, Some(&NONE))), vec!["tui-hardcoded-rgb-no-adapt"], "{s}");
    }
    assert!(scan("let c = Color::Red;", Stack::Ratatui, Some(&NONE)).is_empty());
}

#[test]
fn spinner_without_tty_guard_is_flagged_and_a_guard_silences_it() {
    let src = "import Spinner from 'ink-spinner';\n";
    assert_eq!(ids(&scan(src, Stack::Ink, Some(&NONE))), vec!["tui-spinner-no-tty-guard"]);
    assert!(scan(src, Stack::Ink, Some(&ALL)).is_empty());
    assert!(scan("s := spinner.New()\n", Stack::Charm, Some(&NONE)).is_empty(), "the import path is what counts");
    assert_eq!(ids(&scan("import \"github.com/charmbracelet/bubbles/spinner\"\n", Stack::Charm, Some(&NONE))), vec!["tui-spinner-no-tty-guard"]);
}

#[test]
fn hardcoded_terminal_size_is_flagged_outside_test_paths() {
    let src = "let area = Rect::new(0, 0, 80, 24);\nlet width = 80;\nlet rows = 24;\nlet w = term.Width(80)\n";
    let f = scan_terminal_source(src, "src/ui.rs", Stack::Ratatui, Some(&ALL));
    assert_eq!(ids(&f), vec!["tui-hardcoded-size"; 4]);
    assert!(scan_terminal_source(src, "tests/ui_test.rs", Stack::Ratatui, Some(&ALL)).is_empty());
    assert!(scan_terminal_source(src, "src/ui_test.rs", Stack::Ratatui, Some(&ALL)).is_empty());
    assert_eq!(scan_terminal_source(src, "tests/fixtures/antipatterns/terminal/x/x.rs", Stack::Ratatui, Some(&ALL)).len(), 4, "a fixture tree under tests/ still scans");
    assert!(scan("let width = 800;\nlet rows = 240;\n", Stack::Ratatui, Some(&ALL)).is_empty());
}

#[test]
fn all_length_layout_is_flagged_once_and_a_flexible_constraint_passes() {
    let rigid = "Layout::vertical([\n    Constraint::Length(3),\n    Constraint::Length(10),\n    Constraint::Length(1),\n])\n";
    let f = scan(rigid, Stack::Ratatui, Some(&ALL));
    assert_eq!(ids(&f), vec!["tui-hardcoded-size"]);
    assert_eq!(f[0].line, 2);
    assert_eq!(extra(&f[0], "lengthConstraints"), Some(&Extra::Int(3)));
    let flexible = "Layout::vertical([\n    Constraint::Length(3),\n    Constraint::Min(0),\n    Constraint::Length(1),\n])\n";
    assert!(scan(flexible, Stack::Ratatui, Some(&ALL)).is_empty());
}

#[test]
fn two_length_constraints_on_one_line_still_count_as_two() {
    let src = "fn rigid() -> Layout { Layout::vertical([Constraint::Length(3), Constraint::Length(10)]) }\n";
    let f = scan(src, Stack::Ratatui, Some(&ALL));
    assert_eq!(ids(&f), vec!["tui-hardcoded-size"]);
    assert_eq!(f[0].line, 1);
    assert_eq!(extra(&f[0], "lengthConstraints"), Some(&Extra::Int(2)));
}

#[test]
fn truncation_before_an_ellipsis_is_flagged_without_a_width_library() {
    for (src, stack) in [
        ("let short = format!(\"{}...\", &title[..20]);\n", Stack::Ratatui),
        ("let s = title.chars().take(20).collect::<String>();\nlet t = format!(\"{s}…\");\n", Stack::Ratatui),
        ("short := title[:20] + \"...\"\n", Stack::Charm),
        ("const short = title.slice(0, 20) + '...';\n", Stack::Ink),
    ] {
        assert_eq!(ids(&scan(src, stack, Some(&NONE))), vec!["tui-grapheme-unsafe-truncate"], "{src}");
        assert!(scan(src, stack, Some(&ALL)).is_empty(), "a width library silences it: {src}");
    }
    assert!(scan("let head = &buf[..4];\n", Stack::Ratatui, Some(&NONE)).is_empty(), "no ellipsis, no truncation for display");
    assert!(scan("short = title[:20] + '...'\n", Stack::Textual, Some(&NONE)).is_empty(), "Rich and Textual measure for the caller");
}

#[test]
fn nerd_glyph_without_an_icon_toggle_reports_once() {
    let src = "const ICON = \"\u{e0a0}\";\nconst FOLDER = \"\u{f07b}\";\n";
    let f = scan(src, Stack::Ink, Some(&NONE));
    assert_eq!(ids(&f), vec!["tui-nerd-glyph-no-fallback"]);
    assert_eq!(f[0].line, 1);
    assert_eq!(extra(&f[0], "glyphCount"), Some(&Extra::Int(2)));
    assert!(scan(src, Stack::Ink, Some(&ALL)).is_empty());
}

#[test]
fn print_inside_a_textual_widget_is_flagged_but_workers_and_module_level_pass() {
    let src = "from textual.app import App\nprint(\"module level is fine\")\n\nclass Demo(App):\n    def on_mount(self) -> None:\n        print(\"corrupts the frame\")\n        self.log(\"fine\")\n\n    @work(thread=True)\n    def fetch(self) -> None:\n        print(\"worker output is allowed\")\n\ndef helper():\n    print(\"outside the class\")\n";
    let f = scan(src, Stack::Textual, Some(&ALL));
    assert_eq!(ids(&f), vec!["tui-print-in-loop"]);
    assert_eq!(f[0].line, 6);
}

#[test]
fn console_log_in_an_ink_component_is_flagged_unless_patch_console_is_used() {
    let src = "import { Box } from 'ink';\nconsole.log('debug');\n";
    assert_eq!(ids(&scan(src, Stack::Ink, Some(&ALL))), vec!["tui-print-in-loop"]);
    let patched = "import { Box } from 'ink';\nimport patchConsole from 'patch-console';\nconsole.log('debug');\n";
    assert!(scan(patched, Stack::Ink, Some(&ALL)).is_empty());
}

#[test]
fn single_file_scan_downgrades_absence_rules() {
    let src = "import Spinner from 'ink-spinner';\nconst c = <Text color=\"#ff0080\">{title.slice(0, 8) + '...'}</Text>;\nconst i = \"\u{e0a0}\";\n";
    let f = scan(src, Stack::Ink, None);
    let noted: Vec<&str> = f.iter().filter(|f| extra(f, "note") == Some(&Extra::Text(SIGNALS_NOTE.into()))).map(|f| f.antipattern.as_str()).collect();
    for id in ["tui-spinner-no-tty-guard", "tui-hardcoded-rgb-no-adapt", "tui-grapheme-unsafe-truncate", "tui-nerd-glyph-no-fallback"] {
        assert!(noted.contains(&id), "{id} should carry the note: {f:?}");
    }
    for f in &f {
        assert_eq!(f.severity, "advisory", "{}", f.antipattern);
    }
}

#[test]
fn non_worker_decorator_does_not_exempt_print() {
    let src = "from textual.app import App\n\nclass Demo(App):\n    @network_retry\n    def on_mount(self) -> None:\n        print(\"x\")\n";
    let f = scan(src, Stack::Textual, Some(&ALL));
    assert_eq!(ids(&f), vec!["tui-print-in-loop"]);
    assert_eq!(f[0].line, 6);
}

#[test]
fn print_after_a_nested_helper_is_still_flagged() {
    let src = "from textual.app import App\n\nclass Demo(App):\n    def on_mount(self) -> None:\n        def inner() -> None:\n            print(\"nested\")\n        print(\"outer\")\n";
    let f = scan(src, Stack::Textual, Some(&ALL));
    assert_eq!(ids(&f), vec!["tui-print-in-loop", "tui-print-in-loop"]);
    let lines: Vec<usize> = f.iter().map(|f| f.line).collect();
    assert_eq!(lines, vec![6, 7]);
}

#[test]
fn go_variadic_and_js_spread_are_not_ellipses() {
    assert!(scan("ids := list[:5]\nres := append(dst, more...)\n", Stack::Charm, Some(&NONE)).is_empty());
    assert!(scan("const a = title.slice(0, 5);\nconst b = {...config};\n", Stack::Ink, Some(&NONE)).is_empty());
}

// ─── More cases ─────────────────────────────────────────────────────────────

#[test]
fn the_terminal_extensions_are_the_four_stacks_files() {
    assert_eq!(TERMINAL_EXTENSIONS, [".rs", ".go", ".py", ".tcss"]);
    assert_eq!(classify_terminal_source(".mjs", "import { render } from \"ink\";"), Some(Stack::Ink));
    assert_eq!(classify_terminal_source(".cjs", "require( 'ink-text-input')"), Some(Stack::Ink));
    assert_eq!(classify_terminal_source(".py", "   from rich.console import Console"), Some(Stack::Textual));
}

#[test]
fn blanking_keeps_every_newline_and_the_length() {
    let src = "a /* x\ny */ b // c\n\"s // t\" '\\n' 'a\n";
    let out = strip_c_comments(src);
    assert_eq!(out.chars().count(), src.chars().count());
    for (a, b) in src.chars().zip(out.chars()) {
        assert!(a == b || (b == ' ' && a != '\n'), "{a:?} became {b:?}");
    }
    assert_eq!(out, "a     \n     b     \n\"s // t\" '\\n' 'a\n");
    let py = "x = 1 # c\ndef f():\n    r\"\"\"doc\n    string\"\"\"\n    s = 'a\\'b' # d\n";
    let out = strip_python_comments(py);
    assert_eq!(out.chars().count(), py.chars().count());
    assert_eq!(out, "x = 1    \ndef f():\n    r\"\"\"   \n          \"\"\"\n    s = 'a\\'b'    \n");
}

#[test]
fn an_unterminated_block_comment_blanks_to_the_end() {
    assert_eq!(strip_c_comments("a /* b\nc"), "a     \n ");
    assert_eq!(strip_c_comments("\"open // string"), "\"open // string");
}

#[test]
fn signals_start_empty_and_fold_one_text_at_a_time() {
    let mut s = ProjectSignals::default();
    assert_eq!(s, NONE);
    s.absorb("grapheme clusters");
    assert!(s.has_width_lib && !s.has_tty_guard);
    s.absorb("nothing here");
    assert!(s.has_width_lib, "a signal once seen stays");
    assert_eq!(ProjectSignals::collect(&[]), NONE);
}

#[test]
fn a_five_row_banner_reports_once_at_its_start() {
    let row = "let a = \"█████████\";\n";
    let src = format!("fn main() {{}}\n{}", row.repeat(5));
    let f = scan(&src, Stack::Ratatui, Some(&ALL));
    assert_eq!(ids(&f), vec!["tui-figlet-banner"]);
    assert_eq!(f[0].line, 2);
    assert_eq!(f[0].snippet, "let a = \"█████████\";");
}

#[test]
fn test_paths_look_only_at_the_file_and_its_directory() {
    let src = "let width = 80;\n";
    assert!(scan_terminal_source(src, "C:\\Code\\Tests\\ui.rs", Stack::Ratatui, Some(&ALL)).is_empty());
    assert_eq!(scan_terminal_source(src, "test/deep/ui.rs", Stack::Ratatui, Some(&ALL)).len(), 1);
}

#[test]
fn nerd_glyphs_on_a_single_file_scan_carry_the_note_after_the_count() {
    let f = scan("const i = \"\u{e0a0}\u{f07b}\";\n", Stack::Ink, None);
    assert_eq!(ids(&f), vec!["tui-nerd-glyph-no-fallback"]);
    let keys: Vec<&str> = f[0].extras.iter().map(|(k, _)| k.as_str()).collect();
    assert_eq!(keys, vec!["glyphCount", "note"]);
}

#[test]
fn a_print_in_a_nested_class_method_after_dedent_is_not_in_the_widget() {
    let src = "class Demo(App):\n    def on_mount(self):\n        pass\nprint(\"after the class\")\n";
    assert!(scan(src, Stack::Textual, Some(&ALL)).is_empty());
}
