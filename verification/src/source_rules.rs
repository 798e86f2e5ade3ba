//! Terminal source rules (the `tui-` registry rows): text scans over TUI and
//! rich-CLI source. They run only on a terminal project and only over files
//! that name a terminal framework ([`classify_terminal_source`]).
//!
//! Every scan takes comment-blanked text (line count preserved, so line
//! numbers hold) and the [`ProjectSignals`] collected over the project.
//! `None` signals means a single-file scan, and the absence rules then
//! report with [`SIGNALS_NOTE`] instead of deciding.
//!
//! The patterns are matched by the `regex` crate. Each rule's contract reads
//! them through [`regex_match`] and [`regex_count`]; what the rule does with
//! the matches stands in a function of its own that takes them as
//! arguments.

use vstd::prelude::*;

use crate::rules::{extend, in_file, lemma_in_file_append};
use crate::pattern::{count_matches, is_match, regex_count, regex_match};
use crate::findings::{findings_view, finding, push_extra, Extra, ExtraValue, Finding, FindingView, new_finding};
use crate::text::{has_prefix, starts_with, lemma_split_by_nonempty, lowercase, to_lowercase, white_space, is_whitespace, split_by, split_chars, trim, trim_chars, trim_end, trim_end_chars, views, chars_of, contains_seq, has_infix, same_chars, slice_to_vec, string_of, trim_start, trim_start_chars};

verus! {

/// The extensions the walker adds on a terminal project. `.tsx`, `.jsx`,
/// `.ts`, `.js` are already web-scannable and carry Ink components.
pub const TERMINAL_EXTENSIONS: [&'static str; 4] = [".rs", ".go", ".py", ".tcss"];

/// The note an absence rule carries when no project signals were collected.
pub const SIGNALS_NOTE: &'static str = "project signals were not collected; scan the project directory to confirm";

/// The note `tui-hardcoded-rgb-no-adapt` carries when the project does have
/// an adaptive color helper somewhere: the literal may still be themed.
pub const ADAPTIVE_PRESENT_NOTE: &'static str = "an adaptive color helper exists elsewhere in this project; confirm this literal is themed";

/// The terminal stack a source file belongs to.
#[derive(Debug, Clone, Copy, PartialEq, Eq, Structural)]
pub enum Stack {
    /// Rust: ratatui or crossterm.
    Ratatui,
    /// Go: any charmbracelet import (Bubble Tea, Lip Gloss, Bubbles).
    Charm,
    /// Python: textual or rich.
    Textual,
    /// Textual CSS (`.tcss`), always terminal source.
    TextualCss,
    /// TypeScript or JavaScript that imports ink.
    Ink,
}

// ─── Framework detection ────────────────────────────────────────────────────

/// A Python line that imports textual or rich.
pub const PY_TEXTUAL_RE: &'static str = "(?m)^[ \\t]*(?:from|import)[ \\t]+(?:textual|rich)(?:[ \\t.]|$)";

/// An import or require of `ink` or an `ink-*` package.
pub const INK_IMPORT_RE: &'static str = "(?:from[ \\t]+|require\\([ \\t]*)[\"']ink(?:-[a-z0-9-]+)?[\"']";

/// A JavaScript or TypeScript extension.
pub open spec fn script_ext(ext: Seq<char>) -> bool {
    ext == ".tsx"@ || ext == ".jsx"@ || ext == ".ts"@ || ext == ".js"@ || ext == ".mjs"@ || ext == ".cjs"@
}

/// The framework table, given whether the text imports textual or rich
/// (for `.py`) and whether it imports ink (for scripts). A file that fails
/// it gets no terminal rules, which keeps Bevy games and Django backends
/// out.
pub open spec fn classify_spec(ext: Seq<char>, text: Seq<char>, textual_import: bool, ink_import: bool) -> Option<Stack> {
    if ext == ".rs"@ {
        if has_infix(text, "ratatui"@) || has_infix(text, "crossterm"@) {
            Some(Stack::Ratatui)
        } else {
            None
        }
    } else if ext == ".go"@ {
        if has_infix(text, "charmbracelet"@) {
            Some(Stack::Charm)
        } else {
            None
        }
    } else if ext == ".py"@ {
        if textual_import {
            Some(Stack::Textual)
        } else {
            None
        }
    } else if ext == ".tcss"@ {
        Some(Stack::TextualCss)
    } else if script_ext(ext) && ink_import {
        Some(Stack::Ink)
    } else {
        None
    }
}

/// Every JavaScript or TypeScript extension, `.tsx`, `.jsx`, `.ts`, `.js`,
/// `.mjs` and `.cjs`, makes a text that imports ink an Ink source, and
/// without the ink import none of them is terminal source.
pub proof fn law_ink_scripts_are_ink(text: Seq<char>, textual_import: bool)
    ensures
        classify_spec(".tsx"@, text, textual_import, true) == Some(Stack::Ink),
        classify_spec(".jsx"@, text, textual_import, true) == Some(Stack::Ink),
        classify_spec(".ts"@, text, textual_import, true) == Some(Stack::Ink),
        classify_spec(".js"@, text, textual_import, true) == Some(Stack::Ink),
        classify_spec(".mjs"@, text, textual_import, true) == Some(Stack::Ink),
        classify_spec(".cjs"@, text, textual_import, true) == Some(Stack::Ink),
        classify_spec(".tsx"@, text, textual_import, false) is None,
        classify_spec(".jsx"@, text, textual_import, false) is None,
        classify_spec(".ts"@, text, textual_import, false) is None,
        classify_spec(".js"@, text, textual_import, false) is None,
        classify_spec(".mjs"@, text, textual_import, false) is None,
        classify_spec(".cjs"@, text, textual_import, false) is None,
{
    reveal_strlit(".rs");
    reveal_strlit(".go");
    reveal_strlit(".py");
    reveal_strlit(".tcss");
    reveal_strlit(".tsx");
    reveal_strlit(".jsx");
    reveal_strlit(".ts");
    reveal_strlit(".js");
    reveal_strlit(".mjs");
    reveal_strlit(".cjs");
    assert(".rs"@.len() == 3 && ".go"@.len() == 3 && ".py"@.len() == 3 && ".tcss"@.len() == 5);
    assert(".tsx"@.len() == 4 && ".jsx"@.len() == 4 && ".mjs"@.len() == 4 && ".cjs"@.len() == 4);
    assert(".ts"@[1] != ".rs"@[1] && ".ts"@[1] != ".go"@[1] && ".ts"@[1] != ".py"@[1] && ".ts"@.len() == 3);
    assert(".js"@[1] != ".rs"@[1] && ".js"@[1] != ".go"@[1] && ".js"@[1] != ".py"@[1] && ".js"@.len() == 3);
}

/// `s` spells `lit`.
pub fn is_str(s: &str, lit: &str) -> (b: bool)
    ensures
        b == (s@ == lit@),
{
    let a = chars_of(s);
    let b = chars_of(lit);
    same_chars(a.as_slice(), b.as_slice())
}

/// Does `text` contain `part`?
pub fn has_part(text: &str, part: &str) -> (b: bool)
    ensures
        b == has_infix(text@, part@),
{
    let t = chars_of(text);
    let p = chars_of(part);
    contains_seq(t.as_slice(), p.as_slice())
}

fn is_script_ext(ext: &str) -> (b: bool)
    ensures
        b == script_ext(ext@),
{
    is_str(ext, ".tsx") || is_str(ext, ".jsx") || is_str(ext, ".ts") || is_str(ext, ".js") || is_str(ext, ".mjs")
        || is_str(ext, ".cjs")
}

/// The framework table, given what the import patterns matched.
pub fn classify_with(ext: &str, text: &str, textual_import: bool, ink_import: bool) -> (s: Option<Stack>)
    ensures
        s == classify_spec(ext@, text@, textual_import, ink_import),
{
    if is_str(ext, ".rs") {
        if has_part(text, "ratatui") || has_part(text, "crossterm") {
            Some(Stack::Ratatui)
        } else {
            None
        }
    } else if is_str(ext, ".go") {
        if has_part(text, "charmbracelet") {
            Some(Stack::Charm)
        } else {
            None
        }
    } else if is_str(ext, ".py") {
        if textual_import {
            Some(Stack::Textual)
        } else {
            None
        }
    } else if is_str(ext, ".tcss") {
        Some(Stack::TextualCss)
    } else if is_script_ext(ext) && ink_import {
        Some(Stack::Ink)
    } else {
        None
    }
}

/// The terminal stack of a file by its extension and text.
pub fn classify_terminal_source(ext: &str, text: &str) -> (s: Option<Stack>)
    ensures
        s == classify_spec(ext@, text@, regex_match(PY_TEXTUAL_RE@, text@), regex_match(INK_IMPORT_RE@, text@)),
{
    let t = chars_of(text);
    let textual = if is_str(ext, ".py") {
        is_match(PY_TEXTUAL_RE, t.as_slice())
    } else {
        false
    };
    let ink = if is_script_ext(ext) {
        is_match(INK_IMPORT_RE, t.as_slice())
    } else {
        false
    };
    classify_with(ext, text, textual, ink)
}

// ─── Project signals ────────────────────────────────────────────────────────

/// A TTY or CI check.
pub const TTY_GUARD_RE: &'static str = "isatty|isTTY|is_terminal|IsTerminal|--no-progress|(?:env::var|getenv|Getenv|process\\.env\\[|os\\.environ(?:\\.get)?)[ \\t]*[\\[(]?[ \\t]*[\"']CI[\"']|process\\.env\\.CI\\b";

/// A color that adapts to the terminal's background, or `NO_COLOR`.
pub const ADAPTIVE_COLOR_RE: &'static str = "AdaptiveColor|LightDark|HasDarkBackground|ansi_color|NO_COLOR";

/// A library that measures display width.
pub const WIDTH_LIB_RE: &'static str = "unicode[-_]width|unicode[-_]segmentation|runewidth|uniseg|ansi\\.Truncate|string-width|wcwidth|grapheme";

/// A switch between icons and plain glyphs.
pub const ICON_TOGGLE_RE: &'static str = "--no-icons|[\"'](?:--)?(?:ascii|nerd|icons)[\"']|\\b(?:ascii|nerd|icons)[ \\t]*[:=]";

/// A plain or machine-readable output mode.
pub const PLAIN_FLAG_RE: &'static str = "--plain|--json|--no-tui|--static|NO_TUI";

/// Booleans collected over every scanned file before the source rules run.
/// Half the rules are "X present and Y absent anywhere in the project"; this
/// is the Y.
#[derive(Debug, Clone, Copy, PartialEq, Eq, Structural)]
pub struct ProjectSignals {
    pub has_tty_guard: bool,
    pub has_adaptive_color: bool,
    pub has_width_lib: bool,
    pub has_icon_toggle: bool,
    pub has_plain_flag: bool,
}

impl Default for ProjectSignals {
    fn default() -> (s: ProjectSignals)
        ensures
            s == no_signals(),
    {
        ProjectSignals {
            has_tty_guard: false,
            has_adaptive_color: false,
            has_width_lib: false,
            has_icon_toggle: false,
            has_plain_flag: false,
        }
    }
}

/// No signal seen yet.
pub open spec fn no_signals() -> ProjectSignals {
    ProjectSignals {
        has_tty_guard: false,
        has_adaptive_color: false,
        has_width_lib: false,
        has_icon_toggle: false,
        has_plain_flag: false,
    }
}

/// `s` after folding in one file's text.
pub open spec fn absorbed(s: ProjectSignals, text: Seq<char>) -> ProjectSignals {
    ProjectSignals {
        has_tty_guard: s.has_tty_guard || regex_match(TTY_GUARD_RE@, text),
        has_adaptive_color: s.has_adaptive_color || regex_match(ADAPTIVE_COLOR_RE@, text),
        has_width_lib: s.has_width_lib || regex_match(WIDTH_LIB_RE@, text),
        has_icon_toggle: s.has_icon_toggle || regex_match(ICON_TOGGLE_RE@, text),
        has_plain_flag: s.has_plain_flag || regex_match(PLAIN_FLAG_RE@, text),
    }
}

/// The signals of `texts[..k]`.
pub open spec fn signals_upto(texts: Seq<Seq<char>>, k: int) -> ProjectSignals
    decreases k,
{
    if k <= 0 || k > texts.len() {
        no_signals()
    } else {
        absorbed(signals_upto(texts, k - 1), texts[k - 1])
    }
}

/// The texts of a list of string slices.
pub open spec fn texts_view(texts: Seq<&str>) -> Seq<Seq<char>> {
    Seq::new(texts.len(), |i: int| texts[i]@)
}

impl ProjectSignals {
    /// Fold in what one file's patterns matched.
    pub fn absorb_matches(&mut self, tty_guard: bool, adaptive_color: bool, width_lib: bool, icon_toggle: bool, plain_flag: bool)
        ensures
            *final(self) == (ProjectSignals {
                has_tty_guard: old(self).has_tty_guard || tty_guard,
                has_adaptive_color: old(self).has_adaptive_color || adaptive_color,
                has_width_lib: old(self).has_width_lib || width_lib,
                has_icon_toggle: old(self).has_icon_toggle || icon_toggle,
                has_plain_flag: old(self).has_plain_flag || plain_flag,
            }),
    {
        self.has_tty_guard = self.has_tty_guard || tty_guard;
        self.has_adaptive_color = self.has_adaptive_color || adaptive_color;
        self.has_width_lib = self.has_width_lib || width_lib;
        self.has_icon_toggle = self.has_icon_toggle || icon_toggle;
        self.has_plain_flag = self.has_plain_flag || plain_flag;
    }

    /// Fold one file's raw text (comments included: a `// NO_COLOR` mention
    /// still tells us the author knows the convention) into the set.
    pub fn absorb(&mut self, text: &str)
        ensures
            *final(self) == absorbed(*old(self), text@),
    {
        let t = chars_of(text);
        let tty = is_match(TTY_GUARD_RE, t.as_slice());
        let adaptive = is_match(ADAPTIVE_COLOR_RE, t.as_slice());
        let width = is_match(WIDTH_LIB_RE, t.as_slice());
        let icon = is_match(ICON_TOGGLE_RE, t.as_slice());
        let plain = is_match(PLAIN_FLAG_RE, t.as_slice());
        self.absorb_matches(tty, adaptive, width, icon, plain);
    }

    /// The signals of every text.
    pub fn collect(texts: &[&str]) -> (s: ProjectSignals)
        ensures
            s == signals_upto(texts_view(texts@), texts@.len() as int),
    {
        let ghost ts = texts_view(texts@);
        let mut s = ProjectSignals::default();
        let mut i: usize = 0;
        while i < texts.len()
            invariant
                ts == texts_view(texts@),
                0 <= i <= texts@.len(),
                s == signals_upto(ts, i as int),
            decreases texts@.len() - i,
        {
            s.absorb(texts[i]);
            i = i + 1;
        }
        s
    }
}

/// A project has a signal exactly when one of its texts shows it: the
/// signals fold across files, whatever their number or order.
pub proof fn law_signals_fold_across_files(texts: Seq<Seq<char>>, k: int)
    requires
        0 <= k <= texts.len(),
    ensures
        signals_upto(texts, k).has_tty_guard <==> exists|i: int| 0 <= i < k && regex_match(TTY_GUARD_RE@, #[trigger] texts[i]),
        signals_upto(texts, k).has_adaptive_color <==> exists|i: int|
            0 <= i < k && regex_match(ADAPTIVE_COLOR_RE@, #[trigger] texts[i]),
        signals_upto(texts, k).has_width_lib <==> exists|i: int| 0 <= i < k && regex_match(WIDTH_LIB_RE@, #[trigger] texts[i]),
        signals_upto(texts, k).has_icon_toggle <==> exists|i: int|
            0 <= i < k && regex_match(ICON_TOGGLE_RE@, #[trigger] texts[i]),
        signals_upto(texts, k).has_plain_flag <==> exists|i: int| 0 <= i < k && regex_match(PLAIN_FLAG_RE@, #[trigger] texts[i]),
    decreases k,
{
    if k > 0 {
        law_signals_fold_across_files(texts, k - 1);
        let t = texts[k - 1];
        assert(regex_match(TTY_GUARD_RE@, t) ==> exists|i: int| 0 <= i < k && regex_match(TTY_GUARD_RE@, #[trigger] texts[i]));
        assert(regex_match(ADAPTIVE_COLOR_RE@, t) ==> exists|i: int|
            0 <= i < k && regex_match(ADAPTIVE_COLOR_RE@, #[trigger] texts[i]));
        assert(regex_match(WIDTH_LIB_RE@, t) ==> exists|i: int| 0 <= i < k && regex_match(WIDTH_LIB_RE@, #[trigger] texts[i]));
        assert(regex_match(ICON_TOGGLE_RE@, t) ==> exists|i: int|
            0 <= i < k && regex_match(ICON_TOGGLE_RE@, #[trigger] texts[i]));
        assert(regex_match(PLAIN_FLAG_RE@, t) ==> exists|i: int| 0 <= i < k && regex_match(PLAIN_FLAG_RE@, #[trigger] texts[i]));
    }
}

// ─── Comment blanking ───────────────────────────────────────────────────────

/// Where a text is, between characters, for `//` and `/* */` comments.
#[derive(Debug, Clone, Copy, PartialEq, Eq, Structural)]
pub enum CMode {
    Code,
    /// After `//`, up to the end of the line.
    Line,
    /// Inside `/* */`.
    Block,
    /// Inside a string opened by the quote, `"` or a Go backtick.
    Str(char),
}

/// One step over `c` at `i`: the next position and mode, and the characters
/// written for `c[i..next]`.
pub open spec fn c_step(c: Seq<char>, i: int, m: CMode) -> (int, CMode, Seq<char>) {
    let n = c.len();
    match m {
        CMode::Code => {
            let ch = c[i];
            if ch == '/' && i + 1 < n && c[i + 1] == '/' {
                (i + 1, CMode::Line, seq![' '])
            } else if ch == '/' && i + 1 < n && c[i + 1] == '*' {
                (i + 2, CMode::Block, seq![' ', ' '])
            } else if ch == '"' || ch == '`' {
                (i + 1, CMode::Str(ch), seq![ch])
            } else if ch == '\'' {
                // `'x'` or `'\n'` is a char literal; a lone `'` (a Rust
                // lifetime) is code.
                let close = if i + 1 < n && c[i + 1] == '\\' { i + 3 } else { i + 2 };
                if close < n && c[close] == '\'' {
                    (close + 1, CMode::Code, c.subrange(i, close + 1))
                } else {
                    (i + 1, CMode::Code, seq!['\''])
                }
            } else {
                (i + 1, CMode::Code, seq![ch])
            }
        },
        CMode::Line => if c[i] == '\n' {
            (i + 1, CMode::Code, seq!['\n'])
        } else {
            (i + 1, CMode::Line, seq![' '])
        },
        CMode::Block => if c[i] == '*' && i + 1 < n && c[i + 1] == '/' {
            (i + 2, CMode::Code, seq![' ', ' '])
        } else {
            (i + 1, CMode::Block, seq![if c[i] == '\n' { '\n' } else { ' ' }])
        },
        CMode::Str(q) => if c[i] == q {
            (i + 1, CMode::Code, seq![q])
        } else if c[i] == '\\' && q == '"' && i + 1 < n {
            (i + 2, CMode::Str(q), seq![c[i], c[i + 1]])
        } else {
            (i + 1, CMode::Str(q), seq![c[i]])
        },
    }
}

/// `c[i..]` with its comments blanked, starting in mode `m`.
pub open spec fn strip_c_from(c: Seq<char>, i: int, m: CMode) -> Seq<char>
    decreases c.len() - i,
{
    if i < 0 || i >= c.len() {
        Seq::empty()
    } else {
        let (j, m2, e) = c_step(c, i, m);
        if j <= i {
            Seq::empty()
        } else {
            e + strip_c_from(c, j, m2)
        }
    }
}

/// `text` with its `//` and `/* */` comments blanked.
pub open spec fn strip_c(text: Seq<char>) -> Seq<char> {
    strip_c_from(text, 0, CMode::Code)
}

/// `out` is `src` with some characters other than newlines turned into
/// spaces: same length, every newline where it was.
pub open spec fn kept_or_blanked(out: Seq<char>, src: Seq<char>) -> bool {
    &&& out.len() == src.len()
    &&& forall|k: int| 0 <= k < out.len() ==> #[trigger] out[k] == src[k] || (out[k] == ' ' && src[k] != '\n')
}

proof fn lemma_kept_concat(a: Seq<char>, sa: Seq<char>, b: Seq<char>, sb: Seq<char>)
    requires
        kept_or_blanked(a, sa),
        kept_or_blanked(b, sb),
    ensures
        kept_or_blanked(a + b, sa + sb),
{
    assert forall|k: int| 0 <= k < (a + b).len() implies #[trigger] (a + b)[k] == (sa + sb)[k] || ((a + b)[k] == ' '
        && (sa + sb)[k] != '\n') by {
        if k < a.len() {
            assert((a + b)[k] == a[k]);
            assert((sa + sb)[k] == sa[k]);
        } else {
            assert((a + b)[k] == b[k - a.len()]);
            assert((sa + sb)[k] == sb[k - a.len()]);
        }
    }
}

proof fn lemma_c_step(c: Seq<char>, i: int, m: CMode)
    requires
        0 <= i < c.len(),
    ensures
        i < c_step(c, i, m).0 <= c.len(),
        kept_or_blanked(c_step(c, i, m).2, c.subrange(i, c_step(c, i, m).0)),
{
    let (j, m2, e) = c_step(c, i, m);
    assert(kept_or_blanked(e, c.subrange(i, j)));
}

/// Blanking keeps every character or turns it into a space, and never
/// touches a newline: line numbers and columns hold.
pub proof fn law_strip_c_keeps_lines(c: Seq<char>, i: int, m: CMode)
    requires
        0 <= i <= c.len(),
    ensures
        kept_or_blanked(strip_c_from(c, i, m), c.subrange(i, c.len() as int)),
    decreases c.len() - i,
{
    if i < c.len() {
        lemma_c_step(c, i, m);
        let (j, m2, e) = c_step(c, i, m);
        law_strip_c_keeps_lines(c, j, m2);
        lemma_kept_concat(e, c.subrange(i, j), strip_c_from(c, j, m2), c.subrange(j, c.len() as int));
        assert(c.subrange(i, j) + c.subrange(j, c.len() as int) =~= c.subrange(i, c.len() as int));
    } else {
        assert(c.subrange(i, c.len() as int) =~= Seq::<char>::empty());
    }
}

/// `n` spaces.
pub open spec fn spaces(n: nat) -> Seq<char> {
    Seq::new(n, |k: int| ' ')
}

/// Inside a double-quoted string a backslash escapes the character after
/// it: both are copied and the string goes on, so an escaped quote never
/// closes it.
pub proof fn law_escape_keeps_the_string_open(c: Seq<char>, i: int)
    requires
        0 <= i,
        i + 1 < c.len(),
        c[i] == '\\',
    ensures
        strip_c_from(c, i, CMode::Str('"')) == seq!['\\', c[i + 1]] + strip_c_from(c, i + 2, CMode::Str('"')),
{
}

/// The quote that opened a string closes it, and what follows is code again.
pub proof fn law_closing_quote_ends_the_string(c: Seq<char>, i: int, q: char)
    requires
        0 <= i < c.len(),
        c[i] == q,
    ensures
        strip_c_from(c, i, CMode::Str(q)) == seq![q] + strip_c_from(c, i + 1, CMode::Code),
{
}

/// `"\""`, a string holding only an escaped quote, is copied whole, and the
/// text after its real closing quote is read as code.
pub proof fn law_escaped_quote_string_is_copied(c: Seq<char>, i: int)
    requires
        0 <= i,
        i + 4 <= c.len(),
        c.subrange(i, i + 4) == seq!['"', '\\', '"', '"'],
    ensures
        strip_c_from(c, i, CMode::Code) == seq!['"', '\\', '"', '"'] + strip_c_from(c, i + 4, CMode::Code),
{
    assert(c[i] == c.subrange(i, i + 4)[0]);
    assert(c[i + 1] == c.subrange(i, i + 4)[1]);
    assert(c[i + 2] == c.subrange(i, i + 4)[2]);
    assert(c[i + 3] == c.subrange(i, i + 4)[3]);
    assert(strip_c_from(c, i + 3, CMode::Str('"')) == seq!['"'] + strip_c_from(c, i + 4, CMode::Code));
    assert(strip_c_from(c, i + 1, CMode::Str('"')) == seq!['\\', '"'] + strip_c_from(c, i + 3, CMode::Str('"')));
    assert(strip_c_from(c, i, CMode::Code) == seq!['"'] + strip_c_from(c, i + 1, CMode::Str('"')));
    assert(seq!['"'] + (seq!['\\', '"'] + (seq!['"'] + strip_c_from(c, i + 4, CMode::Code))) =~= seq![
        '"',
        '\\',
        '"',
        '"',
    ] + strip_c_from(c, i + 4, CMode::Code));
}

proof fn lemma_line_comment_rest(c: Seq<char>, j: int, e: int)
    requires
        0 <= j <= e <= c.len(),
        forall|k: int| j <= k < e ==> c[k] != '\n',
    ensures
        strip_c_from(c, j, CMode::Line) == spaces((e - j) as nat) + strip_c_from(c, e, CMode::Line),
    decreases e - j,
{
    if j < e {
        lemma_line_comment_rest(c, j + 1, e);
        assert(seq![' '] + (spaces((e - j - 1) as nat) + strip_c_from(c, e, CMode::Line)) =~= spaces((e - j) as nat)
            + strip_c_from(c, e, CMode::Line));
    } else {
        assert(spaces(0) + strip_c_from(c, e, CMode::Line) =~= strip_c_from(c, e, CMode::Line));
    }
}

/// A `//` in code blanks the rest of its line to spaces: nothing of the
/// comment is left, the newline that ends it is kept, and code resumes on
/// the next line.
pub proof fn law_line_comment_is_blanked(c: Seq<char>, i: int, e: int)
    requires
        0 <= i,
        i + 1 < e <= c.len(),
        c[i] == '/',
        c[i + 1] == '/',
        forall|k: int| i < k < e ==> c[k] != '\n',
    ensures
        strip_c_from(c, i, CMode::Code).subrange(0, e - i) == spaces((e - i) as nat),
        e < c.len() && c[e] == '\n' ==> strip_c_from(c, i, CMode::Code) == spaces((e - i) as nat) + seq!['\n']
            + strip_c_from(c, e + 1, CMode::Code),
{
    lemma_line_comment_rest(c, i + 1, e);
    let rest = strip_c_from(c, e, CMode::Line);
    assert(strip_c_from(c, i, CMode::Code) == seq![' '] + strip_c_from(c, i + 1, CMode::Line));
    assert(strip_c_from(c, i, CMode::Code) =~= spaces((e - i) as nat) + rest);
    assert((spaces((e - i) as nat) + rest).subrange(0, e - i) =~= spaces((e - i) as nat));
    if e < c.len() && c[e] == '\n' {
        assert(rest == seq!['\n'] + strip_c_from(c, e + 1, CMode::Code));
        assert(spaces((e - i) as nat) + rest =~= spaces((e - i) as nat) + seq!['\n'] + strip_c_from(
            c,
            e + 1,
            CMode::Code,
        ));
    }
}

/// Blank `//` and `/* */` comments in Rust, Go, or Textual CSS, keeping every
/// newline so line numbers hold. String literals (`"..."`, Go backtick raw
/// strings) and Rust char literals are copied verbatim, so `"http://x"` and
/// `'/'` survive.
pub fn strip_c_comments(text: &str) -> (out: String)
    ensures
        out@ == strip_c(text@),
        kept_or_blanked(out@, text@),
{
    let c = chars_of(text);
    let n = c.len();
    let mut out: Vec<char> = Vec::new();
    let mut i: usize = 0;
    let mut m = CMode::Code;
    while i < n
        invariant
            n == c@.len(),
            c@ == text@,
            0 <= i <= n,
            out@ + strip_c_from(c@, i as int, m) == strip_c(c@),
        decreases n - i,
    {
        let ghost before = out@;
        let ghost step = c_step(c@, i as int, m);
        proof {
            lemma_c_step(c@, i as int, m);
        }
        let ch = c[i];
        match m {
            CMode::Code => {
                if ch == '/' && i + 1 < n && c[i + 1] == '/' {
                    out.push(' ');
                    i = i + 1;
                    m = CMode::Line;
                } else if ch == '/' && i + 1 < n && c[i + 1] == '*' {
                    out.push(' ');
                    out.push(' ');
                    i = i + 2;
                    m = CMode::Block;
                } else if ch == '"' || ch == '`' {
                    out.push(ch);
                    i = i + 1;
                    m = CMode::Str(ch);
                } else if ch == '\'' {
                    let off: usize = if i + 1 < n && c[i + 1] == '\\' { 3 } else { 2 };
                    if n - i > off && c[i + off] == '\'' {
                        let close = i + off;
                        let lit = slice_to_vec(c.as_slice(), i, close + 1);
                        crate::text::append_chars(&mut out, lit.as_slice());
                        i = close + 1;
                    } else {
                        out.push(ch);
                        i = i + 1;
                    }
                } else {
                    out.push(ch);
                    i = i + 1;
                }
            },
            CMode::Line => {
                if ch == '\n' {
                    out.push('\n');
                    m = CMode::Code;
                } else {
                    out.push(' ');
                }
                i = i + 1;
            },
            CMode::Block => {
                if ch == '*' && i + 1 < n && c[i + 1] == '/' {
                    out.push(' ');
                    out.push(' ');
                    i = i + 2;
                    m = CMode::Code;
                } else {
                    out.push(if ch == '\n' { '\n' } else { ' ' });
                    i = i + 1;
                }
            },
            CMode::Str(q) => {
                if ch == q {
                    out.push(q);
                    i = i + 1;
                    m = CMode::Code;
                } else if ch == '\\' && q == '"' && i + 1 < n {
                    out.push(ch);
                    out.push(c[i + 1]);
                    i = i + 2;
                } else {
                    out.push(ch);
                    i = i + 1;
                }
            },
        }
        proof {
            assert(out@ =~= before + step.2);
            assert(i == step.0 && m == step.1);
        }
    }
    proof {
        assert(out@ + Seq::<char>::empty() =~= out@);
        law_strip_c_keeps_lines(c@, 0, CMode::Code);
        assert(c@.subrange(0, c@.len() as int) =~= c@);
    }
    string_of(out.as_slice())
}

/// Where a Python text is, between characters.
#[derive(Debug, Clone, Copy, PartialEq, Eq, Structural)]
pub enum PyMode {
    Code,
    /// After `#`, up to the end of the line.
    Hash,
    /// Inside a triple-quoted literal; `true` when it is a docstring.
    Triple(char, bool),
    /// Inside a single-quoted literal.
    Single(char),
}

/// A string prefix letter: `r`, `b`, `f`, `u` in either case.
pub open spec fn prefix_letter(p: char) -> bool {
    p == 'r' || p == 'R' || p == 'b' || p == 'B' || p == 'f' || p == 'F' || p == 'u' || p == 'U'
}

/// What stands before a triple quote on its line makes it a docstring
/// statement: nothing but whitespace and prefix letters.
pub open spec fn docstring_lead(s: Seq<char>) -> bool {
    forall|k: int| 0 <= k < trim_start(s).len() ==> prefix_letter(#[trigger] trim_start(s)[k])
}

/// `c[i..i + 3]` is three `q`.
pub open spec fn triple_at(c: Seq<char>, i: int, q: char) -> bool {
    i + 2 < c.len() && c[i] == q && c[i + 1] == q && c[i + 2] == q
}

/// One step over `c` at `i` in mode `m` with the current line starting at
/// `ls`: the next position, mode and line start, and the characters
/// written for `c[i..next]`.
pub open spec fn py_step(c: Seq<char>, i: int, m: PyMode, ls: int) -> (int, PyMode, int, Seq<char>) {
    let n = c.len();
    match m {
        PyMode::Code => {
            let ch = c[i];
            if ch == '\n' {
                (i + 1, PyMode::Code, i + 1, seq!['\n'])
            } else if ch == '#' {
                (i + 1, PyMode::Hash, ls, seq![' '])
            } else if ch == '"' || ch == '\'' {
                if triple_at(c, i, ch) {
                    (i + 3, PyMode::Triple(ch, docstring_lead(c.subrange(ls, i))), ls, seq![ch, ch, ch])
                } else {
                    (i + 1, PyMode::Single(ch), ls, seq![ch])
                }
            } else {
                (i + 1, PyMode::Code, ls, seq![ch])
            }
        },
        PyMode::Hash => if c[i] == '\n' {
            (i + 1, PyMode::Code, i + 1, seq!['\n'])
        } else {
            (i + 1, PyMode::Hash, ls, seq![' '])
        },
        PyMode::Triple(q, doc) => if triple_at(c, i, q) {
            (i + 3, PyMode::Code, ls, seq![q, q, q])
        } else {
            (i + 1, PyMode::Triple(q, doc), ls, seq![if doc && c[i] != '\n' { ' ' } else { c[i] }])
        },
        PyMode::Single(q) => if c[i] == q {
            (i + 1, PyMode::Code, ls, seq![q])
        } else if c[i] == '\n' {
            (i + 1, PyMode::Code, i + 1, seq!['\n'])
        } else if c[i] == '\\' && i + 1 < n {
            (i + 2, PyMode::Single(q), ls, seq![c[i], c[i + 1]])
        } else {
            (i + 1, PyMode::Single(q), ls, seq![c[i]])
        },
    }
}

/// `c[i..]` with its Python comments and docstrings blanked.
pub open spec fn strip_py_from(c: Seq<char>, i: int, m: PyMode, ls: int) -> Seq<char>
    decreases c.len() - i,
{
    if i < 0 || i >= c.len() {
        Seq::empty()
    } else {
        let (j, m2, ls2, e) = py_step(c, i, m, ls);
        if j <= i {
            Seq::empty()
        } else {
            e + strip_py_from(c, j, m2, ls2)
        }
    }
}

/// `text` with its `#` comments and bare docstrings blanked.
pub open spec fn strip_py(text: Seq<char>) -> Seq<char> {
    strip_py_from(text, 0, PyMode::Code, 0)
}

proof fn lemma_py_step(c: Seq<char>, i: int, m: PyMode, ls: int)
    requires
        0 <= i < c.len(),
    ensures
        i < py_step(c, i, m, ls).0 <= c.len(),
        kept_or_blanked(py_step(c, i, m, ls).3, c.subrange(i, py_step(c, i, m, ls).0)),
{
    let (j, m2, ls2, e) = py_step(c, i, m, ls);
    assert(kept_or_blanked(e, c.subrange(i, j)));
}

/// Python blanking keeps every character or turns it into a space, and
/// never touches a newline.
pub proof fn law_strip_py_keeps_lines(c: Seq<char>, i: int, m: PyMode, ls: int)
    requires
        0 <= i <= c.len(),
    ensures
        kept_or_blanked(strip_py_from(c, i, m, ls), c.subrange(i, c.len() as int)),
    decreases c.len() - i,
{
    if i < c.len() {
        lemma_py_step(c, i, m, ls);
        let (j, m2, ls2, e) = py_step(c, i, m, ls);
        law_strip_py_keeps_lines(c, j, m2, ls2);
        lemma_kept_concat(e, c.subrange(i, j), strip_py_from(c, j, m2, ls2), c.subrange(j, c.len() as int));
        assert(c.subrange(i, j) + c.subrange(j, c.len() as int) =~= c.subrange(i, c.len() as int));
    } else {
        assert(c.subrange(i, c.len() as int) =~= Seq::<char>::empty());
    }
}

/// Is `c[ls..i]` only whitespace and prefix letters?
fn is_docstring_lead(c: &Vec<char>, ls: usize, i: usize) -> (b: bool)
    requires
        ls <= i <= c@.len(),
    ensures
        b == docstring_lead(c@.subrange(ls as int, i as int)),
{
    let lead = slice_to_vec(c.as_slice(), ls, i);
    let t = trim_start_chars(lead.as_slice());
    let mut k: usize = 0;
    while k < t.len()
        invariant
            t@ == trim_start(c@.subrange(ls as int, i as int)),
            0 <= k <= t@.len(),
            forall|j: int| 0 <= j < k ==> prefix_letter(#[trigger] t@[j]),
        decreases t@.len() - k,
    {
        let p = t[k];
        if !(p == 'r' || p == 'R' || p == 'b' || p == 'B' || p == 'f' || p == 'F' || p == 'u' || p == 'U') {
            proof {
                assert(!prefix_letter(t@[k as int]));
            }
            return false;
        }
        k = k + 1;
    }
    true
}

/// Does `c[i..i + 3]` hold three `q`?
fn is_triple(c: &Vec<char>, i: usize, q: char) -> (b: bool)
    requires
        i < c@.len(),
    ensures
        b == triple_at(c@, i as int, q),
{
    let n = c.len();
    n - i > 2 && c[i] == q && c[i + 1] == q && c[i + 2] == q
}

/// Blank `#` comments and bare docstrings in Python, keeping every newline.
/// A triple-quoted literal is blanked only when the quote (optionally after a
/// prefix such as `r` or `f`) is the first token on its line: that is a
/// docstring statement. `CSS = """..."""` assignments are kept, because
/// Textual apps carry their stylesheet there and the rules must see it.
pub fn strip_python_comments(text: &str) -> (out: String)
    ensures
        out@ == strip_py(text@),
        kept_or_blanked(out@, text@),
{
    let c = chars_of(text);
    let n = c.len();
    let mut out: Vec<char> = Vec::new();
    let mut i: usize = 0;
    let mut m = PyMode::Code;
    let mut ls: usize = 0;
    while i < n
        invariant
            n == c@.len(),
            c@ == text@,
            0 <= ls <= i <= n,
            out@ + strip_py_from(c@, i as int, m, ls as int) == strip_py(c@),
        decreases n - i,
    {
        let ghost before = out@;
        let ghost step = py_step(c@, i as int, m, ls as int);
        proof {
            lemma_py_step(c@, i as int, m, ls as int);
        }
        let ch = c[i];
        match m {
            PyMode::Code => {
                if ch == '\n' {
                    out.push('\n');
                    i = i + 1;
                    ls = i;
                } else if ch == '#' {
                    out.push(' ');
                    i = i + 1;
                    m = PyMode::Hash;
                } else if ch == '"' || ch == '\'' {
                    if is_triple(&c, i, ch) {
                        let doc = is_docstring_lead(&c, ls, i);
                        out.push(ch);
                        out.push(ch);
                        out.push(ch);
                        i = i + 3;
                        m = PyMode::Triple(ch, doc);
                    } else {
                        out.push(ch);
                        i = i + 1;
                        m = PyMode::Single(ch);
                    }
                } else {
                    out.push(ch);
                    i = i + 1;
                }
            },
            PyMode::Hash => {
                if ch == '\n' {
                    out.push('\n');
                    i = i + 1;
                    ls = i;
                    m = PyMode::Code;
                } else {
                    out.push(' ');
                    i = i + 1;
                }
            },
            PyMode::Triple(q, doc) => {
                if is_triple(&c, i, q) {
                    out.push(q);
                    out.push(q);
                    out.push(q);
                    i = i + 3;
                    m = PyMode::Code;
                } else {
                    out.push(if doc && ch != '\n' { ' ' } else { ch });
                    i = i + 1;
                }
            },
            PyMode::Single(q) => {
                if ch == q {
                    out.push(q);
                    i = i + 1;
                    m = PyMode::Code;
                } else if ch == '\n' {
                    out.push('\n');
                    i = i + 1;
                    ls = i;
                    m = PyMode::Code;
                } else if ch == '\\' && i + 1 < n {
                    out.push(ch);
                    out.push(c[i + 1]);
                    i = i + 2;
                } else {
                    out.push(ch);
                    i = i + 1;
                }
            },
        }
        proof {
            assert(out@ =~= before + step.3);
            assert(i == step.0 && m == step.1 && ls == step.2);
        }
    }
    proof {
        assert(out@ + Seq::<char>::empty() =~= out@);
        law_strip_py_keeps_lines(c@, 0, PyMode::Code, 0);
        assert(c@.subrange(0, c@.len() as int) =~= c@);
    }
    string_of(out.as_slice())
}

// ─── Findings at a line ─────────────────────────────────────────────────────

/// A text cut at each newline.
pub open spec fn lines_of(text: Seq<char>) -> Seq<Seq<char>> {
    split_by(text, seq!['\n'])
}

/// A finding of rule `id` at line `i`: the trimmed line as the snippet, the
/// 1-based line number.
pub open spec fn hit_view(id: Seq<char>, file: Seq<char>, lines: Seq<Seq<char>>, i: int) -> FindingView {
    new_finding(id, file, trim(lines[i]), i + 1, Seq::empty())
}

/// `v` with a `note` extra.
pub open spec fn noted(v: FindingView, note: Seq<char>) -> FindingView {
    FindingView { extras: v.extras.push(("note"@, ExtraValue::Text(note))), ..v }
}

/// `v` with the note, if there is one.
pub open spec fn note_opt(v: FindingView, note: Option<Seq<char>>) -> FindingView {
    match note {
        Some(t) => noted(v, t),
        None => v,
    }
}

/// `v` with a count extra.
pub open spec fn counted(v: FindingView, key: Seq<char>, n: int) -> FindingView {
    FindingView { extras: v.extras.push((key, ExtraValue::Int(n))), ..v }
}

/// The findings of rule `id` at each line `i < k` whose flag is set.
pub open spec fn flagged(
    id: Seq<char>,
    file: Seq<char>,
    lines: Seq<Seq<char>>,
    flags: Seq<bool>,
    note: Option<Seq<char>>,
    k: int,
) -> Seq<FindingView>
    decreases k,
{
    if k <= 0 {
        Seq::empty()
    } else {
        flagged(id, file, lines, flags, note, k - 1) + if flags[k - 1] {
            seq![note_opt(hit_view(id, file, lines, k - 1), note)]
        } else {
            Seq::<FindingView>::empty()
        }
    }
}

/// Which lines `pattern` matches.
pub open spec fn line_matches(pattern: Seq<char>, lines: Seq<Seq<char>>) -> Seq<bool> {
    Seq::new(lines.len(), |i: int| regex_match(pattern, lines[i]))
}

/// A note as characters.
pub open spec fn note_view(note: Option<&str>) -> Option<Seq<char>> {
    match note {
        Some(t) => Some(t@),
        None => None,
    }
}

/// The finding of rule `id` at line `i`.
fn hit(id: &str, file: &str, lines: &Vec<Vec<char>>, i: usize) -> (f: Finding)
    requires
        i < lines@.len(),
    ensures
        f@ == hit_view(id@, file@, views(lines@), i as int),
{
    let n = lines.len();
    let t = trim_chars(lines[i].as_slice());
    finding(id, file, t.as_slice(), i + 1)
}

fn add_note(f: &mut Finding, note: &str)
    ensures
        final(f)@ == noted(old(f)@, note@),
{
    let t = chars_of(note);
    push_extra(f, "note", Extra::Text(string_of(t.as_slice())));
}

fn add_count(f: &mut Finding, key: &str, n: u128)
    ensures
        final(f)@ == counted(old(f)@, key@, n as int),
{
    push_extra(f, key, Extra::Int(n));
}

/// Which lines `pattern` matches.
pub fn line_flags(pattern: &str, lines: &Vec<Vec<char>>) -> (flags: Vec<bool>)
    ensures
        flags@ == line_matches(pattern@, views(lines@)),
{
    let mut flags: Vec<bool> = Vec::new();
    let mut i: usize = 0;
    while i < lines.len()
        invariant
            0 <= i <= lines@.len(),
            flags@ =~= line_matches(pattern@, views(lines@)).take(i as int),
        decreases lines@.len() - i,
    {
        let b = is_match(pattern, lines[i].as_slice());
        flags.push(b);
        i = i + 1;
    }
    proof {
        assert(line_matches(pattern@, views(lines@)).take(lines@.len() as int) =~= line_matches(pattern@, views(lines@)));
    }
    flags
}

/// The findings of rule `id` at the flagged lines, each with `note` when
/// one is given.
pub fn flag_lines(id: &str, file: &str, lines: &Vec<Vec<char>>, flags: &Vec<bool>, note: Option<&str>) -> (out: Vec<Finding>)
    requires
        flags@.len() == lines@.len(),
    ensures
        findings_view(out@) == flagged(id@, file@, views(lines@), flags@, note_view(note), lines@.len() as int),
{
    let mut out: Vec<Finding> = Vec::new();
    let mut i: usize = 0;
    while i < lines.len()
        invariant
            flags@.len() == lines@.len(),
            0 <= i <= lines@.len(),
            findings_view(out@) == flagged(id@, file@, views(lines@), flags@, note_view(note), i as int),
        decreases lines@.len() - i,
    {
        if flags[i] {
            let mut f = hit(id, file, lines, i);
            match note {
                Some(t) => add_note(&mut f, t),
                None => {},
            }
            out.push(f);
        }
        proof {
            assert(findings_view(out@) =~= flagged(id@, file@, views(lines@), flags@, note_view(note), i + 1));
        }
        i = i + 1;
    }
    out
}

// ─── Blink, double borders, gradients ───────────────────────────────────────

/// A blinking style in any stack's spelling.
pub const BLINK_RE: &'static str = "Modifier::SLOW_BLINK|Modifier::RAPID_BLINK|\\.Blink\\(|\\[blink\\]|text-style:[^;\\n]*\\bblink\\b|\\\\x1b\\[5m|\\\\033\\[5m|\\\\e\\[5m|\\x1b\\[5m";

/// A double-line border in any stack's spelling.
pub const DOUBLE_BORDER_RE: &'static str = "BorderType::Double\\b|DoubleBorder\\(\\)|borderStyle=\\{?[\"']double[\"']|box\\.DOUBLE\\b|\\bborder(?:-(?:top|right|bottom|left))?:[ \\t]*double\\b";

/// A gradient text library or component.
pub const GRADIENT_RE: &'static str = "gradient-string|ink-gradient|<Gradient\\b|rich_gradient|\\bGradient\\(|\\blolcat\\b|\\bchromacat\\b|tui[-_]gradient";

/// A Lip Gloss color blend.
pub const BLEND_RE: &'static str = "lipgloss\\.Blend1D\\(|\\.Blend\\(";

/// A word naming a title.
pub const TITLE_WORD_RE: &'static str = "(?i)title|header|banner";

/// `tui-blink-attribute`: every line that sets a blinking style.
pub fn scan_terminal_blink_attribute(lines: &Vec<Vec<char>>, file_path: &str) -> (out: Vec<Finding>)
    ensures
        findings_view(out@) == flagged(
            "tui-blink-attribute"@,
            file_path@,
            views(lines@),
            line_matches(BLINK_RE@, views(lines@)),
            None,
            lines@.len() as int,
        ),
{
    let flags = line_flags(BLINK_RE, lines);
    flag_lines("tui-blink-attribute", file_path, lines, &flags, None)
}

/// `tui-double-border`: every line that draws a double border.
pub fn scan_terminal_double_border(lines: &Vec<Vec<char>>, file_path: &str) -> (out: Vec<Finding>)
    ensures
        findings_view(out@) == flagged(
            "tui-double-border"@,
            file_path@,
            views(lines@),
            line_matches(DOUBLE_BORDER_RE@, views(lines@)),
            None,
            lines@.len() as int,
        ),
{
    let flags = line_flags(DOUBLE_BORDER_RE, lines);
    flag_lines("tui-double-border", file_path, lines, &flags, None)
}

/// The line ends mid-expression: after `.`, `(`, `,` or `{`.
pub open spec fn ends_open(s: Seq<char>) -> bool {
    let t = trim_end(s);
    t.len() > 0 && (t.last() == '.' || t.last() == '(' || t.last() == ',' || t.last() == '{')
}

/// The gradient lines: a gradient library, or a blend into a title, where
/// the title word may sit on the previous line when that line ends
/// mid-expression.
pub open spec fn gradient_flags(lines: Seq<Seq<char>>, gradient: Seq<bool>, blend: Seq<bool>, title: Seq<bool>) -> Seq<bool> {
    Seq::new(
        lines.len(),
        |i: int| gradient[i] || (blend[i] && (title[i] || (i > 0 && ends_open(lines[i - 1]) && title[i - 1]))),
    )
}

fn ends_open_exec(s: &Vec<char>) -> (b: bool)
    ensures
        b == ends_open(s@),
{
    let t = trim_end_chars(s.as_slice());
    if t.len() == 0 {
        return false;
    }
    let c = t[t.len() - 1];
    c == '.' || c == '(' || c == ',' || c == '{'
}

/// The gradient findings, given which lines name a gradient, a blend and
/// a title word.
pub fn gradient_lines(
    lines: &Vec<Vec<char>>,
    file_path: &str,
    gradient: &Vec<bool>,
    blend: &Vec<bool>,
    title: &Vec<bool>,
) -> (out: Vec<Finding>)
    requires
        gradient@.len() == lines@.len(),
        blend@.len() == lines@.len(),
        title@.len() == lines@.len(),
    ensures
        findings_view(out@) == flagged(
            "tui-gradient-title"@,
            file_path@,
            views(lines@),
            gradient_flags(views(lines@), gradient@, blend@, title@),
            None,
            lines@.len() as int,
        ),
{
    let ghost want = gradient_flags(views(lines@), gradient@, blend@, title@);
    let mut flags: Vec<bool> = Vec::new();
    let mut i: usize = 0;
    while i < lines.len()
        invariant
            gradient@.len() == lines@.len(),
            blend@.len() == lines@.len(),
            title@.len() == lines@.len(),
            want == gradient_flags(views(lines@), gradient@, blend@, title@),
            0 <= i <= lines@.len(),
            flags@ =~= want.take(i as int),
        decreases lines@.len() - i,
    {
        let continued = i > 0 && ends_open_exec(&lines[i - 1]) && title[i - 1];
        let b = gradient[i] || (blend[i] && (title[i] || continued));
        flags.push(b);
        i = i + 1;
    }
    proof {
        assert(want.take(lines@.len() as int) =~= want);
    }
    flag_lines("tui-gradient-title", file_path, lines, &flags, None)
}

/// `tui-gradient-title`: a gradient library, or a color blend into a title.
pub fn scan_terminal_gradient_title(lines: &Vec<Vec<char>>, file_path: &str) -> (out: Vec<Finding>)
    ensures
        findings_view(out@) == flagged(
            "tui-gradient-title"@,
            file_path@,
            views(lines@),
            gradient_flags(
                views(lines@),
                line_matches(GRADIENT_RE@, views(lines@)),
                line_matches(BLEND_RE@, views(lines@)),
                line_matches(TITLE_WORD_RE@, views(lines@)),
            ),
            None,
            lines@.len() as int,
        ),
{
    let g = line_flags(GRADIENT_RE, lines);
    let b = line_flags(BLEND_RE, lines);
    let t = line_flags(TITLE_WORD_RE, lines);
    gradient_lines(lines, file_path, &g, &b, &t)
}

// ─── Hardcoded truecolor, spinners ──────────────────────────────────────────

/// A 24-bit color literal in any stack's spelling.
pub const RGB_RE: &'static str = "Color::Rgb\\(|Color::from_u32\\(0x|lipgloss\\.Color\\(\"#|chalk\\.hex\\(|\\bcolor=[\"']#|\\[#[0-9a-fA-F]{6}\\]|\\\\x1b\\[38;2;|\\\\033\\[38;2;|\\x1b\\[38;2;";

/// A spinner library.
pub const SPINNER_RE: &'static str = "ink-spinner|\\bora\\(|rich\\.spinner|bubbles/spinner|briandowns/spinner";

/// The note of a truecolor literal: the signals note on a single-file scan,
/// the adaptive note when the project has an adaptive color helper.
pub open spec fn rgb_note(signals: Option<ProjectSignals>) -> Option<Seq<char>> {
    match signals {
        None => Some(SIGNALS_NOTE@),
        Some(s) => if s.has_adaptive_color {
            Some(ADAPTIVE_PRESENT_NOTE@)
        } else {
            None
        },
    }
}

/// The signals of a scan.
pub open spec fn signals_view(signals: Option<&ProjectSignals>) -> Option<ProjectSignals> {
    match signals {
        Some(s) => Some(*s),
        None => None,
    }
}

/// What `tui-hardcoded-rgb-no-adapt` reports, given the lines the pattern
/// matched: nothing in a stylesheet, where theme colors belong.
pub open spec fn rgb_spec(file: Seq<char>, lines: Seq<Seq<char>>, stack: Stack, signals: Option<ProjectSignals>, flags: Seq<bool>) -> Seq<FindingView> {
    if stack == Stack::TextualCss {
        Seq::empty()
    } else {
        flagged("tui-hardcoded-rgb-no-adapt"@, file, lines, flags, rgb_note(signals), lines.len() as int)
    }
}

/// The truecolor findings, given which lines hold a literal.
pub fn rgb_lines(
    lines: &Vec<Vec<char>>,
    file_path: &str,
    stack: Stack,
    signals: Option<&ProjectSignals>,
    flags: &Vec<bool>,
) -> (out: Vec<Finding>)
    requires
        flags@.len() == lines@.len(),
    ensures
        findings_view(out@) == rgb_spec(file_path@, views(lines@), stack, signals_view(signals), flags@),
{
    if stack == Stack::TextualCss {
        proof {
            assert(findings_view(Seq::<Finding>::empty()) =~= Seq::<FindingView>::empty());
        }
        return Vec::new();
    }
    let note: Option<&str> = match signals {
        None => Some(SIGNALS_NOTE),
        Some(s) => if s.has_adaptive_color {
            Some(ADAPTIVE_PRESENT_NOTE)
        } else {
            None
        },
    };
    proof {
        assert(note_view(note) == rgb_note(signals_view(signals)));
    }
    flag_lines("tui-hardcoded-rgb-no-adapt", file_path, lines, flags, note)
}

/// `tui-hardcoded-rgb-no-adapt`: a 24-bit color literal outside a stylesheet.
pub fn scan_terminal_hardcoded_rgb(
    lines: &Vec<Vec<char>>,
    file_path: &str,
    stack: Stack,
    signals: Option<&ProjectSignals>,
) -> (out: Vec<Finding>)
    ensures
        findings_view(out@) == rgb_spec(
            file_path@,
            views(lines@),
            stack,
            signals_view(signals),
            line_matches(RGB_RE@, views(lines@)),
        ),
{
    let flags = line_flags(RGB_RE, lines);
    rgb_lines(lines, file_path, stack, signals, &flags)
}

/// What `tui-spinner-no-tty-guard` reports, given the lines naming a
/// spinner library: nothing when the project checks for a TTY.
pub open spec fn spinner_src_spec(file: Seq<char>, lines: Seq<Seq<char>>, signals: Option<ProjectSignals>, flags: Seq<bool>) -> Seq<FindingView> {
    match signals {
        Some(s) => if s.has_tty_guard {
            Seq::empty()
        } else {
            flagged("tui-spinner-no-tty-guard"@, file, lines, flags, None, lines.len() as int)
        },
        None => flagged("tui-spinner-no-tty-guard"@, file, lines, flags, Some(SIGNALS_NOTE@), lines.len() as int),
    }
}

/// The spinner findings, given which lines name a spinner library.
pub fn spinner_lines(lines: &Vec<Vec<char>>, file_path: &str, signals: Option<&ProjectSignals>, flags: &Vec<bool>) -> (out: Vec<Finding>)
    requires
        flags@.len() == lines@.len(),
    ensures
        findings_view(out@) == spinner_src_spec(file_path@, views(lines@), signals_view(signals), flags@),
{
    match signals {
        Some(s) => {
            if s.has_tty_guard {
                proof {
                    assert(findings_view(Seq::<Finding>::empty()) =~= Seq::<FindingView>::empty());
                }
                return Vec::new();
            }
            flag_lines("tui-spinner-no-tty-guard", file_path, lines, flags, None)
        },
        None => flag_lines("tui-spinner-no-tty-guard", file_path, lines, flags, Some(SIGNALS_NOTE)),
    }
}

/// `tui-spinner-no-tty-guard`: a spinner in a project that never checks for
/// a TTY or CI.
pub fn scan_terminal_spinner(lines: &Vec<Vec<char>>, file_path: &str, signals: Option<&ProjectSignals>) -> (out: Vec<Finding>)
    ensures
        findings_view(out@) == spinner_src_spec(
            file_path@,
            views(lines@),
            signals_view(signals),
            line_matches(SPINNER_RE@, views(lines@)),
        ),
{
    let flags = line_flags(SPINNER_RE, lines);
    spinner_lines(lines, file_path, signals, &flags)
}

// ─── Findings in line order ─────────────────────────────────────────────────

/// Two lists of findings, each in line order, merged into one: on equal
/// lines the first list's finding comes first. This is the stable sort by
/// line of `a` followed by `b`.
pub open spec fn merge_lines(a: Seq<FindingView>, b: Seq<FindingView>) -> Seq<FindingView>
    decreases a.len() + b.len(),
{
    if a.len() == 0 {
        b
    } else if b.len() == 0 {
        a
    } else if a[0].line <= b[0].line {
        seq![a[0]] + merge_lines(a.drop_first(), b)
    } else {
        seq![b[0]] + merge_lines(a, b.drop_first())
    }
}

/// Findings in nondecreasing line order.
pub open spec fn by_line(v: Seq<FindingView>) -> bool {
    forall|i: int, j: int| 0 <= i < j < v.len() ==> (#[trigger] v[i]).line <= (#[trigger] v[j]).line
}

proof fn lemma_merge_parts(a: Seq<FindingView>, b: Seq<FindingView>)
    ensures
        merge_lines(a, b).len() == a.len() + b.len(),
        forall|i: int|
            0 <= i < merge_lines(a, b).len() ==> (exists|k: int| 0 <= k < a.len() && #[trigger] merge_lines(a, b)[i] == a[k])
                || (exists|k: int| 0 <= k < b.len() && merge_lines(a, b)[i] == b[k]),
    decreases a.len() + b.len(),
{
    if a.len() > 0 && b.len() > 0 {
        let m = merge_lines(a, b);
        if a[0].line <= b[0].line {
            lemma_merge_parts(a.drop_first(), b);
            let r = merge_lines(a.drop_first(), b);
            assert forall|i: int| 0 <= i < m.len() implies (exists|k: int| 0 <= k < a.len() && #[trigger] m[i] == a[k]) || (
            exists|k: int| 0 <= k < b.len() && m[i] == b[k]) by {
                if i == 0 {
                    assert(m[0] == a[0]);
                } else {
                    assert(m[i] == r[i - 1]);
                    if exists|k: int| 0 <= k < a.drop_first().len() && r[i - 1] == a.drop_first()[k] {
                        let k = choose|k: int| 0 <= k < a.drop_first().len() && r[i - 1] == a.drop_first()[k];
                        assert(m[i] == a[k + 1]);
                    }
                }
            }
        } else {
            lemma_merge_parts(a, b.drop_first());
            let r = merge_lines(a, b.drop_first());
            assert forall|i: int| 0 <= i < m.len() implies (exists|k: int| 0 <= k < a.len() && #[trigger] m[i] == a[k]) || (
            exists|k: int| 0 <= k < b.len() && m[i] == b[k]) by {
                if i == 0 {
                    assert(m[0] == b[0]);
                } else {
                    assert(m[i] == r[i - 1]);
                    if exists|k: int| 0 <= k < b.drop_first().len() && r[i - 1] == b.drop_first()[k] {
                        let k = choose|k: int| 0 <= k < b.drop_first().len() && r[i - 1] == b.drop_first()[k];
                        assert(m[i] == b[k + 1]);
                    }
                }
            }
        }
    } else if a.len() == 0 {
        assert forall|i: int| 0 <= i < merge_lines(a, b).len() implies (exists|k: int|
            0 <= k < a.len() && #[trigger] merge_lines(a, b)[i] == a[k]) || (exists|k: int|
            0 <= k < b.len() && merge_lines(a, b)[i] == b[k]) by {
            assert(merge_lines(a, b)[i] == b[i]);
        }
    } else {
        assert forall|i: int| 0 <= i < merge_lines(a, b).len() implies (exists|k: int|
            0 <= k < a.len() && #[trigger] merge_lines(a, b)[i] == a[k]) || (exists|k: int|
            0 <= k < b.len() && merge_lines(a, b)[i] == b[k]) by {
            assert(merge_lines(a, b)[i] == a[i]);
        }
    }
}

/// Merging two lists in line order gives a list in line order, holding
/// every finding of both.
pub proof fn law_merge_keeps_line_order(a: Seq<FindingView>, b: Seq<FindingView>)
    requires
        by_line(a),
        by_line(b),
    ensures
        by_line(merge_lines(a, b)),
        merge_lines(a, b).len() == a.len() + b.len(),
    decreases a.len() + b.len(),
{
    lemma_merge_parts(a, b);
    if a.len() > 0 && b.len() > 0 {
        let m = merge_lines(a, b);
        if a[0].line <= b[0].line {
            let t = a.drop_first();
            assert(by_line(t)) by {
                assert forall|i: int, j: int| 0 <= i < j < t.len() implies (#[trigger] t[i]).line <= (#[trigger] t[j]).line by {
                    assert(t[i] == a[i + 1]);
                    assert(t[j] == a[j + 1]);
                }
            }
            law_merge_keeps_line_order(t, b);
            lemma_merge_parts(t, b);
            let r = merge_lines(t, b);
            assert forall|i: int, j: int| 0 <= i < j < m.len() implies (#[trigger] m[i]).line <= (#[trigger] m[j]).line by {
                if i == 0 {
                    assert(m[j] == r[j - 1]);
                    if exists|k: int| 0 <= k < t.len() && #[trigger] r[j - 1] == t[k] {
                        let k = choose|k: int| 0 <= k < t.len() && #[trigger] r[j - 1] == t[k];
                        assert(t[k] == a[k + 1]);
                    } else {
                        let k = choose|k: int| 0 <= k < b.len() && r[j - 1] == b[k];
                        assert(b[0].line <= b[k].line);
                    }
                } else {
                    assert(m[i] == r[i - 1]);
                    assert(m[j] == r[j - 1]);
                }
            }
        } else {
            let t = b.drop_first();
            assert(by_line(t)) by {
                assert forall|i: int, j: int| 0 <= i < j < t.len() implies (#[trigger] t[i]).line <= (#[trigger] t[j]).line by {
                    assert(t[i] == b[i + 1]);
                    assert(t[j] == b[j + 1]);
                }
            }
            law_merge_keeps_line_order(a, t);
            lemma_merge_parts(a, t);
            let r = merge_lines(a, t);
            assert forall|i: int, j: int| 0 <= i < j < m.len() implies (#[trigger] m[i]).line <= (#[trigger] m[j]).line by {
                if i == 0 {
                    assert(m[j] == r[j - 1]);
                    if exists|k: int| 0 <= k < a.len() && #[trigger] r[j - 1] == a[k] {
                        let k = choose|k: int| 0 <= k < a.len() && #[trigger] r[j - 1] == a[k];
                        assert(a[0].line <= a[k].line);
                    } else {
                        let k = choose|k: int| 0 <= k < t.len() && r[j - 1] == t[k];
                        assert(t[k] == b[k + 1]);
                    }
                } else {
                    assert(m[i] == r[i - 1]);
                    assert(m[j] == r[j - 1]);
                }
            }
        }
    }
}

proof fn lemma_views_drop_first(v: Seq<Finding>)
    requires
        v.len() > 0,
    ensures
        findings_view(v.drop_first()) == findings_view(v).drop_first(),
{
    assert(findings_view(v.drop_first()) =~= findings_view(v).drop_first());
}

/// `a` and `b`, each in line order, merged by line.
pub fn merge_by_line(a: Vec<Finding>, b: Vec<Finding>) -> (out: Vec<Finding>)
    ensures
        findings_view(out@) == merge_lines(findings_view(a@), findings_view(b@)),
{
    let ghost want = merge_lines(findings_view(a@), findings_view(b@));
    let mut a = a;
    let mut b = b;
    let mut out: Vec<Finding> = Vec::new();
    while a.len() > 0 && b.len() > 0
        invariant
            findings_view(out@) + merge_lines(findings_view(a@), findings_view(b@)) == want,
        decreases a@.len() + b@.len(),
    {
        let ghost before = findings_view(out@);
        let ghost va = findings_view(a@);
        let ghost vb = findings_view(b@);
        if a[0].line <= b[0].line {
            let f = a.remove(0);
            proof {
                lemma_views_drop_first(seq![f] + a@);
            }
            out.push(f);
            proof {
                assert(findings_view(out@) =~= before.push(va[0]));
                assert(findings_view(a@) == va.drop_first());
                assert(before + merge_lines(va, vb) =~= findings_view(out@) + merge_lines(findings_view(a@), vb));
            }
        } else {
            let f = b.remove(0);
            proof {
                lemma_views_drop_first(seq![f] + b@);
            }
            out.push(f);
            proof {
                assert(findings_view(out@) =~= before.push(vb[0]));
                assert(findings_view(b@) == vb.drop_first());
                assert(before + merge_lines(va, vb) =~= findings_view(out@) + merge_lines(va, findings_view(b@)));
            }
        }
    }
    let ghost rest = merge_lines(findings_view(a@), findings_view(b@));
    let ghost before = findings_view(out@);
    if a.len() > 0 {
        let ghost va = findings_view(a@);
        proof {
            assert(rest == va);
        }
        let mut a2 = a;
        out.append(&mut a2);
        proof {
            assert(findings_view(out@) =~= before + va);
        }
    } else {
        let ghost vb = findings_view(b@);
        proof {
            assert(rest == vb);
        }
        let mut b2 = b;
        out.append(&mut b2);
        proof {
            assert(findings_view(out@) =~= before + vb);
        }
    }
    out
}


// ─── Banners ────────────────────────────────────────────────────────────────

/// A banner library.
pub const FIGLET_RE: &'static str = "(?i)\\b(?:pyfiglet|figlet_rs|figlet|go-figure|cfonts|ink-big-text|text2art)\\b|from[ \\t]+art[ \\t]+import";

/// A quote of any of the three kinds.
pub open spec fn quote_char(c: char) -> bool {
    c == '"' || c == '\'' || c == '`'
}

/// Punctuation a banner row's literal sits in.
pub open spec fn banner_punct(c: char) -> bool {
    quote_char(c) || c == ',' || c == '+' || c == ';' || c == '(' || c == ')' || c == '[' || c == ']'
}

/// A visible character of a banner row.
pub open spec fn body_char(c: char) -> bool {
    !white_space(c) && !banner_punct(c)
}

/// A glyph banners are drawn with.
pub open spec fn block_glyph(c: char) -> bool {
    c == '█' || c == '▀' || c == '▄' || c == '╔' || c == '═' || c == '╗' || c == '║' || c == '╚' || c == '╝'
}

/// How many visible characters `s` holds.
pub open spec fn body_len(s: Seq<char>) -> nat
    decreases s.len(),
{
    if s.len() == 0 {
        0
    } else {
        body_len(s.drop_last()) + if body_char(s.last()) { 1nat } else { 0nat }
    }
}

/// How many of them are block glyphs.
pub open spec fn glyph_len(s: Seq<char>) -> nat
    decreases s.len(),
{
    if s.len() == 0 {
        0
    } else {
        glyph_len(s.drop_last()) + if body_char(s.last()) && block_glyph(s.last()) { 1nat } else { 0nat }
    }
}

/// One row of a hand-drawn banner: a line with a string literal whose
/// visible characters, at least six, are at least 60% block glyphs.
pub open spec fn block_line(s: Seq<char>) -> bool {
    &&& exists|i: int| 0 <= i < s.len() && quote_char(#[trigger] s[i])
    &&& body_len(s) >= 6
    &&& glyph_len(s) * 10 >= body_len(s) * 6
}

/// How many banner rows end at line `i`.
pub open spec fn block_run(lines: Seq<Seq<char>>, i: int) -> nat
    decreases i + 1,
{
    if i < 0 || i >= lines.len() || !block_line(lines[i]) {
        0
    } else {
        1 + block_run(lines, i - 1)
    }
}

/// The banner findings for lines before `k`: one at the start of each run
/// of four or more banner rows.
pub open spec fn banners_upto(file: Seq<char>, lines: Seq<Seq<char>>, k: int) -> Seq<FindingView>
    decreases k,
{
    if k <= 0 {
        Seq::empty()
    } else {
        banners_upto(file, lines, k - 1) + if block_run(lines, k - 1) == 4 {
            seq![counted(hit_view("tui-figlet-banner"@, file, lines, k - 4), "bannerLines"@, 4)]
        } else {
            Seq::<FindingView>::empty()
        }
    }
}

/// What `tui-figlet-banner` reports, given the lines naming a banner
/// library: those lines and the hand-drawn banners, by line.
pub open spec fn figlet_spec(file: Seq<char>, lines: Seq<Seq<char>>, flags: Seq<bool>) -> Seq<FindingView> {
    merge_lines(
        flagged("tui-figlet-banner"@, file, lines, flags, None, lines.len() as int),
        banners_upto(file, lines, lines.len() as int),
    )
}

fn is_block_glyph(c: char) -> (b: bool)
    ensures
        b == block_glyph(c),
{
    c == '█' || c == '▀' || c == '▄' || c == '╔' || c == '═' || c == '╗' || c == '║' || c == '╚' || c == '╝'
}

fn is_body_char(c: char) -> (b: bool)
    ensures
        b == body_char(c),
{
    let punct = c == '"' || c == '\'' || c == '`' || c == ',' || c == '+' || c == ';' || c == '(' || c == ')' || c == '['
        || c == ']';
    !is_whitespace(c) && !punct
}

/// Is `s` one row of a hand-drawn banner?
pub fn is_block_glyph_line(s: &Vec<char>) -> (b: bool)
    ensures
        b == block_line(s@),
{
    let mut quoted = false;
    let mut body: usize = 0;
    let mut glyphs: usize = 0;
    let mut i: usize = 0;
    proof {
        assert(s@.take(0) =~= Seq::<char>::empty());
    }
    while i < s.len()
        invariant
            0 <= i <= s@.len(),
            quoted == exists|k: int| 0 <= k < i && quote_char(#[trigger] s@[k]),
            body == body_len(s@.take(i as int)),
            glyphs == glyph_len(s@.take(i as int)),
            glyphs <= body <= i,
        decreases s@.len() - i,
    {
        let c = s[i];
        proof {
            assert(s@.take(i + 1).drop_last() =~= s@.take(i as int));
        }
        if c == '"' || c == '\'' || c == '`' {
            quoted = true;
        }
        if is_body_char(c) {
            body = body + 1;
            if is_block_glyph(c) {
                glyphs = glyphs + 1;
            }
        }
        i = i + 1;
    }
    proof {
        assert(s@.take(s@.len() as int) =~= s@);
    }
    quoted && body >= 6 && (glyphs as u128) * 10 >= (body as u128) * 6
}

/// Each line's banner-row verdict.
fn block_lines(lines: &Vec<Vec<char>>) -> (flags: Vec<bool>)
    ensures
        flags@.len() == lines@.len(),
        forall|i: int| 0 <= i < lines@.len() ==> flags@[i] == block_line(#[trigger] views(lines@)[i]),
{
    let mut flags: Vec<bool> = Vec::new();
    let mut i: usize = 0;
    while i < lines.len()
        invariant
            0 <= i <= lines@.len(),
            flags@.len() == i,
            forall|k: int| 0 <= k < i ==> flags@[k] == block_line(#[trigger] views(lines@)[k]),
        decreases lines@.len() - i,
    {
        flags.push(is_block_glyph_line(&lines[i]));
        i = i + 1;
    }
    flags
}

/// The banner findings, given the lines naming a banner library.
pub fn figlet_lines(lines: &Vec<Vec<char>>, file_path: &str, flags: &Vec<bool>) -> (out: Vec<Finding>)
    requires
        flags@.len() == lines@.len(),
    ensures
        findings_view(out@) == figlet_spec(file_path@, views(lines@), flags@),
{
    let ghost ls = views(lines@);
    let named = flag_lines("tui-figlet-banner", file_path, lines, flags, None);
    let blocks = block_lines(lines);
    let mut banners: Vec<Finding> = Vec::new();
    let mut run: usize = 0;
    let mut i: usize = 0;
    while i < lines.len()
        invariant
            ls == views(lines@),
            blocks@.len() == lines@.len(),
            forall|k: int| 0 <= k < lines@.len() ==> blocks@[k] == block_line(#[trigger] ls[k]),
            0 <= i <= lines@.len(),
            run == block_run(ls, i - 1),
            run <= i,
            findings_view(banners@) == banners_upto(file_path@, ls, i as int),
        decreases lines@.len() - i,
    {
        if blocks[i] {
            run = run + 1;
            if run == 4 {
                let mut f = hit("tui-figlet-banner", file_path, lines, i + 1 - run);
                add_count(&mut f, "bannerLines", run as u128);
                banners.push(f);
            }
        } else {
            run = 0;
        }
        proof {
            assert(findings_view(banners@) =~= banners_upto(file_path@, ls, i + 1));
        }
        i = i + 1;
    }
    merge_by_line(named, banners)
}

/// `tui-figlet-banner`: a banner library, or a hand-drawn banner of four
/// or more rows.
pub fn scan_terminal_figlet_banner(lines: &Vec<Vec<char>>, file_path: &str) -> (out: Vec<Finding>)
    ensures
        findings_view(out@) == figlet_spec(file_path@, views(lines@), line_matches(FIGLET_RE@, views(lines@))),
{
    let flags = line_flags(FIGLET_RE, lines);
    figlet_lines(lines, file_path, &flags)
}

// ─── Emoji density, private-use glyphs ──────────────────────────────────────

/// A file with this many emoji reports.
pub const EMOJI_FILE_THRESHOLD: u128 = 8;

/// A file with this many of the canonical emoji reports.
pub const CANONICAL_EMOJI_THRESHOLD: u128 = 3;

/// An emoji: Miscellaneous Symbols and Pictographs through Symbols and
/// Pictographs Extended-A, or Miscellaneous Symbols and Dingbats.
pub open spec fn emoji(c: char) -> bool {
    (0x1F300 <= (c as u32) && (c as u32) <= 0x1FAFF) || (0x2600 <= (c as u32) && (c as u32) <= 0x27BF)
}

/// The emoji CLI tools reach for first.
pub open spec fn canonical_emoji(c: char) -> bool {
    c == '🚀' || c == '✅' || c == '❌' || c == '⚠' || c == '✨' || c == '🎉' || c == '📦' || c == '🔧' || c == '🔥'
        || c == '💡'
}

/// A Private Use Area code point, where Nerd Font icons live.
pub open spec fn private_use(c: char) -> bool {
    (0xE000 <= (c as u32) && (c as u32) <= 0xF8FF) || (0xF0000 <= (c as u32) && (c as u32) <= 0xFFFFD)
}

/// The emoji, canonical emoji, and private-use glyphs of a line.
pub open spec fn emoji_in(s: Seq<char>) -> nat
    decreases s.len(),
{
    if s.len() == 0 {
        0
    } else {
        emoji_in(s.drop_last()) + if emoji(s.last()) { 1nat } else { 0nat }
    }
}

pub open spec fn canonical_in(s: Seq<char>) -> nat
    decreases s.len(),
{
    if s.len() == 0 {
        0
    } else {
        canonical_in(s.drop_last()) + if emoji(s.last()) && canonical_emoji(s.last()) { 1nat } else { 0nat }
    }
}

pub open spec fn private_in(s: Seq<char>) -> nat
    decreases s.len(),
{
    if s.len() == 0 {
        0
    } else {
        private_in(s.drop_last()) + if private_use(s.last()) { 1nat } else { 0nat }
    }
}

/// What kind of characters a line count is about.
pub enum Tally {
    Emoji,
    Canonical,
    Private,
}

pub open spec fn tally_of(t: Tally, s: Seq<char>) -> nat {
    match t {
        Tally::Emoji => emoji_in(s),
        Tally::Canonical => canonical_in(s),
        Tally::Private => private_in(s),
    }
}

/// The tally over lines before `k`.
pub open spec fn tally_upto(t: Tally, lines: Seq<Seq<char>>, k: int) -> nat
    decreases k,
{
    if k <= 0 || k > lines.len() {
        0
    } else {
        tally_upto(t, lines, k - 1) + tally_of(t, lines[k - 1])
    }
}

/// The first line at or after `i` with a positive tally.
pub open spec fn first_tallied(t: Tally, lines: Seq<Seq<char>>, i: int) -> Option<int>
    decreases lines.len() - i,
{
    if i < 0 || i >= lines.len() {
        None
    } else if tally_of(t, lines[i]) > 0 {
        Some(i)
    } else {
        first_tallied(t, lines, i + 1)
    }
}

/// What `tui-emoji-density` reports: one finding at the first emoji, with
/// the file's emoji count, when there are many emoji or a few canonical.
pub open spec fn emoji_spec(file: Seq<char>, lines: Seq<Seq<char>>) -> Seq<FindingView> {
    let total = tally_upto(Tally::Emoji, lines, lines.len() as int);
    let canonical = tally_upto(Tally::Canonical, lines, lines.len() as int);
    match first_tallied(Tally::Emoji, lines, 0) {
        Some(i) => if total >= EMOJI_FILE_THRESHOLD || canonical >= CANONICAL_EMOJI_THRESHOLD {
            seq![counted(hit_view("tui-emoji-density"@, file, lines, i), "emojiCount"@, total as int)]
        } else {
            Seq::empty()
        },
        None => Seq::empty(),
    }
}

/// What `tui-nerd-glyph-no-fallback` reports: one finding at the first
/// private-use glyph with the file's count, unless the project can switch
/// icons off.
pub open spec fn nerd_spec(file: Seq<char>, lines: Seq<Seq<char>>, signals: Option<ProjectSignals>) -> Seq<FindingView> {
    let count = tally_upto(Tally::Private, lines, lines.len() as int);
    if signals matches Some(s) && s.has_icon_toggle {
        Seq::empty()
    } else {
        match first_tallied(Tally::Private, lines, 0) {
            Some(i) => {
                let f = counted(hit_view("tui-nerd-glyph-no-fallback"@, file, lines, i), "glyphCount"@, count as int);
                seq![if signals is None { noted(f, SIGNALS_NOTE@) } else { f }]
            },
            None => Seq::empty(),
        }
    }
}

fn is_emoji(c: char) -> (b: bool)
    ensures
        b == emoji(c),
{
    let u = c as u32;
    (0x1F300 <= u && u <= 0x1FAFF) || (0x2600 <= u && u <= 0x27BF)
}

fn is_canonical_emoji(c: char) -> (b: bool)
    ensures
        b == canonical_emoji(c),
{
    c == '🚀' || c == '✅' || c == '❌' || c == '⚠' || c == '✨' || c == '🎉' || c == '📦' || c == '🔧' || c == '🔥' || c == '💡'
}

fn is_private_use(c: char) -> (b: bool)
    ensures
        b == private_use(c),
{
    let u = c as u32;
    (0xE000 <= u && u <= 0xF8FF) || (0xF0000 <= u && u <= 0xFFFFD)
}

/// The tally of one line.
fn tally_line(t: &Tally, s: &Vec<char>) -> (n: usize)
    ensures
        n == tally_of(*t, s@),
{
    let mut n: usize = 0;
    let mut i: usize = 0;
    proof {
        assert(s@.take(0) =~= Seq::<char>::empty());
    }
    while i < s.len()
        invariant
            0 <= i <= s@.len(),
            n == tally_of(*t, s@.take(i as int)),
            n <= i,
        decreases s@.len() - i,
    {
        let c = s[i];
        proof {
            assert(s@.take(i + 1).drop_last() =~= s@.take(i as int));
        }
        let counts = match t {
            Tally::Emoji => is_emoji(c),
            Tally::Canonical => is_emoji(c) && is_canonical_emoji(c),
            Tally::Private => is_private_use(c),
        };
        if counts {
            n = n + 1;
        }
        i = i + 1;
    }
    proof {
        assert(s@.take(s@.len() as int) =~= s@);
    }
    n
}

/// The tally over every line, and the first line with a positive tally.
fn tally_lines(t: &Tally, lines: &Vec<Vec<char>>) -> (r: (u128, Option<usize>))
    ensures
        r.0 == tally_upto(*t, views(lines@), lines@.len() as int),
        match r.1 {
            Some(i) => first_tallied(*t, views(lines@), 0) == Some(i as int) && i < lines@.len(),
            None => first_tallied(*t, views(lines@), 0) is None,
        },
{
    let ghost ls = views(lines@);
    let mut total: u128 = 0;
    let mut first: Option<usize> = None;
    let mut i: usize = 0;
    while i < lines.len()
        invariant
            ls == views(lines@),
            0 <= i <= lines@.len(),
            total == tally_upto(*t, ls, i as int),
            total <= i * 0x1_0000_0000_0000_0000,
            match first {
                Some(k) => first_tallied(*t, ls, 0) == Some(k as int) && k < i,
                None => first_tallied(*t, ls, 0) == first_tallied(*t, ls, i as int),
            },
        decreases lines@.len() - i,
    {
        let n = tally_line(t, &lines[i]);
        proof {
            assert(ls[i as int] == lines@[i as int]@);
        }
        if n > 0 && first.is_none() {
            first = Some(i);
        }
        total = total + n as u128;
        i = i + 1;
    }
    (total, first)
}

/// `tui-emoji-density`: a file that leans on emoji.
pub fn scan_terminal_emoji_density(lines: &Vec<Vec<char>>, file_path: &str) -> (out: Vec<Finding>)
    ensures
        findings_view(out@) == emoji_spec(file_path@, views(lines@)),
{
    let (total, first) = tally_lines(&Tally::Emoji, lines);
    let (canonical, _) = tally_lines(&Tally::Canonical, lines);
    let mut out: Vec<Finding> = Vec::new();
    match first {
        Some(i) => {
            if total >= EMOJI_FILE_THRESHOLD || canonical >= CANONICAL_EMOJI_THRESHOLD {
                let mut f = hit("tui-emoji-density", file_path, lines, i);
                add_count(&mut f, "emojiCount", total);
                out.push(f);
            }
        },
        None => {},
    }
    proof {
        assert(findings_view(out@) =~= emoji_spec(file_path@, views(lines@)));
    }
    out
}

/// `tui-nerd-glyph-no-fallback`: Nerd Font icons with no switch to plain
/// glyphs anywhere in the project.
pub fn scan_terminal_nerd_glyph(lines: &Vec<Vec<char>>, file_path: &str, signals: Option<&ProjectSignals>) -> (out: Vec<Finding>)
    ensures
        findings_view(out@) == nerd_spec(file_path@, views(lines@), signals_view(signals)),
{
    let toggled = match signals {
        Some(s) => s.has_icon_toggle,
        None => false,
    };
    let mut out: Vec<Finding> = Vec::new();
    if toggled {
        proof {
            assert(findings_view(out@) =~= nerd_spec(file_path@, views(lines@), signals_view(signals)));
        }
        return out;
    }
    let (count, first) = tally_lines(&Tally::Private, lines);
    match first {
        Some(i) => {
            let mut f = hit("tui-nerd-glyph-no-fallback", file_path, lines, i);
            add_count(&mut f, "glyphCount", count);
            if signals.is_none() {
                add_note(&mut f, SIGNALS_NOTE);
            }
            out.push(f);
        },
        None => {},
    }
    proof {
        assert(findings_view(out@) =~= nerd_spec(file_path@, views(lines@), signals_view(signals)));
    }
    out
}

// ─── Hardcoded sizes ────────────────────────────────────────────────────────

/// A `Rect` built from four integer literals.
pub const RECT_LITERAL_RE: &'static str = "Rect::new\\([ \\t]*\\d+[ \\t]*,[ \\t]*\\d+[ \\t]*,[ \\t]*\\d+[ \\t]*,[ \\t]*\\d+[ \\t]*\\)";

/// A width of 80.
pub const SIZE_80_RE: &'static str = "(?i)\\b(?:width|cols|columns)[ \\t]*[:=][ \\t]*80\\b";

/// A height of 24.
pub const SIZE_24_RE: &'static str = "(?i)\\b(?:height|rows|lines)[ \\t]*[:=][ \\t]*24\\b";

/// An 80 by 24 size passed to a call.
pub const SIZE_CALL_RE: &'static str = "\\.Width\\(80\\)|width=\\{80\\}|size=\\(80,[ \\t]*24\\)";

/// A fixed-length layout constraint.
pub const CONSTRAINT_LENGTH_RE: &'static str = "Constraint::Length\\(";

/// A layout constraint that flexes with the terminal.
pub const CONSTRAINT_FLEX_RE: &'static str = "Constraint::(?:Min|Max|Percentage|Ratio|Fill)\\(";

/// `s` with every backslash turned into a slash.
pub open spec fn slashed(s: Seq<char>) -> Seq<char> {
    Seq::new(s.len(), |i: int| if s[i] == '\\' { '/' } else { s[i] })
}

/// Test code pins sizes on purpose: the file name or its parent directory,
/// lowercased, contains `test`. Deeper directories do not count, so a
/// fixture tree under `tests/fixtures/` still scans.
pub open spec fn test_path(file: Seq<char>) -> bool {
    let parts = split_by(slashed(lowercase(file)), seq!['/']);
    let n = parts.len();
    has_infix(parts[n - 1], "test"@) || (n >= 2 && has_infix(parts[n - 2], "test"@))
}

/// How many times `pattern` matches each line.
pub open spec fn line_counts(pattern: Seq<char>, lines: Seq<Seq<char>>) -> Seq<nat> {
    Seq::new(lines.len(), |i: int| regex_count(pattern, lines[i]))
}

/// The sum of `counts[..k]`.
pub open spec fn count_sum(counts: Seq<nat>, k: int) -> nat
    decreases k,
{
    if k <= 0 || k > counts.len() {
        0
    } else {
        count_sum(counts, k - 1) + counts[k - 1]
    }
}

/// The first index at or after `i` with a positive count.
pub open spec fn first_counted(counts: Seq<nat>, i: int) -> Option<int>
    decreases counts.len() - i,
{
    if i < 0 || i >= counts.len() {
        None
    } else if counts[i] > 0 {
        Some(i)
    } else {
        first_counted(counts, i + 1)
    }
}

/// Lines that pin a size, from the four size patterns.
pub open spec fn any_of(a: Seq<bool>, b: Seq<bool>, c: Seq<bool>, d: Seq<bool>) -> Seq<bool> {
    Seq::new(a.len(), |i: int| a[i] || b[i] || c[i] || d[i])
}

/// What `tui-hardcoded-size` reports, given the lines that pin a size, the
/// length constraints on each line, and the lines with a flexible
/// constraint: nothing in a test path; else the pinned lines, and a layout
/// of two or more length constraints with no flexible one, at its first,
/// by line.
pub open spec fn size_spec(file: Seq<char>, lines: Seq<Seq<char>>, sized: Seq<bool>, lengths: Seq<nat>, flexible: Seq<bool>) -> Seq<FindingView> {
    if test_path(file) {
        Seq::empty()
    } else {
        let total = count_sum(lengths, lengths.len() as int);
        let rigid = total >= 2 && !(exists|i: int| 0 <= i < flexible.len() && #[trigger] flexible[i]);
        let extra = if rigid && first_counted(lengths, 0) is Some {
            seq![
                counted(
                    hit_view("tui-hardcoded-size"@, file, lines, first_counted(lengths, 0)->0),
                    "lengthConstraints"@,
                    total as int,
                ),
            ]
        } else {
            Seq::<FindingView>::empty()
        };
        merge_lines(flagged("tui-hardcoded-size"@, file, lines, sized, None, lines.len() as int), extra)
    }
}

/// Is `file` a test path?
pub fn in_test_path(file_path: &str) -> (b: bool)
    ensures
        b == test_path(file_path@),
{
    let lower = to_lowercase(file_path);
    let c = chars_of(lower.as_str());
    let mut s: Vec<char> = Vec::new();
    let mut i: usize = 0;
    while i < c.len()
        invariant
            0 <= i <= c@.len(),
            s@ =~= slashed(c@).take(i as int),
        decreases c@.len() - i,
    {
        s.push(if c[i] == '\\' { '/' } else { c[i] });
        i = i + 1;
    }
    proof {
        assert(slashed(c@).take(c@.len() as int) =~= slashed(c@));
        lemma_split_by_nonempty(slashed(c@), seq!['/']);
    }
    let seps: Vec<char> = vec!['/'];
    let parts = split_chars(s.as_slice(), seps.as_slice());
    proof {
        assert(seps@ =~= seq!['/']);
    }
    let n = parts.len();
    let test = chars_of("test");
    let last = contains_seq(parts[n - 1].as_slice(), test.as_slice());
    proof {
        assert(views(parts@)[n - 1] == parts@[n - 1]@);
    }
    if last {
        return true;
    }
    if n >= 2 {
        proof {
            assert(views(parts@)[n - 2] == parts@[n - 2]@);
        }
        contains_seq(parts[n - 2].as_slice(), test.as_slice())
    } else {
        false
    }
}

/// The counts as numbers.
pub open spec fn counts_view(v: Seq<usize>) -> Seq<nat> {
    Seq::new(v.len(), |i: int| v[i] as nat)
}

/// The size findings, given which lines pin a size, the length
/// constraints on each line, and which lines hold a flexible constraint.
pub fn size_lines(
    lines: &Vec<Vec<char>>,
    file_path: &str,
    sized: &Vec<bool>,
    lengths: &Vec<usize>,
    flexible: &Vec<bool>,
) -> (out: Vec<Finding>)
    requires
        sized@.len() == lines@.len(),
        lengths@.len() == lines@.len(),
        flexible@.len() == lines@.len(),
    ensures
        findings_view(out@) == size_spec(file_path@, views(lines@), sized@, counts_view(lengths@), flexible@),
{
    let ghost counts = counts_view(lengths@);
    if in_test_path(file_path) {
        proof {
            assert(findings_view(Seq::<Finding>::empty()) =~= Seq::<FindingView>::empty());
        }
        return Vec::new();
    }
    let named = flag_lines("tui-hardcoded-size", file_path, lines, sized, None);
    let mut total: u128 = 0;
    let mut first: Option<usize> = None;
    let mut any_flex = false;
    let mut i: usize = 0;
    while i < lines.len()
        invariant
            counts == counts_view(lengths@),
            lengths@.len() == lines@.len(),
            flexible@.len() == lines@.len(),
            0 <= i <= lines@.len(),
            total == count_sum(counts, i as int),
            total <= i * 0x1_0000_0000_0000_0000,
            match first {
                Some(k) => first_counted(counts, 0) == Some(k as int) && k < i,
                None => first_counted(counts, 0) == first_counted(counts, i as int),
            },
            any_flex == exists|k: int| 0 <= k < i && #[trigger] flexible@[k],
        decreases lines@.len() - i,
    {
        if lengths[i] > 0 && first.is_none() {
            first = Some(i);
        }
        total = total + lengths[i] as u128;
        if flexible[i] {
            any_flex = true;
        }
        i = i + 1;
    }
    let mut extra: Vec<Finding> = Vec::new();
    if total >= 2 && !any_flex {
        match first {
            Some(k) => {
                let mut f = hit("tui-hardcoded-size", file_path, lines, k);
                add_count(&mut f, "lengthConstraints", total);
                extra.push(f);
            },
            None => {},
        }
    }
    proof {
        assert(findings_view(extra@) =~= (if total >= 2 && !any_flex && first_counted(counts, 0) is Some {
            seq![
                counted(
                    hit_view("tui-hardcoded-size"@, file_path@, views(lines@), first_counted(counts, 0)->0),
                    "lengthConstraints"@,
                    total as int,
                ),
            ]
        } else {
            Seq::<FindingView>::empty()
        }));
    }
    merge_by_line(named, extra)
}

/// How many times `pattern` matches each line.
pub fn line_match_counts(pattern: &str, lines: &Vec<Vec<char>>) -> (counts: Vec<usize>)
    ensures
        counts@.len() == lines@.len(),
        counts_view(counts@) == line_counts(pattern@, views(lines@)),
{
    let mut counts: Vec<usize> = Vec::new();
    let mut i: usize = 0;
    while i < lines.len()
        invariant
            0 <= i <= lines@.len(),
            counts_view(counts@) =~= line_counts(pattern@, views(lines@)).take(i as int),
        decreases lines@.len() - i,
    {
        let n = count_matches(pattern, lines[i].as_slice());
        let ghost before = counts_view(counts@);
        counts.push(n);
        proof {
            assert(views(lines@)[i as int] == lines@[i as int]@);
            assert(counts_view(counts@) =~= before.push(n as nat));
            assert(counts_view(counts@) =~= line_counts(pattern@, views(lines@)).take(i + 1));
        }
        i = i + 1;
    }
    proof {
        assert(line_counts(pattern@, views(lines@)).take(lines@.len() as int) =~= line_counts(pattern@, views(lines@)));
    }
    counts
}

/// `tui-hardcoded-size`: a terminal size pinned to 80 by 24, or a layout
/// built only from fixed lengths, outside test paths.
pub fn scan_terminal_hardcoded_size(lines: &Vec<Vec<char>>, file_path: &str) -> (out: Vec<Finding>)
    ensures
        findings_view(out@) == size_spec(
            file_path@,
            views(lines@),
            any_of(
                line_matches(RECT_LITERAL_RE@, views(lines@)),
                line_matches(SIZE_80_RE@, views(lines@)),
                line_matches(SIZE_24_RE@, views(lines@)),
                line_matches(SIZE_CALL_RE@, views(lines@)),
            ),
            line_counts(CONSTRAINT_LENGTH_RE@, views(lines@)),
            line_matches(CONSTRAINT_FLEX_RE@, views(lines@)),
        ),
{
    let a = line_flags(RECT_LITERAL_RE, lines);
    let b = line_flags(SIZE_80_RE, lines);
    let c = line_flags(SIZE_24_RE, lines);
    let d = line_flags(SIZE_CALL_RE, lines);
    let ghost want = any_of(a@, b@, c@, d@);
    let mut sized: Vec<bool> = Vec::new();
    let mut i: usize = 0;
    while i < lines.len()
        invariant
            a@.len() == lines@.len(),
            b@.len() == lines@.len(),
            c@.len() == lines@.len(),
            d@.len() == lines@.len(),
            want == any_of(a@, b@, c@, d@),
            0 <= i <= lines@.len(),
            sized@ =~= want.take(i as int),
        decreases lines@.len() - i,
    {
        sized.push(a[i] || b[i] || c[i] || d[i]);
        i = i + 1;
    }
    proof {
        assert(want.take(lines@.len() as int) =~= want);
    }
    let lengths = line_match_counts(CONSTRAINT_LENGTH_RE, lines);
    let flexible = line_flags(CONSTRAINT_FLEX_RE, lines);
    size_lines(lines, file_path, &sized, &lengths, &flexible)
}

// ─── Grapheme-unsafe truncation ─────────────────────────────────────────────

/// Rust truncation by bytes or chars.
pub const RUST_TRUNC_RE: &'static str = "&\\w+\\[\\.\\.[ \\t]*\\w+\\]|\\.chars\\(\\)\\.take\\(";

/// Go truncation by bytes.
pub const GO_TRUNC_RE: &'static str = "\\b\\w+\\[:\\w+\\]";

/// JavaScript truncation by code units.
pub const JS_TRUNC_RE: &'static str = "\\.slice\\(0,|\\.substring\\(0,";

/// An ellipsis in a literal, or the ellipsis character.
pub const ELLIPSIS_RE: &'static str = "\"[^\"\\n]*\\.\\.\\.[^\"\\n]*\"|'[^'\\n]*\\.\\.\\.[^'\\n]*'|`[^`\\n]*\\.\\.\\.[^`\\n]*`|…|\\\\u\\{2026\\}|\\\\u2026";

/// The truncation pattern of a stack.
pub open spec fn trunc_pattern(stack: Stack) -> Seq<char> {
    match stack {
        Stack::Ratatui => RUST_TRUNC_RE@,
        Stack::Charm => GO_TRUNC_RE@,
        Stack::Ink => JS_TRUNC_RE@,
        _ => Seq::empty(),
    }
}

/// A truncation with an ellipsis on its line or one of the next two.
pub open spec fn trunc_flags(trunc: Seq<bool>, ellipsis: Seq<bool>) -> Seq<bool> {
    Seq::new(
        trunc.len(),
        |i: int| trunc[i] && exists|k: int| i <= k < i + 3 && k < ellipsis.len() && #[trigger] ellipsis[k],
    )
}

/// What `tui-grapheme-unsafe-truncate` reports, given the lines that
/// truncate and the lines with an ellipsis: nothing when the project
/// measures width, nothing for Python (Rich and Textual measure for the
/// caller).
pub open spec fn truncate_spec(
    file: Seq<char>,
    lines: Seq<Seq<char>>,
    stack: Stack,
    signals: Option<ProjectSignals>,
    trunc: Seq<bool>,
    ellipsis: Seq<bool>,
) -> Seq<FindingView> {
    if (signals matches Some(s) && s.has_width_lib) || stack == Stack::Textual || stack == Stack::TextualCss {
        Seq::empty()
    } else {
        flagged(
            "tui-grapheme-unsafe-truncate"@,
            file,
            lines,
            trunc_flags(trunc, ellipsis),
            if signals is None { Some(SIGNALS_NOTE@) } else { None },
            lines.len() as int,
        )
    }
}

/// The truncation findings, given which lines truncate and which hold an
/// ellipsis.
pub fn truncate_lines(
    lines: &Vec<Vec<char>>,
    file_path: &str,
    stack: Stack,
    signals: Option<&ProjectSignals>,
    trunc: &Vec<bool>,
    ellipsis: &Vec<bool>,
) -> (out: Vec<Finding>)
    requires
        trunc@.len() == lines@.len(),
        ellipsis@.len() == lines@.len(),
    ensures
        findings_view(out@) == truncate_spec(file_path@, views(lines@), stack, signals_view(signals), trunc@, ellipsis@),
{
    let measured = match signals {
        Some(s) => s.has_width_lib,
        None => false,
    };
    if measured || stack == Stack::Textual || stack == Stack::TextualCss {
        proof {
            assert(findings_view(Seq::<Finding>::empty()) =~= Seq::<FindingView>::empty());
        }
        return Vec::new();
    }
    let ghost want = trunc_flags(trunc@, ellipsis@);
    let n = lines.len();
    let mut flags: Vec<bool> = Vec::new();
    let mut i: usize = 0;
    while i < n
        invariant
            n == lines@.len(),
            trunc@.len() == n,
            ellipsis@.len() == n,
            want == trunc_flags(trunc@, ellipsis@),
            0 <= i <= n,
            flags@ =~= want.take(i as int),
        decreases n - i,
    {
        let mut near = false;
        let mut k = i;
        while k < n && k - i < 3
            invariant
                n == ellipsis@.len(),
                i <= k <= n,
                k - i <= 3,
                near == exists|j: int| i <= j < k && #[trigger] ellipsis@[j],
            decreases n - k,
        {
            if ellipsis[k] {
                near = true;
            }
            k = k + 1;
        }
        proof {
            assert(near == exists|j: int| i <= j < i + 3 && j < ellipsis@.len() && #[trigger] ellipsis@[j]);
        }
        flags.push(trunc[i] && near);
        i = i + 1;
    }
    proof {
        assert(want.take(n as int) =~= want);
    }
    let note: Option<&str> = if signals.is_none() { Some(SIGNALS_NOTE) } else { None };
    flag_lines("tui-grapheme-unsafe-truncate", file_path, lines, &flags, note)
}

/// `tui-grapheme-unsafe-truncate`: text cut by bytes or code points right
/// before an ellipsis, in a project with no width library.
pub fn scan_terminal_grapheme_truncate(
    lines: &Vec<Vec<char>>,
    file_path: &str,
    stack: Stack,
    signals: Option<&ProjectSignals>,
) -> (out: Vec<Finding>)
    ensures
        findings_view(out@) == truncate_spec(
            file_path@,
            views(lines@),
            stack,
            signals_view(signals),
            line_matches(trunc_pattern(stack), views(lines@)),
            line_matches(ELLIPSIS_RE@, views(lines@)),
        ),
{
    let pattern = match stack {
        Stack::Ratatui => RUST_TRUNC_RE,
        Stack::Charm => GO_TRUNC_RE,
        Stack::Ink => JS_TRUNC_RE,
        _ => "",
    };
    proof {
        if stack != Stack::Textual && stack != Stack::TextualCss {
            assert(pattern@ == trunc_pattern(stack));
        }
    }
    let trunc = line_flags(pattern, lines);
    let ellipsis = line_flags(ELLIPSIS_RE, lines);
    let out = truncate_lines(lines, file_path, stack, signals, &trunc, &ellipsis);
    proof {
        if stack == Stack::Textual || stack == Stack::TextualCss {
            assert(truncate_spec(file_path@, views(lines@), stack, signals_view(signals), trunc@, ellipsis@) =~= Seq::<
                FindingView,
            >::empty());
        }
    }
    out
}

// ─── Printing inside the UI ─────────────────────────────────────────────────

/// A Textual class: an app, widget, screen or container.
pub const TEXTUAL_CLASS_RE: &'static str = "^[ \\t]*class[ \\t]+\\w+\\([^)]*\\b(?:App|Widget|Screen|ModalScreen|Static|Container)\\b";

/// A Python function definition.
pub const PY_DEF_RE: &'static str = "^[ \\t]*(?:async[ \\t]+)?def[ \\t]+\\w+";

/// A bare `print(` call.
pub const PY_PRINT_RE: &'static str = "(?:^|[^.\\w])print\\(";

/// A `console.log(` call.
pub const INK_CONSOLE_LOG_RE: &'static str = "\\bconsole\\.log\\(";

/// How many spaces and tabs begin `s[i..]`.
pub open spec fn indent_from(s: Seq<char>, i: int) -> nat
    decreases s.len() - i,
{
    if 0 <= i < s.len() && (s[i] == ' ' || s[i] == '\t') {
        1 + indent_from(s, i + 1)
    } else {
        0
    }
}

/// The indentation of a line: its leading spaces and tabs.
pub open spec fn indent(s: Seq<char>) -> nat {
    indent_from(s, 0)
}

/// A line with nothing but whitespace.
pub open spec fn blank_line(s: Seq<char>) -> bool {
    trim(s).len() == 0
}

/// The first line of the decorators directly above line `i`.
pub open spec fn deco_top(lines: Seq<Seq<char>>, i: int) -> int
    decreases i,
{
    if i > 0 && i <= lines.len() && has_prefix(trim_start(lines[i - 1]), "@"@) {
        deco_top(lines, i - 1)
    } else {
        i
    }
}

/// `@work`, `@work(...)` or `@work.…`: Textual's worker decorator.
pub open spec fn work_decorator(d: Seq<char>) -> bool {
    d == "@work"@ || has_prefix(d, "@work("@) || has_prefix(d, "@work."@)
}

/// The definition at line `i` carries a worker decorator.
pub open spec fn worker_at(lines: Seq<Seq<char>>, i: int) -> bool {
    exists|k: int| deco_top(lines, i) <= k < i && #[trigger] work_decorator(trim_start(lines[k]))
}

/// Where the walk over a Python file is.
#[derive(Debug, Clone, Copy, PartialEq, Eq, Structural)]
pub enum PrintState {
    Outside,
    /// Inside a Textual class indented `class_indent`, in the method
    /// indented `method` (if any), which is or is not a worker.
    InClass { class_indent: usize, method: Option<usize>, worker: bool },
}

/// One line of the walk: the next state, and whether the line reports.
pub open spec fn print_step(
    lines: Seq<Seq<char>>,
    class: Seq<bool>,
    def: Seq<bool>,
    print: Seq<bool>,
    i: int,
    st: PrintState,
) -> (PrintState, bool) {
    let l = lines[i];
    let outside = if class[i] {
        (PrintState::InClass { class_indent: indent(l) as usize, method: None, worker: false }, false)
    } else {
        (PrintState::Outside, false)
    };
    match st {
        PrintState::Outside => outside,
        PrintState::InClass { class_indent, method, worker } => {
            if !blank_line(l) && indent(l) <= class_indent {
                // The class ended; the line is read again outside it.
                outside
            } else if def[i] {
                // A def no deeper than the current method is a new method;
                // a deeper one is a nested function.
                if method is None || indent(l) <= method->0 {
                    (PrintState::InClass { class_indent, method: Some(indent(l) as usize), worker: worker_at(lines, i) }, false)
                } else {
                    (st, false)
                }
            } else {
                (st, !blank_line(l) && !worker && method is Some && indent(l) > method->0 && print[i])
            }
        },
    }
}

/// The walk over lines before `k`: the state, and the findings so far.
pub open spec fn print_upto(
    file: Seq<char>,
    lines: Seq<Seq<char>>,
    class: Seq<bool>,
    def: Seq<bool>,
    print: Seq<bool>,
    k: int,
) -> (PrintState, Seq<FindingView>)
    decreases k,
{
    if k <= 0 {
        (PrintState::Outside, Seq::empty())
    } else {
        let (st, out) = print_upto(file, lines, class, def, print, k - 1);
        let (st2, report) = print_step(lines, class, def, print, k - 1, st);
        (st2, if report { out.push(hit_view("tui-print-in-loop"@, file, lines, k - 1)) } else { out })
    }
}

/// Some line mentions `patchConsole` or `patch-console`.
pub open spec fn console_patched(lines: Seq<Seq<char>>) -> bool {
    exists|i: int|
        0 <= i < lines.len() && (has_infix(#[trigger] lines[i], "patchConsole"@) || has_infix(lines[i], "patch-console"@))
}

/// What `tui-print-in-loop` reports, given the pattern matches: for Ink,
/// every `console.log` unless the console is patched; for Textual, a
/// `print` inside a method of a Textual class that is no worker.
pub open spec fn print_spec(
    file: Seq<char>,
    lines: Seq<Seq<char>>,
    stack: Stack,
    console: Seq<bool>,
    class: Seq<bool>,
    def: Seq<bool>,
    print: Seq<bool>,
) -> Seq<FindingView> {
    match stack {
        Stack::Ink => if console_patched(lines) {
            Seq::empty()
        } else {
            flagged("tui-print-in-loop"@, file, lines, console, None, lines.len() as int)
        },
        Stack::Textual => print_upto(file, lines, class, def, print, lines.len() as int).1,
        _ => Seq::empty(),
    }
}

/// The indentation of `s`.
fn indent_of(s: &Vec<char>) -> (n: usize)
    ensures
        n == indent(s@),
{
    let mut i: usize = 0;
    while i < s.len() && (s[i] == ' ' || s[i] == '\t')
        invariant
            0 <= i <= s@.len(),
            indent(s@) == i + indent_from(s@, i as int),
        decreases s@.len() - i,
    {
        i = i + 1;
    }
    i
}

fn is_blank_line(s: &Vec<char>) -> (b: bool)
    ensures
        b == blank_line(s@),
{
    let t = trim_chars(s.as_slice());
    t.len() == 0
}

/// Does the definition at line `i` carry a worker decorator?
fn is_worker(lines: &Vec<Vec<char>>, i: usize) -> (b: bool)
    requires
        i < lines@.len(),
    ensures
        b == worker_at(views(lines@), i as int),
{
    let ghost ls = views(lines@);
    let at = chars_of("@");
    let work = chars_of("@work");
    let work_call = chars_of("@work(");
    let work_attr = chars_of("@work.");
    let mut worker = false;
    let mut k = i;
    while k > 0 && starts_with(trim_start_chars(lines[k - 1].as_slice()).as_slice(), at.as_slice())
        invariant
            ls == views(lines@),
            i < lines@.len(),
            0 <= k <= i,
            at@ == "@"@,
            work@ == "@work"@,
            work_call@ == "@work("@,
            work_attr@ == "@work."@,
            deco_top(ls, i as int) == deco_top(ls, k as int),
            worker == exists|j: int| k <= j < i && #[trigger] work_decorator(trim_start(ls[j])),
        decreases k,
    {
        proof {
            assert(ls[k - 1] == lines@[k - 1]@);
        }
        k = k - 1;
        let d = trim_start_chars(lines[k].as_slice());
        proof {
            assert(ls[k as int] == lines@[k as int]@);
        }
        let ghost old_worker = worker;
        let hit = same_chars(d.as_slice(), work.as_slice()) || starts_with(d.as_slice(), work_call.as_slice())
            || starts_with(d.as_slice(), work_attr.as_slice());
        if hit {
            worker = true;
        }
        proof {
            assert(hit == work_decorator(trim_start(ls[k as int])));
            if !hit && !old_worker {
                assert forall|j: int| k <= j < i implies !#[trigger] work_decorator(trim_start(ls[j])) by {
                    if j > k {
                        assert(!(k + 1 <= j < i && work_decorator(trim_start(ls[j]))) || old_worker);
                    }
                }
            }
            if old_worker {
                let j = choose|j: int| k + 1 <= j < i && #[trigger] work_decorator(trim_start(ls[j]));
                assert(k <= j < i);
            }
        }
    }
    proof {
        if k > 0 {
            assert(ls[k - 1] == lines@[k - 1]@);
        }
    }
    worker
}

/// The Textual print findings, given which lines open a Textual class,
/// define a function, and call `print`.
pub fn textual_print_lines(
    lines: &Vec<Vec<char>>,
    file_path: &str,
    class: &Vec<bool>,
    def: &Vec<bool>,
    print: &Vec<bool>,
) -> (out: Vec<Finding>)
    requires
        class@.len() == lines@.len(),
        def@.len() == lines@.len(),
        print@.len() == lines@.len(),
    ensures
        findings_view(out@) == print_upto(file_path@, views(lines@), class@, def@, print@, lines@.len() as int).1,
{
    let ghost ls = views(lines@);
    let mut out: Vec<Finding> = Vec::new();
    let mut st = PrintState::Outside;
    let mut i: usize = 0;
    while i < lines.len()
        invariant
            ls == views(lines@),
            class@.len() == lines@.len(),
            def@.len() == lines@.len(),
            print@.len() == lines@.len(),
            0 <= i <= lines@.len(),
            print_upto(file_path@, ls, class@, def@, print@, i as int) == (st, findings_view(out@)),
        decreases lines@.len() - i,
    {
        let ghost before = findings_view(out@);
        let ghost step = print_step(ls, class@, def@, print@, i as int, st);
        let l = &lines[i];
        proof {
            assert(ls[i as int] == l@);
        }
        let ind = indent_of(l);
        let blank = is_blank_line(l);
        let outside = if class[i] {
            PrintState::InClass { class_indent: ind, method: None, worker: false }
        } else {
            PrintState::Outside
        };
        let mut report = false;
        let next = match st {
            PrintState::Outside => outside,
            PrintState::InClass { class_indent, method, worker } => {
                if !blank && ind <= class_indent {
                    outside
                } else if def[i] {
                    let new_method = match method {
                        None => true,
                        Some(m) => ind <= m,
                    };
                    if new_method {
                        PrintState::InClass { class_indent, method: Some(ind), worker: is_worker(lines, i) }
                    } else {
                        st
                    }
                } else {
                    let deeper = match method {
                        Some(m) => ind > m,
                        None => false,
                    };
                    report = !blank && !worker && deeper && print[i];
                    st
                }
            },
        };
        proof {
            assert(next == step.0);
            assert(report == step.1);
        }
        if report {
            let f = hit("tui-print-in-loop", file_path, lines, i);
            out.push(f);
        }
        st = next;
        proof {
            assert(findings_view(out@) =~= (if report { before.push(hit_view("tui-print-in-loop"@, file_path@, ls, i as int)) } else { before }));
        }
        i = i + 1;
    }
    out
}

/// Is the console patched anywhere in the file?
fn is_console_patched(lines: &Vec<Vec<char>>) -> (b: bool)
    ensures
        b == console_patched(views(lines@)),
{
    let ghost ls = views(lines@);
    let a = chars_of("patchConsole");
    let b = chars_of("patch-console");
    let mut i: usize = 0;
    while i < lines.len()
        invariant
            ls == views(lines@),
            a@ == "patchConsole"@,
            b@ == "patch-console"@,
            0 <= i <= lines@.len(),
            forall|k: int|
                0 <= k < i ==> !(has_infix(#[trigger] ls[k], "patchConsole"@) || has_infix(ls[k], "patch-console"@)),
        decreases lines@.len() - i,
    {
        proof {
            assert(ls[i as int] == lines@[i as int]@);
        }
        if contains_seq(lines[i].as_slice(), a.as_slice()) || contains_seq(lines[i].as_slice(), b.as_slice()) {
            return true;
        }
        i = i + 1;
    }
    false
}

/// The print findings, given the pattern matches.
pub fn print_lines(
    lines: &Vec<Vec<char>>,
    file_path: &str,
    stack: Stack,
    console: &Vec<bool>,
    class: &Vec<bool>,
    def: &Vec<bool>,
    print: &Vec<bool>,
) -> (out: Vec<Finding>)
    requires
        console@.len() == lines@.len(),
        class@.len() == lines@.len(),
        def@.len() == lines@.len(),
        print@.len() == lines@.len(),
    ensures
        findings_view(out@) == print_spec(file_path@, views(lines@), stack, console@, class@, def@, print@),
{
    match stack {
        Stack::Ink => {
            if is_console_patched(lines) {
                proof {
                    assert(findings_view(Seq::<Finding>::empty()) =~= Seq::<FindingView>::empty());
                }
                Vec::new()
            } else {
                flag_lines("tui-print-in-loop", file_path, lines, console, None)
            }
        },
        Stack::Textual => textual_print_lines(lines, file_path, class, def, print),
        _ => {
            proof {
                assert(findings_view(Seq::<Finding>::empty()) =~= Seq::<FindingView>::empty());
            }
            Vec::new()
        },
    }
}

/// `tui-print-in-loop`: printing straight to the terminal from inside the
/// running UI, which corrupts the frame.
pub fn scan_terminal_print_in_loop(lines: &Vec<Vec<char>>, file_path: &str, stack: Stack) -> (out: Vec<Finding>)
    ensures
        findings_view(out@) == print_spec(
            file_path@,
            views(lines@),
            stack,
            line_matches(INK_CONSOLE_LOG_RE@, views(lines@)),
            line_matches(TEXTUAL_CLASS_RE@, views(lines@)),
            line_matches(PY_DEF_RE@, views(lines@)),
            line_matches(PY_PRINT_RE@, views(lines@)),
        ),
{
    let console = line_flags(INK_CONSOLE_LOG_RE, lines);
    let class = line_flags(TEXTUAL_CLASS_RE, lines);
    let def = line_flags(PY_DEF_RE, lines);
    let print = line_flags(PY_PRINT_RE, lines);
    print_lines(lines, file_path, stack, &console, &class, &def, &print)
}

// ─── Every rule over one file ───────────────────────────────────────────────

/// Which lines `pattern` matches, for [`source_spec`].
pub open spec fn lm(pattern: &str, lines: Seq<Seq<char>>) -> Seq<bool> {
    line_matches(pattern@, lines)
}

/// Every terminal rule over one file, in rule order.
pub open spec fn source_spec(source: Seq<char>, file: Seq<char>, stack: Stack, signals: Option<ProjectSignals>) -> Seq<FindingView> {
    let l = lines_of(source);
    let n = l.len() as int;
    figlet_spec(file, l, lm(FIGLET_RE, l)) + flagged(
        "tui-gradient-title"@,
        file,
        l,
        gradient_flags(l, lm(GRADIENT_RE, l), lm(BLEND_RE, l), lm(TITLE_WORD_RE, l)),
        None,
        n,
    ) + flagged("tui-blink-attribute"@, file, l, lm(BLINK_RE, l), None, n) + emoji_spec(file, l) + flagged(
        "tui-double-border"@,
        file,
        l,
        lm(DOUBLE_BORDER_RE, l),
        None,
        n,
    ) + rgb_spec(file, l, stack, signals, lm(RGB_RE, l)) + spinner_src_spec(file, l, signals, lm(SPINNER_RE, l))
        + size_spec(
        file,
        l,
        any_of(lm(RECT_LITERAL_RE, l), lm(SIZE_80_RE, l), lm(SIZE_24_RE, l), lm(SIZE_CALL_RE, l)),
        line_counts(CONSTRAINT_LENGTH_RE@, l),
        lm(CONSTRAINT_FLEX_RE, l),
    ) + truncate_spec(file, l, stack, signals, line_matches(trunc_pattern(stack), l), lm(ELLIPSIS_RE, l)) + nerd_spec(
        file,
        l,
        signals,
    ) + print_spec(
        file,
        l,
        stack,
        lm(INK_CONSOLE_LOG_RE, l),
        lm(TEXTUAL_CLASS_RE, l),
        lm(PY_DEF_RE, l),
        lm(PY_PRINT_RE, l),
    )
}

/// Run every terminal rule over one file. `source` is the file text with
/// comments already blanked ([`strip_python_comments`] for Python,
/// [`strip_c_comments`] for Rust, Go and Textual CSS).
pub fn scan_terminal_source(source: &str, file_path: &str, stack: Stack, signals: Option<&ProjectSignals>) -> (out: Vec<Finding>)
    ensures
        findings_view(out@) == source_spec(source@, file_path@, stack, signals_view(signals)),
{
    let c = chars_of(source);
    let seps: Vec<char> = vec!['\n'];
    let lines = split_chars(c.as_slice(), seps.as_slice());
    proof {
        assert(seps@ =~= seq!['\n']);
    }
    let mut out = scan_terminal_figlet_banner(&lines, file_path);
    extend(&mut out, scan_terminal_gradient_title(&lines, file_path));
    extend(&mut out, scan_terminal_blink_attribute(&lines, file_path));
    extend(&mut out, scan_terminal_emoji_density(&lines, file_path));
    extend(&mut out, scan_terminal_double_border(&lines, file_path));
    extend(&mut out, scan_terminal_hardcoded_rgb(&lines, file_path, stack, signals));
    extend(&mut out, scan_terminal_spinner(&lines, file_path, signals));
    extend(&mut out, scan_terminal_hardcoded_size(&lines, file_path));
    extend(&mut out, scan_terminal_grapheme_truncate(&lines, file_path, stack, signals));
    extend(&mut out, scan_terminal_nerd_glyph(&lines, file_path, signals));
    extend(&mut out, scan_terminal_print_in_loop(&lines, file_path, stack));
    out
}

// ─── Laws ───────────────────────────────────────────────────────────────────

proof fn lemma_flagged_shape(id: Seq<char>, file: Seq<char>, lines: Seq<Seq<char>>, flags: Seq<bool>, note: Option<Seq<char>>, k: int)
    ensures
        in_file(flagged(id, file, lines, flags, note, k), file),
        by_line(flagged(id, file, lines, flags, note, k)),
        forall|i: int|
            0 <= i < flagged(id, file, lines, flags, note, k).len() ==> (#[trigger] flagged(id, file, lines, flags, note, k)[i]).line
                <= k,
    decreases k,
{
    if k > 0 {
        lemma_flagged_shape(id, file, lines, flags, note, k - 1);
        let a = flagged(id, file, lines, flags, note, k - 1);
        let s = flagged(id, file, lines, flags, note, k);
        assert forall|i: int| 0 <= i < s.len() implies (#[trigger] s[i]).severity == "advisory"@ && s[i].file == file
            && s[i].line <= k by {
            if i < a.len() {
                assert(s[i] == a[i]);
            }
        }
        assert forall|i: int, j: int| 0 <= i < j < s.len() implies (#[trigger] s[i]).line <= (#[trigger] s[j]).line by {
            if j < a.len() {
                assert(s[i] == a[i]);
                assert(s[j] == a[j]);
            } else {
                assert(s[i] == a[i]);
            }
        }
    }
}

proof fn lemma_banners_shape(file: Seq<char>, lines: Seq<Seq<char>>, k: int)
    ensures
        in_file(banners_upto(file, lines, k), file),
        by_line(banners_upto(file, lines, k)),
        forall|i: int| 0 <= i < banners_upto(file, lines, k).len() ==> (#[trigger] banners_upto(file, lines, k)[i]).line <= k - 3,
    decreases k,
{
    if k > 0 {
        lemma_banners_shape(file, lines, k - 1);
        let a = banners_upto(file, lines, k - 1);
        let s = banners_upto(file, lines, k);
        assert forall|i: int| 0 <= i < s.len() implies (#[trigger] s[i]).severity == "advisory"@ && s[i].file == file
            && s[i].line <= k - 3 by {
            if i < a.len() {
                assert(s[i] == a[i]);
            }
        }
        assert forall|i: int, j: int| 0 <= i < j < s.len() implies (#[trigger] s[i]).line <= (#[trigger] s[j]).line by {
            if j < a.len() {
                assert(s[i] == a[i]);
                assert(s[j] == a[j]);
            } else {
                assert(s[i] == a[i]);
            }
        }
    }
}

proof fn lemma_merge_in_file(a: Seq<FindingView>, b: Seq<FindingView>, file: Seq<char>)
    requires
        in_file(a, file),
        in_file(b, file),
    ensures
        in_file(merge_lines(a, b), file),
{
    lemma_merge_parts(a, b);
    let m = merge_lines(a, b);
    assert forall|i: int| 0 <= i < m.len() implies (#[trigger] m[i]).severity == "advisory"@ && m[i].file == file by {
        if exists|k: int| 0 <= k < a.len() && m[i] == a[k] {
            let k = choose|k: int| 0 <= k < a.len() && m[i] == a[k];
            assert(a[k].severity == "advisory"@);
        } else {
            let k = choose|k: int| 0 <= k < b.len() && m[i] == b[k];
            assert(b[k].severity == "advisory"@);
        }
    }
}

/// The banner rule reports in line order: the stable sort the rule
/// promises.
pub proof fn law_figlet_in_line_order(file: Seq<char>, lines: Seq<Seq<char>>, flags: Seq<bool>)
    ensures
        by_line(figlet_spec(file, lines, flags)),
{
    lemma_flagged_shape("tui-figlet-banner"@, file, lines, flags, None, lines.len() as int);
    lemma_banners_shape(file, lines, lines.len() as int);
    law_merge_keeps_line_order(
        flagged("tui-figlet-banner"@, file, lines, flags, None, lines.len() as int),
        banners_upto(file, lines, lines.len() as int),
    );
}

/// The size rule reports in line order.
pub proof fn law_size_in_line_order(file: Seq<char>, lines: Seq<Seq<char>>, sized: Seq<bool>, lengths: Seq<nat>, flexible: Seq<bool>)
    ensures
        by_line(size_spec(file, lines, sized, lengths, flexible)),
{
    if !test_path(file) {
        lemma_flagged_shape("tui-hardcoded-size"@, file, lines, sized, None, lines.len() as int);
        let total = count_sum(lengths, lengths.len() as int);
        let rigid = total >= 2 && !(exists|i: int| 0 <= i < flexible.len() && #[trigger] flexible[i]);
        let extra = if rigid && first_counted(lengths, 0) is Some {
            seq![
                counted(
                    hit_view("tui-hardcoded-size"@, file, lines, first_counted(lengths, 0)->0),
                    "lengthConstraints"@,
                    total as int,
                ),
            ]
        } else {
            Seq::<FindingView>::empty()
        };
        law_merge_keeps_line_order(flagged("tui-hardcoded-size"@, file, lines, sized, None, lines.len() as int), extra);
    }
}

proof fn lemma_print_in_file(file: Seq<char>, lines: Seq<Seq<char>>, class: Seq<bool>, def: Seq<bool>, print: Seq<bool>, k: int)
    ensures
        in_file(print_upto(file, lines, class, def, print, k).1, file),
    decreases k,
{
    if k > 0 {
        lemma_print_in_file(file, lines, class, def, print, k - 1);
        let a = print_upto(file, lines, class, def, print, k - 1).1;
        let s = print_upto(file, lines, class, def, print, k).1;
        assert forall|i: int| 0 <= i < s.len() implies (#[trigger] s[i]).severity == "advisory"@ && s[i].file == file by {
            if i < a.len() {
                assert(s[i] == a[i]);
            }
        }
    }
}

/// Every finding of a source scan is advisory and names the scanned file.
pub proof fn law_source_findings_are_advisory(source: Seq<char>, file: Seq<char>, stack: Stack, signals: Option<ProjectSignals>)
    ensures
        in_file(source_spec(source, file, stack, signals), file),
{
    let l = lines_of(source);
    let n = l.len() as int;
    let e = Seq::<FindingView>::empty();
    lemma_flagged_shape("tui-figlet-banner"@, file, l, lm(FIGLET_RE, l), None, n);
    lemma_banners_shape(file, l, n);
    lemma_merge_in_file(flagged("tui-figlet-banner"@, file, l, lm(FIGLET_RE, l), None, n), banners_upto(file, l, n), file);
    let p1 = figlet_spec(file, l, lm(FIGLET_RE, l));
    let gf = gradient_flags(l, lm(GRADIENT_RE, l), lm(BLEND_RE, l), lm(TITLE_WORD_RE, l));
    lemma_flagged_shape("tui-gradient-title"@, file, l, gf, None, n);
    let p2 = flagged("tui-gradient-title"@, file, l, gf, None, n);
    lemma_flagged_shape("tui-blink-attribute"@, file, l, lm(BLINK_RE, l), None, n);
    let p3 = flagged("tui-blink-attribute"@, file, l, lm(BLINK_RE, l), None, n);
    let p4 = emoji_spec(file, l);
    assert(in_file(p4, file));
    lemma_flagged_shape("tui-double-border"@, file, l, lm(DOUBLE_BORDER_RE, l), None, n);
    let p5 = flagged("tui-double-border"@, file, l, lm(DOUBLE_BORDER_RE, l), None, n);
    lemma_flagged_shape("tui-hardcoded-rgb-no-adapt"@, file, l, lm(RGB_RE, l), rgb_note(signals), n);
    let p6 = rgb_spec(file, l, stack, signals, lm(RGB_RE, l));
    assert(in_file(p6, file));
    lemma_flagged_shape("tui-spinner-no-tty-guard"@, file, l, lm(SPINNER_RE, l), None, n);
    lemma_flagged_shape("tui-spinner-no-tty-guard"@, file, l, lm(SPINNER_RE, l), Some(SIGNALS_NOTE@), n);
    let p7 = spinner_src_spec(file, l, signals, lm(SPINNER_RE, l));
    assert(in_file(p7, file));
    let sized = any_of(lm(RECT_LITERAL_RE, l), lm(SIZE_80_RE, l), lm(SIZE_24_RE, l), lm(SIZE_CALL_RE, l));
    let lengths = line_counts(CONSTRAINT_LENGTH_RE@, l);
    let p8 = size_spec(file, l, sized, lengths, lm(CONSTRAINT_FLEX_RE, l));
    if !test_path(file) {
        lemma_flagged_shape("tui-hardcoded-size"@, file, l, sized, None, n);
        let total = count_sum(lengths, lengths.len() as int);
        let rigid = total >= 2 && !(exists|i: int|
            0 <= i < lm(CONSTRAINT_FLEX_RE, l).len() && #[trigger] lm(CONSTRAINT_FLEX_RE, l)[i]);
        let extra = if rigid && first_counted(lengths, 0) is Some {
            seq![
                counted(
                    hit_view("tui-hardcoded-size"@, file, l, first_counted(lengths, 0)->0),
                    "lengthConstraints"@,
                    total as int,
                ),
            ]
        } else {
            e
        };
        lemma_merge_in_file(flagged("tui-hardcoded-size"@, file, l, sized, None, n), extra, file);
    }
    assert(in_file(p8, file));
    let tf = trunc_flags(line_matches(trunc_pattern(stack), l), lm(ELLIPSIS_RE, l));
    lemma_flagged_shape("tui-grapheme-unsafe-truncate"@, file, l, tf, None, n);
    lemma_flagged_shape("tui-grapheme-unsafe-truncate"@, file, l, tf, Some(SIGNALS_NOTE@), n);
    let p9 = truncate_spec(file, l, stack, signals, line_matches(trunc_pattern(stack), l), lm(ELLIPSIS_RE, l));
    assert(in_file(p9, file));
    let p10 = nerd_spec(file, l, signals);
    assert(in_file(p10, file));
    lemma_flagged_shape("tui-print-in-loop"@, file, l, lm(INK_CONSOLE_LOG_RE, l), None, n);
    lemma_print_in_file(file, l, lm(TEXTUAL_CLASS_RE, l), lm(PY_DEF_RE, l), lm(PY_PRINT_RE, l), n);
    let p11 = print_spec(file, l, stack, lm(INK_CONSOLE_LOG_RE, l), lm(TEXTUAL_CLASS_RE, l), lm(PY_DEF_RE, l), lm(PY_PRINT_RE, l));
    assert(in_file(p11, file));
    lemma_in_file_append(p1, p2, file);
    lemma_in_file_append(p1 + p2, p3, file);
    lemma_in_file_append(p1 + p2 + p3, p4, file);
    lemma_in_file_append(p1 + p2 + p3 + p4, p5, file);
    lemma_in_file_append(p1 + p2 + p3 + p4 + p5, p6, file);
    lemma_in_file_append(p1 + p2 + p3 + p4 + p5 + p6, p7, file);
    lemma_in_file_append(p1 + p2 + p3 + p4 + p5 + p6 + p7, p8, file);
    lemma_in_file_append(p1 + p2 + p3 + p4 + p5 + p6 + p7 + p8, p9, file);
    lemma_in_file_append(p1 + p2 + p3 + p4 + p5 + p6 + p7 + p8 + p9, p10, file);
    lemma_in_file_append(p1 + p2 + p3 + p4 + p5 + p6 + p7 + p8 + p9 + p10, p11, file);
}


/// Every finding of `vs` sits on a line from 1 to `n`.
pub open spec fn lines_within(vs: Seq<FindingView>, n: int) -> bool {
    forall|i: int| 0 <= i < vs.len() ==> 1 <= (#[trigger] vs[i]).line <= n
}

proof fn lemma_lines_append(a: Seq<FindingView>, b: Seq<FindingView>, n: int)
    requires
        lines_within(a, n),
        lines_within(b, n),
    ensures
        lines_within(a + b, n),
{
    assert forall|i: int| 0 <= i < (a + b).len() implies 1 <= (#[trigger] (a + b)[i]).line <= n by {
        if i < a.len() {
            assert((a + b)[i] == a[i]);
        } else {
            assert((a + b)[i] == b[i - a.len()]);
        }
    }
}

proof fn lemma_flagged_lines(id: Seq<char>, file: Seq<char>, lines: Seq<Seq<char>>, flags: Seq<bool>, note: Option<Seq<char>>, k: int)
    requires
        0 <= k,
    ensures
        lines_within(flagged(id, file, lines, flags, note, k), k),
    decreases k,
{
    if k > 0 {
        lemma_flagged_lines(id, file, lines, flags, note, k - 1);
        let a = flagged(id, file, lines, flags, note, k - 1);
        let s = flagged(id, file, lines, flags, note, k);
        assert forall|i: int| 0 <= i < s.len() implies 1 <= (#[trigger] s[i]).line <= k by {
            if i < a.len() {
                assert(s[i] == a[i]);
            }
        }
    }
}

proof fn lemma_block_run_bound(lines: Seq<Seq<char>>, i: int)
    ensures
        block_run(lines, i) <= i + 1 || block_run(lines, i) == 0,
    decreases i + 1,
{
    if 0 <= i < lines.len() && block_line(lines[i]) {
        lemma_block_run_bound(lines, i - 1);
    }
}

proof fn lemma_banners_lines(file: Seq<char>, lines: Seq<Seq<char>>, k: int)
    requires
        0 <= k,
    ensures
        lines_within(banners_upto(file, lines, k), k),
    decreases k,
{
    if k > 0 {
        lemma_banners_lines(file, lines, k - 1);
        lemma_block_run_bound(lines, k - 1);
        let a = banners_upto(file, lines, k - 1);
        let s = banners_upto(file, lines, k);
        assert forall|i: int| 0 <= i < s.len() implies 1 <= (#[trigger] s[i]).line <= k by {
            if i < a.len() {
                assert(s[i] == a[i]);
            }
        }
    }
}

proof fn lemma_merge_lines_within(a: Seq<FindingView>, b: Seq<FindingView>, n: int)
    requires
        lines_within(a, n),
        lines_within(b, n),
    ensures
        lines_within(merge_lines(a, b), n),
{
    lemma_merge_parts(a, b);
    let m = merge_lines(a, b);
    assert forall|i: int| 0 <= i < m.len() implies 1 <= (#[trigger] m[i]).line <= n by {
        if exists|k: int| 0 <= k < a.len() && m[i] == a[k] {
            let k = choose|k: int| 0 <= k < a.len() && m[i] == a[k];
            assert(1 <= a[k].line <= n);
        } else {
            let k = choose|k: int| 0 <= k < b.len() && m[i] == b[k];
            assert(1 <= b[k].line <= n);
        }
    }
}

proof fn lemma_first_tallied(t: Tally, lines: Seq<Seq<char>>, i: int)
    requires
        0 <= i,
    ensures
        first_tallied(t, lines, i) matches Some(k) ==> i <= k < lines.len(),
    decreases lines.len() - i,
{
    if i < lines.len() && !(tally_of(t, lines[i]) > 0) {
        lemma_first_tallied(t, lines, i + 1);
    }
}

proof fn lemma_first_counted(counts: Seq<nat>, i: int)
    requires
        0 <= i,
    ensures
        first_counted(counts, i) matches Some(k) ==> i <= k < counts.len(),
    decreases counts.len() - i,
{
    if i < counts.len() && !(counts[i] > 0) {
        lemma_first_counted(counts, i + 1);
    }
}

proof fn lemma_print_lines(file: Seq<char>, lines: Seq<Seq<char>>, class: Seq<bool>, def: Seq<bool>, print: Seq<bool>, k: int)
    requires
        0 <= k,
    ensures
        lines_within(print_upto(file, lines, class, def, print, k).1, k),
    decreases k,
{
    if k > 0 {
        lemma_print_lines(file, lines, class, def, print, k - 1);
        let a = print_upto(file, lines, class, def, print, k - 1).1;
        let s = print_upto(file, lines, class, def, print, k).1;
        assert forall|i: int| 0 <= i < s.len() implies 1 <= (#[trigger] s[i]).line <= k by {
            if i < a.len() {
                assert(s[i] == a[i]);
            }
        }
    }
}

/// Every finding of a source scan sits on a line of the source: from 1 to
/// the number of lines the text cuts into at `\n`.
pub proof fn law_source_findings_sit_on_a_line(source: Seq<char>, file: Seq<char>, stack: Stack, signals: Option<ProjectSignals>)
    ensures
        lines_within(source_spec(source, file, stack, signals), lines_of(source).len() as int),
{
    let l = lines_of(source);
    let n = l.len() as int;
    let e = Seq::<FindingView>::empty();
    assert(lines_within(e, n));
    lemma_flagged_lines("tui-figlet-banner"@, file, l, lm(FIGLET_RE, l), None, n);
    lemma_banners_lines(file, l, n);
    lemma_merge_lines_within(flagged("tui-figlet-banner"@, file, l, lm(FIGLET_RE, l), None, n), banners_upto(file, l, n), n);
    let p1 = figlet_spec(file, l, lm(FIGLET_RE, l));
    let gf = gradient_flags(l, lm(GRADIENT_RE, l), lm(BLEND_RE, l), lm(TITLE_WORD_RE, l));
    lemma_flagged_lines("tui-gradient-title"@, file, l, gf, None, n);
    let p2 = flagged("tui-gradient-title"@, file, l, gf, None, n);
    lemma_flagged_lines("tui-blink-attribute"@, file, l, lm(BLINK_RE, l), None, n);
    let p3 = flagged("tui-blink-attribute"@, file, l, lm(BLINK_RE, l), None, n);
    lemma_first_tallied(Tally::Emoji, l, 0);
    let p4 = emoji_spec(file, l);
    assert(lines_within(p4, n));
    lemma_flagged_lines("tui-double-border"@, file, l, lm(DOUBLE_BORDER_RE, l), None, n);
    let p5 = flagged("tui-double-border"@, file, l, lm(DOUBLE_BORDER_RE, l), None, n);
    lemma_flagged_lines("tui-hardcoded-rgb-no-adapt"@, file, l, lm(RGB_RE, l), rgb_note(signals), n);
    let p6 = rgb_spec(file, l, stack, signals, lm(RGB_RE, l));
    assert(lines_within(p6, n));
    lemma_flagged_lines("tui-spinner-no-tty-guard"@, file, l, lm(SPINNER_RE, l), None, n);
    lemma_flagged_lines("tui-spinner-no-tty-guard"@, file, l, lm(SPINNER_RE, l), Some(SIGNALS_NOTE@), n);
    let p7 = spinner_src_spec(file, l, signals, lm(SPINNER_RE, l));
    assert(lines_within(p7, n));
    let sized = any_of(lm(RECT_LITERAL_RE, l), lm(SIZE_80_RE, l), lm(SIZE_24_RE, l), lm(SIZE_CALL_RE, l));
    let lengths = line_counts(CONSTRAINT_LENGTH_RE@, l);
    let p8 = size_spec(file, l, sized, lengths, lm(CONSTRAINT_FLEX_RE, l));
    if !test_path(file) {
        lemma_flagged_lines("tui-hardcoded-size"@, file, l, sized, None, n);
        lemma_first_counted(lengths, 0);
        let total = count_sum(lengths, lengths.len() as int);
        let rigid = total >= 2 && !(exists|i: int|
            0 <= i < lm(CONSTRAINT_FLEX_RE, l).len() && #[trigger] lm(CONSTRAINT_FLEX_RE, l)[i]);
        let extra = if rigid && first_counted(lengths, 0) is Some {
            seq![
                counted(
                    hit_view("tui-hardcoded-size"@, file, l, first_counted(lengths, 0)->0),
                    "lengthConstraints"@,
                    total as int,
                ),
            ]
        } else {
            e
        };
        assert(lines_within(extra, n));
        lemma_merge_lines_within(flagged("tui-hardcoded-size"@, file, l, sized, None, n), extra, n);
    }
    assert(lines_within(p8, n));
    let tf = trunc_flags(line_matches(trunc_pattern(stack), l), lm(ELLIPSIS_RE, l));
    lemma_flagged_lines("tui-grapheme-unsafe-truncate"@, file, l, tf, None, n);
    lemma_flagged_lines("tui-grapheme-unsafe-truncate"@, file, l, tf, Some(SIGNALS_NOTE@), n);
    let p9 = truncate_spec(file, l, stack, signals, line_matches(trunc_pattern(stack), l), lm(ELLIPSIS_RE, l));
    assert(lines_within(p9, n));
    lemma_first_tallied(Tally::Private, l, 0);
    let p10 = nerd_spec(file, l, signals);
    assert(lines_within(p10, n));
    lemma_flagged_lines("tui-print-in-loop"@, file, l, lm(INK_CONSOLE_LOG_RE, l), None, n);
    lemma_print_lines(file, l, lm(TEXTUAL_CLASS_RE, l), lm(PY_DEF_RE, l), lm(PY_PRINT_RE, l), n);
    let p11 = print_spec(file, l, stack, lm(INK_CONSOLE_LOG_RE, l), lm(TEXTUAL_CLASS_RE, l), lm(PY_DEF_RE, l), lm(PY_PRINT_RE, l));
    assert(lines_within(p11, n));
    lemma_lines_append(p1, p2, n);
    lemma_lines_append(p1 + p2, p3, n);
    lemma_lines_append(p1 + p2 + p3, p4, n);
    lemma_lines_append(p1 + p2 + p3 + p4, p5, n);
    lemma_lines_append(p1 + p2 + p3 + p4 + p5, p6, n);
    lemma_lines_append(p1 + p2 + p3 + p4 + p5 + p6, p7, n);
    lemma_lines_append(p1 + p2 + p3 + p4 + p5 + p6 + p7, p8, n);
    lemma_lines_append(p1 + p2 + p3 + p4 + p5 + p6 + p7 + p8, p9, n);
    lemma_lines_append(p1 + p2 + p3 + p4 + p5 + p6 + p7 + p8 + p9, p10, n);
    lemma_lines_append(p1 + p2 + p3 + p4 + p5 + p6 + p7 + p8 + p9 + p10, p11, n);
}


/// One of the rules that report an absence (of a TTY guard, an adaptive
/// color, a width library, an icon switch), which a single-file scan can
/// only suspect.
pub open spec fn absence_rule(id: Seq<char>) -> bool {
    id == "tui-spinner-no-tty-guard"@ || id == "tui-hardcoded-rgb-no-adapt"@ || id == "tui-grapheme-unsafe-truncate"@
        || id == "tui-nerd-glyph-no-fallback"@
}

/// The note a finding carries when project signals were not collected.
pub open spec fn signals_noted(v: FindingView) -> bool {
    v.extras.contains(("note"@, ExtraValue::Text(SIGNALS_NOTE@)))
}

/// Every absence finding of `vs` carries the signals note.
pub open spec fn absences_noted(vs: Seq<FindingView>) -> bool {
    forall|i: int| 0 <= i < vs.len() && absence_rule((#[trigger] vs[i]).antipattern) ==> signals_noted(vs[i])
}

/// Every finding of `vs` is of rule `id`.
pub open spec fn all_of_rule(vs: Seq<FindingView>, id: Seq<char>) -> bool {
    forall|i: int| 0 <= i < vs.len() ==> (#[trigger] vs[i]).antipattern == id
}

proof fn lemma_flagged_rule(id: Seq<char>, file: Seq<char>, lines: Seq<Seq<char>>, flags: Seq<bool>, note: Option<Seq<char>>, k: int)
    ensures
        all_of_rule(flagged(id, file, lines, flags, note, k), id),
        note == Some(SIGNALS_NOTE@) ==> forall|i: int|
            0 <= i < flagged(id, file, lines, flags, note, k).len() ==> signals_noted(
                #[trigger] flagged(id, file, lines, flags, note, k)[i],
            ),
    decreases k,
{
    if k > 0 {
        lemma_flagged_rule(id, file, lines, flags, note, k - 1);
        let a = flagged(id, file, lines, flags, note, k - 1);
        let s = flagged(id, file, lines, flags, note, k);
        assert forall|i: int| 0 <= i < s.len() implies (#[trigger] s[i]).antipattern == id && (note == Some(SIGNALS_NOTE@)
            ==> signals_noted(s[i])) by {
            if i < a.len() {
                assert(s[i] == a[i]);
            } else if note == Some(SIGNALS_NOTE@) {
                let v = s[i];
                assert(v.extras.last() == ("note"@, ExtraValue::Text(SIGNALS_NOTE@)));
                assert(v.extras[v.extras.len() - 1] == ("note"@, ExtraValue::Text(SIGNALS_NOTE@)));
            }
        }
    }
}

proof fn lemma_banners_rule(file: Seq<char>, lines: Seq<Seq<char>>, k: int)
    ensures
        all_of_rule(banners_upto(file, lines, k), "tui-figlet-banner"@),
    decreases k,
{
    if k > 0 {
        lemma_banners_rule(file, lines, k - 1);
        let a = banners_upto(file, lines, k - 1);
        let s = banners_upto(file, lines, k);
        assert forall|i: int| 0 <= i < s.len() implies (#[trigger] s[i]).antipattern == "tui-figlet-banner"@ by {
            if i < a.len() {
                assert(s[i] == a[i]);
            }
        }
    }
}

proof fn lemma_print_rule(file: Seq<char>, lines: Seq<Seq<char>>, class: Seq<bool>, def: Seq<bool>, print: Seq<bool>, k: int)
    ensures
        all_of_rule(print_upto(file, lines, class, def, print, k).1, "tui-print-in-loop"@),
    decreases k,
{
    if k > 0 {
        lemma_print_rule(file, lines, class, def, print, k - 1);
        let a = print_upto(file, lines, class, def, print, k - 1).1;
        let s = print_upto(file, lines, class, def, print, k).1;
        assert forall|i: int| 0 <= i < s.len() implies (#[trigger] s[i]).antipattern == "tui-print-in-loop"@ by {
            if i < a.len() {
                assert(s[i] == a[i]);
            }
        }
    }
}

proof fn lemma_merge_rule(a: Seq<FindingView>, b: Seq<FindingView>, id: Seq<char>)
    requires
        all_of_rule(a, id),
        all_of_rule(b, id),
    ensures
        all_of_rule(merge_lines(a, b), id),
{
    lemma_merge_parts(a, b);
    let m = merge_lines(a, b);
    assert forall|i: int| 0 <= i < m.len() implies (#[trigger] m[i]).antipattern == id by {
        if exists|k: int| 0 <= k < a.len() && m[i] == a[k] {
            let k = choose|k: int| 0 <= k < a.len() && m[i] == a[k];
            assert(a[k].antipattern == id);
        } else {
            let k = choose|k: int| 0 <= k < b.len() && m[i] == b[k];
            assert(b[k].antipattern == id);
        }
    }
}

proof fn lemma_other_rule(vs: Seq<FindingView>, id: Seq<char>)
    requires
        all_of_rule(vs, id),
        id.len() < 24,
    ensures
        absences_noted(vs),
{
    reveal_strlit("tui-spinner-no-tty-guard");
    reveal_strlit("tui-hardcoded-rgb-no-adapt");
    reveal_strlit("tui-grapheme-unsafe-truncate");
    reveal_strlit("tui-nerd-glyph-no-fallback");
    assert(!absence_rule(id));
}

proof fn lemma_noted_all(vs: Seq<FindingView>)
    requires
        forall|i: int| 0 <= i < vs.len() ==> signals_noted(#[trigger] vs[i]),
    ensures
        absences_noted(vs),
{
}

proof fn lemma_noted_append(a: Seq<FindingView>, b: Seq<FindingView>)
    requires
        absences_noted(a),
        absences_noted(b),
    ensures
        absences_noted(a + b),
{
    assert forall|i: int| 0 <= i < (a + b).len() && absence_rule((#[trigger] (a + b)[i]).antipattern) implies signals_noted(
        (a + b)[i],
    ) by {
        if i < a.len() {
            assert((a + b)[i] == a[i]);
        } else {
            assert((a + b)[i] == b[i - a.len()]);
        }
    }
}

/// A scan without project signals can only suspect an absence: every
/// finding of the four absence rules then carries [`SIGNALS_NOTE`].
pub proof fn law_absences_are_noted_without_signals(source: Seq<char>, file: Seq<char>, stack: Stack)
    ensures
        absences_noted(source_spec(source, file, stack, None)),
{
    reveal_strlit("tui-figlet-banner");
    reveal_strlit("tui-gradient-title");
    reveal_strlit("tui-blink-attribute");
    reveal_strlit("tui-emoji-density");
    reveal_strlit("tui-double-border");
    reveal_strlit("tui-hardcoded-size");
    reveal_strlit("tui-print-in-loop");
    let signals: Option<ProjectSignals> = None;
    let l = lines_of(source);
    let n = l.len() as int;
    let e = Seq::<FindingView>::empty();
    lemma_flagged_rule("tui-figlet-banner"@, file, l, lm(FIGLET_RE, l), None, n);
    lemma_banners_rule(file, l, n);
    lemma_merge_rule(flagged("tui-figlet-banner"@, file, l, lm(FIGLET_RE, l), None, n), banners_upto(file, l, n), "tui-figlet-banner"@);
    let p1 = figlet_spec(file, l, lm(FIGLET_RE, l));
    lemma_other_rule(p1, "tui-figlet-banner"@);
    let gf = gradient_flags(l, lm(GRADIENT_RE, l), lm(BLEND_RE, l), lm(TITLE_WORD_RE, l));
    lemma_flagged_rule("tui-gradient-title"@, file, l, gf, None, n);
    let p2 = flagged("tui-gradient-title"@, file, l, gf, None, n);
    lemma_other_rule(p2, "tui-gradient-title"@);
    lemma_flagged_rule("tui-blink-attribute"@, file, l, lm(BLINK_RE, l), None, n);
    let p3 = flagged("tui-blink-attribute"@, file, l, lm(BLINK_RE, l), None, n);
    lemma_other_rule(p3, "tui-blink-attribute"@);
    let p4 = emoji_spec(file, l);
    assert(all_of_rule(p4, "tui-emoji-density"@));
    lemma_other_rule(p4, "tui-emoji-density"@);
    lemma_flagged_rule("tui-double-border"@, file, l, lm(DOUBLE_BORDER_RE, l), None, n);
    let p5 = flagged("tui-double-border"@, file, l, lm(DOUBLE_BORDER_RE, l), None, n);
    lemma_other_rule(p5, "tui-double-border"@);
    lemma_flagged_rule("tui-hardcoded-rgb-no-adapt"@, file, l, lm(RGB_RE, l), Some(SIGNALS_NOTE@), n);
    let p6 = rgb_spec(file, l, stack, signals, lm(RGB_RE, l));
    lemma_noted_all(p6);
    lemma_flagged_rule("tui-spinner-no-tty-guard"@, file, l, lm(SPINNER_RE, l), Some(SIGNALS_NOTE@), n);
    let p7 = spinner_src_spec(file, l, signals, lm(SPINNER_RE, l));
    lemma_noted_all(p7);
    let sized = any_of(lm(RECT_LITERAL_RE, l), lm(SIZE_80_RE, l), lm(SIZE_24_RE, l), lm(SIZE_CALL_RE, l));
    let lengths = line_counts(CONSTRAINT_LENGTH_RE@, l);
    let p8 = size_spec(file, l, sized, lengths, lm(CONSTRAINT_FLEX_RE, l));
    if !test_path(file) {
        lemma_flagged_rule("tui-hardcoded-size"@, file, l, sized, None, n);
        let total = count_sum(lengths, lengths.len() as int);
        let rigid = total >= 2 && !(exists|i: int|
            0 <= i < lm(CONSTRAINT_FLEX_RE, l).len() && #[trigger] lm(CONSTRAINT_FLEX_RE, l)[i]);
        let extra = if rigid && first_counted(lengths, 0) is Some {
            seq![
                counted(
                    hit_view("tui-hardcoded-size"@, file, l, first_counted(lengths, 0)->0),
                    "lengthConstraints"@,
                    total as int,
                ),
            ]
        } else {
            e
        };
        assert(all_of_rule(extra, "tui-hardcoded-size"@));
        lemma_merge_rule(flagged("tui-hardcoded-size"@, file, l, sized, None, n), extra, "tui-hardcoded-size"@);
        lemma_other_rule(p8, "tui-hardcoded-size"@);
    } else {
        assert(absences_noted(p8));
    }
    let tf = trunc_flags(line_matches(trunc_pattern(stack), l), lm(ELLIPSIS_RE, l));
    lemma_flagged_rule("tui-grapheme-unsafe-truncate"@, file, l, tf, Some(SIGNALS_NOTE@), n);
    let p9 = truncate_spec(file, l, stack, signals, line_matches(trunc_pattern(stack), l), lm(ELLIPSIS_RE, l));
    lemma_noted_all(p9);
    let p10 = nerd_spec(file, l, signals);
    assert forall|i: int| 0 <= i < p10.len() implies signals_noted(#[trigger] p10[i]) by {
        let v = p10[i];
        assert(v.extras[v.extras.len() - 1] == ("note"@, ExtraValue::Text(SIGNALS_NOTE@)));
    }
    lemma_noted_all(p10);
    lemma_flagged_rule("tui-print-in-loop"@, file, l, lm(INK_CONSOLE_LOG_RE, l), None, n);
    lemma_print_rule(file, l, lm(TEXTUAL_CLASS_RE, l), lm(PY_DEF_RE, l), lm(PY_PRINT_RE, l), n);
    let p11 = print_spec(file, l, stack, lm(INK_CONSOLE_LOG_RE, l), lm(TEXTUAL_CLASS_RE, l), lm(PY_DEF_RE, l), lm(PY_PRINT_RE, l));
    assert(all_of_rule(p11, "tui-print-in-loop"@));
    lemma_other_rule(p11, "tui-print-in-loop"@);
    lemma_noted_append(p1, p2);
    lemma_noted_append(p1 + p2, p3);
    lemma_noted_append(p1 + p2 + p3, p4);
    lemma_noted_append(p1 + p2 + p3 + p4, p5);
    lemma_noted_append(p1 + p2 + p3 + p4 + p5, p6);
    lemma_noted_append(p1 + p2 + p3 + p4 + p5 + p6, p7);
    lemma_noted_append(p1 + p2 + p3 + p4 + p5 + p6 + p7, p8);
    lemma_noted_append(p1 + p2 + p3 + p4 + p5 + p6 + p7 + p8, p9);
    lemma_noted_append(p1 + p2 + p3 + p4 + p5 + p6 + p7 + p8 + p9, p10);
    lemma_noted_append(p1 + p2 + p3 + p4 + p5 + p6 + p7 + p8 + p9 + p10, p11);
}

} // verus!
