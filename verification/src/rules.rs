//! The runtime rules: pure functions over the frames of one target. Every
//! finding names a `tui-rt-*` rule and is advisory.
//!
//! Most rules scan a frame's cells row by row, left to right. Their
//! contracts say which cells report, through [`hits`]: the cells of a grid
//! that satisfy a predicate, in that order.

use vstd::prelude::*;

use crate::capture::{blank_cell, cells_text, glyph_at, row_at, tail_count, Cell, Color, Frame, FrameRole, Style};
use crate::findings::{derive_advisory_flag, finding, push_extra, Extra, ExtraValue, Finding, FindingView, findings_view, new_finding};
use crate::palette::{hex_chars, hex_code, Palette, Rgb};
use crate::pattern::{is_match, regex_match};
use crate::text::{trim_end, trim_end_chars, alphabetic, alphanumeric, is_alphabetic, is_alphanumeric, slice_to_vec, is_whitespace, white_space, append_chars, append_str, chars_of, decimal, decimal_chars, same_chars, split_by, split_chars, trim, trim_chars, views};

verus! {

/// `adapt.terminal.md`'s Narrow class starts under 60 columns.
pub const NARROW_COLUMNS: usize = 60;

/// Fewer non-blank rows than this is a prompt, not a screen.
pub const MIN_ROWS_FOR_HINTS: usize = 3;

/// A key named in a hint line: a key word between separators, an arrow or a
/// modifier glyph, `<key>`, `[key]`, or a caret chord such as `^C`.
pub const KEY_HINT_RE: &'static str = "(?i)(?:^|[\\s:|/,(\\[<])(?:q|esc|enter|tab|space|ctrl|alt|shift|f\\d{1,2}|[hjkl])(?:$|[\\s:|/,)\\]>])|[?↑↓←→⏎⌃⌘]|<[^>\\s]{1,12}>|\\[[^\\]\\s]{1,12}\\]|\\^[A-Z]";

/// A pager's own status line: `(END)`, `--More--`, or `lines <n>-<m>`.
pub const PAGER_PROMPT_RE: &'static str = "\\(END\\)|--More--|\\blines \\d+-\\d+";

// ─── Glyph classes ──────────────────────────────────────────────────────────

/// A top-left box corner.
pub open spec fn top_left(c: char) -> bool {
    c == '┌' || c == '╭' || c == '╔' || c == '┏'
}

/// A top-right box corner.
pub open spec fn top_right(c: char) -> bool {
    c == '┐' || c == '╮' || c == '╗' || c == '┓'
}

/// A bottom-left box corner.
pub open spec fn bottom_left(c: char) -> bool {
    c == '└' || c == '╰' || c == '╚' || c == '┗'
}

/// A bottom-right box corner.
pub open spec fn bottom_right(c: char) -> bool {
    c == '┘' || c == '╯' || c == '╝' || c == '┛'
}

/// A vertical box edge.
pub open spec fn vertical(c: char) -> bool {
    c == '│' || c == '║' || c == '┃' || c == '┆' || c == '┇' || c == '┊' || c == '┋' || c == '╎' || c == '╏'
}

/// A tee or cross, where a divider meets an edge.
pub open spec fn tee(c: char) -> bool {
    c == '├' || c == '┤' || c == '┬' || c == '┴' || c == '┼' || c == '╠' || c == '╣' || c == '╦' || c == '╩'
        || c == '╬' || c == '┣' || c == '┫' || c == '┳' || c == '┻' || c == '╋' || c == '╟' || c == '╢'
        || c == '╤' || c == '╧' || c == '╪'
}

/// A glyph a spinner cycles through, outside the braille block.
pub open spec fn spinner_glyph(c: char) -> bool {
    c == '|' || c == '/' || c == '-' || c == '\\' || c == '◐' || c == '◓' || c == '◑' || c == '◒' || c == '◴'
        || c == '◵' || c == '◶' || c == '◷' || c == '◜' || c == '◝' || c == '◞' || c == '◟' || c == '▁'
        || c == '▂' || c == '▃' || c == '▄' || c == '▅' || c == '▆' || c == '▇' || c == '█' || c == '▏'
        || c == '▎' || c == '▍' || c == '▌' || c == '▋' || c == '▊' || c == '▉'
}

/// A spinner frame: one of the spinner glyphs, or braille (U+2800 to U+28FF).
pub open spec fn spinner(c: char) -> bool {
    spinner_glyph(c) || (0x2800 <= (c as u32) && (c as u32) <= 0x28FF)
}

/// A glyph of the Box Drawing block (U+2500 to U+257F).
pub open spec fn box_drawing(c: char) -> bool {
    0x2500 <= (c as u32) && (c as u32) <= 0x257F
}

pub fn is_top_left(c: char) -> (b: bool)
    ensures
        b == top_left(c),
{
    c == '┌' || c == '╭' || c == '╔' || c == '┏'
}

pub fn is_top_right(c: char) -> (b: bool)
    ensures
        b == top_right(c),
{
    c == '┐' || c == '╮' || c == '╗' || c == '┓'
}

pub fn is_bottom_left(c: char) -> (b: bool)
    ensures
        b == bottom_left(c),
{
    c == '└' || c == '╰' || c == '╚' || c == '┗'
}

pub fn is_bottom_right(c: char) -> (b: bool)
    ensures
        b == bottom_right(c),
{
    c == '┘' || c == '╯' || c == '╝' || c == '┛'
}

pub fn is_vertical(c: char) -> (b: bool)
    ensures
        b == vertical(c),
{
    c == '│' || c == '║' || c == '┃' || c == '┆' || c == '┇' || c == '┊' || c == '┋' || c == '╎' || c == '╏'
}

pub fn is_tee(c: char) -> (b: bool)
    ensures
        b == tee(c),
{
    c == '├' || c == '┤' || c == '┬' || c == '┴' || c == '┼' || c == '╠' || c == '╣' || c == '╦' || c == '╩'
        || c == '╬' || c == '┣' || c == '┫' || c == '┳' || c == '┻' || c == '╋' || c == '╟' || c == '╢'
        || c == '╤' || c == '╧' || c == '╪'
}

pub fn is_spinner(c: char) -> (b: bool)
    ensures
        b == spinner(c),
{
    let u = c as u32;
    c == '|' || c == '/' || c == '-' || c == '\\' || c == '◐' || c == '◓' || c == '◑' || c == '◒' || c == '◴'
        || c == '◵' || c == '◶' || c == '◷' || c == '◜' || c == '◝' || c == '◞' || c == '◟' || c == '▁'
        || c == '▂' || c == '▃' || c == '▄' || c == '▅' || c == '▆' || c == '▇' || c == '█' || c == '▏'
        || c == '▎' || c == '▍' || c == '▌' || c == '▋' || c == '▊' || c == '▉' || (0x2800 <= u && u <= 0x28FF)
}

pub fn is_box_drawing(c: char) -> (b: bool)
    ensures
        b == box_drawing(c),
{
    let u = c as u32;
    0x2500 <= u && u <= 0x257F
}

// ─── Findings at a cell ─────────────────────────────────────────────────────

/// `WxH`, the size a finding was seen at.
pub open spec fn frame_label(width: nat, height: nat) -> Seq<char> {
    decimal(width) + seq!['x'] + decimal(height)
}

/// A finding of rule `id` at a cell: `line` is the 1-based row, the
/// `column` extra the 1-based cell, the `frame` extra the frame's size.
pub open spec fn rt_view(id: Seq<char>, file: Seq<char>, width: nat, height: nat, row: int, col: int, snippet: Seq<char>) -> FindingView {
    new_finding(
        id,
        file,
        snippet,
        row + 1,
        seq![("column"@, ExtraValue::Int(col + 1)), ("frame"@, ExtraValue::Text(frame_label(width, height)))],
    )
}

/// The finding [`rt_view`] describes.
pub fn rt_finding(id: &str, file: &str, frame: &Frame, row: usize, col: usize, snippet: &[char]) -> (f: Finding)
    requires
        row < usize::MAX,
        col < usize::MAX,
    ensures
        f@ == rt_view(id@, file@, frame.width as nat, frame.height as nat, row as int, col as int, snippet@),
{
    let mut f = finding(id, file, snippet, row + 1);
    let column: usize = col + 1;
    push_extra(&mut f, "column", Extra::Int(column as u128));
    let mut label = decimal_chars(frame.width as u64);
    label.push('x');
    let h = decimal_chars(frame.height as u64);
    append_chars(&mut label, h.as_slice());
    let ghost label_view = label@;
    push_extra(&mut f, "frame", Extra::Text(crate::text::string_of(label.as_slice())));
    proof {
        assert(label_view =~= frame_label(frame.width as nat, frame.height as nat));
        assert(f@.extras =~= seq![("column"@, ExtraValue::Int(col + 1)), ("frame"@, ExtraValue::Text(frame_label(frame.width as nat, frame.height as nat)))]);
    }
    f
}

// ─── Cells in reading order ─────────────────────────────────────────────────

/// The cells `(r, 0..c)` that satisfy `p`, left to right.
pub open spec fn hits_cols(p: spec_fn(int, int) -> bool, r: int, c: int) -> Seq<(int, int)>
    decreases c,
{
    if c <= 0 {
        Seq::empty()
    } else {
        hits_cols(p, r, c - 1) + if p(r, c - 1) {
            seq![(r, c - 1)]
        } else {
            Seq::<(int, int)>::empty()
        }
    }
}

/// The cells of rows `0..r` of `g` that satisfy `p`, row by row.
pub open spec fn hits_rows(g: Seq<Seq<Cell>>, p: spec_fn(int, int) -> bool, r: int) -> Seq<(int, int)>
    decreases r,
{
    if r <= 0 {
        Seq::empty()
    } else {
        hits_rows(g, p, r - 1) + hits_cols(p, r - 1, g[r - 1].len() as int)
    }
}

/// Every cell of `g` that satisfies `p`, row by row, left to right.
pub open spec fn hits(g: Seq<Seq<Cell>>, p: spec_fn(int, int) -> bool) -> Seq<(int, int)> {
    hits_rows(g, p, g.len() as int)
}

pub proof fn lemma_hits_cols_grow(p: spec_fn(int, int) -> bool, r: int, c: int, d: int)
    requires
        0 <= c <= d,
    ensures
        hits_cols(p, r, c).is_prefix_of(hits_cols(p, r, d)),
    decreases d - c,
{
    if c < d {
        lemma_hits_cols_grow(p, r, c, d - 1);
        let a = hits_cols(p, r, c);
        let b = hits_cols(p, r, d - 1);
        assert(hits_cols(p, r, d).subrange(0, b.len() as int) =~= b);
        assert(hits_cols(p, r, d).subrange(0, a.len() as int) =~= b.subrange(0, a.len() as int));
    } else {
        assert(hits_cols(p, r, c).subrange(0, hits_cols(p, r, c).len() as int) =~= hits_cols(p, r, c));
    }
}

pub proof fn lemma_hits_rows_grow(g: Seq<Seq<Cell>>, p: spec_fn(int, int) -> bool, r: int, s: int)
    requires
        0 <= r <= s,
    ensures
        hits_rows(g, p, r).is_prefix_of(hits_rows(g, p, s)),
    decreases s - r,
{
    if r < s {
        lemma_hits_rows_grow(g, p, r, s - 1);
        let a = hits_rows(g, p, r);
        let b = hits_rows(g, p, s - 1);
        assert(hits_rows(g, p, s).subrange(0, b.len() as int) =~= b);
        assert(hits_rows(g, p, s).subrange(0, a.len() as int) =~= b.subrange(0, a.len() as int));
    } else {
        assert(hits_rows(g, p, r).subrange(0, hits_rows(g, p, r).len() as int) =~= hits_rows(g, p, r));
    }
}

/// When no cell before `(r, c)` satisfies `p` and `(r, c)` does, it is the
/// first of [`hits`].
pub proof fn lemma_first_hit(g: Seq<Seq<Cell>>, p: spec_fn(int, int) -> bool, r: int, c: int)
    requires
        0 <= r < g.len(),
        0 <= c < g[r].len(),
        hits_rows(g, p, r).len() == 0,
        hits_cols(p, r, c).len() == 0,
        p(r, c),
    ensures
        hits(g, p).len() > 0,
        hits(g, p)[0] == (r, c),
{
    let first = hits_cols(p, r, c + 1);
    let row = hits_cols(p, r, g[r].len() as int);
    let upto = hits_rows(g, p, r + 1);
    assert(first =~= seq![(r, c)]);
    lemma_hits_cols_grow(p, r, c + 1, g[r].len() as int);
    assert(row.subrange(0, 1)[0] == row[0]);
    assert(row[0] == (r, c));
    assert(upto =~= row);
    lemma_hits_rows_grow(g, p, r + 1, g.len() as int);
    assert(hits(g, p).subrange(0, upto.len() as int)[0] == hits(g, p)[0]);
}

// ─── Truecolor on a 256-color client ────────────────────────────────────────

/// `RGB` in any case.
pub open spec fn rgb_word(s: Seq<char>) -> bool {
    &&& s.len() == 3
    &&& s[0] == 'R' || s[0] == 'r'
    &&& s[1] == 'G' || s[1] == 'g'
    &&& s[2] == 'B' || s[2] == 'b'
}

/// The client reports `RGB` among its comma-separated features, or
/// `COLORTERM` vouches for the outer terminal.
pub open spec fn client_has_rgb(termfeatures: Seq<char>, colorterm: Seq<char>) -> bool {
    ||| exists|i: int|
        0 <= i < split_by(termfeatures, seq![',']).len() && rgb_word(
            trim(#[trigger] split_by(termfeatures, seq![','])[i]),
        )
    ||| colorterm == "truecolor"@
    ||| colorterm == "24bit"@
}

/// A cell written with a 24-bit foreground or background.
pub open spec fn truecolor_cell(g: Seq<Seq<Cell>>, r: int, c: int) -> bool {
    &&& 0 <= r < g.len()
    &&& 0 <= c < g[r].len()
    &&& g[r][c].style.fg is Rgb || g[r][c].style.bg is Rgb
}

pub open spec fn truecolor_hit(g: Seq<Seq<Cell>>) -> spec_fn(int, int) -> bool {
    |r: int, c: int| truecolor_cell(g, r, c)
}

/// `38;2;r;g;b` for a 24-bit foreground, else `48;2;r;g;b` for the background.
pub open spec fn truecolor_sgr(style: Style) -> Seq<char> {
    match style.fg {
        Color::Rgb(r, g, b) => "38;2;"@ + decimal(r as nat) + seq![';'] + decimal(g as nat) + seq![';'] + decimal(b as nat),
        _ => match style.bg {
            Color::Rgb(r, g, b) => "48;2;"@ + decimal(r as nat) + seq![';'] + decimal(g as nat) + seq![';'] + decimal(b as nat),
            _ => Seq::empty(),
        },
    }
}

/// What `rt_truecolor_on_256` reports: nothing when no client reported its
/// features or the client takes 24-bit color, else the first truecolor cell.
pub open spec fn truecolor_spec(frame: Frame, file: Seq<char>) -> Seq<FindingView> {
    let g = frame.cells();
    let hs = hits(g, truecolor_hit(g));
    if frame.termfeatures@.len() == 0 || client_has_rgb(frame.termfeatures@, frame.colorterm@) || hs.len() == 0 {
        Seq::empty()
    } else {
        seq![
            rt_view(
                "tui-rt-truecolor-on-256"@,
                file,
                frame.width as nat,
                frame.height as nat,
                hs[0].0,
                hs[0].1,
                "truecolor SGR "@ + truecolor_sgr(g[hs[0].0][hs[0].1].style) + " while the client reports "@
                    + frame.termfeatures@,
            ),
        ]
    }
}

/// A `COLORTERM` of `24bit` vouches for 24-bit color just as `truecolor`
/// does: whatever features the client reports, it takes 24-bit color, and
/// the truecolor-on-256 rule reports nothing on such a frame.
pub proof fn law_colorterm_vouches_for_truecolor(frame: Frame, file: Seq<char>, termfeatures: Seq<char>)
    ensures
        client_has_rgb(termfeatures, "24bit"@),
        client_has_rgb(termfeatures, "truecolor"@),
        frame.colorterm@ == "24bit"@ || frame.colorterm@ == "truecolor"@ ==> truecolor_spec(frame, file)
            == Seq::<FindingView>::empty(),
{
}

/// Cutting `x`, a separator and a piece free of separators gives the pieces
/// of `x` and then that piece.
proof fn lemma_split_after(x: Seq<char>, sep: char, w: Seq<char>, seps: Seq<char>)
    requires
        seps.contains(sep),
        forall|k: int| 0 <= k < w.len() ==> !seps.contains(#[trigger] w[k]),
    ensures
        split_by(x + seq![sep] + w, seps) == split_by(x, seps).push(w),
    decreases w.len(),
{
    let y = x + seq![sep] + w;
    if w.len() == 0 {
        assert(w =~= Seq::<char>::empty());
        assert(y.drop_last() =~= x);
        assert(y.last() == sep);
        assert(split_by(x, seps).push(Seq::<char>::empty()) =~= split_by(x, seps).push(w));
    } else {
        let v = w.drop_last();
        assert forall|k: int| 0 <= k < v.len() implies !seps.contains(#[trigger] v[k]) by {
            assert(v[k] == w[k]);
        }
        lemma_split_after(x, sep, v, seps);
        assert(y.drop_last() =~= x + seq![sep] + v);
        assert(y.last() == w[w.len() - 1]);
        let p = split_by(x, seps).push(v);
        assert(p.update(p.len() - 1, p.last().push(y.last())) =~= split_by(x, seps).push(w)) by {
            assert(v.push(w[w.len() - 1]) =~= w);
        }
    }
}

/// A client whose last reported feature reads `RGB` in any case (spaces
/// around it aside) takes 24-bit color, whatever it reported before it and
/// whatever `COLORTERM` says.
pub proof fn law_rgb_feature_counts(features: Seq<char>, last: Seq<char>, colorterm: Seq<char>)
    requires
        rgb_word(trim(last)),
        forall|k: int| 0 <= k < last.len() ==> last[k] != ',',
    ensures
        client_has_rgb(features + seq![','] + last, colorterm),
{
    let seps = seq![','];
    assert(seps.contains(',')) by {
        assert(seps[0] == ',');
    }
    assert forall|k: int| 0 <= k < last.len() implies !seps.contains(#[trigger] last[k]) by {
        if seps.contains(last[k]) {
            let j = choose|j: int| 0 <= j < seps.len() && seps[j] == last[k];
            assert(seps[j] == ',');
        }
    }
    lemma_split_after(features, ',', last, seps);
    let parts = split_by(features + seq![','] + last, seps);
    let i = parts.len() - 1;
    assert(parts[i] == last);
    assert(0 <= i < split_by(features + seq![','] + last, seq![',']).len() && rgb_word(
        trim(split_by(features + seq![','] + last, seq![','])[i]),
    ));
}

/// `RGB` in any case.
fn is_rgb_word(s: &[char]) -> (b: bool)
    ensures
        b == rgb_word(s@),
{
    s.len() == 3 && (s[0] == 'R' || s[0] == 'r') && (s[1] == 'G' || s[1] == 'g') && (s[2] == 'B' || s[2] == 'b')
}

/// Does the client take 24-bit color?
pub fn has_rgb(termfeatures: &str, colorterm: &str) -> (b: bool)
    ensures
        b == client_has_rgb(termfeatures@, colorterm@),
{
    let tf = chars_of(termfeatures);
    let seps: Vec<char> = vec![','];
    let parts = split_chars(tf.as_slice(), seps.as_slice());
    let ghost ps = split_by(termfeatures@, seq![',']);
    proof {
        assert(seps@ =~= seq![',']);
    }
    let mut i: usize = 0;
    while i < parts.len()
        invariant
            views(parts@) == ps,
            ps == split_by(termfeatures@, seq![',']),
            0 <= i <= parts@.len(),
            forall|j: int| 0 <= j < i ==> !rgb_word(trim(#[trigger] ps[j])),
        decreases parts@.len() - i,
    {
        let t = trim_chars(parts[i].as_slice());
        if is_rgb_word(t.as_slice()) {
            proof {
                assert(ps[i as int] == parts@[i as int]@);
            }
            return true;
        }
        proof {
            assert(ps[i as int] == parts@[i as int]@);
        }
        i = i + 1;
    }
    let ct = chars_of(colorterm);
    let a = chars_of("truecolor");
    let b = chars_of("24bit");
    same_chars(ct.as_slice(), a.as_slice()) || same_chars(ct.as_slice(), b.as_slice())
}

/// The first column of row `r` whose cell is truecolor.
fn truecolor_in_row(frame: &Frame, r: usize) -> (found: Option<usize>)
    requires
        r < frame.rows@.len(),
    ensures
        match found {
            Some(c) => c < frame.cells()[r as int].len() && hits_cols(truecolor_hit(frame.cells()), r as int, c as int).len()
                == 0 && truecolor_cell(frame.cells(), r as int, c as int),
            None => hits_cols(truecolor_hit(frame.cells()), r as int, frame.cells()[r as int].len() as int).len() == 0,
        },
{
    let ghost g = frame.cells();
    let ghost p = truecolor_hit(g);
    let row = &frame.rows[r];
    let mut c: usize = 0;
    while c < row.len()
        invariant
            g == frame.cells(),
            p == truecolor_hit(g),
            r < g.len(),
            row@ == g[r as int],
            0 <= c <= row@.len(),
            hits_cols(p, r as int, c as int).len() == 0,
        decreases row@.len() - c,
    {
        let st = row[c].style;
        let hit = match (st.fg, st.bg) {
            (Color::Rgb(_, _, _), _) => true,
            (_, Color::Rgb(_, _, _)) => true,
            _ => false,
        };
        if hit {
            return Some(c);
        }
        proof {
            assert(!p(r as int, c as int));
            assert(hits_cols(p, r as int, c + 1) =~= hits_cols(p, r as int, c as int));
        }
        c = c + 1;
    }
    None
}

/// The SGR parameters that set a 24-bit color on `style`.
fn truecolor_params(style: Style) -> (s: Vec<char>)
    ensures
        s@ == truecolor_sgr(style),
{
    let (lead, r, g, b) = match style.fg {
        Color::Rgb(r, g, b) => ("38;2;", r, g, b),
        _ => match style.bg {
            Color::Rgb(r, g, b) => ("48;2;", r, g, b),
            _ => { return Vec::new(); }
        },
    };
    let mut s = chars_of(lead);
    let dr = decimal_chars(r as u64);
    append_chars(&mut s, dr.as_slice());
    s.push(';');
    let dg = decimal_chars(g as u64);
    append_chars(&mut s, dg.as_slice());
    s.push(';');
    let db = decimal_chars(b as u64);
    append_chars(&mut s, db.as_slice());
    proof {
        assert(s@ =~= truecolor_sgr(style));
    }
    s
}

/// `tui-rt-truecolor-on-256`: a 24-bit SGR while the client is known to take
/// fewer colors.
pub fn rt_truecolor_on_256(frame: &Frame, file: &str) -> (out: Vec<Finding>)
    ensures
        findings_view(out@) == truecolor_spec(*frame, file@),
{
    let ghost g = frame.cells();
    let ghost p = truecolor_hit(g);
    if frame.termfeatures.as_str().unicode_len() == 0 {
        proof {
            assert(findings_view(Seq::<Finding>::empty()) =~= Seq::<FindingView>::empty());
        }
        return Vec::new();
    }
    if has_rgb(frame.termfeatures.as_str(), frame.colorterm.as_str()) {
        proof {
            assert(findings_view(Seq::<Finding>::empty()) =~= Seq::<FindingView>::empty());
        }
        return Vec::new();
    }
    let mut r: usize = 0;
    while r < frame.rows.len()
        invariant
            g == frame.cells(),
            p == truecolor_hit(g),
            0 <= r <= g.len(),
            g.len() == frame.rows@.len(),
            hits_rows(g, p, r as int).len() == 0,
            frame.termfeatures@.len() != 0,
            !client_has_rgb(frame.termfeatures@, frame.colorterm@),
        decreases g.len() - r,
    {
        let row_len = frame.rows[r].len();
        match truecolor_in_row(frame, r) {
            Some(c) => {
                proof {
                    lemma_first_hit(g, p, r as int, c as int);
                }
                let mut snippet = chars_of("truecolor SGR ");
                let sgr = truecolor_params(frame.rows[r][c].style);
                append_chars(&mut snippet, sgr.as_slice());
                append_str(&mut snippet, " while the client reports ");
                append_str(&mut snippet, frame.termfeatures.as_str());
                let f = rt_finding("tui-rt-truecolor-on-256", file, frame, r, c, snippet.as_slice());
                let mut out: Vec<Finding> = Vec::new();
                out.push(f);
                proof {
                    let hs = hits(g, p);
                    assert(hs[0] == (r as int, c as int));
                    assert(findings_view(out@) =~= truecolor_spec(*frame, file@));
                }
                return out;
            },
            None => {
                proof {
                    assert(hits_rows(g, p, r + 1) =~= hits_rows(g, p, r as int) + hits_cols(p, r as int, g[r as int].len() as int));
                }
            },
        }
        r = r + 1;
    }
    proof {
        assert(findings_view(Seq::<Finding>::empty()) =~= Seq::<FindingView>::empty());
    }
    Vec::new()
}

// ─── A spinner that never rests ─────────────────────────────────────────────

/// The glyph at `(r, c)` is a spinner frame in both captures, and it moved.
pub open spec fn spinner_cell(first: Seq<Seq<Cell>>, second: Seq<Seq<Cell>>, r: int, c: int) -> bool {
    &&& 0 <= r < first.len()
    &&& 0 <= c < first[r].len()
    &&& glyph_at(first, r, c) is Some
    &&& glyph_at(second, r, c) is Some
    &&& glyph_at(first, r, c)->0 != glyph_at(second, r, c)->0
    &&& spinner(glyph_at(first, r, c)->0)
    &&& spinner(glyph_at(second, r, c)->0)
}

pub open spec fn spinner_hit(first: Seq<Seq<Cell>>, second: Seq<Seq<Cell>>) -> spec_fn(int, int) -> bool {
    |r: int, c: int| spinner_cell(first, second, r, c)
}

/// What `rt_spinner_never_rests` reports: the first cell of `first` whose
/// spinner glyph changed in `second`, if any.
pub open spec fn spinner_spec(first: Frame, second: Frame, file: Seq<char>) -> Seq<FindingView> {
    let g = first.cells();
    let hs = hits(g, spinner_hit(g, second.cells()));
    if hs.len() == 0 {
        Seq::empty()
    } else {
        let (r, c) = hs[0];
        seq![
            rt_view(
                "tui-rt-spinner-never-rests"@,
                file,
                first.width as nat,
                first.height as nat,
                r,
                c,
                "spinner glyph "@ + seq![glyph_at(g, r, c)->0] + " became "@ + seq![glyph_at(second.cells(), r, c)->0]
                    + " after one second with no input"@,
            ),
        ]
    }
}

/// The first column of row `r` whose spinner moved.
fn spinner_in_row(first: &Frame, second: &Frame, r: usize) -> (found: Option<usize>)
    requires
        r < first.rows@.len(),
    ensures
        match found {
            Some(c) => c < first.cells()[r as int].len() && hits_cols(
                spinner_hit(first.cells(), second.cells()),
                r as int,
                c as int,
            ).len() == 0 && spinner_cell(first.cells(), second.cells(), r as int, c as int),
            None => hits_cols(
                spinner_hit(first.cells(), second.cells()),
                r as int,
                first.cells()[r as int].len() as int,
            ).len() == 0,
        },
{
    let ghost g = first.cells();
    let ghost p = spinner_hit(g, second.cells());
    let row = &first.rows[r];
    let mut c: usize = 0;
    while c < row.len()
        invariant
            g == first.cells(),
            p == spinner_hit(g, second.cells()),
            r < g.len(),
            row@ == g[r as int],
            0 <= c <= row@.len(),
            hits_cols(p, r as int, c as int).len() == 0,
        decreases row@.len() - c,
    {
        let hit = match (row[c].glyph, second.glyph(r, c)) {
            (Some(a), Some(b)) => a != b && is_spinner(a) && is_spinner(b),
            _ => false,
        };
        if hit {
            return Some(c);
        }
        proof {
            assert(!p(r as int, c as int));
            assert(hits_cols(p, r as int, c + 1) =~= hits_cols(p, r as int, c as int));
        }
        c = c + 1;
    }
    None
}

/// `tui-rt-spinner-never-rests`: a spinner glyph that changed between the
/// first capture and the recapture a second later, with no input between.
pub fn rt_spinner_never_rests(first: &Frame, second: &Frame, file: &str) -> (out: Vec<Finding>)
    ensures
        findings_view(out@) == spinner_spec(*first, *second, file@),
{
    let ghost g = first.cells();
    let ghost p = spinner_hit(g, second.cells());
    let mut r: usize = 0;
    while r < first.rows.len()
        invariant
            g == first.cells(),
            p == spinner_hit(g, second.cells()),
            0 <= r <= g.len(),
            g.len() == first.rows@.len(),
            hits_rows(g, p, r as int).len() == 0,
        decreases g.len() - r,
    {
        let row_len = first.rows[r].len();
        match spinner_in_row(first, second, r) {
            Some(c) => {
                proof {
                    lemma_first_hit(g, p, r as int, c as int);
                }
                let a = first.glyph(r, c);
                let b = second.glyph(r, c);
                let mut snippet = chars_of("spinner glyph ");
                match a {
                    Some(x) => snippet.push(x),
                    None => {},
                }
                append_str(&mut snippet, " became ");
                match b {
                    Some(y) => snippet.push(y),
                    None => {},
                }
                append_str(&mut snippet, " after one second with no input");
                proof {
                    assert(snippet@ =~= "spinner glyph "@ + seq![glyph_at(g, r as int, c as int)->0] + " became "@
                        + seq![glyph_at(second.cells(), r as int, c as int)->0] + " after one second with no input"@);
                }
                let f = rt_finding("tui-rt-spinner-never-rests", file, first, r, c, snippet.as_slice());
                let mut out: Vec<Finding> = Vec::new();
                out.push(f);
                proof {
                    assert(findings_view(out@) =~= spinner_spec(*first, *second, file@));
                }
                return out;
            },
            None => {
                proof {
                    assert(hits_rows(g, p, r + 1) =~= hits_rows(g, p, r as int) + hits_cols(p, r as int, g[r as int].len() as int));
                }
            },
        }
        r = r + 1;
    }
    proof {
        assert(findings_view(Seq::<Finding>::empty()) =~= Seq::<FindingView>::empty());
    }
    Vec::new()
}

// ─── Low contrast ───────────────────────────────────────────────────────────
//
// The contrast ratio itself is floating point and is measured outside this
// library. The rule takes it as a table from (foreground, background) to a
// rating: `None` when the pair meets the floor, else the ratio in tenths,
// rounded down (a 4.478 ratio is 44, so it prints "4.4", never the floor it
// missed). A pair the table lacks is taken to pass.

/// A color pair as (foreground, background).
pub type ColorPair = (Rgb, Rgb);

/// The rating the table gives `pair`: its first entry for the pair.
pub open spec fn rating_from(ratings: Seq<(ColorPair, Option<u32>)>, pair: ColorPair, i: int) -> Option<u32>
    decreases ratings.len() - i,
{
    if i < 0 || i >= ratings.len() {
        None
    } else if ratings[i].0 == pair {
        ratings[i].1
    } else {
        rating_from(ratings, pair, i + 1)
    }
}

pub open spec fn rating_of(ratings: Seq<(ColorPair, Option<u32>)>, pair: ColorPair) -> Option<u32> {
    rating_from(ratings, pair, 0)
}

/// The cell at `(r, c)` holds a letter or digit.
pub open spec fn text_at(g: Seq<Seq<Cell>>, r: int, c: int) -> bool {
    &&& glyph_at(g, r, c) is Some
    &&& alphanumeric(glyph_at(g, r, c)->0)
}

/// The colors the cell at `(r, c)` renders with.
pub open spec fn pair_at(g: Seq<Seq<Cell>>, palette: Palette, r: int, c: int) -> ColorPair {
    palette.resolved(g[r][c].style)
}

/// A text cell whose pair the table rates below the floor.
pub open spec fn failing_at(g: Seq<Seq<Cell>>, palette: Palette, ratings: Seq<(ColorPair, Option<u32>)>, r: int, c: int) -> bool {
    &&& 0 <= r < g.len()
    &&& 0 <= c < g[r].len()
    &&& text_at(g, r, c)
    &&& rating_of(ratings, pair_at(g, palette, r, c)) is Some
}

/// `(r2, c2)` comes before `(r, c)` in reading order.
pub open spec fn earlier(r2: int, c2: int, r: int, c: int) -> bool {
    r2 < r || (r2 == r && c2 < c)
}

/// Some failing cell before `(r, c)` renders with `pair`.
pub open spec fn failed_before(
    g: Seq<Seq<Cell>>,
    palette: Palette,
    ratings: Seq<(ColorPair, Option<u32>)>,
    r: int,
    c: int,
    pair: ColorPair,
) -> bool {
    exists|r2: int, c2: int|
        earlier(r2, c2, r, c) && #[trigger] failing_at(g, palette, ratings, r2, c2) && pair_at(g, palette, r2, c2)
            == pair
}

/// The first failing cell of its pair: where the rule reports.
pub open spec fn contrast_cell(g: Seq<Seq<Cell>>, palette: Palette, ratings: Seq<(ColorPair, Option<u32>)>, r: int, c: int) -> bool {
    failing_at(g, palette, ratings, r, c) && !failed_before(g, palette, ratings, r, c, pair_at(g, palette, r, c))
}

pub open spec fn contrast_hit(g: Seq<Seq<Cell>>, palette: Palette, ratings: Seq<(ColorPair, Option<u32>)>) -> spec_fn(int, int) -> bool {
    |r: int, c: int| contrast_cell(g, palette, ratings, r, c)
}

/// A text cell rendering with `pair`.
pub open spec fn pair_cell(g: Seq<Seq<Cell>>, palette: Palette, pair: ColorPair, r: int, c: int) -> bool {
    &&& 0 <= r < g.len()
    &&& 0 <= c < g[r].len()
    &&& text_at(g, r, c)
    &&& pair_at(g, palette, r, c) == pair
}

pub open spec fn pair_hit(g: Seq<Seq<Cell>>, palette: Palette, pair: ColorPair) -> spec_fn(int, int) -> bool {
    |r: int, c: int| pair_cell(g, palette, pair, r, c)
}

/// How many cells a grid holds.
pub open spec fn cells_upto(g: Seq<Seq<Cell>>, r: int) -> nat
    decreases r,
{
    if r <= 0 || r > g.len() {
        0
    } else {
        cells_upto(g, r - 1) + g[r - 1].len()
    }
}

pub open spec fn cell_total(g: Seq<Seq<Cell>>) -> nat {
    cells_upto(g, g.len() as int)
}

/// The glyphs of the run of cells from `c` on that share `style`.
pub open spec fn style_run(cells: Seq<Cell>, c: int, style: Style) -> Seq<char>
    decreases cells.len() - c,
{
    if c < 0 || c >= cells.len() || cells[c].style != style {
        Seq::empty()
    } else {
        let head = match cells[c].glyph {
            Some(g) => seq![g],
            None => Seq::<char>::empty(),
        };
        head + style_run(cells, c + 1, style)
    }
}

/// At most the first `n` characters of `s`.
pub open spec fn at_most(s: Seq<char>, n: nat) -> Seq<char> {
    if s.len() <= n {
        s
    } else {
        s.take(n as int)
    }
}

/// A rating in tenths as `d.d`.
pub open spec fn tenths_text(t: u32) -> Seq<char> {
    decimal((t / 10) as nat) + seq!['.'] + decimal((t % 10) as nat)
}

/// A color the user's theme decides: the default, or one of the 16 named.
pub open spec fn themed(c: Color) -> bool {
    match c {
        Color::Default => true,
        Color::Indexed(n) => n < 16,
        Color::Rgb(_, _, _) => false,
    }
}

/// The snippet of a low-contrast finding.
pub open spec fn contrast_snippet(cells: Seq<Cell>, c: int, pair: ColorPair, tenths: u32) -> Seq<char> {
    seq!['"'] + at_most(style_run(cells, c, cells[c].style), 24) + "\" "@ + hex_code(pair.0) + " on "@ + hex_code(
        pair.1,
    ) + ": "@ + tenths_text(tenths) + ":1 (need 4.5:1)"@
}

/// The finding at a failing cell: the usual position extras, then how many
/// text cells share the pair and whether the theme decides the ratio.
pub open spec fn contrast_view(
    frame: Frame,
    palette: Palette,
    ratings: Seq<(ColorPair, Option<u32>)>,
    file: Seq<char>,
    r: int,
    c: int,
) -> FindingView {
    let g = frame.cells();
    let pair = pair_at(g, palette, r, c);
    let base = rt_view(
        "tui-rt-low-contrast"@,
        file,
        frame.width as nat,
        frame.height as nat,
        r,
        c,
        contrast_snippet(g[r], c, pair, rating_of(ratings, pair)->0),
    );
    let style = g[r][c].style;
    FindingView {
        extras: base.extras + seq![
            ("cellCount"@, ExtraValue::Int(hits(g, pair_hit(g, palette, pair)).len() as int)),
            ("paletteRelative"@, ExtraValue::Bool(themed(style.fg) || themed(style.bg))),
        ],
        ..base
    }
}

/// The findings at the cells `hs`.
pub open spec fn contrast_views(
    frame: Frame,
    palette: Palette,
    ratings: Seq<(ColorPair, Option<u32>)>,
    file: Seq<char>,
    hs: Seq<(int, int)>,
) -> Seq<FindingView> {
    Seq::new(hs.len(), |i: int| contrast_view(frame, palette, ratings, file, hs[i].0, hs[i].1))
}

/// What `rt_low_contrast` reports: one finding per failing pair, at its
/// first text cell, in reading order.
pub open spec fn contrast_spec(frame: Frame, palette: Palette, ratings: Seq<(ColorPair, Option<u32>)>, file: Seq<char>) -> Seq<FindingView> {
    let g = frame.cells();
    contrast_views(frame, palette, ratings, file, hits(g, contrast_hit(g, palette, ratings)))
}

/// Pair equality, channel by channel.
pub fn same_pair(a: ColorPair, b: ColorPair) -> (r: bool)
    ensures
        r == (a == b),
{
    a.0.0 == b.0.0 && a.0.1 == b.0.1 && a.0.2 == b.0.2 && a.1.0 == b.1.0 && a.1.1 == b.1.1 && a.1.2 == b.1.2
}

/// The table's rating for `pair`.
pub fn rating_for(ratings: &[(ColorPair, Option<u32>)], pair: ColorPair) -> (t: Option<u32>)
    ensures
        t == rating_of(ratings@, pair),
{
    let mut i: usize = 0;
    while i < ratings.len()
        invariant
            0 <= i <= ratings@.len(),
            rating_of(ratings@, pair) == rating_from(ratings@, pair, i as int),
        decreases ratings@.len() - i,
    {
        if same_pair(ratings[i].0, pair) {
            return ratings[i].1;
        }
        i = i + 1;
    }
    None
}

/// Is `pair` among `pairs`?
pub fn has_pair(pairs: &Vec<ColorPair>, pair: ColorPair) -> (b: bool)
    ensures
        b == pairs@.contains(pair),
{
    let mut i: usize = 0;
    while i < pairs.len()
        invariant
            0 <= i <= pairs@.len(),
            forall|j: int| 0 <= j < i ==> pairs@[j] != pair,
        decreases pairs@.len() - i,
    {
        if same_pair(pairs[i], pair) {
            proof {
                assert(pairs@[i as int] == pair);
            }
            return true;
        }
        i = i + 1;
    }
    false
}

/// The glyphs of the same-style run from `c`, at most 24 of them.
fn run_glyphs(cells: &Vec<Cell>, c: usize) -> (s: Vec<char>)
    requires
        c < cells@.len(),
    ensures
        s@ == at_most(style_run(cells@, c as int, cells@[c as int].style), 24),
{
    let style = cells[c].style;
    let ghost full = style_run(cells@, c as int, style);
    let mut out: Vec<char> = Vec::new();
    let mut i = c;
    while i < cells.len() && out.len() < 24 && cells[i].style == style
        invariant
            c <= i <= cells@.len(),
            full == style_run(cells@, c as int, style),
            full == out@ + style_run(cells@, i as int, style),
            out@.len() <= 24,
        decreases cells@.len() - i,
    {
        let ghost before = out@;
        match cells[i].glyph {
            Some(g) => out.push(g),
            None => {},
        }
        proof {
            assert(full =~= out@ + style_run(cells@, i + 1, style));
        }
        i = i + 1;
    }
    proof {
        if out@.len() < 24 {
            assert(style_run(cells@, i as int, style) =~= Seq::<char>::empty());
            assert(full =~= out@);
        } else {
            assert(full.take(24) =~= out@);
        }
    }
    out
}

pub proof fn lemma_hits_cols_len(p: spec_fn(int, int) -> bool, r: int, c: int)
    ensures
        hits_cols(p, r, c).len() <= if c < 0 { 0 } else { c },
    decreases c,
{
    if c > 0 {
        lemma_hits_cols_len(p, r, c - 1);
    }
}

pub proof fn lemma_hits_rows_len(g: Seq<Seq<Cell>>, p: spec_fn(int, int) -> bool, r: int)
    requires
        r <= g.len(),
    ensures
        hits_rows(g, p, r).len() <= cells_upto(g, r),
    decreases r,
{
    if r > 0 {
        lemma_hits_rows_len(g, p, r - 1);
        lemma_hits_cols_len(p, r - 1, g[r - 1].len() as int);
    }
}

pub proof fn lemma_cells_upto_grow(g: Seq<Seq<Cell>>, r: int, s: int)
    requires
        0 <= r <= s <= g.len(),
    ensures
        cells_upto(g, r) <= cells_upto(g, s),
    decreases s - r,
{
    if r < s {
        lemma_cells_upto_grow(g, r, s - 1);
    }
}

/// How many text cells render with `pair`.
fn count_pair(frame: &Frame, palette: Palette, pair: ColorPair) -> (n: usize)
    requires
        cell_total(frame.cells()) <= usize::MAX,
    ensures
        n == hits(frame.cells(), pair_hit(frame.cells(), palette, pair)).len(),
{
    let ghost g = frame.cells();
    let ghost p = pair_hit(g, palette, pair);
    let mut n: usize = 0;
    let mut r: usize = 0;
    while r < frame.rows.len()
        invariant
            g == frame.cells(),
            p == pair_hit(g, palette, pair),
            g.len() == frame.rows@.len(),
            cell_total(g) <= usize::MAX,
            0 <= r <= g.len(),
            n == hits_rows(g, p, r as int).len(),
        decreases g.len() - r,
    {
        let row = &frame.rows[r];
        let mut c: usize = 0;
        while c < row.len()
            invariant
                g == frame.cells(),
                p == pair_hit(g, palette, pair),
                g.len() == frame.rows@.len(),
                cell_total(g) <= usize::MAX,
                0 <= r < g.len(),
                row@ == g[r as int],
                0 <= c <= row@.len(),
                n == hits_rows(g, p, r as int).len() + hits_cols(p, r as int, c as int).len(),
            decreases row@.len() - c,
        {
            let hit = match row[c].glyph {
                Some(ch) => is_alphanumeric(ch) && same_pair(palette.resolve(&row[c].style), pair),
                None => false,
            };
            proof {
                assert(hit == p(r as int, c as int));
                lemma_hits_rows_len(g, p, r + 1);
                lemma_hits_cols_grow(p, r as int, c + 1, g[r as int].len() as int);
                lemma_cells_upto_grow(g, r + 1, g.len() as int);
                assert(hits_rows(g, p, r + 1) =~= hits_rows(g, p, r as int) + hits_cols(p, r as int, g[r as int].len() as int));
            }
            if hit {
                n = n + 1;
            }
            c = c + 1;
        }
        proof {
            assert(hits_rows(g, p, r + 1) =~= hits_rows(g, p, r as int) + hits_cols(p, r as int, g[r as int].len() as int));
        }
        r = r + 1;
    }
    n
}

/// `d.d` for a rating in tenths.
fn tenths_chars(t: u32) -> (s: Vec<char>)
    ensures
        s@ == tenths_text(t),
{
    let mut s = decimal_chars((t / 10) as u64);
    s.push('.');
    let d = decimal_chars((t % 10) as u64);
    append_chars(&mut s, d.as_slice());
    proof {
        assert(s@ =~= tenths_text(t));
    }
    s
}

/// The low-contrast finding at the failing cell `(r, c)`.
fn contrast_finding(
    frame: &Frame,
    palette: Palette,
    ratings: &[(ColorPair, Option<u32>)],
    file: &str,
    r: usize,
    c: usize,
) -> (f: Finding)
    requires
        failing_at(frame.cells(), palette, ratings@, r as int, c as int),
        cell_total(frame.cells()) <= usize::MAX,
    ensures
        f@ == contrast_view(*frame, palette, ratings@, file@, r as int, c as int),
{
    let ghost g = frame.cells();
    let nrows = frame.rows.len();
    let row = &frame.rows[r];
    let row_len = row.len();
    let cell = row[c];
    let pair = palette.resolve(&cell.style);
    let t = match rating_for(ratings, pair) {
        Some(t) => t,
        None => 0,
    };
    let mut snippet: Vec<char> = Vec::new();
    snippet.push('"');
    let run = run_glyphs(row, c);
    append_chars(&mut snippet, run.as_slice());
    append_str(&mut snippet, "\" ");
    let fg = hex_chars(pair.0);
    append_chars(&mut snippet, fg.as_slice());
    append_str(&mut snippet, " on ");
    let bg = hex_chars(pair.1);
    append_chars(&mut snippet, bg.as_slice());
    append_str(&mut snippet, ": ");
    let shown = tenths_chars(t);
    append_chars(&mut snippet, shown.as_slice());
    append_str(&mut snippet, ":1 (need 4.5:1)");
    proof {
        assert(snippet@ =~= contrast_snippet(g[r as int], c as int, pair, rating_of(ratings@, pair)->0));
    }
    let mut f = rt_finding("tui-rt-low-contrast", file, frame, r, c, snippet.as_slice());
    let count = count_pair(frame, palette, pair);
    push_extra(&mut f, "cellCount", Extra::Int(count as u128));
    let fg_themed = match cell.style.fg {
        Color::Default => true,
        Color::Indexed(n) => n < 16,
        Color::Rgb(_, _, _) => false,
    };
    let bg_themed = match cell.style.bg {
        Color::Default => true,
        Color::Indexed(n) => n < 16,
        Color::Rgb(_, _, _) => false,
    };
    push_extra(&mut f, "paletteRelative", Extra::Bool(fg_themed || bg_themed));
    proof {
        let v = contrast_view(*frame, palette, ratings@, file@, r as int, c as int);
        assert(f@.extras =~= v.extras);
    }
    f
}

proof fn lemma_failed_before_step(
    g: Seq<Seq<Cell>>,
    palette: Palette,
    ratings: Seq<(ColorPair, Option<u32>)>,
    r: int,
    c: int,
    q: ColorPair,
)
    ensures
        failed_before(g, palette, ratings, r, c + 1, q) <==> (failed_before(g, palette, ratings, r, c, q) || (
        failing_at(g, palette, ratings, r, c) && pair_at(g, palette, r, c) == q)),
{
    if failed_before(g, palette, ratings, r, c + 1, q) {
        let (r2, c2) = choose|r2: int, c2: int|
            earlier(r2, c2, r, c + 1) && #[trigger] failing_at(g, palette, ratings, r2, c2) && pair_at(g, palette, r2, c2)
                == q;
        if !(r2 == r && c2 == c) {
            assert(earlier(r2, c2, r, c));
            assert(failing_at(g, palette, ratings, r2, c2));
        }
    }
    if failed_before(g, palette, ratings, r, c, q) {
        let (r2, c2) = choose|r2: int, c2: int|
            earlier(r2, c2, r, c) && #[trigger] failing_at(g, palette, ratings, r2, c2) && pair_at(g, palette, r2, c2)
                == q;
        assert(earlier(r2, c2, r, c + 1));
        assert(failing_at(g, palette, ratings, r2, c2));
    }
    if failing_at(g, palette, ratings, r, c) && pair_at(g, palette, r, c) == q {
        assert(earlier(r, c, r, c + 1));
    }
}

proof fn lemma_failed_before_row(g: Seq<Seq<Cell>>, palette: Palette, ratings: Seq<(ColorPair, Option<u32>)>, r: int, q: ColorPair)
    requires
        0 <= r < g.len(),
    ensures
        failed_before(g, palette, ratings, r + 1, 0, q) <==> failed_before(g, palette, ratings, r, g[r].len() as int, q),
{
    if failed_before(g, palette, ratings, r + 1, 0, q) {
        let (r2, c2) = choose|r2: int, c2: int|
            earlier(r2, c2, r + 1, 0) && #[trigger] failing_at(g, palette, ratings, r2, c2) && pair_at(g, palette, r2, c2)
                == q;
        assert(earlier(r2, c2, r, g[r].len() as int));
        assert(failing_at(g, palette, ratings, r2, c2));
    }
    if failed_before(g, palette, ratings, r, g[r].len() as int, q) {
        let (r2, c2) = choose|r2: int, c2: int|
            earlier(r2, c2, r, g[r].len() as int) && #[trigger] failing_at(g, palette, ratings, r2, c2) && pair_at(
                g,
                palette,
                r2,
                c2,
            ) == q;
        assert(earlier(r2, c2, r + 1, 0));
        assert(failing_at(g, palette, ratings, r2, c2));
    }
}

/// Row `r` of the low-contrast scan: `seen` holds the failing pairs so far.
fn contrast_row(
    frame: &Frame,
    palette: Palette,
    ratings: &[(ColorPair, Option<u32>)],
    file: &str,
    r: usize,
    seen: &mut Vec<ColorPair>,
    out: &mut Vec<Finding>,
)
    requires
        r < frame.rows@.len(),
        cell_total(frame.cells()) <= usize::MAX,
        forall|q: ColorPair| old(seen)@.contains(q) <==> failed_before(frame.cells(), palette, ratings@, r as int, 0, q),
        findings_view(old(out)@) == contrast_views(
            *frame,
            palette,
            ratings@,
            file@,
            hits_rows(frame.cells(), contrast_hit(frame.cells(), palette, ratings@), r as int),
        ),
    ensures
        forall|q: ColorPair| final(seen)@.contains(q) <==> failed_before(frame.cells(), palette, ratings@, r + 1, 0, q),
        findings_view(final(out)@) == contrast_views(
            *frame,
            palette,
            ratings@,
            file@,
            hits_rows(frame.cells(), contrast_hit(frame.cells(), palette, ratings@), r + 1),
        ),
{
    let ghost g = frame.cells();
    let ghost p = contrast_hit(g, palette, ratings@);
    let ghost before = hits_rows(g, p, r as int);
    let row = &frame.rows[r];
    let mut c: usize = 0;
    proof {
        assert(before + hits_cols(p, r as int, 0) =~= before);
    }
    while c < row.len()
        invariant
            g == frame.cells(),
            p == contrast_hit(g, palette, ratings@),
            before == hits_rows(g, p, r as int),
            r < g.len(),
            row@ == g[r as int],
            cell_total(g) <= usize::MAX,
            0 <= c <= row@.len(),
            forall|q: ColorPair| seen@.contains(q) <==> failed_before(g, palette, ratings@, r as int, c as int, q),
            findings_view(out@) == contrast_views(*frame, palette, ratings@, file@, before + hits_cols(p, r as int, c as int)),
        decreases row@.len() - c,
    {
        let ghost pos = before + hits_cols(p, r as int, c as int);
        let ghost seen_before = seen@;
        let ghost out_before = out@;
        let ghost cell_pair = pair_at(g, palette, r as int, c as int);
        let text = match row[c].glyph {
            Some(ch) => is_alphanumeric(ch),
            None => false,
        };
        let mut reported = false;
        if text {
            let pair = palette.resolve(&row[c].style);
            match rating_for(ratings, pair) {
                Some(_t) => {
                    if !has_pair(seen, pair) {
                        seen.push(pair);
                        let f = contrast_finding(frame, palette, ratings, file, r, c);
                        out.push(f);
                        reported = true;
                        proof {
                            assert(seen@ == seen_before.push(cell_pair));
                            assert(findings_view(out@) =~= findings_view(out_before).push(
                                contrast_view(*frame, palette, ratings@, file@, r as int, c as int),
                            ));
                        }
                    }
                },
                None => {},
            }
        }
        proof {
            assert(reported == p(r as int, c as int));
            assert forall|q: ColorPair| seen@.contains(q) <==> failed_before(g, palette, ratings@, r as int, c + 1, q) by {
                lemma_failed_before_step(g, palette, ratings@, r as int, c as int, q);
                if reported {
                    vstd::seq_lib::lemma_seq_contains_after_push(seen_before, cell_pair, q);
                } else {
                    assert(seen@ == seen_before);
                }
            }
            let npos = before + hits_cols(p, r as int, c + 1);
            if reported {
                assert(npos =~= pos.push((r as int, c as int)));
            } else {
                assert(npos =~= pos);
                assert(out@ == out_before);
            }
            assert(findings_view(out@) =~= contrast_views(*frame, palette, ratings@, file@, npos));
        }
        c = c + 1;
    }
    proof {
        assert(hits_rows(g, p, r + 1) =~= before + hits_cols(p, r as int, g[r as int].len() as int));
        assert forall|q: ColorPair| seen@.contains(q) <==> failed_before(g, palette, ratings@, r + 1, 0, q) by {
            lemma_failed_before_row(g, palette, ratings@, r as int, q);
        }
    }
}

/// `tui-rt-low-contrast`: text whose colors the ratings table puts under the
/// floor, once per pair, at the pair's first text cell.
pub fn rt_low_contrast(frame: &Frame, palette: Palette, file: &str, ratings: &[(ColorPair, Option<u32>)]) -> (out: Vec<Finding>)
    requires
        cell_total(frame.cells()) <= usize::MAX,
    ensures
        findings_view(out@) == contrast_spec(*frame, palette, ratings@, file@),
{
    let ghost g = frame.cells();
    let ghost p = contrast_hit(g, palette, ratings@);
    let mut seen: Vec<ColorPair> = Vec::new();
    let mut out: Vec<Finding> = Vec::new();
    let mut r: usize = 0;
    proof {
        assert(findings_view(out@) =~= contrast_views(*frame, palette, ratings@, file@, hits_rows(g, p, 0)));
    }
    while r < frame.rows.len()
        invariant
            g == frame.cells(),
            p == contrast_hit(g, palette, ratings@),
            g.len() == frame.rows@.len(),
            cell_total(g) <= usize::MAX,
            0 <= r <= g.len(),
            forall|q: ColorPair| seen@.contains(q) <==> failed_before(g, palette, ratings@, r as int, 0, q),
            findings_view(out@) == contrast_views(*frame, palette, ratings@, file@, hits_rows(g, p, r as int)),
        decreases g.len() - r,
    {
        contrast_row(frame, palette, ratings, file, r, &mut seen, &mut out);
        r = r + 1;
    }
    out
}

/// Some text cell before `(r, c)` renders with `pair`.
pub open spec fn text_pair_before(g: Seq<Seq<Cell>>, palette: Palette, r: int, c: int, pair: ColorPair) -> bool {
    exists|r2: int, c2: int| earlier(r2, c2, r, c) && #[trigger] pair_cell(g, palette, pair, r2, c2)
}

/// Some text cell of the grid renders with `pair`.
pub open spec fn text_pair(g: Seq<Seq<Cell>>, palette: Palette, pair: ColorPair) -> bool {
    exists|r: int, c: int| #[trigger] pair_cell(g, palette, pair, r, c)
}

proof fn lemma_text_pair_step(g: Seq<Seq<Cell>>, palette: Palette, r: int, c: int, q: ColorPair)
    ensures
        text_pair_before(g, palette, r, c + 1, q) <==> (text_pair_before(g, palette, r, c, q) || pair_cell(
            g,
            palette,
            q,
            r,
            c,
        )),
{
    if text_pair_before(g, palette, r, c + 1, q) {
        let (r2, c2) = choose|r2: int, c2: int| earlier(r2, c2, r, c + 1) && #[trigger] pair_cell(g, palette, q, r2, c2);
        if !(r2 == r && c2 == c) {
            assert(earlier(r2, c2, r, c));
        }
    }
    if text_pair_before(g, palette, r, c, q) {
        let (r2, c2) = choose|r2: int, c2: int| earlier(r2, c2, r, c) && #[trigger] pair_cell(g, palette, q, r2, c2);
        assert(earlier(r2, c2, r, c + 1));
    }
    if pair_cell(g, palette, q, r, c) {
        assert(earlier(r, c, r, c + 1));
    }
}

proof fn lemma_text_pair_row(g: Seq<Seq<Cell>>, palette: Palette, r: int, q: ColorPair)
    requires
        0 <= r < g.len(),
    ensures
        text_pair_before(g, palette, r + 1, 0, q) <==> text_pair_before(g, palette, r, g[r].len() as int, q),
{
    if text_pair_before(g, palette, r + 1, 0, q) {
        let (r2, c2) = choose|r2: int, c2: int| earlier(r2, c2, r + 1, 0) && #[trigger] pair_cell(g, palette, q, r2, c2);
        assert(earlier(r2, c2, r, g[r].len() as int));
    }
    if text_pair_before(g, palette, r, g[r].len() as int, q) {
        let (r2, c2) = choose|r2: int, c2: int|
            earlier(r2, c2, r, g[r].len() as int) && #[trigger] pair_cell(g, palette, q, r2, c2);
        assert(earlier(r2, c2, r + 1, 0));
    }
}

/// The distinct color pairs of the frame's text cells: the pairs a ratings
/// table for [`rt_low_contrast`] needs.
pub fn text_color_pairs(frame: &Frame, palette: Palette) -> (pairs: Vec<ColorPair>)
    ensures
        pairs@.no_duplicates(),
        forall|q: ColorPair| pairs@.contains(q) <==> text_pair(frame.cells(), palette, q),
{
    let ghost g = frame.cells();
    let mut pairs: Vec<ColorPair> = Vec::new();
    let mut r: usize = 0;
    while r < frame.rows.len()
        invariant
            g == frame.cells(),
            g.len() == frame.rows@.len(),
            0 <= r <= g.len(),
            pairs@.no_duplicates(),
            forall|q: ColorPair| pairs@.contains(q) <==> text_pair_before(g, palette, r as int, 0, q),
        decreases g.len() - r,
    {
        let row = &frame.rows[r];
        let mut c: usize = 0;
        while c < row.len()
            invariant
                g == frame.cells(),
                0 <= r < g.len(),
                row@ == g[r as int],
                0 <= c <= row@.len(),
                pairs@.no_duplicates(),
                forall|q: ColorPair| pairs@.contains(q) <==> text_pair_before(g, palette, r as int, c as int, q),
            decreases row@.len() - c,
        {
            let ghost before = pairs@;
            let ghost cell_pair = pair_at(g, palette, r as int, c as int);
            let text = match row[c].glyph {
                Some(ch) => is_alphanumeric(ch),
                None => false,
            };
            let mut added = false;
            if text {
                let pair = palette.resolve(&row[c].style);
                if !has_pair(&pairs, pair) {
                    pairs.push(pair);
                    added = true;
                    proof {
                        assert(!before.contains(cell_pair));
                        assert(pairs@ == before.push(cell_pair));
                    }
                }
            }
            proof {
                assert forall|q: ColorPair| pairs@.contains(q) <==> text_pair_before(g, palette, r as int, c + 1, q) by {
                    lemma_text_pair_step(g, palette, r as int, c as int, q);
                    if added {
                        vstd::seq_lib::lemma_seq_contains_after_push(before, cell_pair, q);
                    }
                }
                if added {
                    assert forall|i: int, j: int| 0 <= i < j < pairs@.len() implies pairs@[i] != pairs@[j] by {
                        assert(pairs@[i] == before[i]);
                        if j == pairs@.len() - 1 {
                            assert(pairs@[j] == cell_pair);
                            if before[i] == cell_pair {
                                assert(before.contains(cell_pair));
                            }
                        } else {
                            assert(pairs@[j] == before[j]);
                        }
                    }
                }
            }
            c = c + 1;
        }
        proof {
            assert forall|q: ColorPair| pairs@.contains(q) <==> text_pair_before(g, palette, r + 1, 0, q) by {
                lemma_text_pair_row(g, palette, r as int, q);
            }
        }
        r = r + 1;
    }
    proof {
        assert forall|q: ColorPair| pairs@.contains(q) <==> text_pair(g, palette, q) by {
            if text_pair(g, palette, q) {
                let (r2, c2) = choose|r2: int, c2: int| #[trigger] pair_cell(g, palette, q, r2, c2);
                assert(earlier(r2, c2, g.len() as int, 0));
            }
            if text_pair_before(g, palette, g.len() as int, 0, q) {
                let (r2, c2) = choose|r2: int, c2: int|
                    earlier(r2, c2, g.len() as int, 0) && #[trigger] pair_cell(g, palette, q, r2, c2);
                assert(pair_cell(g, palette, q, r2, c2));
            }
        }
    }
    pairs
}

// ─── Boxes ──────────────────────────────────────────────────────────────────

/// A closed box-drawing rectangle, inclusive cell coordinates.
#[derive(Debug, Clone, Copy, PartialEq, Eq, Structural)]
pub struct Rect {
    pub top: usize,
    pub left: usize,
    pub bottom: usize,
    pub right: usize,
}

pub open spec fn top_left_at(g: Seq<Seq<Cell>>, r: int, c: int) -> bool {
    glyph_at(g, r, c) is Some && top_left(glyph_at(g, r, c)->0)
}

pub open spec fn top_right_at(g: Seq<Seq<Cell>>, r: int, c: int) -> bool {
    glyph_at(g, r, c) is Some && top_right(glyph_at(g, r, c)->0)
}

pub open spec fn bottom_left_at(g: Seq<Seq<Cell>>, r: int, c: int) -> bool {
    glyph_at(g, r, c) is Some && bottom_left(glyph_at(g, r, c)->0)
}

pub open spec fn bottom_right_at(g: Seq<Seq<Cell>>, r: int, c: int) -> bool {
    glyph_at(g, r, c) is Some && bottom_right(glyph_at(g, r, c)->0)
}

pub open spec fn vertical_at(g: Seq<Seq<Cell>>, r: int, c: int) -> bool {
    glyph_at(g, r, c) is Some && vertical(glyph_at(g, r, c)->0)
}

/// A vertical edge or a tee: what the side of a box may be made of.
pub open spec fn edge_at(g: Seq<Seq<Cell>>, r: int, c: int) -> bool {
    glyph_at(g, r, c) is Some && (vertical(glyph_at(g, r, c)->0) || tee(glyph_at(g, r, c)->0))
}

/// The first top-right corner of row `r` at or after column `c`.
pub open spec fn first_top_right(g: Seq<Seq<Cell>>, r: int, c: int) -> Option<int>
    decreases row_at(g, r).len() - c,
{
    if c < 0 || c >= row_at(g, r).len() {
        None
    } else if top_right_at(g, r, c) {
        Some(c)
    } else {
        first_top_right(g, r, c + 1)
    }
}

/// The first bottom-left corner in column `c` at or below row `r`.
pub open spec fn first_bottom_left(g: Seq<Seq<Cell>>, c: int, r: int) -> Option<int>
    decreases g.len() - r,
{
    if r < 0 || r >= g.len() {
        None
    } else if bottom_left_at(g, r, c) {
        Some(r)
    } else {
        first_bottom_left(g, c, r + 1)
    }
}

/// Something other than a horizontal or a title breaks the top edge.
pub open spec fn top_edge_broken(g: Seq<Seq<Cell>>, top: int, left: int, right: int) -> bool {
    exists|c: int|
        left < c < right && (vertical_at(g, top, c) || top_left_at(g, top, c) || bottom_left_at(g, top, c)
            || bottom_right_at(g, top, c))
}

/// Both sides run unbroken from the top edge to the bottom edge.
pub open spec fn sides_closed(g: Seq<Seq<Cell>>, top: int, bottom: int, left: int, right: int) -> bool {
    forall|r: int| top < r < bottom ==> edge_at(g, r, left) && edge_at(g, r, right)
}

/// The closed rectangle whose top-left corner is `(top, left)`: the first
/// top-right corner to its right, the first bottom-left corner below it, a
/// bottom-right corner where those meet, and unbroken edges.
pub open spec fn box_at(g: Seq<Seq<Cell>>, top: int, left: int) -> Option<Rect> {
    if !top_left_at(g, top, left) {
        None
    } else {
        match first_top_right(g, top, left + 1) {
            None => None,
            Some(right) => if top_edge_broken(g, top, left, right) {
                None
            } else {
                match first_bottom_left(g, left, top + 1) {
                    None => None,
                    Some(bottom) => if bottom_right_at(g, bottom, right) && sides_closed(g, top, bottom, left, right) {
                        Some(Rect { top: top as usize, left: left as usize, bottom: bottom as usize, right: right as usize })
                    } else {
                        None
                    },
                }
            },
        }
    }
}

pub open spec fn box_hit(g: Seq<Seq<Cell>>) -> spec_fn(int, int) -> bool {
    |r: int, c: int| box_at(g, r, c) is Some
}

/// The boxes at the cells `hs`.
pub open spec fn boxes_at(g: Seq<Seq<Cell>>, hs: Seq<(int, int)>) -> Seq<Rect> {
    Seq::new(hs.len(), |i: int| box_at(g, hs[i].0, hs[i].1)->0)
}

/// Every closed rectangle of the grid, by its top-left corner in reading order.
pub open spec fn boxes_of(g: Seq<Seq<Cell>>) -> Seq<Rect> {
    boxes_at(g, hits(g, box_hit(g)))
}

fn glyph_is_top_left(frame: &Frame, r: usize, c: usize) -> (b: bool)
    ensures
        b == top_left_at(frame.cells(), r as int, c as int),
{
    match frame.glyph(r, c) {
        Some(ch) => is_top_left(ch),
        None => false,
    }
}

fn glyph_is_top_right(frame: &Frame, r: usize, c: usize) -> (b: bool)
    ensures
        b == top_right_at(frame.cells(), r as int, c as int),
{
    match frame.glyph(r, c) {
        Some(ch) => is_top_right(ch),
        None => false,
    }
}

fn glyph_is_bottom_left(frame: &Frame, r: usize, c: usize) -> (b: bool)
    ensures
        b == bottom_left_at(frame.cells(), r as int, c as int),
{
    match frame.glyph(r, c) {
        Some(ch) => is_bottom_left(ch),
        None => false,
    }
}

fn glyph_is_bottom_right(frame: &Frame, r: usize, c: usize) -> (b: bool)
    ensures
        b == bottom_right_at(frame.cells(), r as int, c as int),
{
    match frame.glyph(r, c) {
        Some(ch) => is_bottom_right(ch),
        None => false,
    }
}

fn glyph_is_vertical(frame: &Frame, r: usize, c: usize) -> (b: bool)
    ensures
        b == vertical_at(frame.cells(), r as int, c as int),
{
    match frame.glyph(r, c) {
        Some(ch) => is_vertical(ch),
        None => false,
    }
}

fn glyph_is_edge(frame: &Frame, r: usize, c: usize) -> (b: bool)
    ensures
        b == edge_at(frame.cells(), r as int, c as int),
{
    match frame.glyph(r, c) {
        Some(ch) => is_vertical(ch) || is_tee(ch),
        None => false,
    }
}

/// [`first_top_right`] of row `r` from column `c`.
fn find_top_right(frame: &Frame, r: usize, c: usize) -> (found: Option<usize>)
    ensures
        match found {
            Some(x) => first_top_right(frame.cells(), r as int, c as int) == Some(x as int),
            None => first_top_right(frame.cells(), r as int, c as int) is None,
        },
{
    let ghost g = frame.cells();
    let len = frame.row_width(r);
    let mut x = c;
    while x < len
        invariant
            g == frame.cells(),
            len == row_at(g, r as int).len(),
            c <= x,
            first_top_right(g, r as int, c as int) == first_top_right(g, r as int, x as int),
        decreases len - x,
    {
        if glyph_is_top_right(frame, r, x) {
            return Some(x);
        }
        x = x + 1;
    }
    None
}

/// [`first_bottom_left`] of column `c` from row `r`.
fn find_bottom_left(frame: &Frame, c: usize, r: usize) -> (found: Option<usize>)
    ensures
        match found {
            Some(x) => first_bottom_left(frame.cells(), c as int, r as int) == Some(x as int),
            None => first_bottom_left(frame.cells(), c as int, r as int) is None,
        },
{
    let ghost g = frame.cells();
    let len = frame.rows.len();
    let mut y = r;
    while y < len
        invariant
            g == frame.cells(),
            len == g.len(),
            r <= y,
            first_bottom_left(g, c as int, r as int) == first_bottom_left(g, c as int, y as int),
        decreases len - y,
    {
        if glyph_is_bottom_left(frame, y, c) {
            return Some(y);
        }
        y = y + 1;
    }
    None
}

/// Is the top edge between `left` and `right` broken?
fn top_edge_is_broken(frame: &Frame, top: usize, left: usize, right: usize) -> (b: bool)
    ensures
        b == top_edge_broken(frame.cells(), top as int, left as int, right as int),
{
    let ghost g = frame.cells();
    if left >= right {
        return false;
    }
    let mut c = left + 1;
    while c < right
        invariant
            g == frame.cells(),
            left < c <= right,
            forall|x: int|
                left < x < c ==> !(vertical_at(g, top as int, x) || top_left_at(g, top as int, x) || bottom_left_at(
                    g,
                    top as int,
                    x,
                ) || bottom_right_at(g, top as int, x)),
        decreases right - c,
    {
        if glyph_is_vertical(frame, top, c) || glyph_is_top_left(frame, top, c) || glyph_is_bottom_left(frame, top, c)
            || glyph_is_bottom_right(frame, top, c) {
            return true;
        }
        c = c + 1;
    }
    false
}

/// Do both sides run unbroken between `top` and `bottom`?
fn sides_are_closed(frame: &Frame, top: usize, bottom: usize, left: usize, right: usize) -> (b: bool)
    ensures
        b == sides_closed(frame.cells(), top as int, bottom as int, left as int, right as int),
{
    let ghost g = frame.cells();
    if top >= bottom {
        return true;
    }
    let mut r = top + 1;
    while r < bottom
        invariant
            g == frame.cells(),
            top < r <= bottom,
            forall|y: int| top < y < r ==> edge_at(g, y, left as int) && edge_at(g, y, right as int),
        decreases bottom - r,
    {
        if !(glyph_is_edge(frame, r, left) && glyph_is_edge(frame, r, right)) {
            return false;
        }
        r = r + 1;
    }
    true
}

/// [`box_at`] of `(top, left)`.
pub fn box_from(frame: &Frame, top: usize, left: usize) -> (b: Option<Rect>)
    ensures
        b == box_at(frame.cells(), top as int, left as int),
{
    let ghost g = frame.cells();
    if !glyph_is_top_left(frame, top, left) {
        return None;
    }
    if left >= frame.row_width(top) {
        return None;
    }
    let right = match find_top_right(frame, top, left + 1) {
        Some(x) => x,
        None => { return None; },
    };
    if top_edge_is_broken(frame, top, left, right) {
        return None;
    }
    if top >= frame.rows.len() {
        return None;
    }
    let bottom = match find_bottom_left(frame, left, top + 1) {
        Some(y) => y,
        None => { return None; },
    };
    if glyph_is_bottom_right(frame, bottom, right) && sides_are_closed(frame, top, bottom, left, right) {
        Some(Rect { top, left, bottom, right })
    } else {
        None
    }
}

/// Every closed rectangle: a top-left corner, horizontals or a title to the
/// first top-right corner, verticals (or tees) down both sides to matching
/// bottom corners.
pub fn find_boxes(frame: &Frame) -> (out: Vec<Rect>)
    ensures
        out@ == boxes_of(frame.cells()),
{
    let ghost g = frame.cells();
    let ghost p = box_hit(g);
    let mut out: Vec<Rect> = Vec::new();
    let mut top: usize = 0;
    proof {
        assert(out@ =~= boxes_at(g, hits_rows(g, p, 0)));
    }
    while top < frame.rows.len()
        invariant
            g == frame.cells(),
            p == box_hit(g),
            g.len() == frame.rows@.len(),
            0 <= top <= g.len(),
            out@ == boxes_at(g, hits_rows(g, p, top as int)),
        decreases g.len() - top,
    {
        let ghost before = hits_rows(g, p, top as int);
        let width = frame.rows[top].len();
        let mut left: usize = 0;
        proof {
            assert(before + hits_cols(p, top as int, 0) =~= before);
        }
        while left < width
            invariant
                g == frame.cells(),
                p == box_hit(g),
                before == hits_rows(g, p, top as int),
                top < g.len(),
                width == g[top as int].len(),
                0 <= left <= width,
                out@ == boxes_at(g, before + hits_cols(p, top as int, left as int)),
            decreases width - left,
        {
            let ghost pos = before + hits_cols(p, top as int, left as int);
            let ghost out_before = out@;
            let found = box_from(frame, top, left);
            match found {
                Some(b) => {
                    out.push(b);
                },
                None => {},
            }
            proof {
                let npos = before + hits_cols(p, top as int, left + 1);
                if found is Some {
                    assert(npos =~= pos.push((top as int, left as int)));
                } else {
                    assert(npos =~= pos);
                }
                assert(out@ =~= boxes_at(g, npos));
            }
            left = left + 1;
        }
        proof {
            assert(hits_rows(g, p, top + 1) =~= before + hits_cols(p, top as int, g[top as int].len() as int));
        }
        top = top + 1;
    }
    out
}

/// Every cell that [`hits`] lists satisfies the predicate and lies in the grid.
pub proof fn lemma_hits_valid(g: Seq<Seq<Cell>>, p: spec_fn(int, int) -> bool, r: int)
    requires
        r <= g.len(),
    ensures
        forall|i: int|
            0 <= i < hits_rows(g, p, r).len() ==> {
                let x = #[trigger] hits_rows(g, p, r)[i];
                &&& p(x.0, x.1)
                &&& 0 <= x.0 < g.len()
                &&& x.0 < r
                &&& 0 <= x.1 < g[x.0].len()
            },
    decreases r,
{
    if r > 0 {
        lemma_hits_valid(g, p, r - 1);
        lemma_hits_cols_valid(p, r - 1, g[r - 1].len() as int);
        let a = hits_rows(g, p, r - 1);
        let b = hits_cols(p, r - 1, g[r - 1].len() as int);
        assert forall|i: int| 0 <= i < hits_rows(g, p, r).len() implies {
            let x = #[trigger] hits_rows(g, p, r)[i];
            &&& p(x.0, x.1)
            &&& 0 <= x.0 < g.len()
            &&& x.0 < r
            &&& 0 <= x.1 < g[x.0].len()
        } by {
            if i < a.len() {
                assert(hits_rows(g, p, r)[i] == a[i]);
            } else {
                assert(hits_rows(g, p, r)[i] == b[i - a.len()]);
            }
        }
    }
}

pub proof fn lemma_hits_cols_valid(p: spec_fn(int, int) -> bool, r: int, c: int)
    ensures
        forall|i: int|
            0 <= i < hits_cols(p, r, c).len() ==> {
                let x = #[trigger] hits_cols(p, r, c)[i];
                &&& p(x.0, x.1)
                &&& x.0 == r
                &&& 0 <= x.1 < c
            },
    decreases c,
{
    if c > 0 {
        lemma_hits_cols_valid(p, r, c - 1);
        let a = hits_cols(p, r, c - 1);
        assert forall|i: int| 0 <= i < hits_cols(p, r, c).len() implies {
            let x = #[trigger] hits_cols(p, r, c)[i];
            &&& p(x.0, x.1)
            &&& x.0 == r
            &&& 0 <= x.1 < c
        } by {
            if i < a.len() {
                assert(hits_cols(p, r, c)[i] == a[i]);
            }
        }
    }
}

proof fn lemma_first_top_right(g: Seq<Seq<Cell>>, r: int, c: int)
    ensures
        first_top_right(g, r, c) matches Some(x) ==> c <= x < row_at(g, r).len(),
    decreases row_at(g, r).len() - c,
{
    if 0 <= c < row_at(g, r).len() && !top_right_at(g, r, c) {
        lemma_first_top_right(g, r, c + 1);
    }
}

proof fn lemma_first_bottom_left(g: Seq<Seq<Cell>>, c: int, r: int)
    ensures
        first_bottom_left(g, c, r) matches Some(y) ==> r <= y < g.len(),
    decreases g.len() - r,
{
    if 0 <= r < g.len() && !bottom_left_at(g, r, c) {
        lemma_first_bottom_left(g, c, r + 1);
    }
}

/// A rectangle spans at least two rows and two columns, inside a grid that
/// fits in memory.
pub open spec fn rect_ok(b: Rect) -> bool {
    &&& b.top < b.bottom < usize::MAX
    &&& b.left < b.right < usize::MAX
}

pub proof fn lemma_boxes_ok(frame: Frame)
    ensures
        forall|i: int| 0 <= i < boxes_of(frame.cells()).len() ==> rect_ok(#[trigger] boxes_of(frame.cells())[i]),
{
    let g = frame.cells();
    let p = box_hit(g);
    lemma_hits_valid(g, p, g.len() as int);
    assert forall|i: int| 0 <= i < boxes_of(g).len() implies rect_ok(#[trigger] boxes_of(g)[i]) by {
        let x = hits(g, p)[i];
        assert(p(x.0, x.1));
        let (t, l) = x;
        lemma_first_top_right(g, t, l + 1);
        lemma_first_bottom_left(g, l, t + 1);
        let right = first_top_right(g, t, l + 1)->0;
        let bottom = first_bottom_left(g, l, t + 1)->0;
        assert(frame.rows@[t].len() == g[t].len());
        assert(frame.rows.len() == g.len());
        assert(right < g[t].len());
        assert(bottom < g.len());
        let b = boxes_of(g)[i];
        assert(b == box_at(g, t, l)->0);
        assert(b == Rect { top: t as usize, left: l as usize, bottom: bottom as usize, right: right as usize });
    }
}

// ─── Nested borders ─────────────────────────────────────────────────────────

/// `o` strictly surrounds `i`.
pub open spec fn encloses(o: Rect, i: Rect) -> bool {
    o.top < i.top && o.left < i.left && o.right > i.right && o.bottom > i.bottom
}

/// Among `boxes[..k]`, the box around `inner` with the lowest top edge, the
/// last of them on a tie.
pub open spec fn enclosing_upto(boxes: Seq<Rect>, inner: Rect, k: int) -> Option<Rect>
    decreases k,
{
    if k <= 0 || k > boxes.len() {
        None
    } else {
        let best = enclosing_upto(boxes, inner, k - 1);
        let o = boxes[k - 1];
        if encloses(o, inner) && (best is None || o.top >= best->0.top) {
            Some(o)
        } else {
            best
        }
    }
}

pub open spec fn enclosing(boxes: Seq<Rect>, inner: Rect) -> Option<Rect> {
    enclosing_upto(boxes, inner, boxes.len() as int)
}

/// `(r, c)` lies in `b`, border included.
pub open spec fn inside(b: Rect, r: int, c: int) -> bool {
    b.top <= r <= b.bottom && b.left <= c <= b.right
}

/// The cell shows nothing: missing, empty, or whitespace.
pub open spec fn blank_at(g: Seq<Seq<Cell>>, r: int, c: int) -> bool {
    glyph_at(g, r, c) is None || white_space(glyph_at(g, r, c)->0)
}

/// The ring between `outer`'s border and `inner` holds nothing.
pub open spec fn ring_blank(g: Seq<Seq<Cell>>, outer: Rect, inner: Rect) -> bool {
    forall|r: int, c: int|
        outer.top < r < outer.bottom && outer.left < c < outer.right ==> inside(inner, r, c) || #[trigger] blank_at(
            g,
            r,
            c,
        )
}

/// `WxH` of a rectangle.
pub open spec fn rect_size(b: Rect) -> Seq<char> {
    decimal((b.right - b.left + 1) as nat) + seq!['x'] + decimal((b.bottom - b.top + 1) as nat)
}

pub open spec fn nested_view(frame: Frame, file: Seq<char>, inner: Rect, outer: Rect) -> FindingView {
    rt_view(
        "tui-rt-nested-borders"@,
        file,
        frame.width as nat,
        frame.height as nat,
        inner.top as int,
        inner.left as int,
        rect_size(inner) + " box drawn directly inside a "@ + rect_size(outer) + " box"@,
    )
}

/// The findings for `boxes[..k]`: each box drawn directly inside the box
/// around it.
pub open spec fn nested_upto(frame: Frame, file: Seq<char>, boxes: Seq<Rect>, k: int) -> Seq<FindingView>
    decreases k,
{
    if k <= 0 || k > boxes.len() {
        Seq::empty()
    } else {
        let inner = boxes[k - 1];
        nested_upto(frame, file, boxes, k - 1) + match enclosing(boxes, inner) {
            Some(outer) => if ring_blank(frame.cells(), outer, inner) {
                seq![nested_view(frame, file, inner, outer)]
            } else {
                Seq::<FindingView>::empty()
            },
            None => Seq::<FindingView>::empty(),
        }
    }
}

/// What `rt_nested_borders` reports.
pub open spec fn nested_spec(frame: Frame, file: Seq<char>) -> Seq<FindingView> {
    let boxes = boxes_of(frame.cells());
    nested_upto(frame, file, boxes, boxes.len() as int)
}

/// [`enclosing`]: `max_by_key` on the top edge keeps the last maximum.
fn enclosing_box(boxes: &Vec<Rect>, inner: Rect) -> (best: Option<Rect>)
    ensures
        best == enclosing(boxes@, inner),
        best matches Some(o) ==> boxes@.contains(o),
{
    let mut best: Option<Rect> = None;
    let mut j: usize = 0;
    while j < boxes.len()
        invariant
            0 <= j <= boxes@.len(),
            best == enclosing_upto(boxes@, inner, j as int),
            best matches Some(o) ==> boxes@.contains(o),
        decreases boxes@.len() - j,
    {
        let o = boxes[j];
        if o.top < inner.top && o.left < inner.left && o.right > inner.right && o.bottom > inner.bottom {
            let better = match best {
                None => true,
                Some(b) => o.top >= b.top,
            };
            if better {
                proof {
                    assert(boxes@[j as int] == o);
                }
                best = Some(o);
            }
        }
        j = j + 1;
    }
    best
}

/// Is the ring between `outer` and `inner` blank?
fn ring_is_blank(frame: &Frame, outer: Rect, inner: Rect) -> (b: bool)
    requires
        rect_ok(outer),
    ensures
        b == ring_blank(frame.cells(), outer, inner),
{
    let ghost g = frame.cells();
    let mut r = outer.top + 1;
    while r < outer.bottom
        invariant
            g == frame.cells(),
            rect_ok(outer),
            outer.top < r <= outer.bottom,
            forall|y: int, x: int|
                outer.top < y < r && outer.left < x < outer.right ==> inside(inner, y, x) || #[trigger] blank_at(g, y, x),
        decreases outer.bottom - r,
    {
        let mut c = outer.left + 1;
        while c < outer.right
            invariant
                g == frame.cells(),
                rect_ok(outer),
                outer.top < r < outer.bottom,
                outer.left < c <= outer.right,
                forall|y: int, x: int|
                    outer.top < y < r && outer.left < x < outer.right ==> inside(inner, y, x) || #[trigger] blank_at(g, y, x),
                forall|x: int| outer.left < x < c ==> inside(inner, r as int, x) || #[trigger] blank_at(g, r as int, x),
            decreases outer.right - c,
        {
            let in_inner = r >= inner.top && r <= inner.bottom && c >= inner.left && c <= inner.right;
            let blank = match frame.glyph(r, c) {
                Some(ch) => is_whitespace(ch),
                None => true,
            };
            if !(in_inner || blank) {
                proof {
                    assert(!(inside(inner, r as int, c as int) || blank_at(g, r as int, c as int)));
                }
                return false;
            }
            c = c + 1;
        }
        r = r + 1;
    }
    true
}

/// `WxH` of a rectangle, as characters.
fn rect_size_chars(b: Rect) -> (s: Vec<char>)
    requires
        rect_ok(b),
    ensures
        s@ == rect_size(b),
{
    let mut s = decimal_chars((b.right - b.left + 1) as u64);
    s.push('x');
    let h = decimal_chars((b.bottom - b.top + 1) as u64);
    append_chars(&mut s, h.as_slice());
    proof {
        assert(s@ =~= rect_size(b));
    }
    s
}

/// `tui-rt-nested-borders`: a box drawn directly inside another box, with
/// nothing in the ring between them.
pub fn rt_nested_borders(frame: &Frame, file: &str) -> (out: Vec<Finding>)
    ensures
        findings_view(out@) == nested_spec(*frame, file@),
{
    let boxes = find_boxes(frame);
    proof {
        lemma_boxes_ok(*frame);
    }
    let mut out: Vec<Finding> = Vec::new();
    let mut i: usize = 0;
    proof {
        assert(findings_view(out@) =~= nested_upto(*frame, file@, boxes@, 0));
    }
    while i < boxes.len()
        invariant
            boxes@ == boxes_of(frame.cells()),
            forall|k: int| 0 <= k < boxes@.len() ==> rect_ok(#[trigger] boxes@[k]),
            0 <= i <= boxes@.len(),
            findings_view(out@) == nested_upto(*frame, file@, boxes@, i as int),
        decreases boxes@.len() - i,
    {
        let inner = boxes[i];
        let ghost out_before = findings_view(out@);
        match enclosing_box(&boxes, inner) {
            Some(outer) => {
                proof {
                    let k = choose|k: int| 0 <= k < boxes@.len() && boxes@[k] == outer;
                    assert(rect_ok(boxes@[k]));
                }
                if ring_is_blank(frame, outer, inner) {
                    let mut snippet = rect_size_chars(inner);
                    append_str(&mut snippet, " box drawn directly inside a ");
                    let o = rect_size_chars(outer);
                    append_chars(&mut snippet, o.as_slice());
                    append_str(&mut snippet, " box");
                    let f = rt_finding("tui-rt-nested-borders", file, frame, inner.top, inner.left, snippet.as_slice());
                    out.push(f);
                    proof {
                        assert(snippet@ =~= rect_size(inner) + " box drawn directly inside a "@ + rect_size(outer) + " box"@);
                        assert(findings_view(out@) =~= out_before.push(nested_view(*frame, file@, inner, outer)));
                    }
                }
            },
            None => {},
        }
        proof {
            assert(findings_view(out@) =~= nested_upto(*frame, file@, boxes@, i + 1));
        }
        i = i + 1;
    }
    out
}

// ─── Rows wider than their frame ────────────────────────────────────────────

/// What a row wider than its frame is. Each row gets exactly one verdict,
/// shared by width drift and narrow collapse; `line` and `column` index the
/// joined frame `capture-pane -J` returns.
#[derive(Debug, Clone, Copy, PartialEq, Eq, Structural)]
pub enum Overflow {
    /// No wider than the frame.
    Fits,
    /// The overflow is no larger than the row's count of wide glyphs: the
    /// app measured some of them as one cell. Any frame width.
    WidthDrift,
    /// Otherwise, in a frame under 60 columns, a row holding a Box Drawing
    /// glyph: the layout itself overflowed.
    Collapse,
    /// Anything else, such as prose the terminal wrapped and `-J` joined.
    Wrapped,
}

/// Row `r` holds a Box Drawing glyph.
pub open spec fn boxed_row(g: Seq<Seq<Cell>>, r: int) -> bool {
    exists|c: int| 0 <= c < row_at(g, r).len() && glyph_at(g, r, c) is Some && box_drawing(#[trigger] glyph_at(g, r, c)->0)
}

/// The verdict on row `r` of `frame`.
pub open spec fn overflow_of(frame: Frame, r: int) -> Overflow {
    let g = frame.cells();
    let w = row_at(g, r).len();
    if frame.width == 0 || w <= frame.width {
        Overflow::Fits
    } else if w - frame.width <= tail_count(row_at(g, r)) {
        Overflow::WidthDrift
    } else if frame.width < NARROW_COLUMNS && boxed_row(g, r) {
        Overflow::Collapse
    } else {
        Overflow::Wrapped
    }
}

/// Does row `r` hold a Box Drawing glyph?
fn row_has_box_drawing(frame: &Frame, r: usize) -> (b: bool)
    ensures
        b == boxed_row(frame.cells(), r as int),
{
    let ghost g = frame.cells();
    let w = frame.row_width(r);
    let mut c: usize = 0;
    while c < w
        invariant
            g == frame.cells(),
            w == row_at(g, r as int).len(),
            0 <= c <= w,
            forall|x: int| 0 <= x < c ==> !(glyph_at(g, r as int, x) is Some && box_drawing(#[trigger] glyph_at(g, r as int, x)->0)),
        decreases w - c,
    {
        let hit = match frame.glyph(r, c) {
            Some(ch) => is_box_drawing(ch),
            None => false,
        };
        if hit {
            proof {
                assert(glyph_at(g, r as int, c as int) is Some && box_drawing(glyph_at(g, r as int, c as int)->0));
            }
            return true;
        }
        c = c + 1;
    }
    false
}

/// The verdict on row `r`.
pub fn overflow_verdict(frame: &Frame, r: usize) -> (v: Overflow)
    ensures
        v == overflow_of(*frame, r as int),
{
    let ghost g = frame.cells();
    let w = frame.row_width(r);
    if frame.width == 0 || w <= frame.width {
        return Overflow::Fits;
    }
    if w - frame.width <= frame.wide_count(r) {
        return Overflow::WidthDrift;
    }
    let boxed = row_has_box_drawing(frame, r);
    if frame.width < NARROW_COLUMNS && boxed {
        Overflow::Collapse
    } else {
        Overflow::Wrapped
    }
}

/// A right-hand border glyph: a vertical or a right corner.
pub open spec fn right_edge_at(g: Seq<Seq<Cell>>, r: int, c: int) -> bool {
    glyph_at(g, r, c) is Some && (vertical(glyph_at(g, r, c)->0) || top_right(glyph_at(g, r, c)->0) || bottom_right(
        glyph_at(g, r, c)->0,
    ))
}

/// The last right-hand border glyph of row `r` before column `c`.
pub open spec fn last_edge_before(g: Seq<Seq<Cell>>, r: int, c: int) -> Option<int>
    decreases c,
{
    if c <= 0 {
        None
    } else if right_edge_at(g, r, c - 1) {
        Some(c - 1)
    } else {
        last_edge_before(g, r, c - 1)
    }
}

/// The cell index of the row's last vertical border or right corner.
pub open spec fn last_vertical_of(g: Seq<Seq<Cell>>, r: int) -> Option<int> {
    last_edge_before(g, r, row_at(g, r).len() as int)
}

proof fn lemma_last_edge_before(g: Seq<Seq<Cell>>, r: int, c: int)
    ensures
        last_edge_before(g, r, c) matches Some(x) ==> 0 <= x < c,
    decreases c,
{
    if c > 0 && !right_edge_at(g, r, c - 1) {
        lemma_last_edge_before(g, r, c - 1);
    }
}

/// The cell index of the row's last vertical border or right corner.
pub fn last_vertical(frame: &Frame, r: usize) -> (found: Option<usize>)
    ensures
        match found {
            Some(x) => last_vertical_of(frame.cells(), r as int) == Some(x as int) && x < row_at(frame.cells(), r as int).len(),
            None => last_vertical_of(frame.cells(), r as int) is None,
        },
{
    let ghost g = frame.cells();
    let mut c = frame.row_width(r);
    while c > 0
        invariant
            g == frame.cells(),
            c <= row_at(g, r as int).len(),
            last_vertical_of(g, r as int) == last_edge_before(g, r as int, c as int),
        decreases c,
    {
        let hit = match frame.glyph(r, c - 1) {
            Some(ch) => is_vertical(ch) || is_top_right(ch) || is_bottom_right(ch),
            None => false,
        };
        if hit {
            return Some(c - 1);
        }
        c = c - 1;
    }
    None
}

/// How many times `v` occurs in `s`.
pub open spec fn count_in(s: Seq<usize>, v: usize) -> nat
    decreases s.len(),
{
    if s.len() == 0 {
        0
    } else {
        count_in(s.drop_last(), v) + if s.last() == v { 1nat } else { 0nat }
    }
}

/// `m` is the most common value, occurring at least twice, and the larger
/// on a tie.
pub open spec fn is_mode(values: Seq<usize>, m: usize) -> bool {
    &&& values.contains(m)
    &&& count_in(values, m) >= 2
    &&& forall|i: int|
        0 <= i < values.len() ==> count_in(values, #[trigger] values[i]) < count_in(values, m) || (count_in(
            values,
            values[i],
        ) == count_in(values, m) && values[i] <= m)
}

/// The mode of `values`, when at least two agree.
pub open spec fn mode_spec(values: Seq<usize>) -> Option<usize> {
    if exists|m: usize| is_mode(values, m) {
        Some(choose|m: usize| is_mode(values, m))
    } else {
        None
    }
}

/// There is at most one mode.
pub proof fn lemma_mode_unique(values: Seq<usize>, a: usize, b: usize)
    requires
        is_mode(values, a),
        is_mode(values, b),
    ensures
        a == b,
{
    let i = choose|i: int| 0 <= i < values.len() && values[i] == a;
    let j = choose|j: int| 0 <= j < values.len() && values[j] == b;
    assert(count_in(values, values[j]) < count_in(values, a) || (count_in(values, values[j]) == count_in(values, a)
        && values[j] <= a));
    assert(count_in(values, values[i]) < count_in(values, b) || (count_in(values, values[i]) == count_in(values, b)
        && values[i] <= b));
}

proof fn lemma_count_take(s: Seq<usize>, v: usize, k: int)
    requires
        0 <= k < s.len(),
    ensures
        count_in(s.take(k + 1), v) == count_in(s.take(k), v) + if s[k] == v { 1nat } else { 0nat },
{
    assert(s.take(k + 1).drop_last() =~= s.take(k));
}

/// How many times `v` occurs in `values`.
fn count_value(values: &Vec<usize>, v: usize) -> (n: usize)
    ensures
        n == count_in(values@, v),
{
    let mut n: usize = 0;
    let mut i: usize = 0;
    proof {
        assert(values@.take(0) =~= Seq::<usize>::empty());
    }
    while i < values.len()
        invariant
            0 <= i <= values@.len(),
            n == count_in(values@.take(i as int), v),
            n <= i,
        decreases values@.len() - i,
    {
        proof {
            lemma_count_take(values@, v, i as int);
        }
        if values[i] == v {
            n = n + 1;
        }
        i = i + 1;
    }
    proof {
        assert(values@.take(values@.len() as int) =~= values@);
    }
    n
}

/// The most common value, when at least two rows agree; ties go to the larger.
pub fn mode_of(values: &Vec<usize>) -> (m: Option<usize>)
    ensures
        m == mode_spec(values@),
        m matches Some(x) ==> values@.contains(x),
{
    let mut best: Option<(usize, usize)> = None;
    let mut i: usize = 0;
    while i < values.len()
        invariant
            0 <= i <= values@.len(),
            i == 0 <==> best is None,
            best matches Some((bv, bc)) ==> values@.contains(bv) && bc == count_in(values@, bv) && forall|k: int|
                0 <= k < i ==> count_in(values@, #[trigger] values@[k]) < bc || (count_in(values@, values@[k]) == bc
                    && values@[k] <= bv),
        decreases values@.len() - i,
    {
        let v = values[i];
        let count = count_value(values, v);
        let better = match best {
            None => true,
            Some((bv, bc)) => count > bc || (count == bc && v > bv),
        };
        if better {
            best = Some((v, count));
        }
        i = i + 1;
    }
    match best {
        Some((bv, bc)) => {
            if bc >= 2 {
                proof {
                    assert(is_mode(values@, bv));
                    if exists|m: usize| is_mode(values@, m) {
                        lemma_mode_unique(values@, bv, choose|m: usize| is_mode(values@, m));
                    }
                }
                Some(bv)
            } else {
                proof {
                    assert forall|m: usize| !is_mode(values@, m) by {
                        if is_mode(values@, m) {
                            let k = choose|k: int| 0 <= k < values@.len() && values@[k] == m;
                            assert(count_in(values@, values@[k]) <= bc);
                        }
                    }
                }
                None
            }
        },
        None => {
            proof {
                assert forall|m: usize| !is_mode(values@, m) by {
                    if is_mode(values@, m) {
                        let k = choose|k: int| 0 <= k < values@.len() && values@[k] == m;
                    }
                }
            }
            None
        },
    }
}

/// The right border ends of the rows that have one, top to bottom.
pub open spec fn ends_upto(g: Seq<Seq<Cell>>, k: int) -> Seq<usize>
    decreases k,
{
    if k <= 0 {
        Seq::empty()
    } else {
        ends_upto(g, k - 1) + match last_vertical_of(g, k - 1) {
            Some(x) => seq![x as usize],
            None => Seq::<usize>::empty(),
        }
    }
}

pub open spec fn ends_of(g: Seq<Seq<Cell>>) -> Seq<usize> {
    ends_upto(g, g.len() as int)
}

/// Where each row's right border ends.
fn row_ends(frame: &Frame) -> (ends: Vec<usize>)
    ensures
        ends@ == ends_of(frame.cells()),
        forall|i: int| 0 <= i < ends@.len() ==> #[trigger] ends@[i] < usize::MAX,
{
    let ghost g = frame.cells();
    let mut ends: Vec<usize> = Vec::new();
    let mut r: usize = 0;
    while r < frame.rows.len()
        invariant
            g == frame.cells(),
            g.len() == frame.rows@.len(),
            0 <= r <= g.len(),
            ends@ == ends_upto(g, r as int),
            forall|i: int| 0 <= i < ends@.len() ==> #[trigger] ends@[i] < usize::MAX,
        decreases g.len() - r,
    {
        let w = frame.row_width(r);
        match last_vertical(frame, r) {
            Some(x) => {
                ends.push(x);
            },
            None => {},
        }
        proof {
            assert(ends@ =~= ends_upto(g, r + 1));
        }
        r = r + 1;
    }
    ends
}

/// Row `r` holds a two-column glyph.
pub open spec fn wide_row(g: Seq<Seq<Cell>>, r: int) -> bool {
    exists|c: int| 0 <= c < row_at(g, r).len() && (#[trigger] row_at(g, r)[c]).wide_tail
}

/// The width-drift finding on row `r`, given the usual border end.
pub open spec fn drift_row(frame: Frame, file: Seq<char>, usual: Option<usize>, r: int) -> Option<FindingView> {
    let g = frame.cells();
    match overflow_of(frame, r) {
        Overflow::WidthDrift => Some(
            rt_view(
                "tui-rt-width-drift"@,
                file,
                frame.width as nat,
                frame.height as nat,
                r,
                frame.width as int,
                "row measures "@ + decimal(row_at(g, r).len()) + " cells on a "@ + decimal(frame.width as nat)
                    + "-column pane"@,
            ),
        ),
        Overflow::Fits => {
            if wide_row(g, r) && last_vertical_of(g, r) is Some && usual is Some && last_vertical_of(g, r)->0
                != usual->0 as int {
                let end = last_vertical_of(g, r)->0;
                Some(
                    rt_view(
                        "tui-rt-width-drift"@,
                        file,
                        frame.width as nat,
                        frame.height as nat,
                        r,
                        end,
                        "border ends at column "@ + decimal((end + 1) as nat) + " while other rows end at "@ + decimal(
                            (usual->0 + 1) as nat,
                        ),
                    ),
                )
            } else {
                None
            }
        },
        _ => None,
    }
}

/// The findings of a list of optional findings, in order.
pub open spec fn some_views(k: int, f: spec_fn(int) -> Option<FindingView>) -> Seq<FindingView>
    decreases k,
{
    if k <= 0 {
        Seq::empty()
    } else {
        some_views(k - 1, f) + match f(k - 1) {
            Some(v) => seq![v],
            None => Seq::<FindingView>::empty(),
        }
    }
}

/// What `rt_width_drift` reports, row by row.
pub open spec fn drift_spec(frame: Frame, file: Seq<char>) -> Seq<FindingView> {
    let g = frame.cells();
    let usual = mode_spec(ends_of(g));
    some_views(g.len() as int, |r: int| drift_row(frame, file, usual, r))
}

/// The width-drift finding on row `r`.
fn drift_finding(frame: &Frame, file: &str, usual: Option<usize>, r: usize) -> (f: Option<Finding>)
    requires
        r < frame.rows@.len(),
        usual matches Some(u) ==> u < usize::MAX,
    ensures
        match f {
            Some(x) => drift_row(*frame, file@, usual, r as int) == Some(x@),
            None => drift_row(*frame, file@, usual, r as int) is None,
        },
{
    let ghost g = frame.cells();
    let nrows = frame.rows.len();
    let w = frame.row_width(r);
    match overflow_verdict(frame, r) {
        Overflow::WidthDrift => {
            let mut snippet = chars_of("row measures ");
            let d = decimal_chars(w as u64);
            append_chars(&mut snippet, d.as_slice());
            append_str(&mut snippet, " cells on a ");
            let fw = decimal_chars(frame.width as u64);
            append_chars(&mut snippet, fw.as_slice());
            append_str(&mut snippet, "-column pane");
            proof {
                assert(snippet@ =~= "row measures "@ + decimal(row_at(g, r as int).len()) + " cells on a "@ + decimal(
                    frame.width as nat,
                ) + "-column pane"@);
            }
            Some(rt_finding("tui-rt-width-drift", file, frame, r, frame.width, snippet.as_slice()))
        },
        Overflow::Fits => {
            if !frame.has_wide(r) {
                return None;
            }
            match (last_vertical(frame, r), usual) {
                (Some(end), Some(u)) => {
                    if end == u {
                        return None;
                    }
                    let mut snippet = chars_of("border ends at column ");
                    let e = decimal_chars((end + 1) as u64);
                    append_chars(&mut snippet, e.as_slice());
                    append_str(&mut snippet, " while other rows end at ");
                    let o = decimal_chars((u + 1) as u64);
                    append_chars(&mut snippet, o.as_slice());
                    proof {
                        assert(snippet@ =~= "border ends at column "@ + decimal((end + 1) as nat) + " while other rows end at "@
                            + decimal((u + 1) as nat));
                    }
                    Some(rt_finding("tui-rt-width-drift", file, frame, r, end, snippet.as_slice()))
                },
                _ => None,
            }
        },
        _ => None,
    }
}

/// `tui-rt-width-drift`: a row wider than the pane by no more than its wide
/// glyphs, or a row with a wide glyph whose right border ends away from
/// where most rows end theirs.
pub fn rt_width_drift(frame: &Frame, file: &str) -> (out: Vec<Finding>)
    ensures
        findings_view(out@) == drift_spec(*frame, file@),
{
    let ghost g = frame.cells();
    let ends = row_ends(frame);
    let usual = mode_of(&ends);
    proof {
        if usual is Some {
            let k = choose|k: int| 0 <= k < ends@.len() && ends@[k] == usual->0;
            assert(ends@[k] < usize::MAX);
        }
    }
    let ghost f = |r: int| drift_row(*frame, file@, usual, r);
    let mut out: Vec<Finding> = Vec::new();
    let mut r: usize = 0;
    while r < frame.rows.len()
        invariant
            g == frame.cells(),
            g.len() == frame.rows@.len(),
            usual == mode_spec(ends_of(g)),
            usual matches Some(u) ==> u < usize::MAX,
            f == (|r: int| drift_row(*frame, file@, usual, r)),
            0 <= r <= g.len(),
            findings_view(out@) == some_views(r as int, f),
        decreases g.len() - r,
    {
        let ghost before = findings_view(out@);
        match drift_finding(frame, file, usual, r) {
            Some(x) => {
                out.push(x);
            },
            None => {},
        }
        proof {
            assert(findings_view(out@) =~= some_views(r + 1, f));
        }
        r = r + 1;
    }
    proof {
        assert(drift_spec(*frame, file@) == some_views(g.len() as int, f));
    }
    out
}

// ─── Collapse in a narrow frame ─────────────────────────────────────────────

/// The text holds a left corner.
pub open spec fn has_left_corner(text: Seq<char>) -> bool {
    exists|i: int| 0 <= i < text.len() && (top_left(#[trigger] text[i]) || bottom_left(text[i]))
}

/// The text holds a right corner.
pub open spec fn has_right_corner(text: Seq<char>) -> bool {
    exists|i: int| 0 <= i < text.len() && (top_right(#[trigger] text[i]) || bottom_right(text[i]))
}

/// A cell holding a letter.
pub open spec fn letter_cell(c: Cell) -> bool {
    c.glyph is Some && alphabetic(c.glyph->0)
}

/// The last `n` characters of `s` (all of them when it is shorter).
pub open spec fn last_chars(s: Seq<char>, n: nat) -> Seq<char> {
    if s.len() <= n {
        s
    } else {
        s.subrange(s.len() - n, s.len() as int)
    }
}

/// The narrow-collapse finding on row `r`.
pub open spec fn collapse_row(frame: Frame, file: Seq<char>, r: int) -> Option<FindingView> {
    let g = frame.cells();
    let row = row_at(g, r);
    let w = row.len();
    let text = cells_text(row);
    if w == 0 {
        None
    } else {
        match overflow_of(frame, r) {
            Overflow::Collapse => Some(
                rt_view(
                    "tui-rt-collapse-narrow"@,
                    file,
                    frame.width as nat,
                    frame.height as nat,
                    r,
                    frame.width as int,
                    "row overflows the "@ + decimal(frame.width as nat) + "-column pane by "@ + decimal(
                        (w - frame.width) as nat,
                    ) + " cells"@,
                ),
            ),
            Overflow::Fits => if has_left_corner(text) && !has_right_corner(text) {
                Some(
                    rt_view(
                        "tui-rt-collapse-narrow"@,
                        file,
                        frame.width as nat,
                        frame.height as nat,
                        r,
                        w - 1,
                        "border loses its right corner"@,
                    ),
                )
            } else if w == frame.width && letter_cell(row[w - 1]) && row_at(g, r + 1).len() > 0 && letter_cell(
                row_at(g, r + 1)[0],
            ) {
                Some(
                    rt_view(
                        "tui-rt-collapse-narrow"@,
                        file,
                        frame.width as nat,
                        frame.height as nat,
                        r,
                        w - 1,
                        "word split at the pane edge: \""@ + trim(last_chars(text, 11)) + seq!['"'],
                    ),
                )
            } else {
                None
            },
            _ => None,
        }
    }
}

/// What `rt_collapse_narrow` reports, row by row.
pub open spec fn collapse_spec(frame: Frame, file: Seq<char>) -> Seq<FindingView> {
    some_views(frame.cells().len() as int, |r: int| collapse_row(frame, file, r))
}

fn any_left_corner(text: &[char]) -> (b: bool)
    ensures
        b == has_left_corner(text@),
{
    let mut i: usize = 0;
    while i < text.len()
        invariant
            0 <= i <= text@.len(),
            forall|j: int| 0 <= j < i ==> !(top_left(#[trigger] text@[j]) || bottom_left(text@[j])),
        decreases text@.len() - i,
    {
        if is_top_left(text[i]) || is_bottom_left(text[i]) {
            return true;
        }
        i = i + 1;
    }
    false
}

fn any_right_corner(text: &[char]) -> (b: bool)
    ensures
        b == has_right_corner(text@),
{
    let mut i: usize = 0;
    while i < text.len()
        invariant
            0 <= i <= text@.len(),
            forall|j: int| 0 <= j < i ==> !(top_right(#[trigger] text@[j]) || bottom_right(text@[j])),
        decreases text@.len() - i,
    {
        if is_top_right(text[i]) || is_bottom_right(text[i]) {
            return true;
        }
        i = i + 1;
    }
    false
}

fn is_letter_cell(c: Cell) -> (b: bool)
    ensures
        b == letter_cell(c),
{
    match c.glyph {
        Some(ch) => is_alphabetic(ch),
        None => false,
    }
}

/// The narrow-collapse finding on row `r`.
fn collapse_finding(frame: &Frame, file: &str, r: usize) -> (f: Option<Finding>)
    requires
        r < frame.rows@.len(),
    ensures
        match f {
            Some(x) => collapse_row(*frame, file@, r as int) == Some(x@),
            None => collapse_row(*frame, file@, r as int) is None,
        },
{
    let ghost g = frame.cells();
    let nrows = frame.rows.len();
    let row = &frame.rows[r];
    let w = row.len();
    if w == 0 {
        return None;
    }
    match overflow_verdict(frame, r) {
        Overflow::Collapse => {
            let mut snippet = chars_of("row overflows the ");
            let fw = decimal_chars(frame.width as u64);
            append_chars(&mut snippet, fw.as_slice());
            append_str(&mut snippet, "-column pane by ");
            let over = decimal_chars((w - frame.width) as u64);
            append_chars(&mut snippet, over.as_slice());
            append_str(&mut snippet, " cells");
            proof {
                assert(snippet@ =~= "row overflows the "@ + decimal(frame.width as nat) + "-column pane by "@ + decimal(
                    (w - frame.width) as nat,
                ) + " cells"@);
            }
            Some(rt_finding("tui-rt-collapse-narrow", file, frame, r, frame.width, snippet.as_slice()))
        },
        Overflow::Fits => {
            let text = frame.text_chars(r);
            if any_left_corner(text.as_slice()) && !any_right_corner(text.as_slice()) {
                let snippet = chars_of("border loses its right corner");
                return Some(rt_finding("tui-rt-collapse-narrow", file, frame, r, w - 1, snippet.as_slice()));
            }
            let ends_in_letter = is_letter_cell(row[w - 1]);
            let next_starts_with_letter = r + 1 < frame.rows.len() && frame.rows[r + 1].len() > 0 && is_letter_cell(
                frame.rows[r + 1][0],
            );
            if w == frame.width && ends_in_letter && next_starts_with_letter {
                let n = text.len();
                let from = if n <= 11 { 0 } else { n - 11 };
                let tail = slice_to_vec(text.as_slice(), from, n);
                let shown = trim_chars(tail.as_slice());
                let mut snippet = chars_of("word split at the pane edge: \"");
                append_chars(&mut snippet, shown.as_slice());
                snippet.push('"');
                proof {
                    assert(tail@ =~= last_chars(text@, 11));
                    assert(snippet@ =~= "word split at the pane edge: \""@ + trim(last_chars(text@, 11)) + seq!['"']);
                }
                Some(rt_finding("tui-rt-collapse-narrow", file, frame, r, w - 1, snippet.as_slice()))
            } else {
                None
            }
        },
        _ => None,
    }
}

/// `tui-rt-collapse-narrow`: in a frame under 60 columns, a boxed row that
/// overflows the pane, a border that lost its right corner, or a word split
/// at the right edge.
pub fn rt_collapse_narrow(frame: &Frame, file: &str) -> (out: Vec<Finding>)
    ensures
        findings_view(out@) == collapse_spec(*frame, file@),
{
    let ghost g = frame.cells();
    let ghost f = |r: int| collapse_row(*frame, file@, r);
    let mut out: Vec<Finding> = Vec::new();
    let mut r: usize = 0;
    while r < frame.rows.len()
        invariant
            g == frame.cells(),
            g.len() == frame.rows@.len(),
            f == (|r: int| collapse_row(*frame, file@, r)),
            0 <= r <= g.len(),
            findings_view(out@) == some_views(r as int, f),
        decreases g.len() - r,
    {
        match collapse_finding(frame, file, r) {
            Some(x) => {
                out.push(x);
            },
            None => {},
        }
        proof {
            assert(findings_view(out@) =~= some_views(r + 1, f));
        }
        r = r + 1;
    }
    out
}

// ─── Key hints ──────────────────────────────────────────────────────────────

/// Row `r` shows nothing (a missing row counts as blank).
pub open spec fn row_blank(g: Seq<Seq<Cell>>, r: int) -> bool {
    forall|c: int| 0 <= c < row_at(g, r).len() ==> blank_cell(#[trigger] row_at(g, r)[c])
}

/// The rows before `k` that show something, top to bottom.
pub open spec fn nonblank_upto(g: Seq<Seq<Cell>>, k: int) -> Seq<usize>
    decreases k,
{
    if k <= 0 {
        Seq::empty()
    } else {
        nonblank_upto(g, k - 1) + if row_blank(g, k - 1) {
            Seq::<usize>::empty()
        } else {
            seq![(k - 1) as usize]
        }
    }
}

pub open spec fn nonblank_rows(g: Seq<Seq<Cell>>) -> Seq<usize> {
    nonblank_upto(g, g.len() as int)
}

/// The text of the first and of the last non-blank row.
pub open spec fn first_text(g: Seq<Seq<Cell>>) -> Seq<char> {
    cells_text(row_at(g, nonblank_rows(g)[0] as int))
}

pub open spec fn bottom_text(g: Seq<Seq<Cell>>) -> Seq<char> {
    cells_text(row_at(g, nonblank_rows(g).last() as int))
}

/// What `rt_no_key_hints` reports, given whether the first non-blank row
/// names a key, whether the bottom one does, and whether the bottom one
/// matches a pager's prompt: nothing for fewer than three non-blank rows,
/// or when a key is named, or at a pager prompt (the bottom row is exactly
/// `:` once trailing spaces go); else the bottom row.
pub open spec fn hints_view(
    frame: Frame,
    file: Seq<char>,
    first_names_key: bool,
    bottom_names_key: bool,
    bottom_is_pager: bool,
) -> Seq<FindingView> {
    let g = frame.cells();
    let nb = nonblank_rows(g);
    if nb.len() < MIN_ROWS_FOR_HINTS || first_names_key || bottom_names_key || trim_end(bottom_text(g)) == seq![':']
        || bottom_is_pager {
        Seq::empty()
    } else {
        seq![
            rt_view(
                "tui-rt-no-key-hints"@,
                file,
                frame.width as nat,
                frame.height as nat,
                nb.last() as int,
                0,
                "bottom row \""@ + at_most(trim(bottom_text(g)), 60) + "\" names no key"@,
            ),
        ]
    }
}

/// What `rt_no_key_hints` reports, with the patterns matched by `regex`.
pub open spec fn hints_spec(frame: Frame, file: Seq<char>) -> Seq<FindingView> {
    let g = frame.cells();
    hints_view(
        frame,
        file,
        regex_match(KEY_HINT_RE@, first_text(g)),
        regex_match(KEY_HINT_RE@, bottom_text(g)),
        regex_match(PAGER_PROMPT_RE@, bottom_text(g)),
    )
}

/// The rows that show something, top to bottom.
pub fn nonblank(frame: &Frame) -> (rows: Vec<usize>)
    ensures
        rows@ == nonblank_rows(frame.cells()),
        forall|i: int| 0 <= i < rows@.len() ==> #[trigger] rows@[i] < frame.rows@.len(),
{
    let ghost g = frame.cells();
    let mut rows: Vec<usize> = Vec::new();
    let mut r: usize = 0;
    while r < frame.rows.len()
        invariant
            g == frame.cells(),
            g.len() == frame.rows@.len(),
            0 <= r <= g.len(),
            rows@ == nonblank_upto(g, r as int),
            forall|i: int| 0 <= i < rows@.len() ==> #[trigger] rows@[i] < frame.rows@.len(),
        decreases g.len() - r,
    {
        if !frame.is_blank(r) {
            rows.push(r);
        }
        proof {
            assert(rows@ =~= nonblank_upto(g, r + 1));
        }
        r = r + 1;
    }
    rows
}

/// At most the first `n` characters of `s`.
fn take_chars(s: &[char], n: usize) -> (r: Vec<char>)
    ensures
        r@ == at_most(s@, n as nat),
{
    let end = if s.len() <= n { s.len() } else { n };
    let r = slice_to_vec(s, 0, end);
    proof {
        assert(r@ =~= at_most(s@, n as nat));
    }
    r
}

/// The key-hints finding, given what the patterns matched: see [`hints_view`].
pub fn key_hint_verdict(
    frame: &Frame,
    file: &str,
    first_names_key: bool,
    bottom_names_key: bool,
    bottom_is_pager: bool,
) -> (out: Vec<Finding>)
    ensures
        findings_view(out@) == hints_view(*frame, file@, first_names_key, bottom_names_key, bottom_is_pager),
{
    let ghost g = frame.cells();
    let rows = nonblank(frame);
    if rows.len() < MIN_ROWS_FOR_HINTS || first_names_key || bottom_names_key {
        proof {
            assert(findings_view(Seq::<Finding>::empty()) =~= Seq::<FindingView>::empty());
        }
        return Vec::new();
    }
    let r = rows[rows.len() - 1];
    let nrows = frame.rows.len();
    let text = frame.text_chars(r);
    let end = trim_end_chars(text.as_slice());
    let colon: Vec<char> = vec![':'];
    if same_chars(end.as_slice(), colon.as_slice()) || bottom_is_pager {
        proof {
            assert(colon@ =~= seq![':']);
            assert(findings_view(Seq::<Finding>::empty()) =~= Seq::<FindingView>::empty());
        }
        return Vec::new();
    }
    let trimmed = trim_chars(text.as_slice());
    let shown = take_chars(trimmed.as_slice(), 60);
    let mut snippet = chars_of("bottom row \"");
    append_chars(&mut snippet, shown.as_slice());
    append_str(&mut snippet, "\" names no key");
    let f = rt_finding("tui-rt-no-key-hints", file, frame, r, 0, snippet.as_slice());
    let mut out: Vec<Finding> = Vec::new();
    out.push(f);
    proof {
        assert(colon@ =~= seq![':']);
        assert(snippet@ =~= "bottom row \""@ + at_most(trim(bottom_text(g)), 60) + "\" names no key"@);
        assert(findings_view(out@) =~= hints_view(*frame, file@, first_names_key, bottom_names_key, bottom_is_pager));
    }
    out
}

/// `tui-rt-no-key-hints`: a screen of three or more non-blank rows whose
/// first and bottom rows name no key, and whose bottom row is no pager
/// prompt.
pub fn rt_no_key_hints(frame: &Frame, file: &str) -> (out: Vec<Finding>)
    ensures
        findings_view(out@) == hints_spec(*frame, file@),
{
    let ghost g = frame.cells();
    let rows = nonblank(frame);
    if rows.len() < MIN_ROWS_FOR_HINTS {
        proof {
            assert(findings_view(Seq::<Finding>::empty()) =~= Seq::<FindingView>::empty());
        }
        return Vec::new();
    }
    let first = frame.text_chars(rows[0]);
    let bottom = frame.text_chars(rows[rows.len() - 1]);
    let first_names_key = is_match(KEY_HINT_RE, first.as_slice());
    let bottom_names_key = is_match(KEY_HINT_RE, bottom.as_slice());
    let bottom_is_pager = is_match(PAGER_PROMPT_RE, bottom.as_slice());
    key_hint_verdict(frame, file, first_names_key, bottom_names_key, bottom_is_pager)
}

// ─── Every rule over the frames of one target ───────────────────────────────

/// The index of the first recapture among `frames[k..]`.
pub open spec fn first_recapture(frames: Seq<Frame>, k: int) -> Option<int>
    decreases frames.len() - k,
{
    if k < 0 || k >= frames.len() {
        None
    } else if frames[k].role == FrameRole::Recapture {
        Some(k)
    } else {
        first_recapture(frames, k + 1)
    }
}

/// The geometry rules on each capture frame (not the recapture) of
/// `frames[..k]`: nested borders and width drift, and narrow collapse when
/// the frame is under 60 columns.
pub open spec fn geometry_upto(frames: Seq<Frame>, file: Seq<char>, k: int) -> Seq<FindingView>
    decreases k,
{
    if k <= 0 || k > frames.len() {
        Seq::empty()
    } else {
        let f = frames[k - 1];
        geometry_upto(frames, file, k - 1) + if f.role == FrameRole::Capture {
            nested_spec(f, file) + drift_spec(f, file) + if f.width < NARROW_COLUMNS {
                collapse_spec(f, file)
            } else {
                Seq::<FindingView>::empty()
            }
        } else {
            Seq::<FindingView>::empty()
        }
    }
}

/// A finding with its advisory flag set from its severity.
pub open spec fn advised(v: FindingView) -> FindingView {
    FindingView { advisory: Some(v.severity == "advisory"@), ..v }
}

/// Every runtime rule over the frames of one target, in the frame policy:
/// size-invariant rules on the first frame, the spinner against the first
/// recapture, geometry on every capture frame; then every finding flagged.
pub open spec fn scan_spec(
    frames: Seq<Frame>,
    palette: Palette,
    file: Seq<char>,
    ratings: Seq<(ColorPair, Option<u32>)>,
) -> Seq<FindingView> {
    if frames.len() == 0 {
        Seq::empty()
    } else {
        let first = frames[0];
        let raw = contrast_spec(first, palette, ratings, file) + truecolor_spec(first, file) + hints_spec(first, file)
            + match first_recapture(frames, 0) {
            Some(i) => spinner_spec(first, frames[i], file),
            None => Seq::<FindingView>::empty(),
        } + geometry_upto(frames, file, frames.len() as int);
        Seq::new(raw.len(), |i: int| advised(raw[i]))
    }
}

proof fn lemma_views_append(a: Seq<Finding>, b: Seq<Finding>)
    ensures
        findings_view(a + b) == findings_view(a) + findings_view(b),
{
    assert(findings_view(a + b) =~= findings_view(a) + findings_view(b));
}

/// `out` followed by `more`.
pub(crate) fn extend(out: &mut Vec<Finding>, more: Vec<Finding>)
    ensures
        findings_view(final(out)@) == findings_view(old(out)@) + findings_view(more@),
{
    let mut more = more;
    let ghost m = more@;
    out.append(&mut more);
    proof {
        lemma_views_append(old(out)@, m);
    }
}

/// The first recapture among `frames[k..]`.
fn find_recapture(frames: &[Frame]) -> (i: Option<usize>)
    ensures
        match i {
            Some(x) => x < frames@.len() && first_recapture(frames@, 0) == Some(x as int),
            None => first_recapture(frames@, 0) is None,
        },
{
    let mut k: usize = 0;
    while k < frames.len()
        invariant
            0 <= k <= frames@.len(),
            first_recapture(frames@, 0) == first_recapture(frames@, k as int),
        decreases frames@.len() - k,
    {
        match frames[k].role {
            FrameRole::Recapture => {
                return Some(k);
            },
            FrameRole::Capture => {},
        }
        k = k + 1;
    }
    None
}

/// The geometry rules on one capture frame.
fn geometry(frame: &Frame, file: &str) -> (out: Vec<Finding>)
    ensures
        findings_view(out@) == nested_spec(*frame, file@) + drift_spec(*frame, file@) + if frame.width < NARROW_COLUMNS {
            collapse_spec(*frame, file@)
        } else {
            Seq::<FindingView>::empty()
        },
{
    let mut out = rt_nested_borders(frame, file);
    extend(&mut out, rt_width_drift(frame, file));
    if frame.width < NARROW_COLUMNS {
        extend(&mut out, rt_collapse_narrow(frame, file));
    } else {
        proof {
            assert(findings_view(out@) =~= findings_view(out@) + Seq::<FindingView>::empty());
        }
    }
    out
}

/// Every runtime rule over the frames of one target, in the frame policy:
/// size-invariant rules on the first frame, the spinner against the
/// recapture, geometry on every capture frame. The contrast rule reads its
/// ratings from `ratings` (see [`rt_low_contrast`]).
pub fn scan_frames(frames: &[Frame], palette: Palette, file: &str, ratings: &[(ColorPair, Option<u32>)]) -> (out: Vec<Finding>)
    requires
        frames@.len() > 0 ==> cell_total(frames@[0].cells()) <= usize::MAX,
    ensures
        findings_view(out@) == scan_spec(frames@, palette, file@, ratings@),
{
    if frames.len() == 0 {
        proof {
            assert(findings_view(Seq::<Finding>::empty()) =~= Seq::<FindingView>::empty());
        }
        return Vec::new();
    }
    let first = &frames[0];
    let mut out = rt_low_contrast(first, palette, file, ratings);
    extend(&mut out, rt_truecolor_on_256(first, file));
    extend(&mut out, rt_no_key_hints(first, file));
    match find_recapture(frames) {
        Some(i) => {
            extend(&mut out, rt_spinner_never_rests(first, &frames[i], file));
        },
        None => {
            proof {
                assert(findings_view(out@) =~= findings_view(out@) + Seq::<FindingView>::empty());
            }
        },
    }
    let ghost head = findings_view(out@);
    let mut k: usize = 0;
    proof {
        assert(head + geometry_upto(frames@, file@, 0) =~= head);
    }
    while k < frames.len()
        invariant
            0 <= k <= frames@.len(),
            findings_view(out@) == head + geometry_upto(frames@, file@, k as int),
        decreases frames@.len() - k,
    {
        let ghost before = findings_view(out@);
        match frames[k].role {
            FrameRole::Capture => {
                extend(&mut out, geometry(&frames[k], file));
            },
            FrameRole::Recapture => {
                proof {
                    assert(findings_view(out@) =~= findings_view(out@) + Seq::<FindingView>::empty());
                }
            },
        }
        proof {
            assert(findings_view(out@) =~= head + geometry_upto(frames@, file@, k + 1));
        }
        k = k + 1;
    }
    let ghost raw = findings_view(out@);
    let mut j: usize = 0;
    while j < out.len()
        invariant
            raw.len() == out@.len(),
            0 <= j <= out@.len(),
            forall|i: int| 0 <= i < j ==> (#[trigger] out@[i])@ == advised(raw[i]),
            forall|i: int| j <= i < out@.len() ==> (#[trigger] out@[i])@ == raw[i],
        decreases out@.len() - j,
    {
        derive_advisory_flag(&mut out[j]);
        j = j + 1;
    }
    proof {
        assert(findings_view(out@) =~= scan_spec(frames@, palette, file@, ratings@));
    }
    out
}

// ─── Laws ───────────────────────────────────────────────────────────────────

pub proof fn lemma_hits_cols_ordered(p: spec_fn(int, int) -> bool, r: int, c: int)
    ensures
        forall|i: int, j: int|
            0 <= i < j < hits_cols(p, r, c).len() ==> (#[trigger] hits_cols(p, r, c)[i]).1 < (
            #[trigger] hits_cols(p, r, c)[j]).1,
    decreases c,
{
    if c > 0 {
        lemma_hits_cols_ordered(p, r, c - 1);
        lemma_hits_cols_valid(p, r, c - 1);
        let a = hits_cols(p, r, c - 1);
        let s = hits_cols(p, r, c);
        assert forall|i: int, j: int| 0 <= i < j < s.len() implies (#[trigger] s[i]).1 < (#[trigger] s[j]).1 by {
            assert(s[i] == a[i]);
            if j < a.len() {
                assert(s[j] == a[j]);
            } else {
                assert(s[j] == (r, c - 1));
            }
        }
    }
}

/// [`hits`] lists cells in strict reading order.
pub proof fn lemma_hits_ordered(g: Seq<Seq<Cell>>, p: spec_fn(int, int) -> bool, r: int)
    requires
        r <= g.len(),
    ensures
        forall|i: int, j: int|
            0 <= i < j < hits_rows(g, p, r).len() ==> earlier(
                (#[trigger] hits_rows(g, p, r)[i]).0,
                hits_rows(g, p, r)[i].1,
                (#[trigger] hits_rows(g, p, r)[j]).0,
                hits_rows(g, p, r)[j].1,
            ),
    decreases r,
{
    if r > 0 {
        lemma_hits_ordered(g, p, r - 1);
        lemma_hits_valid(g, p, r - 1);
        lemma_hits_cols_valid(p, r - 1, g[r - 1].len() as int);
        lemma_hits_cols_ordered(p, r - 1, g[r - 1].len() as int);
        let a = hits_rows(g, p, r - 1);
        let b = hits_cols(p, r - 1, g[r - 1].len() as int);
        let s = hits_rows(g, p, r);
        assert forall|i: int, j: int| 0 <= i < j < s.len() implies earlier(
            (#[trigger] s[i]).0,
            s[i].1,
            (#[trigger] s[j]).0,
            s[j].1,
        ) by {
            if j < a.len() {
                assert(s[i] == a[i]);
                assert(s[j] == a[j]);
            } else if i < a.len() {
                assert(s[i] == a[i]);
                assert(s[j] == b[j - a.len()]);
            } else {
                assert(s[i] == b[i - a.len()]);
                assert(s[j] == b[j - a.len()]);
            }
        }
    }
}

/// The low-contrast rule reports each failing pair once: no two of its
/// findings sit on cells of the same colors.
pub proof fn law_contrast_once_per_pair(frame: Frame, palette: Palette, ratings: Seq<(ColorPair, Option<u32>)>)
    ensures
        forall|i: int, j: int|
            0 <= i < j < hits(frame.cells(), contrast_hit(frame.cells(), palette, ratings)).len() ==> pair_at(
                frame.cells(),
                palette,
                (#[trigger] hits(frame.cells(), contrast_hit(frame.cells(), palette, ratings))[i]).0,
                hits(frame.cells(), contrast_hit(frame.cells(), palette, ratings))[i].1,
            ) != pair_at(
                frame.cells(),
                palette,
                (#[trigger] hits(frame.cells(), contrast_hit(frame.cells(), palette, ratings))[j]).0,
                hits(frame.cells(), contrast_hit(frame.cells(), palette, ratings))[j].1,
            ),
{
    let g = frame.cells();
    let p = contrast_hit(g, palette, ratings);
    let hs = hits(g, p);
    lemma_hits_ordered(g, p, g.len() as int);
    lemma_hits_valid(g, p, g.len() as int);
    assert forall|i: int, j: int| 0 <= i < j < hs.len() implies pair_at(g, palette, (#[trigger] hs[i]).0, hs[i].1)
        != pair_at(g, palette, (#[trigger] hs[j]).0, hs[j].1) by {
        let (ri, ci) = hs[i];
        let (rj, cj) = hs[j];
        assert(p(ri, ci));
        assert(p(rj, cj));
        assert(earlier(ri, ci, rj, cj));
        if pair_at(g, palette, ri, ci) == pair_at(g, palette, rj, cj) {
            assert(failing_at(g, palette, ratings, ri, ci));
            assert(failed_before(g, palette, ratings, rj, cj, pair_at(g, palette, rj, cj)));
        }
    }
}

/// Each row gets one verdict, shared by width drift and narrow collapse: a
/// row that overflows its frame is reported by at most one of the two, a
/// row the terminal wrapped by neither.
pub proof fn law_one_verdict_per_row(frame: Frame, file: Seq<char>, usual: Option<usize>, r: int)
    ensures
        overflow_of(frame, r) == Overflow::WidthDrift ==> collapse_row(frame, file, r) is None,
        overflow_of(frame, r) == Overflow::Collapse ==> drift_row(frame, file, usual, r) is None,
        overflow_of(frame, r) == Overflow::Wrapped ==> collapse_row(frame, file, r) is None && drift_row(
            frame,
            file,
            usual,
            r,
        ) is None,
{
}

/// Every view of `vs` is an advisory finding in `file`.
pub open spec fn in_file(vs: Seq<FindingView>, file: Seq<char>) -> bool {
    forall|i: int| 0 <= i < vs.len() ==> (#[trigger] vs[i]).severity == "advisory"@ && vs[i].file == file
}

proof fn lemma_some_views_in_file(k: int, f: spec_fn(int) -> Option<FindingView>, file: Seq<char>)
    requires
        forall|r: int| (#[trigger] f(r)) matches Some(v) ==> v.severity == "advisory"@ && v.file == file,
    ensures
        in_file(some_views(k, f), file),
    decreases k,
{
    if k > 0 {
        lemma_some_views_in_file(k - 1, f, file);
        let a = some_views(k - 1, f);
        let s = some_views(k, f);
        assert forall|i: int| 0 <= i < s.len() implies (#[trigger] s[i]).severity == "advisory"@ && s[i].file == file by {
            if i < a.len() {
                assert(s[i] == a[i]);
            } else {
                assert(f(k - 1) is Some);
            }
        }
    }
}

proof fn lemma_nested_in_file(frame: Frame, file: Seq<char>, boxes: Seq<Rect>, k: int)
    ensures
        in_file(nested_upto(frame, file, boxes, k), file),
    decreases k,
{
    if k > 0 && k <= boxes.len() {
        lemma_nested_in_file(frame, file, boxes, k - 1);
        let a = nested_upto(frame, file, boxes, k - 1);
        let s = nested_upto(frame, file, boxes, k);
        assert forall|i: int| 0 <= i < s.len() implies (#[trigger] s[i]).severity == "advisory"@ && s[i].file == file by {
            if i < a.len() {
                assert(s[i] == a[i]);
            }
        }
    }
}

pub proof fn lemma_in_file_append(a: Seq<FindingView>, b: Seq<FindingView>, file: Seq<char>)
    requires
        in_file(a, file),
        in_file(b, file),
    ensures
        in_file(a + b, file),
{
    assert forall|i: int| 0 <= i < (a + b).len() implies (#[trigger] (a + b)[i]).severity == "advisory"@ && (a
        + b)[i].file == file by {
        if i < a.len() {
            assert((a + b)[i] == a[i]);
        } else {
            assert((a + b)[i] == b[i - a.len()]);
        }
    }
}

proof fn lemma_geometry_in_file(frames: Seq<Frame>, file: Seq<char>, k: int)
    ensures
        in_file(geometry_upto(frames, file, k), file),
    decreases k,
{
    if k > 0 && k <= frames.len() {
        lemma_geometry_in_file(frames, file, k - 1);
        let f = frames[k - 1];
        let boxes = boxes_of(f.cells());
        lemma_nested_in_file(f, file, boxes, boxes.len() as int);
        let g = f.cells();
        let usual = mode_spec(ends_of(g));
        lemma_some_views_in_file(g.len() as int, |r: int| drift_row(f, file, usual, r), file);
        lemma_some_views_in_file(g.len() as int, |r: int| collapse_row(f, file, r), file);
        let e = Seq::<FindingView>::empty();
        let tail = if f.width < NARROW_COLUMNS { collapse_spec(f, file) } else { e };
        lemma_in_file_append(nested_spec(f, file), drift_spec(f, file), file);
        lemma_in_file_append(nested_spec(f, file) + drift_spec(f, file), tail, file);
        lemma_in_file_append(nested_spec(f, file) + drift_spec(f, file) + tail, e, file);
        let own = if f.role == FrameRole::Capture { nested_spec(f, file) + drift_spec(f, file) + tail } else { e };
        lemma_in_file_append(geometry_upto(frames, file, k - 1), own, file);
    }
}

proof fn lemma_geometry_push(frames: Seq<Frame>, extra: Frame, file: Seq<char>, k: int)
    requires
        0 <= k <= frames.len(),
    ensures
        geometry_upto(frames.push(extra), file, k) == geometry_upto(frames, file, k),
    decreases k,
{
    if k > 0 {
        lemma_geometry_push(frames, extra, file, k - 1);
        assert(frames.push(extra)[k - 1] == frames[k - 1]);
    }
}

proof fn lemma_first_recapture_push(frames: Seq<Frame>, extra: Frame, k: int)
    requires
        0 <= k <= frames.len(),
        first_recapture(frames, k) is Some,
    ensures
        first_recapture(frames.push(extra), k) == first_recapture(frames, k),
    decreases frames.len() - k,
{
    if k < frames.len() {
        assert(frames.push(extra)[k] == frames[k]);
        if frames[k].role != FrameRole::Recapture {
            lemma_first_recapture_push(frames, extra, k + 1);
        }
    }
}

/// A recapture is never scanned for geometry, and only the first one is
/// read by the spinner rule: once the frames hold a recapture, another one
/// added after them changes nothing in the scan.
pub proof fn law_later_recaptures_change_nothing(
    frames: Seq<Frame>,
    extra: Frame,
    palette: Palette,
    file: Seq<char>,
    ratings: Seq<(ColorPair, Option<u32>)>,
)
    requires
        extra.role == FrameRole::Recapture,
        first_recapture(frames, 0) is Some,
    ensures
        scan_spec(frames.push(extra), palette, file, ratings) == scan_spec(frames, palette, file, ratings),
{
    let more = frames.push(extra);
    lemma_first_recapture_push(frames, extra, 0);
    lemma_geometry_push(frames, extra, file, frames.len() as int);
    assert(more[frames.len() as int] == extra);
    assert(geometry_upto(more, file, more.len() as int) == geometry_upto(frames, file, frames.len() as int));
    assert(more[0] == frames[0]);
    let i = first_recapture(frames, 0)->0;
    lemma_first_recapture_bound(frames, 0);
    assert(more[i] == frames[i]);
}

proof fn lemma_first_recapture_bound(frames: Seq<Frame>, k: int)
    requires
        0 <= k,
    ensures
        first_recapture(frames, k) matches Some(i) ==> k <= i < frames.len(),
    decreases frames.len() - k,
{
    if k < frames.len() && frames[k].role != FrameRole::Recapture {
        lemma_first_recapture_bound(frames, k + 1);
    }
}

/// Every finding a scan returns is advisory, flagged as such, and names the
/// scanned target.
pub proof fn law_scan_findings_are_advisory(
    frames: Seq<Frame>,
    palette: Palette,
    file: Seq<char>,
    ratings: Seq<(ColorPair, Option<u32>)>,
)
    ensures
        forall|i: int|
            0 <= i < scan_spec(frames, palette, file, ratings).len() ==> (#[trigger] scan_spec(
                frames,
                palette,
                file,
                ratings,
            )[i]).advisory == Some(true) && scan_spec(frames, palette, file, ratings)[i].file == file,
{
    if frames.len() > 0 {
        let first = frames[0];
        let e = Seq::<FindingView>::empty();
        let spin = match first_recapture(frames, 0) {
            Some(i) => spinner_spec(first, frames[i], file),
            None => e,
        };
        let c = contrast_spec(first, palette, ratings, file);
        assert(in_file(c, file));
        assert(in_file(truecolor_spec(first, file), file));
        assert(in_file(hints_spec(first, file), file));
        assert(in_file(spin, file));
        lemma_geometry_in_file(frames, file, frames.len() as int);
        lemma_in_file_append(c, truecolor_spec(first, file), file);
        lemma_in_file_append(c + truecolor_spec(first, file), hints_spec(first, file), file);
        lemma_in_file_append(c + truecolor_spec(first, file) + hints_spec(first, file), spin, file);
        lemma_in_file_append(
            c + truecolor_spec(first, file) + hints_spec(first, file) + spin,
            geometry_upto(frames, file, frames.len() as int),
            file,
        );
    }
}

} // verus!
