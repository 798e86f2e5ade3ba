//! Capture parsing: `tmux capture-pane -p -e -J` text into a cell grid.
//! Pure functions over text, so saved captures replay without tmux.
//!
//! The model: a row is read left to right by a small state machine
//! ([`row_from`]) whose state is the cells so far, the running SGR style, and
//! whether the previous character was U+200D. [`parse_rows`] carries the
//! style from row to row; [`parse_frames`] starts every `#!capture` frame
//! from the default style.

use vstd::prelude::*;

use crate::text::{
    append_chars, append_str, chars_of, same_chars, debug_quote, debug_str, find_char_from, first_index, has_prefix,
    is_whitespace, lemma_index_from, lemma_split_by_nonempty, parse_unsigned, parse_unsigned_chars,
    slice_to_vec, split_by, split_chars, starts_with, string_of, views, white_space, words, words_of,
};

verus! {

/// A color as the SGR stream named it.
#[derive(Debug, Clone, Copy, PartialEq, Eq, Structural)]
pub enum Color {
    Default,
    /// `30..37` and `40..47` as 0 to 7, `90..97` and `100..107` as 8 to 15,
    /// `38;5;n` / `48;5;n` as 0 to 255.
    Indexed(u8),
    /// `38;2;r;g;b` / `48;2;r;g;b`.
    Rgb(u8, u8, u8),
}

impl Default for Color {
    fn default() -> (c: Color)
        ensures
            c == Color::Default,
    {
        Color::Default
    }
}

/// The SGR state a cell was written with.
#[derive(Debug, Clone, Copy, PartialEq, Eq, Structural)]
pub struct Style {
    pub fg: Color,
    pub bg: Color,
    pub bold: bool,
    pub dim: bool,
    pub blink: bool,
    pub reverse: bool,
}

/// The style before any SGR: default colors, no attributes.
pub open spec fn plain() -> Style {
    Style { fg: Color::Default, bg: Color::Default, bold: false, dim: false, blink: false, reverse: false }
}

impl Default for Style {
    fn default() -> (s: Style)
        ensures
            s == plain(),
    {
        Style { fg: Color::Default, bg: Color::Default, bold: false, dim: false, blink: false, reverse: false }
    }
}

/// One column of one row. A two-column glyph owns its cell and the next,
/// which carries `glyph: None` and `wide_tail: true`.
#[derive(Debug, Clone, Copy, PartialEq, Eq, Structural)]
pub struct Cell {
    pub glyph: Option<char>,
    pub wide_tail: bool,
    pub style: Style,
}

/// Which capture of the run a frame is.
#[derive(Debug, Clone, Copy, PartialEq, Eq, Structural)]
pub enum FrameRole {
    /// A capture at a size the run asked for.
    Capture,
    /// The pane's own size again, a moment after the first capture.
    Recapture,
}

impl Default for FrameRole {
    fn default() -> (r: FrameRole)
        ensures
            r == FrameRole::Capture,
    {
        FrameRole::Capture
    }
}

// ─── SGR ────────────────────────────────────────────────────────────────────

/// The parameter list of an SGR sequence: an empty list means `0`; otherwise
/// the parameters are cut at every `;` and `:`.
pub open spec fn sgr_parts(params: Seq<char>) -> Seq<Seq<char>> {
    if params.len() == 0 {
        seq![seq!['0']]
    } else {
        split_by(params, seq![';', ':'])
    }
}

/// Parameter `i` as a number (as `str::parse::<u16>` reads it), if there is one.
pub open spec fn sgr_num(parts: Seq<Seq<char>>, i: int) -> Option<nat> {
    if 0 <= i < parts.len() {
        parse_unsigned(parts[i], 65535)
    } else {
        None
    }
}

/// Parameter `i` as a color channel: missing reads as 0, above 255 as 255.
pub open spec fn sgr_channel(parts: Seq<Seq<char>>, i: int) -> u8 {
    match sgr_num(parts, i) {
        Some(v) => if v > 255 { 255u8 } else { v as u8 },
        None => 0u8,
    }
}

/// The effect of one plain SGR code (not 38, 48 or 58).
pub open spec fn sgr_code(style: Style, p: nat) -> Style {
    if p == 0 {
        plain()
    } else if p == 1 {
        Style { bold: true, ..style }
    } else if p == 2 {
        Style { dim: true, ..style }
    } else if p == 5 || p == 6 {
        Style { blink: true, ..style }
    } else if p == 7 {
        Style { reverse: true, ..style }
    } else if p == 22 {
        Style { bold: false, dim: false, ..style }
    } else if p == 25 {
        Style { blink: false, ..style }
    } else if p == 27 {
        Style { reverse: false, ..style }
    } else if 30 <= p <= 37 {
        Style { fg: Color::Indexed((p - 30) as u8), ..style }
    } else if 90 <= p <= 97 {
        Style { fg: Color::Indexed((p - 90 + 8) as u8), ..style }
    } else if p == 39 {
        Style { fg: Color::Default, ..style }
    } else if 40 <= p <= 47 {
        Style { bg: Color::Indexed((p - 40) as u8), ..style }
    } else if 100 <= p <= 107 {
        Style { bg: Color::Indexed((p - 100 + 8) as u8), ..style }
    } else if p == 49 {
        Style { bg: Color::Default, ..style }
    } else {
        style
    }
}

/// Store an extended color read by code `p`: 38 sets the foreground, 48 the
/// background, and 58 (underline color) has no slot, so nothing changes.
pub open spec fn set_extended(style: Style, p: nat, c: Color) -> Style {
    if p == 38 {
        Style { fg: c, ..style }
    } else if p == 48 {
        Style { bg: c, ..style }
    } else {
        style
    }
}

/// 1 when the colon form carries an empty color-space id (`38:2::r:g:b`).
pub open spec fn rgb_skip(parts: Seq<Seq<char>>, i: int) -> int {
    if i + 2 < parts.len() && parts[i + 2].len() == 0 {
        1
    } else {
        0
    }
}

/// The style after the SGR parameters from index `i` on.
pub open spec fn sgr_from(style: Style, parts: Seq<Seq<char>>, i: int) -> Style
    decreases (if i < parts.len() { parts.len() - i } else { 0 }),
{
    if i < 0 || i >= parts.len() {
        style
    } else {
        match sgr_num(parts, i) {
            None => sgr_from(style, parts, i + 1),
            Some(p) => if p == 38 || p == 48 || p == 58 {
                match sgr_num(parts, i + 1) {
                    Some(m) => if m == 5 {
                        sgr_from(set_extended(style, p, Color::Indexed(sgr_channel(parts, i + 2))), parts, i + 3)
                    } else if m == 2 {
                        let k = i + 2 + rgb_skip(parts, i);
                        let c = Color::Rgb(sgr_channel(parts, k), sgr_channel(parts, k + 1), sgr_channel(parts, k + 2));
                        sgr_from(set_extended(style, p, c), parts, i + 5 + rgb_skip(parts, i))
                    } else {
                        sgr_from(style, parts, i + 1)
                    },
                    None => sgr_from(style, parts, i + 1),
                }
            } else {
                sgr_from(sgr_code(style, p), parts, i + 1)
            },
        }
    }
}

/// The style an SGR sequence with these parameters leaves.
pub open spec fn sgr(style: Style, params: Seq<char>) -> Style {
    sgr_from(style, sgr_parts(params), 0)
}

/// `ESC[49m` sets the background back to the terminal's default and leaves
/// the foreground and every attribute as they were, whatever the background
/// was before; so after `ESC[41m` and `ESC[49m` the background is the default.
pub proof fn law_sgr_49_resets_the_background(style: Style)
    ensures
        sgr(style, seq!['4', '9']) == (Style { bg: Color::Default, ..style }),
        sgr(sgr(style, seq!['4', '1']), seq!['4', '9']) == (Style { bg: Color::Default, ..style }),
{
    lemma_one_code(style, '4', '9');
    lemma_one_code(style, '4', '1');
    lemma_one_code(sgr(style, seq!['4', '1']), '4', '9');
}

/// What the plain SGR codes do to any style: `0` resets everything; `1`,
/// `2`, `5`/`6` and `7` turn on bold, dim, blink and reverse, and `22`,
/// `25` and `27` turn them off again (`22` both bold and dim); `3d` and `9d`
/// set the foreground to color `d` and `d + 8`, `4d` the background to `d`;
/// `39` resets the foreground. Each leaves every other field as it was.
pub proof fn law_sgr_codes(style: Style, d: char)
    requires
        '0' <= d <= '7',
    ensures
        sgr(style, seq!['0']) == plain(),
        sgr(style, seq!['1']) == (Style { bold: true, ..style }),
        sgr(style, seq!['2']) == (Style { dim: true, ..style }),
        sgr(style, seq!['5']) == (Style { blink: true, ..style }),
        sgr(style, seq!['6']) == (Style { blink: true, ..style }),
        sgr(style, seq!['7']) == (Style { reverse: true, ..style }),
        sgr(style, seq!['2', '2']) == (Style { bold: false, dim: false, ..style }),
        sgr(style, seq!['2', '5']) == (Style { blink: false, ..style }),
        sgr(style, seq!['2', '7']) == (Style { reverse: false, ..style }),
        sgr(style, seq!['3', '9']) == (Style { fg: Color::Default, ..style }),
        sgr(style, seq!['3', d]) == (Style { fg: Color::Indexed((d as int - '0' as int) as u8), ..style }),
        sgr(style, seq!['9', d]) == (Style { fg: Color::Indexed((d as int - '0' as int + 8) as u8), ..style }),
        sgr(style, seq!['4', d]) == (Style { bg: Color::Indexed((d as int - '0' as int) as u8), ..style }),
{
    lemma_single_code(style, '0');
    lemma_single_code(style, '1');
    lemma_single_code(style, '2');
    lemma_single_code(style, '5');
    lemma_single_code(style, '6');
    lemma_single_code(style, '7');
    lemma_one_code(style, '2', '2');
    lemma_one_code(style, '2', '5');
    lemma_one_code(style, '2', '7');
    lemma_one_code(style, '3', '9');
    lemma_one_code(style, '3', d);
    lemma_one_code(style, '9', d);
    lemma_one_code(style, '4', d);
}

/// A one-digit parameter list is that one code.
proof fn lemma_single_code(style: Style, a: char)
    requires
        '0' <= a <= '9',
    ensures
        sgr(style, seq![a]) == sgr_code(style, (a as int - '0' as int) as nat),
{
    let s = seq![a];
    let seps = seq![';', ':'];
    assert(!seps.contains(a)) by {
        assert forall|k: int| 0 <= k < seps.len() implies seps[k] != a by {}
    }
    assert(s.drop_last() =~= Seq::<char>::empty());
    assert(split_by(Seq::<char>::empty(), seps) =~= seq![Seq::<char>::empty()]);
    assert(Seq::<char>::empty().push(a) =~= s);
    assert(split_by(s, seps) =~= seq![s]);
    let parts = sgr_parts(s);
    assert(parts =~= seq![s]);
    assert(crate::text::sign_stripped(s) == s);
    assert(crate::text::all_digits(s));
    assert(crate::text::digits_value(s) == (a as int - '0' as int)) by {
        assert(crate::text::digits_value(Seq::<char>::empty()) == 0);
        assert(s.last() == a);
    }
    let p = (a as int - '0' as int) as nat;
    assert(sgr_num(parts, 0) == Some(p));
    assert(sgr(style, s) == sgr_from(sgr_code(style, p), parts, 1));
}

/// A two-digit parameter list is that one code.
proof fn lemma_one_code(style: Style, a: char, b: char)
    requires
        '0' <= a <= '9',
        '0' <= b <= '9',
        a != '3' && a != '4' && a != '5' || b != '8',
    ensures
        sgr(style, seq![a, b]) == sgr_code(style, ((a as int - '0' as int) * 10 + (b as int - '0' as int)) as nat),
{
    let s = seq![a, b];
    let seps = seq![';', ':'];
    assert(!seps.contains(a)) by {
        assert forall|k: int| 0 <= k < seps.len() implies seps[k] != a by {}
    }
    assert(!seps.contains(b)) by {
        assert forall|k: int| 0 <= k < seps.len() implies seps[k] != b by {}
    }
    assert(s.drop_last() =~= seq![a]);
    assert(seq![a].drop_last() =~= Seq::<char>::empty());
    assert(split_by(Seq::<char>::empty(), seps) =~= seq![Seq::<char>::empty()]);
    assert(Seq::<char>::empty().push(a) =~= seq![a]);
    assert(split_by(seq![a], seps) =~= seq![seq![a]]);
    assert(seq![a].push(b) =~= s);
    assert(split_by(s, seps) =~= seq![s]);
    let parts = sgr_parts(s);
    assert(parts =~= seq![s]);
    assert(crate::text::sign_stripped(s) == s);
    assert(crate::text::all_digits(s));
    assert(crate::text::digits_value(seq![a]) == (a as int - '0' as int)) by {
        assert(seq![a].drop_last() =~= Seq::<char>::empty());
        assert(crate::text::digits_value(Seq::<char>::empty()) == 0);
        assert(seq![a].last() == a);
    }
    assert(s.last() == b);
    assert(crate::text::digits_value(s) == (a as int - '0' as int) * 10 + (b as int - '0' as int));
    let p = ((a as int - '0' as int) * 10 + (b as int - '0' as int)) as nat;
    assert(sgr_num(parts, 0) == Some(p));
    assert(sgr(style, s) == sgr_from(sgr_code(style, p), parts, 1));
}

/// Parameter `i` as a number.
fn num_at(parts: &Vec<Vec<char>>, i: usize) -> (r: Option<u16>)
    ensures
        match r {
            Some(v) => sgr_num(views(parts@), i as int) == Some(v as nat),
            None => sgr_num(views(parts@), i as int) is None,
        },
{
    if i < parts.len() {
        match parse_unsigned_chars(parts[i].as_slice(), 65535) {
            Some(v) => Some(v as u16),
            None => None,
        }
    } else {
        None
    }
}

/// Parameter `i` as a color channel.
fn channel_at(parts: &Vec<Vec<char>>, i: usize) -> (r: u8)
    ensures
        r == sgr_channel(views(parts@), i as int),
{
    match num_at(parts, i) {
        Some(v) => if v > 255 { 255 } else { v as u8 },
        None => 0,
    }
}

fn code_effect(style: Style, p: u16) -> (r: Style)
    ensures
        r == sgr_code(style, p as nat),
{
    let mut s = style;
    if p == 0 {
        s = Style::default();
    } else if p == 1 {
        s.bold = true;
    } else if p == 2 {
        s.dim = true;
    } else if p == 5 || p == 6 {
        s.blink = true;
    } else if p == 7 {
        s.reverse = true;
    } else if p == 22 {
        s.bold = false;
        s.dim = false;
    } else if p == 25 {
        s.blink = false;
    } else if p == 27 {
        s.reverse = false;
    } else if 30 <= p && p <= 37 {
        s.fg = Color::Indexed((p - 30) as u8);
    } else if 90 <= p && p <= 97 {
        s.fg = Color::Indexed((p - 90 + 8) as u8);
    } else if p == 39 {
        s.fg = Color::Default;
    } else if 40 <= p && p <= 47 {
        s.bg = Color::Indexed((p - 40) as u8);
    } else if 100 <= p && p <= 107 {
        s.bg = Color::Indexed((p - 100 + 8) as u8);
    } else if p == 49 {
        s.bg = Color::Default;
    }
    s
}

/// Apply the SGR parameters `params` to `style`: reset, bold, dim, blink,
/// reverse and their offs, the 16 named colors, `38;5;n` / `48;5;n`,
/// `38;2;r;g;b` / `48;2;r;g;b`, and `58;5;n` / `58;2;r;g;b` (underline
/// color: its parameters are consumed, never misread as ordinary codes, but
/// not stored). Anything else is ignored.
pub fn apply_sgr(style: &mut Style, params: &[char])
    ensures
        *final(style) == sgr(*old(style), params@),
{
    let parts: Vec<Vec<char>> = if params.len() == 0 {
        let mut z: Vec<char> = Vec::new();
        z.push('0');
        let mut v: Vec<Vec<char>> = Vec::new();
        v.push(z);
        proof {
            assert(views(v@) =~= seq![seq!['0']]);
        }
        v
    } else {
        split_chars(params, &[';', ':'])
    };
    let ghost ps = views(parts@);
    proof {
        assert(seq![';', ':'] =~= [';', ':']@);
        assert(ps == sgr_parts(params@));
    }
    let n = parts.len();
    let mut i: usize = 0;
    while i < n
        invariant
            n == parts@.len(),
            i <= n,
            ps == views(parts@),
            ps == sgr_parts(params@),
            sgr_from(*style, ps, i as int) == sgr(*old(style), params@),
        decreases n - i,
    {
        let (st, next) = sgr_step(*style, &parts, i);
        *style = st;
        i = next;
    }
}

/// One step of [`apply_sgr`]: the code at `i` and the parameters it consumes.
fn sgr_step(style: Style, parts: &Vec<Vec<char>>, i: usize) -> (r: (Style, usize))
    requires
        i < parts@.len(),
    ensures
        i < r.1 <= parts@.len(),
        sgr_from(style, views(parts@), i as int) == sgr_from(r.0, views(parts@), r.1 as int),
{
    let ghost ps = views(parts@);
    let n = parts.len();
    match num_at(parts, i) {
        None => (style, i + 1),
        Some(p) => {
            if p == 38 || p == 48 || p == 58 {
                match num_at(parts, i + 1) {
                    Some(m) => {
                        if m == 5 {
                            let c = Color::Indexed(channel_at(parts, plus(i, 2)));
                            let st = extended(style, p, c);
                            let next = if n - i <= 3 { n } else { i + 3 };
                            proof {
                                assert(sgr_from(style, ps, i as int) == sgr_from(st, ps, i + 3));
                                assert(sgr_from(st, ps, next as int) == sgr_from(st, ps, i + 3));
                            }
                            (st, next)
                        } else if m == 2 {
                            let skip: usize = if plus(i, 2) < n && parts[i + 2].len() == 0 { 1 } else { 0 };
                            let k = plus(i, 2 + skip);
                            let c = Color::Rgb(channel_at(parts, k), channel_at(parts, plus(k, 1)), channel_at(parts, plus(k, 2)));
                            let st = extended(style, p, c);
                            let next = if n - i <= 5 + skip { n } else { i + 5 + skip };
                            proof {
                                assert(skip == rgb_skip(ps, i as int));
                                assert(sgr_from(style, ps, i as int) == sgr_from(st, ps, i + 5 + skip));
                                assert(sgr_from(st, ps, next as int) == sgr_from(st, ps, i + 5 + skip));
                            }
                            (st, next)
                        } else {
                            (style, i + 1)
                        }
                    },
                    None => (style, i + 1),
                }
            } else {
                (code_effect(style, p), i + 1)
            }
        },
    }
}

fn extended(style: Style, p: u16, c: Color) -> (r: Style)
    ensures
        r == set_extended(style, p as nat, c),
{
    let mut s = style;
    if p == 38 {
        s.fg = c;
    } else if p == 48 {
        s.bg = c;
    }
    s
}

/// `i + d`, or `usize::MAX` when that does not fit.
pub fn plus(i: usize, d: usize) -> (r: usize)
    ensures
        r == if i + d <= usize::MAX { (i + d) as usize } else { usize::MAX },
{
    if i <= usize::MAX - d { i + d } else { usize::MAX }
}

// ─── Rows ───────────────────────────────────────────────────────────────────

/// What `unicode-width` reports as the display width of `c` (`None` for a
/// control character).
pub uninterp spec fn char_columns(c: char) -> Option<usize>;

/// A printable ASCII character, U+0020 to U+007E.
pub open spec fn printable_ascii(c: char) -> bool {
    ' ' <= c && c <= '~'
}

/// A control character: U+0000 to U+001F or U+007F to U+009F.
pub open spec fn control_char(c: char) -> bool {
    c < ' ' || ('\u{7F}' <= c && c < '\u{A0}')
}

/// `unicode_width::UnicodeWidthChar::width`. Claimed: the result is
/// `char_columns(c)`, a function of `c` alone, and (as the crate's lookup
/// shows, before any table) a printable ASCII character is one column and
/// a control character has no width.
#[verifier::external_body]
fn char_width(c: char) -> (w: Option<usize>)
    ensures
        w == char_columns(c),
        printable_ascii(c) ==> w == Some(1usize),
        control_char(c) ==> w is None,
{
    unicode_width::UnicodeWidthChar::width(c)
}

/// The state of the row reader: the cells so far, the running style, and
/// whether the previous character was U+200D.
pub type RowState = (Seq<Cell>, Style, bool);

/// The index after the run of characters in `lo..=hi` that starts at `i`.
pub open spec fn run_end(s: Seq<char>, i: int, lo: char, hi: char) -> int
    decreases s.len() - i,
{
    if 0 <= i < s.len() && lo <= s[i] && s[i] <= hi {
        run_end(s, i + 1, lo, hi)
    } else {
        i
    }
}

/// The private-parameter markers of a CSI.
pub open spec fn is_private_marker(c: char) -> bool {
    c == '<' || c == '=' || c == '>' || c == '?'
}

/// The parameter bytes of a CSI without its private markers.
pub open spec fn params_of(seg: Seq<char>) -> Seq<char>
    decreases seg.len(),
{
    if seg.len() == 0 {
        seg
    } else if is_private_marker(seg.last()) {
        params_of(seg.drop_last())
    } else {
        params_of(seg.drop_last()).push(seg.last())
    }
}

/// The parameter bytes of a CSI hold a private marker.
pub open spec fn has_private(seg: Seq<char>) -> bool
    decreases seg.len(),
{
    seg.len() > 0 && (is_private_marker(seg.last()) || has_private(seg.drop_last()))
}

/// The index after an OSC (`bel`) or DCS/SOS/PM/APC string that starts at
/// `i`: just past BEL (OSC only) or the terminator `ESC \`, or the end of
/// the row when neither appears.
pub open spec fn string_end(s: Seq<char>, i: int, bel: bool) -> int
    decreases s.len() - i,
{
    if i < 0 || i >= s.len() {
        s.len() as int
    } else if bel && s[i] == '\x07' {
        i + 1
    } else if s[i] == '\x1b' && i + 1 < s.len() && s[i + 1] == '\\' {
        i + 2
    } else {
        string_end(s, i + 1, bel)
    }
}

/// An escape sequence that starts at `i` (`s[i]` is ESC): where the reader
/// continues and the style it leaves. Only a CSI ending in `m` without a
/// private marker changes the style.
pub open spec fn esc_step(s: Seq<char>, i: int, style: Style) -> (int, Style) {
    if i + 1 >= s.len() {
        (i + 1, style)
    } else {
        let c = s[i + 1];
        if c == '[' {
            let a = i + 2;
            let b = run_end(s, a, '\x30', '\x3f');
            let e = run_end(s, b, '\x20', '\x2f');
            let seg = s.subrange(a, b);
            if e < s.len() {
                (e + 1, if s[e] == 'm' && !has_private(seg) { sgr(style, params_of(seg)) } else { style })
            } else {
                (e, style)
            }
        } else if c == ']' {
            (string_end(s, i + 2, true), style)
        } else if c == 'P' || c == 'X' || c == '^' || c == '_' {
            (string_end(s, i + 2, false), style)
        } else {
            (i + 2, style)
        }
    }
}

/// The cell a glyph is written into.
pub open spec fn glyph_cell(ch: char, style: Style) -> Cell {
    Cell { glyph: Some(ch), wide_tail: false, style }
}

/// The second cell of a two-column glyph.
pub open spec fn tail_cell(style: Style) -> Cell {
    Cell { glyph: None, wide_tail: true, style }
}

/// One ordinary character (not ESC): `\r` is dropped; the character after
/// U+200D joins the cluster before it; U+200D and the emoji modifiers take no
/// cell; U+FE0F widens a one-cell glyph just written; anything else takes its
/// `unicode-width` columns (none for a control character).
pub open spec fn char_step(st: RowState, ch: char) -> RowState {
    let (cells, style, zwj) = st;
    if ch == '\r' {
        st
    } else if zwj {
        (cells, style, false)
    } else if ch == '\u{200D}' {
        (cells, style, true)
    } else if '\u{1F3FB}' <= ch && ch <= '\u{1F3FF}' {
        st
    } else if ch == '\u{FE0F}' {
        if cells.len() > 0 && cells.last().glyph is Some {
            (cells.push(tail_cell(cells.last().style)), style, zwj)
        } else {
            st
        }
    } else {
        let w: int = match char_columns(ch) {
            Some(w) => w as int,
            None => 0,
        };
        if w == 0 {
            st
        } else if w == 1 {
            (cells.push(glyph_cell(ch, style)), style, zwj)
        } else {
            (cells.push(glyph_cell(ch, style)).push(tail_cell(style)), style, zwj)
        }
    }
}

/// One step of the row reader at `i`.
pub open spec fn row_step(s: Seq<char>, i: int, st: RowState) -> (int, RowState) {
    if s[i] == '\x1b' {
        let (j, style) = esc_step(s, i, st.1);
        (j, (st.0, style, st.2))
    } else {
        (i + 1, char_step(st, s[i]))
    }
}

/// The reader's state at the end of the row, from state `st` at index `i`.
pub open spec fn row_from(s: Seq<char>, i: int, st: RowState) -> RowState
    decreases (if i < s.len() { s.len() - i } else { 0 }),
{
    if i < 0 || i >= s.len() {
        st
    } else {
        let (j, st2) = row_step(s, i, st);
        if j > i {
            row_from(s, j, st2)
        } else {
            st2
        }
    }
}

/// A row read from `style`: its cells and the style it leaves.
pub open spec fn row_cells(line: Seq<char>, style: Style) -> (Seq<Cell>, Style) {
    let st = row_from(line, 0, (Seq::empty(), style, false));
    (st.0, st.1)
}

/// The cell grid's shape: a cell is a wide tail exactly when it has no
/// glyph, and every wide tail follows the glyph it belongs to, in the same
/// style.
pub open spec fn row_wf(cells: Seq<Cell>) -> bool {
    &&& forall|k: int| 0 <= k < cells.len() ==> (#[trigger] cells[k].wide_tail <==> cells[k].glyph is None)
    &&& forall|k: int|
        0 <= k < cells.len() && #[trigger] cells[k].wide_tail ==> k > 0 && !cells[k - 1].wide_tail
            && cells[k - 1].style == cells[k].style
}

proof fn lemma_run_end(s: Seq<char>, i: int, lo: char, hi: char)
    requires
        0 <= i,
    ensures
        i <= run_end(s, i, lo, hi),
        i <= s.len() ==> run_end(s, i, lo, hi) <= s.len(),
    decreases s.len() - i,
{
    if 0 <= i < s.len() && lo <= s[i] && s[i] <= hi {
        lemma_run_end(s, i + 1, lo, hi);
    }
}

proof fn lemma_string_end(s: Seq<char>, i: int, bel: bool)
    requires
        0 <= i,
    ensures
        i <= string_end(s, i, bel) || i > s.len(),
        string_end(s, i, bel) <= s.len() || string_end(s, i, bel) == i + 2,
        i <= s.len() ==> string_end(s, i, bel) <= s.len(),
    decreases s.len() - i,
{
    if 0 <= i < s.len() && !(bel && s[i] == '\x07') && !(s[i] == '\x1b' && i + 1 < s.len() && s[i + 1] == '\\') {
        lemma_string_end(s, i + 1, bel);
    }
}

proof fn lemma_char_step_wf(st: RowState, ch: char)
    requires
        row_wf(st.0),
    ensures
        row_wf(char_step(st, ch).0),
{
    let r = char_step(st, ch).0;
    let cells = st.0;
    assert forall|k: int| 0 <= k < r.len() implies (#[trigger] r[k].wide_tail <==> r[k].glyph is None) by {
        if k < cells.len() {
            assert(r[k] == cells[k]);
        }
    }
    assert forall|k: int|
        0 <= k < r.len() && #[trigger] r[k].wide_tail implies k > 0 && !r[k - 1].wide_tail
            && r[k - 1].style == r[k].style by {
        if k < cells.len() {
            assert(r[k] == cells[k]);
            assert(r[k - 1] == cells[k - 1]);
        } else if k > 0 && k - 1 < cells.len() {
            assert(r[k - 1] == cells[k - 1]);
        }
    }
}

proof fn lemma_row_from_wf(s: Seq<char>, i: int, st: RowState)
    requires
        row_wf(st.0),
    ensures
        row_wf(row_from(s, i, st).0),
    decreases (if i < s.len() { s.len() - i } else { 0 }),
{
    if 0 <= i < s.len() {
        let (j, st2) = row_step(s, i, st);
        if s[i] != '\x1b' {
            lemma_char_step_wf(st, s[i]);
        }
        if j > i {
            lemma_row_from_wf(s, j, st2);
        }
    }
}

/// Where a run of characters in `lo..=hi` starting at `i` ends.
fn run_end_exec(s: &[char], i: usize, lo: char, hi: char) -> (r: usize)
    requires
        i <= s@.len(),
    ensures
        r == run_end(s@, i as int, lo, hi),
        i <= r <= s@.len(),
    decreases s@.len() - i,
{
    if i < s.len() && lo <= s[i] && s[i] <= hi {
        run_end_exec(s, i + 1, lo, hi)
    } else {
        i
    }
}

/// Where an OSC or DCS/SOS/PM/APC string starting at `i` ends.
fn string_end_exec(s: &[char], i: usize, bel: bool) -> (r: usize)
    requires
        i <= s@.len(),
    ensures
        r == string_end(s@, i as int, bel),
        i <= r <= s@.len(),
    decreases s@.len() - i,
{
    if i >= s.len() {
        s.len()
    } else if bel && s[i] == '\x07' {
        i + 1
    } else if s[i] == '\x1b' && i + 1 < s.len() && s[i + 1] == '\\' {
        i + 2
    } else {
        string_end_exec(s, i + 1, bel)
    }
}

/// The parameters of the CSI whose parameter bytes are `s[a..b]`, and
/// whether they carry a private marker.
fn csi_params(s: &[char], a: usize, b: usize) -> (r: (Vec<char>, bool))
    requires
        a <= b <= s@.len(),
    ensures
        r.0@ == params_of(s@.subrange(a as int, b as int)),
        r.1 == has_private(s@.subrange(a as int, b as int)),
{
    let mut params: Vec<char> = Vec::new();
    let mut private = false;
    let mut i = a;
    proof {
        assert(s@.subrange(a as int, a as int) =~= Seq::<char>::empty());
    }
    while i < b
        invariant
            a <= i <= b <= s@.len(),
            params@ == params_of(s@.subrange(a as int, i as int)),
            private == has_private(s@.subrange(a as int, i as int)),
        decreases b - i,
    {
        let c = s[i];
        proof {
            assert(s@.subrange(a as int, i + 1).drop_last() =~= s@.subrange(a as int, i as int));
            assert(s@.subrange(a as int, i + 1).last() == c);
        }
        if c == '<' || c == '=' || c == '>' || c == '?' {
            private = true;
        } else {
            params.push(c);
        }
        i = i + 1;
    }
    (params, private)
}

/// The escape sequence at `i`: where reading continues and the style left.
fn esc_exec(s: &[char], i: usize, style: Style) -> (r: (usize, Style))
    requires
        i < s@.len(),
        s@[i as int] == '\x1b',
    ensures
        (r.0 as int, r.1) == esc_step(s@, i as int, style),
        i < r.0 <= s@.len(),
{
    let n = s.len();
    if n - i <= 1 {
        return (i + 1, style);
    }
    let c = s[i + 1];
    if c == '[' {
        let a = i + 2;
        let b = run_end_exec(s, a, '\x30', '\x3f');
        let e = run_end_exec(s, b, '\x20', '\x2f');
        if e < s.len() {
            let (params, private) = csi_params(s, a, b);
            if s[e] == 'm' && !private {
                let mut st = style;
                apply_sgr(&mut st, params.as_slice());
                (e + 1, st)
            } else {
                (e + 1, style)
            }
        } else {
            (e, style)
        }
    } else if c == ']' {
        (string_end_exec(s, i + 2, true), style)
    } else if c == 'P' || c == 'X' || c == '^' || c == '_' {
        (string_end_exec(s, i + 2, false), style)
    } else {
        (i + 2, style)
    }
}

/// One ordinary character, written into `cells`.
fn char_exec(cells: &mut Vec<Cell>, style: Style, zwj: bool, ch: char) -> (r: bool)
    ensures
        char_step((old(cells)@, style, zwj), ch) == (final(cells)@, style, r),
        printable_ascii(ch) && !zwj ==> char_columns(ch) == Some(1usize),
        no_control_glyph(old(cells)@) ==> no_control_glyph(final(cells)@),
{
    if ch == '\r' {
        zwj
    } else if zwj {
        false
    } else if ch == '\u{200D}' {
        true
    } else if '\u{1F3FB}' <= ch && ch <= '\u{1F3FF}' {
        zwj
    } else if ch == '\u{FE0F}' {
        let n = cells.len();
        if n > 0 && cells[n - 1].glyph.is_some() {
            let base = cells[n - 1].style;
            cells.push(Cell { glyph: None, wide_tail: true, style: base });
        }
        zwj
    } else {
        let cw = char_width(ch);
        let w: usize = match cw {
            Some(w) => w,
            None => 0,
        };
        proof {
            if w > 0 {
                assert(!control_char(ch));
            }
        }
        if w == 1 {
            cells.push(Cell { glyph: Some(ch), wide_tail: false, style });
        } else if w > 1 {
            cells.push(Cell { glyph: Some(ch), wide_tail: false, style });
            cells.push(Cell { glyph: None, wide_tail: true, style });
        }
        zwj
    }
}

/// No cell of `cells` holds a control character as its glyph.
pub open spec fn no_control_glyph(cells: Seq<Cell>) -> bool {
    forall|k: int| 0 <= k < cells.len() ==> ((#[trigger] cells[k]).glyph matches Some(g) ==> !control_char(g))
}

/// Text of printable ASCII characters only: no escape, no control
/// character.
pub open spec fn plain_text(s: Seq<char>) -> bool {
    forall|k: int| 0 <= k < s.len() ==> printable_ascii(#[trigger] s[k])
}

/// One cell per character of `s`, each in `style`.
pub open spec fn plain_cells(s: Seq<char>, style: Style) -> Seq<Cell> {
    Seq::new(s.len(), |k: int| glyph_cell(s[k], style))
}

/// One captured row read from the running `style`, which it updates: SGR
/// sequences change the style; every other character is a cell (zero-width
/// characters take none, two-column glyphs take two), with tmux's rules for
/// U+FE0F, emoji modifiers, and U+200D. Non-CSI escapes (OSC hyperlinks,
/// DCS/SOS/PM/APC strings, and any other two-character escape) are skipped,
/// and a CSI with a private parameter byte is ignored.
pub fn parse_row_chars(s: &[char], style: &mut Style) -> (cells: Vec<Cell>)
    ensures
        (cells@, *final(style)) == row_cells(s@, *old(style)),
        row_wf(cells@),
        plain_text(s@) ==> cells@ == plain_cells(s@, *old(style)) && *final(style) == *old(style),
        no_control_glyph(cells@),
        !s@.contains('\x1b') ==> *final(style) == *old(style),
{
    let mut cells: Vec<Cell> = Vec::new();
    let mut zwj = false;
    let mut i: usize = 0;
    let n = s.len();
    proof {
        assert(plain_cells(s@.take(0), *old(style)) =~= Seq::<Cell>::empty());
    }
    while i < n
        invariant
            n == s@.len(),
            i <= n,
            row_from(s@, i as int, (cells@, *style, zwj)) == row_from(s@, 0, (Seq::empty(), *old(style), false)),
            plain_text(s@) ==> cells@ == plain_cells(s@.take(i as int), *old(style)) && *style == *old(style) && !zwj,
            no_control_glyph(cells@),
            !s@.contains('\x1b') ==> *style == *old(style),
        decreases n - i,
    {
        let ghost st = (cells@, *style, zwj);
        let ghost i0 = i;
        let ghost before = cells@;
        if s[i] == '\x1b' {
            proof {
                assert(s@.contains(s@[i as int]));
            }
            let (j, sty) = esc_exec(s, i, *style);
            *style = sty;
            i = j;
        } else {
            zwj = char_exec(&mut cells, *style, zwj, s[i]);
            i = i + 1;
        }
        proof {
            assert(row_step(s@, i0 as int, st) == (i as int, (cells@, *style, zwj)));
            if plain_text(s@) {
                let c = s@[i0 as int];
                assert(printable_ascii(c));
                assert(cells@ == before.push(glyph_cell(c, *old(style))));
                assert(plain_cells(s@.take(i as int), *old(style)) =~= plain_cells(s@.take(i0 as int), *old(style)).push(
                    glyph_cell(c, *old(style)),
                ));
            }
        }
    }
    proof {
        assert(s@.take(n as int) =~= s@);
    }
    proof {
        lemma_row_from_wf(s@, 0, (Seq::empty(), *old(style), false));
    }
    cells
}

/// One captured row read from the running `style`, which it updates (as
/// [`parse_row_chars`]).
pub fn parse_row(line: &str, style: &mut Style) -> (cells: Vec<Cell>)
    ensures
        (cells@, *final(style)) == row_cells(line@, *old(style)),
        row_wf(cells@),
        plain_text(line@) ==> cells@ == plain_cells(line@, *old(style)) && *final(style) == *old(style),
        no_control_glyph(cells@),
        !line@.contains('\x1b') ==> *final(style) == *old(style),
{
    let v = chars_of(line);
    parse_row_chars(v.as_slice(), style)
}

// ─── Frames ─────────────────────────────────────────────────────────────────

/// One parsed capture.
#[derive(Debug, Clone)]
pub struct Frame {
    pub width: usize,
    pub height: usize,
    /// `#{client_termfeatures}` (for example `256,RGB`); empty when unknown.
    pub termfeatures: String,
    /// `COLORTERM` in the engine's environment; empty when unset.
    pub colorterm: String,
    pub role: FrameRole,
    pub rows: Vec<Vec<Cell>>,
}

impl Default for Frame {
    fn default() -> (f: Frame)
        ensures
            f.width == 0,
            f.height == 0,
            f.termfeatures@ == Seq::<char>::empty(),
            f.colorterm@ == Seq::<char>::empty(),
            f.role == FrameRole::Capture,
            f.rows@.len() == 0,
    {
        Frame {
            width: 0,
            height: 0,
            termfeatures: String::new(),
            colorterm: String::new(),
            role: FrameRole::Capture,
            rows: Vec::new(),
        }
    }
}

/// The rows of a frame as sequences of cells.
pub open spec fn grid(rows: Seq<Vec<Cell>>) -> Seq<Seq<Cell>> {
    Seq::new(rows.len(), |i: int| rows[i]@)
}

/// Row `r` of the grid, or no cells when there is no such row.
pub open spec fn row_at(g: Seq<Seq<Cell>>, r: int) -> Seq<Cell> {
    if 0 <= r < g.len() {
        g[r]
    } else {
        Seq::empty()
    }
}

/// The glyph at row `r`, column `c`, if that cell exists and holds one.
pub open spec fn glyph_at(g: Seq<Seq<Cell>>, r: int, c: int) -> Option<char> {
    if 0 <= c < row_at(g, r).len() {
        row_at(g, r)[c].glyph
    } else {
        None
    }
}

/// A row as text: one character per cell that is not a wide tail, a space
/// for a cell without a glyph.
pub open spec fn cells_text(cells: Seq<Cell>) -> Seq<char>
    decreases cells.len(),
{
    if cells.len() == 0 {
        Seq::empty()
    } else if cells.last().wide_tail {
        cells_text(cells.drop_last())
    } else {
        cells_text(cells.drop_last()).push(
            match cells.last().glyph {
                Some(g) => g,
                None => ' ',
            },
        )
    }
}

/// A cell shows nothing: no glyph, or a whitespace glyph.
pub open spec fn blank_cell(c: Cell) -> bool {
    match c.glyph {
        Some(g) => white_space(g),
        None => true,
    }
}

/// How many wide tails a row holds.
pub open spec fn tail_count(cells: Seq<Cell>) -> nat
    decreases cells.len(),
{
    if cells.len() == 0 {
        0
    } else {
        tail_count(cells.drop_last()) + if cells.last().wide_tail { 1nat } else { 0nat }
    }
}

impl Frame {
    /// The grid of this frame.
    pub open spec fn cells(&self) -> Seq<Seq<Cell>> {
        grid(self.rows@)
    }

    /// The glyph at `(row, col)`, if that cell exists and holds one.
    pub fn glyph(&self, row: usize, col: usize) -> (g: Option<char>)
        ensures
            g == glyph_at(self.cells(), row as int, col as int),
    {
        if row < self.rows.len() && col < self.rows[row].len() {
            self.rows[row][col].glyph
        } else {
            None
        }
    }

    /// How many cells row `row` holds (0 for a missing row).
    pub fn row_width(&self, row: usize) -> (w: usize)
        ensures
            w == row_at(self.cells(), row as int).len(),
    {
        if row < self.rows.len() {
            self.rows[row].len()
        } else {
            0
        }
    }

    /// The row as text, one character per glyph (wide tails skipped).
    pub fn text(&self, row: usize) -> (t: String)
        ensures
            t@ == cells_text(row_at(self.cells(), row as int)),
    {
        let v = self.text_chars(row);
        string_of(v.as_slice())
    }

    /// The row as characters, one per glyph (wide tails skipped).
    pub fn text_chars(&self, row: usize) -> (t: Vec<char>)
        ensures
            t@ == cells_text(row_at(self.cells(), row as int)),
    {
        let mut out: Vec<char> = Vec::new();
        if row >= self.rows.len() {
            return out;
        }
        let cells = &self.rows[row];
        let mut i: usize = 0;
        proof {
            assert(cells@.take(0) =~= Seq::<Cell>::empty());
        }
        while i < cells.len()
            invariant
                cells@ == row_at(self.cells(), row as int),
                0 <= i <= cells@.len(),
                out@ == cells_text(cells@.take(i as int)),
            decreases cells@.len() - i,
        {
            let c = cells[i];
            proof {
                assert(cells@.take(i + 1).drop_last() =~= cells@.take(i as int));
            }
            if !c.wide_tail {
                out.push(
                    match c.glyph {
                        Some(g) => g,
                        None => ' ',
                    },
                );
            }
            i = i + 1;
        }
        proof {
            assert(cells@.take(cells@.len() as int) =~= cells@);
        }
        out
    }

    /// Does row `row` show nothing (a missing row does not)?
    pub fn is_blank(&self, row: usize) -> (b: bool)
        ensures
            b == forall|c: int| 0 <= c < row_at(self.cells(), row as int).len()
                ==> blank_cell(#[trigger] row_at(self.cells(), row as int)[c]),
    {
        if row >= self.rows.len() {
            return true;
        }
        let cells = &self.rows[row];
        let mut i: usize = 0;
        while i < cells.len()
            invariant
                cells@ == row_at(self.cells(), row as int),
                0 <= i <= cells@.len(),
                forall|c: int| 0 <= c < i ==> blank_cell(#[trigger] cells@[c]),
            decreases cells@.len() - i,
        {
            let blank = match cells[i].glyph {
                Some(g) => is_whitespace(g),
                None => true,
            };
            if !blank {
                proof {
                    assert(!blank_cell(cells@[i as int]));
                }
                return false;
            }
            i = i + 1;
        }
        true
    }

    /// Does the row hold a two-column glyph (emoji, CJK)?
    pub fn has_wide(&self, row: usize) -> (b: bool)
        ensures
            b == exists|c: int| 0 <= c < row_at(self.cells(), row as int).len()
                && (#[trigger] row_at(self.cells(), row as int)[c]).wide_tail,
    {
        if row >= self.rows.len() {
            return false;
        }
        let cells = &self.rows[row];
        let mut i: usize = 0;
        while i < cells.len()
            invariant
                cells@ == row_at(self.cells(), row as int),
                0 <= i <= cells@.len(),
                forall|c: int| 0 <= c < i ==> !(#[trigger] cells@[c]).wide_tail,
            decreases cells@.len() - i,
        {
            if cells[i].wide_tail {
                return true;
            }
            i = i + 1;
        }
        false
    }

    /// How many two-cell clusters the row holds: one per wide tail.
    pub fn wide_count(&self, row: usize) -> (n: usize)
        ensures
            n == tail_count(row_at(self.cells(), row as int)),
    {
        if row >= self.rows.len() {
            return 0;
        }
        let cells = &self.rows[row];
        let mut i: usize = 0;
        let mut n: usize = 0;
        proof {
            assert(cells@.take(0) =~= Seq::<Cell>::empty());
        }
        while i < cells.len()
            invariant
                cells@ == row_at(self.cells(), row as int),
                0 <= i <= cells@.len(),
                n == tail_count(cells@.take(i as int)),
                n <= i,
            decreases cells@.len() - i,
        {
            proof {
                assert(cells@.take(i + 1).drop_last() =~= cells@.take(i as int));
            }
            if cells[i].wide_tail {
                n = n + 1;
            }
            i = i + 1;
        }
        proof {
            assert(cells@.take(cells@.len() as int) =~= cells@);
        }
        n
    }
}

/// The rows of a capture: the text cut at `\n`, without the empty piece a
/// trailing newline leaves.
pub open spec fn capture_lines(text: Seq<char>) -> Seq<Seq<char>> {
    let l = split_by(text, seq!['\n']);
    if l.len() > 0 && l.last().len() == 0 {
        l.drop_last()
    } else {
        l
    }
}

/// The first `k` lines read as rows, the style carried from each row to the
/// next, and the style left after them.
pub open spec fn rows_upto(lines: Seq<Seq<char>>, k: int, style: Style) -> (Seq<Seq<Cell>>, Style)
    decreases k,
{
    if k <= 0 {
        (Seq::empty(), style)
    } else {
        let (rs, st) = rows_upto(lines, k - 1, style);
        let (c, st2) = row_cells(lines[k - 1], st);
        (rs.push(c), st2)
    }
}

/// Lines read as rows from `style`, the style carried across rows.
pub open spec fn rows_of(lines: Seq<Seq<char>>, style: Style) -> Seq<Seq<Cell>> {
    rows_upto(lines, lines.len() as int, style).0
}

proof fn lemma_rows_upto(lines: Seq<Seq<char>>, k: int, style: Style)
    requires
        0 <= k <= lines.len(),
    ensures
        rows_upto(lines, k, style).0.len() == k,
        forall|r: int| 0 <= r < k ==> row_wf(#[trigger] rows_upto(lines, k, style).0[r]),
    decreases k,
{
    if k > 0 {
        lemma_rows_upto(lines, k - 1, style);
        let (rs, st) = rows_upto(lines, k - 1, style);
        lemma_row_from_wf(lines[k - 1], 0, (Seq::empty(), st, false));
        assert forall|r: int| 0 <= r < k implies row_wf(#[trigger] rows_upto(lines, k, style).0[r]) by {
            if r < k - 1 {
                assert(rows_upto(lines, k, style).0[r] == rs[r]);
            }
        }
    }
}

/// Read `lines` as rows from the running `style`, which is left as the
/// last row leaves it.
pub fn rows_from_lines(lines: &Vec<Vec<char>>, style: &mut Style) -> (rows: Vec<Vec<Cell>>)
    ensures
        (grid(rows@), *final(style)) == rows_upto(views(lines@), lines@.len() as int, *old(style)),
        forall|r: int| 0 <= r < rows@.len() ==> row_wf(#[trigger] rows@[r]@),
        forall|r: int| 0 <= r < rows@.len() ==> no_control_glyph(#[trigger] rows@[r]@),
{
    let ghost ls = views(lines@);
    let mut rows: Vec<Vec<Cell>> = Vec::new();
    let mut k: usize = 0;
    while k < lines.len()
        invariant
            ls == views(lines@),
            0 <= k <= lines@.len(),
            (grid(rows@), *style) == rows_upto(ls, k as int, *old(style)),
            forall|r: int| 0 <= r < rows@.len() ==> row_wf(#[trigger] rows@[r]@),
            forall|r: int| 0 <= r < rows@.len() ==> no_control_glyph(#[trigger] rows@[r]@),
        decreases lines@.len() - k,
    {
        let cells = parse_row_chars(lines[k].as_slice(), style);
        let ghost before = grid(rows@);
        rows.push(cells);
        proof {
            assert(grid(rows@) =~= before.push(cells@));
        }
        k = k + 1;
    }
    rows
}

/// Rows of captured text into cells. A trailing newline does not add a row.
/// tmux's `capture-pane -e` diffs SGR against one running cell state for the
/// whole capture, so a style set on one row and unchanged on the next carries
/// forward; the style is not reset between rows.
pub fn parse_rows(text: &str) -> (rows: Vec<Vec<Cell>>)
    ensures
        grid(rows@) == rows_of(capture_lines(text@), plain()),
        rows@.len() == capture_lines(text@).len(),
        forall|r: int| 0 <= r < rows@.len() ==> row_wf(#[trigger] rows@[r]@),
        forall|r: int| 0 <= r < rows@.len() ==> no_control_glyph(#[trigger] rows@[r]@),
{
    let t = chars_of(text);
    let mut lines = split_chars(t.as_slice(), &['\n']);
    proof {
        assert(seq!['\n'] =~= ['\n']@);
        lemma_split_by_nonempty(t@, seq!['\n']);
    }
    let n = lines.len();
    if n > 0 && lines[n - 1].len() == 0 {
        let ghost before = views(lines@);
        lines.pop();
        proof {
            assert(views(lines@) =~= before.drop_last());
        }
    }
    let mut style = Style::default();
    let rows = rows_from_lines(&lines, &mut style);
    proof {
        lemma_rows_upto(views(lines@), lines@.len() as int, plain());
    }
    rows
}

/// A trailing newline does not add a row: text that is not empty and does
/// not already end a line reads as the same rows with one more newline.
pub proof fn law_trailing_newline_adds_no_row(text: Seq<char>)
    requires
        text.len() > 0,
        text.last() != '\n',
    ensures
        capture_lines(text.push('\n')) == capture_lines(text),
        rows_of(capture_lines(text.push('\n')), plain()) == rows_of(capture_lines(text), plain()),
{
    let nl = seq!['\n'];
    assert(text.push('\n').drop_last() =~= text);
    assert(text.push('\n').last() == '\n');
    assert(nl.contains('\n')) by {
        assert(nl[0] == '\n');
    }
    assert(!nl.contains(text.last()));
    let p = split_by(text.drop_last(), nl);
    lemma_split_by_nonempty(text.drop_last(), nl);
    assert(split_by(text, nl) == p.update(p.len() - 1, p.last().push(text.last())));
    assert(split_by(text, nl).last().len() > 0);
    assert(split_by(text.push('\n'), nl) == split_by(text, nl).push(Seq::<char>::empty()));
    assert(split_by(text.push('\n'), nl).drop_last() =~= split_by(text, nl));
}

// ─── Saved capture files ────────────────────────────────────────────────────

/// The line that introduces a frame in a saved capture file.
pub const HEADER: &'static str = "#!capture";

/// `#!capture` as characters.
pub open spec fn header_tag() -> Seq<char> {
    seq!['#', '!', 'c', 'a', 'p', 't', 'u', 'r', 'e']
}

/// What a header sets: width, height, termfeatures, colorterm, role.
pub type HeaderFields = (usize, usize, Seq<char>, Seq<char>, FrameRole);

/// A frame with no header fields set.
pub open spec fn header_init() -> HeaderFields {
    (0, 0, Seq::empty(), Seq::empty(), FrameRole::Capture)
}

/// One `key=value` pair of a header applied to the fields so far.
pub open spec fn apply_pair(h: HeaderFields, pair: Seq<char>) -> Result<HeaderFields, Seq<char>> {
    match first_index(pair, '=') {
        None => Err("capture header: expected key=value, got "@ + debug_str(pair)),
        Some(eq) => {
            let key = pair.take(eq);
            let value = pair.skip(eq + 1);
            if key == "width"@ {
                match parse_unsigned(value, usize::MAX as nat) {
                    Some(v) => Ok((v as usize, h.1, h.2, h.3, h.4)),
                    None => Err("capture header: width "@ + debug_str(value) + " is not a number"@),
                }
            } else if key == "height"@ {
                match parse_unsigned(value, usize::MAX as nat) {
                    Some(v) => Ok((h.0, v as usize, h.2, h.3, h.4)),
                    None => Err("capture header: height "@ + debug_str(value) + " is not a number"@),
                }
            } else if key == "termfeatures"@ {
                Ok((h.0, h.1, value, h.3, h.4))
            } else if key == "colorterm"@ {
                Ok((h.0, h.1, h.2, value, h.4))
            } else if key == "role"@ {
                if value == "capture"@ {
                    Ok((h.0, h.1, h.2, h.3, FrameRole::Capture))
                } else if value == "recapture"@ {
                    Ok((h.0, h.1, h.2, h.3, FrameRole::Recapture))
                } else {
                    Err("capture header: unknown role "@ + debug_str(value))
                }
            } else {
                Err("capture header: unknown key "@ + debug_str(key))
            }
        },
    }
}

/// The first `k` pairs applied in order; the first bad pair is the error.
pub open spec fn header_upto(pairs: Seq<Seq<char>>, k: int) -> Result<HeaderFields, Seq<char>>
    decreases k,
{
    if k <= 0 {
        Ok(header_init())
    } else {
        match header_upto(pairs, k - 1) {
            Err(e) => Err(e),
            Ok(h) => apply_pair(h, pairs[k - 1]),
        }
    }
}

/// A header line's text after `#!capture`, read as whitespace-separated
/// `key=value` pairs.
pub open spec fn header_fields(header: Seq<char>) -> Result<HeaderFields, Seq<char>> {
    header_upto(words(header), words(header).len() as int)
}

/// A group of lines: the header that opened it (none for lines before the
/// first header) and the lines under it.
pub type Group = (Option<Seq<char>>, Seq<Seq<char>>);

/// The first `k` lines of a capture file grouped: every `#!capture` line
/// opens a group; other lines join the open group, or open a headerless one.
pub open spec fn groups_upto(lines: Seq<Seq<char>>, k: int) -> Seq<Group>
    decreases k,
{
    if k <= 0 {
        Seq::empty()
    } else {
        let g = groups_upto(lines, k - 1);
        let line = lines[k - 1];
        if has_prefix(line, header_tag()) {
            g.push((Some(line.skip(9)), Seq::empty()))
        } else if g.len() > 0 {
            g.update(g.len() - 1, (g.last().0, g.last().1.push(line)))
        } else {
            g.push((None, seq![line]))
        }
    }
}

/// The groups of a capture file.
pub open spec fn frame_groups(text: Seq<char>) -> Seq<Group> {
    let lines = split_by(text, seq!['\n']);
    groups_upto(lines, lines.len() as int)
}

/// A group's lines without the empty line a trailing newline leaves.
pub open spec fn group_lines(lines: Seq<Seq<char>>) -> Seq<Seq<char>> {
    if lines.len() > 0 && lines.last().len() == 0 {
        lines.drop_last()
    } else {
        lines
    }
}

/// The widest row of a grid (0 for none).
pub open spec fn max_width(rows: Seq<Seq<Cell>>) -> nat
    decreases rows.len(),
{
    if rows.len() == 0 {
        0
    } else {
        let m = max_width(rows.drop_last());
        if rows.last().len() > m {
            rows.last().len()
        } else {
            m
        }
    }
}

/// A frame's content: width, height, termfeatures, colorterm, role, rows.
pub type FrameData = (usize, usize, Seq<char>, Seq<char>, FrameRole, Seq<Seq<Cell>>);

/// A group read as a frame: its header applied, its rows read from the
/// default style, and a width or height the header left at 0 measured from
/// the rows.
pub open spec fn group_frame(g: Group) -> Result<FrameData, Seq<char>> {
    let hf = match g.0 {
        Some(h) => header_fields(h),
        None => Ok(header_init()),
    };
    match hf {
        Err(e) => Err(e),
        Ok(h) => {
            let rows = rows_of(group_lines(g.1), plain());
            Ok((
                if h.0 == 0 { max_width(rows) as usize } else { h.0 },
                if h.1 == 0 { rows.len() as usize } else { h.1 },
                h.2,
                h.3,
                h.4,
                rows,
            ))
        },
    }
}

/// The first `k` groups read as frames; the first bad header is the error.
pub open spec fn frames_upto(gs: Seq<Group>, k: int) -> Result<Seq<FrameData>, Seq<char>>
    decreases k,
{
    if k <= 0 {
        Ok(Seq::empty())
    } else {
        match frames_upto(gs, k - 1) {
            Err(e) => Err(e),
            Ok(fs) => match group_frame(gs[k - 1]) {
                Err(e) => Err(e),
                Ok(f) => Ok(fs.push(f)),
            },
        }
    }
}

/// A saved capture file read as frames.
pub open spec fn capture_frames(text: Seq<char>) -> Result<Seq<FrameData>, Seq<char>> {
    let gs = frame_groups(text);
    frames_upto(gs, gs.len() as int)
}

/// How many of `lines[..k]` are `#!capture` headers.
pub open spec fn header_count(lines: Seq<Seq<char>>, k: int) -> nat
    decreases k,
{
    if k <= 0 {
        0
    } else {
        header_count(lines, k - 1) + if has_prefix(lines[k - 1], header_tag()) {
            1nat
        } else {
            0nat
        }
    }
}

proof fn lemma_groups_count(lines: Seq<Seq<char>>, k: int)
    requires
        0 <= k <= lines.len(),
    ensures
        groups_upto(lines, k).len() == header_count(lines, k) + if k > 0 && !has_prefix(lines[0], header_tag()) {
            1nat
        } else {
            0nat
        },
        k > 0 ==> groups_upto(lines, k).len() > 0,
    decreases k,
{
    if k > 0 {
        lemma_groups_count(lines, k - 1);
    }
}

proof fn lemma_frames_count(gs: Seq<Group>, k: int)
    requires
        0 <= k <= gs.len(),
    ensures
        frames_upto(gs, k) matches Ok(fs) ==> fs.len() == k,
    decreases k,
{
    if k > 0 {
        lemma_frames_count(gs, k - 1);
    }
}

/// A capture file that reads cleanly has one frame per `#!capture` line,
/// and one more when its first line is not a header.
pub proof fn law_one_frame_per_header(text: Seq<char>)
    ensures
        capture_frames(text) matches Ok(fs) ==> fs.len() == header_count(
            split_by(text, seq!['\n']),
            split_by(text, seq!['\n']).len() as int,
        ) + if !has_prefix(split_by(text, seq!['\n'])[0], header_tag()) {
            1nat
        } else {
            0nat
        },
{
    let lines = split_by(text, seq!['\n']);
    lemma_split_by_nonempty(text, seq!['\n']);
    lemma_groups_count(lines, lines.len() as int);
    let gs = frame_groups(text);
    lemma_frames_count(gs, gs.len() as int);
}

/// `f` holds the content `d`.
pub open spec fn frame_is(f: Frame, d: FrameData) -> bool {
    &&& f.width == d.0
    &&& f.height == d.1
    &&& f.termfeatures@ == d.2
    &&& f.colorterm@ == d.3
    &&& f.role == d.4
    &&& grid(f.rows@) == d.5
}

/// The view of an exec group.
pub open spec fn group_view(g: (Option<Vec<char>>, Vec<Vec<char>>)) -> Group {
    (
        match g.0 {
            Some(h) => Some(h@),
            None => None,
        },
        views(g.1@),
    )
}

/// The views of exec groups.
pub open spec fn group_views(gs: Seq<(Option<Vec<char>>, Vec<Vec<char>>)>) -> Seq<Group> {
    Seq::new(gs.len(), |i: int| group_view(gs[i]))
}

/// Read the text after `#!capture` as header fields.
fn read_header(header: &[char]) -> (r: Result<(usize, usize, Vec<char>, Vec<char>, FrameRole), Vec<char>>)
    ensures
        match r {
            Ok(h) => header_fields(header@) == Ok::<HeaderFields, Seq<char>>((h.0, h.1, h.2@, h.3@, h.4)),
            Err(e) => header_fields(header@) == Err::<HeaderFields, Seq<char>>(e@),
        },
{
    let pairs = words_of(header);
    let ghost ps = views(pairs@);
    proof {
        assert((usize::MAX as u64) as nat == usize::MAX as nat);
    }
    let mut width: usize = 0;
    let mut height: usize = 0;
    let mut termfeatures: Vec<char> = Vec::new();
    let mut colorterm: Vec<char> = Vec::new();
    let mut role = FrameRole::Capture;
    let mut k: usize = 0;
    while k < pairs.len()
        invariant
            ps == views(pairs@),
            ps == words(header@),
            0 <= k <= pairs@.len(),
            (usize::MAX as u64) as nat == usize::MAX as nat,
            header_upto(ps, k as int) == Ok::<HeaderFields, Seq<char>>(
                (width, height, termfeatures@, colorterm@, role),
            ),
        decreases pairs@.len() - k,
    {
        let pair = pairs[k].as_slice();
        let plen = pair.len();
        let ghost h = (width, height, termfeatures@, colorterm@, role);
        proof {
            assert(ps[k as int] == pair@);
        }
        match find_char_from(pair, '=', 0) {
            None => {
                let mut e = chars_of("capture header: expected key=value, got ");
                append_chars(&mut e, debug_quote(pair).as_slice());
                proof {
                    lemma_header_upto_err(ps, k + 1, ps.len() as int);
                }
                return Err(e);
            },
            Some(eq) => {
                proof {
                    lemma_index_from(pair@, '=', 0);
                }
                let key = slice_to_vec(pair, 0, eq);
                let value = slice_to_vec(pair, eq + 1, plen);
                proof {
                    assert(key@ =~= pair@.take(eq as int));
                    assert(value@ =~= pair@.skip(eq + 1));
                }
                let width_key = chars_of("width");
                let height_key = chars_of("height");
                let tf_key = chars_of("termfeatures");
                let ct_key = chars_of("colorterm");
                let role_key = chars_of("role");
                if same_chars(key.as_slice(), width_key.as_slice()) {
                    match parse_unsigned_chars(value.as_slice(), usize::MAX as u64) {
                        Some(v) => {
                            width = v as usize;
                        },
                        None => {
                            let mut e = chars_of("capture header: width ");
                            append_chars(&mut e, debug_quote(value.as_slice()).as_slice());
                            append_str(&mut e, " is not a number");
                            proof {
                                lemma_header_upto_err(ps, k + 1, ps.len() as int);
                            }
                            return Err(e);
                        },
                    }
                } else if same_chars(key.as_slice(), height_key.as_slice()) {
                    match parse_unsigned_chars(value.as_slice(), usize::MAX as u64) {
                        Some(v) => {
                            height = v as usize;
                        },
                        None => {
                            let mut e = chars_of("capture header: height ");
                            append_chars(&mut e, debug_quote(value.as_slice()).as_slice());
                            append_str(&mut e, " is not a number");
                            proof {
                                lemma_header_upto_err(ps, k + 1, ps.len() as int);
                            }
                            return Err(e);
                        },
                    }
                } else if same_chars(key.as_slice(), tf_key.as_slice()) {
                    termfeatures = value;
                } else if same_chars(key.as_slice(), ct_key.as_slice()) {
                    colorterm = value;
                } else if same_chars(key.as_slice(), role_key.as_slice()) {
                    let capture_word = chars_of("capture");
                    let recapture_word = chars_of("recapture");
                    if same_chars(value.as_slice(), capture_word.as_slice()) {
                        role = FrameRole::Capture;
                    } else if same_chars(value.as_slice(), recapture_word.as_slice()) {
                        role = FrameRole::Recapture;
                    } else {
                        let mut e = chars_of("capture header: unknown role ");
                        append_chars(&mut e, debug_quote(value.as_slice()).as_slice());
                        proof {
                    lemma_header_upto_err(ps, k + 1, ps.len() as int);
                }
                return Err(e);
                    }
                } else {
                    let mut e = chars_of("capture header: unknown key ");
                    append_chars(&mut e, debug_quote(key.as_slice()).as_slice());
                    proof {
                    lemma_header_upto_err(ps, k + 1, ps.len() as int);
                }
                return Err(e);
                }
            },
        }
        k = k + 1;
    }
    Ok((width, height, termfeatures, colorterm, role))
}

/// The lines of a capture file grouped under their headers.
fn group_capture(lines: &Vec<Vec<char>>) -> (gs: Vec<(Option<Vec<char>>, Vec<Vec<char>>)>)
    ensures
        group_views(gs@) == groups_upto(views(lines@), lines@.len() as int),
{
    let ghost ls = views(lines@);
    let mut done: Vec<(Option<Vec<char>>, Vec<Vec<char>>)> = Vec::new();
    let mut open: Option<(Option<Vec<char>>, Vec<Vec<char>>)> = None;
    let tag = chars_of(HEADER);
    proof {
        assert(tag@ =~= header_tag()) by {
            reveal_strlit("#!capture");
        }
    }
    let mut k: usize = 0;
    while k < lines.len()
        invariant
            ls == views(lines@),
            tag@ == header_tag(),
            0 <= k <= lines@.len(),
            groups_upto(ls, k as int) == group_views(done@) + match open {
                Some(g) => seq![group_view(g)],
                None => Seq::empty(),
            },
            k == 0 <==> open is None,
            open is None ==> done@.len() == 0,
        decreases lines@.len() - k,
    {
        let line = lines[k].as_slice();
        let ghost g0 = groups_upto(ls, k as int);
        proof {
            assert(ls[k as int] == line@);
        }
        if starts_with(line, tag.as_slice()) {
            let rest = slice_to_vec(line, 9, line.len());
            proof {
                assert(rest@ =~= line@.skip(9));
            }
            match open {
                Some(g) => {
                    let ghost before = group_views(done@);
                    let ghost gv = group_view(g);
                    done.push(g);
                    proof {
                        assert(group_views(done@) =~= before.push(gv));
                    }
                },
                None => {},
            }
            let empty: Vec<Vec<char>> = Vec::new();
            proof {
                assert(views(empty@) =~= Seq::<Seq<char>>::empty());
            }
            open = Some((Some(rest), empty));
        } else {
            let copy = slice_to_vec(line, 0, line.len());
            proof {
                assert(copy@ =~= line@);
            }
            match open {
                Some(g) => {
                    let (h, mut body) = g;
                    let ghost bv = views(body@);
                    body.push(copy);
                    proof {
                        assert(views(body@) =~= bv.push(line@));
                    }
                    open = Some((h, body));
                },
                None => {
                    let mut body: Vec<Vec<char>> = Vec::new();
                    body.push(copy);
                    proof {
                        assert(views(body@) =~= seq![line@]);
                    }
                    open = Some((None, body));
                },
            }
        }
        k = k + 1;
    }
    match open {
        Some(g) => {
            let ghost before = group_views(done@);
            let ghost gv = group_view(g);
            done.push(g);
            proof {
                assert(group_views(done@) =~= before.push(gv));
            }
        },
        None => {
            proof {
                assert(group_views(done@) =~= Seq::<Group>::empty());
            }
        },
    }
    done
}

/// The widest row.
fn widest(rows: &Vec<Vec<Cell>>) -> (m: usize)
    ensures
        m == max_width(grid(rows@)),
{
    let mut m: usize = 0;
    let mut i: usize = 0;
    proof {
        assert(grid(rows@).take(0) =~= Seq::<Seq<Cell>>::empty());
    }
    while i < rows.len()
        invariant
            0 <= i <= rows@.len(),
            m == max_width(grid(rows@).take(i as int)),
        decreases rows@.len() - i,
    {
        proof {
            assert(grid(rows@).take(i + 1).drop_last() =~= grid(rows@).take(i as int));
        }
        if rows[i].len() > m {
            m = rows[i].len();
        }
        i = i + 1;
    }
    proof {
        assert(grid(rows@).take(rows@.len() as int) =~= grid(rows@));
    }
    m
}

/// A saved capture file into frames: every `#!capture` line starts a frame
/// (and resets the carried style); a file without one is a single frame
/// measured from its rows. A malformed header is an error, not a guess.
pub fn parse_frames(text: &str) -> (r: Result<Vec<Frame>, String>)
    ensures
        match r {
            Ok(fs) => capture_frames(text@) is Ok
                && fs@.len() == capture_frames(text@)->Ok_0.len()
                && forall|i: int| 0 <= i < fs@.len() ==> frame_is(#[trigger] fs@[i], capture_frames(text@)->Ok_0[i]),
            Err(e) => capture_frames(text@) == Err::<Seq<FrameData>, Seq<char>>(e@),
        },
{
    let t = chars_of(text);
    let lines = split_chars(t.as_slice(), &['\n']);
    proof {
        assert(seq!['\n'] =~= ['\n']@);
    }
    let groups = group_capture(&lines);
    let ghost gs = group_views(groups@);
    let mut frames: Vec<Frame> = Vec::new();
    let mut k: usize = 0;
    while k < groups.len()
        invariant
            gs == group_views(groups@),
            gs == frame_groups(text@),
            0 <= k <= groups@.len(),
            frames_upto(gs, k as int) is Ok,
            frames@.len() == frames_upto(gs, k as int)->Ok_0.len(),
            forall|i: int| 0 <= i < frames@.len() ==> frame_is(#[trigger] frames@[i], frames_upto(gs, k as int)->Ok_0[i]),
        decreases groups@.len() - k,
    {
        let (header, body) = &groups[k];
        let ghost g = gs[k as int];
        let fields = match header {
            Some(h) => read_header(h.as_slice()),
            None => Ok((0usize, 0usize, Vec::new(), Vec::new(), FrameRole::Capture)),
        };
        match fields {
            Err(e) => {
                proof {
                    assert(frames_upto(gs, k + 1) == Err::<Seq<FrameData>, Seq<char>>(e@));
                    lemma_frames_upto_err(gs, k + 1, gs.len() as int);
                }
                return Err(string_of(e.as_slice()));
            },
            Ok((w, h, tf, ct, role)) => {
                let n = body.len();
                let mut lines_here: Vec<Vec<char>> = Vec::new();
                let mut j: usize = 0;
                let keep = if n > 0 && body[n - 1].len() == 0 { n - 1 } else { n };
                while j < keep
                    invariant
                        keep <= body@.len(),
                        0 <= j <= keep,
                        views(lines_here@) == views(body@).take(j as int),
                    decreases keep - j,
                {
                    let copy = slice_to_vec(body[j].as_slice(), 0, body[j].len());
                    let ghost before = views(lines_here@);
                    lines_here.push(copy);
                    proof {
                        assert(copy@ =~= body@[j as int]@);
                        assert(views(lines_here@) =~= before.push(copy@));
                        assert(views(lines_here@) =~= views(body@).take(j + 1));
                    }
                    j = j + 1;
                }
                proof {
                    assert(views(lines_here@) =~= group_lines(views(body@)));
                }
                let mut style = Style::default();
                let rows = rows_from_lines(&lines_here, &mut style);
                proof {
                    lemma_rows_upto(views(lines_here@), lines_here@.len() as int, plain());
                }
                let width = if w == 0 { widest(&rows) } else { w };
                let height = if h == 0 { rows.len() } else { h };
                let frame = Frame {
                    width,
                    height,
                    termfeatures: string_of(tf.as_slice()),
                    colorterm: string_of(ct.as_slice()),
                    role,
                    rows,
                };
                let ghost before = frames@;
                frames.push(frame);
                proof {
                    assert(frames@ == before.push(frame));
                }
            },
        }
        k = k + 1;
    }
    Ok(frames)
}

proof fn lemma_header_upto_err(ps: Seq<Seq<char>>, k: int, n: int)
    requires
        0 <= k <= n,
        header_upto(ps, k) is Err,
    ensures
        header_upto(ps, n) == header_upto(ps, k),
    decreases n - k,
{
    if k < n {
        lemma_header_upto_err(ps, k, n - 1);
    }
}

proof fn lemma_frames_upto_err(gs: Seq<Group>, k: int, n: int)
    requires
        0 <= k <= n,
        frames_upto(gs, k) is Err,
    ensures
        frames_upto(gs, n) == frames_upto(gs, k),
    decreases n - k,
{
    if k < n {
        lemma_frames_upto_err(gs, k, n - 1);
    }
}

} // verus!
