//! Project checks that read the artifacts at a project's root: which
//! dependencies its manifests declare, what platform that evidence points
//! to, and whether `projectRoots` matches anything. Reading the files is
//! the caller's I/O; these functions decide from their text.

use vstd::prelude::*;

use crate::text::{
    all_digits, append_chars, append_str, chars_of, first_index, find_char_from, has_prefix, has_suffix,
    is_whitespace, lemma_index_from, slice_to_vec, split_by, split_chars, string_of, trim, trim_chars, trim_start,
    trim_start_chars, views, white_space, words, words_of, ends_with, matches_at, occurs_at, same_chars, starts_with,
};

verus! {

/// One check's finding about a project artifact.
#[derive(Debug, Clone)]
pub struct Finding {
    pub id: String,
    pub artifact: String,
    pub path: Option<String>,
    pub severity: String,
    pub summary: String,
    pub fix: String,
}

/// A finding as characters.
pub struct FindingView {
    pub id: Seq<char>,
    pub artifact: Seq<char>,
    pub path: Option<Seq<char>>,
    pub severity: Seq<char>,
    pub summary: Seq<char>,
    pub fix: Seq<char>,
}

/// An optional string as characters.
pub open spec fn opt_chars(s: Option<String>) -> Option<Seq<char>> {
    match s {
        Some(t) => Some(t@),
        None => None,
    }
}

impl View for Finding {
    type V = FindingView;

    open spec fn view(&self) -> FindingView {
        FindingView {
            id: self.id@,
            artifact: self.artifact@,
            path: opt_chars(self.path),
            severity: self.severity@,
            summary: self.summary@,
            fix: self.fix@,
        }
    }
}

/// A finding of check `id` about `artifact`.
pub fn finding(id: &str, artifact: &str, path: Option<String>, severity: &str, summary: String, fix: String) -> (f: Finding)
    ensures
        f@ == (FindingView {
            id: id@,
            artifact: artifact@,
            path: opt_chars(path),
            severity: severity@,
            summary: summary@,
            fix: fix@,
        }),
{
    let i = chars_of(id);
    let a = chars_of(artifact);
    let s = chars_of(severity);
    Finding {
        id: string_of(i.as_slice()),
        artifact: string_of(a.as_slice()),
        path,
        severity: string_of(s.as_slice()),
        summary,
        fix,
    }
}

// ─── Lines ──────────────────────────────────────────────────────────────────

/// `s` without one trailing carriage return.
pub open spec fn strip_cr(s: Seq<char>) -> Seq<char> {
    if s.len() > 0 && s.last() == '\r' {
        s.drop_last()
    } else {
        s
    }
}

/// `str::lines`: the text cut at each `\n`, a `\r` before the `\n` dropped,
/// and no empty line after a final newline.
pub open spec fn text_lines(s: Seq<char>) -> Seq<Seq<char>> {
    let p = split_by(s, seq!['\n']);
    let head = Seq::new((p.len() - 1) as nat, |i: int| strip_cr(p[i]));
    if p.last().len() > 0 {
        head.push(p.last())
    } else {
        head
    }
}

/// The lines of `s`, as `str::lines` cuts them.
pub fn lines_of_text(s: &[char]) -> (lines: Vec<Vec<char>>)
    ensures
        views(lines@) == text_lines(s@),
{
    let nl: Vec<char> = vec!['\n'];
    let p = split_chars(s, nl.as_slice());
    proof {
        assert(nl@ =~= seq!['\n']);
        crate::text::lemma_split_by_nonempty(s@, seq!['\n']);
    }
    let ghost ps = views(p@);
    let n = p.len();
    let mut out: Vec<Vec<char>> = Vec::new();
    let mut i: usize = 0;
    while i + 1 < n
        invariant
            ps == views(p@),
            ps == split_by(s@, seq!['\n']),
            n == p@.len(),
            n >= 1,
            0 <= i < n,
            views(out@) =~= Seq::new(i as nat, |k: int| strip_cr(ps[k])),
        decreases n - i,
    {
        let piece = &p[i];
        let m = piece.len();
        proof {
            assert(ps[i as int] == piece@);
        }
        let line = if m > 0 && piece[m - 1] == '\r' {
            slice_to_vec(piece.as_slice(), 0, m - 1)
        } else {
            slice_to_vec(piece.as_slice(), 0, m)
        };
        proof {
            assert(line@ =~= strip_cr(piece@));
        }
        let ghost before = views(out@);
        out.push(line);
        proof {
            assert(views(out@) =~= before.push(strip_cr(ps[i as int])));
        }
        i = i + 1;
    }
    let last = &p[n - 1];
    proof {
        assert(ps[n - 1] == last@);
        assert(ps.last() == last@);
    }
    if last.len() > 0 {
        let ghost before = views(out@);
        let whole = slice_to_vec(last.as_slice(), 0, last.len());
        proof {
            assert(whole@ =~= last@);
        }
        out.push(whole);
        proof {
            assert(views(out@) =~= before.push(last@));
            assert(views(out@) =~= text_lines(s@));
        }
    } else {
        proof {
            assert(views(out@) =~= text_lines(s@));
        }
    }
    out
}

/// `line` up to its first `#`.
pub open spec fn before_hash(line: Seq<char>) -> Seq<char> {
    match first_index(line, '#') {
        Some(i) => line.take(i),
        None => line,
    }
}

fn before_hash_chars(line: &Vec<char>) -> (r: Vec<char>)
    ensures
        r@ == before_hash(line@),
{
    proof {
        lemma_index_from(line@, '#', 0);
    }
    match find_char_from(line.as_slice(), '#', 0) {
        Some(i) => slice_to_vec(line.as_slice(), 0, i),
        None => slice_to_vec(line.as_slice(), 0, line.len()),
    }
}

// ─── Python requirements ────────────────────────────────────────────────────

/// `-`, `_` or `.`, the separators PEP 503 folds.
pub open spec fn name_separator(c: char) -> bool {
    c == '-' || c == '_' || c == '.'
}

/// ASCII uppercase to lowercase; everything else unchanged.
pub open spec fn ascii_lower(c: char) -> char {
    if 'A' <= c && c <= 'Z' {
        ((c as u32) + 32) as char
    } else {
        c
    }
}

/// PEP 503 name normalization: lowercase, each run of `-`, `_`, `.` becomes
/// one `-`.
pub open spec fn pep503(s: Seq<char>) -> Seq<char>
    decreases s.len(),
{
    if s.len() == 0 {
        Seq::empty()
    } else {
        let o = pep503(s.drop_last());
        let c = s.last();
        if name_separator(c) {
            if o.len() > 0 && o.last() == '-' {
                o
            } else {
                o.push('-')
            }
        } else {
            o.push(ascii_lower(c))
        }
    }
}

fn to_ascii_lower(c: char) -> (l: char)
    ensures
        l == ascii_lower(c),
{
    if 'A' <= c && c <= 'Z' {
        let u = c as u32;
        let b = u as u8;
        proof {
            assert(b as u32 == u) by (bit_vector)
                requires
                    u < 128u32,
                    b == u as u8,
            ;
        }
        ((b + 32) as char)
    } else {
        c
    }
}

/// PEP 503 name normalization: lowercase, each run of `-`, `_`, `.` becomes
/// one `-`.
pub fn pep503_normalize(name: &str) -> (out: String)
    ensures
        out@ == pep503(name@),
{
    let c = chars_of(name);
    let mut out: Vec<char> = Vec::new();
    let mut i: usize = 0;
    proof {
        assert(c@.take(0) =~= Seq::<char>::empty());
    }
    while i < c.len()
        invariant
            0 <= i <= c@.len(),
            out@ == pep503(c@.take(i as int)),
        decreases c@.len() - i,
    {
        proof {
            assert(c@.take(i + 1).drop_last() =~= c@.take(i as int));
        }
        let ch = c[i];
        if ch == '-' || ch == '_' || ch == '.' {
            let n = out.len();
            if !(n > 0 && out[n - 1] == '-') {
                out.push('-');
            }
        } else {
            out.push(to_ascii_lower(ch));
        }
        i = i + 1;
    }
    proof {
        assert(c@.take(c@.len() as int) =~= c@);
    }
    string_of(out.as_slice())
}

/// An ASCII letter or digit.
pub open spec fn ascii_alnum(c: char) -> bool {
    ('0' <= c && c <= '9') || ('a' <= c && c <= 'z') || ('A' <= c && c <= 'Z')
}

/// A character of a requirement's name.
pub open spec fn name_char(c: char) -> bool {
    ascii_alnum(c) || c == '.' || c == '_' || c == '-'
}

/// Where the name that starts at `i` ends.
pub open spec fn name_end(s: Seq<char>, i: int) -> int
    decreases s.len() - i,
{
    if i < 0 || i >= s.len() || !name_char(s[i]) {
        i
    } else {
        name_end(s, i + 1)
    }
}

/// What may follow a requirement's name: extras, a version, a marker, or a
/// URL (`=` also admits a Poetry key).
pub open spec fn tail_char(c: char) -> bool {
    c == '[' || c == '(' || c == '<' || c == '>' || c == '=' || c == '!' || c == '~' || c == ';' || c == '@'
}

/// A requirement names the package `name` (already normalized) when its
/// leading name run, PEP 503 normalized, equals it and a requirement tail
/// or nothing follows. Prose such as "Textual app for notes" fails the tail
/// check.
pub open spec fn requirement_names(spec: Seq<char>, name: Seq<char>) -> bool {
    let s = trim_start(spec);
    let e = name_end(s, 0);
    let t = trim_start(s.skip(e));
    &&& s.len() > 0
    &&& ascii_alnum(s[0])
    &&& pep503(s.take(e)) == name
    &&& t.len() == 0 || tail_char(t[0])
}

proof fn lemma_name_end(s: Seq<char>, i: int)
    requires
        0 <= i <= s.len(),
    ensures
        i <= name_end(s, i) <= s.len(),
    decreases s.len() - i,
{
    if i < s.len() && name_char(s[i]) {
        lemma_name_end(s, i + 1);
    }
}

fn is_ascii_alnum(c: char) -> (b: bool)
    ensures
        b == ascii_alnum(c),
{
    ('0' <= c && c <= '9') || ('a' <= c && c <= 'z') || ('A' <= c && c <= 'Z')
}

/// Does the requirement `spec` name the package `name`?
pub fn python_requirement_names(spec: &[char], name: &[char]) -> (b: bool)
    ensures
        b == requirement_names(spec@, name@),
{
    let s = trim_start_chars(spec);
    if s.len() == 0 || !is_ascii_alnum(s[0]) {
        return false;
    }
    let mut e: usize = 0;
    while e < s.len() && (is_ascii_alnum(s[e]) || s[e] == '.' || s[e] == '_' || s[e] == '-')
        invariant
            0 <= e <= s@.len(),
            name_end(s@, 0) == name_end(s@, e as int),
        decreases s@.len() - e,
    {
        e = e + 1;
    }
    let head = slice_to_vec(s.as_slice(), 0, e);
    let norm = pep503_normalize(string_of(head.as_slice()).as_str());
    let nv = chars_of(norm.as_str());
    proof {
        assert(head@ =~= s@.take(e as int));
    }
    if !same_chars(nv.as_slice(), name) {
        return false;
    }
    let rest = slice_to_vec(s.as_slice(), e, s.len());
    let t = trim_start_chars(rest.as_slice());
    proof {
        assert(rest@ =~= s@.skip(e as int));
    }
    t.len() == 0 || {
        let c = t[0];
        c == '[' || c == '(' || c == '<' || c == '>' || c == '=' || c == '!' || c == '~' || c == ';' || c == '@'
    }
}

/// The quoted strings of a line: every other piece between quotes.
pub open spec fn quoted_parts(line: Seq<char>) -> Seq<Seq<char>> {
    let p = split_by(line, seq!['"', '\'']);
    Seq::new((p.len() / 2) as nat, |k: int| p[2 * k + 1])
}

/// A requirements line (or a Poetry key) names `name`, itself or in one of
/// its quoted strings, once a `#` comment is dropped.
pub open spec fn python_line_names(line: Seq<char>, name: Seq<char>) -> bool {
    let l = before_hash(line);
    requirement_names(l, name) || exists|k: int| 0 <= k < quoted_parts(l).len() && requirement_names(#[trigger] quoted_parts(l)[k], name)
}

/// pyproject.toml and requirements.txt name the package `name`.
pub open spec fn python_names(text: Seq<char>, name: Seq<char>) -> bool {
    exists|i: int| 0 <= i < text_lines(text).len() && python_line_names(#[trigger] text_lines(text)[i], name)
}

fn python_line_names_exec(line: &Vec<char>, name: &[char]) -> (b: bool)
    ensures
        b == python_line_names(line@, name@),
{
    let l = before_hash_chars(line);
    if python_requirement_names(l.as_slice(), name) {
        return true;
    }
    let quotes: Vec<char> = vec!['"', '\''];
    let p = split_chars(l.as_slice(), quotes.as_slice());
    proof {
        assert(quotes@ =~= seq!['"', '\'']);
    }
    let ghost qs = quoted_parts(l@);
    let mut k: usize = 1;
    while k < p.len()
        invariant
            views(p@) == split_by(l@, seq!['"', '\'']),
            qs == quoted_parts(l@),
            l@ == before_hash(line@),
            !requirement_names(l@, name@),
            k % 2 == 1,
            1 <= k,
            forall|j: int| 0 <= j < (k - 1) / 2 && j < qs.len() ==> !requirement_names(#[trigger] qs[j], name@),
        decreases p@.len() - k,
    {
        proof {
            assert(views(p@)[k as int] == p@[k as int]@);
            assert(qs[(k - 1) / 2] == views(p@)[k as int]);
        }
        if python_requirement_names(p[k].as_slice(), name) {
            proof {
                assert(0 <= (k - 1) / 2 < qs.len());
                assert(requirement_names(qs[(k - 1) / 2], name@));
            }
            return true;
        }
        if p.len() - k < 2 {
            proof {
                assert forall|j: int| 0 <= j < qs.len() implies !requirement_names(#[trigger] qs[j], name@) by {
                    assert(j <= (k - 1) / 2);
                }
            }
            return false;
        }
        k = k + 2;
    }
    proof {
        assert forall|j: int| 0 <= j < qs.len() implies !requirement_names(#[trigger] qs[j], name@) by {
            assert(2 * j + 1 < p@.len());
        }
    }
    false
}

/// pyproject.toml and requirements.txt: after stripping a `#` comment, the
/// line itself and every quoted string on it are read as requirements.
pub fn python_names_dependency(text: &str, name: &str) -> (b: bool)
    ensures
        b == python_names(text@, name@),
{
    let t = chars_of(text);
    let n = chars_of(name);
    let lines = lines_of_text(t.as_slice());
    let ghost ls = text_lines(text@);
    let mut i: usize = 0;
    while i < lines.len()
        invariant
            views(lines@) == ls,
            ls == text_lines(text@),
            n@ == name@,
            0 <= i <= lines@.len(),
            forall|j: int| 0 <= j < i ==> !python_line_names(#[trigger] ls[j], name@),
        decreases lines@.len() - i,
    {
        proof {
            assert(ls[i as int] == lines@[i as int]@);
        }
        if python_line_names_exec(&lines[i], n.as_slice()) {
            return true;
        }
        i = i + 1;
    }
    false
}

// ─── Cargo.toml ─────────────────────────────────────────────────────────────

/// A Cargo.toml line naming the crate: a key (`ratatui = "0.29"`,
/// `ratatui.workspace = true`, `"ratatui" = ...`) or a table header ending
/// in `dependencies.ratatui]`. `#` comments are ignored.
pub open spec fn cargo_line_names(line: Seq<char>, name: Seq<char>) -> bool {
    let t = trim(before_hash(line));
    if t.len() > 0 && t[0] == '[' {
        has_suffix(t, "dependencies."@ + name + seq![']'])
    } else {
        let key = if t.len() > 0 && t[0] == '"' { t.drop_first() } else { t };
        let rest0 = key.skip(name.len() as int);
        let rest = if rest0.len() > 0 && rest0[0] == '"' { rest0.drop_first() } else { rest0 };
        has_prefix(key, name) && rest.len() > 0 && (white_space(rest[0]) || rest[0] == '=' || rest[0] == '.')
    }
}

pub open spec fn cargo_names(text: Seq<char>, name: Seq<char>) -> bool {
    exists|i: int| 0 <= i < text_lines(text).len() && cargo_line_names(#[trigger] text_lines(text)[i], name)
}

fn cargo_line_names_exec(line: &Vec<char>, name: &[char]) -> (b: bool)
    ensures
        b == cargo_line_names(line@, name@),
{
    let l = before_hash_chars(line);
    let t = trim_chars(l.as_slice());
    if t.len() > 0 && t[0] == '[' {
        let mut tail = chars_of("dependencies.");
        append_chars(&mut tail, name);
        tail.push(']');
        proof {
            assert(tail@ =~= "dependencies."@ + name@ + seq![']']);
        }
        return ends_with(t.as_slice(), tail.as_slice());
    }
    let key = if t.len() > 0 && t[0] == '"' {
        slice_to_vec(t.as_slice(), 1, t.len())
    } else {
        slice_to_vec(t.as_slice(), 0, t.len())
    };
    proof {
        assert(key@ =~= (if t@.len() > 0 && t@[0] == '"' { t@.drop_first() } else { t@ }));
    }
    if !starts_with(key.as_slice(), name) {
        return false;
    }
    let rest0 = slice_to_vec(key.as_slice(), name.len(), key.len());
    let rest = if rest0.len() > 0 && rest0[0] == '"' {
        slice_to_vec(rest0.as_slice(), 1, rest0.len())
    } else {
        slice_to_vec(rest0.as_slice(), 0, rest0.len())
    };
    proof {
        assert(rest0@ =~= key@.skip(name@.len() as int));
        assert(rest@ =~= (if rest0@.len() > 0 && rest0@[0] == '"' { rest0@.drop_first() } else { rest0@ }));
    }
    rest.len() > 0 && (is_whitespace(rest[0]) || rest[0] == '=' || rest[0] == '.')
}

/// Cargo.toml names the crate `name` as a dependency.
pub fn cargo_names_dependency(text: &str, name: &str) -> (b: bool)
    ensures
        b == cargo_names(text@, name@),
{
    let t = chars_of(text);
    let n = chars_of(name);
    let lines = lines_of_text(t.as_slice());
    let ghost ls = text_lines(text@);
    let mut i: usize = 0;
    while i < lines.len()
        invariant
            views(lines@) == ls,
            ls == text_lines(text@),
            n@ == name@,
            0 <= i <= lines@.len(),
            forall|j: int| 0 <= j < i ==> !cargo_line_names(#[trigger] ls[j], name@),
        decreases lines@.len() - i,
    {
        proof {
            assert(ls[i as int] == lines@[i as int]@);
        }
        if cargo_line_names_exec(&lines[i], n.as_slice()) {
            return true;
        }
        i = i + 1;
    }
    false
}

// ─── go.mod ─────────────────────────────────────────────────────────────────

/// The first position at or after `i` where `p` occurs in `s`.
pub open spec fn find_from(s: Seq<char>, p: Seq<char>, i: int) -> Option<int>
    decreases s.len() + 1 - i,
{
    if i < 0 || i + p.len() > s.len() {
        None
    } else if occurs_at(s, p, i) {
        Some(i)
    } else {
        find_from(s, p, i + 1)
    }
}

/// How many `"` begin `s[i..]`.
pub open spec fn lead_quotes(s: Seq<char>, i: int) -> nat
    decreases s.len() - i,
{
    if 0 <= i < s.len() && s[i] == '"' {
        1 + lead_quotes(s, i + 1)
    } else {
        0
    }
}

/// How many `"` end `s[..j]`.
pub open spec fn trail_quotes(s: Seq<char>, j: int) -> nat
    decreases j,
{
    if 0 < j <= s.len() && s[j - 1] == '"' {
        1 + trail_quotes(s, j - 1)
    } else {
        0
    }
}

/// `s` without its leading and trailing double quotes.
pub open spec fn trim_quotes(s: Seq<char>) -> Seq<char> {
    let a = lead_quotes(s, 0);
    if a >= s.len() {
        Seq::empty()
    } else {
        s.subrange(a as int, s.len() - trail_quotes(s, s.len() as int))
    }
}

/// A module path `<host><name>` or `<host><name>/v<digits>`.
pub open spec fn module_on_host(path: Seq<char>, host: Seq<char>, name: Seq<char>) -> bool {
    let rest = path.skip((host.len() + name.len()) as int);
    &&& has_prefix(path, host)
    &&& has_prefix(path.skip(host.len() as int), name)
    &&& rest.len() == 0 || (has_prefix(rest, "/v"@) && rest.len() > 2 && all_digits(rest.skip(2)))
}

/// A comment that marks a require entry indirect.
pub open spec fn indirect_comment(entry: Seq<char>) -> bool {
    match find_from(entry, "//"@, 0) {
        Some(i) => {
            let c = trim(entry.skip(i + 2));
            c == "indirect"@ || has_prefix(c, "indirect;"@)
        },
        None => false,
    }
}

/// One require entry, `<module path> <version> [// comment]`, names the
/// Charm module `name` on either Charm host and is not indirect.
pub open spec fn go_entry(entry: Seq<char>, name: Seq<char>) -> bool {
    let w = words(entry);
    let path = trim_quotes(if w.len() > 0 { w[0] } else { Seq::empty() });
    !indirect_comment(entry) && (module_on_host(path, "github.com/charmbracelet/"@, name) || module_on_host(
        path,
        "charm.land/"@,
        name,
    ))
}

/// Where a go.mod line's verb ends: at whitespace or `(`.
pub open spec fn verb_end(t: Seq<char>, i: int) -> int
    decreases t.len() - i,
{
    if i < 0 || i >= t.len() || white_space(t[i]) || t[i] == '(' {
        i
    } else {
        verb_end(t, i + 1)
    }
}

/// One line of go.mod: the block the next line is in (`None` outside a
/// block, `Some(true)` inside `require (`, `Some(false)` inside another),
/// and whether this line requires `name`.
pub open spec fn gomod_step(block: Option<bool>, line: Seq<char>, name: Seq<char>) -> (Option<bool>, bool) {
    let t = trim(line);
    match block {
        Some(in_require) => if t.len() > 0 && t[0] == ')' {
            (None, false)
        } else {
            (block, in_require && go_entry(t, name))
        },
        None => {
            let e = verb_end(t, 0);
            let verb = t.take(e);
            let rest = trim_start(t.skip(e));
            if rest.len() > 0 && rest[0] == '(' {
                (Some(verb == "require"@), false)
            } else {
                (None, verb == "require"@ && go_entry(rest, name))
            }
        },
    }
}

/// go.mod read through its first `k` lines.
pub open spec fn gomod_upto(lines: Seq<Seq<char>>, name: Seq<char>, k: int) -> (Option<bool>, bool)
    decreases k,
{
    if k <= 0 || k > lines.len() {
        (None, false)
    } else {
        let (block, found) = gomod_upto(lines, name, k - 1);
        let (next, here) = gomod_step(block, lines[k - 1], name);
        (next, found || here)
    }
}

/// go.mod requires the Charm module `name`: a single-line `require` or a
/// line of a `require (` block; nothing in another block counts, nor an
/// `// indirect` entry.
pub open spec fn gomod_requires(text: Seq<char>, name: Seq<char>) -> bool {
    gomod_upto(text_lines(text), name, text_lines(text).len() as int).1
}

fn find_sub(s: &[char], p: &[char]) -> (r: Option<usize>)
    ensures
        match r {
            Some(i) => find_from(s@, p@, 0) == Some(i as int) && i + p@.len() <= s@.len(),
            None => find_from(s@, p@, 0) is None,
        },
{
    if p.len() > s.len() {
        return None;
    }
    let last = s.len() - p.len();
    let mut i: usize = 0;
    while i <= last
        invariant
            last == s@.len() - p@.len(),
            i <= last,
            find_from(s@, p@, 0) == find_from(s@, p@, i as int),
        decreases last - i,
    {
        if matches_at(s, p, i) {
            return Some(i);
        }
        if i == last {
            proof {
                assert(find_from(s@, p@, i + 1) is None);
            }
            return None;
        }
        i = i + 1;
    }
    None
}

fn trim_quotes_chars(s: &[char]) -> (r: Vec<char>)
    ensures
        r@ == trim_quotes(s@),
{
    let n = s.len();
    let mut a: usize = 0;
    while a < n && s[a] == '"'
        invariant
            n == s@.len(),
            0 <= a <= n,
            lead_quotes(s@, 0) == a + lead_quotes(s@, a as int),
        decreases n - a,
    {
        a = a + 1;
    }
    if a >= n {
        proof {
            assert(lead_quotes(s@, a as int) == 0);
        }
        return Vec::new();
    }
    let mut b = n;
    while b > a && s[b - 1] == '"'
        invariant
            n == s@.len(),
            a < n,
            a <= b <= n,
            trail_quotes(s@, n as int) == (n - b) + trail_quotes(s@, b as int),
            forall|k: int| a <= k < n ==> (k >= b ==> s@[k] == '"'),
            s@[a as int] != '"',
        decreases b,
    {
        b = b - 1;
    }
    proof {
        assert(b > a);
        assert(trail_quotes(s@, b as int) == 0);
    }
    slice_to_vec(s, a, b)
}

fn module_on_host_exec(path: &[char], host: &str, name: &[char]) -> (b: bool)
    ensures
        b == module_on_host(path@, host@, name@),
{
    let h = chars_of(host);
    if !starts_with(path, h.as_slice()) {
        return false;
    }
    let after = slice_to_vec(path, h.len(), path.len());
    proof {
        assert(after@ =~= path@.skip(host@.len() as int));
    }
    if !starts_with(after.as_slice(), name) {
        return false;
    }
    let rest = slice_to_vec(after.as_slice(), name.len(), after.len());
    proof {
        assert(rest@ =~= path@.skip((host@.len() + name@.len()) as int));
    }
    if rest.len() == 0 {
        return true;
    }
    let v = chars_of("/v");
    if !starts_with(rest.as_slice(), v.as_slice()) || rest.len() <= 2 {
        return false;
    }
    let mut k: usize = 2;
    while k < rest.len()
        invariant
            rest@ == path@.skip((host@.len() + name@.len()) as int),
            has_prefix(path@, host@),
            has_prefix(path@.skip(host@.len() as int), name@),
            has_prefix(rest@, "/v"@),
            rest@.len() > 2,
            2 <= k <= rest@.len(),
            forall|j: int| 2 <= j < k ==> crate::text::is_digit(#[trigger] rest@[j]),
        decreases rest@.len() - k,
    {
        if !('0' <= rest[k] && rest[k] <= '9') {
            proof {
                assert(!crate::text::is_digit(rest@.skip(2)[k - 2]));
            }
            return false;
        }
        k = k + 1;
    }
    proof {
        assert forall|j: int| 0 <= j < rest@.skip(2).len() implies crate::text::is_digit(#[trigger] rest@.skip(2)[j]) by {
            assert(rest@.skip(2)[j] == rest@[j + 2]);
        }
    }
    true
}

/// Does the require entry name the Charm module `name`?
pub fn go_entry_names(entry: &[char], name: &[char]) -> (b: bool)
    ensures
        b == go_entry(entry@, name@),
{
    let slashes: Vec<char> = vec!['/', '/'];
    proof {
        reveal_strlit("//");
        assert(slashes@ =~= "//"@);
    }
    match find_sub(entry, slashes.as_slice()) {
        Some(i) => {
            let elen = entry.len();
            proof {
                assert(slashes@.len() == 2);
                assert(i + 2 <= elen);
            }
            let after = slice_to_vec(entry, i + 2, elen);
            let c = trim_chars(after.as_slice());
            let ind = chars_of("indirect");
            let ind_more = chars_of("indirect;");
            proof {
                assert(after@ =~= entry@.skip(i + 2));
            }
            if same_chars(c.as_slice(), ind.as_slice()) || starts_with(c.as_slice(), ind_more.as_slice()) {
                return false;
            }
        },
        None => {},
    }
    let w = words_of(entry);
    let first: Vec<char> = if w.len() > 0 {
        proof {
            assert(views(w@)[0] == w@[0]@);
        }
        slice_to_vec(w[0].as_slice(), 0, w[0].len())
    } else {
        Vec::new()
    };
    proof {
        assert(first@ =~= (if words(entry@).len() > 0 { words(entry@)[0] } else { Seq::<char>::empty() }));
    }
    let path = trim_quotes_chars(first.as_slice());
    module_on_host_exec(path.as_slice(), "github.com/charmbracelet/", name) || module_on_host_exec(
        path.as_slice(),
        "charm.land/",
        name,
    )
}

/// One go.mod line: see [`gomod_step`].
fn gomod_line(block: Option<bool>, line: &Vec<char>, name: &[char]) -> (r: (Option<bool>, bool))
    ensures
        r == gomod_step(block, line@, name@),
{
    let t = trim_chars(line.as_slice());
    match block {
        Some(in_require) => {
            if t.len() > 0 && t[0] == ')' {
                (None, false)
            } else {
                (block, in_require && go_entry_names(t.as_slice(), name))
            }
        },
        None => {
            let mut e: usize = 0;
            while e < t.len() && !(is_whitespace(t[e]) || t[e] == '(')
                invariant
                    0 <= e <= t@.len(),
                    verb_end(t@, 0) == verb_end(t@, e as int),
                decreases t@.len() - e,
            {
                e = e + 1;
            }
            let verb = slice_to_vec(t.as_slice(), 0, e);
            let after = slice_to_vec(t.as_slice(), e, t.len());
            let rest = trim_start_chars(after.as_slice());
            let require = chars_of("require");
            let is_require = same_chars(verb.as_slice(), require.as_slice());
            proof {
                assert(verb@ =~= t@.take(e as int));
                assert(after@ =~= t@.skip(e as int));
            }
            if rest.len() > 0 && rest[0] == '(' {
                (Some(is_require), false)
            } else {
                (None, is_require && go_entry_names(rest.as_slice(), name))
            }
        },
    }
}

/// Does go.mod require the Charm module `name`?
pub fn go_mod_requires(text: &str, name: &str) -> (b: bool)
    ensures
        b == gomod_requires(text@, name@),
{
    let t = chars_of(text);
    let n = chars_of(name);
    let lines = lines_of_text(t.as_slice());
    let ghost ls = text_lines(text@);
    let mut block: Option<bool> = None;
    let mut found = false;
    let mut i: usize = 0;
    while i < lines.len()
        invariant
            views(lines@) == ls,
            ls == text_lines(text@),
            n@ == name@,
            0 <= i <= lines@.len(),
            gomod_upto(ls, name@, i as int) == (block, found),
        decreases lines@.len() - i,
    {
        proof {
            assert(ls[i as int] == lines@[i as int]@);
        }
        let (next, here) = gomod_line(block, &lines[i], n.as_slice());
        block = next;
        found = found || here;
        i = i + 1;
    }
    found
}

/// Which parser reads a manifest: go.mod, Cargo.toml, or a Python one.
pub open spec fn manifest_names(manifest: Seq<char>, text: Seq<char>, name: Seq<char>) -> bool {
    if manifest == "go.mod"@ {
        gomod_requires(text, name)
    } else if manifest == "Cargo.toml"@ {
        cargo_names(text, name)
    } else {
        python_names(text, name)
    }
}

/// True when `manifest`'s text names the dependency `name`.
pub fn manifest_names_dependency(manifest: &str, text: &str, name: &str) -> (b: bool)
    ensures
        b == manifest_names(manifest@, text@, name@),
{
    let m = chars_of(manifest);
    let go = chars_of("go.mod");
    let cargo = chars_of("Cargo.toml");
    if same_chars(m.as_slice(), go.as_slice()) {
        go_mod_requires(text, name)
    } else if same_chars(m.as_slice(), cargo.as_slice()) {
        cargo_names_dependency(text, name)
    } else {
        python_names_dependency(text, name)
    }
}

// ─── Platform evidence ──────────────────────────────────────────────────────

/// Files at the project root whose presence is native-platform evidence.
pub const NATIVE_EVIDENCE_PATHS: [&'static str; 5] = [
    "pubspec.yaml",
    "ios/Podfile",
    "android/build.gradle",
    "android/build.gradle.kts",
    "ios/Runner.xcodeproj",
];

/// package.json dependencies that are platform evidence.
pub const NATIVE_EVIDENCE_DEPENDENCIES: [&'static str; 4] = ["react-native", "expo", "@react-native/metro-config", "ink"];

/// Text manifests at the project root whose dependency entries name a
/// terminal stack. Only the root manifest is read, so Cargo member crates
/// are not seen.
pub const TERMINAL_EVIDENCE_MANIFESTS: [&'static str; 4] = ["Cargo.toml", "go.mod", "pyproject.toml", "requirements.txt"];

/// The (platform, reason) each evidence file stands for, in
/// [`NATIVE_EVIDENCE_PATHS`] order.
pub open spec fn path_rows() -> Seq<(Seq<char>, Seq<char>)> {
    seq![
        ("adaptive"@, "a Flutter pubspec.yaml"@),
        ("ios"@, "an ios/Podfile"@),
        ("android"@, "an android/build.gradle"@),
        ("android"@, "an android/build.gradle.kts"@),
        ("ios"@, "an ios/Runner.xcodeproj"@),
    ]
}

/// The (platform, reason) each evidence dependency stands for, in
/// [`NATIVE_EVIDENCE_DEPENDENCIES`] order.
pub open spec fn dep_rows() -> Seq<(Seq<char>, Seq<char>)> {
    seq![
        ("adaptive"@, "a react-native dependency"@),
        ("adaptive"@, "an expo dependency"@),
        ("adaptive"@, "a React Native metro config dependency"@),
        ("terminal"@, "an ink dependency"@),
    ]
}

/// The terminal dependencies each manifest is searched for, as (index into
/// [`TERMINAL_EVIDENCE_MANIFESTS`], dependency, reason), manifest by
/// manifest. `rich` and `crossterm` are absent on purpose: web backends and
/// plain CLIs use both without a full-screen UI.
pub open spec fn manifest_rows() -> Seq<(int, Seq<char>, Seq<char>)> {
    seq![
        (0, "ratatui"@, "a ratatui dependency"@),
        (1, "bubbletea"@, "a bubbletea dependency"@),
        (1, "lipgloss"@, "a lipgloss dependency"@),
        (1, "bubbles"@, "a bubbles dependency"@),
        (2, "textual"@, "a textual dependency"@),
        (3, "textual"@, "a textual dependency"@),
    ]
}

pub open spec fn manifest_file(m: int) -> Seq<char> {
    if m == 0 {
        "Cargo.toml"@
    } else if m == 1 {
        "go.mod"@
    } else if m == 2 {
        "pyproject.toml"@
    } else {
        "requirements.txt"@
    }
}

/// The rows of `rows[..k]` whose flag is set.
pub open spec fn present_rows(rows: Seq<(Seq<char>, Seq<char>)>, present: Seq<bool>, k: int) -> Seq<(Seq<char>, Seq<char>)>
    decreases k,
{
    if k <= 0 {
        Seq::empty()
    } else {
        present_rows(rows, present, k - 1) + if present[k - 1] {
            seq![rows[k - 1]]
        } else {
            Seq::<(Seq<char>, Seq<char>)>::empty()
        }
    }
}

/// Some evidence already gives `reason`.
pub open spec fn has_reason(ev: Seq<(Seq<char>, Seq<char>)>, reason: Seq<char>) -> bool {
    exists|i: int| 0 <= i < ev.len() && (#[trigger] ev[i]).1 == reason
}

/// The evidence after the manifest rows before `k`: one reason per
/// dependency, even when two manifests (or two module hosts) name it.
pub open spec fn manifest_evidence(ev: Seq<(Seq<char>, Seq<char>)>, texts: Seq<Option<Seq<char>>>, k: int) -> Seq<(Seq<char>, Seq<char>)>
    decreases k,
{
    if k <= 0 {
        ev
    } else {
        let before = manifest_evidence(ev, texts, k - 1);
        let (m, dep, reason) = manifest_rows()[k - 1];
        match texts[m] {
            Some(t) => if manifest_names(manifest_file(m), t, dep) && !has_reason(before, reason) {
                before.push(("terminal"@, reason))
            } else {
                before
            },
            None => before,
        }
    }
}

/// Every piece of evidence, in the order it is found: files, package.json
/// dependencies, manifest dependencies.
pub open spec fn evidence_of(path_present: Seq<bool>, dep_present: Seq<bool>, texts: Seq<Option<Seq<char>>>) -> Seq<(Seq<char>, Seq<char>)> {
    manifest_evidence(present_rows(path_rows(), path_present, 5) + present_rows(dep_rows(), dep_present, 4), texts, 6)
}

/// The distinct platforms of `ev[..k]`, in order of appearance.
pub open spec fn platforms_upto(ev: Seq<(Seq<char>, Seq<char>)>, k: int) -> Seq<Seq<char>>
    decreases k,
{
    if k <= 0 {
        Seq::empty()
    } else {
        let ps = platforms_upto(ev, k - 1);
        if ps.contains(ev[k - 1].0) {
            ps
        } else {
            ps.push(ev[k - 1].0)
        }
    }
}

/// The platforms other than `terminal`, in order.
pub open spec fn mobile_of(ps: Seq<Seq<char>>) -> Seq<Seq<char>>
    decreases ps.len(),
{
    if ps.len() == 0 {
        Seq::empty()
    } else {
        mobile_of(ps.drop_last()) + if ps.last() != "terminal"@ {
            seq![ps.last()]
        } else {
            Seq::<Seq<char>>::empty()
        }
    }
}

/// Mobile evidence outranks terminal evidence: terminal is suggested only
/// when it is the only kind; two mobile platforms, or adaptive evidence,
/// suggest `adaptive`; else the one mobile platform.
pub open spec fn suggested_platform(mobile: Seq<Seq<char>>) -> Seq<char> {
    if mobile.len() == 0 {
        "terminal"@
    } else if mobile.len() > 1 || mobile.contains("adaptive"@) {
        "adaptive"@
    } else {
        mobile[0]
    }
}

/// `items` joined by `sep`.
pub open spec fn join(items: Seq<Seq<char>>, sep: Seq<char>) -> Seq<char>
    decreases items.len(),
{
    if items.len() == 0 {
        Seq::empty()
    } else if items.len() == 1 {
        items[0]
    } else {
        join(items.drop_last(), sep) + sep + items.last()
    }
}

/// What PRODUCT.md says about the platform.
pub open spec fn declared_text(platform: Option<Seq<char>>, product: Option<Seq<char>>) -> Seq<char> {
    if platform == Some("web"@) {
        "PRODUCT.md declares `## Platform: web`"@
    } else if product matches Some(p) && p.len() > 0 {
        "PRODUCT.md has no `## Platform` section, so the project resolves to web"@
    } else {
        "no PRODUCT.md declares a platform, so the project resolves to web"@
    }
}

/// PRODUCT.md declares a platform, and it is not web.
pub open spec fn declares_other_platform(platform: Option<Seq<char>>) -> bool {
    platform matches Some(p) && p.len() > 0 && p != "web"@
}

/// The finding about native or terminal evidence in a project PRODUCT.md
/// leaves on web, if there is any: nothing without a project root, for a
/// project that declares a platform other than web, or one that shows no
/// evidence.
pub open spec fn native_evidence_spec(
    project_root: Seq<char>,
    platform: Option<Seq<char>>,
    product: Option<Seq<char>>,
    product_path: Option<Seq<char>>,
    path_present: Seq<bool>,
    dep_present: Seq<bool>,
    texts: Seq<Option<Seq<char>>>,
) -> Seq<FindingView> {
    let ev = evidence_of(path_present, dep_present, texts);
    if project_root.len() == 0 || declares_other_platform(platform) || ev.len() == 0 {
        Seq::empty()
    } else {
        let suggested = suggested_platform(mobile_of(platforms_upto(ev, ev.len() as int)));
        let terminal = suggested == "terminal"@;
        let consequence = if terminal {
            "Web guidance is being applied to a terminal codebase, and the terminal reference never loads."@
        } else {
            "Web guidance is being applied to a native codebase, and the iOS and Android references never load."@
        };
        let reference = if terminal { "terminal"@ } else { "native"@ };
        let reasons = Seq::new(ev.len(), |i: int| ev[i].1);
        seq![
            FindingView {
                id: "platform-native-evidence"@,
                artifact: "PRODUCT.md"@,
                path: product_path,
                severity: "mention"@,
                summary: declared_text(platform, product) + ", but the project carries "@ + join(reasons, " and "@) + ". "@
                    + consequence,
                fix: "Ask the user whether `## Platform` should be `"@ + suggested
                    + "`. If it should, write the value and load the matching "@ + reference + " reference before designing."@,
            },
        ]
    }
}

/// A list of findings as values.
pub open spec fn findings_view(v: Seq<Finding>) -> Seq<FindingView> {
    Seq::new(v.len(), |i: int| v[i]@)
}

/// The manifest texts as characters.
pub open spec fn texts_view(texts: Seq<Option<String>>) -> Seq<Option<Seq<char>>> {
    Seq::new(texts.len(), |i: int| opt_chars(texts[i]))
}

/// The evidence as string pairs.
pub open spec fn pairs_view(v: Seq<(String, String)>) -> Seq<(Seq<char>, Seq<char>)> {
    Seq::new(v.len(), |i: int| (v[i].0@, v[i].1@))
}

fn push_pair(ev: &mut Vec<(String, String)>, platform: &str, reason: &str)
    ensures
        pairs_view(final(ev)@) == pairs_view(old(ev)@).push((platform@, reason@)),
{
    let p = chars_of(platform);
    let r = chars_of(reason);
    let ghost before = pairs_view(ev@);
    ev.push((string_of(p.as_slice()), string_of(r.as_slice())));
    proof {
        assert(pairs_view(ev@) =~= before.push((platform@, reason@)));
    }
}

/// The (platform, reason) of evidence file `i`.
fn path_row(i: usize) -> (r: (&'static str, &'static str))
    requires
        i < 5,
    ensures
        (r.0@, r.1@) == path_rows()[i as int],
{
    if i == 0 {
        ("adaptive", "a Flutter pubspec.yaml")
    } else if i == 1 {
        ("ios", "an ios/Podfile")
    } else if i == 2 {
        ("android", "an android/build.gradle")
    } else if i == 3 {
        ("android", "an android/build.gradle.kts")
    } else {
        ("ios", "an ios/Runner.xcodeproj")
    }
}

/// The (platform, reason) of evidence dependency `i`.
fn dep_row(i: usize) -> (r: (&'static str, &'static str))
    requires
        i < 4,
    ensures
        (r.0@, r.1@) == dep_rows()[i as int],
{
    if i == 0 {
        ("adaptive", "a react-native dependency")
    } else if i == 1 {
        ("adaptive", "an expo dependency")
    } else if i == 2 {
        ("adaptive", "a React Native metro config dependency")
    } else {
        ("terminal", "an ink dependency")
    }
}

/// Manifest row `k`: (manifest index, manifest file, dependency, reason).
fn manifest_row(k: usize) -> (r: (usize, &'static str, &'static str, &'static str))
    requires
        k < 6,
    ensures
        r.0 < 4,
        (r.0 as int, r.2@, r.3@) == manifest_rows()[k as int],
        r.1@ == manifest_file(r.0 as int),
{
    if k == 0 {
        (0, "Cargo.toml", "ratatui", "a ratatui dependency")
    } else if k == 1 {
        (1, "go.mod", "bubbletea", "a bubbletea dependency")
    } else if k == 2 {
        (1, "go.mod", "lipgloss", "a lipgloss dependency")
    } else if k == 3 {
        (1, "go.mod", "bubbles", "a bubbles dependency")
    } else if k == 4 {
        (2, "pyproject.toml", "textual", "a textual dependency")
    } else {
        (3, "requirements.txt", "textual", "a textual dependency")
    }
}

/// Does some evidence already give `reason`?
fn reason_listed(ev: &Vec<(String, String)>, reason: &str) -> (b: bool)
    ensures
        b == has_reason(pairs_view(ev@), reason@),
{
    let r = chars_of(reason);
    let mut i: usize = 0;
    while i < ev.len()
        invariant
            r@ == reason@,
            0 <= i <= ev@.len(),
            forall|j: int| 0 <= j < i ==> (#[trigger] pairs_view(ev@)[j]).1 != reason@,
        decreases ev@.len() - i,
    {
        let e = chars_of(ev[i].1.as_str());
        if same_chars(e.as_slice(), r.as_slice()) {
            proof {
                assert(pairs_view(ev@)[i as int].1 == reason@);
            }
            return true;
        }
        i = i + 1;
    }
    false
}

/// Every piece of evidence: see [`evidence_of`].
fn collect_evidence(path_present: &[bool], dep_present: &[bool], manifest_texts: &[Option<String>]) -> (ev: Vec<(String, String)>)
    requires
        path_present@.len() == 5,
        dep_present@.len() == 4,
        manifest_texts@.len() == 4,
    ensures
        pairs_view(ev@) == evidence_of(path_present@, dep_present@, texts_view(manifest_texts@)),
{
    let mut ev: Vec<(String, String)> = Vec::new();
    let mut i: usize = 0;
    proof {
        assert(pairs_view(ev@) =~= present_rows(path_rows(), path_present@, 0));
    }
    while i < 5
        invariant
            path_present@.len() == 5,
            0 <= i <= 5,
            pairs_view(ev@) == present_rows(path_rows(), path_present@, i as int),
        decreases 5 - i,
    {
        if path_present[i] {
            let (p, r) = path_row(i);
            push_pair(&mut ev, p, r);
        }
        proof {
            assert(pairs_view(ev@) =~= present_rows(path_rows(), path_present@, i + 1));
        }
        i = i + 1;
    }
    let ghost files = pairs_view(ev@);
    let mut j: usize = 0;
    proof {
        assert(pairs_view(ev@) =~= files + present_rows(dep_rows(), dep_present@, 0));
    }
    while j < 4
        invariant
            dep_present@.len() == 4,
            files == present_rows(path_rows(), path_present@, 5),
            0 <= j <= 4,
            pairs_view(ev@) == files + present_rows(dep_rows(), dep_present@, j as int),
        decreases 4 - j,
    {
        if dep_present[j] {
            let (p, r) = dep_row(j);
            push_pair(&mut ev, p, r);
        }
        proof {
            assert(pairs_view(ev@) =~= files + present_rows(dep_rows(), dep_present@, j + 1));
        }
        j = j + 1;
    }
    let ghost base = pairs_view(ev@);
    let ghost texts = texts_view(manifest_texts@);
    let mut k: usize = 0;
    while k < 6
        invariant
            manifest_texts@.len() == 4,
            texts == texts_view(manifest_texts@),
            base == present_rows(path_rows(), path_present@, 5) + present_rows(dep_rows(), dep_present@, 4),
            0 <= k <= 6,
            pairs_view(ev@) == manifest_evidence(base, texts, k as int),
        decreases 6 - k,
    {
        let (m, file, dep, reason) = manifest_row(k);
        match &manifest_texts[m] {
            Some(t) => {
                proof {
                    assert(texts[m as int] == Some(t@));
                }
                if manifest_names_dependency(file, t.as_str(), dep) && !reason_listed(&ev, reason) {
                    push_pair(&mut ev, "terminal", reason);
                }
            },
            None => {},
        }
        k = k + 1;
    }
    ev
}

/// Is `p` among `ps`?
fn has_str(ps: &Vec<String>, p: &str) -> (b: bool)
    ensures
        b == crate::tmux::strings_view(ps@).contains(p@),
{
    let c = chars_of(p);
    let mut i: usize = 0;
    while i < ps.len()
        invariant
            c@ == p@,
            0 <= i <= ps@.len(),
            forall|j: int| 0 <= j < i ==> crate::tmux::strings_view(ps@)[j] != p@,
        decreases ps@.len() - i,
    {
        let e = chars_of(ps[i].as_str());
        if same_chars(e.as_slice(), c.as_slice()) {
            proof {
                assert(crate::tmux::strings_view(ps@)[i as int] == p@);
            }
            return true;
        }
        i = i + 1;
    }
    false
}

/// The platform the evidence suggests: see [`suggested_platform`].
fn suggest(ev: &Vec<(String, String)>) -> (s: String)
    ensures
        s@ == suggested_platform(mobile_of(platforms_upto(pairs_view(ev@), ev@.len() as int))),
{
    let ghost pv = pairs_view(ev@);
    let mut ps: Vec<String> = Vec::new();
    let mut i: usize = 0;
    while i < ev.len()
        invariant
            pv == pairs_view(ev@),
            0 <= i <= ev@.len(),
            crate::tmux::strings_view(ps@) == platforms_upto(pv, i as int),
        decreases ev@.len() - i,
    {
        let p = ev[i].0.as_str();
        if !has_str(&ps, p) {
            let ghost before = crate::tmux::strings_view(ps@);
            let c = chars_of(p);
            ps.push(string_of(c.as_slice()));
            proof {
                assert(crate::tmux::strings_view(ps@) =~= before.push(p@));
            }
        }
        i = i + 1;
    }
    let ghost all = crate::tmux::strings_view(ps@);
    let mut mobile: Vec<String> = Vec::new();
    let mut k: usize = 0;
    proof {
        assert(all.take(0) =~= Seq::<Seq<char>>::empty());
    }
    while k < ps.len()
        invariant
            all == crate::tmux::strings_view(ps@),
            0 <= k <= ps@.len(),
            crate::tmux::strings_view(mobile@) == mobile_of(all.take(k as int)),
        decreases ps@.len() - k,
    {
        proof {
            assert(all.take(k + 1).drop_last() =~= all.take(k as int));
        }
        if !is_str_exec(ps[k].as_str(), "terminal") {
            let ghost before = crate::tmux::strings_view(mobile@);
            let c = chars_of(ps[k].as_str());
            mobile.push(string_of(c.as_slice()));
            proof {
                assert(crate::tmux::strings_view(mobile@) =~= before.push(all[k as int]));
            }
        }
        k = k + 1;
    }
    proof {
        assert(all.take(ps@.len() as int) =~= all);
    }
    if mobile.len() == 0 {
        string_of(chars_of("terminal").as_slice())
    } else if mobile.len() > 1 || has_str(&mobile, "adaptive") {
        string_of(chars_of("adaptive").as_slice())
    } else {
        let c = chars_of(mobile[0].as_str());
        proof {
            assert(crate::tmux::strings_view(mobile@)[0] == mobile@[0]@);
        }
        string_of(c.as_slice())
    }
}

fn is_str_exec(s: &str, lit: &str) -> (b: bool)
    ensures
        b == (s@ == lit@),
{
    let a = chars_of(s);
    let b = chars_of(lit);
    same_chars(a.as_slice(), b.as_slice())
}

/// The evidence reasons joined by " and ".
fn join_reasons(ev: &Vec<(String, String)>) -> (s: Vec<char>)
    ensures
        s@ == join(Seq::new(ev@.len(), |i: int| pairs_view(ev@)[i].1), " and "@),
{
    let ghost rs = Seq::new(ev@.len(), |i: int| pairs_view(ev@)[i].1);
    let mut out: Vec<char> = Vec::new();
    let mut i: usize = 0;
    proof {
        assert(rs.take(0) =~= Seq::<Seq<char>>::empty());
    }
    while i < ev.len()
        invariant
            rs == Seq::new(ev@.len(), |i: int| pairs_view(ev@)[i].1),
            0 <= i <= ev@.len(),
            out@ == join(rs.take(i as int), " and "@),
        decreases ev@.len() - i,
    {
        proof {
            assert(rs.take(i + 1).drop_last() =~= rs.take(i as int));
            assert(rs[i as int] == ev@[i as int].1@);
        }
        if i > 0 {
            append_str(&mut out, " and ");
        }
        append_str(&mut out, ev[i].1.as_str());
        i = i + 1;
    }
    proof {
        assert(rs.take(ev@.len() as int) =~= rs);
    }
    out
}

// ─── Laws of the platform evidence ─────────────────────────────────────────

/// No reason of `ev` is given twice.
pub open spec fn reasons_once(ev: Seq<(Seq<char>, Seq<char>)>) -> bool {
    forall|i: int, j: int| 0 <= i < j < ev.len() ==> (#[trigger] ev[i]).1 != (#[trigger] ev[j]).1
}

/// `x` gives the reason of one of `rows[..k]`.
pub open spec fn reason_among(x: (Seq<char>, Seq<char>), rows: Seq<(Seq<char>, Seq<char>)>, k: int) -> bool {
    exists|j: int| 0 <= j < k && x.1 == (#[trigger] rows[j]).1
}

proof fn lemma_present_rows(rows: Seq<(Seq<char>, Seq<char>)>, present: Seq<bool>, k: int)
    requires
        0 <= k <= rows.len(),
        reasons_once(rows),
    ensures
        reasons_once(present_rows(rows, present, k)),
        forall|x: int|
            0 <= x < present_rows(rows, present, k).len() ==> reason_among(#[trigger] present_rows(rows, present, k)[x], rows, k),
    decreases k,
{
    if k > 0 {
        lemma_present_rows(rows, present, k - 1);
        let before = present_rows(rows, present, k - 1);
        let now = present_rows(rows, present, k);
        assert forall|x: int| 0 <= x < now.len() implies reason_among(#[trigger] now[x], rows, k) by {
            if x < before.len() {
                assert(now[x] == before[x]);
                assert(reason_among(before[x], rows, k - 1));
                let j = choose|j: int| 0 <= j < k - 1 && before[x].1 == (#[trigger] rows[j]).1;
                assert(0 <= j < k && now[x].1 == rows[j].1);
            } else {
                assert(now[x] == rows[k - 1]);
                assert(0 <= k - 1 < k && now[x].1 == rows[k - 1].1);
            }
        }
        assert forall|i: int, j: int| 0 <= i < j < now.len() implies (#[trigger] now[i]).1 != (#[trigger] now[j]).1 by {
            if j < before.len() {
                assert(now[i] == before[i] && now[j] == before[j]);
            } else {
                assert(now[j] == rows[k - 1]);
                assert(now[i] == before[i]);
                assert(reason_among(before[i], rows, k - 1));
                let a = choose|a: int| 0 <= a < k - 1 && before[i].1 == (#[trigger] rows[a]).1;
                assert(rows[a].1 != rows[k - 1].1);
            }
        }
    }
}

proof fn lemma_manifest_evidence_once(ev: Seq<(Seq<char>, Seq<char>)>, texts: Seq<Option<Seq<char>>>, k: int)
    requires
        0 <= k <= 6,
        reasons_once(ev),
    ensures
        reasons_once(manifest_evidence(ev, texts, k)),
    decreases k,
{
    if k > 0 {
        lemma_manifest_evidence_once(ev, texts, k - 1);
        let before = manifest_evidence(ev, texts, k - 1);
        let (m, dep, reason) = manifest_rows()[k - 1];
        let now = manifest_evidence(ev, texts, k);
        if now.len() > before.len() {
            assert(now == before.push(("terminal"@, reason)));
            assert(!has_reason(before, reason));
            assert forall|i: int, j: int| 0 <= i < j < now.len() implies (#[trigger] now[i]).1 != (#[trigger] now[j]).1 by {
                assert(now[i] == before[i]);
                if j < before.len() {
                    assert(now[j] == before[j]);
                } else {
                    assert(now[j].1 == reason);
                    assert(before[i].1 != reason);
                }
            }
        }
    }
}

proof fn lemma_evidence_rows_distinct()
    ensures
        reasons_once(path_rows()),
        reasons_once(dep_rows()),
        forall|a: int, b: int| 0 <= a < 5 && 0 <= b < 4 ==> (#[trigger] path_rows()[a]).1 != (#[trigger] dep_rows()[b]).1,
{
    reveal_strlit("a Flutter pubspec.yaml");
    reveal_strlit("an ios/Podfile");
    reveal_strlit("an android/build.gradle");
    reveal_strlit("an android/build.gradle.kts");
    reveal_strlit("an ios/Runner.xcodeproj");
    reveal_strlit("a react-native dependency");
    reveal_strlit("an expo dependency");
    reveal_strlit("a React Native metro config dependency");
    reveal_strlit("an ink dependency");
    let p = path_rows();
    let d = dep_rows();
    assert(p[2].1[3] != p[4].1[3]);
    assert forall|i: int, j: int| 0 <= i < j < p.len() implies (#[trigger] p[i]).1 != (#[trigger] p[j]).1 by {
        if i == 2 && j == 4 {
            assert(p[i].1[3] != p[j].1[3]);
        } else {
            assert(p[i].1.len() != p[j].1.len());
        }
    }
    assert forall|i: int, j: int| 0 <= i < j < d.len() implies (#[trigger] d[i]).1 != (#[trigger] d[j]).1 by {
        assert(d[i].1.len() != d[j].1.len());
    }
    assert forall|a: int, b: int| 0 <= a < 5 && 0 <= b < 4 implies (#[trigger] p[a]).1 != (#[trigger] d[b]).1 by {
        assert(p[a].1.len() != d[b].1.len());
    }
}

/// Each reason is listed once: a dependency that two manifests (or two
/// module hosts) name is one piece of evidence, and no two evidence files
/// or package.json dependencies share a reason.
pub proof fn law_each_reason_listed_once(path_present: Seq<bool>, dep_present: Seq<bool>, texts: Seq<Option<Seq<char>>>)
    ensures
        reasons_once(evidence_of(path_present, dep_present, texts)),
{
    lemma_evidence_rows_distinct();
    lemma_present_rows(path_rows(), path_present, 5);
    lemma_present_rows(dep_rows(), dep_present, 4);
    let a = present_rows(path_rows(), path_present, 5);
    let b = present_rows(dep_rows(), dep_present, 4);
    let ev = a + b;
    assert forall|i: int, j: int| 0 <= i < j < ev.len() implies (#[trigger] ev[i]).1 != (#[trigger] ev[j]).1 by {
        if j < a.len() {
            assert(ev[i] == a[i] && ev[j] == a[j]);
        } else if i >= a.len() {
            assert(ev[i] == b[i - a.len()] && ev[j] == b[j - a.len()]);
        } else {
            assert(ev[i] == a[i]);
            assert(ev[j] == b[j - a.len()]);
            assert(0 <= i < a.len());
            assert(0 <= j - a.len() < b.len());
            assert(reason_among(a[i], path_rows(), 5));
            assert(reason_among(b[j - a.len()], dep_rows(), 4));
            let x = choose|x: int| 0 <= x < 5 && a[i].1 == (#[trigger] path_rows()[x]).1;
            let y = choose|y: int| 0 <= y < 4 && b[j - a.len()].1 == (#[trigger] dep_rows()[y]).1;
            assert(path_rows()[x].1 != dep_rows()[y].1);
        }
    }
    lemma_manifest_evidence_once(ev, texts, 6);
}

proof fn lemma_platforms_upto(ev: Seq<(Seq<char>, Seq<char>)>, k: int)
    requires
        0 <= k <= ev.len(),
    ensures
        forall|p: Seq<char>| #[trigger] platforms_upto(ev, k).contains(p) <==> exists|i: int| 0 <= i < k && (#[trigger] ev[i]).0 == p,
    decreases k,
{
    if k > 0 {
        lemma_platforms_upto(ev, k - 1);
        let ps = platforms_upto(ev, k - 1);
        assert forall|p: Seq<char>| #[trigger] platforms_upto(ev, k).contains(p) <==> exists|i: int|
            0 <= i < k && (#[trigger] ev[i]).0 == p by {
            if ps.contains(ev[k - 1].0) {
                if exists|i: int| 0 <= i < k && (#[trigger] ev[i]).0 == p {
                    let i = choose|i: int| 0 <= i < k && (#[trigger] ev[i]).0 == p;
                    if i < k - 1 {
                        assert(ps.contains(p));
                    }
                }
            } else {
                let now = ps.push(ev[k - 1].0);
                if now.contains(p) {
                    let x = choose|x: int| 0 <= x < now.len() && now[x] == p;
                    if x < ps.len() {
                        assert(ps.contains(p));
                        let i = choose|i: int| 0 <= i < k - 1 && (#[trigger] ev[i]).0 == p;
                        assert(0 <= i < k && ev[i].0 == p);
                    } else {
                        assert(ev[k - 1].0 == p);
                    }
                }
                if exists|i: int| 0 <= i < k && (#[trigger] ev[i]).0 == p {
                    let i = choose|i: int| 0 <= i < k && (#[trigger] ev[i]).0 == p;
                    if i < k - 1 {
                        assert(ps.contains(p));
                        let x = choose|x: int| 0 <= x < ps.len() && ps[x] == p;
                        assert(now[x] == p);
                    } else {
                        assert(now[now.len() - 1] == p);
                    }
                }
            }
        }
    }
}

proof fn lemma_mobile_of(ps: Seq<Seq<char>>)
    ensures
        forall|q: Seq<char>| #[trigger] mobile_of(ps).contains(q) <==> ps.contains(q) && q != "terminal"@,
    decreases ps.len(),
{
    if ps.len() > 0 {
        lemma_mobile_of(ps.drop_last());
        let rest = mobile_of(ps.drop_last());
        let tail = if ps.last() != "terminal"@ {
            seq![ps.last()]
        } else {
            Seq::<Seq<char>>::empty()
        };
        assert(mobile_of(ps) == rest + tail);
        assert forall|q: Seq<char>| #[trigger] mobile_of(ps).contains(q) <==> ps.contains(q) && q != "terminal"@ by {
            let m = rest + tail;
            if m.contains(q) {
                let x = choose|x: int| 0 <= x < m.len() && m[x] == q;
                if x < rest.len() {
                    assert(rest[x] == q);
                    assert(rest.contains(q));
                    let y = choose|y: int| 0 <= y < ps.drop_last().len() && ps.drop_last()[y] == q;
                    assert(ps[y] == q);
                } else {
                    assert(q == ps.last());
                    assert(ps[ps.len() - 1] == q);
                }
            }
            if ps.contains(q) && q != "terminal"@ {
                let y = choose|y: int| 0 <= y < ps.len() && ps[y] == q;
                if y < ps.len() - 1 {
                    assert(ps.drop_last()[y] == q);
                    assert(rest.contains(q));
                    let x = choose|x: int| 0 <= x < rest.len() && rest[x] == q;
                    assert(m[x] == q);
                } else {
                    assert(m[rest.len() as int] == q);
                }
            }
        }
    }
}

/// Mobile evidence outranks terminal evidence: `terminal` is suggested
/// exactly when every piece of evidence points to it.
pub proof fn law_terminal_only_when_alone(ev: Seq<(Seq<char>, Seq<char>)>)
    ensures
        suggested_platform(mobile_of(platforms_upto(ev, ev.len() as int))) == "terminal"@ <==> forall|i: int|
            0 <= i < ev.len() ==> (#[trigger] ev[i]).0 == "terminal"@,
{
    reveal_strlit("adaptive");
    reveal_strlit("terminal");
    let ps = platforms_upto(ev, ev.len() as int);
    let m = mobile_of(ps);
    lemma_platforms_upto(ev, ev.len() as int);
    lemma_mobile_of(ps);
    assert("adaptive"@[0] != "terminal"@[0]);
    if m.len() > 0 {
        assert(m.contains(m[0]));
        assert(m[0] != "terminal"@);
        assert(ps.contains(m[0]));
        let i = choose|i: int| 0 <= i < ev.len() && (#[trigger] ev[i]).0 == m[0];
        assert(ev[i].0 != "terminal"@);
    } else {
        assert forall|i: int| 0 <= i < ev.len() implies (#[trigger] ev[i]).0 == "terminal"@ by {
            assert(ps.contains(ev[i].0));
            if ev[i].0 != "terminal"@ {
                assert(m.contains(ev[i].0));
            }
        }
    }
}

/// A project that declares a platform other than web is not checked, nor
/// is one without a root: whatever its files hold, there is no finding.
pub proof fn law_declared_platform_skips_the_check(
    project_root: Seq<char>,
    platform: Option<Seq<char>>,
    product: Option<Seq<char>>,
    product_path: Option<Seq<char>>,
    path_present: Seq<bool>,
    dep_present: Seq<bool>,
    texts: Seq<Option<Seq<char>>>,
)
    requires
        project_root.len() == 0 || declares_other_platform(platform),
    ensures
        native_evidence_spec(project_root, platform, product, product_path, path_present, dep_present, texts)
            == Seq::<FindingView>::empty(),
{
}

/// A web project with a root gets exactly one finding when it shows any
/// evidence, and none otherwise; the finding's fix names `terminal` only
/// when every piece of evidence is terminal.
pub proof fn law_one_finding_for_any_evidence(
    project_root: Seq<char>,
    platform: Option<Seq<char>>,
    product: Option<Seq<char>>,
    product_path: Option<Seq<char>>,
    path_present: Seq<bool>,
    dep_present: Seq<bool>,
    texts: Seq<Option<Seq<char>>>,
)
    requires
        project_root.len() > 0,
        !declares_other_platform(platform),
    ensures
        native_evidence_spec(project_root, platform, product, product_path, path_present, dep_present, texts).len() == if evidence_of(
            path_present,
            dep_present,
            texts,
        ).len() == 0 {
            0int
        } else {
            1int
        },
        ({
            let ev = evidence_of(path_present, dep_present, texts);
            ev.len() > 0 ==> (suggested_platform(mobile_of(platforms_upto(ev, ev.len() as int))) == "terminal"@ <==> forall|i: int|
                0 <= i < ev.len() ==> (#[trigger] ev[i]).0 == "terminal"@)
        }),
{
    let ev = evidence_of(path_present, dep_present, texts);
    law_terminal_only_when_alone(ev);
}

/// The platform-evidence finding, given what the project root holds: which
/// evidence files exist (in [`NATIVE_EVIDENCE_PATHS`] order), which
/// evidence dependencies package.json declares truthily (in
/// [`NATIVE_EVIDENCE_DEPENDENCIES`] order), and the text of each manifest
/// that could be read (in [`TERMINAL_EVIDENCE_MANIFESTS`] order).
pub fn native_platform_evidence(
    project_root: &str,
    platform: Option<&str>,
    product: Option<&str>,
    product_path: Option<&str>,
    path_present: &[bool; 5],
    dep_present: &[bool; 4],
    manifest_texts: &[Option<String>; 4],
) -> (out: Vec<Finding>)
    ensures
        findings_view(out@) == native_evidence_spec(
            project_root@,
            crate::tmux::opt_view(platform),
            crate::tmux::opt_view(product),
            crate::tmux::opt_view(product_path),
            path_present@,
            dep_present@,
            texts_view(manifest_texts@),
        ),
{
    if project_root.unicode_len() == 0 {
        proof {
            assert(findings_view(Seq::<Finding>::empty()) =~= Seq::<FindingView>::empty());
        }
        return Vec::new();
    }
    match platform {
        Some(p) => {
            if p.unicode_len() > 0 && !is_str_exec(p, "web") {
                proof {
                    assert(findings_view(Seq::<Finding>::empty()) =~= Seq::<FindingView>::empty());
                }
                return Vec::new();
            }
        },
        None => {},
    }
    let ev = collect_evidence(path_present.as_slice(), dep_present.as_slice(), manifest_texts.as_slice());
    if ev.len() == 0 {
        proof {
            assert(findings_view(Seq::<Finding>::empty()) =~= Seq::<FindingView>::empty());
        }
        return Vec::new();
    }
    let suggested = suggest(&ev);
    let terminal = is_str_exec(suggested.as_str(), "terminal");
    let consequence = if terminal {
        "Web guidance is being applied to a terminal codebase, and the terminal reference never loads."
    } else {
        "Web guidance is being applied to a native codebase, and the iOS and Android references never load."
    };
    let reference = if terminal { "terminal" } else { "native" };
    let web = match platform {
        Some(p) => is_str_exec(p, "web"),
        None => false,
    };
    let has_product = match product {
        Some(p) => p.unicode_len() > 0,
        None => false,
    };
    let declared = if web {
        "PRODUCT.md declares `## Platform: web`"
    } else if has_product {
        "PRODUCT.md has no `## Platform` section, so the project resolves to web"
    } else {
        "no PRODUCT.md declares a platform, so the project resolves to web"
    };
    proof {
        assert(declared@ == declared_text(crate::tmux::opt_view(platform), crate::tmux::opt_view(product)));
    }
    let mut summary = chars_of(declared);
    append_str(&mut summary, ", but the project carries ");
    let reasons = join_reasons(&ev);
    append_chars(&mut summary, reasons.as_slice());
    append_str(&mut summary, ". ");
    append_str(&mut summary, consequence);
    let mut fix = chars_of("Ask the user whether `## Platform` should be `");
    append_str(&mut fix, suggested.as_str());
    append_str(&mut fix, "`. If it should, write the value and load the matching ");
    append_str(&mut fix, reference);
    append_str(&mut fix, " reference before designing.");
    let path = match product_path {
        Some(p) => Some(string_of(chars_of(p).as_slice())),
        None => None,
    };
    let f = finding(
        "platform-native-evidence",
        "PRODUCT.md",
        path,
        "mention",
        string_of(summary.as_slice()),
        string_of(fix.as_slice()),
    );
    let mut out: Vec<Finding> = Vec::new();
    out.push(f);
    proof {
        assert(findings_view(out@) =~= native_evidence_spec(
            project_root@,
            crate::tmux::opt_view(platform),
            crate::tmux::opt_view(product),
            crate::tmux::opt_view(product_path),
            path_present@,
            dep_present@,
            texts_view(manifest_texts@),
        ));
    }
    out
}

// ─── projectRoots ───────────────────────────────────────────────────────────

/// JavaScript's white space and line terminators, what `String.prototype
/// .trim` removes.
pub open spec fn js_space(c: char) -> bool {
    let u = c as u32;
    u == 0x09 || u == 0x0A || u == 0x0B || u == 0x0C || u == 0x0D || u == 0x20 || u == 0xA0 || u == 0x1680 || (0x2000
        <= u && u <= 0x200A) || u == 0x2028 || u == 0x2029 || u == 0x202F || u == 0x205F || u == 0x3000 || u == 0xFEFF
}

/// The first character of `s[i..]` that JavaScript's trim keeps.
pub open spec fn js_first_kept(s: Seq<char>, i: int) -> Option<char>
    decreases s.len() - i,
{
    if i < 0 || i >= s.len() {
        None
    } else if js_space(s[i]) {
        js_first_kept(s, i + 1)
    } else {
        Some(s[i])
    }
}

/// A positive `projectRoots` pattern: not empty, and not a `!` exclusion
/// once JavaScript's trim is applied.
pub open spec fn positive_pattern(p: Seq<char>) -> bool {
    p.len() > 0 && js_first_kept(p, 0) != Some('!')
}

/// The positive patterns of `ps[..k]`.
pub open spec fn positives_upto(ps: Seq<Seq<char>>, k: int) -> Seq<Seq<char>>
    decreases k,
{
    if k <= 0 {
        Seq::empty()
    } else {
        positives_upto(ps, k - 1) + if positive_pattern(ps[k - 1]) {
            seq![ps[k - 1]]
        } else {
            Seq::<Seq<char>>::empty()
        }
    }
}

/// Each string in backticks.
pub open spec fn ticked(ps: Seq<Seq<char>>) -> Seq<Seq<char>> {
    Seq::new(ps.len(), |i: int| seq!['`'] + ps[i] + seq!['`'])
}

/// The finding when `projectRoots` declares patterns and no directory
/// matches any of them.
pub open spec fn project_roots_spec(patterns: Seq<Seq<char>>, candidates_len: nat) -> Seq<FindingView> {
    let positive = positives_upto(patterns, patterns.len() as int);
    if positive.len() == 0 || candidates_len > 0 {
        Seq::empty()
    } else {
        seq![
            FindingView {
                id: "config-project-roots-match-nothing"@,
                artifact: "config.json"@,
                path: Some(".impeccable/config.json"@),
                severity: "mention"@,
                summary: "`projectRoots` declares "@ + join(ticked(positive), ", "@)
                    + ", but no directory matches any of them, so the repo root is being treated as the active project."@,
                fix: "Report the patterns and ask which directories they should name. A renamed workspace folder is the usual cause."@,
            },
        ]
    }
}

fn is_js_space(c: char) -> (b: bool)
    ensures
        b == js_space(c),
{
    let u = c as u32;
    u == 0x09 || u == 0x0A || u == 0x0B || u == 0x0C || u == 0x0D || u == 0x20 || u == 0xA0 || u == 0x1680 || (0x2000
        <= u && u <= 0x200A) || u == 0x2028 || u == 0x2029 || u == 0x202F || u == 0x205F || u == 0x3000 || u == 0xFEFF
}

/// Is `p` a positive pattern?
fn is_positive(p: &String) -> (b: bool)
    ensures
        b == positive_pattern(p@),
{
    let c = chars_of(p.as_str());
    if c.len() == 0 {
        return false;
    }
    let mut i: usize = 0;
    while i < c.len() && is_js_space(c[i])
        invariant
            0 <= i <= c@.len(),
            js_first_kept(c@, 0) == js_first_kept(c@, i as int),
        decreases c@.len() - i,
    {
        i = i + 1;
    }
    !(i < c.len() && c[i] == '!')
}

/// When `projectRoots` declares positive patterns and no candidate
/// directory matched any of them, the finding that says so.
pub fn check_project_roots(patterns: &[String], candidates_len: usize) -> (out: Vec<Finding>)
    ensures
        findings_view(out@) == project_roots_spec(crate::tmux::strings_view(patterns@), candidates_len as nat),
{
    let ghost ps = crate::tmux::strings_view(patterns@);
    let mut positive: Vec<String> = Vec::new();
    let mut i: usize = 0;
    while i < patterns.len()
        invariant
            ps == crate::tmux::strings_view(patterns@),
            0 <= i <= patterns@.len(),
            crate::tmux::strings_view(positive@) == positives_upto(ps, i as int),
        decreases patterns@.len() - i,
    {
        if is_positive(&patterns[i]) {
            let ghost before = crate::tmux::strings_view(positive@);
            let c = chars_of(patterns[i].as_str());
            positive.push(string_of(c.as_slice()));
            proof {
                assert(crate::tmux::strings_view(positive@) =~= before.push(ps[i as int]));
            }
        } else {
            proof {
                assert(positives_upto(ps, i + 1) =~= positives_upto(ps, i as int));
            }
        }
        i = i + 1;
    }
    if positive.len() == 0 || candidates_len > 0 {
        proof {
            assert(findings_view(Seq::<Finding>::empty()) =~= Seq::<FindingView>::empty());
        }
        return Vec::new();
    }
    let ghost pv = crate::tmux::strings_view(positive@);
    let mut listed: Vec<char> = Vec::new();
    let mut k: usize = 0;
    proof {
        assert(ticked(pv).take(0) =~= Seq::<Seq<char>>::empty());
    }
    while k < positive.len()
        invariant
            pv == crate::tmux::strings_view(positive@),
            0 <= k <= positive@.len(),
            listed@ == join(ticked(pv).take(k as int), ", "@),
        decreases positive@.len() - k,
    {
        proof {
            assert(ticked(pv).take(k + 1).drop_last() =~= ticked(pv).take(k as int));
        }
        let ghost before = listed@;
        if k > 0 {
            append_str(&mut listed, ", ");
        }
        listed.push('`');
        append_str(&mut listed, positive[k].as_str());
        listed.push('`');
        proof {
            assert(ticked(pv)[k as int] =~= seq!['`'] + pv[k as int] + seq!['`']);
            if k > 0 {
                assert(listed@ =~= before + ", "@ + ticked(pv)[k as int]);
            } else {
                assert(listed@ =~= ticked(pv)[k as int]);
            }
        }
        k = k + 1;
    }
    proof {
        assert(ticked(pv).take(positive@.len() as int) =~= ticked(pv));
    }
    let mut summary = chars_of("`projectRoots` declares ");
    append_chars(&mut summary, listed.as_slice());
    append_str(&mut summary, ", but no directory matches any of them, so the repo root is being treated as the active project.");
    let f = finding(
        "config-project-roots-match-nothing",
        "config.json",
        Some(string_of(chars_of(".impeccable/config.json").as_slice())),
        "mention",
        string_of(summary.as_slice()),
        string_of(chars_of("Report the patterns and ask which directories they should name. A renamed workspace folder is the usual cause.").as_slice()),
    );
    let mut out: Vec<Finding> = Vec::new();
    out.push(f);
    proof {
        assert(findings_view(out@) =~= project_roots_spec(ps, candidates_len as nat));
    }
    out
}

} // verus!
