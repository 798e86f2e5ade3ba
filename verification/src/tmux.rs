//! The tmux side of the engine: which executable to run, whether its
//! version will do, and what its answers mean. Running tmux itself is the
//! caller's I/O; these functions decide from what it printed.

use vstd::prelude::*;

use crate::text::{
    append_chars, append_str, chars_of, debug_quote, debug_str, is_digit, parse_unsigned, parse_unsigned_chars,
    slice_to_vec, split_by, split_chars, string_of, trim, trim_chars, views,
};

verus! {

/// Why `--tmux` cannot run when no tmux is found.
pub const NOT_FOUND_MESSAGE: &'static str = "tmux 3.2 or newer is required for --tmux and was not found on PATH. Install tmux, or point IMPECCABLE_TMUX at the executable.";

/// `resize-window -x -y` and `client_termfeatures` both arrived in 3.2.
pub const MIN_VERSION: (u32, u32) = (3, 2);

// ─── Version ────────────────────────────────────────────────────────────────

/// The first index at or after `i` holding an ASCII digit (or the end).
pub open spec fn digit_start(s: Seq<char>, i: int) -> int
    decreases s.len() - i,
{
    if i < 0 || i >= s.len() || is_digit(s[i]) {
        i
    } else {
        digit_start(s, i + 1)
    }
}

/// The end of the run of digits and dots starting at `i`.
pub open spec fn version_end(s: Seq<char>, i: int) -> int
    decreases s.len() - i,
{
    if i < 0 || i >= s.len() || !(is_digit(s[i]) || s[i] == '.') {
        i
    } else {
        version_end(s, i + 1)
    }
}

/// The first run of digits and dots of `tmux -V`'s output.
pub open spec fn version_digits(s: Seq<char>) -> Seq<char> {
    let a = digit_start(s, 0);
    s.subrange(a, version_end(s, a))
}

/// `(major, minor)` from `tmux -V`: the first run of digits and dots, cut at
/// dots; a missing minor is 0.
pub open spec fn version_of(s: Seq<char>) -> Option<(u32, u32)> {
    let parts = split_by(version_digits(s), seq!['.']);
    let minor = if parts.len() >= 2 { parts[1] } else { seq!['0'] };
    match (parse_unsigned(parts[0], u32::MAX as nat), parse_unsigned(minor, u32::MAX as nat)) {
        (Some(a), Some(b)) => Some((a as u32, b as u32)),
        _ => None,
    }
}

proof fn lemma_digit_start(s: Seq<char>, i: int)
    requires
        0 <= i <= s.len(),
    ensures
        i <= digit_start(s, i) <= s.len(),
    decreases s.len() - i,
{
    if i < s.len() && !is_digit(s[i]) {
        lemma_digit_start(s, i + 1);
    }
}

proof fn lemma_version_end(s: Seq<char>, i: int)
    requires
        0 <= i <= s.len(),
    ensures
        i <= version_end(s, i) <= s.len(),
    decreases s.len() - i,
{
    if i < s.len() && (is_digit(s[i]) || s[i] == '.') {
        lemma_version_end(s, i + 1);
    }
}

/// `tmux -V` into `(major, minor)`: "tmux 3.7c" is (3, 7), "tmux next-3.8"
/// is (3, 8).
pub fn parse_version(output: &str) -> (v: Option<(u32, u32)>)
    ensures
        v == version_of(output@),
{
    let c = chars_of(output);
    let n = c.len();
    let mut a: usize = 0;
    while a < n && !('0' <= c[a] && c[a] <= '9')
        invariant
            n == c@.len(),
            0 <= a <= n,
            digit_start(c@, 0) == digit_start(c@, a as int),
        decreases n - a,
    {
        a = a + 1;
    }
    let mut b = a;
    while b < n && (('0' <= c[b] && c[b] <= '9') || c[b] == '.')
        invariant
            n == c@.len(),
            a <= b <= n,
            version_end(c@, a as int) == version_end(c@, b as int),
        decreases n - b,
    {
        b = b + 1;
    }
    let digits = slice_to_vec(c.as_slice(), a, b);
    let dot: Vec<char> = vec!['.'];
    let parts = split_chars(digits.as_slice(), dot.as_slice());
    proof {
        assert(dot@ =~= seq!['.']);
        crate::text::lemma_split_by_nonempty(digits@, seq!['.']);
        assert(views(parts@)[0] == parts@[0]@);
    }
    let major = parse_unsigned_chars(parts[0].as_slice(), 0xFFFF_FFFF);
    let zero: Vec<char> = vec!['0'];
    let minor = if parts.len() >= 2 {
        proof {
            assert(views(parts@)[1] == parts@[1]@);
        }
        parse_unsigned_chars(parts[1].as_slice(), 0xFFFF_FFFF)
    } else {
        proof {
            assert(zero@ =~= seq!['0']);
        }
        parse_unsigned_chars(zero.as_slice(), 0xFFFF_FFFF)
    };
    match (major, minor) {
        (Some(x), Some(y)) => Some((x as u32, y as u32)),
        _ => None,
    }
}

/// `v` is `min` or later.
pub open spec fn at_least(v: (u32, u32), min: (u32, u32)) -> bool {
    v.0 > min.0 || (v.0 == min.0 && v.1 >= min.1)
}

/// Is `v` at least `min`?
pub fn version_at_least(v: (u32, u32), min: (u32, u32)) -> (b: bool)
    ensures
        b == at_least(v, min),
{
    v.0 > min.0 || (v.0 == min.0 && v.1 >= min.1)
}

/// What `tmux -V` printing `output` means: fine for 3.2 or newer, else the
/// refusal naming what was found.
pub open spec fn version_verdict(output: Seq<char>) -> Result<(), Seq<char>> {
    match version_of(output) {
        Some(v) => if at_least(v, MIN_VERSION) {
            Ok(())
        } else {
            Err("tmux 3.2 or newer is required for --tmux; found "@ + trim(output))
        },
        None => Err("tmux 3.2 or newer is required for --tmux; found "@ + trim(output)),
    }
}

/// A tmux is accepted exactly when its `-V` output reads as a version of
/// 3.2 or newer; any other is refused with what it printed, trimmed.
pub proof fn law_old_tmux_is_refused(output: Seq<char>)
    ensures
        version_verdict(output) is Ok <==> (version_of(output) matches Some(v) && at_least(v, MIN_VERSION)),
        version_verdict(output) is Err ==> version_verdict(output)->Err_0
            == "tmux 3.2 or newer is required for --tmux; found "@ + trim(output),
{
}

/// Versions are ordered as `(major, minor)` pairs, major first: 3.2 and
/// everything after it is accepted (any major above 3, or 3 with a minor of
/// 2 or more), and any major below 3 is refused whatever its minor, so 2.9
/// is refused though 9 is more than 2.
pub proof fn law_version_order(output: Seq<char>)
    ensures
        version_verdict(output) is Ok <==> (version_of(output) matches Some(v) && (v.0 > 3 || (v.0 == 3 && v.1
            >= 2))),
        version_of(output) matches Some(v) && v.0 < 3 ==> version_verdict(output) is Err,
{
}

/// `at_least` is a total order on versions: every version is at least
/// itself, two versions each at least the other are the same, it chains,
/// and of any two versions one is at least the other.
pub proof fn law_at_least_is_a_total_order(a: (u32, u32), b: (u32, u32), c: (u32, u32))
    ensures
        at_least(a, a),
        at_least(a, b) && at_least(b, a) ==> a == b,
        at_least(a, b) && at_least(b, c) ==> at_least(a, c),
        at_least(a, b) || at_least(b, a),
{
}

/// A `Result` of no value or a message, as characters.
pub open spec fn outcome_view(r: Result<(), String>) -> Result<(), Seq<char>> {
    match r {
        Ok(()) => Ok(()),
        Err(e) => Err(e@),
    }
}

/// Will the tmux that printed `output` for `-V` do?
pub fn check_version(output: &str) -> (r: Result<(), String>)
    ensures
        outcome_view(r) == version_verdict(output@),
{
    match parse_version(output) {
        Some(v) => {
            if version_at_least(v, MIN_VERSION) {
                return Ok(());
            }
        },
        None => {},
    }
    let c = chars_of(output);
    let t = trim_chars(c.as_slice());
    let mut msg = chars_of("tmux 3.2 or newer is required for --tmux; found ");
    append_chars(&mut msg, t.as_slice());
    Err(string_of(msg.as_slice()))
}

// ─── Finding the executable ─────────────────────────────────────────────────

/// Where to look for tmux.
pub enum TmuxSearch {
    /// `IMPECCABLE_TMUX`, trimmed: this path or nothing.
    Configured(String),
    /// These `PATH` directories, in order.
    OnPath(Vec<String>),
}

/// The non-empty strings of `s`, in order.
pub open spec fn nonempty(s: Seq<Seq<char>>) -> Seq<Seq<char>>
    decreases s.len(),
{
    if s.len() == 0 {
        Seq::empty()
    } else {
        nonempty(s.drop_last()) + if s.last().len() > 0 {
            seq![s.last()]
        } else {
            Seq::<Seq<char>>::empty()
        }
    }
}

/// The characters of a list of strings.
pub open spec fn strings_view(v: Seq<String>) -> Seq<Seq<char>> {
    Seq::new(v.len(), |i: int| v[i]@)
}

/// `IMPECCABLE_TMUX` wins when it is set to something other than
/// whitespace; otherwise every non-empty `PATH` entry is a candidate
/// directory.
pub open spec fn search_is(s: TmuxSearch, configured: Option<Seq<char>>, path_var: Option<Seq<char>>, separator: char) -> bool {
    match configured {
        Some(raw) if trim(raw).len() > 0 => s matches TmuxSearch::Configured(p) && p@ == trim(raw),
        _ => s matches TmuxSearch::OnPath(dirs) && strings_view(dirs@) == nonempty(
            split_by(
                match path_var {
                    Some(p) => p,
                    None => Seq::empty(),
                },
                seq![separator],
            ),
        ),
    }
}

/// An optional string slice as characters.
pub open spec fn opt_view(s: Option<&str>) -> Option<Seq<char>> {
    match s {
        Some(t) => Some(t@),
        None => None,
    }
}

/// Where to look for tmux, given `IMPECCABLE_TMUX`, `PATH`, and the
/// platform's `PATH` separator.
pub fn tmux_search(configured: Option<&str>, path_var: Option<&str>, separator: char) -> (s: TmuxSearch)
    ensures
        search_is(s, opt_view(configured), opt_view(path_var), separator),
{
    match configured {
        Some(raw) => {
            let c = chars_of(raw);
            let t = trim_chars(c.as_slice());
            if t.len() > 0 {
                return TmuxSearch::Configured(string_of(t.as_slice()));
            }
        },
        None => {},
    }
    let p = match path_var {
        Some(p) => chars_of(p),
        None => Vec::new(),
    };
    let seps: Vec<char> = vec![separator];
    let pieces = split_chars(p.as_slice(), seps.as_slice());
    proof {
        assert(seps@ =~= seq![separator]);
    }
    let ghost ps = views(pieces@);
    let mut dirs: Vec<String> = Vec::new();
    let mut i: usize = 0;
    proof {
        assert(ps.take(0) =~= Seq::<Seq<char>>::empty());
    }
    while i < pieces.len()
        invariant
            ps == views(pieces@),
            0 <= i <= pieces@.len(),
            strings_view(dirs@) == nonempty(ps.take(i as int)),
        decreases pieces@.len() - i,
    {
        let ghost before = strings_view(dirs@);
        proof {
            assert(ps.take(i + 1).drop_last() =~= ps.take(i as int));
            assert(ps[i as int] == pieces@[i as int]@);
        }
        if pieces[i].len() > 0 {
            dirs.push(string_of(pieces[i].as_slice()));
            proof {
                assert(strings_view(dirs@) =~= before.push(ps[i as int]));
            }
        }
        i = i + 1;
    }
    proof {
        assert(ps.take(pieces@.len() as int) =~= ps);
    }
    TmuxSearch::OnPath(dirs)
}

/// Why `--tmux` cannot run when `IMPECCABLE_TMUX` names no file.
pub fn configured_missing_message(raw: &str) -> (m: String)
    ensures
        m@ == "tmux was not found at the configured path ("@ + raw@ + ") from IMPECCABLE_TMUX"@,
{
    let mut v = chars_of("tmux was not found at the configured path (");
    append_str(&mut v, raw);
    append_str(&mut v, ") from IMPECCABLE_TMUX");
    string_of(v.as_slice())
}

/// `name` inside `dir`: one `sep` between them, none added when `dir`
/// already ends with one.
pub open spec fn joined(dir: Seq<char>, name: Seq<char>, sep: char) -> Seq<char> {
    if dir.len() > 0 && dir.last() == sep {
        dir + name
    } else {
        dir + seq![sep] + name
    }
}

/// The executables a search offers, in the order they are tried: the
/// configured path, or `name` in each `PATH` directory.
pub open spec fn candidates_of(s: TmuxSearch, name: Seq<char>, sep: char) -> Seq<Seq<char>> {
    match s {
        TmuxSearch::Configured(p) => seq![p@],
        TmuxSearch::OnPath(dirs) => Seq::new(dirs@.len(), |i: int| joined(dirs@[i]@, name, sep)),
    }
}

/// The paths to try for `search`, with `name` the executable's file name
/// and `sep` the directory separator.
pub fn tmux_candidates(search: &TmuxSearch, name: &str, sep: char) -> (c: Vec<String>)
    ensures
        strings_view(c@) == candidates_of(*search, name@, sep),
{
    match search {
        TmuxSearch::Configured(p) => {
            let v = chars_of(p.as_str());
            let mut c: Vec<String> = Vec::new();
            c.push(string_of(v.as_slice()));
            proof {
                assert(strings_view(c@) =~= seq![p@]);
            }
            c
        },
        TmuxSearch::OnPath(dirs) => {
            let ghost want = candidates_of(*search, name@, sep);
            let mut c: Vec<String> = Vec::new();
            let mut i: usize = 0;
            while i < dirs.len()
                invariant
                    want == candidates_of(*search, name@, sep),
                    *search == TmuxSearch::OnPath(*dirs),
                    0 <= i <= dirs@.len(),
                    strings_view(c@) =~= want.take(i as int),
                decreases dirs@.len() - i,
            {
                let mut v = chars_of(dirs[i].as_str());
                let ends = v.len() > 0 && v[v.len() - 1] == sep;
                if !ends {
                    v.push(sep);
                }
                append_str(&mut v, name);
                let ghost before = strings_view(c@);
                c.push(string_of(v.as_slice()));
                proof {
                    let d = dirs@[i as int]@;
                    if d.len() > 0 && d.last() == sep {
                        assert(v@ =~= d + name@);
                    } else {
                        assert(v@ =~= d + seq![sep] + name@);
                    }
                    assert(want[i as int] == joined(d, name@, sep));
                    assert(strings_view(c@) =~= before.push(v@));
                    assert(want.take(i + 1) =~= want.take(i as int).push(want[i as int]));
                }
                i = i + 1;
            }
            proof {
                assert(want.take(dirs@.len() as int) =~= want);
            }
            c
        },
    }
}

/// The first index below `n`, from `i` on, that `present` marks.
pub open spec fn first_present(present: Seq<bool>, n: int, i: int) -> Option<int>
    decreases n - i,
{
    if i < 0 || i >= n {
        None
    } else if i < present.len() && present[i] {
        Some(i)
    } else {
        first_present(present, n, i + 1)
    }
}

/// The tmux to run: the first candidate that is a file, else why there is
/// none -- the configured path named, or tmux missing from `PATH`.
pub open spec fn found_spec(s: TmuxSearch, name: Seq<char>, sep: char, present: Seq<bool>) -> Result<Seq<char>, Seq<char>> {
    let c = candidates_of(s, name, sep);
    match first_present(present, c.len() as int, 0) {
        Some(i) => Ok(c[i]),
        None => Err(
            match s {
                TmuxSearch::Configured(p) => "tmux was not found at the configured path ("@ + p@ + ") from IMPECCABLE_TMUX"@,
                TmuxSearch::OnPath(_) => NOT_FOUND_MESSAGE@,
            },
        ),
    }
}

/// A `Result` of a string or a message, as characters.
pub open spec fn found_view(r: Result<String, String>) -> Result<Seq<char>, Seq<char>> {
    match r {
        Ok(p) => Ok(p@),
        Err(e) => Err(e@),
    }
}

/// Where tmux is, given the search, the executable's file name, the
/// directory separator, and which of the candidates (see
/// [`tmux_candidates`]) are files; a candidate past the end of `present`
/// is taken not to be one.
pub fn find_tmux(search: &TmuxSearch, name: &str, sep: char, present: &[bool]) -> (r: Result<String, String>)
    ensures
        found_view(r) == found_spec(*search, name@, sep, present@),
{
    let c = tmux_candidates(search, name, sep);
    let ghost cs = strings_view(c@);
    let mut i: usize = 0;
    while i < c.len()
        invariant
            cs == strings_view(c@),
            cs == candidates_of(*search, name@, sep),
            0 <= i <= c@.len(),
            first_present(present@, cs.len() as int, 0) == first_present(present@, cs.len() as int, i as int),
        decreases c@.len() - i,
    {
        if i < present.len() && present[i] {
            let v = chars_of(c[i].as_str());
            proof {
                assert(cs[i as int] == c@[i as int]@);
            }
            return Ok(string_of(v.as_slice()));
        }
        i = i + 1;
    }
    match search {
        TmuxSearch::Configured(p) => Err(configured_missing_message(p.as_str())),
        TmuxSearch::OnPath(_) => {
            let v = chars_of(NOT_FOUND_MESSAGE);
            Err(string_of(v.as_slice()))
        },
    }
}

/// Where tmux is found, from the environment and which candidates are
/// files: with `IMPECCABLE_TMUX` set to something other than white space,
/// that path (trimmed) when it is a file, else an error naming it, and
/// `PATH` unread; otherwise `name` in the first non-empty `PATH` entry
/// where it is a file, else the not-found message.
pub open spec fn where_found(
    configured: Option<Seq<char>>,
    path_var: Option<Seq<char>>,
    separator: char,
    name: Seq<char>,
    sep: char,
    present: Seq<bool>,
) -> Result<Seq<char>, Seq<char>> {
    if configured is Some && trim(configured->0).len() > 0 {
        let p = trim(configured->0);
        if present.len() > 0 && present[0] {
            Ok(p)
        } else {
            Err("tmux was not found at the configured path ("@ + p + ") from IMPECCABLE_TMUX"@)
        }
    } else {
        let dirs = nonempty(
            split_by(
                match path_var {
                    Some(p) => p,
                    None => Seq::empty(),
                },
                seq![separator],
            ),
        );
        match first_present(present, dirs.len() as int, 0) {
            Some(i) => Ok(joined(dirs[i], name, sep)),
            None => Err(NOT_FOUND_MESSAGE@),
        }
    }
}

proof fn lemma_first_present_in(present: Seq<bool>, n: int, i: int)
    ensures
        first_present(present, n, i) matches Some(k) ==> i <= k < n,
    decreases n - i,
{
    if 0 <= i < n && !(i < present.len() && present[i]) {
        lemma_first_present_in(present, n, i + 1);
    }
}

/// The search and the lookup together find tmux where [`where_found`]
/// says, for every environment and every answer to which candidates are
/// files.
pub proof fn law_where_tmux_is_found(
    configured: Option<Seq<char>>,
    path_var: Option<Seq<char>>,
    separator: char,
    s: TmuxSearch,
    name: Seq<char>,
    sep: char,
    present: Seq<bool>,
)
    requires
        search_is(s, configured, path_var, separator),
    ensures
        found_spec(s, name, sep, present) == where_found(configured, path_var, separator, name, sep, present),
{
    lemma_where_found(configured, path_var, separator, s, name, sep, present);
}

proof fn lemma_where_found(
    configured: Option<Seq<char>>,
    path_var: Option<Seq<char>>,
    separator: char,
    s: TmuxSearch,
    name: Seq<char>,
    sep: char,
    present: Seq<bool>,
)
    requires
        search_is(s, configured, path_var, separator),
    ensures
        found_spec(s, name, sep, present) is Ok <==> where_found(configured, path_var, separator, name, sep, present) is Ok,
        found_spec(s, name, sep, present) is Ok ==> found_spec(s, name, sep, present)->Ok_0 =~= where_found(
            configured,
            path_var,
            separator,
            name,
            sep,
            present,
        )->Ok_0,
        found_spec(s, name, sep, present) is Err ==> found_spec(s, name, sep, present)->Err_0 =~= where_found(
            configured,
            path_var,
            separator,
            name,
            sep,
            present,
        )->Err_0,
{
    match s {
        TmuxSearch::Configured(p) => {
            let raw = configured->0;
            assert(configured is Some && trim(raw).len() > 0 && p@ == trim(raw));
            assert(candidates_of(s, name, sep) =~= seq![p@]);
            assert(first_present(present, 1, 1) is None);
            if present.len() > 0 && present[0] {
                assert(first_present(present, 1, 0) == Some(0int));
                assert(found_spec(s, name, sep, present) == Ok::<Seq<char>, Seq<char>>(p@));
                assert(where_found(configured, path_var, separator, name, sep, present) == Ok::<Seq<char>, Seq<char>>(p@));
            } else {
                assert(first_present(present, 1, 0) == first_present(present, 1, 1));
                let m = "tmux was not found at the configured path ("@ + p@ + ") from IMPECCABLE_TMUX"@;
                assert(found_spec(s, name, sep, present) == Err::<Seq<char>, Seq<char>>(m));
                assert(where_found(configured, path_var, separator, name, sep, present) == Err::<Seq<char>, Seq<char>>(m));
            }
        },
        TmuxSearch::OnPath(dirs) => {
            assert(!(configured is Some && trim(configured->0).len() > 0));
            let ds = nonempty(
                split_by(
                    match path_var {
                        Some(p) => p,
                        None => Seq::empty(),
                    },
                    seq![separator],
                ),
            );
            assert(strings_view(dirs@) == ds);
            let c = candidates_of(s, name, sep);
            assert(c.len() == ds.len());
            match first_present(present, ds.len() as int, 0) {
                Some(i) => {
                    lemma_first_present_in(present, ds.len() as int, 0);
                    assert(c[i] == joined(ds[i], name, sep));
                },
                None => {},
            }
        },
    }
}

/// The override wins: when `IMPECCABLE_TMUX` is set to something other
/// than white space, `PATH` plays no part in which tmux is found.
pub proof fn law_override_wins(
    configured: Seq<char>,
    a: TmuxSearch,
    path_a: Option<Seq<char>>,
    b: TmuxSearch,
    path_b: Option<Seq<char>>,
    separator: char,
    name: Seq<char>,
    sep: char,
    present: Seq<bool>,
)
    requires
        trim(configured).len() > 0,
        search_is(a, Some(configured), path_a, separator),
        search_is(b, Some(configured), path_b, separator),
    ensures
        found_spec(a, name, sep, present) == found_spec(b, name, sep, present),
        a matches TmuxSearch::Configured(p) && p@ == trim(configured),
{
    match (a, b) {
        (TmuxSearch::Configured(p), TmuxSearch::Configured(q)) => {
            assert(p@ == q@);
            assert(candidates_of(a, name, sep) =~= candidates_of(b, name, sep));
        },
        _ => {},
    }
}

/// The first line of `s` (up to its first newline).
pub open spec fn first_line(s: Seq<char>) -> Seq<char> {
    match crate::text::first_index(s, '\n') {
        Some(i) => s.take(i),
        None => s,
    }
}

/// How a failed tmux command is reported: `tmux <verb>: <first stderr
/// line, trimmed>`.
pub fn run_error_message(verb: &str, stderr: &str) -> (m: String)
    ensures
        m@ == "tmux "@ + verb@ + ": "@ + trim(first_line(stderr@)),
{
    let c = chars_of(stderr);
    let end = match crate::text::find_char_from(c.as_slice(), '\n', 0) {
        Some(i) => i,
        None => c.len(),
    };
    proof {
        crate::text::lemma_index_from(c@, '\n', 0);
    }
    let line = slice_to_vec(c.as_slice(), 0, end);
    let t = trim_chars(line.as_slice());
    let mut v = chars_of("tmux ");
    append_str(&mut v, verb);
    append_str(&mut v, ": ");
    append_chars(&mut v, t.as_slice());
    proof {
        assert(line@ =~= first_line(stderr@));
    }
    string_of(v.as_slice())
}

// ─── Pane geometry ──────────────────────────────────────────────────────────

/// What `display-message` reports about the target before the first capture.
#[derive(Debug, Clone)]
pub struct PaneInfo {
    pub width: usize,
    pub height: usize,
    pub window_width: usize,
    pub window_height: usize,
    /// `#{client_termfeatures}`; empty when no client is attached.
    pub termfeatures: String,
}

/// `s` without its trailing newlines.
pub open spec fn without_newlines(s: Seq<char>) -> Seq<char>
    decreases s.len(),
{
    if s.len() > 0 && s.last() == '\n' {
        without_newlines(s.drop_last())
    } else {
        s
    }
}

/// A field of `display-message`'s answer as a number, or why it is not.
pub open spec fn pane_number(s: Seq<char>) -> Result<nat, Seq<char>> {
    match parse_unsigned(trim(s), usize::MAX as nat) {
        Some(n) => Ok(n),
        None => Err("tmux display-message: "@ + debug_str(s) + " is not a number"@),
    }
}

/// The pane as `display-message` reported it, in field order: width,
/// height, window width, window height, client features.
pub open spec fn pane_info_is(p: PaneInfo, parts: Seq<Seq<char>>) -> bool {
    &&& pane_number(parts[0]) == Ok::<nat, Seq<char>>(p.width as nat)
    &&& pane_number(parts[1]) == Ok::<nat, Seq<char>>(p.height as nat)
    &&& pane_number(parts[2]) == Ok::<nat, Seq<char>>(p.window_width as nat)
    &&& pane_number(parts[3]) == Ok::<nat, Seq<char>>(p.window_height as nat)
    &&& p.termfeatures@ == trim(parts[4])
}

/// The first of the four numbers that fails, if any.
pub open spec fn pane_error(parts: Seq<Seq<char>>) -> Option<Seq<char>> {
    if pane_number(parts[0]) is Err {
        Some(pane_number(parts[0])->Err_0)
    } else if pane_number(parts[1]) is Err {
        Some(pane_number(parts[1])->Err_0)
    } else if pane_number(parts[2]) is Err {
        Some(pane_number(parts[2])->Err_0)
    } else if pane_number(parts[3]) is Err {
        Some(pane_number(parts[3])->Err_0)
    } else {
        None
    }
}

/// One field as a number.
fn pane_field(s: &Vec<char>) -> (r: Result<usize, String>)
    ensures
        match r {
            Ok(n) => pane_number(s@) == Ok::<nat, Seq<char>>(n as nat),
            Err(e) => pane_number(s@) == Err::<nat, Seq<char>>(e@),
        },
{
    let t = trim_chars(s.as_slice());
    match parse_unsigned_chars(t.as_slice(), usize::MAX as u64) {
        Some(n) => Ok(n as usize),
        None => {
            let mut v = chars_of("tmux display-message: ");
            let q = debug_quote(s.as_slice());
            append_chars(&mut v, q.as_slice());
            append_str(&mut v, " is not a number");
            Err(string_of(v.as_slice()))
        },
    }
}

/// `display-message`'s tab-separated answer about a pane: an error when it
/// has fewer than five fields or a field that should be a number is not.
pub fn parse_pane_info(output: &str) -> (r: Result<PaneInfo, String>)
    ensures
        ({
            let line = without_newlines(output@);
            let parts = split_by(line, seq!['\t']);
            match r {
                Ok(p) => parts.len() >= 5 && pane_error(parts) is None && pane_info_is(p, parts),
                Err(e) => if parts.len() < 5 {
                    e@ == "tmux display-message: unexpected output "@ + debug_str(line)
                } else {
                    pane_error(parts) == Some(e@)
                },
            }
        }),
{
    let c = chars_of(output);
    let mut end = c.len();
    proof {
        assert(c@.take(c@.len() as int) =~= c@);
    }
    while end > 0 && c[end - 1] == '\n'
        invariant
            end <= c@.len(),
            without_newlines(c@) == without_newlines(c@.take(end as int)),
        decreases end,
    {
        proof {
            assert(c@.take(end as int).drop_last() =~= c@.take(end - 1));
        }
        end = end - 1;
    }
    let line = slice_to_vec(c.as_slice(), 0, end);
    proof {
        assert(line@ =~= c@.take(end as int));
    }
    let tab: Vec<char> = vec!['\t'];
    let parts = split_chars(line.as_slice(), tab.as_slice());
    proof {
        assert(tab@ =~= seq!['\t']);
    }
    if parts.len() < 5 {
        let mut v = chars_of("tmux display-message: unexpected output ");
        let q = debug_quote(line.as_slice());
        append_chars(&mut v, q.as_slice());
        return Err(string_of(v.as_slice()));
    }
    proof {
        assert(views(parts@)[0] == parts@[0]@);
        assert(views(parts@)[1] == parts@[1]@);
        assert(views(parts@)[2] == parts@[2]@);
        assert(views(parts@)[3] == parts@[3]@);
        assert(views(parts@)[4] == parts@[4]@);
    }
    let width = match pane_field(&parts[0]) {
        Ok(n) => n,
        Err(e) => { return Err(e); },
    };
    let height = match pane_field(&parts[1]) {
        Ok(n) => n,
        Err(e) => { return Err(e); },
    };
    let window_width = match pane_field(&parts[2]) {
        Ok(n) => n,
        Err(e) => { return Err(e); },
    };
    let window_height = match pane_field(&parts[3]) {
        Ok(n) => n,
        Err(e) => { return Err(e); },
    };
    let tf = trim_chars(parts[4].as_slice());
    Ok(PaneInfo { width, height, window_width, window_height, termfeatures: string_of(tf.as_slice()) })
}

} // verus!
