//! The tmux engine's own decisions: the environment it reads, the frames a
//! live capture becomes, and how failures are reported. Running tmux,
//! sleeping between captures and reading files are the caller's I/O.

use vstd::prelude::*;

use crate::capture::{parse_rows, rows_of, capture_lines, plain, Frame, FrameRole};
use crate::text::{append_str, chars_of, has_suffix, same_chars, string_of};
use crate::tmux::{outcome_view, PaneInfo};

verus! {

/// The gap between the first capture and the recapture.
pub const RECAPTURE_DELAY_MS: u64 = 1000;

/// `--tmux-settle` when the flag is absent.
pub const DEFAULT_SETTLE_MS: u64 = 300;

/// The first value bound to `key` in `env`.
pub open spec fn env_lookup(env: Seq<(Seq<char>, Seq<char>)>, key: Seq<char>) -> Option<Seq<char>>
    decreases env.len(),
{
    if env.len() == 0 {
        None
    } else if env[0].0 == key {
        Some(env[0].1)
    } else {
        env_lookup(env.drop_first(), key)
    }
}

/// The first index from `i` on whose name is `key`.
pub open spec fn key_index(env: Seq<(Seq<char>, Seq<char>)>, key: Seq<char>, i: int) -> Option<int>
    decreases env.len() - i,
{
    if i < 0 || i >= env.len() {
        None
    } else if env[i].0 == key {
        Some(i)
    } else {
        key_index(env, key, i + 1)
    }
}

/// `env` with `kv` set: the value replaced where the name is already bound,
/// else the pair added at the end (as inserting into a map).
pub open spec fn set_var(env: Seq<(Seq<char>, Seq<char>)>, kv: (Seq<char>, Seq<char>)) -> Seq<(Seq<char>, Seq<char>)> {
    match key_index(env, kv.0, 0) {
        Some(i) => env.update(i, kv),
        None => env.push(kv),
    }
}

/// The pairs collected into an environment in order: a later pair for a
/// name replaces the earlier value, each name keeping its first place.
pub open spec fn collected(pairs: Seq<(Seq<char>, Seq<char>)>) -> Seq<(Seq<char>, Seq<char>)>
    decreases pairs.len(),
{
    if pairs.len() == 0 {
        Seq::empty()
    } else {
        set_var(collected(pairs.drop_last()), pairs.last())
    }
}

/// No name is bound twice.
pub open spec fn names_unique(env: Seq<(Seq<char>, Seq<char>)>) -> bool {
    forall|i: int, j: int| 0 <= i < j < env.len() ==> (#[trigger] env[i]).0 != (#[trigger] env[j]).0
}

/// Name and value pairs as characters.
pub open spec fn pairs_chars(v: Seq<(String, String)>) -> Seq<(Seq<char>, Seq<char>)> {
    Seq::new(v.len(), |i: int| (v[i].0@, v[i].1@))
}

proof fn lemma_key_index(env: Seq<(Seq<char>, Seq<char>)>, key: Seq<char>, i: int)
    requires
        0 <= i,
    ensures
        key_index(env, key, i) matches Some(k) ==> i <= k < env.len() && env[k].0 == key,
        key_index(env, key, i) is None ==> forall|j: int| i <= j < env.len() ==> (#[trigger] env[j]).0 != key,
    decreases env.len() - i,
{
    if i < env.len() && env[i].0 != key {
        lemma_key_index(env, key, i + 1);
    }
}

fn name_is(s: &String, name: &Vec<char>) -> (b: bool)
    ensures
        b == (s@ == name@),
{
    let n = chars_of(s.as_str());
    same_chars(n.as_slice(), name.as_slice())
}

/// The tmux engine, holding the process environment it reads
/// (`IMPECCABLE_TMUX`, `PATH`, `TMUX`, `COLORTERM`) as name and value
/// pairs, each name bound once.
pub struct TerminalEngine {
    env: Vec<(String, String)>,
}

impl TerminalEngine {
    /// Each name is bound once.
    #[verifier::type_invariant]
    spec fn names_bound_once(self) -> bool {
        names_unique(pairs_chars(self.env@))
    }

    /// The environment as characters.
    pub closed spec fn env_view(&self) -> Seq<(Seq<char>, Seq<char>)> {
        pairs_chars(self.env@)
    }

    /// The engine over `env`, collected as into a map: a later pair for a
    /// name replaces the earlier value.
    pub fn new(env: Vec<(String, String)>) -> (e: Self)
        ensures
            e.env_view() == collected(pairs_chars(env@)),
            names_unique(e.env_view()),
    {
        let ghost input = pairs_chars(env@);
        let mut out: Vec<(String, String)> = Vec::new();
        let mut i: usize = 0;
        proof {
            assert(input.take(0) =~= Seq::<(Seq<char>, Seq<char>)>::empty());
            assert(pairs_chars(out@) =~= collected(input.take(0)));
        }
        while i < env.len()
            invariant
                input == pairs_chars(env@),
                0 <= i <= env@.len(),
                pairs_chars(out@) == collected(input.take(i as int)),
                names_unique(pairs_chars(out@)),
            decreases env@.len() - i,
        {
            let name = chars_of(env[i].0.as_str());
            let value = chars_of(env[i].1.as_str());
            let ghost before = pairs_chars(out@);
            let ghost kv = (name@, value@);
            proof {
                assert(input.take(i + 1).drop_last() =~= input.take(i as int));
                assert(input.take(i + 1).last() == kv);
                lemma_key_index(before, name@, 0);
            }
            let mut k: usize = 0;
            while k < out.len() && !name_is(&out[k].0, &name)
                invariant
                    before == pairs_chars(out@),
                    0 <= k <= out@.len(),
                    name@ == kv.0,
                    key_index(before, kv.0, 0) == key_index(before, kv.0, k as int),
                decreases out@.len() - k,
            {
                k = k + 1;
            }
            let pair = (string_of(name.as_slice()), string_of(value.as_slice()));
            if k < out.len() {
                proof {
                    assert(before[k as int].0 == kv.0);
                    assert(key_index(before, kv.0, k as int) == Some(k as int));
                }
                out.set(k, pair);
                proof {
                    assert(pairs_chars(out@) =~= before.update(k as int, kv));
                }
            } else {
                proof {
                    assert(key_index(before, kv.0, k as int) is None);
                }
                out.push(pair);
                proof {
                    assert(pairs_chars(out@) =~= before.push(kv));
                }
            }
            proof {
                let now = pairs_chars(out@);
                assert(now == set_var(before, kv));
                assert forall|a: int, b: int| 0 <= a < b < now.len() implies (#[trigger] now[a]).0 != (#[trigger] now[b]).0 by {
                    if b < before.len() {
                        if a != k && b != k {
                            assert(now[a] == before[a] && now[b] == before[b]);
                        } else if a == k as int {
                            assert(now[b] == before[b]);
                        } else {
                            assert(now[a] == before[a]);
                        }
                    } else {
                        assert(now[a] == before[a]);
                    }
                }
            }
            i = i + 1;
        }
        proof {
            assert(input.take(env@.len() as int) =~= input);
        }
        TerminalEngine { env: out }
    }

    /// The environment, as name and value pairs.
    pub fn vars(&self) -> (v: Vec<(String, String)>)
        ensures
            Seq::new(v@.len(), |i: int| (v@[i].0@, v@[i].1@)) == self.env_view(),
            names_unique(self.env_view()),
    {
        proof {
            use_type_invariant(self);
        }
        let mut v: Vec<(String, String)> = Vec::new();
        let mut i: usize = 0;
        while i < self.env.len()
            invariant
                0 <= i <= self.env@.len(),
                Seq::new(v@.len(), |k: int| (v@[k].0@, v@[k].1@)) =~= self.env_view().take(i as int),
            decreases self.env@.len() - i,
        {
            let name = chars_of(self.env[i].0.as_str());
            let value = chars_of(self.env[i].1.as_str());
            let ghost before = v@;
            let pair = (string_of(name.as_slice()), string_of(value.as_slice()));
            v.push(pair);
            proof {
                assert(v@ == before.push(pair));
                assert(self.env_view()[i as int] == (self.env@[i as int].0@, self.env@[i as int].1@));
                assert(Seq::new(v@.len(), |k: int| (v@[k].0@, v@[k].1@)) =~= Seq::new(
                    before.len(),
                    |k: int| (before[k].0@, before[k].1@),
                ).push((pair.0@, pair.1@)));
                assert(self.env_view().take(i + 1) =~= self.env_view().take(i as int).push(
                    self.env_view()[i as int],
                ));
            }
            i = i + 1;
        }
        proof {
            assert(self.env_view().take(self.env@.len() as int) =~= self.env_view());
        }
        v
    }

    /// The value of the variable `key`, if it is set.
    pub fn var(&self, key: &str) -> (v: Option<String>)
        ensures
            match v {
                Some(s) => env_lookup(self.env_view(), key@) == Some(s@),
                None => env_lookup(self.env_view(), key@) is None,
            },
    {
        let ghost ev = self.env_view();
        let k = chars_of(key);
        let mut i: usize = 0;
        proof {
            assert(ev.skip(0) =~= ev);
        }
        while i < self.env.len()
            invariant
                ev == self.env_view(),
                k@ == key@,
                ev.len() == self.env@.len(),
                0 <= i <= ev.len(),
                env_lookup(ev, key@) == env_lookup(ev.skip(i as int), key@),
            decreases ev.len() - i,
        {
            let name = chars_of(self.env[i].0.as_str());
            proof {
                assert(ev.skip(i as int).drop_first() =~= ev.skip(i + 1));
                assert(ev.skip(i as int)[0] == ev[i as int]);
                assert(ev[i as int] == (self.env@[i as int].0@, self.env@[i as int].1@));
                assert(ev.skip(i as int).len() > 0);
                assert(name@ == ev[i as int].0);
            }
            if same_chars(name.as_slice(), k.as_slice()) {
                let v = chars_of(self.env[i].1.as_str());
                proof {
                    assert(ev[i as int].0 == key@);
                    assert(env_lookup(ev.skip(i as int), key@) == Some(ev[i as int].1));
                    assert(v@ == ev[i as int].1);
                }
                return Some(string_of(v.as_slice()));
            }
            i = i + 1;
        }
        None
    }

    /// `COLORTERM`, or nothing when it is unset.
    pub fn colorterm(&self) -> (c: String)
        ensures
            c@ == match env_lookup(self.env_view(), "COLORTERM"@) {
                Some(v) => v,
                None => Seq::empty(),
            },
    {
        match self.var("COLORTERM") {
            Some(v) => v,
            None => String::new(),
        }
    }
}

/// A frame from a live capture, sized by the pane rather than by a header.
pub fn frame_from(text: &str, info: &PaneInfo, colorterm: &str, role: FrameRole) -> (f: Frame)
    ensures
        f.width == info.width,
        f.height == info.height,
        f.termfeatures@ == info.termfeatures@,
        f.colorterm@ == colorterm@,
        f.role == role,
        f.cells() == rows_of(capture_lines(text@), plain()),
{
    let tf = chars_of(info.termfeatures.as_str());
    let ct = chars_of(colorterm);
    Frame {
        width: info.width,
        height: info.height,
        termfeatures: string_of(tf.as_slice()),
        colorterm: string_of(ct.as_slice()),
        role,
        rows: parse_rows(text),
    }
}

/// The file name a live scan's findings carry: `tmux:<target>`.
pub fn pane_file(target: &str) -> (f: String)
    ensures
        f@ == "tmux:"@ + target@,
{
    let mut v = chars_of("tmux:");
    append_str(&mut v, target);
    string_of(v.as_slice())
}

/// What a multi-size pass comes to once the window is restored: a capture
/// failure and a restore failure are both reported, a restore failure
/// alone says the window was not restored.
pub open spec fn restore_spec(captured: Result<(), Seq<char>>, restored: Result<(), Seq<char>>) -> Result<(), Seq<char>> {
    match (captured, restored) {
        (Err(c), Err(r)) => Err(c + "; window not restored: "@ + r),
        (Ok(()), Err(r)) => Err("window not restored: "@ + r),
        (Err(c), Ok(())) => Err(c),
        (Ok(()), Ok(())) => Ok(()),
    }
}

/// A window that could not be restored is always reported: the message
/// ends with `window not restored: ` and the restore's own words, whatever
/// the capture pass did.
pub proof fn law_restore_failure_is_reported(captured: Result<(), Seq<char>>, restore_error: Seq<char>)
    ensures
        restore_spec(captured, Err(restore_error)) matches Err(m) && has_suffix(m, "window not restored: "@ + restore_error),
{
    let tail = "window not restored: "@ + restore_error;
    match captured {
        Ok(()) => {
            assert(tail.skip(0) =~= tail);
        },
        Err(c) => {
            reveal_strlit("; window not restored: ");
            reveal_strlit("window not restored: ");
            let m = c + "; window not restored: "@ + restore_error;
            assert(m =~= (c + seq![';', ' ']) + tail);
            assert(m.skip(m.len() - tail.len()) =~= tail);
        },
    }
}

pub fn restore_outcome(captured: Result<(), String>, restored: Result<(), String>) -> (r: Result<(), String>)
    ensures
        outcome_view(r) == restore_spec(outcome_view(captured), outcome_view(restored)),
{
    match (captured, restored) {
        (Err(c), Err(r)) => {
            let mut v = chars_of(c.as_str());
            append_str(&mut v, "; window not restored: ");
            append_str(&mut v, r.as_str());
            Err(string_of(v.as_slice()))
        },
        (Ok(()), Err(r)) => {
            let mut v = chars_of("window not restored: ");
            append_str(&mut v, r.as_str());
            Err(string_of(v.as_slice()))
        },
        (Err(c), Ok(())) => Err(c),
        (Ok(()), Ok(())) => Ok(()),
    }
}

/// Why a saved capture could not be read.
pub enum ReadFailure {
    NotFound,
    PermissionDenied,
    /// Anything else, with the error's own words.
    Other(String),
}

/// How an unreadable capture is reported: `ENOENT: no such file or
/// directory, open '<path>'` for a missing file, `EACCES: permission
/// denied, open '<path>'` for a denied one, the error's own words otherwise.
pub fn read_failure_message(failure: &ReadFailure, path: &str) -> (m: String)
    ensures
        m@ == match failure {
            ReadFailure::NotFound => "ENOENT: no such file or directory, open '"@ + path@ + "'"@,
            ReadFailure::PermissionDenied => "EACCES: permission denied, open '"@ + path@ + "'"@,
            ReadFailure::Other(e) => e@,
        },
{
    match failure {
        ReadFailure::NotFound => {
            let mut v = chars_of("ENOENT: no such file or directory, open '");
            append_str(&mut v, path);
            append_str(&mut v, "'");
            string_of(v.as_slice())
        },
        ReadFailure::PermissionDenied => {
            let mut v = chars_of("EACCES: permission denied, open '");
            append_str(&mut v, path);
            append_str(&mut v, "'");
            string_of(v.as_slice())
        },
        ReadFailure::Other(e) => {
            let v = chars_of(e.as_str());
            string_of(v.as_slice())
        },
    }
}

} // verus!
