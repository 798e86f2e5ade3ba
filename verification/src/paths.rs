//! Project paths as the artifact checks name them: `/`-separated paths
//! resolved and normalised (`.` and `..` taken out, repeated separators
//! merged), and a file named relative to the project root when it lies
//! inside it.

use vstd::prelude::*;

use crate::source_rules::is_str;
use crate::staleness::join;
use crate::text::{append_chars, chars_of, has_prefix, split_by, split_chars, starts_with, string_of, views};
use crate::tmux::strings_view;

verus! {

/// The directory stack after one piece of a path: empty pieces and `.` are
/// skipped, `..` leaves the last directory (never above the root).
pub open spec fn step_segment(stack: Seq<Seq<char>>, piece: Seq<char>) -> Seq<Seq<char>> {
    if piece.len() == 0 || piece == "."@ {
        stack
    } else if piece == ".."@ {
        if stack.len() > 0 {
            stack.drop_last()
        } else {
            stack
        }
    } else {
        stack.push(piece)
    }
}

/// The directory stack after `pieces[..k]`.
pub open spec fn segments_upto(pieces: Seq<Seq<char>>, k: int) -> Seq<Seq<char>>
    decreases k,
{
    if k <= 0 {
        Seq::empty()
    } else {
        step_segment(segments_upto(pieces, k - 1), pieces[k - 1])
    }
}

/// The names a path comes to, from the root, once normalised.
pub open spec fn segments(p: Seq<char>) -> Seq<Seq<char>> {
    let pieces = split_by(p, seq!['/']);
    segments_upto(pieces, pieces.len() as int)
}

/// A path normalised from the root: `/` and its names joined by `/`.
pub open spec fn normalized(p: Seq<char>) -> Seq<char> {
    seq!['/'] + join(segments(p), "/"@)
}

/// `p` resolved against the working directory `cwd` and normalised.
pub open spec fn resolved(p: Seq<char>, cwd: Seq<char>) -> Seq<char> {
    if p.len() > 0 && p[0] == '/' {
        normalized(p)
    } else {
        normalized(cwd + seq!['/'] + p)
    }
}

/// The name of `fp` relative to `root`, both resolved against `/`, when
/// `fp` lies strictly inside `root` and that name does not start with `..`.
pub open spec fn relative_inside(fp: Seq<char>, root: Seq<char>) -> Option<Seq<char>> {
    let rs = segments(root);
    let fs = segments(fp);
    if fs.len() > rs.len() && fs.take(rs.len() as int) == rs && !has_prefix(fs[rs.len() as int], ".."@) {
        Some(join(fs.skip(rs.len() as int), "/"@))
    } else {
        None
    }
}

/// What a project file is called in a finding: its name relative to the
/// root when it lies inside it, else the path as given.
pub open spec fn to_relative_spec(file_path: Option<Seq<char>>, root: Seq<char>) -> Option<Seq<char>> {
    match file_path {
        Some(fp) => match relative_inside(fp, root) {
            Some(r) => Some(r),
            None => Some(fp),
        },
        None => None,
    }
}

/// The roots the config checks read: the project root, and the repo root
/// when it is given, not empty, and another directory.
pub open spec fn unique_roots_spec(a: Seq<char>, b: Option<Seq<char>>, cwd: Seq<char>) -> Seq<Seq<char>> {
    let first = resolved(a, cwd);
    match b {
        Some(r) => if r.len() > 0 && resolved(r, cwd) != first {
            seq![first, resolved(r, cwd)]
        } else {
            seq![first]
        },
        None => seq![first],
    }
}

/// The names of `p` once normalised.
pub fn path_segments(p: &[char]) -> (r: Vec<Vec<char>>)
    ensures
        views(r@) == segments(p@),
{
    let slash: Vec<char> = vec!['/'];
    let pieces = split_chars(p, slash.as_slice());
    proof {
        assert(slash@ =~= seq!['/']);
    }
    let ghost ps = views(pieces@);
    let mut stack: Vec<Vec<char>> = Vec::new();
    let mut i: usize = 0;
    while i < pieces.len()
        invariant
            ps == views(pieces@),
            ps == split_by(p@, seq!['/']),
            0 <= i <= pieces@.len(),
            views(stack@) == segments_upto(ps, i as int),
        decreases pieces@.len() - i,
    {
        let piece = &pieces[i];
        let ghost before = views(stack@);
        proof {
            assert(ps[i as int] == piece@);
        }
        let dot: Vec<char> = vec!['.'];
        let dotdot: Vec<char> = vec!['.', '.'];
        proof {
            reveal_strlit(".");
            reveal_strlit("..");
            assert(dot@ =~= "."@);
            assert(dotdot@ =~= ".."@);
        }
        if piece.len() == 0 || crate::text::same_chars(piece.as_slice(), dot.as_slice()) {
        } else if crate::text::same_chars(piece.as_slice(), dotdot.as_slice()) {
            if stack.len() > 0 {
                stack.pop();
                proof {
                    assert(views(stack@) =~= before.drop_last());
                }
            }
        } else {
            stack.push(piece.clone());
            proof {
                assert(views(stack@) =~= before.push(piece@));
            }
        }
        i = i + 1;
    }
    stack
}

/// `items` joined by `/`.
fn join_segments(items: &Vec<Vec<char>>) -> (s: Vec<char>)
    ensures
        s@ == join(views(items@), "/"@),
{
    let ghost all = views(items@);
    let mut out: Vec<char> = Vec::new();
    let mut i: usize = 0;
    proof {
        assert(all.take(0) =~= Seq::<Seq<char>>::empty());
    }
    while i < items.len()
        invariant
            all == views(items@),
            0 <= i <= items@.len(),
            out@ == join(all.take(i as int), "/"@),
        decreases items@.len() - i,
    {
        proof {
            assert(all.take(i + 1).drop_last() =~= all.take(i as int));
            assert(all[i as int] == items@[i as int]@);
            reveal_strlit("/");
        }
        let ghost before = out@;
        if i > 0 {
            out.push('/');
        }
        append_chars(&mut out, items[i].as_slice());
        proof {
            if i > 0 {
                assert(out@ =~= before + "/"@ + all[i as int]);
            } else {
                assert(out@ =~= all[i as int]);
            }
        }
        i = i + 1;
    }
    proof {
        assert(all.take(items@.len() as int) =~= all);
    }
    out
}

/// `p` normalised from the root.
fn normalize_chars(p: &[char]) -> (r: Vec<char>)
    ensures
        r@ == normalized(p@),
{
    let segs = path_segments(p);
    let joined = join_segments(&segs);
    let mut out: Vec<char> = vec!['/'];
    append_chars(&mut out, joined.as_slice());
    proof {
        assert(out@ =~= seq!['/'] + join(segments(p@), "/"@));
    }
    out
}

/// `p` resolved against the working directory `cwd` and normalised.
pub fn resolve(p: &str, cwd: &str) -> (r: String)
    ensures
        r@ == resolved(p@, cwd@),
{
    let c = chars_of(p);
    if c.len() > 0 && c[0] == '/' {
        let n = normalize_chars(c.as_slice());
        string_of(n.as_slice())
    } else {
        let mut full = chars_of(cwd);
        full.push('/');
        append_chars(&mut full, c.as_slice());
        let n = normalize_chars(full.as_slice());
        proof {
            assert(full@ =~= cwd@ + seq!['/'] + p@);
        }
        string_of(n.as_slice())
    }
}

/// What a project file is called in a finding: its name relative to
/// `root` when it lies inside it, else `file_path` as given.
pub fn to_relative(file_path: Option<&str>, root: &str) -> (r: Option<String>)
    ensures
        match r {
            Some(s) => to_relative_spec(crate::tmux::opt_view(file_path), root@) == Some(s@),
            None => to_relative_spec(crate::tmux::opt_view(file_path), root@) is None,
        },
{
    let fp = match file_path {
        Some(fp) => fp,
        None => return None,
    };
    let fc = chars_of(fp);
    let rc = chars_of(root);
    let fs = path_segments(fc.as_slice());
    let rs = path_segments(rc.as_slice());
    let ghost fsv = views(fs@);
    let ghost rsv = views(rs@);
    if fs.len() > rs.len() {
        let mut k: usize = 0;
        while k < rs.len() && crate::text::same_chars(fs[k].as_slice(), rs[k].as_slice())
            invariant
                fsv == views(fs@),
                rsv == views(rs@),
                fs@.len() > rs@.len(),
                0 <= k <= rs@.len(),
                forall|j: int| 0 <= j < k ==> fsv[j] == rsv[j],
            decreases rs@.len() - k,
        {
            proof {
                assert(fsv[k as int] == fs@[k as int]@ && rsv[k as int] == rs@[k as int]@);
            }
            k = k + 1;
        }
        let dd: Vec<char> = vec!['.', '.'];
        proof {
            reveal_strlit("..");
            assert(dd@ =~= ".."@);
            assert(fsv.len() == fs@.len() && rsv.len() == rs@.len());
        }
        if k == rs.len() && !starts_with(fs[k].as_slice(), dd.as_slice()) {
            let mut rest: Vec<Vec<char>> = Vec::new();
            let mut j: usize = k;
            while j < fs.len()
                invariant
                    fsv == views(fs@),
                    k <= j <= fs@.len(),
                    views(rest@) =~= fsv.subrange(k as int, j as int),
                decreases fs@.len() - j,
            {
                let ghost before = views(rest@);
                let seg = fs[j].clone();
                proof {
                    assert(seg@ == fs@[j as int]@);
                    assert(fsv[j as int] == fs@[j as int]@);
                }
                rest.push(seg);
                proof {
                    assert(views(rest@) =~= before.push(fsv[j as int]));
                    assert(fsv.subrange(k as int, j + 1) =~= fsv.subrange(k as int, j as int).push(fsv[j as int]));
                }
                j = j + 1;
            }
            let joined = join_segments(&rest);
            proof {
                assert(fsv.take(rsv.len() as int) =~= rsv);
                assert(fsv.skip(rsv.len() as int) =~= fsv.subrange(k as int, fs@.len() as int));
                assert(fsv[rsv.len() as int] == fs@[k as int]@);
            }
            return Some(string_of(joined.as_slice()));
        }
        proof {
            if k < rs@.len() {
                assert(fsv[k as int] == fs@[k as int]@ && rsv[k as int] == rs@[k as int]@);
                assert(fsv.take(rsv.len() as int)[k as int] != rsv[k as int]);
            } else {
                assert(fsv[rsv.len() as int] == fs@[k as int]@);
            }
        }
    }
    Some(string_of(fc.as_slice()))
}

/// The roots the config checks read, resolved against the working
/// directory `cwd`: the project root, and the repo root when it is given,
/// not empty, and another directory.
pub fn unique_roots(a: &str, b: Option<&str>, cwd: &str) -> (r: Vec<String>)
    ensures
        strings_view(r@) == unique_roots_spec(a@, crate::tmux::opt_view(b), cwd@),
{
    let first = resolve(a, cwd);
    let mut roots: Vec<String> = Vec::new();
    match b {
        Some(b) => {
            if b.unicode_len() > 0 {
                let second = resolve(b, cwd);
                let same = is_str(second.as_str(), first.as_str());
                roots.push(first);
                if !same {
                    roots.push(second);
                }
            } else {
                roots.push(first);
            }
        },
        None => {
            roots.push(first);
        },
    }
    proof {
        assert(strings_view(roots@) =~= unique_roots_spec(a@, crate::tmux::opt_view(b), cwd@));
    }
    roots
}

} // verus!
