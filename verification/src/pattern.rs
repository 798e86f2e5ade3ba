//! Regular-expression matching through the `regex` crate.

use vstd::prelude::*;

use crate::text::{chars_of, string_of};

verus! {

/// Whether `regex` finds a match of `pattern` in `text` (`Regex::new`
/// followed by `Regex::is_match`; a pattern that does not compile matches
/// nothing).
pub uninterp spec fn regex_match(pattern: Seq<char>, text: Seq<char>) -> bool;

/// How many non-overlapping matches of `pattern` `regex` finds in `text`
/// (`Regex::find_iter`, counted).
pub uninterp spec fn regex_count(pattern: Seq<char>, text: Seq<char>) -> nat;

/// `regex::Regex::new(pattern)` then `Regex::is_match(text)`. Claimed: the
/// answer is `regex_match(pattern@, text@)`, a function of the two strings
/// alone. What the pattern language means is not stated.
#[verifier::external_body]
pub(crate) fn is_match(pattern: &str, text: &[char]) -> (b: bool)
    ensures
        b == regex_match(pattern@, text@),
{
    let t: String = text.iter().collect();
    regex::Regex::new(pattern).map(|re| re.is_match(&t)).unwrap_or(false)
}

/// `regex::Regex::new(pattern)` then `Regex::find_iter(text).count()`.
/// Claimed: the count is `regex_count(pattern@, text@)`, a function of the
/// two strings alone.
#[verifier::external_body]
pub(crate) fn count_matches(pattern: &str, text: &[char]) -> (n: usize)
    ensures
        n as nat == regex_count(pattern@, text@),
{
    let t: String = text.iter().collect();
    regex::Regex::new(pattern).map(|re| re.find_iter(&t).count()).unwrap_or(0)
}

/// The characters that mean something in a regex: `regex-syntax`'s
/// `is_meta_character`.
pub open spec fn regex_meta(c: char) -> bool {
    c == '\\' || c == '.' || c == '+' || c == '*' || c == '?' || c == '(' || c == ')' || c == '|' || c == '['
        || c == ']' || c == '{' || c == '}' || c == '^' || c == '$' || c == '#' || c == '&' || c == '-' || c == '~'
}

/// `text` with a backslash before each regex meta character.
pub open spec fn escaped(text: Seq<char>) -> Seq<char>
    decreases text.len(),
{
    if text.len() == 0 {
        Seq::empty()
    } else {
        escaped(text.drop_last()) + if regex_meta(text.last()) {
            seq!['\\', text.last()]
        } else {
            seq![text.last()]
        }
    }
}

/// `text` with a backslash before each regex meta character, as
/// `regex::escape` writes it.
pub(crate) fn escape(text: &str) -> (r: String)
    ensures
        r@ == escaped(text@),
{
    let c = chars_of(text);
    let mut out: Vec<char> = Vec::new();
    let mut i: usize = 0;
    while i < c.len()
        invariant
            0 <= i <= c@.len(),
            c@ == text@,
            out@ == escaped(c@.take(i as int)),
        decreases c@.len() - i,
    {
        let ch = c[i];
        proof {
            assert(c@.take(i + 1).drop_last() =~= c@.take(i as int));
            assert(c@.take(i + 1).last() == ch);
        }
        if ch == '\\' || ch == '.' || ch == '+' || ch == '*' || ch == '?' || ch == '(' || ch == ')' || ch == '|' || ch
            == '[' || ch == ']' || ch == '{' || ch == '}' || ch == '^' || ch == '$' || ch == '#' || ch == '&' || ch == '-'
            || ch == '~' {
            out.push('\\');
            out.push(ch);
            proof {
                assert(out@ =~= escaped(c@.take(i as int)) + seq!['\\', ch]);
            }
        } else {
            out.push(ch);
            proof {
                assert(out@ =~= escaped(c@.take(i as int)) + seq![ch]);
            }
        }
        i = i + 1;
    }
    proof {
        assert(c@.take(c@.len() as int) =~= c@);
    }
    string_of(out.as_slice())
}

} // verus!
