//! What a rule reports: the rule's id, the file, a snippet, a 1-based line,
//! and named extras kept in the order they were added.

use vstd::prelude::*;

use crate::text::{chars_of, string_of};

verus! {

/// A value of a finding's extras.
#[derive(Debug, Clone, PartialEq, Eq)]
pub enum Extra {
    Int(u128),
    Bool(bool),
    Text(String),
}

/// An extra as a mathematical value.
pub enum ExtraValue {
    Int(int),
    Bool(bool),
    Text(Seq<char>),
}

impl Extra {
    pub open spec fn value(self) -> ExtraValue {
        match self {
            Extra::Int(n) => ExtraValue::Int(n as int),
            Extra::Bool(b) => ExtraValue::Bool(b),
            Extra::Text(s) => ExtraValue::Text(s@),
        }
    }
}

/// One finding of a terminal rule. Every terminal rule is advisory.
#[derive(Debug, Clone)]
pub struct Finding {
    /// The rule's registry id (`tui-...`).
    pub antipattern: String,
    pub file: String,
    pub snippet: String,
    /// The 1-based line (for a frame, the row).
    pub line: usize,
    pub severity: String,
    /// Set by [`derive_advisory_flag`]; `None` until then.
    pub advisory: Option<bool>,
    /// Named extras, in the order they were added.
    pub extras: Vec<(String, Extra)>,
}

/// A finding as mathematical values.
pub struct FindingView {
    pub antipattern: Seq<char>,
    pub file: Seq<char>,
    pub snippet: Seq<char>,
    pub line: int,
    pub severity: Seq<char>,
    pub advisory: Option<bool>,
    pub extras: Seq<(Seq<char>, ExtraValue)>,
}

/// The extras of a finding as values.
pub open spec fn extras_of(extras: Seq<(String, Extra)>) -> Seq<(Seq<char>, ExtraValue)> {
    Seq::new(extras.len(), |i: int| (extras[i].0@, extras[i].1.value()))
}

impl View for Finding {
    type V = FindingView;

    open spec fn view(&self) -> FindingView {
        FindingView {
            antipattern: self.antipattern@,
            file: self.file@,
            snippet: self.snippet@,
            line: self.line as int,
            severity: self.severity@,
            advisory: self.advisory,
            extras: extras_of(self.extras@),
        }
    }
}

/// A list of findings as values.
pub open spec fn findings_view(v: Seq<Finding>) -> Seq<FindingView> {
    Seq::new(v.len(), |i: int| v[i]@)
}

/// A fresh advisory finding of rule `id` with the given extras, not yet
/// flagged.
pub open spec fn new_finding(
    id: Seq<char>,
    file: Seq<char>,
    snippet: Seq<char>,
    line: int,
    extras: Seq<(Seq<char>, ExtraValue)>,
) -> FindingView {
    FindingView { antipattern: id, file, snippet, line, severity: "advisory"@, advisory: None, extras }
}

/// A finding of rule `id` with no extras yet.
pub fn finding(id: &str, file: &str, snippet: &[char], line: usize) -> (f: Finding)
    ensures
        f@ == new_finding(id@, file@, snippet@, line as int, Seq::empty()),
{
    let f = Finding {
        antipattern: string_of(chars_of(id).as_slice()),
        file: string_of(chars_of(file).as_slice()),
        snippet: string_of(snippet),
        line,
        severity: string_of(chars_of("advisory").as_slice()),
        advisory: None,
        extras: Vec::new(),
    };
    proof {
        assert(extras_of(f.extras@) =~= Seq::<(Seq<char>, ExtraValue)>::empty());
    }
    f
}

/// Add an extra after those already there.
pub fn push_extra(f: &mut Finding, key: &str, value: Extra)
    ensures
        final(f)@ == (FindingView { extras: old(f)@.extras.push((key@, value.value())), ..old(f)@ }),
{
    let k = string_of(chars_of(key).as_slice());
    let ghost before = extras_of(f.extras@);
    let ghost kv = (k@, value.value());
    f.extras.push((k, value));
    proof {
        assert(extras_of(f.extras@) =~= before.push(kv));
    }
}

/// Mark the finding advisory exactly when its severity is `advisory`.
pub fn derive_advisory_flag(f: &mut Finding)
    ensures
        final(f)@ == (FindingView { advisory: Some(old(f)@.severity == "advisory"@), ..old(f)@ }),
{
    let sev = chars_of(f.severity.as_str());
    let adv = chars_of("advisory");
    let b = crate::text::same_chars(sev.as_slice(), adv.as_slice());
    f.advisory = Some(b);
}

} // verus!
