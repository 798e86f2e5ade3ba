//! The boot checks on a project's artifacts besides its platform evidence:
//! the product record's sections and schema stamp, the design sidecar, the
//! config files, the build path, and the surface briefs. Reading the files
//! (and resolving paths) is the caller's I/O; these functions decide from
//! what was read.

use vstd::prelude::*;

use crate::pattern::{escape, escaped, is_match, regex_match};
use crate::source_rules::is_str;
use crate::staleness::{finding, findings_view, join, ticked, Finding, FindingView};
use crate::tmux::strings_view;
use crate::staleness::{native_evidence_spec, native_platform_evidence, texts_view};
use crate::text::{
    append_chars, append_str, chars_of, decimal, decimal_chars, has_prefix, lowercase, starts_with, string_of, to_lowercase,
};

verus! {

// ─── Sections of a markdown record ──────────────────────────────────────────

/// The regex that finds a `## <heading>` line, case-insensitively, on any
/// line of the record.
pub open spec fn section_pattern(heading: Seq<char>) -> Seq<char> {
    "(?im)^##\\s+"@ + escaped(heading) + "\\s*$"@
}

/// The record has a `## <heading>` line.
pub open spec fn has_section_spec(markdown: Seq<char>, heading: Seq<char>) -> bool {
    regex_match(section_pattern(heading), markdown)
}

/// Does `markdown` hold a `## <heading>` line?
pub fn has_section(markdown: &str, heading: &str) -> (b: bool)
    ensures
        b == has_section_spec(markdown@, heading@),
{
    let mut pattern = chars_of("(?im)^##\\s+");
    let e = escape(heading);
    append_str(&mut pattern, e.as_str());
    append_str(&mut pattern, "\\s*$");
    let p = string_of(pattern.as_slice());
    let m = chars_of(markdown);
    is_match(p.as_str(), m.as_slice())
}

// ─── The product record ─────────────────────────────────────────────────────

/// What the artifact schema says of the product record: the retired
/// sections (heading, why it is retired), the sections the current record
/// adds, and the current schema version.
#[derive(Debug, Clone)]
pub struct ProductSchema {
    pub deprecated_sections: Vec<(String, String)>,
    pub current_sections: Vec<String>,
    pub version: u64,
}

/// The schema as characters.
pub struct ProductSchemaView {
    pub deprecated_sections: Seq<(Seq<char>, Seq<char>)>,
    pub current_sections: Seq<Seq<char>>,
    pub version: nat,
}

impl View for ProductSchema {
    type V = ProductSchemaView;

    open spec fn view(&self) -> ProductSchemaView {
        ProductSchemaView {
            deprecated_sections: Seq::new(
                self.deprecated_sections@.len(),
                |i: int| (self.deprecated_sections@[i].0@, self.deprecated_sections@[i].1@),
            ),
            current_sections: Seq::new(self.current_sections@.len(), |i: int| self.current_sections@[i]@),
            version: self.version as nat,
        }
    }
}

/// The finding for a retired section the record still carries.
pub open spec fn deprecated_view(path: Seq<char>, heading: Seq<char>, reason: Seq<char>) -> FindingView {
    FindingView {
        id: "product-deprecated-"@ + lowercase(heading),
        artifact: "PRODUCT.md"@,
        path: Some(path),
        severity: "mention"@,
        summary: "PRODUCT.md still carries a `## "@ + heading + "` section. "@ + reason,
        fix: "Treat `## "@ + heading
            + "` as absent for every decision this session. Offer to delete the section; do not let its value influence the work either way."@,
    }
}

/// The retired sections among `sections[..k]` that the record carries.
pub open spec fn deprecated_upto(product: Seq<char>, path: Seq<char>, sections: Seq<(Seq<char>, Seq<char>)>, k: int) -> Seq<
    FindingView,
>
    decreases k,
{
    if k <= 0 {
        Seq::empty()
    } else {
        deprecated_upto(product, path, sections, k - 1) + if has_section_spec(product, sections[k - 1].0) {
            seq![deprecated_view(path, sections[k - 1].0, sections[k - 1].1)]
        } else {
            Seq::<FindingView>::empty()
        }
    }
}

/// The record carries one of the sections the current schema adds.
pub open spec fn has_current_section(product: Seq<char>, sections: Seq<Seq<char>>) -> bool {
    exists|i: int| 0 <= i < sections.len() && has_section_spec(product, #[trigger] sections[i])
}

/// What the schema stamp says: a record with neither a stamp nor any
/// current section predates the schema; a stamp older than the schema is
/// outdated.
pub open spec fn stamp_views(product: Seq<char>, path: Seq<char>, schema: ProductSchemaView, stamped: Option<nat>) -> Seq<FindingView> {
    if stamped is None && !has_current_section(product, schema.current_sections) {
        seq![
            FindingView {
                id: "product-schema-legacy"@,
                artifact: "PRODUCT.md"@,
                path: Some(path),
                severity: "route"@,
                summary: "PRODUCT.md has no schema stamp and none of the sections the current record adds ("@ + join(
                    schema.current_sections,
                    ", "@,
                ) + "), so it predates this version of the product record."@,
                fix: "Offer `init`, which preserves confirmed answers and fills the gaps by interview. Do not rewrite the file from inference."@,
            },
        ]
    } else if stamped matches Some(v) && v < schema.version {
        seq![
            FindingView {
                id: "product-schema-outdated"@,
                artifact: "PRODUCT.md"@,
                path: Some(path),
                severity: "route"@,
                summary: "PRODUCT.md is stamped product-schema "@ + decimal(stamped->0) + "; the current record is "@ + decimal(
                    schema.version,
                ) + "."@,
                fix: "Offer `init` to bring the record current, preserving confirmed answers."@,
            },
        ]
    } else {
        Seq::empty()
    }
}

/// The product-record findings: each retired section it carries, then what
/// its schema stamp says. A missing or empty record has none.
pub open spec fn product_spec(product: Option<Seq<char>>, path: Seq<char>, schema: ProductSchemaView, stamped: Option<nat>) -> Seq<
    FindingView,
> {
    match product {
        Some(p) if p.len() > 0 => deprecated_upto(p, path, schema.deprecated_sections, schema.deprecated_sections.len() as int)
            + stamp_views(p, path, schema, stamped),
        _ => Seq::empty(),
    }
}

/// An optional string slice as characters.
pub open spec fn opt_str(s: Option<&str>) -> Option<Seq<char>> {
    match s {
        Some(t) => Some(t@),
        None => None,
    }
}

/// An optional `u64` as a natural number.
pub open spec fn opt_nat(n: Option<u64>) -> Option<nat> {
    match n {
        Some(v) => Some(v as nat),
        None => None,
    }
}

/// `items` joined by `sep`.
fn join_strings(items: &Vec<String>, sep: &str) -> (s: Vec<char>)
    ensures
        s@ == join(Seq::new(items@.len(), |i: int| items@[i]@), sep@),
{
    let ghost all = Seq::new(items@.len(), |i: int| items@[i]@);
    let mut out: Vec<char> = Vec::new();
    let mut i: usize = 0;
    proof {
        assert(all.take(0) =~= Seq::<Seq<char>>::empty());
    }
    while i < items.len()
        invariant
            all == Seq::new(items@.len(), |i: int| items@[i]@),
            0 <= i <= items@.len(),
            out@ == join(all.take(i as int), sep@),
        decreases items@.len() - i,
    {
        proof {
            assert(all.take(i + 1).drop_last() =~= all.take(i as int));
            assert(all[i as int] == items@[i as int]@);
        }
        if i > 0 {
            append_str(&mut out, sep);
        }
        append_str(&mut out, items[i].as_str());
        i = i + 1;
    }
    proof {
        assert(all.take(items@.len() as int) =~= all);
    }
    out
}

/// The finding for one retired section.
fn deprecated_finding(path: &str, heading: &str, reason: &str) -> (f: Finding)
    ensures
        f@ == deprecated_view(path@, heading@, reason@),
{
    let mut id = chars_of("product-deprecated-");
    let low = to_lowercase(heading);
    append_str(&mut id, low.as_str());
    let mut summary = chars_of("PRODUCT.md still carries a `## ");
    append_str(&mut summary, heading);
    append_str(&mut summary, "` section. ");
    append_str(&mut summary, reason);
    let mut fix = chars_of("Treat `## ");
    append_str(&mut fix, heading);
    append_str(
        &mut fix,
        "` as absent for every decision this session. Offer to delete the section; do not let its value influence the work either way.",
    );
    let f = finding(
        string_of(id.as_slice()).as_str(),
        "PRODUCT.md",
        Some(string_of(chars_of(path).as_slice())),
        "mention",
        string_of(summary.as_slice()),
        string_of(fix.as_slice()),
    );
    proof {
        assert(f@ =~= deprecated_view(path@, heading@, reason@));
    }
    f
}

/// The product-record check: the retired sections `product` still carries
/// and what its schema stamp (`stamped`, as the artifact schema reads it)
/// says against `schema`.
pub fn check_product(product: Option<&str>, product_path: &str, schema: &ProductSchema, stamped: Option<u64>) -> (out: Vec<
    Finding,
>)
    ensures
        findings_view(out@) == product_spec(opt_str(product), product_path@, schema@, opt_nat(stamped)),
{
    let p = match product {
        Some(p) => p,
        None => {
            proof {
                assert(findings_view(Seq::<Finding>::empty()) =~= Seq::<FindingView>::empty());
            }
            return Vec::new();
        },
    };
    if p.unicode_len() == 0 {
        proof {
            assert(findings_view(Seq::<Finding>::empty()) =~= Seq::<FindingView>::empty());
        }
        return Vec::new();
    }
    let ghost sv = schema@;
    let mut out: Vec<Finding> = Vec::new();
    let mut i: usize = 0;
    proof {
        assert(findings_view(out@) =~= Seq::<FindingView>::empty());
    }
    while i < schema.deprecated_sections.len()
        invariant
            sv == schema@,
            p@.len() > 0,
            0 <= i <= schema.deprecated_sections@.len(),
            findings_view(out@) == deprecated_upto(p@, product_path@, sv.deprecated_sections, i as int),
        decreases schema.deprecated_sections@.len() - i,
    {
        let heading = schema.deprecated_sections[i].0.as_str();
        let reason = schema.deprecated_sections[i].1.as_str();
        proof {
            assert(sv.deprecated_sections[i as int] == (heading@, reason@));
        }
        if has_section(p, heading) {
            let ghost before = findings_view(out@);
            out.push(deprecated_finding(product_path, heading, reason));
            proof {
                assert(findings_view(out@) =~= before.push(deprecated_view(product_path@, heading@, reason@)));
            }
        } else {
            proof {
                assert(deprecated_upto(p@, product_path@, sv.deprecated_sections, i + 1) =~= deprecated_upto(
                    p@,
                    product_path@,
                    sv.deprecated_sections,
                    i as int,
                ));
            }
        }
        i = i + 1;
    }
    let mut current = false;
    let mut k: usize = 0;
    while k < schema.current_sections.len() && !current
        invariant
            sv == schema@,
            0 <= k <= schema.current_sections@.len(),
            current ==> has_current_section(p@, sv.current_sections),
            !current ==> forall|j: int| 0 <= j < k ==> !has_section_spec(p@, #[trigger] sv.current_sections[j]),
        decreases schema.current_sections@.len() - k,
    {
        proof {
            assert(sv.current_sections[k as int] == schema.current_sections@[k as int]@);
        }
        if has_section(p, schema.current_sections[k].as_str()) {
            current = true;
        }
        k = k + 1;
    }
    let ghost before = findings_view(out@);
    match stamped {
        None => {
            if !current {
                let listed = join_strings(&schema.current_sections, ", ");
                let mut summary = chars_of("PRODUCT.md has no schema stamp and none of the sections the current record adds (");
                append_chars(&mut summary, listed.as_slice());
                append_str(&mut summary, "), so it predates this version of the product record.");
                out.push(
                    finding(
                        "product-schema-legacy",
                        "PRODUCT.md",
                        Some(string_of(chars_of(product_path).as_slice())),
                        "route",
                        string_of(summary.as_slice()),
                        string_of(
                            chars_of(
                                "Offer `init`, which preserves confirmed answers and fills the gaps by interview. Do not rewrite the file from inference.",
                            ).as_slice(),
                        ),
                    ),
                );
                proof {
                    assert(Seq::new(schema.current_sections@.len(), |i: int| schema.current_sections@[i]@)
                        =~= sv.current_sections);
                    assert(findings_view(out@) =~= before + stamp_views(p@, product_path@, sv, opt_nat(stamped)));
                }
            } else {
                proof {
                    assert(findings_view(out@) =~= before + stamp_views(p@, product_path@, sv, opt_nat(stamped)));
                }
            }
        },
        Some(v) => {
            if v < schema.version {
                let mut summary = chars_of("PRODUCT.md is stamped product-schema ");
                let a = decimal_chars(v);
                append_chars(&mut summary, a.as_slice());
                append_str(&mut summary, "; the current record is ");
                let b = decimal_chars(schema.version);
                append_chars(&mut summary, b.as_slice());
                append_str(&mut summary, ".");
                out.push(
                    finding(
                        "product-schema-outdated",
                        "PRODUCT.md",
                        Some(string_of(chars_of(product_path).as_slice())),
                        "route",
                        string_of(summary.as_slice()),
                        string_of(chars_of("Offer `init` to bring the record current, preserving confirmed answers.").as_slice()),
                    ),
                );
                proof {
                    assert(findings_view(out@) =~= before + stamp_views(p@, product_path@, sv, opt_nat(stamped)));
                }
            } else {
                proof {
                    assert(findings_view(out@) =~= before + stamp_views(p@, product_path@, sv, opt_nat(stamped)));
                }
            }
        },
    }
    out
}

// ─── Paths ──────────────────────────────────────────────────────────────────

/// `name` under `dir` with `sep` between them: none added when `dir` is
/// empty or already ends with `sep`.
pub open spec fn path_join(dir: Seq<char>, name: Seq<char>, sep: char) -> Seq<char> {
    if dir.len() == 0 {
        name
    } else if dir.last() == sep {
        dir + name
    } else {
        dir + seq![sep] + name
    }
}

/// `name` under `dir`.
pub fn join_path(dir: &str, name: &str, sep: char) -> (r: String)
    ensures
        r@ == path_join(dir@, name@, sep),
{
    let mut v = chars_of(dir);
    if v.len() > 0 && v[v.len() - 1] != sep {
        v.push(sep);
    }
    append_str(&mut v, name);
    string_of(v.as_slice())
}

/// Where the design sidecar may sit: the canonical location, the legacy
/// file at the project root, and the legacy file in the context directory
/// (the project root when there is none) unless it is one of those two.
pub open spec fn sidecar_candidates(project_root: Seq<char>, context_dir: Option<Seq<char>>, sep: char) -> Seq<Seq<char>> {
    let c = seq![path_join(project_root, ".impeccable/design.json"@, sep), path_join(project_root, "DESIGN.json"@, sep)];
    let legacy = path_join(
        match context_dir {
            Some(d) => d,
            None => project_root,
        },
        "DESIGN.json"@,
        sep,
    );
    if c.contains(legacy) {
        c
    } else {
        c.push(legacy)
    }
}

/// The design sidecar's candidate locations, canonical first.
pub fn design_sidecar_candidates_for(project_root: &str, context_dir: Option<&str>, sep: char) -> (c: Vec<String>)
    ensures
        strings_view(c@) == sidecar_candidates(project_root@, opt_str(context_dir), sep),
{
    let canonical = join_path(project_root, ".impeccable/design.json", sep);
    let root_legacy = join_path(project_root, "DESIGN.json", sep);
    let legacy = join_path(
        match context_dir {
            Some(d) => d,
            None => project_root,
        },
        "DESIGN.json",
        sep,
    );
    let known = is_str(legacy.as_str(), canonical.as_str()) || is_str(legacy.as_str(), root_legacy.as_str());
    let ghost two = seq![canonical@, root_legacy@];
    proof {
        assert(two.contains(legacy@) <==> (legacy@ == canonical@ || legacy@ == root_legacy@)) by {
            if two.contains(legacy@) {
                let k = choose|k: int| 0 <= k < two.len() && two[k] == legacy@;
                assert(k == 0 || k == 1);
            }
            if legacy@ == canonical@ {
                assert(two[0] == legacy@);
            }
            if legacy@ == root_legacy@ {
                assert(two[1] == legacy@);
            }
        }
    }
    let mut c: Vec<String> = Vec::new();
    c.push(canonical);
    c.push(root_legacy);
    if !known {
        c.push(legacy);
    }
    proof {
        assert(strings_view(c@) =~= sidecar_candidates(project_root@, opt_str(context_dir), sep));
    }
    c
}

// ─── The design sidecar ─────────────────────────────────────────────────────

/// What was read of the design sidecar at the first of its candidate
/// locations that exists.
#[derive(Debug, Clone)]
pub struct SidecarFile {
    /// Where it sits, relative to the project root.
    pub rel_path: String,
    /// The canonical location, relative to the project root, when the
    /// sidecar sits somewhere else.
    pub legacy_of: Option<String>,
    /// Its JSON when it parses: whether the value is truthy, and the schema
    /// version it declares.
    pub json: Option<(bool, Option<u64>)>,
    /// When it was last written, in milliseconds.
    pub modified_ms: Option<u64>,
}

/// The legacy-location finding.
pub open spec fn sidecar_legacy_spec(f: SidecarFile) -> Seq<FindingView> {
    match f.legacy_of {
        Some(c) => seq![
            FindingView {
                id: "design-sidecar-legacy-path"@,
                artifact: "design.json"@,
                path: Some(f.rel_path@),
                severity: "auto"@,
                summary: "The design sidecar sits at "@ + f.rel_path@ + ", a location kept only for backward compatibility."@,
                fix: "Move it to "@ + c@ + " the next time the sidecar is written. No user decision is needed."@,
            },
        ],
        None => Seq::empty(),
    }
}

/// The declared schema version as it is shown: the number, or `unset`.
pub open spec fn version_text(v: Option<u64>) -> Seq<char> {
    match v {
        Some(n) => decimal(n as nat),
        None => "unset"@,
    }
}

/// The outdated-schema finding: a truthy sidecar whose version is unset or
/// older than `current`.
pub open spec fn sidecar_schema_spec(f: SidecarFile, current: nat) -> Seq<FindingView> {
    match f.json {
        Some((truthy, v)) => if truthy && (v is None || (v->0 as nat) < current) {
            seq![
                FindingView {
                    id: "design-sidecar-schema-outdated"@,
                    artifact: "design.json"@,
                    path: Some(f.rel_path@),
                    severity: "route"@,
                    summary: f.rel_path@ + " is schemaVersion "@ + version_text(v) + "; the current sidecar is "@ + decimal(
                        current,
                    )
                        + ". Token primitives moved to the DESIGN.md frontmatter, so the old shape carries values that are now read from two places."@,
                    fix: "Offer `document` to regenerate the sidecar. It reads the existing DESIGN.md, so no interview is needed."@,
                },
            ]
        } else {
            Seq::empty()
        },
        None => Seq::empty(),
    }
}

/// The stale finding: DESIGN.md was written after the sidecar.
pub open spec fn sidecar_stale_spec(f: SidecarFile, design_ms: Option<u64>) -> Seq<FindingView> {
    match (design_ms, f.modified_ms) {
        (Some(d), Some(m)) => if d > m {
            seq![
                FindingView {
                    id: "design-sidecar-stale"@,
                    artifact: "design.json"@,
                    path: Some(f.rel_path@),
                    severity: "mention"@,
                    summary: "DESIGN.md was edited after "@ + f.rel_path@
                        + " was generated, so the sidecar's ramps, shadows, motion tokens, and component snippets may contradict it."@,
                    fix: "Offer `document` to refresh the sidecar, preserving DESIGN.md."@,
                },
            ]
        } else {
            Seq::empty()
        },
        _ => Seq::empty(),
    }
}

/// The design-sidecar findings: none without a sidecar; else its legacy
/// location, its outdated schema, and its staleness, in that order.
pub open spec fn sidecar_spec(sidecar: Option<SidecarFile>, design_ms: Option<u64>, current: nat) -> Seq<FindingView> {
    match sidecar {
        Some(f) => sidecar_legacy_spec(f) + sidecar_schema_spec(f, current) + sidecar_stale_spec(f, design_ms),
        None => Seq::empty(),
    }
}

fn copy_string(s: &String) -> (r: String)
    ensures
        r@ == s@,
{
    string_of(chars_of(s.as_str()).as_slice())
}

/// The design-sidecar check, given the sidecar that was found (if any),
/// DESIGN.md's modification time, and the current sidecar schema version.
pub fn check_design_sidecar(sidecar: Option<&SidecarFile>, design_ms: Option<u64>, current_version: u64) -> (out: Vec<Finding>)
    ensures
        findings_view(out@) == sidecar_spec(
            match sidecar {
                Some(f) => Some(*f),
                None => None,
            },
            design_ms,
            current_version as nat,
        ),
{
    let f = match sidecar {
        Some(f) => f,
        None => {
            proof {
                assert(findings_view(Seq::<Finding>::empty()) =~= Seq::<FindingView>::empty());
            }
            return Vec::new();
        },
    };
    let mut out: Vec<Finding> = Vec::new();
    match &f.legacy_of {
        Some(c) => {
            let mut summary = chars_of("The design sidecar sits at ");
            append_str(&mut summary, f.rel_path.as_str());
            append_str(&mut summary, ", a location kept only for backward compatibility.");
            let mut fix = chars_of("Move it to ");
            append_str(&mut fix, c.as_str());
            append_str(&mut fix, " the next time the sidecar is written. No user decision is needed.");
            out.push(
                finding(
                    "design-sidecar-legacy-path",
                    "design.json",
                    Some(copy_string(&f.rel_path)),
                    "auto",
                    string_of(summary.as_slice()),
                    string_of(fix.as_slice()),
                ),
            );
        },
        None => {},
    }
    proof {
        assert(findings_view(out@) =~= sidecar_legacy_spec(*f));
    }
    let ghost after_legacy = findings_view(out@);
    match f.json {
        Some((truthy, v)) => {
            let outdated = match v {
                Some(n) => n < current_version,
                None => true,
            };
            if truthy && outdated {
                let mut summary = chars_of(f.rel_path.as_str());
                append_str(&mut summary, " is schemaVersion ");
                match v {
                    Some(n) => {
                        let d = decimal_chars(n);
                        append_chars(&mut summary, d.as_slice());
                    },
                    None => {
                        append_str(&mut summary, "unset");
                    },
                }
                append_str(&mut summary, "; the current sidecar is ");
                let d = decimal_chars(current_version);
                append_chars(&mut summary, d.as_slice());
                append_str(
                    &mut summary,
                    ". Token primitives moved to the DESIGN.md frontmatter, so the old shape carries values that are now read from two places.",
                );
                out.push(
                    finding(
                        "design-sidecar-schema-outdated",
                        "design.json",
                        Some(copy_string(&f.rel_path)),
                        "route",
                        string_of(summary.as_slice()),
                        string_of(
                            chars_of(
                                "Offer `document` to regenerate the sidecar. It reads the existing DESIGN.md, so no interview is needed.",
                            ).as_slice(),
                        ),
                    ),
                );
            }
        },
        None => {},
    }
    proof {
        assert(findings_view(out@) =~= after_legacy + sidecar_schema_spec(*f, current_version as nat));
    }
    let ghost after_schema = findings_view(out@);
    match (design_ms, f.modified_ms) {
        (Some(d), Some(m)) => {
            if d > m {
                let mut summary = chars_of("DESIGN.md was edited after ");
                append_str(&mut summary, f.rel_path.as_str());
                append_str(
                    &mut summary,
                    " was generated, so the sidecar's ramps, shadows, motion tokens, and component snippets may contradict it.",
                );
                out.push(
                    finding(
                        "design-sidecar-stale",
                        "design.json",
                        Some(copy_string(&f.rel_path)),
                        "mention",
                        string_of(summary.as_slice()),
                        string_of(chars_of("Offer `document` to refresh the sidecar, preserving DESIGN.md.").as_slice()),
                    ),
                );
            }
        },
        _ => {},
    }
    proof {
        assert(findings_view(out@) =~= after_schema + sidecar_stale_spec(*f, design_ms));
    }
    out
}

// ─── Config files ───────────────────────────────────────────────────────────

/// The top-level config keys something reads.
pub open spec fn known_config_keys() -> Seq<Seq<char>> {
    seq![
        "hook"@,
        "detector"@,
        "updateCheck"@,
        "stalenessCheck"@,
        "projectRoots"@,
        "buildPath"@,
        "browser"@,
        "$schema"@,
        "version"@,
    ]
}

/// The `detector` keys something reads.
pub open spec fn known_detector_keys() -> Seq<Seq<char>> {
    seq!["ignoreRules"@, "ignoreFiles"@, "ignoreValues"@, "designSystem"@, "extensions"@]
}

/// The `buildPath` values something reads.
pub open spec fn build_path_values() -> Seq<Seq<char>> {
    seq!["comp"@, "code"@]
}

fn owned(s: &str) -> (r: String)
    ensures
        r@ == s@,
{
    string_of(chars_of(s).as_slice())
}

fn known_config_key_list() -> (v: Vec<String>)
    ensures
        strings_view(v@) == known_config_keys(),
{
    let v = vec![
        owned("hook"),
        owned("detector"),
        owned("updateCheck"),
        owned("stalenessCheck"),
        owned("projectRoots"),
        owned("buildPath"),
        owned("browser"),
        owned("$schema"),
        owned("version"),
    ];
    proof {
        assert(strings_view(v@) =~= known_config_keys());
    }
    v
}

fn known_detector_key_list() -> (v: Vec<String>)
    ensures
        strings_view(v@) == known_detector_keys(),
{
    let v = vec![owned("ignoreRules"), owned("ignoreFiles"), owned("ignoreValues"), owned("designSystem"), owned("extensions")];
    proof {
        assert(strings_view(v@) =~= known_detector_keys());
    }
    v
}

/// Is `k` one of `list`?
fn listed(list: &Vec<String>, k: &str) -> (b: bool)
    ensures
        b == strings_view(list@).contains(k@),
{
    let mut i: usize = 0;
    while i < list.len()
        invariant
            0 <= i <= list@.len(),
            forall|j: int| 0 <= j < i ==> strings_view(list@)[j] != k@,
        decreases list@.len() - i,
    {
        if is_str(list[i].as_str(), k) {
            proof {
                assert(strings_view(list@)[i as int] == k@);
            }
            return true;
        }
        i = i + 1;
    }
    false
}

/// The keys of `keys` that `known` lacks, in order.
pub open spec fn unknown_keys(keys: Seq<Seq<char>>, known: Seq<Seq<char>>) -> Seq<Seq<char>>
    decreases keys.len(),
{
    if keys.len() == 0 {
        Seq::empty()
    } else {
        unknown_keys(keys.drop_last(), known) + if known.contains(keys.last()) {
            Seq::<Seq<char>>::empty()
        } else {
            seq![keys.last()]
        }
    }
}

/// The keys of `keys` that `known` lacks, in order.
fn unknown_of(keys: &Vec<String>, known: &Vec<String>) -> (u: Vec<String>)
    ensures
        strings_view(u@) == unknown_keys(strings_view(keys@), strings_view(known@)),
{
    let ghost ks = strings_view(keys@);
    let mut u: Vec<String> = Vec::new();
    let mut i: usize = 0;
    proof {
        assert(ks.take(0) =~= Seq::<Seq<char>>::empty());
    }
    while i < keys.len()
        invariant
            ks == strings_view(keys@),
            0 <= i <= keys@.len(),
            strings_view(u@) == unknown_keys(ks.take(i as int), strings_view(known@)),
        decreases keys@.len() - i,
    {
        proof {
            assert(ks.take(i + 1).drop_last() =~= ks.take(i as int));
            assert(ks.take(i + 1).last() == keys@[i as int]@);
        }
        if !listed(known, keys[i].as_str()) {
            let ghost before = strings_view(u@);
            u.push(copy_string(&keys[i]));
            proof {
                assert(strings_view(u@) =~= before.push(keys@[i as int]@));
            }
        } else {
            proof {
                assert(unknown_keys(ks.take(i + 1), strings_view(known@)) =~= unknown_keys(ks.take(i as int), strings_view(known@)));
            }
        }
        i = i + 1;
    }
    proof {
        assert(ks.take(keys@.len() as int) =~= ks);
    }
    u
}

/// Each string in backticks, joined by `, `.
fn ticked_list(items: &Vec<String>) -> (s: Vec<char>)
    ensures
        s@ == join(ticked(strings_view(items@)), ", "@),
{
    let ghost all = ticked(strings_view(items@));
    let mut out: Vec<char> = Vec::new();
    let mut k: usize = 0;
    proof {
        assert(all.take(0) =~= Seq::<Seq<char>>::empty());
    }
    while k < items.len()
        invariant
            all == ticked(strings_view(items@)),
            0 <= k <= items@.len(),
            out@ == join(all.take(k as int), ", "@),
        decreases items@.len() - k,
    {
        proof {
            assert(all.take(k + 1).drop_last() =~= all.take(k as int));
        }
        let ghost before = out@;
        if k > 0 {
            append_str(&mut out, ", ");
        }
        out.push('`');
        append_str(&mut out, items[k].as_str());
        out.push('`');
        proof {
            assert(all[k as int] =~= seq!['`'] + items@[k as int]@ + seq!['`']);
            if k > 0 {
                assert(out@ =~= before + ", "@ + all[k as int]);
            } else {
                assert(out@ =~= all[k as int]);
            }
        }
        k = k + 1;
    }
    proof {
        assert(all.take(items@.len() as int) =~= all);
    }
    out
}

/// A `buildPath` value as read: its text when it is a JSON string, and the
/// value as JSON.
#[derive(Debug, Clone)]
pub struct BuildPathValue {
    pub text: Option<String>,
    pub json: String,
}

/// One config file that parsed as a JSON object: where it is (relative),
/// its top-level keys, its `buildPath`, and the keys of its `detector`
/// when that is an object.
#[derive(Debug, Clone)]
pub struct ConfigFile {
    pub rel_path: String,
    pub keys: Vec<String>,
    pub build_path: Option<BuildPathValue>,
    pub detector_keys: Option<Vec<String>>,
}

/// The findings of one config file: keys nothing reads, a `buildPath`
/// nothing reads, `detector` keys nothing reads.
pub open spec fn config_view_spec(rel: Seq<char>, c: ConfigJson) -> Seq<FindingView> {
    let unknown = unknown_keys(c.0, known_config_keys());
    let keys_part = if unknown.len() > 0 {
        seq![
            FindingView {
                id: "config-unknown-keys"@,
                artifact: "config.json"@,
                path: Some(rel),
                severity: "mention"@,
                summary: rel + " has top-level key(s) nothing reads: "@ + join(ticked(unknown), ", "@) + ". Recognized keys are "@
                    + join(ticked(known_config_keys()), ", "@) + "."@,
                fix: "Report the exact keys to the user. A near-miss of a real key is a setting that has never applied."@,
            },
        ]
    } else {
        Seq::<FindingView>::empty()
    };
    let build_part = match c.1 {
        Some(bp) => if bp.0 matches Some(t) && build_path_values().contains(t) {
            Seq::<FindingView>::empty()
        } else {
            seq![
                FindingView {
                    id: "config-invalid-build-path"@,
                    artifact: "config.json"@,
                    path: Some(rel),
                    severity: "mention"@,
                    summary: rel + " sets `buildPath` to "@ + bp.1 + ", which nothing reads. The values are `comp` and `code`."@,
                    fix: "Report the value. An unread `buildPath` does not fall back to the other path; it falls back to the default, so a project meaning `code` has been building comp-led."@,
                },
            ]
        },
        None => Seq::<FindingView>::empty(),
    };
    let detector_part = match c.2 {
        Some(dk) => {
            let u = unknown_keys(dk, known_detector_keys());
            if u.len() > 0 {
                seq![
                    FindingView {
                        id: "config-unknown-detector-keys"@,
                        artifact: "config.json"@,
                        path: Some(rel),
                        severity: "mention"@,
                        summary: rel + " has `detector` key(s) nothing reads: "@ + join(ticked(u), ", "@) + ". Recognized keys are "@
                            + join(ticked(known_detector_keys()), ", "@) + "."@,
                        fix: "Report the exact keys. `ignoreRule` for `ignoreRules` is the common one, and it silences nothing."@,
                    },
                ]
            } else {
                Seq::<FindingView>::empty()
            }
        },
        None => Seq::<FindingView>::empty(),
    };
    keys_part + build_part + detector_part
}

/// What a parsed config file says, as characters.
pub open spec fn file_json(f: ConfigFile) -> ConfigJson {
    (
        strings_view(f.keys@),
        match f.build_path {
            Some(bp) => Some((opt_string(bp.text), bp.json@)),
            None => None,
        },
        match f.detector_keys {
            Some(dk) => Some(strings_view(dk@)),
            None => None,
        },
    )
}

/// The findings of one config file that parsed as an object.
pub open spec fn config_file_spec(f: ConfigFile) -> Seq<FindingView> {
    config_view_spec(f.rel_path@, file_json(f))
}

/// What a config file's JSON text says: nothing unless it is a JSON
/// object; else its top-level keys (in `serde_json`'s order), its
/// `buildPath` (the string when it is one, and the value as JSON text),
/// and the keys of its `detector` when that is an object.
pub type ConfigJson = (Seq<Seq<char>>, Option<(Option<Seq<char>>, Seq<char>)>, Option<Seq<Seq<char>>>);

/// What `serde_json` reads from a config file's text (see [`ConfigJson`]).
pub uninterp spec fn config_json(text: Seq<char>) -> Option<ConfigJson>;

/// A parsed config as exec values.
pub type ConfigParts = (Vec<String>, Option<(Option<String>, String)>, Option<Vec<String>>);

/// A parsed config as characters.
pub open spec fn parts_view(r: Option<ConfigParts>) -> Option<ConfigJson> {
    match r {
        Some((keys, bp, det)) => Some(
            (
                strings_view(keys@),
                match bp {
                    Some((t, j)) => Some((opt_string(t), j@)),
                    None => None,
                },
                match det {
                    Some(d) => Some(strings_view(d@)),
                    None => None,
                },
            ),
        ),
        None => None,
    }
}

/// `serde_json::from_str::<Value>` on a config file's text, and what the
/// config check reads of the object: `Map::keys`, `buildPath` through
/// `Map::get` (with `Value::as_str` and its JSON text from `Value`'s
/// `Display`), and `detector`'s keys when `Value::as_object` holds.
/// Claimed: the result is `config_json(text@)`, a function of the text.
#[verifier::external_body]
pub(crate) fn parse_config_json(text: &str) -> (r: Option<ConfigParts>)
    ensures
        parts_view(r) == config_json(text@),
{
    let v: serde_json::Value = serde_json::from_str(text).ok()?;
    let obj = v.as_object()?;
    let keys = obj.keys().cloned().collect();
    let bp = obj.get("buildPath").map(|b| (b.as_str().map(String::from), b.to_string()));
    let det = obj.get("detector").and_then(|d| d.as_object()).map(|d| d.keys().cloned().collect());
    Some((keys, bp, det))
}

/// A config file's text records a `buildPath`: it is a JSON object with
/// that key.
pub open spec fn records_spec(text: Seq<char>) -> bool {
    config_json(text) matches Some(c) && c.1 is Some
}

/// Does this config file's text record a `buildPath`?
pub fn records_build_path(text: &str) -> (b: bool)
    ensures
        b == records_spec(text@),
{
    match parse_config_json(text) {
        Some((_, bp, _)) => bp.is_some(),
        None => false,
    }
}

/// The findings of the config files `files[..k]`, each given as (path
/// relative to the project, text), file by file: a file that is not a
/// JSON object adds none.
pub open spec fn config_spec(files: Seq<(String, String)>, k: int) -> Seq<FindingView>
    decreases k,
{
    if k <= 0 {
        Seq::empty()
    } else {
        config_spec(files, k - 1) + match config_json(files[k - 1].1@) {
            Some(c) => config_view_spec(files[k - 1].0@, c),
            None => Seq::<FindingView>::empty(),
        }
    }
}

/// The findings of one config file.
fn config_file_findings(f: &ConfigFile) -> (out: Vec<Finding>)
    ensures
        findings_view(out@) == config_file_spec(*f),
{
    let mut out: Vec<Finding> = Vec::new();
    let known = known_config_key_list();
    let unknown = unknown_of(&f.keys, &known);
    if unknown.len() > 0 {
        let mut summary = chars_of(f.rel_path.as_str());
        append_str(&mut summary, " has top-level key(s) nothing reads: ");
        let a = ticked_list(&unknown);
        append_chars(&mut summary, a.as_slice());
        append_str(&mut summary, ". Recognized keys are ");
        let b = ticked_list(&known);
        append_chars(&mut summary, b.as_slice());
        append_str(&mut summary, ".");
        out.push(
            finding(
                "config-unknown-keys",
                "config.json",
                Some(copy_string(&f.rel_path)),
                "mention",
                string_of(summary.as_slice()),
                owned("Report the exact keys to the user. A near-miss of a real key is a setting that has never applied."),
            ),
        );
    }
    let ghost after_keys = findings_view(out@);
    match &f.build_path {
        Some(bp) => {
            let ok = match &bp.text {
                Some(t) => is_str(t.as_str(), "comp") || is_str(t.as_str(), "code"),
                None => false,
            };
            proof {
                if let Some(t) = &bp.text {
                    assert(build_path_values().contains(t@) <==> (t@ == "comp"@ || t@ == "code"@)) by {
                        if t@ == "code"@ {
                            assert(build_path_values()[1] == t@);
                        }
                        if t@ == "comp"@ {
                            assert(build_path_values()[0] == t@);
                        }
                    }
                }
            }
            if !ok {
                let mut summary = chars_of(f.rel_path.as_str());
                append_str(&mut summary, " sets `buildPath` to ");
                append_str(&mut summary, bp.json.as_str());
                append_str(&mut summary, ", which nothing reads. The values are `comp` and `code`.");
                out.push(
                    finding(
                        "config-invalid-build-path",
                        "config.json",
                        Some(copy_string(&f.rel_path)),
                        "mention",
                        string_of(summary.as_slice()),
                        owned(
                            "Report the value. An unread `buildPath` does not fall back to the other path; it falls back to the default, so a project meaning `code` has been building comp-led.",
                        ),
                    ),
                );
            }
        },
        None => {},
    }
    let ghost after_build = findings_view(out@);
    match &f.detector_keys {
        Some(dk) => {
            let known_d = known_detector_key_list();
            let u = unknown_of(dk, &known_d);
            if u.len() > 0 {
                let mut summary = chars_of(f.rel_path.as_str());
                append_str(&mut summary, " has `detector` key(s) nothing reads: ");
                let a = ticked_list(&u);
                append_chars(&mut summary, a.as_slice());
                append_str(&mut summary, ". Recognized keys are ");
                let b = ticked_list(&known_d);
                append_chars(&mut summary, b.as_slice());
                append_str(&mut summary, ".");
                out.push(
                    finding(
                        "config-unknown-detector-keys",
                        "config.json",
                        Some(copy_string(&f.rel_path)),
                        "mention",
                        string_of(summary.as_slice()),
                        owned("Report the exact keys. `ignoreRule` for `ignoreRules` is the common one, and it silences nothing."),
                    ),
                );
            }
        },
        None => {},
    }
    proof {
        assert(findings_view(out@) =~= config_file_spec(*f));
    }
    out
}

/// `out` followed by `more`.
fn append_findings(out: &mut Vec<Finding>, more: Vec<Finding>)
    ensures
        findings_view(final(out)@) == findings_view(old(out)@) + findings_view(more@),
{
    let mut more = more;
    let ghost a = out@;
    let ghost m = more@;
    out.append(&mut more);
    proof {
        assert(findings_view(a + m) =~= findings_view(a) + findings_view(m));
    }
}

/// The config file an object's parts describe.
fn config_file_of(rel: &String, parts: ConfigParts) -> (f: ConfigFile)
    ensures
        f.rel_path@ == rel@,
        Some(file_json(f)) == parts_view(Some(parts)),
{
    let (keys, bp, det) = parts;
    let build_path = match bp {
        Some((text, json)) => Some(BuildPathValue { text, json }),
        None => None,
    };
    ConfigFile { rel_path: copy_string(rel), keys, build_path, detector_keys: det }
}

/// The config check over the config files that could be read, each given
/// as (path relative to the project, text), in the order they were read.
pub fn check_config(files: &[(String, String)]) -> (out: Vec<Finding>)
    ensures
        findings_view(out@) == config_spec(files@, files@.len() as int),
{
    let mut out: Vec<Finding> = Vec::new();
    let mut i: usize = 0;
    proof {
        assert(findings_view(out@) =~= Seq::<FindingView>::empty());
    }
    while i < files.len()
        invariant
            0 <= i <= files@.len(),
            findings_view(out@) == config_spec(files@, i as int),
        decreases files@.len() - i,
    {
        let (rel, text) = &files[i];
        match parse_config_json(text.as_str()) {
            Some(parts) => {
                let f = config_file_of(rel, parts);
                let more = config_file_findings(&f);
                append_findings(&mut out, more);
            },
            None => {
                proof {
                    assert(config_spec(files@, i + 1) =~= config_spec(files@, i as int));
                }
            },
        }
        i = i + 1;
    }
    out
}

// ─── The build path ─────────────────────────────────────────────────────────

/// Where visual direction work leaves its traces, relative to the project
/// root.
pub const DIRECTION_WORK_PATHS: [&'static str; 2] = [".impeccable/surfaces", ".impeccable/mocks/decision"];

/// The unset-build-path finding: a project with a product record and
/// direction work on disk, whose config files record no `buildPath`.
pub open spec fn build_path_spec(project_root: Seq<char>, product: Option<Seq<char>>, recorded: Seq<bool>, work: Seq<bool>) -> Seq<
    FindingView,
> {
    if project_root.len() == 0 || !(product matches Some(p) && p.len() > 0) || recorded.contains(true) || !work.contains(true) {
        Seq::empty()
    } else {
        seq![
            FindingView {
                id: "config-build-path-unset"@,
                artifact: "config.json"@,
                path: Some(".impeccable/config.json"@),
                severity: "mention"@,
                summary: "This project has run visual direction work but records no `buildPath`, so every direction round takes the comp-first default without anyone having chosen it."@,
                fix: "Only when image generation exists in your tool surface, offer the choice once: **comp-first** (an image sets the bar before any code; bolder composition, slower) or **code-first** (build directly; ambition carried by the direction contract; leaner, faster). Write the answer to `.impeccable/config.json` as `\"buildPath\": \"comp\"` or `\"buildPath\": \"code\"`, merging with the keys already there. Without image generation there is no choice to record: stay silent."@,
            },
        ]
    }
}

/// Which of the config files (path, text) record a `buildPath`.
pub open spec fn recorded_of(configs: Seq<(String, String)>) -> Seq<bool> {
    Seq::new(configs.len(), |i: int| records_spec(configs[i].1@))
}

/// The unset-build-path check, given the config files that could be read
/// (path, text) and which [`DIRECTION_WORK_PATHS`] exist.
pub fn check_build_path_unset(
    project_root: &str,
    product: Option<&str>,
    configs: &[(String, String)],
    work_present: &[bool; 2],
) -> (out: Vec<Finding>)
    ensures
        findings_view(out@) == build_path_spec(project_root@, opt_str(product), recorded_of(configs@), work_present@),
{
    let ghost recorded = recorded_of(configs@);
    let has_product = match product {
        Some(p) => p.unicode_len() > 0,
        None => false,
    };
    let mut any_recorded = false;
    let mut i: usize = 0;
    while i < configs.len()
        invariant
            0 <= i <= configs@.len(),
            recorded == recorded_of(configs@),
            any_recorded <==> exists|j: int| 0 <= j < i && recorded[j],
        decreases configs@.len() - i,
    {
        let r = records_build_path(configs[i].1.as_str());
        proof {
            assert(recorded[i as int] == r);
        }
        if r {
            any_recorded = true;
        }
        i = i + 1;
    }
    proof {
        assert(any_recorded <==> recorded.contains(true)) by {
            if recorded.contains(true) {
                let j = choose|j: int| 0 <= j < recorded.len() && recorded[j] == true;
                assert(recorded[j]);
            }
        }
        assert(work_present@.contains(true) <==> (work_present[0] || work_present[1])) by {
            if work_present@.contains(true) {
                let j = choose|j: int| 0 <= j < work_present@.len() && work_present@[j] == true;
                assert(j == 0 || j == 1);
            }
            if work_present[0] {
                assert(work_present@[0] == true);
            }
            if work_present[1] {
                assert(work_present@[1] == true);
            }
        }
    }
    if project_root.unicode_len() == 0 || !has_product || any_recorded || !(work_present[0] || work_present[1]) {
        proof {
            assert(findings_view(Seq::<Finding>::empty()) =~= Seq::<FindingView>::empty());
        }
        return Vec::new();
    }
    let f = finding(
        "config-build-path-unset",
        "config.json",
        Some(owned(".impeccable/config.json")),
        "mention",
        owned(
            "This project has run visual direction work but records no `buildPath`, so every direction round takes the comp-first default without anyone having chosen it.",
        ),
        owned(
            "Only when image generation exists in your tool surface, offer the choice once: **comp-first** (an image sets the bar before any code; bolder composition, slower) or **code-first** (build directly; ambition carried by the direction contract; leaner, faster). Write the answer to `.impeccable/config.json` as `\"buildPath\": \"comp\"` or `\"buildPath\": \"code\"`, merging with the keys already there. Without image generation there is no choice to record: stay silent.",
        ),
    );
    let mut out: Vec<Finding> = Vec::new();
    out.push(f);
    proof {
        assert(findings_view(out@) =~= build_path_spec(project_root@, opt_str(product), recorded, work_present@));
    }
    out
}

// ─── Surface briefs ─────────────────────────────────────────────────────────

/// A persisted surface brief: where it is, and the primary target it names.
#[derive(Debug, Clone)]
pub struct BriefSummary {
    pub path: String,
    pub primary_target: Option<String>,
}

/// ASCII lower case of one character.
pub open spec fn ascii_lower(c: char) -> char {
    if 'A' <= c && c <= 'Z' {
        ((c as u32) + 32) as char
    } else {
        c
    }
}

/// `str::to_ascii_lowercase`.
pub open spec fn ascii_lowercase(s: Seq<char>) -> Seq<char> {
    Seq::new(s.len(), |i: int| ascii_lower(s[i]))
}

/// A target on disk: not empty, not a URL, not a route.
pub open spec fn file_target(t: Seq<char>) -> bool {
    &&& t.len() > 0
    &&& !has_prefix(ascii_lowercase(t), "http://"@)
    &&& !has_prefix(ascii_lowercase(t), "https://"@)
    &&& !has_prefix(t, "route:"@)
}

/// Brief `i` names a file target that is missing.
pub open spec fn orphaned_at(briefs: Seq<BriefSummary>, missing: Seq<bool>, i: int) -> bool {
    &&& briefs[i].primary_target matches Some(t)
    &&& file_target(t@)
    &&& i < missing.len()
    &&& missing[i]
}

/// The orphaned briefs among `briefs[..k]`, in order.
pub open spec fn orphans_upto(briefs: Seq<BriefSummary>, missing: Seq<bool>, k: int) -> Seq<BriefSummary>
    decreases k,
{
    if k <= 0 {
        Seq::empty()
    } else {
        orphans_upto(briefs, missing, k - 1) + if orphaned_at(briefs, missing, k - 1) {
            seq![briefs[k - 1]]
        } else {
            Seq::<BriefSummary>::empty()
        }
    }
}

/// The non-empty paths of `bs[..k]`.
pub open spec fn brief_paths(bs: Seq<BriefSummary>, k: int) -> Seq<Seq<char>>
    decreases k,
{
    if k <= 0 {
        Seq::empty()
    } else {
        brief_paths(bs, k - 1) + if bs[k - 1].path@.len() > 0 {
            seq![bs[k - 1].path@]
        } else {
            Seq::<Seq<char>>::empty()
        }
    }
}

/// `<path> → <target>` for one brief.
pub open spec fn brief_line(b: BriefSummary) -> Seq<char> {
    b.path@ + " → "@ + match b.primary_target {
        Some(t) => t@,
        None => Seq::empty(),
    }
}

/// The orphaned-brief finding: the briefs whose primary target is a file
/// that `missing` says is gone.
pub open spec fn briefs_spec(briefs: Seq<BriefSummary>, project_root: Seq<char>, missing: Seq<bool>) -> Seq<FindingView> {
    let o = orphans_upto(briefs, missing, briefs.len() as int);
    let paths = brief_paths(o, o.len() as int);
    if project_root.len() == 0 || o.len() == 0 {
        Seq::empty()
    } else {
        seq![
            FindingView {
                id: "surface-brief-orphaned"@,
                artifact: "surface brief"@,
                path: if paths.len() == 0 {
                    None
                } else {
                    Some(join(paths, ", "@))
                },
                severity: "mention"@,
                summary: decimal(o.len()) + " persisted surface brief(s) name a primary target that no longer exists: "@ + join(
                    Seq::new(o.len(), |i: int| brief_line(o[i])),
                    "; "@,
                ) + "."@,
                fix: "Ask whether the surface moved (repoint the brief) or was removed (delete the brief). Until then the brief is authority for a file that is gone."@,
            },
        ]
    }
}

/// `s` in ASCII lower case.
fn ascii_lowercase_chars(s: &[char]) -> (r: Vec<char>)
    ensures
        r@ == ascii_lowercase(s@),
{
    let mut r: Vec<char> = Vec::new();
    let mut i: usize = 0;
    while i < s.len()
        invariant
            0 <= i <= s@.len(),
            r@ =~= ascii_lowercase(s@).take(i as int),
        decreases s@.len() - i,
    {
        let c = s[i];
        let l = if 'A' <= c && c <= 'Z' {
            (((c as u32) + 32) as u8) as char
        } else {
            c
        };
        r.push(l);
        i = i + 1;
    }
    r
}

/// Is `t` a target on disk?
fn is_file_target(t: &str) -> (b: bool)
    ensures
        b == file_target(t@),
{
    let c = chars_of(t);
    if c.len() == 0 {
        return false;
    }
    let low = ascii_lowercase_chars(c.as_slice());
    let http = chars_of("http://");
    let https = chars_of("https://");
    let route = chars_of("route:");
    !starts_with(low.as_slice(), http.as_slice()) && !starts_with(low.as_slice(), https.as_slice()) && !starts_with(
        c.as_slice(),
        route.as_slice(),
    )
}

/// The orphaned-brief check: `target_missing[i]` says whether brief `i`'s
/// primary target is missing under the project root (a brief past its end
/// is taken to be fine).
pub fn check_surface_briefs(candidates: &[BriefSummary], project_root: &str, target_missing: &[bool]) -> (out: Vec<Finding>)
    ensures
        findings_view(out@) == briefs_spec(candidates@, project_root@, target_missing@),
{
    let ghost o = orphans_upto(candidates@, target_missing@, candidates@.len() as int);
    if project_root.unicode_len() == 0 {
        proof {
            assert(findings_view(Seq::<Finding>::empty()) =~= Seq::<FindingView>::empty());
        }
        return Vec::new();
    }
    let mut orphans: Vec<usize> = Vec::new();
    let mut i: usize = 0;
    while i < candidates.len()
        invariant
            0 <= i <= candidates@.len(),
            orphans@.len() == orphans_upto(candidates@, target_missing@, i as int).len(),
            forall|k: int|
                0 <= k < orphans@.len() ==> #[trigger] orphans@[k] < i && candidates@[orphans@[k] as int]
                    == orphans_upto(candidates@, target_missing@, i as int)[k],
        decreases candidates@.len() - i,
    {
        let orphaned = match &candidates[i].primary_target {
            Some(t) => is_file_target(t.as_str()) && i < target_missing.len() && target_missing[i],
            None => false,
        };
        proof {
            assert(orphaned == orphaned_at(candidates@, target_missing@, i as int));
        }
        let ghost before = orphans_upto(candidates@, target_missing@, i as int);
        if orphaned {
            orphans.push(i);
            proof {
                assert(orphans_upto(candidates@, target_missing@, i + 1) == before.push(candidates@[i as int]));
            }
        } else {
            proof {
                assert(orphans_upto(candidates@, target_missing@, i + 1) =~= before);
            }
        }
        i = i + 1;
    }
    if orphans.len() == 0 {
        proof {
            assert(findings_view(Seq::<Finding>::empty()) =~= Seq::<FindingView>::empty());
        }
        return Vec::new();
    }
    let ghost lines = Seq::new(o.len(), |k: int| brief_line(o[k]));
    let mut paths: Vec<char> = Vec::new();
    let mut npaths: usize = 0;
    let mut listed: Vec<char> = Vec::new();
    let mut k: usize = 0;
    proof {
        assert(lines.take(0) =~= Seq::<Seq<char>>::empty());
    }
    while k < orphans.len()
        invariant
            o == orphans_upto(candidates@, target_missing@, candidates@.len() as int),
            lines == Seq::new(o.len(), |k: int| brief_line(o[k])),
            orphans@.len() == o.len(),
            forall|j: int| 0 <= j < orphans@.len() ==> #[trigger] orphans@[j] < candidates@.len() && candidates@[orphans@[j] as int] == o[j],
            0 <= k <= orphans@.len(),
            npaths <= k,
            npaths == brief_paths(o, k as int).len(),
            paths@ == join(brief_paths(o, k as int), ", "@),
            listed@ == join(lines.take(k as int), "; "@),
        decreases orphans@.len() - k,
    {
        let b = &candidates[orphans[k]];
        proof {
            assert(*b == o[k as int]);
            assert(lines.take(k + 1).drop_last() =~= lines.take(k as int));
        }
        let ghost bp = brief_paths(o, k as int);
        let ghost before_paths = paths@;
        if b.path.unicode_len() > 0 {
            if npaths > 0 {
                append_str(&mut paths, ", ");
            }
            append_str(&mut paths, b.path.as_str());
            npaths = npaths + 1;
            proof {
                assert(brief_paths(o, k + 1) == bp.push(b.path@));
                assert(bp.push(b.path@).drop_last() =~= bp);
                if bp.len() > 0 {
                    assert(paths@ =~= before_paths + ", "@ + b.path@);
                } else {
                    assert(paths@ =~= b.path@);
                }
            }
        } else {
            proof {
                assert(brief_paths(o, k + 1) =~= bp);
            }
        }
        if k > 0 {
            append_str(&mut listed, "; ");
        }
        append_str(&mut listed, b.path.as_str());
        append_str(&mut listed, " → ");
        match &b.primary_target {
            Some(t) => append_str(&mut listed, t.as_str()),
            None => {},
        }
        proof {
            assert(lines[k as int] =~= brief_line(*b));
        }
        k = k + 1;
    }
    proof {
        assert(lines.take(o.len() as int) =~= lines);
    }
    let count = decimal_chars(orphans.len() as u64);
    let mut summary = count;
    append_str(&mut summary, " persisted surface brief(s) name a primary target that no longer exists: ");
    append_chars(&mut summary, listed.as_slice());
    append_str(&mut summary, ".");
    let path = if npaths == 0 {
        None
    } else {
        Some(string_of(paths.as_slice()))
    };
    let f = finding(
        "surface-brief-orphaned",
        "surface brief",
        path,
        "mention",
        string_of(summary.as_slice()),
        owned(
            "Ask whether the surface moved (repoint the brief) or was removed (delete the brief). Until then the brief is authority for a file that is gone.",
        ),
    );
    let mut out: Vec<Finding> = Vec::new();
    out.push(f);
    proof {
        assert(findings_view(out@) =~= briefs_spec(candidates@, project_root@, target_missing@));
    }
    out
}

// ─── The boot report ────────────────────────────────────────────────────────

/// The boot findings grouped by artifact, so a deeper report can
/// interleave its own checks without rebuilding this policy.
pub struct BootFindingGroups {
    pub product: Vec<Finding>,
    pub native_platform: Vec<Finding>,
    pub design_sidecar: Vec<Finding>,
    pub config: Vec<Finding>,
    pub build_path: Vec<Finding>,
    pub surface_briefs: Vec<Finding>,
    pub project_roots: Vec<Finding>,
}

/// Every group's findings, in the boot order.
pub open spec fn groups_view(g: BootFindingGroups) -> Seq<FindingView> {
    findings_view(g.product@) + findings_view(g.native_platform@) + findings_view(g.design_sidecar@) + findings_view(
        g.config@,
    ) + findings_view(g.build_path@) + findings_view(g.surface_briefs@) + findings_view(g.project_roots@)
}

/// The boot findings: the groups one after another, product record first.
pub fn collect_boot_findings(groups: BootFindingGroups) -> (out: Vec<Finding>)
    ensures
        findings_view(out@) == groups_view(groups),
{
    let ghost g = groups;
    let mut out = groups.product;
    append_findings(&mut out, groups.native_platform);
    append_findings(&mut out, groups.design_sidecar);
    append_findings(&mut out, groups.config);
    append_findings(&mut out, groups.build_path);
    append_findings(&mut out, groups.surface_briefs);
    append_findings(&mut out, groups.project_roots);
    out
}

/// The root the boot checks read: the context's project root, or the
/// working directory when it has none.
pub open spec fn boot_root_spec(project_root: Seq<char>, cwd: Seq<char>) -> Seq<char> {
    if project_root.len() == 0 {
        cwd
    } else {
        project_root
    }
}

/// The root the boot checks read.
pub fn boot_project_root(project_root: &str, cwd: &str) -> (r: String)
    ensures
        r@ == boot_root_spec(project_root@, cwd@),
{
    if project_root.unicode_len() == 0 {
        owned(cwd)
    } else {
        owned(project_root)
    }
}

/// What the boot checks read from disk and from the context, the paths
/// already resolved against the root [`boot_project_root`] gives.
pub struct BootReads {
    /// The root the checks read (see [`boot_project_root`]).
    pub project_root: String,
    /// PRODUCT.md's text and path, and its declared `## Platform`.
    pub product: Option<String>,
    pub product_path: Option<String>,
    pub platform: Option<String>,
    /// The product-record schema, and the schema stamp PRODUCT.md carries.
    pub product_schema: ProductSchema,
    pub product_stamp: Option<u64>,
    /// The platform evidence (see `staleness::native_platform_evidence`).
    pub evidence_paths: [bool; 5],
    pub evidence_dependencies: [bool; 4],
    pub evidence_manifests: [Option<String>; 4],
    /// The design sidecar found, DESIGN.md's modification time, and the
    /// current sidecar schema version.
    pub sidecar: Option<SidecarFile>,
    pub design_ms: Option<u64>,
    pub sidecar_version: u64,
    /// Every config file that could be read, as (path relative to the
    /// project, text), in the order they were read.
    pub config_texts: Vec<(String, String)>,
    /// Which [`DIRECTION_WORK_PATHS`] exist.
    pub direction_work: [bool; 2],
    /// The persisted surface briefs, and whether each one's target is missing.
    pub briefs: Vec<BriefSummary>,
    pub brief_targets_missing: Vec<bool>,
    /// `projectRoots` when the config declares it, and how many target
    /// directories matched.
    pub project_root_patterns: Option<Vec<String>>,
    pub target_candidates: usize,
}

/// An optional string as characters.
pub open spec fn opt_string(s: Option<String>) -> Option<Seq<char>> {
    match s {
        Some(t) => Some(t@),
        None => None,
    }
}

/// A record that exists and is not empty.
pub open spec fn present_text(s: Option<String>) -> bool {
    s matches Some(t) && t@.len() > 0
}

fn opt_as_str(s: &Option<String>) -> (r: Option<&str>)
    ensures
        opt_str(r) == opt_string(*s),
{
    match s {
        Some(t) => Some(t.as_str()),
        None => None,
    }
}

/// Each group as the boot computes it from what was read: the product
/// record; the platform evidence once a PRODUCT.md exists; the design
/// sidecar; the config files; the build path; the surface briefs; and
/// `projectRoots` when the config declares it.
pub fn collect_boot_finding_groups(reads: &BootReads) -> (g: BootFindingGroups)
    ensures
        findings_view(g.product@) == product_spec(
            opt_string(reads.product),
            match reads.product_path {
                Some(p) => p@,
                None => "PRODUCT.md"@,
            },
            reads.product_schema@,
            opt_nat(reads.product_stamp),
        ),
        findings_view(g.native_platform@) == if present_text(reads.product) {
            native_evidence_spec(
                reads.project_root@,
                opt_string(reads.platform),
                opt_string(reads.product),
                opt_string(reads.product_path),
                reads.evidence_paths@,
                reads.evidence_dependencies@,
                texts_view(reads.evidence_manifests@),
            )
        } else {
            Seq::<FindingView>::empty()
        },
        findings_view(g.design_sidecar@) == sidecar_spec(reads.sidecar, reads.design_ms, reads.sidecar_version as nat),
        findings_view(g.config@) == config_spec(reads.config_texts@, reads.config_texts@.len() as int),
        findings_view(g.build_path@) == build_path_spec(
            reads.project_root@,
            opt_string(reads.product),
            recorded_of(reads.config_texts@),
            reads.direction_work@,
        ),
        findings_view(g.surface_briefs@) == briefs_spec(reads.briefs@, reads.project_root@, reads.brief_targets_missing@),
        findings_view(g.project_roots@) == match reads.project_root_patterns {
            Some(ps) => crate::staleness::project_roots_spec(strings_view(ps@), reads.target_candidates as nat),
            None => Seq::<FindingView>::empty(),
        },
{
    let product = opt_as_str(&reads.product);
    let product_path = match &reads.product_path {
        Some(p) => p.as_str(),
        None => "PRODUCT.md",
    };
    let product_group = check_product(product, product_path, &reads.product_schema, reads.product_stamp);
    let has_product = match product {
        Some(p) => p.unicode_len() > 0,
        None => false,
    };
    let native_group = if has_product {
        native_platform_evidence(
            reads.project_root.as_str(),
            opt_as_str(&reads.platform),
            product,
            opt_as_str(&reads.product_path),
            &reads.evidence_paths,
            &reads.evidence_dependencies,
            &reads.evidence_manifests,
        )
    } else {
        proof {
            assert(findings_view(Seq::<Finding>::empty()) =~= Seq::<FindingView>::empty());
        }
        Vec::new()
    };
    let sidecar_group = check_design_sidecar(
        match &reads.sidecar {
            Some(f) => Some(f),
            None => None,
        },
        reads.design_ms,
        reads.sidecar_version,
    );
    let config_group = check_config(reads.config_texts.as_slice());
    let build_group = check_build_path_unset(
        reads.project_root.as_str(),
        product,
        reads.config_texts.as_slice(),
        &reads.direction_work,
    );
    let briefs_group = check_surface_briefs(
        reads.briefs.as_slice(),
        reads.project_root.as_str(),
        reads.brief_targets_missing.as_slice(),
    );
    let roots_group = match &reads.project_root_patterns {
        Some(ps) => crate::staleness::check_project_roots(ps.as_slice(), reads.target_candidates),
        None => {
            proof {
                assert(findings_view(Seq::<Finding>::empty()) =~= Seq::<FindingView>::empty());
            }
            Vec::new()
        },
    };
    BootFindingGroups {
        product: product_group,
        native_platform: native_group,
        design_sidecar: sidecar_group,
        config: config_group,
        build_path: build_group,
        surface_briefs: briefs_group,
        project_roots: roots_group,
    }
}

} // verus!
