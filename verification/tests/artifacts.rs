use impeccable_terminal::artifacts::{
    boot_project_root, check_build_path_unset, design_sidecar_candidates_for, check_config, check_design_sidecar, check_product, check_surface_briefs, records_build_path,
    collect_boot_finding_groups, collect_boot_findings, has_section, BootFindingGroups, BootReads, BriefSummary,
    ProductSchema, SidecarFile,
};
use impeccable_terminal::staleness::{finding, Finding};

fn schema() -> ProductSchema {
    ProductSchema {
        deprecated_sections: vec![
            ("Tone".to_string(), "Voice now lives in the brand record.".to_string()),
            ("Q&A".to_string(), "Questions are asked, not stored.".to_string()),
        ],
        current_sections: vec!["Users".to_string(), "Positioning".to_string()],
        version: 4,
    }
}

fn ids(out: &[Finding]) -> Vec<&str> {
    out.iter().map(|f| f.id.as_str()).collect()
}

#[test]
fn sections_match_their_heading_line_case_insensitively() {
    assert!(has_section("# P\n\n## Tone\nwarm\n", "Tone"));
    assert!(has_section("# P\n##   tone  \n", "Tone"));
    assert!(!has_section("# P\n### Tone\n", "Tone"));
    assert!(!has_section("Tone\n", "Tone"));
    // Meta characters in a heading are matched literally.
    assert!(has_section("## Q&A\n", "Q&A"));
    assert!(has_section("## C++\n", "C++"));
    assert!(!has_section("## CCC\n", "C++"));
}

#[test]
fn a_missing_or_empty_product_record_has_no_findings() {
    assert!(check_product(None, "PRODUCT.md", &schema(), None).is_empty());
    assert!(check_product(Some(""), "PRODUCT.md", &schema(), None).is_empty());
}

#[test]
fn retired_sections_are_reported_in_schema_order() {
    let product = "# P\n\n## Q&A\nx\n\n## Tone\ny\n\n## Users\nz\n";
    let out = check_product(Some(product), "docs/PRODUCT.md", &schema(), Some(4));
    assert_eq!(ids(&out), vec!["product-deprecated-tone", "product-deprecated-q&a"]);
    assert_eq!(out[0].path.as_deref(), Some("docs/PRODUCT.md"));
    assert_eq!(out[0].severity, "mention");
    assert_eq!(out[0].summary, "PRODUCT.md still carries a `## Tone` section. Voice now lives in the brand record.");
    assert_eq!(
        out[0].fix,
        "Treat `## Tone` as absent for every decision this session. Offer to delete the section; do not let its value influence the work either way."
    );
}

#[test]
fn an_unstamped_record_without_current_sections_is_legacy() {
    let out = check_product(Some("# P\n\n## Goals\nx\n"), "PRODUCT.md", &schema(), None);
    assert_eq!(ids(&out), vec!["product-schema-legacy"]);
    assert_eq!(out[0].severity, "route");
    assert_eq!(
        out[0].summary,
        "PRODUCT.md has no schema stamp and none of the sections the current record adds (Users, Positioning), so it predates this version of the product record."
    );
    // One current section is enough to count as current.
    assert!(check_product(Some("# P\n\n## Positioning\nx\n"), "PRODUCT.md", &schema(), None).is_empty());
}

#[test]
fn an_old_stamp_is_outdated_and_the_current_one_is_not() {
    let out = check_product(Some("# P\n"), "PRODUCT.md", &schema(), Some(3));
    assert_eq!(ids(&out), vec!["product-schema-outdated"]);
    assert_eq!(out[0].summary, "PRODUCT.md is stamped product-schema 3; the current record is 4.");
    assert!(check_product(Some("# P\n"), "PRODUCT.md", &schema(), Some(4)).is_empty());
    assert!(check_product(Some("# P\n"), "PRODUCT.md", &schema(), Some(5)).is_empty());
}

fn sidecar(legacy: Option<&str>, json: Option<(bool, Option<u64>)>, modified: Option<u64>) -> SidecarFile {
    SidecarFile { rel_path: "DESIGN.json".to_string(), legacy_of: legacy.map(str::to_string), json, modified_ms: modified }
}

#[test]
fn no_sidecar_means_no_sidecar_findings() {
    assert!(check_design_sidecar(None, Some(5), 2).is_empty());
}

#[test]
fn a_legacy_outdated_stale_sidecar_reports_all_three_in_order() {
    let s = sidecar(Some(".impeccable/design.json"), Some((true, None)), Some(10));
    let out = check_design_sidecar(Some(&s), Some(20), 2);
    assert_eq!(ids(&out), vec!["design-sidecar-legacy-path", "design-sidecar-schema-outdated", "design-sidecar-stale"]);
    assert_eq!(out[0].severity, "auto");
    assert_eq!(out[0].summary, "The design sidecar sits at DESIGN.json, a location kept only for backward compatibility.");
    assert_eq!(out[0].fix, "Move it to .impeccable/design.json the next time the sidecar is written. No user decision is needed.");
    assert_eq!(
        out[1].summary,
        "DESIGN.json is schemaVersion unset; the current sidecar is 2. Token primitives moved to the DESIGN.md frontmatter, so the old shape carries values that are now read from two places."
    );
    assert_eq!(
        out[2].summary,
        "DESIGN.md was edited after DESIGN.json was generated, so the sidecar's ramps, shadows, motion tokens, and component snippets may contradict it."
    );
}

#[test]
fn a_current_fresh_sidecar_at_home_is_fine() {
    let s = sidecar(None, Some((true, Some(2))), Some(30));
    assert!(check_design_sidecar(Some(&s), Some(20), 2).is_empty());
    // An older version is named; a falsy or unparsed sidecar is not judged.
    let old = sidecar(None, Some((true, Some(1))), None);
    let out = check_design_sidecar(Some(&old), None, 2);
    assert!(out[0].summary.starts_with("DESIGN.json is schemaVersion 1; the current sidecar is 2."));
    assert!(check_design_sidecar(Some(&sidecar(None, Some((false, None)), None)), None, 2).is_empty());
    assert!(check_design_sidecar(Some(&sidecar(None, None, None)), None, 2).is_empty());
    // Without DESIGN.md's time there is no staleness.
    assert!(check_design_sidecar(Some(&sidecar(None, None, Some(1))), None, 2).is_empty());
}

fn config(text: &str) -> (String, String) {
    (".impeccable/config.json".to_string(), text.to_string())
}

#[test]
fn config_keys_nothing_reads_are_named_with_the_recognized_ones() {
    let out = check_config(&[config(r#"{"hook": true, "zzz": 1, "buidPath": "code"}"#)]);
    assert_eq!(ids(&out), vec!["config-unknown-keys"]);
    assert_eq!(
        out[0].summary,
        ".impeccable/config.json has top-level key(s) nothing reads: `buidPath`, `zzz`. Recognized keys are `hook`, `detector`, `updateCheck`, `stalenessCheck`, `projectRoots`, `buildPath`, `browser`, `$schema`, `version`."
    );
    assert!(check_config(&[config(r#"{"hook": {}, "version": 2}"#)]).is_empty());
}

#[test]
fn a_build_path_must_be_comp_or_code() {
    assert!(check_config(&[config(r#"{"buildPath": "code"}"#)]).is_empty());
    assert!(check_config(&[config(r#"{"buildPath": "comp"}"#)]).is_empty());
    let out = check_config(&[config(r#"{"buildPath": "Code"}"#)]);
    assert_eq!(ids(&out), vec!["config-invalid-build-path"]);
    assert_eq!(
        out[0].summary,
        ".impeccable/config.json sets `buildPath` to \"Code\", which nothing reads. The values are `comp` and `code`."
    );
    let out = check_config(&[config(r#"{"buildPath": 3}"#)]);
    assert!(out[0].summary.contains("to 3, which"));
}

#[test]
fn detector_keys_nothing_reads_are_named() {
    let out = check_config(&[config(r#"{"detector": {"ignoreRule": [], "extensions": []}}"#)]);
    assert_eq!(ids(&out), vec!["config-unknown-detector-keys"]);
    assert_eq!(
        out[0].summary,
        ".impeccable/config.json has `detector` key(s) nothing reads: `ignoreRule`. Recognized keys are `ignoreRules`, `ignoreFiles`, `ignoreValues`, `designSystem`, `extensions`."
    );
    // A detector that is not an object is not read.
    assert!(check_config(&[config(r#"{"detector": 1}"#)]).is_empty());
}

#[test]
fn config_findings_come_file_by_file() {
    let second = (".impeccable/config.local.json".to_string(), r#"{"x": 1}"#.to_string());
    let out = check_config(&[config(r#"{"y": 1, "buildPath": null}"#), config("not json"), config("[1, 2]"), second]);
    assert_eq!(ids(&out), vec!["config-unknown-keys", "config-invalid-build-path", "config-unknown-keys"]);
    assert!(out[1].summary.contains("to null, which"));
    assert_eq!(out[2].path.as_deref(), Some(".impeccable/config.local.json"));
}

#[test]
fn direction_work_without_a_recorded_build_path_is_reported() {
    let none = [config(r#"{"hook": true}"#), config("not json")];
    let out = check_build_path_unset("/p", Some("# P\n"), &none, &[false, true]);
    assert_eq!(ids(&out), vec!["config-build-path-unset"]);
    assert_eq!(out[0].path.as_deref(), Some(".impeccable/config.json"));
    assert!(out[0].fix.contains("`\"buildPath\": \"comp\"`"));
    let recorded = [config(r#"{"hook": true}"#), config(r#"{"buildPath": "weird"}"#)];
    assert!(check_build_path_unset("/p", Some("# P\n"), &recorded, &[true, true]).is_empty());
    assert!(!check_build_path_unset("/p", Some("# P\n"), &[config(r#"["buildPath"]"#)], &[true, false]).is_empty());
    assert!(check_build_path_unset("/p", Some("# P\n"), &[], &[false, false]).is_empty());
    assert!(check_build_path_unset("/p", Some(""), &[], &[true, true]).is_empty());
    assert!(check_build_path_unset("", Some("# P\n"), &[], &[true, true]).is_empty());
}

fn brief(path: &str, target: Option<&str>) -> BriefSummary {
    BriefSummary { path: path.to_string(), primary_target: target.map(str::to_string) }
}

#[test]
fn briefs_whose_file_target_is_gone_are_orphaned() {
    let briefs = vec![
        brief("briefs/a.md", Some("src/a.tsx")),
        brief("briefs/b.md", Some("HTTPS://example.com")),
        brief("briefs/c.md", Some("route:/settings")),
        brief("", Some("src/c.tsx")),
        brief("briefs/d.md", None),
        brief("briefs/e.md", Some("src/e.tsx")),
    ];
    let missing = [true, true, true, true, true, false];
    let out = check_surface_briefs(&briefs, "/p", &missing);
    assert_eq!(ids(&out), vec!["surface-brief-orphaned"]);
    assert_eq!(out[0].path.as_deref(), Some("briefs/a.md"));
    assert_eq!(
        out[0].summary,
        "2 persisted surface brief(s) name a primary target that no longer exists: briefs/a.md → src/a.tsx;  → src/c.tsx."
    );
    assert!(check_surface_briefs(&briefs, "", &missing).is_empty());
    assert!(check_surface_briefs(&briefs, "/p", &[false; 6]).is_empty());
    let only_unnamed = check_surface_briefs(&[brief("", Some("x"))], "/p", &[true]);
    assert_eq!(only_unnamed[0].path, None);
}

#[test]
fn the_boot_root_falls_back_to_the_working_directory() {
    assert_eq!(boot_project_root("", "/work"), "/work");
    assert_eq!(boot_project_root("/p", "/work"), "/p");
}

fn one(id: &str) -> Vec<Finding> {
    vec![finding(id, "x", None, "mention", String::new(), String::new())]
}

#[test]
fn boot_findings_come_group_by_group() {
    let groups = BootFindingGroups {
        product: one("a"),
        native_platform: one("b"),
        design_sidecar: one("c"),
        config: Vec::new(),
        build_path: one("e"),
        surface_briefs: one("f"),
        project_roots: one("g"),
    };
    assert_eq!(ids(&collect_boot_findings(groups)), vec!["a", "b", "c", "e", "f", "g"]);
}

fn reads(product: Option<&str>) -> BootReads {
    BootReads {
        project_root: "/p".to_string(),
        product: product.map(str::to_string),
        product_path: None,
        platform: None,
        product_schema: schema(),
        product_stamp: Some(4),
        evidence_paths: [false; 5],
        evidence_dependencies: [false; 4],
        evidence_manifests: [Some("[dependencies]\nratatui = \"0.29\"\n".to_string()), None, None, None],
        sidecar: None,
        design_ms: None,
        sidecar_version: 2,
        config_texts: Vec::new(),
        direction_work: [false, false],
        briefs: Vec::new(),
        brief_targets_missing: Vec::new(),
        project_root_patterns: Some(vec!["apps/*".to_string()]),
        target_candidates: 0,
    }
}

#[test]
fn platform_evidence_is_checked_only_once_a_product_record_exists() {
    let with = collect_boot_finding_groups(&reads(Some("# P\n\n## Tone\nx\n")));
    assert_eq!(ids(&with.product), vec!["product-deprecated-tone"]);
    assert_eq!(with.product[0].path.as_deref(), Some("PRODUCT.md"));
    assert_eq!(ids(&with.native_platform), vec!["platform-native-evidence"]);
    assert_eq!(ids(&with.project_roots), vec!["config-project-roots-match-nothing"]);
    let without = collect_boot_finding_groups(&reads(None));
    assert!(without.product.is_empty());
    assert!(without.native_platform.is_empty());
    assert_eq!(ids(&without.project_roots), vec!["config-project-roots-match-nothing"]);
}

#[test]
fn sidecar_candidates_put_the_canonical_location_first() {
    assert_eq!(
        design_sidecar_candidates_for("/p", None, '/'),
        vec!["/p/.impeccable/design.json".to_string(), "/p/DESIGN.json".to_string()]
    );
    assert_eq!(
        design_sidecar_candidates_for("/p/", Some("/ctx"), '/'),
        vec!["/p/.impeccable/design.json".to_string(), "/p/DESIGN.json".to_string(), "/ctx/DESIGN.json".to_string()]
    );
    assert_eq!(design_sidecar_candidates_for("/p", Some("/p"), '/').len(), 2);
}

#[test]
fn only_an_object_with_the_key_records_a_build_path() {
    assert!(records_build_path(r#"{"buildPath": 1}"#));
    assert!(records_build_path(r#"{"buildPath": null, "hook": true}"#));
    assert!(!records_build_path(r#"{"hook": true}"#));
    assert!(!records_build_path(r#"["buildPath"]"#));
    assert!(!records_build_path("buildPath"));
}
