use impeccable_terminal::staleness::{
    cargo_names_dependency, check_project_roots, finding, go_mod_requires, manifest_names_dependency,
    native_platform_evidence, pep503_normalize, python_names_dependency, Finding,
};

const WEB_PRODUCT: &str = "# P\n\n## Platform\n\nweb\n\n## Positioning\nx\n";

/// What the project root holds: evidence files present, package.json
/// dependencies declared, and manifest texts.
#[derive(Default)]
struct Root {
    paths: Vec<&'static str>,
    deps: Vec<&'static str>,
    manifests: Vec<(&'static str, String)>,
}

impl Root {
    fn write(mut self, rel: &'static str, body: &str) -> Root {
        let manifests = ["Cargo.toml", "go.mod", "pyproject.toml", "requirements.txt"];
        if manifests.contains(&rel) {
            self.manifests.push((rel, body.to_string()));
        } else {
            self.paths.push(rel);
        }
        self
    }

    fn dep(mut self, name: &'static str) -> Root {
        self.deps.push(name);
        self
    }

    fn check(&self, platform: Option<&str>, product: Option<&str>, product_path: Option<&str>) -> Vec<Finding> {
        let paths = ["pubspec.yaml", "ios/Podfile", "android/build.gradle", "android/build.gradle.kts", "ios/Runner.xcodeproj"];
        let deps = ["react-native", "expo", "@react-native/metro-config", "ink"];
        let manifests = ["Cargo.toml", "go.mod", "pyproject.toml", "requirements.txt"];
        let present: [bool; 5] = paths.map(|p| self.paths.contains(&p));
        let declared: [bool; 4] = deps.map(|d| self.deps.contains(&d));
        let texts: [Option<String>; 4] =
            manifests.map(|m| self.manifests.iter().find(|(n, _)| *n == m).map(|(_, t)| t.clone()));
        native_platform_evidence("/project", platform, product, product_path, &present, &declared, &texts)
    }
}

fn root() -> Root {
    Root::default()
}

#[test]
fn pep503_folds_case_and_separator_runs() {
    assert_eq!(pep503_normalize("Textual"), "textual");
    assert_eq!(pep503_normalize("Textual__Dev.-Tools"), "textual-dev-tools");
}

#[test]
fn ratatui_dependency_suggests_terminal_for_a_web_project() {
    let r = root().write("Cargo.toml", "[package]\nname = \"x\"\n\n[dependencies]\nratatui = \"0.29\"\n");
    let f = r.check(Some("web"), Some(WEB_PRODUCT), Some("PRODUCT.md"));
    assert_eq!(f.len(), 1);
    assert_eq!(f[0].id, "platform-native-evidence");
    assert!(f[0].summary.contains("a ratatui dependency"), "{}", f[0].summary);
    assert!(f[0].summary.contains("terminal codebase"), "{}", f[0].summary);
    assert!(f[0].fix.contains("`terminal`"), "{}", f[0].fix);
}

#[test]
fn go_mod_and_python_manifests_count_as_evidence() {
    let r = root().write("go.mod", "module example.com/app\n\ngo 1.22\n\nrequire (\n\tgithub.com/charmbracelet/bubbletea v1.2.0\n)\n");
    let f = r.check(None, Some("# P\n"), Some("PRODUCT.md"));
    assert_eq!(f.len(), 1);
    assert!(f[0].summary.contains("a bubbletea dependency"), "{}", f[0].summary);

    let r = root().write("pyproject.toml", "[project]\ndependencies = [\n  \"textual>=0.80\",\n]\n");
    let f = r.check(None, None, None);
    assert_eq!(f.len(), 1);
    assert!(f[0].summary.contains("a textual dependency"), "{}", f[0].summary);
}

#[test]
fn go_mod_single_line_require_counts_as_evidence() {
    let r = root().write("go.mod", "module example.com/app\n\ngo 1.22\n\nrequire github.com/charmbracelet/lipgloss v1.0.0\n");
    let f = r.check(None, Some("# P\n"), Some("PRODUCT.md"));
    assert_eq!(f.len(), 1);
    assert!(f[0].summary.contains("a lipgloss dependency"), "{}", f[0].summary);
    assert!(f[0].fix.contains("`terminal`"), "{}", f[0].fix);
}

#[test]
fn ink_in_package_json_counts_as_evidence() {
    let r = root().dep("ink");
    let f = r.check(Some("web"), Some(WEB_PRODUCT), Some("PRODUCT.md"));
    assert_eq!(f.len(), 1);
    assert!(f[0].summary.contains("an ink dependency"), "{}", f[0].summary);
    assert!(f[0].fix.contains("`terminal`"), "{}", f[0].fix);
}

#[test]
fn declared_terminal_project_skips_the_check() {
    let r = root().write("Cargo.toml", "[dependencies]\nratatui = \"0.29\"\n");
    let f = r.check(Some("terminal"), Some("# P\n\n## Platform\n\nterminal\n"), Some("PRODUCT.md"));
    assert!(f.is_empty());
}

#[test]
fn mobile_evidence_outranks_terminal_evidence() {
    let r = root().write("ios/Podfile", "platform :ios, '15.0'\n").write("Cargo.toml", "[dependencies]\nratatui = \"0.29\"\n");
    let f = r.check(Some("web"), Some(WEB_PRODUCT), Some("PRODUCT.md"));
    assert_eq!(f.len(), 1);
    assert!(f[0].fix.contains("`ios`"), "{}", f[0].fix);
    assert!(f[0].summary.contains("native codebase"), "{}", f[0].summary);
}

#[test]
fn a_prefixed_crate_name_is_not_a_match() {
    let r = root()
        .write("Cargo.toml", "[dependencies]\nratatui-macros = \"0.6\"\nratatuix = \"1\"\n")
        .write("requirements.txt", "textual-dev==1.0\ntextualize==1.0\n");
    let f = r.check(Some("web"), Some(WEB_PRODUCT), Some("PRODUCT.md"));
    assert!(f.is_empty(), "{:?}", f.iter().map(|x| &x.summary).collect::<Vec<_>>());
}

#[test]
fn go_major_version_path_counts_and_an_indirect_require_does_not() {
    let r = root().write(
        "go.mod",
        "module example.com/app\n\ngo 1.22\n\nrequire (\n\tgithub.com/charmbracelet/bubbletea/v2 v2.0.0\n\tgithub.com/charmbracelet/lipgloss/v2 v2.0.0 // indirect\n)\n",
    );
    let f = r.check(None, Some("# P\n"), Some("PRODUCT.md"));
    assert_eq!(f.len(), 1);
    assert!(f[0].summary.contains("carries a bubbletea dependency."), "{}", f[0].summary);
    assert!(!f[0].summary.contains("lipgloss"), "{}", f[0].summary);
}

#[test]
fn go_mod_blocks_other_than_require_do_not_count() {
    let r = root().write(
        "go.mod",
        "module example.com/app\n\ngo 1.24\n\nreplace (\n\tgithub.com/charmbracelet/bubbletea => ../fork\n)\n\nexclude (\n\tgithub.com/charmbracelet/lipgloss v0.9.0\n)\n\nretract (\n\tv1.0.1\n)\n\ntool (\n\tcharm.land/bubbles/v2/cmd/demo\n)\n\nrequire github.com/charmbracelet/bubbletea v1.2.0 // indirect\n",
    );
    let f = r.check(None, Some("# P\n"), Some("PRODUCT.md"));
    assert!(f.is_empty(), "{:?}", f.iter().map(|x| &x.summary).collect::<Vec<_>>());
}

#[test]
fn charm_land_module_paths_and_bubbles_count_as_evidence() {
    let r = root().write("go.mod", "module example.com/app\n\ngo 1.24\n\nrequire (\n\tcharm.land/bubbletea/v2 v2.0.0\n\tcharm.land/bubbles/v2 v2.0.0\n)\n");
    let f = r.check(None, Some("# P\n"), Some("PRODUCT.md"));
    assert_eq!(f.len(), 1);
    assert!(f[0].summary.contains("a bubbletea dependency and a bubbles dependency"), "{}", f[0].summary);

    let r = root().write("go.mod", "module example.com/app\n\ngo 1.22\n\nrequire github.com/charmbracelet/bubbles v0.20.0\n");
    let f = r.check(None, Some("# P\n"), Some("PRODUCT.md"));
    assert_eq!(f.len(), 1);
    assert!(f[0].summary.contains("a bubbles dependency"), "{}", f[0].summary);
}

#[test]
fn a_module_on_both_charm_hosts_is_listed_once() {
    let r = root().write("go.mod", "module example.com/app\n\ngo 1.24\n\nrequire (\n\tgithub.com/charmbracelet/bubbletea v1.3.0\n\tcharm.land/bubbletea/v2 v2.0.0\n)\n");
    let f = r.check(None, Some("# P\n"), Some("PRODUCT.md"));
    assert_eq!(f.len(), 1);
    assert_eq!(f[0].summary.matches("a bubbletea dependency").count(), 1, "{}", f[0].summary);
}

#[test]
fn go_replace_directive_is_not_a_dependency_line() {
    let r = root().write("go.mod", "module example.com/app\n\ngo 1.22\n\nreplace github.com/charmbracelet/bubbletea => ../fork\n");
    let f = r.check(None, Some("# P\n"), Some("PRODUCT.md"));
    assert!(f.is_empty(), "{:?}", f.iter().map(|x| &x.summary).collect::<Vec<_>>());
}

#[test]
fn two_mobile_platforms_plus_terminal_resolve_to_adaptive() {
    let r = root()
        .write("ios/Podfile", "platform :ios, '15.0'\n")
        .write("android/build.gradle", "apply plugin: 'com.android.application'\n")
        .write("Cargo.toml", "[dependencies]\nratatui = \"0.29\"\n");
    let f = r.check(Some("web"), Some(WEB_PRODUCT), Some("PRODUCT.md"));
    assert_eq!(f.len(), 1);
    assert!(f[0].fix.contains("`adaptive`"), "{}", f[0].fix);
    assert!(f[0].fix.contains("matching native reference"), "{}", f[0].fix);
}

#[test]
fn terminal_suggestion_names_the_terminal_reference() {
    let r = root().write("Cargo.toml", "[dependencies]\nratatui = \"0.29\"\n");
    let f = r.check(Some("web"), Some(WEB_PRODUCT), Some("PRODUCT.md"));
    assert_eq!(f.len(), 1);
    assert!(f[0].fix.contains("matching terminal reference"), "{}", f[0].fix);
}

#[test]
fn rich_alone_is_not_terminal_evidence() {
    let r = root().write("requirements.txt", "rich==13.7.0\n");
    assert!(r.check(None, None, None).is_empty());
    let r = root().write("pyproject.toml", "[project]\ndependencies = [\n  \"rich>=13\",\n]\n");
    assert!(r.check(None, None, None).is_empty());
}

#[test]
fn crossterm_alone_is_not_terminal_evidence() {
    let r = root().write("Cargo.toml", "[dependencies]\ncrossterm = \"0.28\"\n");
    assert!(r.check(Some("web"), Some(WEB_PRODUCT), Some("PRODUCT.md")).is_empty());
}

#[test]
fn a_reason_found_in_two_manifests_is_listed_once() {
    let r = root()
        .write("pyproject.toml", "[project]\ndependencies = [\n  \"textual>=0.80\",\n]\n")
        .write("requirements.txt", "textual==0.80.0\n");
    let f = r.check(None, None, None);
    assert_eq!(f.len(), 1);
    assert_eq!(f[0].summary.matches("a textual dependency").count(), 1, "{}", f[0].summary);
}

#[test]
fn pyproject_inline_array_and_capitalized_names_count() {
    let r = root().write("pyproject.toml", "[project]\nname = \"notes\"\ndependencies = [\"Textual>=0.80\", \"rich\"]\n");
    let f = r.check(None, None, None);
    assert_eq!(f.len(), 1);
    assert!(f[0].summary.contains("carries a textual dependency."), "{}", f[0].summary);

    let r = root().write("requirements.txt", "-r base.txt\nTextual[syntax] >= 0.80 ; python_version >= \"3.9\"\n");
    let f = r.check(None, None, None);
    assert_eq!(f.len(), 1);
    assert!(f[0].summary.contains("a textual dependency"), "{}", f[0].summary);
}

#[test]
fn poetry_key_form_still_counts() {
    let r = root().write("pyproject.toml", "[tool.poetry.dependencies]\npython = \"^3.11\"\nTextual = \"^0.80\"\n");
    let f = r.check(None, None, None);
    assert_eq!(f.len(), 1);
    assert!(f[0].summary.contains("a textual dependency"), "{}", f[0].summary);
}

#[test]
fn prose_and_comments_naming_textual_are_not_dependencies() {
    let r = root()
        .write(
            "pyproject.toml",
            "[project]\nname = \"notes\"\ndescription = \"Textual app for managing notes\"\ndependencies = [\"httpx>=0.27\"]  # textual>=0.80 later\n",
        )
        .write("requirements.txt", "# textual==0.80.0\nhttpx==0.27.0\n");
    assert!(r.check(None, None, None).is_empty());
}

#[test]
fn cargo_dotted_keys_and_dependency_headers_count() {
    let bodies = [
        "[dependencies]\nratatui.workspace = true\n",
        "[dependencies]\nratatui.version = \"0.29\"\n",
        "[dependencies.ratatui]\nversion = \"0.29\"\n",
        "[target.'cfg(unix)'.dependencies.ratatui]\nversion = \"0.29\"\n",
        "[workspace.dependencies]\n\"ratatui\" = \"0.29\" # tui\n",
    ];
    for body in bodies {
        let r = root().write("Cargo.toml", body);
        let f = r.check(Some("web"), Some(WEB_PRODUCT), Some("PRODUCT.md"));
        assert_eq!(f.len(), 1, "{body}");
        assert!(f[0].summary.contains("a ratatui dependency"), "{body}: {}", f[0].summary);
    }
}

#[test]
fn ratatui_named_only_in_package_metadata_is_not_a_dependency() {
    let r = root().write(
        "Cargo.toml",
        "[package]\nname = \"ratatui-notes\"\ndescription = \"ratatui demo\"\nkeywords = [\"ratatui\"]\n\n[dependencies]\ncrossterm = \"0.28\"\n",
    );
    assert!(r.check(Some("web"), Some(WEB_PRODUCT), Some("PRODUCT.md")).is_empty());
}

// ─── More cases ─────────────────────────────────────────────────────────────

#[test]
fn the_whole_evidence_finding_reads_as_one_sentence() {
    let r = root().write("Cargo.toml", "[dependencies]\nratatui = \"0.29\"\n");
    let f = r.check(Some("web"), Some(WEB_PRODUCT), Some("PRODUCT.md"));
    assert_eq!(f[0].artifact, "PRODUCT.md");
    assert_eq!(f[0].path.as_deref(), Some("PRODUCT.md"));
    assert_eq!(f[0].severity, "mention");
    assert_eq!(
        f[0].summary,
        "PRODUCT.md declares `## Platform: web`, but the project carries a ratatui dependency. Web guidance is being applied to a terminal codebase, and the terminal reference never loads."
    );
    assert_eq!(
        f[0].fix,
        "Ask the user whether `## Platform` should be `terminal`. If it should, write the value and load the matching terminal reference before designing."
    );
    let f = r.check(None, Some("# P\n"), None);
    assert!(f[0].summary.starts_with("PRODUCT.md has no `## Platform` section, so the project resolves to web"));
    assert_eq!(f[0].path, None);
    let f = r.check(None, None, None);
    assert!(f[0].summary.starts_with("no PRODUCT.md declares a platform, so the project resolves to web"));
    let f = root().write("pubspec.yaml", "name: app\n").check(Some(""), None, None);
    assert!(f[0].fix.contains("`adaptive`"), "an empty platform is web");
}

#[test]
fn manifest_parsers_read_their_own_format() {
    assert!(go_mod_requires("require charm.land/lipgloss/v2 v2.0.0\n", "lipgloss"));
    assert!(!go_mod_requires("require charm.land/lipgloss/v v2.0.0\n", "lipgloss"), "a major version needs digits");
    assert!(!go_mod_requires("require (\n\tgithub.com/charmbracelet/bubbles v1 // indirect; test\n)\n", "bubbles"));
    assert!(cargo_names_dependency("ratatui=\"1\"\r\n", "ratatui"));
    assert!(!cargo_names_dependency("# ratatui = \"1\"\n", "ratatui"));
    assert!(python_names_dependency("textual @ https://example.com/t.whl\n", "textual"));
    assert!(!python_names_dependency("textualize\n", "textual"));
    assert!(manifest_names_dependency("go.mod", "require github.com/charmbracelet/bubbletea v1\n", "bubbletea"));
    assert!(manifest_names_dependency("requirements.txt", "Textual\n", "textual"));
}

#[test]
fn project_roots_that_match_nothing_are_reported() {
    let patterns = vec!["apps/*".to_string(), " !apps/legacy".to_string(), "".to_string(), "web".to_string()];
    let f = check_project_roots(&patterns, 0);
    assert_eq!(f.len(), 1);
    assert_eq!(f[0].id, "config-project-roots-match-nothing");
    assert_eq!(f[0].path.as_deref(), Some(".impeccable/config.json"));
    assert_eq!(
        f[0].summary,
        "`projectRoots` declares `apps/*`, `web`, but no directory matches any of them, so the repo root is being treated as the active project."
    );
    assert!(check_project_roots(&patterns, 2).is_empty(), "a match means the roots work");
    assert!(check_project_roots(&["\u{FEFF}!x".to_string()], 0).is_empty(), "exclusions alone declare nothing");
    assert!(check_project_roots(&[], 0).is_empty());
}

#[test]
fn a_finding_keeps_what_it_was_given() {
    let f = finding("id", "a.md", None, "auto", "s".to_string(), "f".to_string());
    assert_eq!((f.id.as_str(), f.artifact.as_str(), f.severity.as_str()), ("id", "a.md", "auto"));
    assert_eq!((f.summary.as_str(), f.fix.as_str(), f.path), ("s", "f", None));
}

#[test]
fn a_project_without_a_root_is_not_checked() {
    let texts: [Option<String>; 4] = [Some("[dependencies]\nratatui = \"0.29\"\n".to_string()), None, None, None];
    let with_root = native_platform_evidence("/p", Some("web"), Some(WEB_PRODUCT), None, &[true; 5], &[true; 4], &texts);
    assert_eq!(with_root.len(), 1);
    let without = native_platform_evidence("", Some("web"), Some(WEB_PRODUCT), None, &[true; 5], &[true; 4], &texts);
    assert!(without.is_empty());
}
