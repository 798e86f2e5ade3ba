use impeccable_terminal::capture::FrameRole;
use impeccable_terminal::engine::{
    frame_from, pane_file, read_failure_message, restore_outcome, ReadFailure, TerminalEngine,
};
use impeccable_terminal::tmux::{
    check_version, configured_missing_message, find_tmux, parse_pane_info, parse_version, run_error_message,
    tmux_candidates, tmux_search, PaneInfo, TmuxSearch, MIN_VERSION, NOT_FOUND_MESSAGE,
};

#[test]
fn parse_version_reads_release_and_next_builds() {
    assert_eq!(parse_version("tmux 3.7c\n"), Some((3, 7)));
    assert_eq!(parse_version("tmux 3.2a"), Some((3, 2)));
    assert_eq!(parse_version("tmux next-3.8"), Some((3, 8)));
    assert_eq!(parse_version("tmux master"), None);
    assert!((3, 1) < MIN_VERSION && (3, 2) >= MIN_VERSION);
}

#[test]
fn live_frames_carry_the_pane_geometry_and_client_features() {
    let info = PaneInfo { width: 60, height: 8, window_width: 60, window_height: 8, termfeatures: "256,RGB".into() };
    let f = frame_from("\x1b[31mhi\x1b[0m\n\n", &info, "truecolor", FrameRole::Recapture);
    assert_eq!((f.width, f.height, f.rows.len()), (60, 8, 2));
    assert_eq!(f.termfeatures, "256,RGB");
    assert_eq!(f.colorterm, "truecolor");
    assert_eq!(f.role, FrameRole::Recapture);
}

// ─── More cases ─────────────────────────────────────────────────────────────

#[test]
fn a_version_without_a_minor_reads_as_minor_zero() {
    assert_eq!(parse_version("tmux 4"), Some((4, 0)));
    assert_eq!(parse_version("tmux 3..1"), None, "an empty minor is not a number");
    assert_eq!(parse_version("tmux 99999999999.1"), None, "a major past u32 is not a version");
}

#[test]
fn an_old_tmux_is_refused_naming_what_was_found() {
    assert_eq!(check_version("tmux 3.1b\n").unwrap_err(), "tmux 3.2 or newer is required for --tmux; found tmux 3.1b");
    assert_eq!(check_version("tmux master\n").unwrap_err(), "tmux 3.2 or newer is required for --tmux; found tmux master");
    assert!(check_version("tmux 3.2").is_ok());
    assert!(check_version("tmux 4.0").is_ok());
}

#[test]
fn the_override_wins_and_path_entries_are_searched_in_order() {
    match tmux_search(Some("  /opt/tmux  "), Some("/usr/bin"), ':') {
        TmuxSearch::Configured(p) => assert_eq!(p, "/opt/tmux"),
        TmuxSearch::OnPath(_) => panic!("the override names the path"),
    }
    match tmux_search(Some("   "), Some("/a::/b:"), ':') {
        TmuxSearch::OnPath(dirs) => assert_eq!(dirs, vec!["/a".to_string(), "/b".to_string()]),
        TmuxSearch::Configured(_) => panic!("a blank override is no override"),
    }
    match tmux_search(None, None, ':') {
        TmuxSearch::OnPath(dirs) => assert!(dirs.is_empty()),
        TmuxSearch::Configured(_) => panic!("nothing configured"),
    }
    assert_eq!(
        configured_missing_message("/nonexistent/tmux"),
        "tmux was not found at the configured path (/nonexistent/tmux) from IMPECCABLE_TMUX"
    );
    assert!(NOT_FOUND_MESSAGE.starts_with("tmux 3.2 or newer is required"));
}

#[test]
fn a_failed_command_reports_its_verb_and_first_stderr_line() {
    assert_eq!(run_error_message("list-panes", "can't find session: nope\nmore\n"), "tmux list-panes: can't find session: nope");
    assert_eq!(run_error_message("set-option", "  boom \r\n"), "tmux set-option: boom");
    assert_eq!(run_error_message("x", ""), "tmux x: ");
}

#[test]
fn pane_info_reads_five_tab_separated_fields() {
    let p = parse_pane_info("40\t5\t80\t24\t256,RGB \n").unwrap();
    assert_eq!((p.width, p.height, p.window_width, p.window_height), (40, 5, 80, 24));
    assert_eq!(p.termfeatures, "256,RGB");
    assert_eq!(parse_pane_info("40\t5\n").unwrap_err(), "tmux display-message: unexpected output \"40\\t5\"");
    assert_eq!(parse_pane_info("40\tx\t1\t1\t\n").unwrap_err(), "tmux display-message: \"x\" is not a number");
    assert_eq!(parse_pane_info("\t\t\t\t\n").unwrap_err(), "tmux display-message: \"\" is not a number");
}

#[test]
fn a_restore_failure_is_reported_with_or_without_a_capture_failure() {
    assert_eq!(restore_outcome(Ok(()), Ok(())), Ok(()));
    assert_eq!(restore_outcome(Err("c".into()), Ok(())), Err("c".to_string()));
    assert_eq!(
        restore_outcome(Ok(()), Err("tmux set-option: boom".into())),
        Err("window not restored: tmux set-option: boom".to_string())
    );
    assert_eq!(restore_outcome(Err("c".into()), Err("r".into())), Err("c; window not restored: r".to_string()));
}

#[test]
fn unreadable_captures_name_the_error() {
    assert_eq!(
        read_failure_message(&ReadFailure::NotFound, "/nonexistent/x.txt"),
        "ENOENT: no such file or directory, open '/nonexistent/x.txt'"
    );
    assert_eq!(read_failure_message(&ReadFailure::PermissionDenied, "/x"), "EACCES: permission denied, open '/x'");
    assert_eq!(read_failure_message(&ReadFailure::Other("disk".into()), "/x"), "disk");
    assert_eq!(pane_file("app:0.0"), "tmux:app:0.0");
}

#[test]
fn the_engine_reads_colorterm_from_its_environment() {
    let e = TerminalEngine::new(vec![("PATH".into(), "/bin".into()), ("COLORTERM".into(), "24bit".into())]);
    assert_eq!(e.colorterm(), "24bit");
    assert_eq!(e.var("PATH"), Some("/bin".to_string()));
    assert_eq!(e.var("TMUX"), None);
    assert_eq!(TerminalEngine::new(Vec::new()).colorterm(), "");
}

#[test]
fn missing_tmux_names_the_requirement_and_the_override_wins() {
    // PATH=/nonexistent: its one candidate is not a file.
    let search = tmux_search(None, Some("/nonexistent"), ':');
    assert_eq!(tmux_candidates(&search, "tmux", '/'), vec!["/nonexistent/tmux".to_string()]);
    assert_eq!(find_tmux(&search, "tmux", '/', &[false]).unwrap_err(), NOT_FOUND_MESSAGE);
    // IMPECCABLE_TMUX names a path that does not exist.
    let search = tmux_search(Some("/nonexistent/tmux"), Some("/nonexistent"), ':');
    assert_eq!(
        find_tmux(&search, "tmux", '/', &[false]).unwrap_err(),
        "tmux was not found at the configured path (/nonexistent/tmux) from IMPECCABLE_TMUX"
    );
    // A directory on PATH holding a tmux file.
    let search = tmux_search(None, Some("/tmp/impeccable-tmux"), ':');
    assert_eq!(find_tmux(&search, "tmux", '/', &[true]).unwrap(), "/tmp/impeccable-tmux/tmux");
}

#[test]
fn the_first_path_candidate_that_is_a_file_wins() {
    let search = tmux_search(None, Some("/a::/b/:/c"), ':');
    assert_eq!(
        tmux_candidates(&search, "tmux", '/'),
        vec!["/a/tmux".to_string(), "/b/tmux".to_string(), "/c/tmux".to_string()]
    );
    assert_eq!(find_tmux(&search, "tmux", '/', &[false, true, true]).unwrap(), "/b/tmux");
    assert_eq!(find_tmux(&search, "tmux", '/', &[false, false, true]).unwrap(), "/c/tmux");
    // Candidates past the end of the answers are taken not to be files.
    assert_eq!(find_tmux(&search, "tmux", '/', &[false]).unwrap_err(), NOT_FOUND_MESSAGE);
    let configured = tmux_search(Some("  /opt/tmux  "), Some("/a"), ':');
    assert_eq!(tmux_candidates(&configured, "tmux", '/'), vec!["/opt/tmux".to_string()]);
    assert_eq!(find_tmux(&configured, "tmux", '/', &[true]).unwrap(), "/opt/tmux");
}

#[test]
fn the_engine_hands_back_its_environment() {
    let env = vec![("PATH".to_string(), "/bin".to_string()), ("TMUX".to_string(), "/tmp/s,1,0".to_string())];
    let engine = TerminalEngine::new(env.clone());
    assert_eq!(engine.vars(), env);
    assert_eq!(engine.var("TMUX"), Some("/tmp/s,1,0".to_string()));
    assert_eq!(engine.var("HOME"), None);
}

#[test]
fn a_later_binding_of_a_name_replaces_the_earlier_value() {
    let env = vec![
        ("PATH".to_string(), "/a".to_string()),
        ("TMUX".to_string(), "x".to_string()),
        ("PATH".to_string(), "/b".to_string()),
    ];
    let engine = TerminalEngine::new(env);
    assert_eq!(engine.vars(), vec![("PATH".to_string(), "/b".to_string()), ("TMUX".to_string(), "x".to_string())]);
    assert_eq!(engine.var("PATH"), Some("/b".to_string()));
}
