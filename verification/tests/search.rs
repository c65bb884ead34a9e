use haddock::models::SearchOptions;
use haddock::search::{
    build_sherlock_args, join_strings, scan_stderr_line, search_finished, search_started,
    tor_failed, validate_search_request,
};

fn options() -> SearchOptions {
    SearchOptions {
        timeout: 60,
        proxy: String::new(),
        sites: vec![],
        nsfw: false,
        print_all: false,
        browse: false,
        tor: false,
        debug: false,
    }
}

fn users(names: &[&str]) -> Vec<String> {
    names.iter().map(|s| s.to_string()).collect()
}

#[test]
fn minimal_sherlock_args() {
    let args = build_sherlock_args(&users(&["alice"]), &options());
    assert_eq!(args, vec!["-m", "sherlock_project", "alice", "--print-found", "--no-color"]);
}

#[test]
fn full_sherlock_args() {
    let mut o = options();
    o.timeout = 30;
    o.proxy = "http://127.0.0.1:8080".to_string();
    o.sites = vec!["GitHub".to_string(), "Stack Overflow".to_string()];
    o.nsfw = true;
    o.print_all = true;
    o.browse = true;
    o.debug = true;
    let args = build_sherlock_args(&users(&["alice", "bob"]), &o);
    assert_eq!(
        args,
        vec![
            "-m",
            "sherlock_project",
            "alice",
            "bob",
            "--print-all",
            "--timeout",
            "30",
            "--proxy",
            "http://127.0.0.1:8080",
            "--site",
            "GitHub",
            "--site",
            "Stack Overflow",
            "--nsfw",
            "--browse",
            "--verbose",
            "--no-color",
        ]
    );
}

#[test]
fn default_and_zero_timeout_are_omitted() {
    let mut o = options();
    o.timeout = 0;
    assert!(!build_sherlock_args(&users(&["a"]), &o).contains(&"--timeout".to_string()));
    o.timeout = 60;
    assert!(!build_sherlock_args(&users(&["a"]), &o).contains(&"--timeout".to_string()));
    o.timeout = 4294967295;
    let args = build_sherlock_args(&users(&["a"]), &o);
    assert_eq!(args[4], "--timeout");
    assert_eq!(args[5], "4294967295");
}

#[test]
fn tor_overrides_the_proxy() {
    let mut o = options();
    o.tor = true;
    o.proxy = "http://elsewhere:1".to_string();
    let args = build_sherlock_args(&users(&["a"]), &o);
    assert_eq!(
        args,
        vec!["-m", "sherlock_project", "a", "--print-found", "--proxy", "socks5://127.0.0.1:9050", "--no-color"]
    );
}

#[test]
fn request_checks_in_order() {
    let o = options();
    assert_eq!(
        validate_search_request(true, &users(&["a"]), &o).unwrap_err(),
        "A search is already in progress"
    );
    assert_eq!(
        validate_search_request(false, &[], &o).unwrap_err(),
        "At least one username is required"
    );
    assert_eq!(
        validate_search_request(false, &users(&["ok", "b;c", "d e"]), &o).unwrap_err(),
        "Invalid username 'b;c': only alphanumeric, dots, underscores, hyphens and ? are allowed"
    );
    let mut bad = options();
    bad.proxy = "ftp://x".to_string();
    bad.sites = vec!["x;y".to_string()];
    assert_eq!(
        validate_search_request(false, &users(&["ok"]), &bad).unwrap_err(),
        "Invalid proxy URL: must start with http://, https://, socks4:// or socks5://"
    );
    bad.proxy = String::new();
    assert_eq!(
        validate_search_request(false, &users(&["ok"]), &bad).unwrap_err(),
        "Invalid site name 'x;y': only alphanumeric, dots, hyphens, underscores and spaces are allowed"
    );
    bad.sites = vec!["GitHub".to_string()];
    assert!(validate_search_request(false, &users(&["ok", "x?y"]), &bad).is_ok());
}

#[test]
fn joins() {
    assert_eq!(join_strings(&[], ", "), "");
    assert_eq!(join_strings(&users(&["a"]), ", "), "a");
    assert_eq!(join_strings(&users(&["a", "b", "c"]), ", "), "a, b, c");
}

#[test]
fn start_events() {
    let ev = search_started(&users(&["a", "b"]), "/py", &users(&["-m", "x"]), false);
    assert_eq!(ev.len(), 1);
    assert_eq!(ev[0].event_type, "info");
    assert_eq!(ev[0].message, "Searching for: a, b");
    let ev = search_started(&users(&["a"]), "/py", &users(&["-m", "x"]), true);
    assert_eq!(ev.len(), 2);
    assert_eq!(ev[1].event_type, "debug");
    assert_eq!(ev[1].message, "[DEBUG] Command: /py -m x");
}

#[test]
fn tor_failure() {
    let ev = tor_failed("boom");
    assert_eq!(ev[0].event_type, "error");
    assert_eq!(ev[0].message, "Tor error: boom");
    assert_eq!(ev[1].event_type, "complete");
    assert_eq!(ev[1].message, "Search aborted \u{2014} Tor failed to start");
}

#[test]
fn stderr_lines() {
    let mut acc = String::new();
    assert!(scan_stderr_line(&mut acc, "   ", true).is_none());
    assert_eq!(acc, "");
    let e = scan_stderr_line(&mut acc, "  oops  ", true).unwrap();
    assert_eq!(e.event_type, "debug");
    assert_eq!(e.message, "[STDERR] oops");
    assert!(scan_stderr_line(&mut acc, "again", false).is_none());
    assert_eq!(acc, "  oops  \nagain\n");
}

#[test]
fn finishing() {
    let f = search_finished(Some((3, 10, false)), "");
    assert!(f.stop_running);
    assert_eq!(f.events.len(), 1);
    assert_eq!(f.events[0].event_type, "complete");
    assert_eq!(f.events[0].message, "Done. 3 found across 10 sites checked.");

    let f = search_finished(Some((0, 2, false)), " warn \n");
    assert_eq!(f.events[0].event_type, "error");
    assert_eq!(f.events[0].message, "Sherlock stderr: warn");
    let f = search_finished(Some((1, 2, true)), "warn\n");
    assert!(!f.stop_running);
    assert_eq!(f.events.len(), 1);
    assert_eq!(f.events[0].event_type, "info");

    let f = search_finished(None, "");
    assert!(f.stop_running);
    assert_eq!(f.events[0].event_type, "error");
    assert_eq!(f.events[0].message, "Search timed out after 600 seconds.");
    assert_eq!(f.events[1].message, "Search timed out");
}
