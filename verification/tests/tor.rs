use haddock::text::{decimal_string, find_str, matches_at, trim_whitespace};
use haddock::tor::{build_tor_args, scan_tor_line, tor_starting, tor_startup_outcome, tor_stopping};

#[test]
fn tor_command_line() {
    assert_eq!(
        build_tor_args("/d", "/g", "/g6"),
        vec!["--SocksPort", "9050", "--DataDirectory", "/d", "--GeoIPFile", "/g", "--GeoIPv6File", "/g6"]
    );
}

#[test]
fn bootstrap_progress_lines() {
    let step = scan_tor_line("Nov 18 [notice] Bootstrapped 45% (requesting_descriptors): Asking", false);
    assert!(!step.bootstrapped);
    assert_eq!(step.events.len(), 1);
    assert_eq!(step.events[0].event_type, "tor-status");
    assert_eq!(step.events[0].message, "connecting:45%");

    let step = scan_tor_line("  [notice] Bootstrapped 100% (done): Done  ", true);
    assert!(step.bootstrapped);
    assert_eq!(step.events.len(), 2);
    assert_eq!(step.events[0].message, "[TOR] [notice] Bootstrapped 100% (done): Done");
    assert_eq!(step.events[1].message, "connecting:100%");

    let step = scan_tor_line("Bootstrapped, no space", true);
    assert_eq!(step.events.len(), 1);
    assert!(!step.bootstrapped);

    let step = scan_tor_line("Bootstrapped  7 Bootstrapped 9%", false);
    assert_eq!(step.events[0].message, "connecting:7%");

    let step = scan_tor_line("", true);
    assert!(step.events.is_empty());
}

#[test]
fn tor_outcomes() {
    let o = tor_startup_outcome(Some(true));
    assert!(o.result.is_ok());
    assert_eq!(o.events[0].message, "Tor connected. Searching anonymously...");
    assert_eq!(o.events[1].message, "connected");
    let o = tor_startup_outcome(Some(false));
    assert_eq!(o.result.unwrap_err(), "Tor process exited before bootstrapping");
    assert_eq!(o.events[0].message, "error");
    let o = tor_startup_outcome(None);
    assert_eq!(o.result.unwrap_err(), "Tor failed to connect within 60 seconds");
}

#[test]
fn tor_start_and_stop_events() {
    let ev = tor_starting("/opt/tor", true);
    assert_eq!(ev.len(), 3);
    assert_eq!(ev[0].message, "Starting Tor...");
    assert_eq!(ev[1].message, "connecting");
    assert_eq!(ev[2].message, "[DEBUG] Tor path: /opt/tor");
    assert_eq!(tor_starting("/opt/tor", false).len(), 2);
    let ev = tor_stopping(true);
    assert_eq!(ev.len(), 2);
    assert_eq!(ev[0].message, "[DEBUG] Stopping Tor...");
    assert_eq!(ev[1].event_type, "tor-status");
    assert_eq!(ev[1].message, "stopped");
    assert_eq!(tor_stopping(false).len(), 1);
}

#[test]
fn text_helpers() {
    assert_eq!(decimal_string(0), "0");
    assert_eq!(decimal_string(9050), "9050");
    assert_eq!(decimal_string(u64::MAX), "18446744073709551615");
    assert_eq!(trim_whitespace(" \t a b \n"), "a b");
    assert_eq!(trim_whitespace("\u{2003}x\u{85}"), "x");
    assert_eq!(trim_whitespace("   "), "");
    assert_eq!(find_str("abcabc", "ca"), Some(2));
    assert_eq!(find_str("héllo", "l"), Some(2));
    assert_eq!(find_str("abc", "d"), None);
    assert_eq!(find_str("abc", ""), Some(0));
    assert!(matches_at("[+] x", "[+]", 0));
    assert!(!matches_at("[+", "[+]", 0));
}
