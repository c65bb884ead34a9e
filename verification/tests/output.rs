use haddock::output::{scan_stdout_line, stdout_line_counts, stdout_line_is_sliceable, ScanState};

fn state() -> ScanState {
    ScanState::new()
}

#[test]
fn found_line() {
    let mut s = state();
    let line = "  [+] GitHub: https://www.github.com/alice  ";
    assert!(stdout_line_is_sliceable(line));
    let step = scan_stdout_line(&mut s, line, true, false, false);
    assert!(!step.cancelled);
    assert_eq!((s.found, s.checked), (1, 1));
    assert_eq!(step.events.len(), 2);
    let r = step.events[0].result.as_ref().unwrap();
    assert_eq!(step.events[0].event_type, "result");
    assert_eq!(step.events[0].message, "[+] GitHub: https://www.github.com/alice");
    assert_eq!(r.site, "GitHub");
    assert_eq!(r.url, "https://www.github.com/alice");
    assert!(r.found);
    assert_eq!(step.events[1].event_type, "progress");
    assert_eq!(step.events[1].message, "1 found / 1 checked");
}

#[test]
fn site_with_space_before_colon() {
    // The URL is cut one byte after the trimmed site name, as Sherlock's
    // reader always did: here that is the colon itself.
    let mut s = state();
    let step = scan_stdout_line(&mut s, "[+] Git Hub : https://x", true, false, false);
    let r = step.events[0].result.as_ref().unwrap();
    assert_eq!(r.site, "Git Hub");
    assert_eq!(r.url, ": https://x");
}

#[test]
fn found_line_without_colon_is_ignored() {
    let mut s = state();
    let step = scan_stdout_line(&mut s, "[+] nothing here", true, true, false);
    assert_eq!((s.found, s.checked), (0, 0));
    assert_eq!(step.events.len(), 1);
    assert_eq!(step.events[0].event_type, "debug");
    assert_eq!(step.events[0].message, "[STDOUT] [+] nothing here");
}

#[test]
fn not_found_lines() {
    let mut s = state();
    scan_stdout_line(&mut s, "[+] A: http://a", true, false, false);
    let step = scan_stdout_line(&mut s, "[-] Reddit: Not Found!", true, false, false);
    assert_eq!((s.found, s.checked), (1, 2));
    assert_eq!(step.events.len(), 1);
    assert_eq!(step.events[0].message, "1 found / 2 checked");
    let step = scan_stdout_line(&mut s, "[-] Reddit: Not Found!", true, false, true);
    assert_eq!(step.events.len(), 2);
    let r = step.events[0].result.as_ref().unwrap();
    assert_eq!(r.site, "Reddit");
    assert_eq!(r.url, "");
    assert!(!r.found);
    let step = scan_stdout_line(&mut s, "[-]  Tumblr ", true, false, true);
    assert_eq!(step.events[0].result.as_ref().unwrap().site, "Tumblr");
    assert_eq!(s.checked, 4);
}

#[test]
fn other_and_blank_lines() {
    let mut s = state();
    let step = scan_stdout_line(&mut s, "   ", true, true, true);
    assert!(step.events.is_empty());
    let step = scan_stdout_line(&mut s, " [*] Checking username alice on: ", true, false, false);
    assert_eq!(step.events.len(), 1);
    assert_eq!(step.events[0].event_type, "info");
    assert_eq!(step.events[0].message, "[*] Checking username alice on:");
    assert_eq!((s.found, s.checked), (0, 0));
}

#[test]
fn cancelled_search() {
    let mut s = state();
    scan_stdout_line(&mut s, "[+] GitHub: https://x", true, false, false);
    let step = scan_stdout_line(&mut s, "[+] GitHub: https://x", false, true, true);
    assert!(step.cancelled);
    assert_eq!((s.found, s.checked), (1, 1));
    assert_eq!(step.events.len(), 1);
    assert_eq!(step.events[0].event_type, "complete");
    assert_eq!(step.events[0].message, "Search cancelled");
}

#[test]
fn slicing_inside_a_character_is_detected() {
    assert!(stdout_line_is_sliceable("[+] GitHub: https://x"));
    assert!(stdout_line_is_sliceable("[+] Git Hub : x"));
    assert!(stdout_line_is_sliceable("[+] no colon"));
    assert!(stdout_line_is_sliceable("plain"));
    assert!(!stdout_line_is_sliceable("[+] Site\u{a0}: x"));
    assert!(!stdout_line_is_sliceable("[+] Site\u{3000}: x"));
    assert!(stdout_line_is_sliceable("[+] Sité: x"));
}

#[test]
fn progress_over_a_run() {
    let lines = [
        "[*] Checking username alice on:",
        "[+] GitHub: https://github.com/alice",
        "[-] Reddit: Not Found!",
        "",
        "[+] no colon",
        "[-] Tumblr",
        "[+] GitLab: https://gitlab.com/alice",
    ];
    let mut s = state();
    let mut reports = Vec::new();
    for line in lines {
        let step = scan_stdout_line(&mut s, line, true, true, true);
        for e in step.events {
            if e.event_type == "progress" {
                reports.push(e.message);
            }
        }
    }
    assert_eq!(
        reports,
        vec!["1 found / 1 checked", "1 found / 2 checked", "1 found / 3 checked", "2 found / 4 checked"]
    );
    assert_eq!((s.found, s.checked), (2, 4));
}

#[test]
fn counted_lines() {
    assert_eq!(stdout_line_counts("[+] A: x"), (true, true));
    assert_eq!(stdout_line_counts("[+] no colon"), (false, false));
    assert_eq!(stdout_line_counts(" [-] A "), (false, true));
    assert_eq!(stdout_line_counts("other"), (false, false));
    assert_eq!(stdout_line_counts("   "), (false, false));
}
