//! Starting the embedded Tor: its command line, what its output says about
//! bootstrapping, and what is reported when it succeeds or fails.

use vstd::prelude::*;
use crate::models::{events_view, ev, push_event, push_string, strings_view, EventView, SearchEvent};
use crate::text::{
    occurs_at, contains, decimal, decimal_string, find, find_str, lemma_find_bounds, trim, trim_whitespace,
};

verus! {

/// The port of Tor's SOCKS proxy, which Sherlock is pointed at.
pub const TOR_SOCKS_PORT: u16 = 9050;

/// How long Tor may take to bootstrap, in seconds.
pub const TOR_STARTUP_TIMEOUT_SECS: u64 = 60;

/// Tor's arguments: the SOCKS port, its data directory and its GeoIP files.
pub open spec fn tor_args(data_dir: Seq<char>, geoip: Seq<char>, geoip6: Seq<char>) -> Seq<
    Seq<char>,
> {
    seq![
        "--SocksPort"@,
        decimal(TOR_SOCKS_PORT as nat),
        "--DataDirectory"@,
        data_dir,
        "--GeoIPFile"@,
        geoip,
        "--GeoIPv6File"@,
        geoip6,
    ]
}

/// Tor's command line, for the given data directory and GeoIP files.
pub fn build_tor_args(data_dir: &str, geoip_file: &str, geoip6_file: &str) -> (r: Vec<String>)
    ensures
        strings_view(r@) == tor_args(data_dir@, geoip_file@, geoip6_file@),
{
    let mut args: Vec<String> = Vec::new();
    push_string(&mut args, "--SocksPort");
    let port = decimal_string(TOR_SOCKS_PORT as u64);
    push_string(&mut args, port.as_str());
    push_string(&mut args, "--DataDirectory");
    push_string(&mut args, data_dir);
    push_string(&mut args, "--GeoIPFile");
    push_string(&mut args, geoip_file);
    push_string(&mut args, "--GeoIPv6File");
    push_string(&mut args, geoip6_file);
    assert(strings_view(args@) =~= tor_args(data_dir@, geoip_file@, geoip6_file@));
    args
}

/// The events sent as Tor is started from `tor_path`.
pub open spec fn tor_starting_events(tor_path: Seq<char>, debug: bool) -> Seq<EventView> {
    seq![ev("info"@, "Starting Tor..."@, None), ev("tor-status"@, "connecting"@, None)] + if debug {
        seq![ev("debug"@, "[DEBUG] Tor path: "@ + tor_path, None)]
    } else {
        seq![]
    }
}

/// Announces that Tor is being started from `tor_path`.
pub fn tor_starting(tor_path: &str, debug: bool) -> (r: Vec<SearchEvent>)
    ensures
        events_view(r@) == tor_starting_events(tor_path@, debug),
{
    let mut events: Vec<SearchEvent> = Vec::new();
    push_event(&mut events, SearchEvent::new("info", "Starting Tor...", None));
    push_event(&mut events, SearchEvent::new("tor-status", "connecting", None));
    if debug {
        let mut m = String::from_str("[DEBUG] Tor path: ");
        m.append(tor_path);
        push_event(&mut events, SearchEvent::new("debug", m.as_str(), None));
    }
    assert(events_view(events@) =~= tor_starting_events(tor_path@, debug));
    events
}

/// The bootstrap percentage a trimmed line of Tor's output reports: the text
/// after the first `Bootstrapped ` up to the next one, cut at its first `%`
/// and trimmed (`split("Bootstrapped ").nth(1)`, then `split('%').next()`).
pub open spec fn bootstrap_progress(t: Seq<char>) -> Option<Seq<char>> {
    if !contains(t, "Bootstrapped"@) {
        None
    } else {
        match find(t, "Bootstrapped "@) {
            Some(i) => {
                let after = t.skip(i + "Bootstrapped "@.len());
                let piece = match find(after, "Bootstrapped "@) {
                    Some(j) => after.take(j),
                    None => after,
                };
                let pct = match find(piece, "%"@) {
                    Some(j) => piece.take(j),
                    None => piece,
                };
                Some(trim(pct))
            },
            None => None,
        }
    }
}

/// The events for one line of Tor's output.
pub open spec fn tor_line_events(line: Seq<char>, debug: bool) -> Seq<EventView> {
    let t = trim(line);
    (if debug && t.len() > 0 {
        seq![ev("debug"@, "[TOR] "@ + t, None)]
    } else {
        seq![]
    }) + match bootstrap_progress(t) {
        Some(p) => seq![ev("tor-status"@, "connecting:"@ + p + "%"@, None)],
        None => seq![],
    }
}

/// The line says that Tor has finished bootstrapping.
pub open spec fn tor_line_bootstrapped(line: Seq<char>) -> bool {
    let t = trim(line);
    contains(t, "Bootstrapped 100%"@) || contains(t, "Done"@)
}

/// What one line of Tor's output leads to.
pub struct TorLineStep {
    pub events: Vec<SearchEvent>,
    pub bootstrapped: bool,
}

/// The part of `s` before the first occurrence of `p`, or all of `s`.
fn before_first(s: &str, p: &str) -> (r: String)
    ensures
        r@ == (match find(s@, p@) {
            Some(j) => s@.take(j),
            None => s@,
        }),
{
    match find_str(s, p) {
        Some(j) => {
            proof {
                lemma_find_bounds(s@, p@);
            }
            let r = s.substring_char(0, j);
            assert(r@ =~= s@.take(j as int));
            String::from_str(r)
        },
        None => String::from_str(s),
    }
}

/// Takes one line of Tor's output: echoes it when debugging, reports the
/// bootstrap percentage it gives, and says whether Tor is ready.
pub fn scan_tor_line(line: &str, debug: bool) -> (r: TorLineStep)
    ensures
        events_view(r.events@) == tor_line_events(line@, debug),
        r.bootstrapped == tor_line_bootstrapped(line@),
{
    let mut events: Vec<SearchEvent> = Vec::new();
    let t = trim_whitespace(line);
    let ts = t.as_str();
    if debug && !ts.is_empty() {
        let mut m = String::from_str("[TOR] ");
        m.append(ts);
        push_event(&mut events, SearchEvent::new("debug", m.as_str(), None));
    }
    let ghost echo = events_view(events@);
    if find_str(ts, "Bootstrapped").is_some() {
        let pat = "Bootstrapped ";
        match find_str(ts, pat) {
            Some(i) => {
                proof {
                    lemma_find_bounds(ts@, pat@);
                }
                let n = ts.unicode_len();
                let after = ts.substring_char(i + pat.unicode_len(), n);
                assert(after@ =~= ts@.skip(i + pat@.len()));
                let piece = before_first(after, pat);
                let pct = before_first(piece.as_str(), "%");
                let progress = trim_whitespace(pct.as_str());
                let mut m = String::from_str("connecting:");
                m.append(progress.as_str());
                m.append("%");
                push_event(&mut events, SearchEvent::new("tor-status", m.as_str(), None));
            },
            None => {},
        }
    }
    assert(events_view(events@) =~= tor_line_events(line@, debug));
    let bootstrapped = find_str(ts, "Bootstrapped 100%").is_some() || find_str(ts, "Done").is_some();
    TorLineStep { events, bootstrapped }
}

/// The events sent once Tor has bootstrapped (`Some(true)`), exited first
/// (`Some(false)`), or not bootstrapped in time (`None`).
pub open spec fn tor_outcome_events(bootstrap: Option<bool>) -> Seq<EventView> {
    match bootstrap {
        Some(true) => seq![
            ev("info"@, "Tor connected. Searching anonymously..."@, None),
            ev("tor-status"@, "connected"@, None),
        ],
        _ => seq![ev("tor-status"@, "error"@, None)],
    }
}

/// The error returned when Tor did not bootstrap.
pub open spec fn tor_outcome_error(bootstrap: Option<bool>) -> Option<Seq<char>> {
    match bootstrap {
        Some(true) => None,
        Some(false) => Some("Tor process exited before bootstrapping"@),
        None => Some(
            "Tor failed to connect within "@ + decimal(TOR_STARTUP_TIMEOUT_SECS as nat)
                + " seconds"@,
        ),
    }
}

/// The outcome of starting Tor.
pub struct TorOutcome {
    pub events: Vec<SearchEvent>,
    pub result: Result<(), String>,
}

/// What is reported when Tor has bootstrapped (`Some(true)`), has exited
/// before that (`Some(false)`), or has timed out (`None`). On failure the
/// caller kills Tor and returns the error.
pub fn tor_startup_outcome(bootstrap: Option<bool>) -> (r: TorOutcome)
    ensures
        events_view(r.events@) == tor_outcome_events(bootstrap),
        match r.result {
            Ok(_) => tor_outcome_error(bootstrap) is None,
            Err(m) => tor_outcome_error(bootstrap) == Some(m@),
        },
{
    let mut events: Vec<SearchEvent> = Vec::new();
    let result = match bootstrap {
        Some(true) => {
            push_event(
                &mut events,
                SearchEvent::new("info", "Tor connected. Searching anonymously...", None),
            );
            push_event(&mut events, SearchEvent::new("tor-status", "connected", None));
            Ok(())
        },
        Some(false) => {
            push_event(&mut events, SearchEvent::new("tor-status", "error", None));
            Err(String::from_str("Tor process exited before bootstrapping"))
        },
        None => {
            push_event(&mut events, SearchEvent::new("tor-status", "error", None));
            let mut m = String::from_str("Tor failed to connect within ");
            let secs = decimal_string(TOR_STARTUP_TIMEOUT_SECS);
            m.append(secs.as_str());
            m.append(" seconds");
            Err(m)
        },
    };
    assert(events_view(events@) =~= tor_outcome_events(bootstrap));
    TorOutcome { events, result }
}

/// The events sent while Tor is stopped at the end of a search: the last
/// one after it has been killed.
pub open spec fn tor_stop_events(debug: bool) -> Seq<EventView> {
    (if debug {
        seq![ev("debug"@, "[DEBUG] Stopping Tor..."@, None)]
    } else {
        seq![]
    }) + seq![ev("tor-status"@, "stopped"@, None)]
}

/// Announces that Tor is stopped; the caller kills it before sending the
/// last event.
pub fn tor_stopping(debug: bool) -> (r: Vec<SearchEvent>)
    ensures
        events_view(r@) == tor_stop_events(debug),
{
    let mut events: Vec<SearchEvent> = Vec::new();
    if debug {
        push_event(&mut events, SearchEvent::new("debug", "[DEBUG] Stopping Tor...", None));
    }
    push_event(&mut events, SearchEvent::new("tor-status", "stopped", None));
    assert(events_view(events@) =~= tor_stop_events(debug));
    events
}

/// `p` occurs somewhere in `t`, written out.
pub open spec fn occurs_in(t: Seq<char>, p: Seq<char>) -> bool {
    exists|i: int| 0 <= i && i + p.len() <= t.len() && #[trigger] t.subrange(i, i + p.len()) == p
}

proof fn lemma_contains_iff_occurs(t: Seq<char>, p: Seq<char>)
    ensures
        contains(t, p) <==> occurs_in(t, p),
{
    lemma_find_bounds(t, p);
    if contains(t, p) {
        let k = find(t, p)->0;
        assert(occurs_at(t, p, k));
        assert(t.subrange(k, k + p.len()) == p);
    }
    if occurs_in(t, p) {
        let i = choose|i: int| 0 <= i && i + p.len() <= t.len() && #[trigger] t.subrange(
            i,
            i + p.len(),
        ) == p;
        assert(occurs_at(t, p, i));
    }
}

/// Tor is taken as ready exactly when the trimmed line holds
/// `Bootstrapped 100%` or `Done` (case as written): a bootstrap report
/// below 100% without `Done` does not make it ready.
pub proof fn lemma_bootstrapped_iff(line: Seq<char>)
    ensures
        tor_line_bootstrapped(line) <==> occurs_in(trim(line), "Bootstrapped 100%"@) || occurs_in(
            trim(line),
            "Done"@,
        ),
{
    lemma_contains_iff_occurs(trim(line), "Bootstrapped 100%"@);
    lemma_contains_iff_occurs(trim(line), "Done"@);
}

/// A progress status is reported exactly when the trimmed line holds
/// `Bootstrapped ` (with its space); it is then `connecting:` followed by
/// the percentage and `%`.
pub proof fn lemma_progress_reported_iff(line: Seq<char>, debug: bool)
    ensures
        bootstrap_progress(trim(line)) is Some <==> occurs_in(trim(line), "Bootstrapped "@),
        (tor_line_events(line, debug).len() > 0 && tor_line_events(line, debug).last().event_type
            == "tor-status"@) <==> occurs_in(trim(line), "Bootstrapped "@),
        occurs_in(trim(line), "Bootstrapped "@) ==> tor_line_events(line, debug).last()
            == ev("tor-status"@, "connecting:"@ + bootstrap_progress(trim(line))->0 + "%"@, None),
{
    let t = trim(line);
    reveal_strlit("Bootstrapped ");
    reveal_strlit("Bootstrapped");
    reveal_strlit("debug");
    reveal_strlit("tor-status");
    assert("debug"@.len() != "tor-status"@.len());
    lemma_contains_iff_occurs(t, "Bootstrapped "@);
    lemma_contains_iff_occurs(t, "Bootstrapped"@);
    if occurs_in(t, "Bootstrapped "@) {
        let i = choose|i: int| 0 <= i && i + "Bootstrapped "@.len() <= t.len() && #[trigger] t.subrange(
            i,
            i + "Bootstrapped "@.len(),
        ) == "Bootstrapped "@;
        assert(t.subrange(i, i + 12) =~= "Bootstrapped"@) by {
            assert forall|k: int| 0 <= k < 12 implies t.subrange(i, i + 12)[k] == "Bootstrapped"@[k] by {
                assert(t.subrange(i, i + 13)[k] == "Bootstrapped "@[k]);
            }
        }
        assert(occurs_in(t, "Bootstrapped"@));
    }
    let echo = if debug && t.len() > 0 {
        seq![ev("debug"@, "[TOR] "@ + t, None)]
    } else {
        seq![]
    };
    match bootstrap_progress(t) {
        Some(p) => {
            let st = seq![ev("tor-status"@, "connecting:"@ + p + "%"@, None)];
            assert(tor_line_events(line, debug) == echo + st);
            assert((echo + st).last() == st[0]);
        },
        None => {
            assert(tor_line_events(line, debug) =~= echo);
        },
    }
}

/// Starting Tor succeeds exactly when it bootstrapped; then the last event
/// says it is connected, and otherwise its status is an error.
pub proof fn lemma_tor_outcome(bootstrap: Option<bool>)
    ensures
        tor_outcome_error(bootstrap) is None <==> bootstrap == Some(true),
        tor_outcome_events(bootstrap).last() == ev(
            "tor-status"@,
            if bootstrap == Some(true) {
                "connected"@
            } else {
                "error"@
            },
            None,
        ),
{
}

/// The bootstrap percentage is read after the first `Bootstrapped ` of the
/// trimmed line, at position `i`: it is the text from there up to the first
/// `%`, `j` characters on, trimmed, provided no other `Bootstrapped ` starts
/// before that `%`.
pub proof fn lemma_bootstrap_percentage(line: Seq<char>, i: int, j: int)
    requires
        0 <= i,
        0 <= j,
        i + 13 + j < trim(line).len(),
        trim(line).subrange(i, i + 13) == "Bootstrapped "@,
        forall|m: int| 0 <= m < i ==> #[trigger] trim(line).subrange(m, m + 13) != "Bootstrapped "@,
        trim(line)[i + 13 + j] == '%',
        forall|m: int| i + 13 <= m < i + 13 + j ==> #[trigger] trim(line)[m] != '%',
        forall|m: int|
            i + 13 <= m < i + 13 + j && m + 13 <= trim(line).len() ==> #[trigger] trim(
                line,
            ).subrange(m, m + 13) != "Bootstrapped "@,
    ensures
        bootstrap_progress(trim(line)) == Some(trim(trim(line).subrange(i + 13, i + 13 + j))),
{
    let t = trim(line);
    let b = "Bootstrapped "@;
    reveal_strlit("Bootstrapped ");
    reveal_strlit("Bootstrapped");
    reveal_strlit("%");
    assert(b.len() == 13);
    lemma_contains_iff_occurs(t, "Bootstrapped"@);
    assert(t.subrange(i, i + 12) =~= "Bootstrapped"@) by {
        assert forall|k: int| 0 <= k < 12 implies t.subrange(i, i + 12)[k] == "Bootstrapped"@[k] by {
            assert(t.subrange(i, i + 13)[k] == b[k]);
        }
    }
    assert(contains(t, "Bootstrapped"@));
    lemma_find_bounds(t, b);
    assert(occurs_at(t, b, i));
    let f = find(t, b)->0;
    assert(f == i) by {
        if f < i {
            assert(t.subrange(f, f + 13) == b);
        }
    }
    let after = t.skip(i + 13);
    lemma_find_bounds(after, b);
    let piece = match find(after, b) {
        Some(q) => after.take(q),
        None => after,
    };
    if find(after, b) is Some {
        let q = find(after, b)->0;
        assert(q > j) by {
            assert(after.subrange(q, q + 13) == b);
            if q < j {
                assert(after.subrange(q, q + 13) =~= t.subrange(i + 13 + q, i + 13 + q + 13));
            } else if q == j {
                assert(after.subrange(q, q + 13)[0] == after[j]);
                assert(b[0] == 'B');
            }
        }
    }
    assert(j < piece.len());
    assert(piece[j] == '%');
    lemma_find_bounds(piece, "%"@);
    assert(piece.subrange(j, j + 1) =~= "%"@);
    assert(occurs_at(piece, "%"@, j));
    let g = find(piece, "%"@)->0;
    assert(g == j) by {
        if g < j {
            assert(piece.subrange(g, g + 1)[0] == piece[g]);
            assert(piece[g] == t[i + 13 + g]);
        }
    }
    assert(piece.take(j) =~= t.subrange(i + 13, i + 13 + j));
}

/// Tor's command line sets four options, each a name followed by its value:
/// the SOCKS port 9050, the data directory, and the IPv4 and the IPv6 GeoIP
/// files, each where it was given.
pub proof fn lemma_tor_options(data_dir: Seq<char>, geoip: Seq<char>, geoip6: Seq<char>)
    ensures
        tor_args(data_dir, geoip, geoip6) == seq![
            "--SocksPort"@,
            seq!['9', '0', '5', '0'],
            "--DataDirectory"@,
            data_dir,
            "--GeoIPFile"@,
            geoip,
            "--GeoIPv6File"@,
            geoip6,
        ],
{
    assert(decimal(9050) == decimal(905).push('0'));
    assert(decimal(905) == decimal(90).push('5'));
    assert(decimal(90) == decimal(9).push('0'));
    assert(decimal(9050) =~= seq!['9', '0', '5', '0']);
}

} // verus!
