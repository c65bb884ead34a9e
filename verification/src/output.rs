//! What is done with each line Sherlock prints on its standard output:
//! accounts found (`[+] Site: url`), sites without the account
//! (`[-] Site: reason`), and anything else, which is passed on as information.

use vstd::prelude::*;
use crate::models::{
    events_view, ev, push_event, EventView, ResultView, SearchEvent, SherlockResult,
};
use crate::text::{
    occurs_at, decimal, decimal_string, find, find_str, is_byte_boundary, lemma_slice_after_char,
    lemma_trim_first, lemma_trim_of_unpadded_start, matches_at, skip_bytes, starts_with, trim,
    trim_whitespace, utf8_len,
};

verus! {

/// How a line of Sherlock's output is read.
pub enum StdoutLine {
    /// Nothing but white space.
    Blank,
    /// `[+] site: url`, an account found.
    Found { site: Seq<char>, url: Seq<char> },
    /// `[+]` with no colon after it: nothing can be taken from it.
    FoundWithoutColon,
    /// `[-] site` or `[-] site: reason`, a site without the account.
    NotFound { site: Seq<char> },
    /// Any other line.
    Other,
}

/// How `line` is read. The URL of a found account starts one byte after the
/// end of the trimmed site name in the text after the marker (`&rest[site.len() + 1..]`).
pub open spec fn stdout_line(line: Seq<char>) -> StdoutLine {
    let t = trim(line);
    if t.len() == 0 {
        StdoutLine::Blank
    } else if starts_with(t, "[+]"@) {
        let rest = trim(t.skip(3));
        match find(rest, ":"@) {
            Some(k) => {
                let site = trim(rest.take(k));
                StdoutLine::Found { site, url: trim(skip_bytes(rest, utf8_len(site) + 1int)) }
            },
            None => StdoutLine::FoundWithoutColon,
        }
    } else if starts_with(t, "[-]"@) {
        let rest = trim(t.skip(3));
        StdoutLine::NotFound {
            site: match find(rest, ":"@) {
                Some(k) => trim(rest.take(k)),
                None => rest,
            },
        }
    } else {
        StdoutLine::Other
    }
}

/// Reading `line` slices its text on a character boundary. It does not when
/// white space outside ASCII ends the site name of a found account: the byte
/// offset of its URL then falls inside that character, where slicing panics.
pub open spec fn stdout_line_sliceable(line: Seq<char>) -> bool {
    let t = trim(line);
    let rest = trim(t.skip(3));
    (t.len() > 0 && starts_with(t, "[+]"@)) ==> match find(rest, ":"@) {
        Some(k) => is_byte_boundary(rest, utf8_len(trim(rest.take(k))) + 1int),
        None => true,
    }
}

/// The progress report after `found` accounts found among `checked` sites.
pub open spec fn progress_message(found: nat, checked: nat) -> Seq<char> {
    decimal(found) + " found / "@ + decimal(checked) + " checked"@
}

/// Accounts found on `line`: one for a found line, else none.
pub open spec fn found_delta(line: Seq<char>) -> nat {
    if stdout_line(line) is Found {
        1
    } else {
        0
    }
}

/// Sites checked on `line`: one for a found or not-found line, else none.
pub open spec fn checked_delta(line: Seq<char>) -> nat {
    if stdout_line(line) is Found || stdout_line(line) is NotFound {
        1
    } else {
        0
    }
}

/// The events for `line` while the search runs, after `found` accounts
/// found among `checked` sites.
pub open spec fn stdout_line_events(
    found: nat,
    checked: nat,
    line: Seq<char>,
    debug: bool,
    print_all: bool,
) -> Seq<EventView> {
    let t = trim(line);
    let kind = stdout_line(line);
    if kind is Blank {
        seq![]
    } else {
        let echo = if debug {
            seq![ev("debug"@, "[STDOUT] "@ + t, None)]
        } else {
            seq![]
        };
        echo + match kind {
            StdoutLine::Found { site, url } => seq![
                ev("result"@, t, Some(ResultView { site, url, found: true })),
                ev("progress"@, progress_message(found + 1, checked + 1), None),
            ],
            StdoutLine::NotFound { site } => (if print_all {
                seq![ev("result"@, t, Some(ResultView { site, url: Seq::empty(), found: false }))]
            } else {
                seq![]
            }) + seq![ev("progress"@, progress_message(found, checked + 1), None)],
            StdoutLine::Other => seq![ev("info"@, t, None)],
            _ => seq![],
        }
    }
}

/// The counts kept while Sherlock's output is read.
struct Counts {
    found: u32,
    checked: u32,
}

/// What to do after one line: the events to send, and whether the search
/// was cancelled (the caller then kills Sherlock and stops reading).
pub struct ScanStep {
    pub events: Vec<SearchEvent>,
    pub cancelled: bool,
}

/// Writes the progress report.
pub fn progress_string(found: u32, checked: u32) -> (r: String)
    ensures
        r@ == progress_message(found as nat, checked as nat),
{
    let mut m = decimal_string(found as u64);
    m.append(" found / ");
    let c = decimal_string(checked as u64);
    m.append(c.as_str());
    m.append(" checked");
    m
}

/// The trimmed text after the three-character marker that starts `t`.
fn marker_rest(t: &str) -> (r: String)
    requires
        t@.len() >= 3,
    ensures
        r@ == trim(t@.skip(3)),
{
    let n = t.unicode_len();
    let s = t.substring_char(3, n);
    assert(s@ =~= t@.skip(3));
    trim_whitespace(s)
}

/// The trimmed site name before position `k` in `rest`, itself trimmed.
fn site_before(rest: &str, k: usize) -> (r: String)
    requires
        k <= rest@.len(),
    ensures
        r@ == trim(rest@.take(k as int)),
{
    let s = rest.substring_char(0, k);
    assert(s@ =~= rest@.take(k as int));
    trim_whitespace(s)
}

/// In a trimmed text, the trimmed part before position `k` is a prefix
/// that ends before `k`.
proof fn lemma_site_is_prefix(x: Seq<char>, k: int)
    requires
        0 <= k < trim(x).len(),
    ensures
        trim(trim(x).take(k)) == trim(x).take(trim(trim(x).take(k)).len() as int),
        trim(trim(x).take(k)).len() <= k,
{
    let rest = trim(x);
    lemma_trim_first(x);
    let pre = rest.take(k);
    if k > 0 {
        assert(pre[0] == rest[0]);
    }
    lemma_trim_of_unpadded_start(pre);
    let m = trim(pre).len() as int;
    assert(pre.take(m) =~= rest.take(m));
}

/// Where the colon is in the text after a `[+]` marker, and what follows
/// from it.
proof fn lemma_colon(rest: Seq<char>, k: int)
    requires
        find(rest, ":"@) == Some(k),
    ensures
        0 <= k < rest.len(),
{
    reveal_strlit(":");
    crate::text::lemma_find_bounds(rest, ":"@);
}

/// Whether reading `line` slices on character boundaries (see
/// `stdout_line_sliceable`): a caller that gets `false` must not hand the
/// line to `scan_stdout_line`.
pub fn stdout_line_is_sliceable(line: &str) -> (r: bool)
    ensures
        r == stdout_line_sliceable(line@),
{
    let t = trim_whitespace(line);
    let ts = t.as_str();
    if ts.is_empty() || !matches_at(ts, "[+]", 0) {
        return true;
    }
    proof {
        reveal_strlit("[+]");
    }
    let rest = marker_rest(ts);
    let rs = rest.as_str();
    match find_str(rs, ":") {
        None => true,
        Some(k) => {
            proof {
                lemma_colon(rs@, k as int);
            }
            let site = site_before(rs, k);
            let m = site.as_str().unicode_len();
            proof {
                lemma_site_is_prefix(ts@.skip(3), k as int);
                lemma_slice_after_char(rs@, m as int);
            }
            (rs.get_char(m) as u32) <= 0x7f
        },
    }
}

/// Takes one line of Sherlock's output while the search runs: the counts
/// grow by what the line reports and the events of `stdout_line_events` are
/// returned.
fn scan_running_line(state: &mut Counts, line: &str, debug: bool, print_all: bool) -> (events:
    Vec<SearchEvent>)
    requires
        stdout_line_sliceable(line@),
        found_delta(line@) == 1 ==> old(state).found < u32::MAX,
        checked_delta(line@) == 1 ==> old(state).checked < u32::MAX,
    ensures
        final(state).found == old(state).found + found_delta(line@),
        final(state).checked == old(state).checked + checked_delta(line@),
        events_view(events@) == stdout_line_events(
            old(state).found as nat,
            old(state).checked as nat,
            line@,
            debug,
            print_all,
        ),
{
    let mut events: Vec<SearchEvent> = Vec::new();
    let ghost f0 = state.found as nat;
    let ghost c0 = state.checked as nat;
    let t = trim_whitespace(line);
    let ts = t.as_str();
    if ts.is_empty() {
        assert(events_view(events@) =~= seq![]);
        return events;
    }
    if debug {
        let mut m = String::from_str("[STDOUT] ");
        m.append(ts);
        push_event(&mut events, SearchEvent::new("debug", m.as_str(), None));
    }
    let ghost echo = events_view(events@);
    assert(echo =~= (if debug {
        seq![ev("debug"@, "[STDOUT] "@ + ts@, None)]
    } else {
        seq![]
    }));
    proof {
        reveal_strlit("[+]");
        reveal_strlit("[-]");
    }
    if matches_at(ts, "[+]", 0) {
        let rest = marker_rest(ts);
        let rs = rest.as_str();
        match find_str(rs, ":") {
            Some(k) => {
                proof {
                    lemma_colon(rs@, k as int);
                }
                let site = site_before(rs, k);
                let m = site.as_str().unicode_len();
                proof {
                    lemma_site_is_prefix(ts@.skip(3), k as int);
                    lemma_slice_after_char(rs@, m as int);
                }
                let n = rs.unicode_len();
                let tail = rs.substring_char(m + 1, n);
                assert(tail@ =~= rs@.skip(m + 1));
                let url = trim_whitespace(tail);
                assert(stdout_line(line@) is Found);
                state.found = state.found + 1;
                state.checked = state.checked + 1;
                let ghost r = ResultView { site: site@, url: url@, found: true };
                push_event(
                    &mut events,
                    SearchEvent::new("result", ts, Some(SherlockResult { site, url, found: true })),
                );
                let p = progress_string(state.found, state.checked);
                push_event(&mut events, SearchEvent::new("progress", p.as_str(), None));
                assert(events_view(events@) =~= echo + seq![
                    ev("result"@, ts@, Some(r)),
                    ev("progress"@, progress_message(f0 + 1, c0 + 1), None),
                ]);
            },
            None => {},
        }
    } else if matches_at(ts, "[-]", 0) {
        let rest = marker_rest(ts);
        let rs = rest.as_str();
        let site = match find_str(rs, ":") {
            Some(k) => {
                proof {
                    lemma_colon(rs@, k as int);
                }
                site_before(rs, k)
            },
            None => rest.clone(),
        };
        assert(stdout_line(line@) is NotFound);
        state.checked = state.checked + 1;
        let ghost r = ResultView { site: site@, url: Seq::empty(), found: false };
        if print_all {
            push_event(
                &mut events,
                SearchEvent::new(
                    "result",
                    ts,
                    Some(SherlockResult { site, url: String::new(), found: false }),
                ),
            );
        }
        let ghost mid = events_view(events@);
        assert(mid =~= echo + (if print_all {
            seq![ev("result"@, ts@, Some(r))]
        } else {
            seq![]
        }));
        let p = progress_string(state.found, state.checked);
        push_event(&mut events, SearchEvent::new("progress", p.as_str(), None));
        assert(events_view(events@) =~= mid + seq![
            ev("progress"@, progress_message(f0, c0 + 1), None),
        ]);
    } else {
        push_event(&mut events, SearchEvent::new("info", ts, None));
    }
    events
}

/// The counts after reading `lines` from the start of a search, all while
/// it runs: `(found, checked)`.
pub open spec fn run_counts(lines: Seq<Seq<char>>) -> (nat, nat)
    decreases lines.len(),
{
    if lines.len() == 0 {
        (0, 0)
    } else {
        let p = run_counts(lines.drop_last());
        (p.0 + found_delta(lines.last()), p.1 + checked_delta(lines.last()))
    }
}

/// The counts each progress report gives over a run of `lines`, in order:
/// one report after each found or not-found line.
pub open spec fn progress_trace(lines: Seq<Seq<char>>) -> Seq<(nat, nat)>
    decreases lines.len(),
{
    if lines.len() == 0 {
        seq![]
    } else if checked_delta(lines.last()) == 1 {
        progress_trace(lines.drop_last()).push(run_counts(lines))
    } else {
        progress_trace(lines.drop_last())
    }
}

/// The messages of the progress events among `evs`, in order.
pub open spec fn progress_reports(evs: Seq<EventView>) -> Seq<Seq<char>>
    decreases evs.len(),
{
    if evs.len() == 0 {
        seq![]
    } else if evs.last().event_type == "progress"@ {
        progress_reports(evs.drop_last()).push(evs.last().message)
    } else {
        progress_reports(evs.drop_last())
    }
}

/// The messages that report the counts of `trace`.
pub open spec fn trace_messages(trace: Seq<(nat, nat)>) -> Seq<Seq<char>> {
    trace.map_values(|p: (nat, nat)| progress_message(p.0, p.1))
}

/// The state of reading Sherlock's output: the counts, and (as ghost
/// records) the lines taken while the search ran and every event sent.
pub struct ScanState {
    pub found: u32,
    pub checked: u32,
    pub lines: Ghost<Seq<Seq<char>>>,
    pub sent: Ghost<Seq<EventView>>,
}

impl ScanState {
    /// The counts are those of the lines taken, and the progress reports
    /// sent are those of the run.
    pub open spec fn wf(&self) -> bool {
        &&& (self.found as nat, self.checked as nat) == run_counts(self.lines@)
        &&& progress_reports(self.sent@) == trace_messages(progress_trace(self.lines@))
    }

    /// The state before the first line: nothing counted, nothing sent.
    pub fn new() -> (s: ScanState)
        ensures
            s.wf(),
            s.found == 0,
            s.checked == 0,
            s.lines@ == Seq::<Seq<char>>::empty(),
            s.sent@ == Seq::<EventView>::empty(),
    {
        let s = ScanState {
            found: 0,
            checked: 0,
            lines: Ghost(Seq::empty()),
            sent: Ghost(Seq::empty()),
        };
        assert(trace_messages(progress_trace(s.lines@)) =~= Seq::<Seq<char>>::empty());
        s
    }
}

proof fn lemma_reports_concat(a: Seq<EventView>, b: Seq<EventView>)
    ensures
        progress_reports(a + b) == progress_reports(a) + progress_reports(b),
    decreases b.len(),
{
    if b.len() == 0 {
        assert(a + b =~= a);
        assert(progress_reports(a) + progress_reports(b) =~= progress_reports(a));
    } else {
        assert((a + b).drop_last() =~= a + b.drop_last());
        assert((a + b).last() == b.last());
        lemma_reports_concat(a, b.drop_last());
        if b.last().event_type == "progress"@ {
            assert(progress_reports(a) + progress_reports(b) =~= (progress_reports(a)
                + progress_reports(b.drop_last())).push(b.last().message));
        }
    }
}

proof fn lemma_event_types_differ()
    ensures
        "debug"@ != "progress"@,
        "result"@ != "progress"@,
        "info"@ != "progress"@,
        "complete"@ != "progress"@,
{
    reveal_strlit("progress");
    reveal_strlit("debug");
    reveal_strlit("result");
    reveal_strlit("info");
    reveal_strlit("complete");
    assert("debug"@.len() != "progress"@.len());
    assert("result"@.len() != "progress"@.len());
    assert("info"@.len() != "progress"@.len());
    assert("complete"@[0] != "progress"@[0]);
}

proof fn lemma_reports_of_one(e: EventView)
    ensures
        progress_reports(seq![e]) == (if e.event_type == "progress"@ {
            seq![e.message]
        } else {
            seq![]
        }),
{
    reveal_with_fuel(progress_reports, 2);
    assert(seq![e].drop_last() =~= Seq::<EventView>::empty());
    assert(seq![e].last() == e);
    assert(Seq::<Seq<char>>::empty().push(e.message) =~= seq![e.message]);
}

/// The progress reports among the events for one line.
proof fn lemma_line_reports(found: nat, checked: nat, line: Seq<char>, debug: bool, print_all: bool)
    ensures
        progress_reports(stdout_line_events(found, checked, line, debug, print_all)) == (if checked_delta(
            line,
        ) == 1 {
            seq![progress_message(found + found_delta(line), checked + 1)]
        } else {
            seq![]
        }),
{
    lemma_event_types_differ();
    let evs = stdout_line_events(found, checked, line, debug, print_all);
    let t = trim(line);
    let echo = if debug {
        seq![ev("debug"@, "[STDOUT] "@ + t, None)]
    } else {
        seq![]
    };
    let debug_ev = ev("debug"@, "[STDOUT] "@ + t, None);
    lemma_reports_of_one(debug_ev);
    assert(progress_reports(Seq::<EventView>::empty()) =~= Seq::<Seq<char>>::empty());
    assert(progress_reports(echo) =~= Seq::<Seq<char>>::empty());
    match stdout_line(line) {
        StdoutLine::Found { site, url } => {
            let e1 = ev("result"@, t, Some(ResultView { site, url, found: true }));
            let e2 = ev("progress"@, progress_message(found + 1, checked + 1), None);
            assert(seq![e1, e2] =~= seq![e1] + seq![e2]);
            lemma_reports_of_one(e1);
            lemma_reports_of_one(e2);
            lemma_reports_concat(seq![e1], seq![e2]);
            lemma_reports_concat(echo, seq![e1, e2]);
            assert(evs == echo + seq![e1, e2]);
            assert(progress_reports(evs) =~= seq![progress_message(found + 1, checked + 1)]);
        },
        StdoutLine::NotFound { site } => {
            let e1 = ev("result"@, t, Some(ResultView { site, url: Seq::empty(), found: false }));
            let e2 = ev("progress"@, progress_message(found, checked + 1), None);
            let shown = if print_all {
                seq![e1]
            } else {
                seq![]
            };
            lemma_reports_of_one(e1);
            lemma_reports_of_one(e2);
            assert(progress_reports(shown) =~= Seq::<Seq<char>>::empty());
            lemma_reports_concat(shown, seq![e2]);
            lemma_reports_concat(echo, shown + seq![e2]);
            assert(evs == echo + (shown + seq![e2]));
            assert(progress_reports(evs) =~= seq![progress_message(found, checked + 1)]);
        },
        StdoutLine::Other => {
            let e1 = ev("info"@, t, None);
            lemma_reports_of_one(e1);
            lemma_reports_concat(echo, seq![e1]);
            assert(evs == echo + seq![e1]);
            assert(progress_reports(evs) =~= Seq::<Seq<char>>::empty());
        },
        StdoutLine::FoundWithoutColon => {
            assert(evs =~= echo + Seq::<EventView>::empty());
            lemma_reports_concat(echo, Seq::<EventView>::empty());
        },
        StdoutLine::Blank => {},
    }
}

/// Takes one line of Sherlock's output. When the search is no longer
/// running, it is cancelled: the counts and the lines taken stay, and a
/// completion event says so. Otherwise the line is taken: the counts grow by
/// what it reports and the events of `stdout_line_events` are returned.
/// Either way the events are added to those sent.
pub fn scan_stdout_line(
    state: &mut ScanState,
    line: &str,
    running: bool,
    debug: bool,
    print_all: bool,
) -> (step: ScanStep)
    requires
        old(state).wf(),
        running ==> stdout_line_sliceable(line@),
        running && found_delta(line@) == 1 ==> old(state).found < u32::MAX,
        running && checked_delta(line@) == 1 ==> old(state).checked < u32::MAX,
    ensures
        final(state).wf(),
        step.cancelled == !running,
        final(state).sent@ == old(state).sent@ + events_view(step.events@),
        !running ==> final(state).found == old(state).found && final(state).checked == old(
            state,
        ).checked && final(state).lines@ == old(state).lines@,
        !running ==> events_view(step.events@) == seq![ev("complete"@, "Search cancelled"@, None)],
        running ==> final(state).lines@ == old(state).lines@.push(line@),
        running ==> final(state).found == old(state).found + found_delta(line@),
        running ==> final(state).checked == old(state).checked + checked_delta(line@),
        running ==> events_view(step.events@) == stdout_line_events(
            old(state).found as nat,
            old(state).checked as nat,
            line@,
            debug,
            print_all,
        ),
{
    let ghost sent0 = state.sent@;
    let ghost lines0 = state.lines@;
    if !running {
        let mut events: Vec<SearchEvent> = Vec::new();
        push_event(&mut events, SearchEvent::new("complete", "Search cancelled", None));
        let ghost e = ev("complete"@, "Search cancelled"@, None);
        assert(events_view(events@) =~= seq![e]);
        proof {
            lemma_event_types_differ();
            lemma_reports_of_one(e);
            lemma_reports_concat(sent0, seq![e]);
            assert(progress_reports(sent0 + seq![e]) =~= progress_reports(sent0));
        }
        state.sent = Ghost(sent0 + events_view(events@));
        return ScanStep { events, cancelled: true };
    }
    let mut counts = Counts { found: state.found, checked: state.checked };
    let events = scan_running_line(&mut counts, line, debug, print_all);
    proof {
        let f = state.found as nat;
        let c = state.checked as nat;
        let lines1 = lines0.push(line@);
        assert(lines1.drop_last() =~= lines0);
        assert(lines1.last() == line@);
        lemma_line_reports(f, c, line@, debug, print_all);
        lemma_reports_concat(sent0, events_view(events@));
        if checked_delta(line@) == 1 {
            assert(trace_messages(progress_trace(lines1)) =~= trace_messages(progress_trace(lines0)).push(
                progress_message(f + found_delta(line@), c + 1),
            ));
            assert(progress_reports(sent0 + events_view(events@)) =~= trace_messages(
                progress_trace(lines1),
            ));
        } else {
            assert(progress_reports(sent0 + events_view(events@)) =~= trace_messages(
                progress_trace(lines1),
            ));
        }
    }
    state.found = counts.found;
    state.checked = counts.checked;
    state.lines = Ghost(lines0.push(line@));
    state.sent = Ghost(sent0 + events_view(events@));
    ScanStep { events, cancelled: false }
}

/// Whether `line`, taken while the search runs, adds to the found count and
/// to the checked count: a caller must not hand it to `scan_stdout_line`
/// when a count it adds to is at `u32::MAX`.
pub fn stdout_line_counts(line: &str) -> (r: (bool, bool))
    ensures
        r.0 == (found_delta(line@) == 1),
        r.1 == (checked_delta(line@) == 1),
{
    let t = trim_whitespace(line);
    let ts = t.as_str();
    if ts.is_empty() {
        return (false, false);
    }
    proof {
        reveal_strlit("[+]");
        reveal_strlit("[-]");
    }
    if matches_at(ts, "[+]", 0) {
        let rest = marker_rest(ts);
        let found = find_str(rest.as_str(), ":").is_some();
        (found, found)
    } else if matches_at(ts, "[-]", 0) {
        (false, true)
    } else {
        (false, false)
    }
}

proof fn lemma_run(lines: Seq<Seq<char>>)
    ensures
        run_counts(lines).0 <= run_counts(lines).1,
        run_counts(lines).1 == progress_trace(lines).len(),
        forall|i: int|
            0 <= i < progress_trace(lines).len() ==> (#[trigger] progress_trace(lines)[i]).1 == i
                + 1 && progress_trace(lines)[i].0 <= progress_trace(lines)[i].1
                && progress_trace(lines)[i].0 <= run_counts(lines).0,
        forall|i: int, j: int|
            0 <= i <= j < progress_trace(lines).len() ==> (#[trigger] progress_trace(lines)[i]).0
                <= (#[trigger] progress_trace(lines)[j]).0,
        progress_trace(lines).len() > 0 ==> run_counts(lines) == progress_trace(lines).last(),
    decreases lines.len(),
{
    if lines.len() > 0 {
        lemma_run(lines.drop_last());
    }
}

/// Over a whole run, the i-th progress report (counting from 1) gives i
/// sites checked; the found count never falls and never exceeds the checked
/// count; and the counts at the end are those of the last report, or zero
/// when there was none.
pub proof fn lemma_progress_over_a_run(lines: Seq<Seq<char>>)
    ensures
        forall|i: int|
            0 <= i < progress_trace(lines).len() ==> (#[trigger] progress_trace(lines)[i]).1 == i
                + 1 && progress_trace(lines)[i].0 <= progress_trace(lines)[i].1,
        forall|i: int, j: int|
            0 <= i <= j < progress_trace(lines).len() ==> (#[trigger] progress_trace(lines)[i]).0
                <= (#[trigger] progress_trace(lines)[j]).0,
        run_counts(lines) == (if progress_trace(lines).len() == 0 {
            (0nat, 0nat)
        } else {
            progress_trace(lines).last()
        }),
{
    lemma_run(lines);
}

/// For a state reached by `scan_stdout_line`: the progress reports sent are
/// those of the run, one per report of `progress_trace`, and the counts held
/// are those of the last report, or zero when none was sent.
pub proof fn lemma_scan_state_reports(s: ScanState)
    requires
        s.wf(),
    ensures
        progress_reports(s.sent@).len() == progress_trace(s.lines@).len(),
        forall|i: int|
            0 <= i < progress_trace(s.lines@).len() ==> progress_reports(s.sent@)[i]
                == progress_message(
                (#[trigger] progress_trace(s.lines@)[i]).0,
                progress_trace(s.lines@)[i].1,
            ),
        (s.found as nat, s.checked as nat) == (if progress_trace(s.lines@).len() == 0 {
            (0nat, 0nat)
        } else {
            progress_trace(s.lines@).last()
        }),
{
    lemma_progress_over_a_run(s.lines@);
}

/// However the output reads, no more accounts are counted as found than
/// sites as checked.
pub proof fn lemma_found_within_checked(found: nat, checked: nat, line: Seq<char>)
    requires
        found <= checked,
    ensures
        found + found_delta(line) <= checked + checked_delta(line),
{
}

/// Without `print_all`, only found accounts are reported as results.
pub proof fn lemma_only_found_results_without_print_all(
    found: nat,
    checked: nat,
    line: Seq<char>,
    debug: bool,
)
    ensures
        forall|i: int|
            0 <= i < stdout_line_events(found, checked, line, debug, false).len() ==> ((
            #[trigger] stdout_line_events(found, checked, line, debug, false)[i]).result matches Some(
                r,
            ) ==> r.found),
{
}

/// Every progress report gives the counts after the line was taken.
pub proof fn lemma_progress_reports_new_counts(
    found: nat,
    checked: nat,
    line: Seq<char>,
    debug: bool,
    print_all: bool,
)
    ensures
        forall|i: int|
            0 <= i < stdout_line_events(found, checked, line, debug, print_all).len() && (
            #[trigger] stdout_line_events(found, checked, line, debug, print_all)[i]).event_type
                == "progress"@ ==> stdout_line_events(
                found,
                checked,
                line,
                debug,
                print_all,
            )[i].message == progress_message(
                found + found_delta(line),
                checked + checked_delta(line),
            ),
{
    reveal_strlit("progress");
    reveal_strlit("debug");
    reveal_strlit("result");
    reveal_strlit("info");
    assert("debug"@.len() != "progress"@.len());
    assert("result"@.len() != "progress"@.len());
    assert("info"@.len() != "progress"@.len());
    let evs = stdout_line_events(found, checked, line, debug, print_all);
    let t = trim(line);
    let echo = if debug {
        seq![ev("debug"@, "[STDOUT] "@ + t, None)]
    } else {
        seq![]
    };
    match stdout_line(line) {
        StdoutLine::Found { site, url } => {
            let tail = seq![
                ev("result"@, t, Some(ResultView { site, url, found: true })),
                ev("progress"@, progress_message(found + 1, checked + 1), None),
            ];
            assert(evs == echo + tail);
            assert forall|i: int| 0 <= i < evs.len() && (#[trigger] evs[i]).event_type == "progress"@
                implies evs[i].message == progress_message(
                found + found_delta(line),
                checked + checked_delta(line),
            ) by {
                if i < echo.len() {
                    assert(evs[i] == echo[i]);
                } else {
                    assert(evs[i] == tail[i - echo.len()]);
                }
            }
        },
        StdoutLine::NotFound { site } => {
            let shown = if print_all {
                seq![ev("result"@, t, Some(ResultView { site, url: Seq::empty(), found: false }))]
            } else {
                seq![]
            };
            let tail = shown + seq![ev("progress"@, progress_message(found, checked + 1), None)];
            assert(evs == echo + tail);
            assert forall|i: int| 0 <= i < evs.len() && (#[trigger] evs[i]).event_type == "progress"@
                implies evs[i].message == progress_message(
                found + found_delta(line),
                checked + checked_delta(line),
            ) by {
                if i < echo.len() {
                    assert(evs[i] == echo[i]);
                } else if i < echo.len() + shown.len() {
                    assert(evs[i] == shown[i - echo.len()]);
                } else {
                    assert(evs[i] == tail[i - echo.len()]);
                }
            }
        },
        StdoutLine::Other => {
            let tail = seq![ev("info"@, t, None)];
            assert(evs == echo + tail);
            assert forall|i: int| 0 <= i < evs.len() && (#[trigger] evs[i]).event_type == "progress"@
                implies evs[i].message == progress_message(
                found + found_delta(line),
                checked + checked_delta(line),
            ) by {
                if i < echo.len() {
                    assert(evs[i] == echo[i]);
                } else {
                    assert(evs[i] == tail[i - echo.len()]);
                }
            }
        },
        StdoutLine::FoundWithoutColon => {
            assert(evs =~= echo);
        },
        StdoutLine::Blank => {},
    }
}

/// How a line counts, written out on the trimmed line: it counts an account
/// found exactly when it starts with `[+]` and a colon follows in the rest;
/// it counts a site checked exactly when it counts an account found, or
/// starts with `[-]` (and not `[+]`).
pub proof fn lemma_stdout_line_counts(line: Seq<char>)
    ensures
        ({
            let t = trim(line);
            let rest = trim(t.skip(3));
            &&& found_delta(line) == 1 <==> ("[+]"@.is_prefix_of(t) && exists|k: int|
                0 <= k < rest.len() && #[trigger] rest[k] == ':')
            &&& checked_delta(line) == 1 <==> (found_delta(line) == 1 || ("[-]"@.is_prefix_of(t)
                && !"[+]"@.is_prefix_of(t)))
            &&& found_delta(line) <= 1 && checked_delta(line) <= 1
        }),
{
    reveal_strlit("[+]");
    reveal_strlit("[-]");
    reveal_strlit(":");
    let t = trim(line);
    let rest = trim(t.skip(3));
    crate::text::lemma_find_bounds(rest, ":"@);
    if exists|k: int| 0 <= k < rest.len() && #[trigger] rest[k] == ':' {
        let k = choose|k: int| 0 <= k < rest.len() && #[trigger] rest[k] == ':';
        assert(rest.subrange(k, k + 1) =~= ":"@);
        assert(occurs_at(rest, ":"@, k));
    }
    if find(rest, ":"@) is Some {
        let k = find(rest, ":"@)->0;
        assert(rest.subrange(k, k + 1)[0] == rest[k]);
    }
    if starts_with(t, "[+]"@) {
        assert("[+]"@.is_prefix_of(t));
    }
    if "[+]"@.is_prefix_of(t) {
        assert(starts_with(t, "[+]"@));
    }
    if starts_with(t, "[-]"@) {
        assert("[-]"@.is_prefix_of(t));
        assert(!"[+]"@.is_prefix_of(t)) by {
            assert(t[1] == "[-]"@[1]);
        }
    }
    if "[-]"@.is_prefix_of(t) {
        assert(starts_with(t, "[-]"@));
    }
}

/// How a line of Sherlock's output is reported, written out on its trimmed
/// text `t`, the trimmed text `rest` after its three-character marker, and
/// `k`, the position of the first colon in `rest` (its length when there is
/// none). A blank line gives nothing. Under `debug` every other line is first
/// echoed. A `[+]` line with a colon is a found result for the site
/// `rest[..k]` trimmed, whose URL is the text after the site's bytes and one
/// more, trimmed (the text after the colon, trimmed, when no white space
/// stands before the colon), then a progress report with one more found and
/// one more checked; a `[+]` line without a colon gives nothing more. A `[-]`
/// line is, under `print_all`, a not-found result for that site without a
/// URL, then a progress report with one more checked. Any other line is
/// passed on as information.
pub proof fn lemma_stdout_line_reports(
    found: nat,
    checked: nat,
    line: Seq<char>,
    debug: bool,
    print_all: bool,
    k: int,
)
    requires
        0 <= k <= trim(trim(line).skip(3)).len(),
        k < trim(trim(line).skip(3)).len() ==> trim(trim(line).skip(3))[k] == ':',
        forall|j: int| 0 <= j < k ==> trim(trim(line).skip(3))[j] != ':',
    ensures
        ({
            let t = trim(line);
            let rest = trim(t.skip(3));
            let site = trim(rest.take(k));
            let url = trim(skip_bytes(rest, utf8_len(site) + 1int));
            let echo = if debug {
                seq![ev("debug"@, "[STDOUT] "@ + t, None)]
            } else {
                seq![]
            };
            let evs = stdout_line_events(found, checked, line, debug, print_all);
            &&& t.len() == 0 ==> evs == Seq::<EventView>::empty()
            &&& (t.len() > 0 && "[+]"@.is_prefix_of(t) && k < rest.len()) ==> evs == echo + seq![
                ev("result"@, t, Some(ResultView { site, url, found: true })),
                ev(
                    "progress"@,
                    decimal(found + 1) + " found / "@ + decimal(checked + 1) + " checked"@,
                    None,
                ),
            ]
            &&& (t.len() > 0 && "[+]"@.is_prefix_of(t) && k < rest.len() && site == rest.take(k))
                ==> url == trim(rest.skip(k + 1))
            &&& (t.len() > 0 && "[+]"@.is_prefix_of(t) && k == rest.len()) ==> evs == echo
            &&& (t.len() > 0 && "[-]"@.is_prefix_of(t)) ==> evs == echo + (if print_all {
                seq![ev("result"@, t, Some(ResultView { site, url: Seq::empty(), found: false }))]
            } else {
                seq![]
            }) + seq![
                ev(
                    "progress"@,
                    decimal(found) + " found / "@ + decimal(checked + 1) + " checked"@,
                    None,
                ),
            ]
            &&& (t.len() > 0 && !"[+]"@.is_prefix_of(t) && !"[-]"@.is_prefix_of(t)) ==> evs
                == echo + seq![ev("info"@, t, None)]
        }),
{
    reveal_strlit("[+]");
    reveal_strlit("[-]");
    reveal_strlit(":");
    let t = trim(line);
    let rest = trim(t.skip(3));
    crate::text::lemma_find_bounds(rest, ":"@);
    crate::text::lemma_trim_exact(t.skip(3));
    if k < rest.len() {
        assert(rest.subrange(k, k + 1) =~= ":"@);
        assert(occurs_at(rest, ":"@, k));
        let f = find(rest, ":"@)->0;
        assert(rest.subrange(f, f + 1)[0] == rest[f]);
        assert(f == k);
    } else {
        if find(rest, ":"@) is Some {
            let f = find(rest, ":"@)->0;
            assert(rest.subrange(f, f + 1)[0] == rest[f]);
        }
        assert(rest.take(k) =~= rest);
    }
    if starts_with(t, "[+]"@) {
        assert("[+]"@.is_prefix_of(t));
    }
    if "[+]"@.is_prefix_of(t) {
        assert(starts_with(t, "[+]"@));
        if k < rest.len() {
            let site = trim(rest.take(k));
            if site == rest.take(k) {
                lemma_slice_after_char(rest, k);
                assert(rest.take(k).len() == k);
            }
        }
    }
    if starts_with(t, "[-]"@) {
        assert("[-]"@.is_prefix_of(t));
        assert(!"[+]"@.is_prefix_of(t)) by {
            assert(t[1] == "[-]"@[1]);
        }
    }
    if "[-]"@.is_prefix_of(t) {
        assert(starts_with(t, "[-]"@));
    }
}

} // verus!
