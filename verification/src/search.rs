//! A username search: checking the request, Sherlock's command line, and the
//! reports sent as it starts and ends.

use vstd::prelude::*;
use crate::models::{
    events_view, ev, push_event, push_string, strings_view, EventView, SearchEvent,
    SearchOptions, DEFAULT_TIMEOUT,
};
use crate::text::{decimal, decimal_string, is_blank, trim, trim_whitespace};
use crate::tor::TOR_SOCKS_PORT;
use crate::validation::{
    check_result, free_of_blanks, free_of_shell_specials, proxy_error, site_name_error,
    username_error, validate_proxy, validate_site_name, validate_username,
};

verus! {

/// How long a whole search may run, in seconds.
pub const GLOBAL_SEARCH_TIMEOUT_SECS: u64 = 600;

/// The proxy Sherlock is given when searching through Tor.
pub open spec fn tor_proxy_url() -> Seq<char> {
    "socks5://127.0.0.1:"@ + decimal(TOR_SOCKS_PORT as nat)
}

/// `--site name` for each site, in order.
pub open spec fn site_args(sites: Seq<Seq<char>>) -> Seq<Seq<char>>
    decreases sites.len(),
{
    if sites.len() == 0 {
        seq![]
    } else {
        site_args(sites.drop_last()) + seq!["--site"@, sites.last()]
    }
}

/// `flag` when `on`, else nothing.
pub open spec fn flag_arg(on: bool, flag: Seq<char>) -> Seq<Seq<char>> {
    if on {
        seq![flag]
    } else {
        seq![]
    }
}

/// `--timeout n` when a timeout other than Sherlock's default is asked for.
pub open spec fn timeout_args(timeout: u32) -> Seq<Seq<char>> {
    if timeout > 0 && timeout != DEFAULT_TIMEOUT {
        seq!["--timeout"@, decimal(timeout as nat)]
    } else {
        seq![]
    }
}

/// `--proxy url`: Tor's proxy when searching through Tor, else the user's
/// proxy when there is one.
pub open spec fn proxy_args(tor: bool, proxy: Seq<char>) -> Seq<Seq<char>> {
    if tor {
        seq!["--proxy"@, tor_proxy_url()]
    } else if proxy.len() > 0 {
        seq!["--proxy"@, proxy]
    } else {
        seq![]
    }
}

/// Sherlock's arguments for `users` and `o`.
pub open spec fn sherlock_args(users: Seq<Seq<char>>, o: SearchOptions) -> Seq<Seq<char>> {
    seq!["-m"@, "sherlock_project"@] + users + seq![
        if o.print_all {
            "--print-all"@
        } else {
            "--print-found"@
        },
    ] + timeout_args(o.timeout) + proxy_args(o.tor, o.proxy@) + site_args(strings_view(o.sites@))
        + flag_arg(o.nsfw, "--nsfw"@) + flag_arg(o.browse, "--browse"@) + flag_arg(
        o.debug,
        "--verbose"@,
    ) + seq!["--no-color"@]
}

fn push_strings(args: &mut Vec<String>, items: &[String])
    ensures
        strings_view(final(args)@) == strings_view(old(args)@) + strings_view(items@),
{
    let ghost head = strings_view(args@);
    let n = items.len();
    for i in 0..n
        invariant
            n == items@.len(),
            strings_view(args@) == head + strings_view(items@).take(i as int),
    {
        push_string(args, items[i].as_str());
        assert(strings_view(items@).take(i + 1) =~= strings_view(items@).take(i as int).push(
            items@[i as int]@,
        ));
        assert(strings_view(args@) =~= head + strings_view(items@).take(i + 1));
    }
    assert(strings_view(items@).take(n as int) =~= strings_view(items@));
}

fn push_timeout_args(args: &mut Vec<String>, timeout: u32)
    ensures
        strings_view(final(args)@) == strings_view(old(args)@) + timeout_args(timeout),
{
    let ghost head = strings_view(args@);
    if timeout > 0 && timeout != DEFAULT_TIMEOUT {
        push_string(args, "--timeout");
        let t = decimal_string(timeout as u64);
        push_string(args, t.as_str());
    }
    assert(strings_view(args@) =~= head + timeout_args(timeout));
}

fn push_proxy_args(args: &mut Vec<String>, tor: bool, proxy: &str)
    ensures
        strings_view(final(args)@) == strings_view(old(args)@) + proxy_args(tor, proxy@),
{
    let ghost head = strings_view(args@);
    if tor {
        push_string(args, "--proxy");
        let mut url = String::from_str("socks5://127.0.0.1:");
        let port = decimal_string(TOR_SOCKS_PORT as u64);
        url.append(port.as_str());
        push_string(args, url.as_str());
    } else if !proxy.is_empty() {
        push_string(args, "--proxy");
        push_string(args, proxy);
    }
    assert(strings_view(args@) =~= head + proxy_args(tor, proxy@));
}

fn push_site_args(args: &mut Vec<String>, sites: &[String])
    ensures
        strings_view(final(args)@) == strings_view(old(args)@) + site_args(strings_view(sites@)),
{
    let ghost head = strings_view(args@);
    let ghost v = strings_view(sites@);
    let m = sites.len();
    assert(v.take(0) =~= Seq::<Seq<char>>::empty());
    assert(head + site_args(v.take(0)) =~= head);
    for j in 0..m
        invariant
            m == sites@.len(),
            v == strings_view(sites@),
            strings_view(args@) == head + site_args(v.take(j as int)),
    {
        push_string(args, "--site");
        push_string(args, sites[j].as_str());
        assert(v.take(j + 1).drop_last() =~= v.take(j as int));
        assert(strings_view(args@) =~= head + site_args(v.take(j + 1)));
    }
    assert(v.take(m as int) =~= v);
}

fn push_flag(args: &mut Vec<String>, on: bool, flag: &str)
    ensures
        strings_view(final(args)@) == strings_view(old(args)@) + flag_arg(on, flag@),
{
    let ghost head = strings_view(args@);
    if on {
        push_string(args, flag);
    }
    assert(strings_view(args@) =~= head + flag_arg(on, flag@));
}

/// The arguments that run Sherlock (`python -m sherlock_project ...`) for
/// these usernames and options.
pub fn build_sherlock_args(usernames: &[String], options: &SearchOptions) -> (r: Vec<String>)
    ensures
        strings_view(r@) == sherlock_args(strings_view(usernames@), *options),
{
    let mut args: Vec<String> = Vec::new();
    push_string(&mut args, "-m");
    push_string(&mut args, "sherlock_project");
    assert(strings_view(args@) =~= seq!["-m"@, "sherlock_project"@]);
    push_strings(&mut args, usernames);
    if options.print_all {
        push_string(&mut args, "--print-all");
    } else {
        push_string(&mut args, "--print-found");
    }
    push_timeout_args(&mut args, options.timeout);
    push_proxy_args(&mut args, options.tor, options.proxy.as_str());
    push_site_args(&mut args, options.sites.as_slice());
    push_flag(&mut args, options.nsfw, "--nsfw");
    push_flag(&mut args, options.browse, "--browse");
    push_flag(&mut args, options.debug, "--verbose");
    push_string(&mut args, "--no-color");
    assert(strings_view(args@) =~= sherlock_args(strings_view(usernames@), *options));
    args
}

/// The first refusal `check` gives to an item of `items`, in order.
pub open spec fn first_error(
    items: Seq<Seq<char>>,
    check: spec_fn(Seq<char>) -> Option<Seq<char>>,
) -> Option<Seq<char>>
    decreases items.len(),
{
    if items.len() == 0 {
        None
    } else if check(items[0]) is Some {
        check(items[0])
    } else {
        first_error(items.drop_first(), check)
    }
}

/// Why a search for `users` with `proxy` and `sites` is refused, or `None`.
pub open spec fn search_request_error(
    running: bool,
    users: Seq<Seq<char>>,
    proxy: Seq<char>,
    sites: Seq<Seq<char>>,
) -> Option<Seq<char>> {
    if running {
        Some("A search is already in progress"@)
    } else if users.len() == 0 {
        Some("At least one username is required"@)
    } else if first_error(users, |u: Seq<char>| username_error(u)) is Some {
        first_error(users, |u: Seq<char>| username_error(u))
    } else if proxy_error(proxy) is Some {
        proxy_error(proxy)
    } else {
        first_error(sites, |s: Seq<char>| site_name_error(s))
    }
}

/// Every text of `items` is free of characters special to a shell.
pub open spec fn all_shell_free(items: Seq<Seq<char>>) -> bool {
    forall|i: int| 0 <= i < items.len() ==> free_of_shell_specials(#[trigger] items[i])
}

/// Every text of `items` is free of spaces and tabs.
pub open spec fn all_blank_free(items: Seq<Seq<char>>) -> bool {
    forall|i: int| 0 <= i < items.len() ==> free_of_blanks(#[trigger] items[i])
}

proof fn lemma_first_error_skip(
    items: Seq<Seq<char>>,
    check: spec_fn(Seq<char>) -> Option<Seq<char>>,
    i: int,
)
    requires
        0 <= i < items.len(),
        first_error(items, check) == first_error(items.skip(i), check),
        check(items[i]) is None,
    ensures
        first_error(items, check) == first_error(items.skip(i + 1), check),
{
    assert(items.skip(i)[0] == items[i]);
    assert(items.skip(i).drop_first() =~= items.skip(i + 1));
}

proof fn lemma_first_error_at(
    items: Seq<Seq<char>>,
    check: spec_fn(Seq<char>) -> Option<Seq<char>>,
    i: int,
)
    requires
        0 <= i < items.len(),
        first_error(items, check) == first_error(items.skip(i), check),
        check(items[i]) is Some,
    ensures
        first_error(items, check) == check(items[i]),
{
    assert(items.skip(i)[0] == items[i]);
}

/// Refuses a search while another runs, without usernames, or with a
/// username, proxy or site name that its own check refuses (the first such
/// refusal, usernames before the proxy before the sites); accepts it
/// otherwise. What is accepted holds no character special to a shell, and
/// no username or proxy holds a space or a tab.
pub fn validate_search_request(
    running: bool,
    usernames: &[String],
    options: &SearchOptions,
) -> (r: Result<(), String>)
    ensures
        check_result(
            r,
            search_request_error(
                running,
                strings_view(usernames@),
                options.proxy@,
                strings_view(options.sites@),
            ),
        ),
        r is Ok ==> all_shell_free(strings_view(usernames@)) && all_blank_free(
            strings_view(usernames@),
        ),
        r is Ok ==> free_of_shell_specials(options.proxy@) && free_of_blanks(options.proxy@),
        r is Ok ==> all_shell_free(strings_view(options.sites@)),
{
    if running {
        return Err(String::from_str("A search is already in progress"));
    }
    if usernames.len() == 0 {
        return Err(String::from_str("At least one username is required"));
    }
    let ghost users = strings_view(usernames@);
    let ghost ucheck = |u: Seq<char>| username_error(u);
    let n = usernames.len();
    assert(users.skip(0) =~= users);
    for i in 0..n
        invariant
            n == usernames@.len(),
            n > 0,
            !running,
            users == strings_view(usernames@),
            ucheck == (|u: Seq<char>| username_error(u)),
            first_error(users, ucheck) == first_error(users.skip(i as int), ucheck),
            forall|j: int|
                0 <= j < i ==> free_of_shell_specials(#[trigger] users[j]) && free_of_blanks(
                    users[j],
                ),
    {
        let v = validate_username(usernames[i].as_str());
        assert(users[i as int] == usernames@[i as int]@);
        match v {
            Err(m) => {
                proof {
                    lemma_first_error_at(users, ucheck, i as int);
                }
                return Err(m);
            },
            Ok(_) => {
                proof {
                    lemma_first_error_skip(users, ucheck, i as int);
                }
            },
        }
    }
    assert(users.skip(n as int) =~= Seq::<Seq<char>>::empty());
    validate_proxy(options.proxy.as_str())?;
    let ghost sites = strings_view(options.sites@);
    let ghost scheck = |s: Seq<char>| site_name_error(s);
    let m = options.sites.len();
    assert(sites.skip(0) =~= sites);
    for j in 0..m
        invariant
            m == options.sites@.len(),
            n == usernames@.len(),
            n > 0,
            !running,
            users == strings_view(usernames@),
            sites == strings_view(options.sites@),
            ucheck == (|u: Seq<char>| username_error(u)),
            scheck == (|s: Seq<char>| site_name_error(s)),
            first_error(users, ucheck) is None,
            proxy_error(options.proxy@) is None,
            free_of_shell_specials(options.proxy@) && free_of_blanks(options.proxy@),
            first_error(sites, scheck) == first_error(sites.skip(j as int), scheck),
            forall|k: int|
                0 <= k < n ==> free_of_shell_specials(#[trigger] users[k]) && free_of_blanks(
                    users[k],
                ),
            forall|k: int| 0 <= k < j ==> free_of_shell_specials(#[trigger] sites[k]),
    {
        let v = validate_site_name(options.sites[j].as_str());
        assert(sites[j as int] == options.sites@[j as int]@);
        match v {
            Err(e) => {
                proof {
                    lemma_first_error_at(sites, scheck, j as int);
                }
                return Err(e);
            },
            Ok(_) => {
                proof {
                    lemma_first_error_skip(sites, scheck, j as int);
                }
            },
        }
    }
    assert(sites.skip(m as int) =~= Seq::<Seq<char>>::empty());
    Ok(())
}

/// The texts of `items` with `sep` between each two (`join`).
pub open spec fn join(items: Seq<Seq<char>>, sep: Seq<char>) -> Seq<char>
    decreases items.len(),
{
    if items.len() == 0 {
        seq![]
    } else if items.len() == 1 {
        items[0]
    } else {
        join(items.drop_last(), sep) + sep + items.last()
    }
}

/// Joins `items` with `sep` between each two.
pub fn join_strings(items: &[String], sep: &str) -> (r: String)
    ensures
        r@ == join(strings_view(items@), sep@),
{
    let ghost v = strings_view(items@);
    let mut r = String::new();
    let n = items.len();
    for i in 0..n
        invariant
            n == items@.len(),
            v == strings_view(items@),
            r@ == join(v.take(i as int), sep@),
    {
        if i > 0 {
            r.append(sep);
        }
        r.append(items[i].as_str());
        assert(v.take(i + 1).drop_last() =~= v.take(i as int));
        assert(v[i as int] == items@[i as int]@);
        if i == 0 {
            assert(r@ =~= join(v.take(1), sep@));
        }
    }
    assert(v.take(n as int) =~= v);
    r
}

/// The events sent as Sherlock is launched: the usernames searched for and,
/// when debugging, the command line.
pub open spec fn search_started_events(
    users: Seq<Seq<char>>,
    python_path: Seq<char>,
    args: Seq<Seq<char>>,
    debug: bool,
) -> Seq<EventView> {
    seq![ev("info"@, "Searching for: "@ + join(users, ", "@), None)] + if debug {
        seq![ev("debug"@, "[DEBUG] Command: "@ + python_path + " "@ + join(args, " "@), None)]
    } else {
        seq![]
    }
}

/// Announces the search of `usernames` run by `python_path` with `args`.
pub fn search_started(usernames: &[String], python_path: &str, args: &[String], debug: bool) -> (r:
    Vec<SearchEvent>)
    ensures
        events_view(r@) == search_started_events(
            strings_view(usernames@),
            python_path@,
            strings_view(args@),
            debug,
        ),
{
    let mut events: Vec<SearchEvent> = Vec::new();
    let mut m = String::from_str("Searching for: ");
    let label = join_strings(usernames, ", ");
    m.append(label.as_str());
    push_event(&mut events, SearchEvent::new("info", m.as_str(), None));
    if debug {
        let mut d = String::from_str("[DEBUG] Command: ");
        d.append(python_path);
        d.append(" ");
        let line = join_strings(args, " ");
        d.append(line.as_str());
        push_event(&mut events, SearchEvent::new("debug", d.as_str(), None));
    }
    assert(events_view(events@) =~= search_started_events(
        strings_view(usernames@),
        python_path@,
        strings_view(args@),
        debug,
    ));
    events
}

/// The events sent when Tor failed to start with `error`; the search is
/// then abandoned.
pub open spec fn tor_failure_events(error: Seq<char>) -> Seq<EventView> {
    seq![
        ev("error"@, "Tor error: "@ + error, None),
        ev("complete"@, "Search aborted \u{2014} Tor failed to start"@, None),
    ]
}

/// Reports that Tor failed to start with `error`.
pub fn tor_failed(error: &str) -> (r: Vec<SearchEvent>)
    ensures
        events_view(r@) == tor_failure_events(error@),
{
    let mut events: Vec<SearchEvent> = Vec::new();
    let mut m = String::from_str("Tor error: ");
    m.append(error);
    push_event(&mut events, SearchEvent::new("error", m.as_str(), None));
    push_event(
        &mut events,
        SearchEvent::new("complete", "Search aborted \u{2014} Tor failed to start", None),
    );
    assert(events_view(events@) =~= tor_failure_events(error@));
    events
}

/// Takes one line of Sherlock's error output: a line that is not blank is
/// added, with a line break, to what was collected, and echoed when
/// debugging.
pub fn scan_stderr_line(collected: &mut String, line: &str, debug: bool) -> (r: Option<
    SearchEvent,
>)
    ensures
        is_blank(line@) ==> final(collected)@ == old(collected)@ && r is None,
        !is_blank(line@) ==> final(collected)@ == old(collected)@ + line@ + "\n"@,
        !is_blank(line@) && debug ==> (r matches Some(e) && e@ == ev(
            "debug"@,
            "[STDERR] "@ + trim(line@),
            None,
        )),
        !is_blank(line@) && !debug ==> r is None,
{
    let t = trim_whitespace(line);
    if t.as_str().is_empty() {
        return None;
    }
    collected.append(line);
    collected.append("\n");
    if debug {
        let mut m = String::from_str("[STDERR] ");
        m.append(t.as_str());
        Some(SearchEvent::new("debug", m.as_str(), None))
    } else {
        None
    }
}

/// How reading Sherlock's output ended: `Some((found, checked, cancelled))`
/// when it ran to its end or was cancelled, `None` when it timed out.
pub open spec fn search_finished_events(
    outcome: Option<(u32, u32, bool)>,
    stderr_output: Seq<char>,
) -> Seq<EventView> {
    match outcome {
        Some((found, checked, cancelled)) => (if stderr_output.len() > 0 {
            seq![
                ev(
                    if found == 0 {
                        "error"@
                    } else {
                        "info"@
                    },
                    "Sherlock stderr: "@ + trim(stderr_output),
                    None,
                ),
            ]
        } else {
            seq![]
        }) + if !cancelled {
            seq![
                ev(
                    "complete"@,
                    "Done. "@ + decimal(found as nat) + " found across "@ + decimal(
                        checked as nat,
                    ) + " sites checked."@,
                    None,
                ),
            ]
        } else {
            seq![]
        },
        None => seq![
            ev(
                "error"@,
                "Search timed out after "@ + decimal(GLOBAL_SEARCH_TIMEOUT_SECS as nat)
                    + " seconds."@,
                None,
            ),
            ev("complete"@, "Search timed out"@, None),
        ],
    }
}

/// What is done when a search ends: the events to send, and whether the
/// running search is then over (a cancelled search was already marked so).
pub struct SearchFinish {
    pub events: Vec<SearchEvent>,
    pub stop_running: bool,
}

/// Reports the end of a search from how reading Sherlock's output ended and
/// what it wrote on its error output.
pub fn search_finished(outcome: Option<(u32, u32, bool)>, stderr_output: &str) -> (r: SearchFinish)
    ensures
        events_view(r.events@) == search_finished_events(outcome, stderr_output@),
        r.stop_running == (match outcome {
            Some((_, _, cancelled)) => !cancelled,
            None => true,
        }),
{
    let mut events: Vec<SearchEvent> = Vec::new();
    match outcome {
        Some((found, checked, cancelled)) => {
            if !stderr_output.is_empty() {
                let mut m = String::from_str("Sherlock stderr: ");
                let t = trim_whitespace(stderr_output);
                m.append(t.as_str());
                let kind = if found == 0 {
                    "error"
                } else {
                    "info"
                };
                push_event(&mut events, SearchEvent::new(kind, m.as_str(), None));
            }
            let ghost first = events_view(events@);
            if !cancelled {
                let mut m = String::from_str("Done. ");
                let f = decimal_string(found as u64);
                m.append(f.as_str());
                m.append(" found across ");
                let c = decimal_string(checked as u64);
                m.append(c.as_str());
                m.append(" sites checked.");
                push_event(&mut events, SearchEvent::new("complete", m.as_str(), None));
            }
            assert(events_view(events@) =~= search_finished_events(outcome, stderr_output@));
            SearchFinish { events, stop_running: !cancelled }
        },
        None => {
            let mut m = String::from_str("Search timed out after ");
            let s = decimal_string(GLOBAL_SEARCH_TIMEOUT_SECS);
            m.append(s.as_str());
            m.append(" seconds.");
            push_event(&mut events, SearchEvent::new("error", m.as_str(), None));
            push_event(&mut events, SearchEvent::new("complete", "Search timed out", None));
            assert(events_view(events@) =~= search_finished_events(outcome, stderr_output@));
            SearchFinish { events, stop_running: true }
        },
    }
}

proof fn lemma_first_error_none(items: Seq<Seq<char>>, check: spec_fn(Seq<char>) -> Option<Seq<char>>)
    ensures
        first_error(items, check) is None <==> forall|i: int|
            0 <= i < items.len() ==> #[trigger] check(items[i]) is None,
    decreases items.len(),
{
    if items.len() > 0 {
        lemma_first_error_none(items.drop_first(), check);
        if check(items[0]) is None {
            assert forall|i: int| 0 <= i < items.len() && i > 0 implies #[trigger] check(items[i])
                is None <==> check(items.drop_first()[i - 1]) is None by {}
        }
    }
}

/// A search is accepted exactly when none is running, at least one username
/// is given, and each username, the proxy and each site name passes its own
/// check.
pub proof fn lemma_request_accepted_iff_parts_accepted(
    running: bool,
    users: Seq<Seq<char>>,
    proxy: Seq<char>,
    sites: Seq<Seq<char>>,
)
    ensures
        search_request_error(running, users, proxy, sites) is None <==> {
            &&& !running
            &&& users.len() > 0
            &&& forall|i: int| 0 <= i < users.len() ==> #[trigger] username_error(users[i]) is None
            &&& proxy_error(proxy) is None
            &&& forall|j: int| 0 <= j < sites.len() ==> #[trigger] site_name_error(sites[j]) is None
        },
{
    let uc = |u: Seq<char>| username_error(u);
    let sc = |s: Seq<char>| site_name_error(s);
    lemma_first_error_none(users, uc);
    lemma_first_error_none(sites, sc);
    assert(forall|i: int| 0 <= i < users.len() ==> uc(users[i]) == username_error(users[i]));
    assert(forall|j: int| 0 <= j < sites.len() ==> sc(sites[j]) == site_name_error(sites[j]));
}

proof fn lemma_all_shell_free_concat(a: Seq<Seq<char>>, b: Seq<Seq<char>>)
    requires
        all_shell_free(a),
        all_shell_free(b),
    ensures
        all_shell_free(a + b),
{
    assert forall|i: int| 0 <= i < (a + b).len() implies free_of_shell_specials(
        #[trigger] (a + b)[i],
    ) by {
        if i < a.len() {
            assert((a + b)[i] == a[i]);
        } else {
            assert((a + b)[i] == b[i - a.len()]);
        }
    }
}

proof fn lemma_decimal_shell_free(n: nat)
    ensures
        free_of_shell_specials(decimal(n)),
    decreases n,
{
    if n >= 10 {
        lemma_decimal_shell_free(n / 10);
        let d = decimal(n / 10);
        assert forall|i: int| 0 <= i < decimal(n).len() implies !crate::validation::shell_special(
            #[trigger] decimal(n)[i],
        ) by {
            if i < d.len() {
                assert(decimal(n)[i] == d[i]);
            }
        }
    }
}

proof fn lemma_literal_shell_free(s: Seq<char>)
    requires
        forall|i: int|
            0 <= i < s.len() ==> (('a' <= #[trigger] s[i] && s[i] <= 'z') || ('0' <= s[i] && s[i]
                <= '9') || s[i] == '-' || s[i] == '_' || s[i] == '.' || s[i] == '/' || s[i] == ':'),
    ensures
        free_of_shell_specials(s),
{
}

proof fn lemma_site_args_shell_free(sites: Seq<Seq<char>>)
    requires
        all_shell_free(sites),
        free_of_shell_specials("--site"@),
    ensures
        all_shell_free(site_args(sites)),
    decreases sites.len(),
{
    if sites.len() > 0 {
        let rest = sites.drop_last();
        assert forall|i: int| 0 <= i < rest.len() implies free_of_shell_specials(
            #[trigger] rest[i],
        ) by {
            assert(rest[i] == sites[i]);
        }
        lemma_site_args_shell_free(rest);
        assert(free_of_shell_specials(sites[sites.len() - 1]));
        lemma_all_shell_free_concat(site_args(rest), seq!["--site"@, sites.last()]);
    }
}

/// When the usernames, the proxy and the site names are free of characters
/// special to a shell (as an accepted search request's are), so is every
/// argument Sherlock is given.
pub proof fn lemma_sherlock_args_shell_free(users: Seq<Seq<char>>, o: SearchOptions)
    requires
        all_shell_free(users),
        free_of_shell_specials(o.proxy@),
        all_shell_free(strings_view(o.sites@)),
    ensures
        all_shell_free(sherlock_args(users, o)),
{
    reveal_strlit("-m");
    reveal_strlit("sherlock_project");
    reveal_strlit("--print-all");
    reveal_strlit("--print-found");
    reveal_strlit("--timeout");
    reveal_strlit("--proxy");
    reveal_strlit("socks5://127.0.0.1:");
    reveal_strlit("--site");
    reveal_strlit("--nsfw");
    reveal_strlit("--browse");
    reveal_strlit("--verbose");
    reveal_strlit("--no-color");
    lemma_literal_shell_free("-m"@);
    lemma_literal_shell_free("sherlock_project"@);
    lemma_literal_shell_free("--print-all"@);
    lemma_literal_shell_free("--print-found"@);
    lemma_literal_shell_free("--timeout"@);
    lemma_literal_shell_free("--proxy"@);
    lemma_literal_shell_free("socks5://127.0.0.1:"@);
    lemma_literal_shell_free("--site"@);
    lemma_literal_shell_free("--nsfw"@);
    lemma_literal_shell_free("--browse"@);
    lemma_literal_shell_free("--verbose"@);
    lemma_literal_shell_free("--no-color"@);
    lemma_decimal_shell_free(o.timeout as nat);
    lemma_decimal_shell_free(TOR_SOCKS_PORT as nat);
    let url = tor_proxy_url();
    let pre = "socks5://127.0.0.1:"@;
    let port = decimal(TOR_SOCKS_PORT as nat);
    assert forall|i: int| 0 <= i < url.len() implies !crate::validation::shell_special(
        #[trigger] url[i],
    ) by {
        if i < pre.len() {
            assert(url[i] == pre[i]);
        } else {
            assert(url[i] == port[i - pre.len()]);
        }
    }
    let head = seq!["-m"@, "sherlock_project"@];
    let mode = seq![
        if o.print_all {
            "--print-all"@
        } else {
            "--print-found"@
        },
    ];
    assert(all_shell_free(head));
    assert(all_shell_free(mode));
    assert(all_shell_free(timeout_args(o.timeout)));
    assert(all_shell_free(proxy_args(o.tor, o.proxy@)));
    lemma_site_args_shell_free(strings_view(o.sites@));
    assert(all_shell_free(flag_arg(o.nsfw, "--nsfw"@)));
    assert(all_shell_free(flag_arg(o.browse, "--browse"@)));
    assert(all_shell_free(flag_arg(o.debug, "--verbose"@)));
    assert(all_shell_free(seq!["--no-color"@]));
    lemma_all_shell_free_concat(head, users);
    lemma_all_shell_free_concat(head + users, mode);
    lemma_all_shell_free_concat(head + users + mode, timeout_args(o.timeout));
    let a1 = head + users + mode + timeout_args(o.timeout);
    lemma_all_shell_free_concat(a1, proxy_args(o.tor, o.proxy@));
    let a2 = a1 + proxy_args(o.tor, o.proxy@);
    lemma_all_shell_free_concat(a2, site_args(strings_view(o.sites@)));
    let a3 = a2 + site_args(strings_view(o.sites@));
    lemma_all_shell_free_concat(a3, flag_arg(o.nsfw, "--nsfw"@));
    let a4 = a3 + flag_arg(o.nsfw, "--nsfw"@);
    lemma_all_shell_free_concat(a4, flag_arg(o.browse, "--browse"@));
    let a5 = a4 + flag_arg(o.browse, "--browse"@);
    lemma_all_shell_free_concat(a5, flag_arg(o.debug, "--verbose"@));
    let a6 = a5 + flag_arg(o.debug, "--verbose"@);
    lemma_all_shell_free_concat(a6, seq!["--no-color"@]);
}

/// Sherlock is always run as the `sherlock_project` module, is given the
/// usernames verbatim and in order right after, then its report mode, and
/// last `--no-color`.
pub proof fn lemma_sherlock_args_shape(users: Seq<Seq<char>>, o: SearchOptions)
    ensures
        sherlock_args(users, o)[0] == "-m"@,
        sherlock_args(users, o)[1] == "sherlock_project"@,
        sherlock_args(users, o).subrange(2, 2int + users.len()) == users,
        sherlock_args(users, o)[2int + users.len()] == (if o.print_all {
            "--print-all"@
        } else {
            "--print-found"@
        }),
        sherlock_args(users, o).last() == "--no-color"@,
{
    let a = sherlock_args(users, o);
    assert(a.subrange(2, 2int + users.len()) =~= users);
}

/// Through Tor, Sherlock's proxy is the SOCKS port that Tor is told to
/// listen on, on the local host.
pub proof fn lemma_tor_proxy_is_tor_port(
    users: Seq<Seq<char>>,
    o: SearchOptions,
    data_dir: Seq<char>,
    geoip: Seq<char>,
    geoip6: Seq<char>,
)
    requires
        o.tor,
    ensures
        ({
            let a = sherlock_args(users, o);
            let i: int = 3int + users.len() + timeout_args(o.timeout).len();
            &&& a[i] == "--proxy"@
            &&& a[i + 1] == "socks5://127.0.0.1:"@ + crate::tor::tor_args(data_dir, geoip, geoip6)[1]
        }),
{
    let head = seq!["-m"@, "sherlock_project"@] + users + seq![
        if o.print_all {
            "--print-all"@
        } else {
            "--print-found"@
        },
    ] + timeout_args(o.timeout);
    let a = sherlock_args(users, o);
    let i: int = 3int + users.len() + timeout_args(o.timeout).len();
    assert(head.len() == i);
    assert(a[i] == proxy_args(o.tor, o.proxy@)[0]);
    assert(a[i + 1] == proxy_args(o.tor, o.proxy@)[1]);
}

/// Whether `x` is a text the user supplied: a username, a site name or the
/// proxy.
pub open spec fn user_supplied(users: Seq<Seq<char>>, o: SearchOptions, x: Seq<char>) -> bool {
    users.contains(x) || strings_view(o.sites@).contains(x) || o.proxy@ == x
}

proof fn lemma_decimal_first_digit(n: nat)
    ensures
        decimal(n).len() > 0,
        '0' <= decimal(n)[0] && decimal(n)[0] <= '9',
    decreases n,
{
    if n >= 10 {
        lemma_decimal_first_digit(n / 10);
    }
}

proof fn lemma_site_args_len(sites: Seq<Seq<char>>)
    ensures
        site_args(sites).len() == 2 * sites.len(),
    decreases sites.len(),
{
    if sites.len() > 0 {
        lemma_site_args_len(sites.drop_last());
    }
}

proof fn lemma_site_args_at(sites: Seq<Seq<char>>, j: int)
    requires
        0 <= j < sites.len(),
    ensures
        site_args(sites).len() == 2 * sites.len(),
        site_args(sites)[2 * j] == "--site"@,
        site_args(sites)[2 * j + 1] == sites[j],
    decreases sites.len(),
{
    lemma_site_args_len(sites);
    let r = sites.drop_last();
    let sa = site_args(r);
    let tail = seq!["--site"@, sites.last()];
    lemma_site_args_len(r);
    assert(site_args(sites) == sa + tail);
    if j < r.len() {
        lemma_site_args_at(r, j);
        assert(sites[j] == r[j]);
        assert((sa + tail)[2 * j] == sa[2 * j]);
        assert((sa + tail)[2 * j + 1] == sa[2 * j + 1]);
    } else {
        assert((sa + tail)[2 * j] == tail[0]);
        assert((sa + tail)[2 * j + 1] == tail[1]);
    }
}

/// Where an argument of Sherlock's command line comes from.
proof fn lemma_arg_origin(users: Seq<Seq<char>>, o: SearchOptions, k: int)
    requires
        0 <= k < sherlock_args(users, o).len(),
    ensures
        ({
            let x = sherlock_args(users, o)[k];
            ||| user_supplied(users, o, x)
            ||| x == "-m"@
            ||| x == "sherlock_project"@
            ||| x == "--print-all"@
            ||| x == "--print-found"@
            ||| x == "--timeout"@ && o.timeout > 0 && o.timeout != 60
            ||| x == decimal(o.timeout as nat)
            ||| x == "--proxy"@ && (o.tor || o.proxy@.len() > 0)
            ||| x == tor_proxy_url()
            ||| x == "--site"@
            ||| x == "--nsfw"@ && o.nsfw
            ||| x == "--browse"@ && o.browse
            ||| x == "--verbose"@ && o.debug
            ||| x == "--no-color"@
        }),
{
    let a = sherlock_args(users, o);
    let sites = strings_view(o.sites@);
    lemma_site_args_len(sites);
    let p0 = seq!["-m"@, "sherlock_project"@];
    let p1 = users;
    let p2 = seq![
        if o.print_all {
            "--print-all"@
        } else {
            "--print-found"@
        },
    ];
    let p3 = timeout_args(o.timeout);
    let p4 = proxy_args(o.tor, o.proxy@);
    let p5 = site_args(sites);
    let p6 = flag_arg(o.nsfw, "--nsfw"@);
    let p7 = flag_arg(o.browse, "--browse"@);
    let p8 = flag_arg(o.debug, "--verbose"@);
    let p9 = seq!["--no-color"@];
    let s1 = p0 + p1;
    let s2 = s1 + p2;
    let s3 = s2 + p3;
    let s4 = s3 + p4;
    let s5 = s4 + p5;
    let s6 = s5 + p6;
    let s7 = s6 + p7;
    let s8 = s7 + p8;
    let s9 = s8 + p9;
    assert(a == s9);
    let x = a[k];
    if k >= s8.len() {
        assert(x == p9[k - s8.len()]);
    } else {
        assert(x == s8[k]);
        if k >= s7.len() {
            assert(x == p8[k - s7.len()]);
        } else {
            assert(x == s7[k]);
            if k >= s6.len() {
                assert(x == p7[k - s6.len()]);
            } else {
                assert(x == s6[k]);
                if k >= s5.len() {
                    assert(x == p6[k - s5.len()]);
                } else {
                    assert(x == s5[k]);
                    if k >= s4.len() {
                        assert(x == p5[k - s4.len()]);
                        let j = k - s4.len();
                        let h = j / 2;
                        assert(0 <= h < sites.len() && (j == 2 * h || j == 2 * h + 1)) by (nonlinear_arith)
                            requires
                                0 <= j < 2 * sites.len(),
                                h == j / 2,
                        ;
                        lemma_site_args_at(sites, h);
                        if j == 2 * h {
                        } else {
                            assert(x == sites[h]);
                            assert(sites.contains(x));
                        }
                    } else {
                        assert(x == s4[k]);
                        if k >= s3.len() {
                            assert(x == p4[k - s3.len()]);
                        } else {
                            assert(x == s3[k]);
                            if k >= s2.len() {
                                assert(x == p3[k - s2.len()]);
                            } else {
                                assert(x == s2[k]);
                                if k >= s1.len() {
                                    assert(x == p2[k - s1.len()]);
                                } else {
                                    assert(x == s1[k]);
                                    if k >= p0.len() {
                                        assert(x == p1[k - p0.len()]);
                                        assert(users.contains(x));
                                    } else {
                                        assert(x == p0[k]);
                                        assert(x == p0[k]);
                                    }
                                }
                            }
                        }
                    }
                }
            }
        }
    }
}

proof fn lemma_flag_literals()
    ensures
        "--nsfw"@.len() == 6,
        "--browse"@.len() == 8,
        "--verbose"@.len() == 9,
        "--timeout"@.len() == 9,
        "--proxy"@.len() == 7,
        "--site"@.len() == 6,
        "-m"@.len() == 2,
        "sherlock_project"@.len() == 16,
        "--print-all"@.len() == 11,
        "--print-found"@.len() == 13,
        "--no-color"@.len() == 10,
        "--nsfw"@[0] == '-',
        "--nsfw"@[2] != "--site"@[2],
        "--verbose"@[2] != "--timeout"@[2],
        "--browse"@[0] == '-',
        "--verbose"@[0] == '-',
        "--timeout"@[0] == '-',
        "--proxy"@[0] == '-',
        tor_proxy_url()[0] == 's',
{
    reveal_strlit("--nsfw");
    reveal_strlit("--browse");
    reveal_strlit("--verbose");
    reveal_strlit("--timeout");
    reveal_strlit("--proxy");
    reveal_strlit("--site");
    reveal_strlit("-m");
    reveal_strlit("sherlock_project");
    reveal_strlit("--print-all");
    reveal_strlit("--print-found");
    reveal_strlit("--no-color");
    reveal_strlit("socks5://127.0.0.1:");
    assert(tor_proxy_url()[0] == "socks5://127.0.0.1:"@[0]);
}

/// Each flag follows its own option: `--nsfw` is given when NSFW sites are
/// asked for, `--browse` when results are to be opened, `--verbose` when
/// debugging, in that order just before the closing `--no-color`; and none
/// of them appears otherwise unless the user typed it as a username, a site
/// name or the proxy.
pub proof fn lemma_flags_follow_options(users: Seq<Seq<char>>, o: SearchOptions)
    ensures
        ({
            let a = sherlock_args(users, o);
            let n = a.len() as int;
            let d: int = if o.debug {
                1
            } else {
                0
            };
            let b: int = if o.browse {
                1
            } else {
                0
            };
            &&& a[n - 1] == "--no-color"@
            &&& o.debug ==> a[n - 2] == "--verbose"@
            &&& o.browse ==> a[n - 2 - d] == "--browse"@
            &&& o.nsfw ==> a[n - 2 - d - b] == "--nsfw"@
            &&& a.contains("--nsfw"@) ==> o.nsfw || user_supplied(users, o, "--nsfw"@)
            &&& a.contains("--browse"@) ==> o.browse || user_supplied(users, o, "--browse"@)
            &&& a.contains("--verbose"@) ==> o.debug || user_supplied(users, o, "--verbose"@)
        }),
{
    let a = sherlock_args(users, o);
    lemma_flag_literals();
    lemma_decimal_first_digit(o.timeout as nat);
    let front = seq!["-m"@, "sherlock_project"@] + users + seq![
        if o.print_all {
            "--print-all"@
        } else {
            "--print-found"@
        },
    ] + timeout_args(o.timeout) + proxy_args(o.tor, o.proxy@) + site_args(strings_view(o.sites@));
    let f = flag_arg(o.nsfw, "--nsfw"@) + flag_arg(o.browse, "--browse"@) + flag_arg(
        o.debug,
        "--verbose"@,
    ) + seq!["--no-color"@];
    assert(a =~= front + f);
    assert(a[a.len() - 1] == f[f.len() - 1]);
    if o.debug {
        assert(a[a.len() - 2] == f[f.len() - 2]);
    }
    if o.browse {
        let d: int = if o.debug {
            1
        } else {
            0
        };
        assert(a[a.len() - 2 - d] == f[f.len() - 2 - d]);
    }
    if o.nsfw {
        assert(a[front.len() as int] == f[0]);
    }
    if a.contains("--nsfw"@) {
        let k = choose|k: int| 0 <= k < a.len() && a[k] == "--nsfw"@;
        lemma_arg_origin(users, o, k);
        assert(decimal(o.timeout as nat) != "--nsfw"@);
        assert(tor_proxy_url() != "--nsfw"@);
        assert("--site"@ != "--nsfw"@);
    }
    if a.contains("--browse"@) {
        let k = choose|k: int| 0 <= k < a.len() && a[k] == "--browse"@;
        lemma_arg_origin(users, o, k);
        assert(decimal(o.timeout as nat) != "--browse"@);
        assert(tor_proxy_url() != "--browse"@);
    }
    if a.contains("--verbose"@) {
        let k = choose|k: int| 0 <= k < a.len() && a[k] == "--verbose"@;
        lemma_arg_origin(users, o, k);
        assert(decimal(o.timeout as nat) != "--verbose"@);
        assert(tor_proxy_url() != "--verbose"@);
        assert("--timeout"@ != "--verbose"@);
    }
}

/// A timeout other than zero and Sherlock's default of 60 seconds is passed
/// right after the report mode as `--timeout n`; otherwise no `--timeout`
/// is given unless the user typed it. Then comes the proxy: Tor's SOCKS
/// proxy when searching through Tor, else the user's proxy when there is
/// one, and no `--proxy` otherwise unless the user typed it. Then each site
/// name, in order, after `--site`.
pub proof fn lemma_timeout_proxy_and_sites(users: Seq<Seq<char>>, o: SearchOptions)
    ensures
        ({
            let a = sherlock_args(users, o);
            let u = users.len() as int;
            let has_timeout = o.timeout > 0 && o.timeout != 60;
            let i: int = 3 + u + if has_timeout {
                2int
            } else {
                0int
            };
            let has_proxy = o.tor || o.proxy@.len() > 0;
            let b: int = i + if has_proxy {
                2int
            } else {
                0int
            };
            let sites = strings_view(o.sites@);
            &&& has_timeout ==> a[3 + u] == "--timeout"@ && a[4 + u] == decimal(o.timeout as nat)
            &&& a.contains("--timeout"@) ==> has_timeout || user_supplied(users, o, "--timeout"@)
            &&& o.tor ==> a[i] == "--proxy"@ && a[i + 1] == "socks5://127.0.0.1:"@ + decimal(9050)
            &&& !o.tor && o.proxy@.len() > 0 ==> a[i] == "--proxy"@ && a[i + 1] == o.proxy@
            &&& a.contains("--proxy"@) ==> has_proxy || user_supplied(users, o, "--proxy"@)
            &&& forall|j: int|
                0 <= j < sites.len() ==> (a[b + 2 * j], a[b + 2 * j + 1]) == ("--site"@,
                    #[trigger] sites[j])
        }),
{
    let a = sherlock_args(users, o);
    let sites = strings_view(o.sites@);
    lemma_flag_literals();
    lemma_decimal_first_digit(o.timeout as nat);
    lemma_site_args_len(sites);
    let p3 = timeout_args(o.timeout);
    let p4 = proxy_args(o.tor, o.proxy@);
    let p5 = site_args(sites);
    let head = seq!["-m"@, "sherlock_project"@] + users + seq![
        if o.print_all {
            "--print-all"@
        } else {
            "--print-found"@
        },
    ];
    let rest = flag_arg(o.nsfw, "--nsfw"@) + flag_arg(o.browse, "--browse"@) + flag_arg(
        o.debug,
        "--verbose"@,
    ) + seq!["--no-color"@];
    let s3 = head + p3;
    let s4 = s3 + p4;
    let s5 = s4 + p5;
    assert(a == s5 + rest);
    let u = users.len() as int;
    assert(head.len() == 3 + u);
    if o.timeout > 0 && o.timeout != 60 {
        assert(a[3 + u] == s5[3 + u] && s5[3 + u] == s4[3 + u] && s4[3 + u] == s3[3 + u]);
        assert(a[4 + u] == s5[4 + u] && s5[4 + u] == s4[4 + u] && s4[4 + u] == s3[4 + u]);
        assert(s3[3 + u] == p3[0]);
        assert(s3[4 + u] == p3[1]);
    }
    let i: int = head.len() as int + p3.len();
    if o.tor || o.proxy@.len() > 0 {
        assert(a[i] == s5[i] && s5[i] == s4[i] && s4[i] == p4[0]);
        assert(a[i + 1] == s5[i + 1] && s5[i + 1] == s4[i + 1] && s4[i + 1] == p4[1]);
    }
    let b: int = i + p4.len() as int;
    assert(p3.len() == (if o.timeout > 0 && o.timeout != 60 {
        2int
    } else {
        0int
    }));
    assert(p4.len() == (if o.tor || o.proxy@.len() > 0 {
        2int
    } else {
        0int
    }));
    assert(s4.len() == b);
    assert forall|j: int| 0 <= j < sites.len() implies a[b + 2 * j] == "--site"@ && a[b + 2 * j
        + 1] == #[trigger] sites[j] by {
        lemma_site_args_at(sites, j);
        assert(a[b + 2 * j] == s5[b + 2 * j] && s5[b + 2 * j] == p5[2 * j]);
        assert(a[b + 2 * j + 1] == s5[b + 2 * j + 1] && s5[b + 2 * j + 1] == p5[2 * j + 1]);
    }
    let b2: int = (3 + u + if o.timeout > 0 && o.timeout != 60 {
        2int
    } else {
        0int
    }) + if o.tor || o.proxy@.len() > 0 {
        2int
    } else {
        0int
    };
    assert(b2 == b);
    assert forall|j: int| 0 <= j < strings_view(o.sites@).len() implies (a[b2 + 2 * j], a[b2 + 2
        * j + 1]) == ("--site"@, #[trigger] strings_view(o.sites@)[j]) by {
        assert(sites[j] == strings_view(o.sites@)[j]);
        assert(a[b2 + 2 * j] == "--site"@ && a[b2 + 2 * j + 1] == sites[j]);
    }
    if a.contains("--timeout"@) {
        let k = choose|k: int| 0 <= k < a.len() && a[k] == "--timeout"@;
        lemma_arg_origin(users, o, k);
        assert(decimal(o.timeout as nat) != "--timeout"@);
        assert(tor_proxy_url() != "--timeout"@);
        assert("--verbose"@ != "--timeout"@);
    }
    if a.contains("--proxy"@) {
        let k = choose|k: int| 0 <= k < a.len() && a[k] == "--proxy"@;
        lemma_arg_origin(users, o, k);
        assert(decimal(o.timeout as nat) != "--proxy"@);
        assert(tor_proxy_url() != "--proxy"@);
    }
}

/// When reading Sherlock's output ends, whatever it wrote on its error
/// output: a run that was not cancelled ends with the completion event
/// `Done. f found across c sites checked.`; a cancelled run sends no
/// completion event (the cancellation already did); non-empty error output
/// is reported first, as an error when nothing was found and as information
/// otherwise; a timed-out run ends with an error and `Search timed out`.
pub proof fn lemma_search_end_reports(f: u32, c: u32, cancelled: bool, stderr_output: Seq<char>)
    ensures
        ({
            let e = search_finished_events(Some((f, c, cancelled)), stderr_output);
            &&& e.len() == (if stderr_output.len() > 0 {
                1int
            } else {
                0int
            }) + (if cancelled {
                0int
            } else {
                1int
            })
            &&& !cancelled ==> e.last() == ev(
                "complete"@,
                "Done. "@ + decimal(f as nat) + " found across "@ + decimal(c as nat)
                    + " sites checked."@,
                None,
            )
            &&& cancelled ==> forall|i: int|
                0 <= i < e.len() ==> (#[trigger] e[i]).event_type != "complete"@
            &&& stderr_output.len() > 0 ==> e[0] == ev(
                if f == 0 {
                    "error"@
                } else {
                    "info"@
                },
                "Sherlock stderr: "@ + trim(stderr_output),
                None,
            )
        }),
        ({
            let e = search_finished_events(None, stderr_output);
            &&& e.len() == 2
            &&& e[0].event_type == "error"@
            &&& e[1] == ev("complete"@, "Search timed out"@, None)
        }),
{
    reveal_strlit("complete");
    reveal_strlit("error");
    reveal_strlit("info");
    assert("error"@.len() != "complete"@.len());
    assert("info"@.len() != "complete"@.len());
    let e = search_finished_events(Some((f, c, cancelled)), stderr_output);
    let first = if stderr_output.len() > 0 {
        seq![
            ev(
                if f == 0 {
                    "error"@
                } else {
                    "info"@
                },
                "Sherlock stderr: "@ + trim(stderr_output),
                None,
            ),
        ]
    } else {
        seq![]
    };
    let done = if !cancelled {
        seq![
            ev(
                "complete"@,
                "Done. "@ + decimal(f as nat) + " found across "@ + decimal(c as nat)
                    + " sites checked."@,
                None,
            ),
        ]
    } else {
        seq![]
    };
    assert(e == first + done);
    if !cancelled {
        assert((first + done).last() == done[0]);
    }
    if stderr_output.len() > 0 {
        assert((first + done)[0] == first[0]);
    }
    if cancelled {
        assert(e =~= first);
    }
}

proof fn lemma_first_error_first(items: Seq<Seq<char>>, check: spec_fn(Seq<char>) -> Option<Seq<char>>)
    ensures
        first_error(items, check) is Some ==> exists|i: int|
            0 <= i < items.len() && check(#[trigger] items[i]) is Some && (forall|j: int|
                0 <= j < i ==> check(#[trigger] items[j]) is None) && first_error(items, check)
                == check(items[i]),
        first_error(items, check) is None ==> forall|i: int|
            0 <= i < items.len() ==> check(#[trigger] items[i]) is None,
    decreases items.len(),
{
    lemma_first_error_none(items, check);
    if items.len() > 0 && check(items[0]) is None {
        let r = items.drop_first();
        lemma_first_error_first(r, check);
        if first_error(r, check) is Some {
            let i = choose|i: int|
                0 <= i < r.len() && check(#[trigger] r[i]) is Some && (forall|j: int|
                    0 <= j < i ==> check(#[trigger] r[j]) is None) && first_error(r, check)
                    == check(r[i]);
            assert(items[i + 1] == r[i]);
            assert forall|j: int| 0 <= j < i + 1 implies check(#[trigger] items[j]) is None by {
                if j > 0 {
                    assert(items[j] == r[j - 1]);
                }
            }
        }
    } else if items.len() > 0 {
        assert(check(items[0]) is Some);
    }
}

/// The refusal of a search request is the first that applies, in this
/// order: a search already running; no username; the first refused
/// username, with its own message; a refused proxy, with its message; the
/// first refused site name, with its message.
pub proof fn lemma_request_error_order(
    running: bool,
    users: Seq<Seq<char>>,
    proxy: Seq<char>,
    sites: Seq<Seq<char>>,
)
    ensures
        running ==> search_request_error(running, users, proxy, sites) == Some(
            "A search is already in progress"@,
        ),
        !running && users.len() == 0 ==> search_request_error(running, users, proxy, sites)
            == Some("At least one username is required"@),
        forall|i: int|
            0 <= i < users.len() && !running && username_error(#[trigger] users[i]) is Some && (
            forall|j: int| 0 <= j < i ==> username_error(#[trigger] users[j]) is None)
                ==> search_request_error(running, users, proxy, sites) == username_error(users[i]),
        !running && users.len() > 0 && (forall|i: int|
            0 <= i < users.len() ==> username_error(#[trigger] users[i]) is None) && proxy_error(
            proxy,
        ) is Some ==> search_request_error(running, users, proxy, sites) == proxy_error(proxy),
        forall|i: int|
            0 <= i < sites.len() && !running && users.len() > 0 && (forall|j: int|
                0 <= j < users.len() ==> username_error(#[trigger] users[j]) is None)
                && proxy_error(proxy) is None && site_name_error(#[trigger] sites[i]) is Some && (
            forall|j: int| 0 <= j < i ==> site_name_error(#[trigger] sites[j]) is None)
                ==> search_request_error(running, users, proxy, sites) == site_name_error(sites[i]),
{
    let uc = |u: Seq<char>| username_error(u);
    let sc = |s: Seq<char>| site_name_error(s);
    lemma_first_error_first(users, uc);
    lemma_first_error_first(sites, sc);
    lemma_first_error_none(users, uc);
    assert forall|i: int|
        0 <= i < users.len() && !running && username_error(#[trigger] users[i]) is Some && (
        forall|j: int| 0 <= j < i ==> username_error(#[trigger] users[j]) is None)
        implies search_request_error(running, users, proxy, sites) == username_error(users[i]) by {
        assert(uc(users[i]) is Some);
        if first_error(users, uc) is Some {
            let k = choose|k: int|
                0 <= k < users.len() && uc(#[trigger] users[k]) is Some && (forall|j: int|
                    0 <= j < k ==> uc(#[trigger] users[j]) is None) && first_error(users, uc)
                    == uc(users[k]);
            if k < i {
                assert(username_error(users[k]) is None);
            } else if k > i {
                assert(uc(users[i]) is None);
            }
        }
    }
    assert forall|i: int|
        0 <= i < sites.len() && !running && users.len() > 0 && (forall|j: int|
            0 <= j < users.len() ==> username_error(#[trigger] users[j]) is None)
            && proxy_error(proxy) is None && site_name_error(#[trigger] sites[i]) is Some && (
        forall|j: int| 0 <= j < i ==> site_name_error(#[trigger] sites[j]) is None)
        implies search_request_error(running, users, proxy, sites) == site_name_error(sites[i]) by {
        assert(forall|j: int| 0 <= j < users.len() ==> uc(#[trigger] users[j]) is None);
        assert(sc(sites[i]) is Some);
        if first_error(sites, sc) is Some {
            let k = choose|k: int|
                0 <= k < sites.len() && sc(#[trigger] sites[k]) is Some && (forall|j: int|
                    0 <= j < k ==> sc(#[trigger] sites[j]) is None) && first_error(sites, sc)
                    == sc(sites[k]);
            if k < i {
                assert(site_name_error(sites[k]) is None);
            } else if k > i {
                assert(sc(sites[i]) is None);
            }
        }
    }
    if !running && users.len() > 0 && (forall|i: int|
        0 <= i < users.len() ==> username_error(#[trigger] users[i]) is None) {
        assert(forall|j: int| 0 <= j < users.len() ==> uc(#[trigger] users[j]) is None);
    }
}

/// The separated tail of a join: `sep` before each of `items`.
pub open spec fn each_after(items: Seq<Seq<char>>, sep: Seq<char>) -> Seq<char> {
    items.map_values(|x: Seq<char>| sep + x).flatten_alt()
}

/// Joining gives the first item, then each later one after `sep`.
pub proof fn lemma_join_spelled(items: Seq<Seq<char>>, sep: Seq<char>)
    requires
        items.len() > 0,
    ensures
        join(items, sep) == items[0] + each_after(items.drop_first(), sep),
    decreases items.len(),
{
    let rest = items.drop_first();
    if items.len() == 1 {
        assert(rest.map_values(|x: Seq<char>| sep + x) =~= Seq::<Seq<char>>::empty());
        assert(items[0] + each_after(rest, sep) =~= items[0]);
    } else {
        let front = items.drop_last();
        lemma_join_spelled(front, sep);
        let m = rest.map_values(|x: Seq<char>| sep + x);
        assert(m.drop_last() =~= front.drop_first().map_values(|x: Seq<char>| sep + x));
        assert(m.last() == sep + items.last());
        assert(join(items, sep) =~= items[0] + each_after(rest, sep));
    }
}

/// The search is announced with the usernames in order, the first one
/// after `Searching for: ` and each later one after `, `; when debugging, a
/// second event shows the command: the Python interpreter, then each
/// argument after a space.
pub proof fn lemma_search_started_reports(
    users: Seq<Seq<char>>,
    python_path: Seq<char>,
    args: Seq<Seq<char>>,
    debug: bool,
)
    requires
        users.len() > 0,
    ensures
        search_started_events(users, python_path, args, debug).len() == if debug {
            2int
        } else {
            1int
        },
        search_started_events(users, python_path, args, debug)[0] == ev(
            "info"@,
            "Searching for: "@ + users[0] + each_after(users.drop_first(), ", "@),
            None,
        ),
        debug && args.len() > 0 ==> search_started_events(users, python_path, args, debug)[1]
            == ev(
            "debug"@,
            "[DEBUG] Command: "@ + python_path + " "@ + args[0] + each_after(args.drop_first(), " "@),
            None,
        ),
{
    lemma_join_spelled(users, ", "@);
    if args.len() > 0 {
        lemma_join_spelled(args, " "@);
    }
    assert("Searching for: "@ + users[0] + each_after(users.drop_first(), ", "@) =~= "Searching for: "@
        + (users[0] + each_after(users.drop_first(), ", "@)));
    if args.len() > 0 {
        assert("[DEBUG] Command: "@ + python_path + " "@ + args[0] + each_after(args.drop_first(), " "@)
            =~= "[DEBUG] Command: "@ + python_path + " "@ + (args[0] + each_after(
            args.drop_first(),
            " "@,
        )));
    }
}

} // verus!
