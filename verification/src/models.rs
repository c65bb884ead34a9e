//! The values exchanged with the user interface: search options in, events out.

use vstd::prelude::*;

verus! {

/// Sherlock's default per-site timeout in seconds (the front end's default too).
pub const DEFAULT_TIMEOUT: u32 = 60;

/// One account that Sherlock reported on.
#[derive(Clone)]
pub struct SherlockResult {
    pub site: String,
    pub url: String,
    pub found: bool,
}

/// One event sent to the user interface.
#[derive(Clone)]
pub struct SearchEvent {
    pub event_type: String,
    pub message: String,
    pub result: Option<SherlockResult>,
}

/// What the user asked for besides the usernames.
pub struct SearchOptions {
    pub timeout: u32,
    pub proxy: String,
    pub sites: Vec<String>,
    pub nsfw: bool,
    pub print_all: bool,
    pub browse: bool,
    pub tor: bool,
    pub debug: bool,
}

/// The model of a `SherlockResult`.
pub struct ResultView {
    pub site: Seq<char>,
    pub url: Seq<char>,
    pub found: bool,
}

/// The model of a `SearchEvent`.
pub struct EventView {
    pub event_type: Seq<char>,
    pub message: Seq<char>,
    pub result: Option<ResultView>,
}

impl View for SherlockResult {
    type V = ResultView;

    open spec fn view(&self) -> ResultView {
        ResultView { site: self.site@, url: self.url@, found: self.found }
    }
}

/// The model of an optional result.
pub open spec fn result_view(r: Option<SherlockResult>) -> Option<ResultView> {
    match r {
        Some(x) => Some(x@),
        None => None,
    }
}

impl View for SearchEvent {
    type V = EventView;

    open spec fn view(&self) -> EventView {
        EventView {
            event_type: self.event_type@,
            message: self.message@,
            result: result_view(self.result),
        }
    }
}

/// The event with these fields.
pub open spec fn ev(event_type: Seq<char>, message: Seq<char>, result: Option<ResultView>) -> EventView {
    EventView { event_type, message, result }
}

/// The models of a list of events.
pub open spec fn events_view(v: Seq<SearchEvent>) -> Seq<EventView> {
    v.map_values(|e: SearchEvent| e@)
}

/// The models of a list of strings.
pub open spec fn strings_view(v: Seq<String>) -> Seq<Seq<char>> {
    v.map_values(|s: String| s@)
}

impl SearchEvent {
    /// An event of type `event_type` carrying `message` and, for a search
    /// result, the account it is about.
    pub fn new(event_type: &str, message: &str, result: Option<SherlockResult>) -> (e: SearchEvent)
        ensures
            e@ == ev(event_type@, message@, result_view(result)),
    {
        SearchEvent {
            event_type: String::from_str(event_type),
            message: String::from_str(message),
            result,
        }
    }
}

/// Appends `e` to `v`.
pub fn push_event(v: &mut Vec<SearchEvent>, e: SearchEvent)
    ensures
        events_view(final(v)@) == events_view(old(v)@).push(e@),
{
    v.push(e);
    assert(events_view(v@) =~= events_view(old(v)@).push(e@));
}

/// Appends a copy of `s` to `v`.
pub fn push_string(v: &mut Vec<String>, s: &str)
    ensures
        strings_view(final(v)@) == strings_view(old(v)@).push(s@),
{
    v.push(String::from_str(s));
    assert(strings_view(v@) =~= strings_view(old(v)@).push(s@));
}

} // verus!
