//! Talking to a server that lives behind a URL rather than behind a pipe.
//!
//! Two transports. **Streamable HTTP**: every request is a `POST`, and the answer comes back
//! either as JSON or as an event stream on that same response. **HTTP+SSE**, the older shape: a
//! long-lived `GET` stream carries every answer, and the first event on it names the URL requests
//! are posted to.

use vstd::prelude::*;
use crate::protocol::{member_views, no_members, push_member, Json, JsonView};
use crate::text;
use crate::text::{
    ascii_lowered, decimal_of, first_of, has_prefix, joined, lemma_first_from, lines_of, lossy,
    occurs, occurs_at, opt, pairs, texts, trimmed,
};
use crate::wire::http::{number_at, number_in};
use crate::wire::{json_error, json_fault};

verus! {

/// The header a server uses to hand out, and then to recognize, a session.
pub const SESSION_HEADER: &'static str = "mcp-session-id";

// Events.

/// One server-sent event: its `event:` name, if it had one, and its data.
#[derive(Debug, PartialEq, Eq)]
pub struct Event {
    pub name: Option<String>,
    pub data: String,
}

/// What an [`Event`] says.
pub struct EventView {
    pub name: Option<Seq<char>>,
    pub data: Seq<char>,
}

impl View for Event {
    type V = EventView;

    open spec fn view(&self) -> EventView {
        EventView { name: opt(self.name), data: self.data@ }
    }
}

/// What some events say.
pub open spec fn event_views(events: Seq<Event>) -> Seq<EventView> {
    events.map_values(|e: Event| e@)
}

/// The first blank line of a text: where the line before it ends, and how many characters the two
/// line ends take. A server ends its lines with a line feed, or with a carriage return before it.
pub open spec fn blank_line(s: Seq<char>) -> Option<(int, int)> {
    match (first_of(s, "\n\n"@), first_of(s, "\r\n\r\n"@)) {
        (Some(i), Some(j)) => if i < j {
            Some((i, 2))
        } else {
            Some((j, 4))
        },
        (Some(i), None) => Some((i, 2)),
        (None, Some(j)) => Some((j, 4)),
        (None, None) => None,
    }
}

/// A field of an event: what stands before the first colon of a line, and what stands behind it,
/// without one leading space.
pub open spec fn field_of(line: Seq<char>) -> Option<(Seq<char>, Seq<char>)> {
    match first_of(line, ":"@) {
        None => None,
        Some(i) => {
            let value = line.skip(i + 1);
            Some(
                (
                    line.take(i),
                    if has_prefix(value, " "@) {
                        value.skip(1)
                    } else {
                        value
                    },
                ),
            )
        },
    }
}

/// The name that some lines give an event: the last one.
pub open spec fn name_in(lines: Seq<Seq<char>>) -> Option<Seq<char>>
    decreases lines.len(),
{
    if lines.len() == 0 {
        None
    } else {
        match field_of(lines.last()) {
            Some((field, value)) => if field == "event"@ {
                Some(value)
            } else {
                name_in(lines.drop_last())
            },
            None => name_in(lines.drop_last()),
        }
    }
}

/// The data that some lines give an event, line by line.
pub open spec fn data_in(lines: Seq<Seq<char>>) -> Seq<Seq<char>>
    decreases lines.len(),
{
    if lines.len() == 0 {
        Seq::empty()
    } else {
        let before = data_in(lines.drop_last());
        match field_of(lines.last()) {
            Some((field, value)) => if field == "data"@ {
                before.push(value)
            } else {
                before
            },
            None => before,
        }
    }
}

/// The event that a block of lines is, where it has data.
pub open spec fn event_in(block: Seq<char>) -> Option<EventView> {
    let lines = lines_of(block);
    if data_in(lines).len() > 0 {
        Some(EventView { name: name_in(lines), data: joined(data_in(lines), "\n"@) })
    } else {
        None
    }
}

/// The first place of a text is within it.
proof fn lemma_blank_line(s: Seq<char>)
    ensures
        match blank_line(s) {
            Some((end, n)) => 0 <= end && 0 < n && end + n <= s.len(),
            None => true,
        },
{
    reveal_strlit("\n\n");
    reveal_strlit("\r\n\r\n");
    lemma_first_from(s, "\n\n"@, 0);
    lemma_first_from(s, "\r\n\r\n"@, 0);
}

/// The complete events of a text, and what is left behind them.
pub open spec fn events_of(s: Seq<char>) -> (Seq<EventView>, Seq<char>)
    decreases s.len(),
    via events_shrink
{
    match blank_line(s) {
        None => (Seq::empty(), s),
        Some((end, n)) => {
            let (later, rest) = events_of(s.skip(end + n));
            (
                match event_in(s.take(end + n)) {
                    Some(event) => seq![event] + later,
                    None => later,
                },
                rest,
            )
        },
    }
}

#[via_fn]
proof fn events_shrink(s: Seq<char>) {
    lemma_blank_line(s);
}

/// Finds the first blank line.
fn find_blank_line(s: &Vec<char>) -> (r: Option<(usize, usize)>)
    ensures
        match blank_line(s@) {
            Some((end, n)) => r is Some && (r->0).0 == end && (r->0).1 == n,
            None => r is None,
        },
{
    let feeds = text::position(s, "\n\n");
    let both = text::position(s, "\r\n\r\n");
    match (feeds, both) {
        (Some(i), Some(j)) => if i < j {
            Some((i, 2))
        } else {
            Some((j, 4))
        },
        (Some(i), None) => Some((i, 2)),
        (None, Some(j)) => Some((j, 4)),
        (None, None) => None,
    }
}

/// Splits a line into a field and its value.
fn split_field(line: &str) -> (r: Option<(String, String)>)
    ensures
        match field_of(line@) {
            Some((field, value)) => r is Some && (r->0).0@ == field && (r->0).1@ == value,
            None => r is None,
        },
{
    let v = text::to_chars(line);
    proof {
        reveal_strlit(":");
        reveal_strlit(" ");
    }
    match text::position(&v, ":") {
        None => None,
        Some(i) => {
            let field = text::from_chars(&v, 0, i);
            let value = text::from_chars(&v, i + 1, v.len());
            assert(field@ =~= line@.take(i as int));
            assert(value@ =~= line@.skip(i + 1));
            match text::strip_prefix(value.as_str(), " ") {
                Some(stripped) => Some((field, stripped)),
                None => Some((field, value)),
            }
        },
    }
}

/// Reads one block of lines.
fn read_block(block: &str) -> (r: Option<Event>)
    ensures
        match event_in(block@) {
            Some(event) => r is Some && r->0@ == event,
            None => r is None,
        },
{
    let lines = text::lines(block);
    let ghost all = texts(lines@);
    let mut name: Option<String> = None;
    let mut data = text::no_texts();
    let mut i: usize = 0;
    assert(all.take(0) =~= Seq::empty());
    while i < lines.len()
        invariant
            i <= lines.len(),
            all == texts(lines@),
            opt(name) == name_in(all.take(i as int)),
            texts(data@) == data_in(all.take(i as int)),
        decreases lines.len() - i,
    {
        assert(all.take(i as int + 1).drop_last() =~= all.take(i as int));
        assert(all[i as int] == lines@[i as int]@);
        if let Some((field, value)) = split_field(lines[i].as_str()) {
            proof {
                reveal_strlit("event");
                reveal_strlit("data");
                assert("event"@.len() != "data"@.len());
            }
            if text::eq(field.as_str(), "event") {
                name = Some(value);
            } else if text::eq(field.as_str(), "data") {
                text::push_text(&mut data, value.as_str());
            }
        }
        i += 1;
    }
    assert(all.take(i as int) =~= all);
    assert(texts(data@).len() == data.len());
    if data.len() > 0 {
        Some(Event { name, data: text::join(&data, "\n") })
    } else {
        None
    }
}

/// Takes every complete event out of a buffer: what it holds, and what is left.
///
/// The subset of server-sent events used here is two field names and a blank-line terminator, and
/// the framing is the part that has to be right.
pub fn take_events(buffer: &mut String) -> (r: Vec<Event>)
    ensures
        (event_views(r@), final(buffer)@) == events_of(old(buffer)@),
{
    let ghost whole = events_of(buffer@);
    let mut events: Vec<Event> = Vec::new();
    let mut rest = text::to_chars(buffer.as_str());
    assert(event_views(events@) + events_of(rest@).0 =~= whole.0);
    loop
        invariant
            whole.0 == event_views(events@) + events_of(rest@).0,
            whole.1 == events_of(rest@).1,
        ensures
            whole.0 == event_views(events@),
            whole.1 == rest@,
        decreases rest.len(),
    {
        proof {
            lemma_blank_line(rest@);
        }
        match find_blank_line(&rest) {
            None => {
                assert(whole.0 =~= event_views(events@));
                break;
            },
            Some((end, n)) => {
                let ghost before = event_views(events@);
                let block = text::from_chars(&rest, 0, end + n);
                assert(block@ =~= rest@.take(end + n));
                let later = rest.split_off(end + n);
                if let Some(event) = read_block(block.as_str()) {
                    events.push(event);
                    assert(event_views(events@) =~= before.push(event@));
                }
                rest = later;
                assert(whole.0 =~= event_views(events@) + events_of(rest@).0);
            },
        }
    }
    *buffer = text::from_chars(&rest, 0, rest.len());
    assert(rest@.subrange(0, rest.len() as int) =~= rest@);
    events
}

/// What no text holds stays unfound when a text is added, but for places that reach into the
/// addition.
proof fn lemma_occurs_in_front(a: Seq<char>, b: Seq<char>, p: Seq<char>, i: int)
    requires
        0 <= i,
        i + p.len() <= a.len(),
    ensures
        occurs_at(a + b, p, i) == occurs_at(a, p, i),
{
    assert((a + b).subrange(i, i + p.len()) =~= a.subrange(i, i + p.len()));
}

/// A blank line stays where it is, whatever follows.
proof fn lemma_blank_line_stays(a: Seq<char>, b: Seq<char>)
    requires
        blank_line(a) is Some,
    ensures
        blank_line(a + b) == blank_line(a),
{
    reveal_strlit("\n\n");
    reveal_strlit("\r\n\r\n");
    let (f, c) = ("\n\n"@, "\r\n\r\n"@);
    assert(f.len() == 2 && c.len() == 4);
    let whole = a + b;
    lemma_first_from(a, f, 0);
    lemma_first_from(a, c, 0);
    lemma_first_from(whole, f, 0);
    lemma_first_from(whole, c, 0);
    let (end, n) = blank_line(a)->0;
    if n == 2 {
        lemma_occurs_in_front(a, b, f, end);
        assert(a.subrange(end, end + 2) == f);
        assert(a[end] == a.subrange(end, end + 2)[0]);
        assert(a[end + 1] == a.subrange(end, end + 2)[1]);
        assert forall|j: int| 0 <= j < end implies !occurs_at(whole, f, j) by {
            lemma_occurs_in_front(a, b, f, j);
            assert(!occurs_at(a, f, j));
        }
        assert forall|j: int| 0 <= j < end implies !occurs_at(whole, c, j) by {
            if j + 4 <= a.len() {
                lemma_occurs_in_front(a, b, c, j);
                assert(!occurs_at(a, c, j));
            } else if occurs_at(whole, c, j) {
                assert(j == end - 1);
                assert(whole.subrange(j, j + 4)[2] == whole[end + 1]);
                assert(whole[end + 1] == a[end + 1]);
            }
        }
        if let Some(j) = first_of(whole, c) {
            assert(j != end) by {
                if j == end {
                    assert(whole.subrange(j, j + 4)[0] == whole[end]);
                    assert(whole[end] == a[end]);
                }
            }
        }
    } else {
        lemma_occurs_in_front(a, b, c, end);
        assert(a[end] == a.subrange(end, end + 4)[0]);
        assert forall|j: int| 0 <= j <= end implies !occurs_at(whole, f, j) by {
            lemma_occurs_in_front(a, b, f, j);
            if occurs_at(a, f, j) {
                assert(j == end);
                assert(a.subrange(j, j + 2)[0] == a[end]);
            }
        }
        assert forall|j: int| 0 <= j < end implies !occurs_at(whole, c, j) by {
            lemma_occurs_in_front(a, b, c, j);
            assert(!occurs_at(a, c, j));
        }
    }
}

/// Where the chunks of a stream are cut does not matter: taking the events out of what came
/// first, and then out of what was left with what came next, gives the same events and leaves the
/// same rest as taking them out of both at once.
pub proof fn chunks_may_be_cut_anywhere(first: Seq<char>, second: Seq<char>)
    ensures
        events_of(first + second).0 == events_of(first).0 + events_of(
            events_of(first).1 + second,
        ).0,
        events_of(first + second).1 == events_of(events_of(first).1 + second).1,
    decreases first.len(),
{
    match blank_line(first) {
        None => {
            assert(events_of(first).0 + events_of(first + second).0 =~= events_of(
                first + second,
            ).0);
        },
        Some((end, n)) => {
            lemma_blank_line(first);
            lemma_blank_line_stays(first, second);
            let later = first.skip(end + n);
            assert((first + second).skip(end + n) =~= later + second);
            assert((first + second).take(end + n) =~= first.take(end + n));
            chunks_may_be_cut_anywhere(later, second);
            assert(events_of(first + second).0 =~= events_of(first).0 + events_of(
                events_of(first).1 + second,
            ).0);
        },
    }
}

/// Nothing complete is left behind, and what is left is the end of what was there.
pub proof fn only_a_partial_event_is_left(s: Seq<char>)
    ensures
        blank_line(events_of(s).1) is None,
        text::has_suffix(s, events_of(s).1),
    decreases s.len(),
{
    match blank_line(s) {
        None => {
            assert(s.skip(0) =~= s);
        },
        Some((end, n)) => {
            lemma_blank_line(s);
            only_a_partial_event_is_left(s.skip(end + n));
            let rest = events_of(s).1;
            assert(s.skip(s.len() - rest.len()) =~= s.skip(end + n).skip(
                s.skip(end + n).len() - rest.len(),
            ));
        },
    }
}

// Answers.

/// The `id` of a message: nothing where the text is no JSON, and no number where the message has
/// none.
pub open spec fn message_id(data: Seq<char>) -> Option<Option<u64>> {
    number_in(data, "/id"@)
}

/// The `id` of a message.
fn read_message_id(data: &str) -> (r: Option<Option<u64>>)
    ensures
        r == message_id(data@),
{
    number_at(data, "/id")
}

/// Whether a response is an event stream rather than one JSON document.
pub open spec fn streams(content_type: Option<Seq<char>>) -> bool {
    match content_type {
        Some(value) => has_prefix(value, "text/event-stream"@),
        None => false,
    }
}

/// Whether a response is an event stream. A server chooses per response.
pub fn is_event_stream(content_type: &Option<String>) -> (r: bool)
    ensures
        r == streams(opt(*content_type)),
{
    match content_type {
        Some(value) => text::starts_with(value.as_str(), "text/event-stream"),
        None => false,
    }
}

/// Why a request got no answer.
#[derive(Debug, PartialEq, Eq)]
pub enum RpcError {
    /// The request did not reach the server, or was refused.
    Transport { method: String, detail: String },
    /// The answer made no sense.
    Malformed { method: String, detail: String },
    /// The stream ended first.
    Closed { method: String },
}

/// What an [`RpcError`] says.
pub enum RpcErrorView {
    Transport { method: Seq<char>, detail: Seq<char> },
    Malformed { method: Seq<char>, detail: Seq<char> },
    Closed { method: Seq<char> },
}

impl View for RpcError {
    type V = RpcErrorView;

    open spec fn view(&self) -> RpcErrorView {
        match self {
            RpcError::Transport { method, detail } => RpcErrorView::Transport {
                method: method@,
                detail: detail@,
            },
            RpcError::Malformed { method, detail } => RpcErrorView::Malformed {
                method: method@,
                detail: detail@,
            },
            RpcError::Closed { method } => RpcErrorView::Closed { method: method@ },
        }
    }
}

/// Why a body of one document is no answer to a method, given why it is no JSON where it is none.
pub open spec fn malformed(method: Seq<char>, fault: Option<Seq<char>>) -> Option<RpcErrorView> {
    match fault {
        Some(fault) => Some(
            RpcErrorView::Malformed { method, detail: "its body is not JSON: "@ + fault },
        ),
        None => None,
    }
}

/// Checks a body of one document: it has to be JSON.
pub fn check_body(method: &str, body: &str) -> (r: Result<(), RpcError>)
    ensures
        match malformed(method@, json_fault(body@)) {
            Some(error) => r is Err && r->Err_0@ == error,
            None => r is Ok,
        },
{
    match json_error(body) {
        Some(fault) => Err(
            RpcError::Malformed {
                method: text::copy(method),
                detail: text::concat("its body is not JSON: ", fault.as_str()),
            },
        ),
        None => Ok(()),
    }
}

/// Which of some messages answers a request, given the ids they have: the first with its own. A
/// server may interleave notifications and requests of its own; only the answer that is owed
/// ends the wait.
pub open spec fn answer_among(ids: Seq<Option<Option<u64>>>, id: u64) -> Option<int>
    decreases ids.len(),
{
    if ids.len() == 0 {
        None
    } else {
        match answer_among(ids.drop_last(), id) {
            Some(i) => Some(i),
            None => if ids.last() == Some(Some(id)) {
                Some(ids.len() - 1)
            } else {
                None
            },
        }
    }
}

/// The ids that the data of some events have.
pub open spec fn ids_of(events: Seq<EventView>) -> Seq<Option<Option<u64>>> {
    events.map_values(|e: EventView| message_id(e.data))
}

/// Which of some messages answers a request.
pub fn find_answer(ids: &Vec<Option<Option<u64>>>, id: u64) -> (r: Option<usize>)
    ensures
        match answer_among(ids@, id) {
            Some(i) => r is Some && r->0 == i,
            None => r is None,
        },
        r is Some ==> r->0 < ids.len(),
{
    let mut found: Option<usize> = None;
    let mut i: usize = 0;
    assert(ids@.take(0) =~= Seq::empty());
    while i < ids.len()
        invariant
            i <= ids.len(),
            match answer_among(ids@.take(i as int), id) {
                Some(k) => found is Some && found->0 == k,
                None => found is None,
            },
            found is Some ==> found->0 < i,
        decreases ids.len() - i,
    {
        assert(ids@.take(i as int + 1).drop_last() =~= ids@.take(i as int));
        if found.is_none() {
            if let Some(Some(n)) = ids[i] {
                if n == id {
                    found = Some(i);
                }
            }
        }
        i += 1;
    }
    assert(ids@.take(i as int) =~= ids@);
    found
}

/// The answer to a request, read off the response to it chunk by chunk.
#[derive(Debug, PartialEq, Eq)]
pub struct AnswerReader {
    buffer: String,
    id: u64,
}

/// What an [`AnswerReader`] knows.
pub struct ReaderView {
    pub buffer: Seq<char>,
    pub id: u64,
}

impl View for AnswerReader {
    type V = ReaderView;

    closed spec fn view(&self) -> ReaderView {
        ReaderView { buffer: self.buffer@, id: self.id }
    }
}

impl AnswerReader {
    /// A reader that waits for the answer to the request `id`.
    pub fn new(id: u64) -> (r: AnswerReader)
        ensures
            r@ == (ReaderView { buffer: Seq::empty(), id }),
    {
        let r = AnswerReader { buffer: String::new(), id };
        assert(r@.buffer =~= Seq::empty());
        r
    }

    /// Reads one chunk: the message that answers the request, if it is complete now.
    pub fn push(&mut self, chunk: &Vec<u8>) -> (r: Option<String>)
        ensures
            ({
                let (events, rest) = events_of(old(self)@.buffer + lossy(chunk@));
                &&& final(self)@ == (ReaderView { buffer: rest, ..old(self)@ })
                &&& opt(r) == match answer_among(ids_of(events), old(self)@.id) {
                    Some(i) => Some(events[i].data),
                    None => None,
                }
            }),
    {
        let decoded = text::from_utf8_lossy(chunk);
        self.buffer.append(decoded.as_str());
        let events = take_events(&mut self.buffer);
        let ghost views = event_views(events@);
        let mut ids: Vec<Option<Option<u64>>> = Vec::new();
        let mut i: usize = 0;
        while i < events.len()
            invariant
                i <= events.len(),
                views == event_views(events@),
                ids@ == ids_of(views).take(i as int),
            decreases events.len() - i,
        {
            assert(views[i as int] == events@[i as int]@);
            ids.push(read_message_id(events[i].data.as_str()));
            i += 1;
            assert(ids@ =~= ids_of(views).take(i as int));
        }
        assert(ids@ =~= ids_of(views));
        match find_answer(&ids, self.id) {
            Some(k) => {
                assert(views[k as int] == events@[k as int]@);
                Some(events[k].data.clone())
            },
            None => None,
        }
    }

    /// The stream ended without the answer.
    pub fn closed(&self, method: &str) -> (r: RpcError)
        ensures
            r@ == (RpcErrorView::Closed { method: method@ }),
    {
        RpcError::Closed { method: text::copy(method) }
    }
}

/// Where an event on the long-lived stream goes.
#[derive(Debug, PartialEq, Eq)]
pub enum Routed {
    /// It names the endpoint that requests are posted to.
    Endpoint(String),
    /// It is the message with this id, for whoever waits for it.
    Message { id: u64, data: String },
    /// Nowhere.
    Dropped,
}

/// What a [`Routed`] says.
pub enum RoutedView {
    Endpoint(Seq<char>),
    Message { id: u64, data: Seq<char> },
    Dropped,
}

impl View for Routed {
    type V = RoutedView;

    open spec fn view(&self) -> RoutedView {
        match self {
            Routed::Endpoint(endpoint) => RoutedView::Endpoint(endpoint@),
            Routed::Message { id, data } => RoutedView::Message { id: *id, data: data@ },
            Routed::Dropped => RoutedView::Dropped,
        }
    }
}

/// Where an event goes, given whether the endpoint is known already and the id its data has.
pub open spec fn destination(event: EventView, named: bool, id: Option<Option<u64>>) -> RoutedView {
    if event.name == Some("endpoint"@) {
        if named {
            RoutedView::Dropped
        } else {
            RoutedView::Endpoint(trimmed(event.data))
        }
    } else {
        match id {
            Some(Some(id)) => RoutedView::Message { id, data: event.data },
            _ => RoutedView::Dropped,
        }
    }
}

/// Where an event goes.
pub fn routed(event: Event, named: bool, id: Option<Option<u64>>) -> (r: Routed)
    ensures
        r@ == destination(event@, named, id),
{
    if let Some(name) = &event.name {
        if text::eq(name.as_str(), "endpoint") {
            return if named {
                Routed::Dropped
            } else {
                Routed::Endpoint(text::trim(event.data.as_str()))
            };
        }
    }
    match id {
        Some(Some(id)) => Routed::Message { id, data: event.data },
        _ => Routed::Dropped,
    }
}

/// Routes every answer on a long-lived stream to the waiter that asked for it.
#[derive(Debug, PartialEq, Eq)]
pub struct Router {
    buffer: String,
    named: bool,
}

/// What a [`Router`] knows.
pub struct RouterView {
    pub buffer: Seq<char>,
    pub named: bool,
}

impl View for Router {
    type V = RouterView;

    closed spec fn view(&self) -> RouterView {
        RouterView { buffer: self.buffer@, named: self.named }
    }
}

/// Where some events go: the first that names an endpoint is the one that does.
pub open spec fn destinations(events: Seq<EventView>, named: bool) -> Seq<RoutedView>
    decreases events.len(),
{
    if events.len() == 0 {
        Seq::empty()
    } else {
        let first = destination(events[0], named, message_id(events[0].data));
        seq![first] + destinations(events.drop_first(), named || first is Endpoint)
    }
}

/// Whether an endpoint is known after some events.
pub open spec fn named_after(events: Seq<EventView>, named: bool) -> bool
    decreases events.len(),
{
    if events.len() == 0 {
        named
    } else {
        let first = destination(events[0], named, message_id(events[0].data));
        named_after(events.drop_first(), named || first is Endpoint)
    }
}

/// What some routed events say.
pub open spec fn routed_views(routed: Seq<Routed>) -> Seq<RoutedView> {
    routed.map_values(|r: Routed| r@)
}

impl Router {
    /// A router at the start of a stream.
    pub fn new() -> (r: Router)
        ensures
            r@ == (RouterView { buffer: Seq::empty(), named: false }),
    {
        let r = Router { buffer: String::new(), named: false };
        assert(r@.buffer =~= Seq::empty());
        r
    }

    /// Reads one chunk: where each event that is complete now goes.
    pub fn push(&mut self, chunk: &Vec<u8>) -> (r: Vec<Routed>)
        ensures
            ({
                let (events, rest) = events_of(old(self)@.buffer + lossy(chunk@));
                &&& routed_views(r@) == destinations(events, old(self)@.named)
                &&& final(self)@ == (RouterView {
                    buffer: rest,
                    named: named_after(events, old(self)@.named),
                })
            }),
    {
        let decoded = text::from_utf8_lossy(chunk);
        self.buffer.append(decoded.as_str());
        let ghost start = self.named;
        let events = take_events(&mut self.buffer);
        let ghost rest = self.buffer@;
        let ghost views = event_views(events@);
        let mut r: Vec<Routed> = Vec::new();
        let mut events = events;
        let ghost whole = destinations(views, start);
        assert(routed_views(r@) + whole =~= whole);
        while events.len() > 0
            invariant
                whole == routed_views(r@) + destinations(event_views(events@), self.named),
                named_after(event_views(events@), self.named) == named_after(views, start),
                self.buffer@ == rest,
            decreases events.len(),
        {
            let ghost before = event_views(events@);
            let ghost done = routed_views(r@);
            let event = events.remove(0);
            assert(event_views(events@) =~= before.drop_first());
            assert(before[0] == event@);
            let id = read_message_id(event.data.as_str());
            let to = routed(event, self.named, id);
            if matches!(to, Routed::Endpoint(_)) {
                self.named = true;
            }
            r.push(to);
            assert(routed_views(r@) =~= done.push(to@));
            assert(whole =~= routed_views(r@) + destinations(event_views(events@), self.named));
        }
        assert(whole =~= routed_views(r@));
        r
    }
}

/// The endpoint is taken from the stream at most once.
pub proof fn an_endpoint_is_named_once(events: Seq<EventView>, named: bool, i: int, j: int)
    requires
        0 <= i < j < destinations(events, named).len(),
        destinations(events, named)[i] is Endpoint,
    ensures
        !(destinations(events, named)[j] is Endpoint),
        !named,
    decreases events.len(),
{
    let first = destination(events[0], named, message_id(events[0].data));
    let rest = events.drop_first();
    if i == 0 {
        lemma_named_once(rest, j - 1);
    } else {
        an_endpoint_is_named_once(rest, named || first is Endpoint, i - 1, j - 1);
    }
}

/// Once an endpoint is known, none is taken.
proof fn lemma_named_once(events: Seq<EventView>, j: int)
    requires
        0 <= j < destinations(events, true).len(),
    ensures
        !(destinations(events, true)[j] is Endpoint),
    decreases events.len(),
{
    if j > 0 {
        lemma_named_once(events.drop_first(), j - 1);
    }
}

// Requests.

/// The origin of a URL: all of it up to the slash behind its host.
pub open spec fn origin_of(url: Seq<char>) -> Seq<char> {
    match first_of(url, "://"@) {
        None => url,
        Some(i) => match first_of(url.skip(i + 3), "/"@) {
            None => url,
            Some(k) => url.take(i + 3 + k),
        },
    }
}

/// An endpoint resolved against the URL of the stream that named it.
pub open spec fn resolved(stream_url: Seq<char>, endpoint: Seq<char>) -> Seq<char> {
    if has_prefix(endpoint, "http://"@) || has_prefix(endpoint, "https://"@) {
        endpoint
    } else if has_prefix(endpoint, "/"@) {
        origin_of(stream_url) + endpoint
    } else {
        origin_of(stream_url) + "/"@ + endpoint
    }
}

/// Resolves the endpoint an event stream named against the stream's own URL. The only forms that
/// occur are an absolute URL and a path.
pub fn absolute(stream_url: &str, endpoint: &str) -> (r: String)
    ensures
        r@ == resolved(stream_url@, endpoint@),
{
    if text::starts_with(endpoint, "http://") || text::starts_with(endpoint, "https://") {
        return text::copy(endpoint);
    }
    let v = text::to_chars(stream_url);
    let mut end: usize = v.len();
    proof {
        reveal_strlit("://");
        reveal_strlit("/");
    }
    if let Some(i) = text::position(&v, "://") {
        let rest = text::from_chars(&v, i + 3, v.len());
        assert(rest@ =~= stream_url@.skip(i + 3));
        let w = text::to_chars(rest.as_str());
        if let Some(k) = text::position(&w, "/") {
            end = i + 3 + k;
        }
    }
    let origin = text::from_chars(&v, 0, end);
    assert(origin@ =~= origin_of(stream_url@));
    if text::starts_with(endpoint, "/") {
        text::concat(origin.as_str(), endpoint)
    } else {
        text::concat3(origin.as_str(), "/", endpoint)
    }
}

/// What a `401` means, given the `WWW-Authenticate` header it came with.
pub open spec fn sign_in_message(label: Seq<char>, challenge: Option<Seq<char>>) -> Seq<char> {
    if challenge is Some && occurs(ascii_lowered(challenge->0), "bearer"@) {
        "`"@ + label + "` needs authorization — run `keke mcp login "@ + label + "`"@
    } else {
        "`"@ + label + "` refused the request as unauthorized (401)"@
    }
}

/// What to tell a person a `401` means, in the terms they can act on. The header is read only to
/// confirm that this is an OAuth challenge rather than something else answering.
pub fn sign_in_required(label: &str, challenge: &Option<String>) -> (r: String)
    ensures
        r@ == sign_in_message(label@, opt(*challenge)),
{
    let challenged = match challenge {
        Some(value) => {
            let lowered = text::to_ascii_lowercase(value.as_str());
            text::contains(lowered.as_str(), "bearer")
        },
        None => false,
    };
    if challenged {
        let mut r = text::concat3("`", label, "` needs authorization — run `keke mcp login ");
        r.append(label);
        r.append("`");
        r
    } else {
        text::concat3("`", label, "` refused the request as unauthorized (401)")
    }
}

/// What came of waiting for an event stream to name its endpoint.
#[derive(Debug, PartialEq, Eq)]
pub enum Naming {
    Named(String),
    Closed,
    TimedOut,
}

/// One connection to a remote server.
#[derive(Debug, PartialEq, Eq)]
pub struct HttpConnection {
    post_url: String,
    headers: Vec<(String, String)>,
    session: Option<String>,
    out_of_band: bool,
    next_id: u64,
    has_auth: bool,
    label: String,
}

/// What an [`HttpConnection`] knows.
pub struct ConnectionView {
    /// Where requests are posted.
    pub post_url: Seq<char>,
    /// Configured headers.
    pub headers: Seq<(Seq<char>, Seq<char>)>,
    /// The session the server assigned, once it has assigned one.
    pub session: Option<Seq<char>>,
    /// Whether answers come back on the long-lived stream.
    pub out_of_band: bool,
    pub next_id: u64,
    /// Whether there is a credential for this server.
    pub has_auth: bool,
    /// The server's name, so a failure names the thing a person would act on.
    pub label: Seq<char>,
}

impl View for HttpConnection {
    type V = ConnectionView;

    closed spec fn view(&self) -> ConnectionView {
        ConnectionView {
            post_url: self.post_url@,
            headers: pairs(self.headers@),
            session: opt(self.session),
            out_of_band: self.out_of_band,
            next_id: self.next_id,
            has_auth: self.has_auth,
            label: self.label@,
        }
    }
}

/// What to do with a response.
#[derive(Debug, PartialEq, Eq)]
pub enum Verdict {
    /// Read it.
    Accept,
    /// Refresh the credential and send the request once more.
    Refresh,
    /// Report this.
    Fail(RpcError),
}

/// What a [`Verdict`] says.
pub enum VerdictView {
    Accept,
    Refresh,
    Fail(RpcErrorView),
}

impl View for Verdict {
    type V = VerdictView;

    open spec fn view(&self) -> VerdictView {
        match self {
            Verdict::Accept => VerdictView::Accept,
            Verdict::Refresh => VerdictView::Refresh,
            Verdict::Fail(error) => VerdictView::Fail(error@),
        }
    }
}

/// What to do with a response to a request for a method. A 401 is the one status worth acting on
/// rather than reporting: the server may simply have decided the token is done before its stated
/// expiry. One refresh, one retry.
pub open spec fn verdict(
    connection: ConnectionView,
    method: Seq<char>,
    retried: bool,
    status: u16,
    status_line: Seq<char>,
    challenge: Option<Seq<char>>,
) -> VerdictView {
    if status == 401 {
        if connection.has_auth && !retried {
            VerdictView::Refresh
        } else {
            VerdictView::Fail(
                RpcErrorView::Transport {
                    method,
                    detail: sign_in_message(connection.label, challenge),
                },
            )
        }
    } else if 200 <= status < 300 {
        VerdictView::Accept
    } else {
        VerdictView::Fail(
            RpcErrorView::Transport { method, detail: "the server answered "@ + status_line },
        )
    }
}

/// A request for a method.
pub open spec fn request_json(id: u64, method: Seq<char>, params: JsonView) -> JsonView {
    JsonView::Object(
        seq![
            ("jsonrpc"@, JsonView::Text("2.0"@)),
            ("id"@, JsonView::Number(decimal_of(id as nat))),
            ("method"@, JsonView::Text(method)),
            ("params"@, params),
        ],
    )
}

/// A notification, which by definition has no id and no answer.
pub open spec fn notification_json(method: Seq<char>, params: JsonView) -> JsonView {
    JsonView::Object(
        seq![
            ("jsonrpc"@, JsonView::Text("2.0"@)),
            ("method"@, JsonView::Text(method)),
            ("params"@, params),
        ],
    )
}

/// A notification.
pub fn notification(method: &str, params: Json) -> (r: Json)
    ensures
        r@ == notification_json(method@, params@),
{
    let mut members = no_members();
    push_member(&mut members, "jsonrpc", Json::text("2.0"));
    push_member(&mut members, "method", Json::text(method));
    push_member(&mut members, "params", params);
    assert(member_views(members@) =~= notification_json(method@, params@)->Object_0);
    Json::Object(members)
}

/// The headers of a request that opens an event stream.
pub open spec fn opening_headers(
    configured: Seq<(Seq<char>, Seq<char>)>,
    bearer: Option<Seq<char>>,
) -> Seq<(Seq<char>, Seq<char>)> {
    let headers = seq![("accept"@, "text/event-stream"@)] + configured;
    match bearer {
        Some(token) => headers.push(("authorization"@, "Bearer "@ + token)),
        None => headers,
    }
}

/// The headers of a request that opens an event stream.
pub fn headers_to_open(configured: &Vec<(String, String)>, bearer: &Option<String>) -> (r: Vec<
    (String, String),
>)
    ensures
        pairs(r@) == opening_headers(pairs(configured@), opt(*bearer)),
{
    let mut headers = text::no_pairs();
    text::push_pair(&mut headers, "accept", "text/event-stream");
    text::append_pairs(&mut headers, configured);
    assert(pairs(headers@) =~= seq![("accept"@, "text/event-stream"@)] + pairs(configured@));
    if let Some(token) = bearer {
        let value = text::concat("Bearer ", token.as_str());
        text::push_pair(&mut headers, "authorization", value.as_str());
    }
    headers
}

/// Why an event stream did not open, where it did not.
pub open spec fn opening_fault(
    url: Seq<char>,
    label: Seq<char>,
    status: u16,
    status_line: Seq<char>,
    challenge: Option<Seq<char>>,
) -> Option<Seq<char>> {
    if status == 401 {
        Some(sign_in_message(label, challenge))
    } else if 200 <= status < 300 {
        None
    } else {
        Some("the event stream at "@ + url + " answered "@ + status_line)
    }
}

/// Whether an event stream opened.
pub fn check_opening(
    url: &str,
    label: &str,
    status: u16,
    status_line: &str,
    challenge: &Option<String>,
) -> (r: Result<(), String>)
    ensures
        match opening_fault(url@, label@, status, status_line@, opt(*challenge)) {
            Some(fault) => r is Err && r->Err_0@ == fault,
            None => r is Ok,
        },
{
    if status == 401 {
        return Err(sign_in_required(label, challenge));
    }
    if 200 <= status && status < 300 {
        return Ok(());
    }
    let mut message = text::concat3("the event stream at ", url, " answered ");
    message.append(status_line);
    Err(message)
}

impl HttpConnection {
    /// A streamable-HTTP connection. Nothing is sent until the first request.
    pub fn streamable(
        url: &str,
        headers: Vec<(String, String)>,
        has_auth: bool,
        label: &str,
    ) -> (r: HttpConnection)
        ensures
            r@ == (ConnectionView {
                post_url: url@,
                headers: pairs(headers@),
                session: None,
                out_of_band: false,
                next_id: 1,
                has_auth,
                label: label@,
            }),
    {
        HttpConnection {
            post_url: text::copy(url),
            headers,
            session: None,
            out_of_band: false,
            next_id: 1,
            has_auth,
            label: text::copy(label),
        }
    }

    /// An HTTP+SSE connection, given what came of waiting for the stream to name its endpoint. A
    /// stream that never names one is a failure here rather than later, because there is nowhere
    /// to send the first request until it does.
    pub fn sse(
        url: &str,
        headers: Vec<(String, String)>,
        has_auth: bool,
        label: &str,
        open_timeout_millis: u64,
        naming: Naming,
    ) -> (r: Result<HttpConnection, String>)
        ensures
            match naming {
                Naming::Named(endpoint) => r is Ok && r->Ok_0@ == (ConnectionView {
                    post_url: resolved(url@, endpoint@),
                    headers: pairs(headers@),
                    session: None,
                    out_of_band: true,
                    next_id: 1,
                    has_auth,
                    label: label@,
                }),
                Naming::Closed => r is Err && r->Err_0@ == "the event stream at "@ + url@
                    + " closed before it named an endpoint"@,
                Naming::TimedOut => r is Err && r->Err_0@ == "the event stream at "@ + url@
                    + " named no endpoint within "@ + decimal_of(open_timeout_millis as nat)
                    + "ms"@,
            },
    {
        match naming {
            Naming::Named(endpoint) => Ok(
                HttpConnection {
                    post_url: absolute(url, endpoint.as_str()),
                    headers,
                    session: None,
                    out_of_band: true,
                    next_id: 1,
                    has_auth,
                    label: text::copy(label),
                },
            ),
            Naming::Closed => Err(
                text::concat3("the event stream at ", url, " closed before it named an endpoint"),
            ),
            Naming::TimedOut => {
                let millis = text::decimal(open_timeout_millis);
                let mut message = text::concat3(
                    "the event stream at ",
                    url,
                    " named no endpoint within ",
                );
                message.append(millis.as_str());
                message.append("ms");
                Err(message)
            },
        }
    }

    /// Where requests are posted.
    pub fn post_url(&self) -> (r: &str)
        ensures
            r@ == self@.post_url,
    {
        self.post_url.as_str()
    }

    /// Whether answers come back on the long-lived stream.
    pub fn is_out_of_band(&self) -> (r: bool)
        ensures
            r == self@.out_of_band,
    {
        self.out_of_band
    }

    /// A request for a method, under an id of its own.
    pub fn request(&mut self, method: &str, params: Json) -> (r: (u64, Json))
        ensures
            r.0 == old(self)@.next_id,
            r.1@ == request_json(r.0, method@, params@),
            final(self)@ == (ConnectionView {
                next_id: old(self)@.next_id.wrapping_add(1),
                ..old(self)@
            }),
    {
        let id = self.next_id;
        self.next_id = id.wrapping_add(1);
        let mut members = no_members();
        push_member(&mut members, "jsonrpc", Json::text("2.0"));
        push_member(&mut members, "id", Json::number(id));
        push_member(&mut members, "method", Json::text(method));
        push_member(&mut members, "params", params);
        assert(member_views(members@) =~= request_json(id, method@, params@)->Object_0);
        (id, Json::Object(members))
    }

    /// The headers of one attempt at a request, with whatever credential was decided on.
    pub fn headers(&self, bearer: &Option<String>) -> (r: Vec<(String, String)>)
        ensures
            pairs(r@) == request_headers(self@, opt(*bearer)),
    {
        let mut headers = text::no_pairs();
        text::push_pair(&mut headers, "content-type", "application/json");
        text::push_pair(&mut headers, "accept", "application/json, text/event-stream");
        text::append_pairs(&mut headers, &self.headers);
        assert(pairs(headers@) =~= seq![
            ("content-type"@, "application/json"@),
            ("accept"@, "application/json, text/event-stream"@),
        ] + self@.headers);
        if let Some(token) = bearer {
            let value = text::concat("Bearer ", token.as_str());
            text::push_pair(&mut headers, "authorization", value.as_str());
        }
        if let Some(session) = &self.session {
            text::push_pair(&mut headers, SESSION_HEADER, session.as_str());
        }
        headers
    }

    /// Takes the status line of a response: whether the request has been sent twice already, the
    /// status, the `WWW-Authenticate` header and the session header. A session id is handed out
    /// once and is required on everything after it; it is read off every response that is not a
    /// refusal.
    pub fn answered(
        &mut self,
        method: &str,
        retried: bool,
        status: u16,
        status_line: &str,
        challenge: &Option<String>,
        session: Option<String>,
    ) -> (r: Verdict)
        ensures
            r@ == verdict(
                old(self)@,
                method@,
                retried,
                status,
                status_line@,
                opt(*challenge),
            ),
            final(self)@ == if status != 401 && session is Some {
                ConnectionView { session: opt(session), ..old(self)@ }
            } else {
                old(self)@
            },
    {
        if status == 401 {
            if self.has_auth && !retried {
                return Verdict::Refresh;
            }
            return Verdict::Fail(self.refused(method, challenge));
        }
        if session.is_some() {
            self.session = session;
        }
        if 200 <= status && status < 300 {
            Verdict::Accept
        } else {
            Verdict::Fail(
                RpcError::Transport {
                    method: text::copy(method),
                    detail: text::concat("the server answered ", status_line),
                },
            )
        }
    }

    /// There was nothing to refresh: the refusal that the server gave stands.
    pub fn refused(&self, method: &str, challenge: &Option<String>) -> (r: RpcError)
        ensures
            r@ == (RpcErrorView::Transport {
                method: method@,
                detail: sign_in_message(self@.label, opt(*challenge)),
            }),
    {
        RpcError::Transport {
            method: text::copy(method),
            detail: sign_in_required(self.label.as_str(), challenge),
        }
    }
}

/// The headers of one attempt at a request.
pub open spec fn request_headers(connection: ConnectionView, bearer: Option<Seq<char>>) -> Seq<
    (Seq<char>, Seq<char>),
> {
    let plain = seq![
        ("content-type"@, "application/json"@),
        ("accept"@, "application/json, text/event-stream"@),
    ] + connection.headers;
    let authorized = match bearer {
        Some(token) => plain.push(("authorization"@, "Bearer "@ + token)),
        None => plain,
    };
    match connection.session {
        Some(session) => authorized.push((SESSION_HEADER@, session)),
        None => authorized,
    }
}

/// A request is sent at most twice: once it has been retried, no answer asks for another refresh.
/// A loop would spend the refresh token against a server that will never accept it.
pub proof fn a_refusal_is_retried_once(
    connection: ConnectionView,
    method: Seq<char>,
    status: u16,
    status_line: Seq<char>,
    challenge: Option<Seq<char>>,
)
    ensures
        !(verdict(connection, method, true, status, status_line, challenge) is Refresh),
        status == 401 ==> verdict(connection, method, true, status, status_line, challenge)
            == VerdictView::Fail(
            RpcErrorView::Transport {
                method,
                detail: sign_in_message(connection.label, challenge),
            },
        ),
{
}

/// A field is what stands before the first colon, and its value what stands behind it, less one
/// space; a line without a colon is no field.
pub proof fn a_field_reads_back(field: Seq<char>, value: Seq<char>, line: Seq<char>)
    requires
        !field.contains(':'),
        !line.contains(':'),
    ensures
        field_of(field + seq![':', ' '] + value) == Some((field, value)),
        value.len() == 0 || value[0] != ' ' ==> field_of(field + seq![':'] + value) == Some(
            (field, value),
        ),
        field_of(line) is None,
{
    reveal_strlit(":");
    reveal_strlit(" ");
    assert(":"@ =~= seq![':']);
    let spaced = field + seq![':', ' '] + value;
    let tight = field + seq![':'] + value;
    let n = field.len() as int;
    lemma_first_colon(spaced, n);
    lemma_first_colon(tight, n);
    text::lemma_first_from(line, ":"@, 0);
    if let Some(i) = first_of(line, ":"@) {
        assert(line.subrange(i, i + 1)[0] == line[i]);
        assert(line.contains(':'));
    }
    assert(spaced.take(n) =~= field);
    assert(tight.take(n) =~= field);
    let behind = spaced.skip(n + 1);
    assert(behind.subrange(0, 1) =~= " "@);
    assert(behind.skip(1) =~= value);
    assert(tight.skip(n + 1) =~= value);
    if value.len() > 0 && value[0] != ' ' {
        assert(value.subrange(0, 1)[0] == value[0]);
    }
}

proof fn lemma_first_colon(s: Seq<char>, n: int)
    requires
        0 <= n < s.len(),
        s[n] == ':',
        forall|k: int| 0 <= k < n ==> #[trigger] s[k] != ':',
        ":"@ == seq![':'],
    ensures
        first_of(s, ":"@) == Some(n),
{
    text::lemma_first_from(s, ":"@, 0);
    assert(s.subrange(n, n + 1) =~= ":"@);
    assert(text::occurs_at(s, ":"@, n));
    if let Some(i) = first_of(s, ":"@) {
        assert(s.subrange(i, i + 1)[0] == s[i]);
    }
}

/// The value of a field on a line, where the line has that field.
pub open spec fn value_on(line: Seq<char>, field: Seq<char>) -> Option<Seq<char>> {
    match field_of(line) {
        Some((name, value)) => if name == field {
            Some(value)
        } else {
            None
        },
        None => None,
    }
}

/// An event holds all of its data, line by line and in order, and is called by the last name it was
/// given; without data it is no event.
pub proof fn an_event_holds_all_of_its_data(lines: Seq<Seq<char>>)
    ensures
        data_in(lines) == lines.filter(
            |line: Seq<char>| value_on(line, "data"@) is Some,
        ).map_values(|line: Seq<char>| value_on(line, "data"@)->0),
        match name_in(lines) {
            Some(name) => exists|i: int|
                {
                    &&& 0 <= i < lines.len()
                    &&& value_on(#[trigger] lines[i], "event"@) == Some(name)
                    &&& forall|j: int|
                        i < j < lines.len() ==> value_on(#[trigger] lines[j], "event"@) is None
                },
            None => forall|j: int|
                0 <= j < lines.len() ==> value_on(#[trigger] lines[j], "event"@) is None,
        },
    decreases lines.len(),
{
    let keep = |line: Seq<char>| value_on(line, "data"@) is Some;
    let value = |line: Seq<char>| value_on(line, "data"@)->0;
    reveal(Seq::filter);
    if lines.len() > 0 {
        let init = lines.drop_last();
        let n = lines.len() - 1;
        let last = lines[n];
        an_event_holds_all_of_its_data(init);
        if keep(last) {
            assert(init.filter(keep).push(last).map_values(value) =~= init.filter(keep).map_values(
                value,
            ).push(value(last)));
        }
        assert forall|j: int| 0 <= j < n implies #[trigger] lines[j] == init[j] by {}
        if value_on(last, "event"@) is Some {
            assert(value_on(lines[n], "event"@) == name_in(lines));
        } else {
            assert(name_in(lines) == name_in(init));
            if name_in(init) is Some {
                let i = choose|i: int|
                    {
                        &&& 0 <= i < init.len()
                        &&& value_on(#[trigger] init[i], "event"@) == name_in(init)
                        &&& forall|j: int|
                            i < j < init.len() ==> value_on(#[trigger] init[j], "event"@) is None
                    };
                assert(lines[i] == init[i]);
                assert forall|j: int| i < j < lines.len() implies value_on(
                    #[trigger] lines[j],
                    "event"@,
                ) is None by {
                    if j < n {
                        assert(lines[j] == init[j]);
                    }
                }
            } else {
                assert forall|j: int| 0 <= j < lines.len() implies value_on(
                    #[trigger] lines[j],
                    "event"@,
                ) is None by {
                    if j < n {
                        assert(lines[j] == init[j]);
                    }
                }
            }
        }
    }
    assert(data_in(lines) =~= lines.filter(keep).map_values(value));
}

/// An event ends at the first blank line, of either kind of line break, and nothing ends before it.
pub proof fn an_event_ends_at_a_blank_line(s: Seq<char>)
    ensures
        match blank_line(s) {
            Some((end, n)) => {
                &&& 0 <= end && end + n <= s.len()
                &&& n == 2 ==> s.subrange(end, end + 2) == "\n\n"@
                &&& n == 4 ==> s.subrange(end, end + 4) == "\r\n\r\n"@
                &&& n == 2 || n == 4
                &&& forall|k: int|
                    0 <= k < end ==> !#[trigger] text::occurs_at(s, "\n\n"@, k)
                        && !text::occurs_at(s, "\r\n\r\n"@, k)
            },
            None => forall|k: int|
                0 <= k ==> !#[trigger] text::occurs_at(s, "\n\n"@, k) && !text::occurs_at(
                    s,
                    "\r\n\r\n"@,
                    k,
                ),
        },
{
    reveal_strlit("\n\n");
    reveal_strlit("\r\n\r\n");
    text::lemma_first_from(s, "\n\n"@, 0);
    text::lemma_first_from(s, "\r\n\r\n"@, 0);
    assert("\n\n"@.len() == 2 && "\r\n\r\n"@.len() == 4);
}

/// The answer to a request is the first message with its id, and there is none where no message has
/// it.
pub proof fn the_answer_has_the_id_of_its_request(ids: Seq<Option<Option<u64>>>, id: u64)
    ensures
        match answer_among(ids, id) {
            Some(i) => 0 <= i < ids.len() && ids[i] == Some(Some(id)) && forall|j: int|
                0 <= j < i ==> #[trigger] ids[j] != Some(Some(id)),
            None => forall|j: int| 0 <= j < ids.len() ==> #[trigger] ids[j] != Some(Some(id)),
        },
    decreases ids.len(),
{
    if ids.len() > 0 {
        let init = ids.drop_last();
        the_answer_has_the_id_of_its_request(init, id);
        assert forall|j: int| 0 <= j < init.len() implies #[trigger] ids[j] == init[j] by {}
    }
}

/// A message goes to the request whose id it has, whole, and one that has none goes nowhere; an
/// endpoint is taken once.
pub proof fn a_message_goes_to_its_request(event: EventView, named: bool, id: u64)
    ensures
        event.name != Some("endpoint"@) ==> destination(event, named, Some(Some(id)))
            == (RoutedView::Message { id, data: event.data }),
        event.name != Some("endpoint"@) ==> destination(event, named, Some(None)) is Dropped
            && destination(event, named, None) is Dropped,
        event.name == Some("endpoint"@) ==> destination(event, true, Some(Some(id))) is Dropped,
        event.name == Some("endpoint"@) ==> destination(event, false, Some(Some(id)))
            == RoutedView::Endpoint(trimmed(event.data)),
{
}

/// Where requests go is what the server named: an address as it is, and a path on the server that
/// the stream came from.
pub proof fn an_endpoint_is_on_its_server(
    scheme: Seq<char>,
    host: Seq<char>,
    path: Seq<char>,
    endpoint: Seq<char>,
)
    requires
        !scheme.contains(':'),
        !host.contains('/'),
    ensures
        origin_of(scheme + seq![':', '/', '/'] + host + seq!['/'] + path) == scheme + seq![
            ':',
            '/',
            '/',
        ] + host,
        resolved(
            scheme + seq![':', '/', '/'] + host + seq!['/'] + path,
            seq!['/'] + endpoint,
        ) == scheme + seq![':', '/', '/'] + host + seq!['/'] + endpoint,
        forall|url: Seq<char>|
            #[trigger] resolved(url, "https://"@ + endpoint) == "https://"@ + endpoint,
{
    reveal_strlit("://");
    reveal_strlit("/");
    reveal_strlit("http://");
    reveal_strlit("https://");
    let n = scheme.len() as int;
    let url = scheme + seq![':', '/', '/'] + host + seq!['/'] + path;
    text::lemma_first_from(url, "://"@, 0);
    assert(url.subrange(n, n + 3) =~= "://"@);
    assert(text::occurs_at(url, "://"@, n));
    let i = first_of(url, "://"@)->0;
    assert(url.subrange(i, i + 3)[0] == url[i]);
    assert("://"@[0] == ':');
    if i < n {
        assert(scheme[i] == ':');
        assert(scheme.contains(':'));
    }
    let rest = url.skip(n + 3);
    let k = host.len() as int;
    text::lemma_first_from(rest, "/"@, 0);
    assert(rest.subrange(k, k + 1) =~= "/"@);
    assert(text::occurs_at(rest, "/"@, k));
    let j = first_of(rest, "/"@)->0;
    assert(rest.subrange(j, j + 1)[0] == rest[j]);
    assert("/"@[0] == '/');
    if j < k {
        assert(host[j] == '/');
        assert(host.contains('/'));
    }
    assert(url.take(n + 3 + k) =~= scheme + seq![':', '/', '/'] + host);
    let rooted = seq!['/'] + endpoint;
    assert(rooted[0] == '/');
    assert(rooted.subrange(0, 1) =~= "/"@);
    assert("http://"@[0] == 'h' && "https://"@[0] == 'h');
    if has_prefix(rooted, "http://"@) {
        assert(rooted.subrange(0, "http://"@.len() as int)[0] == rooted[0]);
    }
    if has_prefix(rooted, "https://"@) {
        assert(rooted.subrange(0, "https://"@.len() as int)[0] == rooted[0]);
    }
    assert(resolved(url, rooted) =~= scheme + seq![':', '/', '/'] + host + seq!['/'] + endpoint);
    let whole = "https://"@ + endpoint;
    assert(whole.subrange(0, "https://"@.len() as int) =~= "https://"@);
}

/// A request says its id, its method and its parameters, and a notification all but an id.
pub proof fn a_request_says_what_it_asks(id: u64, method: Seq<char>, params: JsonView)
    ensures
        ({
            let request = request_json(id, method, params);
            let notice = notification_json(method, params);
            &&& crate::wire::says(request, "jsonrpc"@, JsonView::Text("2.0"@))
            &&& crate::wire::says(request, "id"@, JsonView::Number(decimal_of(id as nat)))
            &&& crate::wire::says(request, "method"@, JsonView::Text(method))
            &&& crate::wire::says(request, "params"@, params)
            &&& crate::wire::says(notice, "jsonrpc"@, JsonView::Text("2.0"@))
            &&& crate::wire::says(notice, "method"@, JsonView::Text(method))
            &&& crate::wire::says(notice, "params"@, params)
            &&& crate::wire::is_silent(notice, "id"@)
        }),
{
    reveal_strlit("jsonrpc");
    reveal_strlit("id");
    reveal_strlit("method");
    reveal_strlit("params");
    assert("jsonrpc"@.len() == 7 && "id"@.len() == 2);
    assert("method"@.len() == 6 && "params"@.len() == 6);
    assert("method"@[0] == 'm' && "params"@[0] == 'p');
    let request = request_json(id, method, params)->Object_0;
    let notice = notification_json(method, params)->Object_0;
    assert(crate::wire::key_at(request, "jsonrpc"@, 0));
    assert(crate::wire::key_at(request, "id"@, 1));
    assert(crate::wire::key_at(request, "method"@, 2));
    assert(crate::wire::key_at(request, "params"@, 3));
    assert(crate::wire::key_at(notice, "jsonrpc"@, 0));
    assert(crate::wire::key_at(notice, "method"@, 1));
    assert(crate::wire::key_at(notice, "params"@, 2));
}

/// A request carries the headers that were configured, and the token and the session where there is
/// one, and no others but the two that say what is sent and what is read.
pub proof fn a_request_carries_its_headers(connection: ConnectionView, token: Seq<char>)
    ensures
        ({
            let bare = request_headers(connection, None);
            let signed = request_headers(connection, Some(token));
            let n = connection.headers.len() as int;
            &&& bare.len() == n + (if connection.session is Some {
                3int
            } else {
                2
            })
            &&& bare.subrange(2, n + 2) == connection.headers
            &&& signed.len() == bare.len() + 1
            &&& signed.take(n + 2) == bare.take(n + 2)
            &&& signed[n + 2] == ("authorization"@, "Bearer "@ + token)
            &&& connection.session matches Some(session) ==> {
                &&& bare.last() == (SESSION_HEADER@, session)
                &&& signed.last() == (SESSION_HEADER@, session)
            }
        }),
        opening_headers(connection.headers, Some(token)).last() == (
            "authorization"@,
            "Bearer "@ + token,
        ),
        opening_headers(connection.headers, None).skip(1) == connection.headers,
{
    let bare = request_headers(connection, None);
    let signed = request_headers(connection, Some(token));
    let n = connection.headers.len() as int;
    assert(bare.subrange(2, n + 2) =~= connection.headers);
    assert(signed.take(n + 2) =~= bare.take(n + 2));
    assert(opening_headers(connection.headers, None).skip(1) =~= connection.headers);
}

/// An event that is written is read back: under its name, with its data, and with nothing left over.
pub proof fn a_written_event_is_read_back(name: Seq<char>, data: Seq<char>)
    requires
        !name.contains('\n') && !name.contains('\r'),
        !data.contains('\n') && !data.contains('\r'),
    ensures
        events_of(
            "event"@ + seq![':', ' '] + name + seq!['\n'] + ("data"@ + seq![':', ' '] + data)
                + seq!['\n', '\n'],
        ) == (seq![EventView { name: Some(name), data }], Seq::<char>::empty()),
{
    reveal_strlit("event");
    reveal_strlit("data");
    reveal_strlit("\n");
    reveal_strlit("\n\n");
    reveal_strlit("\r\n\r\n");
    let first = "event"@ + seq![':', ' '] + name;
    let second = "data"@ + seq![':', ' '] + data;
    let s = first + seq!['\n'] + second + seq!['\n', '\n'];
    let n = s.len() as int;
    let a = first.len() as int;
    assert forall|k: int| 0 <= k < first.len() implies first[k] != '\n' && first[k] != '\r' by {
        if k >= 7 {
            assert(first[k] == name[k - 7]);
        }
    }
    assert forall|k: int| 0 <= k < second.len() implies second[k] != '\n' && second[k]
        != '\r' by {
        if k >= 6 {
            assert(second[k] == data[k - 6]);
        }
    }
    assert forall|k: int| 0 <= k < n implies s[k] != '\r' && (s[k] == '\n' <==> (k == a || k == n
        - 2 || k == n - 1)) by {
        if k < a {
            assert(s[k] == first[k]);
        } else if a < k < n - 2 {
            assert(s[k] == second[k - a - 1]);
        }
    }
    text::lemma_first_from(s, "\n\n"@, 0);
    text::lemma_first_from(s, "\r\n\r\n"@, 0);
    assert(s.subrange(n - 2, n) =~= "\n\n"@);
    assert(text::occurs_at(s, "\n\n"@, n - 2));
    let i = first_of(s, "\n\n"@)->0;
    assert(s.subrange(i, i + 2)[0] == s[i] && s.subrange(i, i + 2)[1] == s[i + 1]);
    assert(i == n - 2);
    if let Some(j) = first_of(s, "\r\n\r\n"@) {
        assert(s.subrange(j, j + 4)[0] == s[j]);
    }
    assert(blank_line(s) == Some((n - 2, 2int)));
    assert(s.take(n) =~= s);
    assert(s.skip(n) =~= Seq::<char>::empty());
    let rest = s.skip(n);
    text::lemma_first_from(rest, "\n\n"@, 0);
    text::lemma_first_from(rest, "\r\n\r\n"@, 0);
    assert(blank_line(rest) is None);
    let pieces = seq![first, second, Seq::<char>::empty(), Seq::<char>::empty()];
    assert forall|k: int| 0 <= k < pieces.len() implies !(#[trigger] pieces[k]).contains('\n') by {}
    crate::paths::lemma_split_undoes_join(pieces, '\n');
    assert(joined(pieces, seq!['\n']) =~= s) by {
        let three = pieces.drop_last();
        let two = three.drop_last();
        assert(two.drop_last() =~= seq![first]);
        reveal_with_fuel(text::joined, 5);
    }
    let lines = lines_of(s);
    assert(lines =~= seq![first, second, Seq::<char>::empty()]);
    a_field_reads_back("event"@, name, Seq::empty());
    a_field_reads_back("data"@, data, Seq::empty());
    let two = lines.drop_last();
    let one = two.drop_last();
    assert(two =~= seq![first, second]);
    assert(one =~= seq![first]);
    assert(one.drop_last() =~= Seq::<Seq<char>>::empty());
    assert("event"@.len() == 5 && "data"@.len() == 4);
    assert("event"@ != "data"@);
    reveal_with_fuel(data_in, 4);
    assert(field_of(first) == Some(("event"@, name)));
    assert(field_of(second) == Some(("data"@, data)));
    assert(data_in(one) =~= Seq::<Seq<char>>::empty());
    assert(data_in(two) =~= seq![data]);
    assert(data_in(lines) =~= seq![data]);
    assert(name_in(one) == Some(name));
    assert(name_in(two) == Some(name));
    assert(lines.last() =~= Seq::<char>::empty());
    assert(field_of(lines.last()) is None);
    assert(name_in(lines) == Some(name));
    assert(joined(seq![data], "\n"@) =~= data);
    let event = EventView { name: Some(name), data };
    assert(events_of(rest).0 =~= Seq::<EventView>::empty());
    assert(seq![event] + Seq::<EventView>::empty() =~= seq![event]);
}

} // verus!
