//! The handling of one connection, as a machine that is told what happened
//! and says what to do next.
//!
//! The owner of the socket performs each action and reports its outcome as
//! the next event. A connection reads the header in small probes, drains
//! what else the client sent with the socket in non-blocking mode, settles
//! the route, on the slow route waits, asks whether the file exists, sends
//! one response and closes.

use crate::header::{
    after_chunk, after_chunks, start, HeaderReader, Progress, ReadState, PROBE_SIZE,
};
use crate::request::{first_line, request_line, route, route_of, Route, RouteView};
use crate::response::{
    answer, candidate, candidate_of, decide, decision, head, index_document, index_file,
    response_head, Decision, DecisionView, Status,
};
use vstd::prelude::*;
use vstd::utf8::valid_utf8;

verus! {

/// How long the slow route waits before it answers, in seconds.
pub const SLEEP_SECONDS: u64 = 5;

/// Why a connection was given up without a response.
#[derive(Clone, Copy, Debug, PartialEq, Eq, Structural)]
pub enum Abort {
    /// The peer closed the stream before the header was complete.
    PeerClosed,
    /// The header did not end within the bound on its size.
    HeaderTooLong,
    /// The header is not valid UTF-8.
    NotText,
    /// Reading, writing or switching the mode of the socket failed.
    Failed,
    /// An event was reported that answers no action the connection asked for.
    OutOfTurn,
}

/// How a connection ended.
#[derive(Clone, Copy, Debug, PartialEq, Eq, Structural)]
pub enum Outcome {
    /// A response with this status was sent.
    Served(Status),
    /// No response was sent.
    Aborted(Abort),
}

/// What happened on the socket or on disk.
#[derive(Debug, PartialEq, Eq)]
pub enum Event {
    /// A read returned these bytes; none if the peer closed the stream.
    Data(Vec<u8>),
    /// A read in non-blocking mode found nothing to read.
    WouldBlock,
    /// The action asked for was done: the mode was switched, the time has
    /// passed, or the response was written and flushed.
    Done,
    /// Whether the file asked about exists.
    Exists(bool),
    /// The action asked for failed.
    Failed,
}

/// An event as a mathematical value.
pub enum EventView {
    Data(Seq<u8>),
    WouldBlock,
    Done,
    Exists(bool),
    Failed,
}

impl View for Event {
    type V = EventView;

    open spec fn view(&self) -> EventView {
        match self {
            Event::Data(bytes) => EventView::Data(bytes@),
            Event::WouldBlock => EventView::WouldBlock,
            Event::Done => EventView::Done,
            Event::Exists(present) => EventView::Exists(*present),
            Event::Failed => EventView::Failed,
        }
    }
}

/// What the owner of the socket is to do next.
#[derive(Debug, PartialEq, Eq)]
pub enum Action {
    /// Read at most this many bytes from the socket and report `Data`,
    /// `WouldBlock` or `Failed`.
    Read(usize),
    /// Switch the socket to non-blocking mode (`true`) or back to blocking
    /// mode (`false`) and report `Done` or `Failed`.
    SetNonBlocking(bool),
    /// Wait this many seconds and report `Done`.
    Sleep(u64),
    /// Report with `Exists` whether the file at this path below the
    /// document root exists.
    Probe(Vec<u8>),
    /// Write `head`, then the bytes of the file at the path `file` below the
    /// document root, flush, and report `Done` or `Failed`.
    Respond { head: Vec<u8>, file: Vec<u8> },
    /// Close the socket; the connection ended in this way.
    Close(Outcome),
}

/// An action as a mathematical value.
pub enum ActionView {
    Read(usize),
    SetNonBlocking(bool),
    Sleep(u64),
    Probe(Seq<u8>),
    Respond { head: Seq<u8>, file: Seq<u8> },
    Close(Outcome),
}

impl View for Action {
    type V = ActionView;

    open spec fn view(&self) -> ActionView {
        match self {
            Action::Read(limit) => ActionView::Read(*limit),
            Action::SetNonBlocking(on) => ActionView::SetNonBlocking(*on),
            Action::Sleep(seconds) => ActionView::Sleep(*seconds),
            Action::Probe(path) => ActionView::Probe(path@),
            Action::Respond { head, file } => ActionView::Respond { head: head@, file: file@ },
            Action::Close(outcome) => ActionView::Close(*outcome),
        }
    }
}

/// Where the handling of a connection stands.
pub enum State {
    /// The header is being read.
    Reading(Progress),
    /// The header is complete and asks for this route; non-blocking mode was asked for.
    EnteringDrain(RouteView),
    /// What else the client sent is being read and dropped.
    Draining(RouteView),
    /// Blocking mode was asked for.
    LeavingDrain(RouteView),
    /// The slow route is waiting.
    Sleeping,
    /// It was asked whether the candidate file of this route exists.
    Probing(RouteView),
    /// A response with this status is being sent.
    Responding(Status),
    /// The connection ended.
    Closed(Outcome),
}

/// The state and action of a connection that ends with `outcome`.
pub open spec fn close(outcome: Outcome) -> (State, ActionView) {
    (State::Closed(outcome), ActionView::Close(outcome))
}

/// The state and action of a connection that sends the response decided.
pub open spec fn respond(decision: DecisionView) -> (State, ActionView) {
    (
        State::Responding(decision.status),
        ActionView::Respond { head: head(decision), file: decision.file },
    )
}

/// The state and action that follow once the header `progress` holds a read
/// of at most `PROBE_SIZE` bytes: another read while the header is
/// incomplete; the drain once it is complete and valid UTF-8; the end of
/// the connection otherwise.
pub open spec fn after_read(progress: Progress) -> (State, ActionView) {
    match progress.state {
        ReadState::Reading => (State::Reading(progress), ActionView::Read(PROBE_SIZE)),
        ReadState::Found => if valid_utf8(progress.bytes) {
            (
                State::EnteringDrain(route_of(first_line(progress.bytes))),
                ActionView::SetNonBlocking(true),
            )
        } else {
            close(Outcome::Aborted(Abort::NotText))
        },
        ReadState::TooLong => close(Outcome::Aborted(Abort::HeaderTooLong)),
        ReadState::Closed => close(Outcome::Aborted(Abort::PeerClosed)),
    }
}

/// The state and action that follow once the drain is over: the wait on the
/// slow route, the question whether the file exists on a route to a file,
/// and the not-found response on a route that is not served.
pub open spec fn after_drain(route: RouteView) -> (State, ActionView) {
    match route {
        RouteView::Sleep => (State::Sleeping, ActionView::Sleep(SLEEP_SECONDS)),
        RouteView::File(_) => (State::Probing(route), ActionView::Probe(candidate(route).unwrap())),
        RouteView::Unsupported => respond(decide(route, false)),
    }
}

/// The state that follows `state` on `event`, and the action to take. An
/// event that answers no action asked for ends the connection, as does a
/// failure; a connection that has ended stays as it is.
pub open spec fn next(state: State, event: EventView) -> (State, ActionView) {
    match (state, event) {
        (State::Closed(outcome), _) => close(outcome),
        (_, EventView::Failed) => close(Outcome::Aborted(Abort::Failed)),
        (State::Reading(progress), EventView::Data(chunk)) => if chunk.len() <= PROBE_SIZE {
            after_read(after_chunk(progress, chunk))
        } else {
            close(Outcome::Aborted(Abort::OutOfTurn))
        },
        (State::EnteringDrain(route), EventView::Done) => (
            State::Draining(route),
            ActionView::Read(PROBE_SIZE),
        ),
        (State::Draining(route), EventView::Data(chunk)) => if chunk.len() > 0 {
            (State::Draining(route), ActionView::Read(PROBE_SIZE))
        } else {
            (State::LeavingDrain(route), ActionView::SetNonBlocking(false))
        },
        (State::Draining(route), EventView::WouldBlock) => (
            State::LeavingDrain(route),
            ActionView::SetNonBlocking(false),
        ),
        (State::LeavingDrain(route), EventView::Done) => after_drain(route),
        (State::Sleeping, EventView::Done) => (
            State::Probing(RouteView::Sleep),
            ActionView::Probe(index_document()),
        ),
        (State::Probing(route), EventView::Exists(present)) => respond(decide(route, present)),
        (State::Responding(status), EventView::Done) => close(Outcome::Served(status)),
        _ => close(Outcome::Aborted(Abort::OutOfTurn)),
    }
}

/// Not proved: whether `core::str::from_utf8` accepts `bytes`. The contract
/// claims that it accepts exactly the byte strings that are valid UTF-8.
#[verifier::external_body]
fn is_utf8(bytes: &[u8]) -> (valid: bool)
    ensures
        valid == valid_utf8(bytes@),
{
    core::str::from_utf8(bytes).is_ok()
}

/// The handling of one connection.
pub enum Connection {
    Reading(HeaderReader),
    EnteringDrain(Route),
    Draining(Route),
    LeavingDrain(Route),
    Sleeping,
    Probing(Route),
    Responding(Status),
    Closed(Outcome),
}

impl View for Connection {
    type V = State;

    open spec fn view(&self) -> State {
        match self {
            Connection::Reading(reader) => State::Reading(reader@),
            Connection::EnteringDrain(route) => State::EnteringDrain(route@),
            Connection::Draining(route) => State::Draining(route@),
            Connection::LeavingDrain(route) => State::LeavingDrain(route@),
            Connection::Sleeping => State::Sleeping,
            Connection::Probing(route) => State::Probing(route@),
            Connection::Responding(status) => State::Responding(*status),
            Connection::Closed(outcome) => State::Closed(*outcome),
        }
    }
}

impl Connection {
    /// A connection that was just accepted, and its first action: a read.
    pub fn begin() -> (first: (Connection, Action))
        ensures
            (first.0@, first.1@) == begin(),
    {
        (Connection::Reading(HeaderReader::new()), Action::Read(PROBE_SIZE))
    }

    /// The connection that ends with `outcome`, and the action that closes it.
    fn closing(outcome: Outcome) -> (last: (Connection, Action))
        ensures
            (last.0@, last.1@) == close(outcome),
    {
        (Connection::Closed(outcome), Action::Close(outcome))
    }

    /// The connection that sends the response decided, and the action that sends it.
    fn responding(decision: Decision) -> (then: (Connection, Action))
        ensures
            (then.0@, then.1@) == respond(decision@),
    {
        let head = response_head(&decision);
        (Connection::Responding(decision.status), Action::Respond { head, file: decision.file })
    }

    /// Takes in what happened and says what to do next.
    pub fn step(self, event: Event) -> (then: (Connection, Action))
        ensures
            (then.0@, then.1@) == next(self@, event@),
    {
        match (self, event) {
            (Connection::Closed(outcome), _) => Self::closing(outcome),
            (_, Event::Failed) => Self::closing(Outcome::Aborted(Abort::Failed)),
            (Connection::Reading(reader), Event::Data(chunk)) => {
                if chunk.len() <= PROBE_SIZE {
                    let mut reader = reader;
                    match reader.feed(chunk.as_slice()) {
                        ReadState::Reading => (Connection::Reading(reader), Action::Read(PROBE_SIZE)),
                        ReadState::Found => {
                            if is_utf8(reader.bytes()) {
                                (
                                    Connection::EnteringDrain(route(request_line(reader.bytes()))),
                                    Action::SetNonBlocking(true),
                                )
                            } else {
                                Self::closing(Outcome::Aborted(Abort::NotText))
                            }
                        },
                        ReadState::TooLong => Self::closing(Outcome::Aborted(Abort::HeaderTooLong)),
                        ReadState::Closed => Self::closing(Outcome::Aborted(Abort::PeerClosed)),
                    }
                } else {
                    Self::closing(Outcome::Aborted(Abort::OutOfTurn))
                }
            },
            (Connection::EnteringDrain(route), Event::Done) => (
                Connection::Draining(route),
                Action::Read(PROBE_SIZE),
            ),
            (Connection::Draining(route), Event::Data(chunk)) => {
                if chunk.len() > 0 {
                    (Connection::Draining(route), Action::Read(PROBE_SIZE))
                } else {
                    (Connection::LeavingDrain(route), Action::SetNonBlocking(false))
                }
            },
            (Connection::Draining(route), Event::WouldBlock) => (
                Connection::LeavingDrain(route),
                Action::SetNonBlocking(false),
            ),
            (Connection::LeavingDrain(route), Event::Done) => {
                match candidate_of(&route) {
                    None => Self::responding(decision(&route, false)),
                    Some(file) => match route {
                        Route::Sleep => (Connection::Sleeping, Action::Sleep(SLEEP_SECONDS)),
                        _ => (Connection::Probing(route), Action::Probe(file)),
                    },
                }
            },
            (Connection::Sleeping, Event::Done) => (
                Connection::Probing(Route::Sleep),
                Action::Probe(index_file()),
            ),
            (Connection::Probing(route), Event::Exists(present)) => Self::responding(
                decision(&route, present),
            ),
            (Connection::Responding(status), Event::Done) => Self::closing(
                Outcome::Served(status),
            ),
            _ => Self::closing(Outcome::Aborted(Abort::OutOfTurn)),
        }
    }
}

/// The state of a connection that was just accepted, and its first action.
pub open spec fn begin() -> (State, ActionView) {
    (State::Reading(start()), ActionView::Read(PROBE_SIZE))
}

/// The state and action that follow `from` after `events`, taken in order.
pub open spec fn run(from: (State, ActionView), events: Seq<EventView>) -> (State, ActionView)
    decreases events.len(),
{
    if events.len() == 0 {
        from
    } else {
        next(run(from, events.drop_last()).0, events.last())
    }
}

/// The events that report the reads `chunks`, in order.
pub open spec fn reads(chunks: Seq<Seq<u8>>) -> Seq<EventView> {
    Seq::new(chunks.len(), |i: int| EventView::Data(chunks[i]))
}

/// The events that settle the response once the drain is over: on the slow
/// route the end of the wait, and on every route that is served the answer
/// to the question whether the file exists.
pub open spec fn settles(route: RouteView, present: bool) -> Seq<EventView> {
    match route {
        RouteView::Sleep => seq![EventView::Done, EventView::Exists(present)],
        RouteView::File(_) => seq![EventView::Exists(present)],
        RouteView::Unsupported => Seq::empty(),
    }
}

/// Events taken one after the other lead where they lead taken together.
pub proof fn lemma_run_concat(from: (State, ActionView), first: Seq<EventView>, then: Seq<EventView>)
    ensures
        run(from, first + then) == run(run(from, first), then),
    decreases then.len(),
{
    if then.len() == 0 {
        assert(first + then =~= first);
    } else {
        assert((first + then).drop_last() =~= first + then.drop_last());
        lemma_run_concat(from, first, then.drop_last());
    }
}

/// One more event leads one step further.
pub proof fn lemma_run_push(from: (State, ActionView), events: Seq<EventView>, event: EventView)
    ensures
        run(from, events.push(event)) == next(run(from, events).0, event),
{
    assert(events.push(event).drop_last() =~= events);
}

/// While the header is incomplete, the connection holds what its reader
/// holds and asks for another read.
proof fn lemma_still_reading(chunks: Seq<Seq<u8>>)
    requires
        forall|i: int| 0 <= i < chunks.len() ==> chunks[i].len() <= PROBE_SIZE,
        after_chunks(chunks).state == ReadState::Reading,
    ensures
        run(begin(), reads(chunks)) == (
            State::Reading(after_chunks(chunks)),
            ActionView::Read(PROBE_SIZE),
        ),
    decreases chunks.len(),
{
    if chunks.len() > 0 {
        let shorter = chunks.drop_last();
        assert(reads(chunks).drop_last() =~= reads(shorter));
        lemma_still_reading(shorter);
    }
}

/// Fed the reads of a header up to the one that settles it, a connection
/// is where the reader's progress puts it: it reads on while the reader is
/// `Reading`, enters the drain when the reader is `Found` and the header
/// is valid UTF-8, and is closed otherwise.
pub proof fn lemma_header_is_read(chunks: Seq<Seq<u8>>)
    requires
        chunks.len() > 0,
        forall|i: int| 0 <= i < chunks.len() ==> chunks[i].len() <= PROBE_SIZE,
        after_chunks(chunks.drop_last()).state == ReadState::Reading,
    ensures
        run(begin(), reads(chunks)) == after_read(after_chunks(chunks)),
{
    let shorter = chunks.drop_last();
    assert(reads(chunks).drop_last() =~= reads(shorter));
    lemma_still_reading(shorter);
}

/// The drain ends with the first read that finds nothing, and leads to
/// what the route asks for.
pub proof fn lemma_drain(route: RouteView, drained: Seq<Seq<u8>>, stop: EventView)
    requires
        forall|i: int| 0 <= i < drained.len() ==> drained[i].len() > 0,
        stop == EventView::WouldBlock || stop == EventView::Data(Seq::empty()),
    ensures
        run(
            (State::EnteringDrain(route), ActionView::SetNonBlocking(true)),
            seq![EventView::Done] + reads(drained) + seq![stop, EventView::Done],
        ) == after_drain(route),
{
    let from = (State::EnteringDrain(route), ActionView::SetNonBlocking(true));
    let entered = (State::Draining(route), ActionView::Read(PROBE_SIZE));
    assert(run(from, seq![EventView::Done]) == entered) by {
        lemma_run_push(from, Seq::empty(), EventView::Done);
        assert(Seq::<EventView>::empty().push(EventView::Done) =~= seq![EventView::Done]);
    }
    lemma_draining(route, drained);
    lemma_run_concat(from, seq![EventView::Done], reads(drained));
    let left = (State::LeavingDrain(route), ActionView::SetNonBlocking(false));
    assert(run(entered, seq![stop, EventView::Done]) == after_drain(route)) by {
        lemma_run_push(entered, Seq::empty(), stop);
        lemma_run_push(entered, seq![stop], EventView::Done);
        assert(Seq::<EventView>::empty().push(stop) =~= seq![stop]);
        assert(seq![stop].push(EventView::Done) =~= seq![stop, EventView::Done]);
        assert(run(entered, seq![stop]) == left);
    }
    lemma_run_concat(from, seq![EventView::Done] + reads(drained), seq![stop, EventView::Done]);
}

/// Reads that find bytes keep the drain going.
proof fn lemma_draining(route: RouteView, drained: Seq<Seq<u8>>)
    requires
        forall|i: int| 0 <= i < drained.len() ==> drained[i].len() > 0,
    ensures
        run((State::Draining(route), ActionView::Read(PROBE_SIZE)), reads(drained)) == (
            State::Draining(route),
            ActionView::Read(PROBE_SIZE),
        ),
    decreases drained.len(),
{
    if drained.len() > 0 {
        assert(reads(drained).drop_last() =~= reads(drained.drop_last()));
        lemma_draining(route, drained.drop_last());
    }
}

/// Once the drain is over, the response that is sent is the one decided
/// for the route, given whether its candidate file exists.
pub proof fn lemma_settled(route: RouteView, present: bool)
    ensures
        run(after_drain(route), settles(route, present)) == respond(decide(route, present)),
{
    let from = after_drain(route);
    match route {
        RouteView::Sleep => {
            lemma_run_push(from, Seq::empty(), EventView::Done);
            lemma_run_push(from, seq![EventView::Done], EventView::Exists(present));
            assert(Seq::<EventView>::empty().push(EventView::Done) =~= seq![EventView::Done]);
            assert(seq![EventView::Done].push(EventView::Exists(present)) =~= settles(
                route,
                present,
            ));
        },
        RouteView::File(_) => {
            lemma_run_push(from, Seq::empty(), EventView::Exists(present));
            assert(Seq::<EventView>::empty().push(EventView::Exists(present)) =~= settles(
                route,
                present,
            ));
        },
        RouteView::Unsupported => {},
    }
}

/// On the slow route nothing is sent before the wait is over: the route
/// leads to a wait of `SLEEP_SECONDS`, and while the connection waits no
/// event but the end of the wait leads on, and none to a response.
pub proof fn lemma_slow_route_waits(event: EventView)
    ensures
        after_drain(RouteView::Sleep) == (State::Sleeping, ActionView::Sleep(SLEEP_SECONDS)),
        SLEEP_SECONDS == 5,
        !(next(State::Sleeping, event).1 is Respond),
        !(next(State::Sleeping, event).0 is Closed) ==> event == EventView::Done,
{
}

/// A whole exchange. The header arrives in reads of at most `PROBE_SIZE`
/// bytes, the last of which completes it, and is valid UTF-8; the drain
/// reads what else there is; where the route is served, it is reported
/// whether its candidate file exists. Then the response sent is the answer
/// to the header, and once it is written the connection closes as served
/// with the status of that answer.
pub proof fn lemma_exchange(
    chunks: Seq<Seq<u8>>,
    drained: Seq<Seq<u8>>,
    stop: EventView,
    present: bool,
)
    requires
        chunks.len() > 0,
        forall|i: int| 0 <= i < chunks.len() ==> chunks[i].len() <= PROBE_SIZE,
        after_chunks(chunks.drop_last()).state == ReadState::Reading,
        after_chunks(chunks).state == ReadState::Found,
        valid_utf8(after_chunks(chunks).bytes),
        forall|i: int| 0 <= i < drained.len() ==> drained[i].len() > 0,
        stop == EventView::WouldBlock || stop == EventView::Data(Seq::empty()),
    ensures
        ({
            let header = after_chunks(chunks).bytes;
            let events = reads(chunks) + (seq![EventView::Done] + reads(drained) + seq![
                stop,
                EventView::Done,
            ]) + settles(route_of(first_line(header)), present);
            &&& run(begin(), events) == respond(answer(header, present))
            &&& run(begin(), events.push(EventView::Done)) == close(
                Outcome::Served(answer(header, present).status),
            )
        }),
{
    let header = after_chunks(chunks).bytes;
    let route = route_of(first_line(header));
    let draining = seq![EventView::Done] + reads(drained) + seq![stop, EventView::Done];
    let events = reads(chunks) + draining + settles(route, present);
    lemma_header_is_read(chunks);
    lemma_drain(route, drained, stop);
    lemma_settled(route, present);
    lemma_run_concat(begin(), reads(chunks), draining);
    lemma_run_concat(begin(), reads(chunks) + draining, settles(route, present));
    lemma_run_push(begin(), events, EventView::Done);
}


} // verus!
