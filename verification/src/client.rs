//! The state of the connection to OpenChain.

use crate::error::SelectorError;
use vstd::prelude::*;

verus! {

/// How many requests can time out before the connection counts as spurious.
pub const MAX_TIMEDOUT_REQ: usize = 4;

/// What is known of a request that failed.
#[derive(Clone, Copy, Debug, PartialEq, Eq)]
pub struct RequestFailure {
    /// Whether the request timed out.
    pub timeout: bool,
    /// Whether no connection could be made.
    pub connect: bool,
    /// The HTTP status, if the server sent one that counts as an error.
    pub status: Option<u16>,
}

impl RequestFailure {
    /// Whether the failure lies with the connection or the server, so that it
    /// counts towards a spurious connection: a timeout, a failure to connect,
    /// or an HTTP status of the server error class.
    pub open spec fn connectivity(&self) -> bool {
        ||| self.timeout
        ||| self.connect
        ||| self.status matches Some(code) && 500 <= code < 600
    }

    /// Whether the failure counts towards a spurious connection.
    pub fn is_connectivity_err(&self) -> (res: bool)
        ensures
            res == self.connectivity(),
    {
        if self.timeout || self.connect {
            return true;
        }
        if let Some(code) = self.status {
            if 500 <= code && code < 600 {
                return true;
            }
        }
        false
    }
}

/// A client of OpenChain: what it has seen of its connection so far.
#[derive(Debug)]
pub struct OpenChainClient {
    /// Whether the connection is spurious, or the API is down.
    spurious_connection: bool,
    /// How many requests timed out.
    timedout_requests: usize,
    /// How many requests may time out.
    max_timedout_requests: usize,
}

/// What can happen to a connection. Nothing else that is done with a client
/// changes its state, so where several share one, its state is what the events
/// of all of them have made of it.
pub enum ConnectionEvent {
    /// A request failed: [`OpenChainClient::on_reqwest_err`].
    Failed(RequestFailure),
    /// The connection was marked: [`OpenChainClient::set_spurious`].
    Marked,
}

/// The state of an [`OpenChainClient`].
pub struct Connection {
    /// Whether the connection is spurious.
    pub spurious: bool,
    /// How many requests timed out. The count starts over at zero behind
    /// `usize::MAX`.
    pub timed_out: int,
    /// How many requests may time out.
    pub allowed: int,
}

impl Connection {
    /// The state once a request has failed with `failure`.
    pub open spec fn after(self, failure: RequestFailure) -> Connection {
        if failure.connectivity() {
            Connection {
                spurious: self.spurious || self.timed_out >= self.allowed,
                timed_out: if self.timed_out == usize::MAX {
                    0
                } else {
                    self.timed_out + 1
                },
                allowed: self.allowed,
            }
        } else {
            self
        }
    }

    /// The state once the connection has been marked as spurious.
    pub open spec fn marked(self) -> Connection {
        Connection { spurious: true, ..self }
    }

    /// The state once `events` have happened, one after the other.
    pub open spec fn through(self, events: Seq<ConnectionEvent>) -> Connection
        decreases events.len(),
    {
        if events.len() == 0 {
            self
        } else {
            let before = self.through(events.drop_last());
            match events.last() {
                ConnectionEvent::Failed(failure) => before.after(failure),
                ConnectionEvent::Marked => before.marked(),
            }
        }
    }

    /// The state once requests have failed with `failures`, one after the other.
    pub open spec fn after_all(self, failures: Seq<RequestFailure>) -> Connection
        decreases failures.len(),
    {
        if failures.len() == 0 {
            self
        } else {
            self.after_all(failures.drop_last()).after(failures.last())
        }
    }

    /// The state of a client that has not made any request.
    pub open spec fn fresh() -> Connection {
        Connection { spurious: false, timed_out: 0, allowed: MAX_TIMEDOUT_REQ as int }
    }
}

impl View for OpenChainClient {
    type V = Connection;

    closed spec fn view(&self) -> Connection {
        Connection {
            spurious: self.spurious_connection,
            timed_out: self.timedout_requests as int,
            allowed: self.max_timedout_requests as int,
        }
    }
}

impl OpenChainClient {
    /// Creates a new client with default settings.
    pub fn new() -> (res: Self)
        ensures
            res@ == Connection::fresh(),
    {
        OpenChainClient {
            spurious_connection: false,
            timedout_requests: 0,
            max_timedout_requests: MAX_TIMEDOUT_REQ,
        }
    }

    /// Takes note of a failed request. One failure of the connection more than
    /// allowed marks the connection as spurious.
    pub fn on_reqwest_err(&mut self, err: &RequestFailure)
        ensures
            final(self)@ == old(self)@.after(*err),
    {
        if err.is_connectivity_err() {
            let previous = self.timedout_requests;
            self.timedout_requests = previous.wrapping_add(1);
            if previous >= self.max_timedout_requests {
                self.set_spurious();
            }
        }
    }

    /// Returns whether the connection was marked as spurious.
    pub fn is_spurious(&self) -> (res: bool)
        ensures
            res == self@.spurious,
    {
        self.spurious_connection
    }

    /// Marks the connection as spurious.
    pub fn set_spurious(&mut self)
        ensures
            final(self)@ == old(self)@.marked(),
    {
        self.spurious_connection = true;
    }

    /// Fails on a spurious connection.
    pub fn ensure_not_spurious(&self) -> (res: Result<(), SelectorError>)
        ensures
            self@.spurious ==> res == Err::<(), SelectorError>(SelectorError::SpuriousConnection),
            !self@.spurious ==> res == Ok::<(), SelectorError>(()),
    {
        if self.is_spurious() {
            return Err(SelectorError::SpuriousConnection);
        }
        Ok(())
    }
}

/// How many of `failures` count towards a spurious connection.
pub open spec fn connectivity_failures(failures: Seq<RequestFailure>) -> nat
    decreases failures.len(),
{
    if failures.len() == 0 {
        0
    } else if failures.last().connectivity() {
        connectivity_failures(failures.drop_last()) + 1
    } else {
        connectivity_failures(failures.drop_last())
    }
}

/// The connection of a new client is spurious exactly if more failures of the
/// connection were noted than are allowed, whatever other failures came in
/// between.
pub proof fn law_spurious_after_too_many_failures(failures: Seq<RequestFailure>)
    ensures
        Connection::fresh().after_all(failures).spurious <==> connectivity_failures(failures)
            > MAX_TIMEDOUT_REQ,
        Connection::fresh().after_all(failures).allowed == MAX_TIMEDOUT_REQ,
        connectivity_failures(failures) <= usize::MAX ==> Connection::fresh().after_all(
            failures,
        ).timed_out == connectivity_failures(failures),
    decreases failures.len(),
{
    if failures.len() > 0 {
        law_spurious_after_too_many_failures(failures.drop_last());
    }
}

/// A connection that is spurious stays so, whatever happens after that.
pub proof fn law_spurious_is_final(state: Connection, events: Seq<ConnectionEvent>)
    requires
        state.spurious,
    ensures
        state.through(events).spurious,
    decreases events.len(),
{
    if events.len() > 0 {
        law_spurious_is_final(state, events.drop_last());
    }
}

/// A mark is never cleared: a connection that was marked at some point is
/// spurious, whatever happened before and after that.
pub proof fn law_mark_is_never_cleared(state: Connection, events: Seq<ConnectionEvent>, at: int)
    requires
        0 <= at < events.len(),
        events[at] is Marked,
    ensures
        state.through(events).spurious,
    decreases events.len(),
{
    if at < events.len() - 1 {
        law_mark_is_never_cleared(state, events.drop_last(), at);
    }
}

/// A failure that does not lie with the connection changes nothing.
pub proof fn law_other_failures_do_not_count(state: Connection, failure: RequestFailure)
    requires
        !failure.timeout,
        !failure.connect,
        failure.status matches Some(code) ==> code < 500 || 600 <= code,
    ensures
        state.after(failure) == state,
{
}

/// A failure counts exactly if it is a timeout, a failure to connect, or a
/// status of five hundred and up, below six hundred.
pub proof fn law_failures_that_count(failure: RequestFailure, res: bool)
    requires
        call_ensures(RequestFailure::is_connectivity_err, (&failure,), res),
    ensures
        res <==> {
            ||| failure.timeout
            ||| failure.connect
            ||| failure.status matches Some(code) && 500 <= code <= 599
        },
{
}

proof fn lemma_events(events: Seq<ConnectionEvent>)
    ensures
        ({
            let counted = events.filter(
                |event: ConnectionEvent|
                    event matches ConnectionEvent::Failed(failure) && {
                        ||| failure.timeout
                        ||| failure.connect
                        ||| failure.status matches Some(code) && 500 <= code <= 599
                    },
            );
            let state = Connection::fresh().through(events);
            &&& state.allowed == 4
            &&& 0 <= state.timed_out <= usize::MAX
            &&& counted.len() <= usize::MAX ==> state.timed_out == counted.len()
            &&& state.spurious <==> {
                ||| counted.len() > 4
                ||| exists|i: int| 0 <= i < events.len() && #[trigger] events[i] is Marked
            }
        }),
    decreases events.len(),
{
    reveal(Seq::filter);
    if events.len() > 0 {
        let less = events.drop_last();
        lemma_events(less);
        if exists|i: int| 0 <= i < less.len() && #[trigger] less[i] is Marked {
            let i = choose|i: int| 0 <= i < less.len() && #[trigger] less[i] is Marked;
            assert(events[i] is Marked);
        }
        if exists|i: int| 0 <= i < events.len() && #[trigger] events[i] is Marked {
            let i = choose|i: int| 0 <= i < events.len() && #[trigger] events[i] is Marked;
            if i < less.len() {
                assert(less[i] is Marked);
            } else {
                assert(events.last() is Marked);
            }
        }
        if events.last() is Marked {
            assert(events[events.len() - 1] is Marked);
        }
    }
}

/// The connection of a client that was new is spurious exactly if it was marked
/// or more than four failures counted: timeouts, failures to connect, and
/// statuses of five hundred to five hundred and ninety-nine. In what order these
/// came, and what came in between, makes no difference.
pub proof fn law_spurious_by_events(events: Seq<ConnectionEvent>)
    ensures
        ({
            let counted = events.filter(
                |event: ConnectionEvent|
                    event matches ConnectionEvent::Failed(failure) && {
                        ||| failure.timeout
                        ||| failure.connect
                        ||| failure.status matches Some(code) && 500 <= code <= 599
                    },
            );
            let state = Connection::fresh().through(events);
            &&& state.spurious <==> {
                ||| counted.len() > 4
                ||| exists|i: int| 0 <= i < events.len() && #[trigger] events[i] is Marked
            }
            &&& counted.len() <= usize::MAX ==> state.timed_out == counted.len()
        }),
{
    lemma_events(events);
}

/// Each failure is noted by itself: a connection that has gone through events
/// and then through another is in the state that this one makes of the state
/// before. A mark keeps the count, and a failure that counts adds one.
pub proof fn law_events_add_up(
    state: Connection,
    first: Seq<ConnectionEvent>,
    second: Seq<ConnectionEvent>,
    failure: RequestFailure,
)
    ensures
        state.through(first + second) == state.through(first).through(second),
        state.through(seq![ConnectionEvent::Failed(failure)]) == state.after(failure),
        state.through(seq![ConnectionEvent::Marked]) == state.marked(),
        state.marked().timed_out == state.timed_out,
        state.marked().allowed == state.allowed,
        state.after(failure).allowed == state.allowed,
        state.spurious ==> state.after(failure).spurious,
        failure.timeout && state.timed_out < usize::MAX ==> state.after(failure).timed_out
            == state.timed_out + 1,
        failure.timeout && state.timed_out == usize::MAX ==> state.after(failure).timed_out == 0,
        failure.timeout && state.timed_out >= state.allowed ==> state.after(failure).spurious,
        !state.spurious && state.timed_out < state.allowed ==> !state.after(failure).spurious,
    decreases second.len(),
{
    assert(state.through(Seq::<ConnectionEvent>::empty()) == state);
    assert(seq![ConnectionEvent::Failed(failure)].drop_last() =~= Seq::empty());
    assert(seq![ConnectionEvent::Marked].drop_last() =~= Seq::empty());
    if second.len() == 0 {
        assert(first + second =~= first);
    } else {
        law_events_add_up(state, first, second.drop_last(), failure);
        assert((first + second).drop_last() =~= first + second.drop_last());
    }
}

/// A new client has a connection that is not spurious, and will allow four
/// failures.
pub proof fn law_new_connection_is_good(
    client: OpenChainClient,
    spurious: bool,
    res: Result<(), SelectorError>,
)
    requires
        call_ensures(OpenChainClient::new, (), client),
        call_ensures(OpenChainClient::is_spurious, (&client,), spurious),
        call_ensures(OpenChainClient::ensure_not_spurious, (&client,), res),
    ensures
        !spurious,
        res is Ok,
        client@.timed_out == 0,
        client@.allowed == 4,
{
}

/// A connection is refused exactly if it is spurious.
pub proof fn law_spurious_connection_is_refused(
    client: OpenChainClient,
    spurious: bool,
    res: Result<(), SelectorError>,
)
    requires
        call_ensures(OpenChainClient::is_spurious, (&client,), spurious),
        call_ensures(OpenChainClient::ensure_not_spurious, (&client,), res),
    ensures
        spurious <==> client@.spurious,
        spurious ==> res == Err::<(), SelectorError>(SelectorError::SpuriousConnection),
        !spurious ==> res is Ok,
{
}

} // verus!
