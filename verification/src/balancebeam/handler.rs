//! The protocol of one client connection, as a state machine. The machine
//! touches no socket: it is told what happened on the sockets and says what
//! to do next.

use crate::balancebeam::message::{bytes, copy_bytes};
use crate::balancebeam::request;
use crate::balancebeam::request::{Request, RequestData, extend_header_value, extended_headers, request_bytes};
use crate::balancebeam::response;
use crate::balancebeam::response::{Response, ResponseData, error_response, make_http_error, response_bytes};
use vstd::prelude::*;

verus! {

/// Status `400 Bad Request`.
pub const BAD_REQUEST: u16 = 400;

/// Status `413 Payload Too Large`.
pub const PAYLOAD_TOO_LARGE: u16 = 413;

/// Status `502 Bad Gateway`.
pub const BAD_GATEWAY: u16 = 502;

/// Status `503 Service Unavailable`.
pub const SERVICE_UNAVAILABLE: u16 = 503;

/// The status that tells a client of `failure`: 413 for a body over the
/// limit, 503 for a failure of the connection, 400 for the rest.
pub open spec fn status_of(failure: request::Failure) -> u16 {
    match failure {
        request::Failure::IncompleteRequest(_) => BAD_REQUEST,
        request::Failure::HeadTooLarge => BAD_REQUEST,
        request::Failure::TooManyHeaders => BAD_REQUEST,
        request::Failure::MalformedRequest => BAD_REQUEST,
        request::Failure::InvalidContentLength => BAD_REQUEST,
        request::Failure::ContentLengthMismatch => BAD_REQUEST,
        request::Failure::RequestBodyTooLarge => PAYLOAD_TOO_LARGE,
        request::Failure::ConnectionError => SERVICE_UNAVAILABLE,
    }
}

/// The status that tells a client of `error`.
pub fn status_for(error: &request::Error) -> (status: u16)
    ensures
        status == status_of(error@),
{
    match error {
        request::Error::IncompleteRequest(_) => BAD_REQUEST,
        request::Error::HeadTooLarge => BAD_REQUEST,
        request::Error::TooManyHeaders => BAD_REQUEST,
        request::Error::MalformedRequest(_) => BAD_REQUEST,
        request::Error::InvalidContentLength => BAD_REQUEST,
        request::Error::ContentLengthMismatch => BAD_REQUEST,
        request::Error::RequestBodyTooLarge => PAYLOAD_TOO_LARGE,
        request::Error::ConnectionError(_) => SERVICE_UNAVAILABLE,
    }
}

/// Where a connection stands.
pub enum State {
    /// The next request of the client is awaited.
    AwaitingRequest,
    /// An upstream is sought for `request`; this is attempt number
    /// `attempts` to forward it.
    SelectingUpstream { request: Request, attempts: usize },
    /// `request` is being written to `upstream`.
    Forwarding { request: Request, attempts: usize, upstream: usize },
    /// The response of `upstream` is awaited.
    AwaitingResponse { request: Request, attempts: usize, upstream: usize },
    /// A response is being written to the client; `close_after` says that
    /// the connection ends with it.
    RelayingResponse { close_after: bool },
    /// The connection is over.
    Closed,
}

/// What happened on the sockets.
pub enum Event {
    /// The attempt to read a request from the client ended like this.
    RequestRead(Result<Request, request::Error>),
    /// The upstream with this index took the connection.
    UpstreamConnected(usize),
    /// No upstream is left to connect to.
    NoUpstreamAvailable,
    /// The request was written to the upstream.
    RequestForwarded,
    /// Writing the request to the upstream failed.
    ForwardFailed,
    /// The upstream answered with this response.
    ResponseRead(Response),
    /// Reading the response failed or took too long.
    ResponseFailed,
    /// The response was written to the client.
    ResponseRelayed,
    /// Writing to the client failed.
    ClientWriteFailed,
}

/// What to do next on the sockets.
pub enum Action {
    /// Read the next request from the client.
    ReadRequest,
    /// Connect to an upstream that the pool selects.
    ConnectUpstream,
    /// Write `bytes`, the request, to the upstream `upstream`.
    ForwardRequest { upstream: usize, bytes: Vec<u8> },
    /// Read the response of `upstream` to a request with this method.
    ReadResponse { upstream: usize, method: Vec<u8> },
    /// Write `bytes`, a response, to the client.
    SendToClient { bytes: Vec<u8> },
    /// Close the connection.
    Close,
}

/// The answer of the machine to an event: the upstream to mark dead, if
/// any, and what to do next.
pub struct Reaction {
    pub mark_dead: Option<usize>,
    pub action: Action,
}

/// A `State` as mathematical data.
pub ghost enum StateData {
    AwaitingRequest,
    SelectingUpstream { request: RequestData, attempts: nat },
    Forwarding { request: RequestData, attempts: nat, upstream: usize },
    AwaitingResponse { request: RequestData, attempts: nat, upstream: usize },
    RelayingResponse { close_after: bool },
    Closed,
}

/// An `Event` as mathematical data.
pub ghost enum EventData {
    RequestRead(Result<RequestData, request::Failure>),
    UpstreamConnected(usize),
    NoUpstreamAvailable,
    RequestForwarded,
    ForwardFailed,
    ResponseRead(ResponseData),
    ResponseFailed,
    ResponseRelayed,
    ClientWriteFailed,
}

/// An `Action` as mathematical data.
pub ghost enum ActionData {
    ReadRequest,
    ConnectUpstream,
    ForwardRequest { upstream: usize, bytes: Seq<u8> },
    ReadResponse { upstream: usize, method: Seq<u8> },
    SendToClient { bytes: Seq<u8> },
    Close,
}

/// A `Reaction` as mathematical data.
pub ghost struct ReactionData {
    pub mark_dead: Option<usize>,
    pub action: ActionData,
}

impl View for State {
    type V = StateData;

    open spec fn view(&self) -> StateData {
        match self {
            State::AwaitingRequest => StateData::AwaitingRequest,
            State::SelectingUpstream { request, attempts } => StateData::SelectingUpstream {
                request: request@,
                attempts: *attempts as nat,
            },
            State::Forwarding { request, attempts, upstream } => StateData::Forwarding {
                request: request@,
                attempts: *attempts as nat,
                upstream: *upstream,
            },
            State::AwaitingResponse { request, attempts, upstream } => StateData::AwaitingResponse {
                request: request@,
                attempts: *attempts as nat,
                upstream: *upstream,
            },
            State::RelayingResponse { close_after } => StateData::RelayingResponse {
                close_after: *close_after,
            },
            State::Closed => StateData::Closed,
        }
    }
}

impl View for Event {
    type V = EventData;

    open spec fn view(&self) -> EventData {
        match self {
            Event::RequestRead(Ok(request)) => EventData::RequestRead(Ok(request@)),
            Event::RequestRead(Err(error)) => EventData::RequestRead(Err(error@)),
            Event::UpstreamConnected(upstream) => EventData::UpstreamConnected(*upstream),
            Event::NoUpstreamAvailable => EventData::NoUpstreamAvailable,
            Event::RequestForwarded => EventData::RequestForwarded,
            Event::ForwardFailed => EventData::ForwardFailed,
            Event::ResponseRead(response) => EventData::ResponseRead(response@),
            Event::ResponseFailed => EventData::ResponseFailed,
            Event::ResponseRelayed => EventData::ResponseRelayed,
            Event::ClientWriteFailed => EventData::ClientWriteFailed,
        }
    }
}

impl View for Action {
    type V = ActionData;

    open spec fn view(&self) -> ActionData {
        match self {
            Action::ReadRequest => ActionData::ReadRequest,
            Action::ConnectUpstream => ActionData::ConnectUpstream,
            Action::ForwardRequest { upstream, bytes } => ActionData::ForwardRequest {
                upstream: *upstream,
                bytes: bytes@,
            },
            Action::ReadResponse { upstream, method } => ActionData::ReadResponse {
                upstream: *upstream,
                method: method@,
            },
            Action::SendToClient { bytes } => ActionData::SendToClient { bytes: bytes@ },
            Action::Close => ActionData::Close,
        }
    }
}

impl View for Reaction {
    type V = ReactionData;

    open spec fn view(&self) -> ReactionData {
        ReactionData { mark_dead: self.mark_dead, action: self.action@ }
    }
}

/// The header that carries the addresses a request came through:
/// `x-forwarded-for`.
pub open spec fn forwarded_for() -> Seq<u8> {
    bytes("x-forwarded-for")
}

/// `request` with the client's address added to `x-forwarded-for`.
pub open spec fn with_client(request: RequestData, client_ip: Seq<u8>) -> RequestData {
    RequestData {
        headers: extended_headers(request.headers, forwarded_for(), client_ip),
        ..request
    }
}

/// Nothing to mark dead, and `action` to do.
pub open spec fn only(action: ActionData) -> ReactionData {
    ReactionData { mark_dead: None, action }
}

/// The reaction that sends the error response for `status` to the client.
pub open spec fn send_error(status: u16) -> ActionData {
    ActionData::SendToClient { bytes: response_bytes(error_response(status)) }
}

/// What follows when attempt number `attempts` to forward `request` has
/// failed: the next attempt while fewer than `max_retries` were made, and
/// `502 Bad Gateway` and the end of the connection after that.
pub open spec fn after_failure(
    request: RequestData,
    attempts: nat,
    max_retries: nat,
    mark_dead: Option<usize>,
) -> (StateData, ReactionData) {
    if attempts < max_retries {
        (
            StateData::SelectingUpstream { request, attempts: attempts + 1 },
            ReactionData { mark_dead, action: ActionData::ConnectUpstream },
        )
    } else {
        (
            StateData::RelayingResponse { close_after: true },
            ReactionData { mark_dead, action: send_error(BAD_GATEWAY) },
        )
    }
}

/// The end of the connection.
pub open spec fn closing() -> (StateData, ReactionData) {
    (StateData::Closed, only(ActionData::Close))
}

/// The transition of the machine: the state that follows `state` on
/// `event`, and the reaction. `client_ip` is the address of the client and
/// `max_retries` the number of attempts that one request is given, which is
/// the number of upstreams.
///
/// * A request that was read gets the address of the client added to
///   `x-forwarded-for` and goes to an upstream; the request is forwarded,
///   the response awaited and relayed, and the next request read.
/// * A client that is done is let go without a response. A request that
///   cannot be read is answered with the status of the failure; the
///   connection goes on after that, unless it was the connection that
///   failed.
/// * An upstream that fails while the request is written or the response
///   read is marked dead, and the request goes to another one, as long as
///   the budget lasts. When no upstream is left or the budget is used up,
///   the client gets `502 Bad Gateway`, and the connection ends.
/// * When writing to the client fails, the connection ends.
/// * An event that cannot come in `state` ends the connection.
pub open spec fn next(state: StateData, event: EventData, client_ip: Seq<u8>, max_retries: nat) -> (
    StateData,
    ReactionData,
) {
    match state {
        StateData::AwaitingRequest => match event {
            EventData::RequestRead(Ok(request)) => after_failure(
                with_client(request, client_ip),
                0,
                max_retries,
                None,
            ),
            EventData::RequestRead(Err(failure)) => if failure == request::Failure::IncompleteRequest(0) {
                closing()
            } else {
                (
                    StateData::RelayingResponse {
                        close_after: failure == request::Failure::ConnectionError,
                    },
                    only(send_error(status_of(failure))),
                )
            },
            _ => closing(),
        },
        StateData::SelectingUpstream { request, attempts } => match event {
            EventData::UpstreamConnected(upstream) => (
                StateData::Forwarding { request, attempts, upstream },
                only(ActionData::ForwardRequest { upstream, bytes: request_bytes(request) }),
            ),
            EventData::NoUpstreamAvailable => after_failure(request, attempts, max_retries, None),
            _ => closing(),
        },
        StateData::Forwarding { request, attempts, upstream } => match event {
            EventData::RequestForwarded => (
                StateData::AwaitingResponse { request, attempts, upstream },
                only(ActionData::ReadResponse { upstream, method: request.method }),
            ),
            EventData::ForwardFailed => after_failure(request, attempts, max_retries, Some(upstream)),
            _ => closing(),
        },
        StateData::AwaitingResponse { request, attempts, upstream } => match event {
            EventData::ResponseRead(response) => (
                StateData::RelayingResponse { close_after: false },
                only(ActionData::SendToClient { bytes: response_bytes(response) }),
            ),
            EventData::ResponseFailed => after_failure(request, attempts, max_retries, Some(upstream)),
            _ => closing(),
        },
        StateData::RelayingResponse { close_after } => match event {
            EventData::ResponseRelayed => if close_after {
                closing()
            } else {
                (StateData::AwaitingRequest, only(ActionData::ReadRequest))
            },
            _ => closing(),
        },
        StateData::Closed => closing(),
    }
}

/// The number of the attempt that `state` is part of; 0 where no request is
/// being forwarded.
pub open spec fn attempts_of(state: StateData) -> nat {
    match state {
        StateData::SelectingUpstream { request, attempts } => attempts,
        StateData::Forwarding { request, attempts, upstream } => attempts,
        StateData::AwaitingResponse { request, attempts, upstream } => attempts,
        _ => 0,
    }
}

/// While a request is being forwarded, the attempt has a number from 1 to
/// `max_retries`.
pub open spec fn within_budget(state: StateData, max_retries: nat) -> bool {
    match state {
        StateData::SelectingUpstream { request, attempts } => 1 <= attempts <= max_retries,
        StateData::Forwarding { request, attempts, upstream } => 1 <= attempts <= max_retries,
        StateData::AwaitingResponse { request, attempts, upstream } => 1 <= attempts <= max_retries,
        _ => true,
    }
}

/// One client connection.
pub struct ConnectionHandler {
    client_ip: Vec<u8>,
    max_retries: usize,
    state: State,
}

impl ConnectionHandler {
    #[verifier::type_invariant]
    spec fn well_formed(self) -> bool {
        within_budget(self.state@, self.max_retries as nat)
    }

    /// The address of the client.
    pub closed spec fn client_ip(&self) -> Seq<u8> {
        self.client_ip@
    }

    /// The number of attempts that one request is given.
    pub closed spec fn max_retries(&self) -> nat {
        self.max_retries as nat
    }

    /// Where the connection stands.
    pub closed spec fn state(&self) -> StateData {
        self.state@
    }

    /// The handler of a connection that was just accepted from `client_ip`,
    /// with `max_retries` upstreams to try for each request. The first thing
    /// to do is to read a request.
    pub fn new(client_ip: &[u8], max_retries: usize) -> (handler: ConnectionHandler)
        ensures
            handler.client_ip() == client_ip@,
            handler.max_retries() == max_retries,
            handler.state() == StateData::AwaitingRequest,
    {
        ConnectionHandler {
            client_ip: copy_bytes(client_ip),
            max_retries,
            state: State::AwaitingRequest,
        }
    }

    /// Tells whether the connection is over.
    pub fn is_closed(&self) -> (r: bool)
        ensures
            r == (self.state() == StateData::Closed),
    {
        match &self.state {
            State::Closed => true,
            _ => false,
        }
    }

    /// Takes an event and says what to do next.
    pub fn step(self, event: Event) -> (r: (ConnectionHandler, Reaction))
        ensures
            (r.0.state(), r.1@) == next(
                self.state(),
                event@,
                self.client_ip(),
                self.max_retries(),
            ),
            r.0.client_ip() == self.client_ip(),
            r.0.max_retries() == self.max_retries(),
            within_budget(self.state(), self.max_retries()),
            within_budget(r.0.state(), self.max_retries()),
    {
        proof {
            use_type_invariant(&self);
        }
        let ConnectionHandler { client_ip, max_retries, state } = self;
        let (state, reaction) = match state {
            State::AwaitingRequest => match event {
                Event::RequestRead(Ok(request)) => {
                    let mut request = request;
                    extend_header_value(
                        &mut request,
                        "x-forwarded-for".as_bytes(),
                        client_ip.as_slice(),
                    );
                    retry(request, 0, max_retries, None)
                },
                Event::RequestRead(Err(error)) => match error {
                    request::Error::IncompleteRequest(0) => close(),
                    _ => {
                        let close_after: bool = match error {
                            request::Error::ConnectionError(_) => true,
                            _ => false,
                        };
                        let error_page = make_http_error(status_for(&error));
                        let mut bytes: Vec<u8> = Vec::new();
                        response::write_to_stream(&error_page, &mut bytes);
                        (
                            State::RelayingResponse { close_after },
                            Reaction { mark_dead: None, action: Action::SendToClient { bytes } },
                        )
                    },
                },
                _ => close(),
            },
            State::SelectingUpstream { request, attempts } => match event {
                Event::UpstreamConnected(upstream) => {
                    let mut bytes: Vec<u8> = Vec::new();
                    request::write_to_stream(&request, &mut bytes);
                    (
                        State::Forwarding { request, attempts, upstream },
                        Reaction {
                            mark_dead: None,
                            action: Action::ForwardRequest { upstream, bytes },
                        },
                    )
                },
                Event::NoUpstreamAvailable => retry(request, attempts, max_retries, None),
                _ => close(),
            },
            State::Forwarding { request, attempts, upstream } => match event {
                Event::RequestForwarded => {
                    let method = copy_bytes(request.method.as_slice());
                    (
                        State::AwaitingResponse { request, attempts, upstream },
                        Reaction {
                            mark_dead: None,
                            action: Action::ReadResponse { upstream, method },
                        },
                    )
                },
                Event::ForwardFailed => retry(request, attempts, max_retries, Some(upstream)),
                _ => close(),
            },
            State::AwaitingResponse { request, attempts, upstream } => match event {
                Event::ResponseRead(response) => {
                    let mut bytes: Vec<u8> = Vec::new();
                    response::write_to_stream(&response, &mut bytes);
                    (
                        State::RelayingResponse { close_after: false },
                        Reaction { mark_dead: None, action: Action::SendToClient { bytes } },
                    )
                },
                Event::ResponseFailed => retry(request, attempts, max_retries, Some(upstream)),
                _ => close(),
            },
            State::RelayingResponse { close_after } => match event {
                Event::ResponseRelayed => if close_after {
                    close()
                } else {
                    (State::AwaitingRequest, Reaction { mark_dead: None, action: Action::ReadRequest })
                },
                _ => close(),
            },
            State::Closed => close(),
        };
        (ConnectionHandler { client_ip, max_retries, state }, reaction)
    }
}

/// Ends the connection.
fn close() -> (r: (State, Reaction))
    ensures
        (r.0@, r.1@) == closing(),
{
    (State::Closed, Reaction { mark_dead: None, action: Action::Close })
}

/// Starts the next attempt to forward `request`, or gives up with `502 Bad
/// Gateway` when `attempts` have used up the budget of `max_retries`.
fn retry(request: Request, attempts: usize, max_retries: usize, mark_dead: Option<usize>) -> (r: (
    State,
    Reaction,
))
    requires
        attempts <= max_retries,
    ensures
        (r.0@, r.1@) == after_failure(request@, attempts as nat, max_retries as nat, mark_dead),
        within_budget(r.0@, max_retries as nat),
{
    if attempts < max_retries {
        (
            State::SelectingUpstream { request, attempts: attempts + 1 },
            Reaction { mark_dead, action: Action::ConnectUpstream },
        )
    } else {
        let error_page = make_http_error(BAD_GATEWAY);
        let mut bytes: Vec<u8> = Vec::new();
        response::write_to_stream(&error_page, &mut bytes);
        (
            State::RelayingResponse { close_after: true },
            Reaction { mark_dead, action: Action::SendToClient { bytes } },
        )
    }
}

/// A closed connection stays closed, whatever happens.
pub proof fn lemma_closed_is_final(event: EventData, client_ip: Seq<u8>, max_retries: nat)
    ensures
        next(StateData::Closed, event, client_ip, max_retries) == closing(),
{
}

/// The retry budget holds. No request is given more than `max_retries`
/// attempts: the number of the attempt stays between 1 and `max_retries`
/// while a request is being forwarded, every `ConnectUpstream` starts the
/// attempt with the next number, and nothing else changes the number while
/// the request is being forwarded.
pub proof fn lemma_retry_budget(
    state: StateData,
    event: EventData,
    client_ip: Seq<u8>,
    max_retries: nat,
)
    requires
        within_budget(state, max_retries),
    ensures
        within_budget(next(state, event, client_ip, max_retries).0, max_retries),
        next(state, event, client_ip, max_retries).1.action is ConnectUpstream ==> attempts_of(
            next(state, event, client_ip, max_retries).0,
        ) == attempts_of(state) + 1,
        !(next(state, event, client_ip, max_retries).1.action is ConnectUpstream) ==> attempts_of(
            next(state, event, client_ip, max_retries).0,
        ) == attempts_of(state) || attempts_of(next(state, event, client_ip, max_retries).0) == 0,
{
}

/// The request at hand is given up: there is no upstream at all when it is
/// read, or the last attempt that the budget allows fails.
pub open spec fn gives_up(state: StateData, event: EventData, max_retries: nat) -> bool {
    ||| max_retries == 0 && state is AwaitingRequest && event matches EventData::RequestRead(Ok(_))
    ||| attempts_of(state) == max_retries && {
        ||| state is SelectingUpstream && event is NoUpstreamAvailable
        ||| state is Forwarding && event is ForwardFailed
        ||| state is AwaitingResponse && event is ResponseFailed
    }
}

/// `502 Bad Gateway` is what a client gets when its request is given up,
/// and the connection ends with it. Apart from that the machine goes on to
/// close the connection after a response only when the connection failed
/// while a request was read.
pub proof fn lemma_bad_gateway(
    state: StateData,
    event: EventData,
    client_ip: Seq<u8>,
    max_retries: nat,
)
    requires
        within_budget(state, max_retries),
    ensures
        gives_up(state, event, max_retries) ==> {
            &&& next(state, event, client_ip, max_retries).0 == (StateData::RelayingResponse {
                close_after: true,
            })
            &&& next(state, event, client_ip, max_retries).1.action == send_error(BAD_GATEWAY)
        },
        next(state, event, client_ip, max_retries).0 == (StateData::RelayingResponse {
            close_after: true,
        }) ==> gives_up(state, event, max_retries) || (state is AwaitingRequest && event
            == EventData::RequestRead(Err(request::Failure::ConnectionError))),
{
}

/// An upstream is marked dead exactly when writing the request to it or
/// reading its response fails, and it is that upstream which is marked.
pub proof fn lemma_marked_dead(
    state: StateData,
    event: EventData,
    client_ip: Seq<u8>,
    max_retries: nat,
    upstream: usize,
)
    ensures
        next(state, event, client_ip, max_retries).1.mark_dead == Some(upstream) <==> {
            ||| state matches StateData::Forwarding { upstream: u, .. } && u == upstream
                && event is ForwardFailed
            ||| state matches StateData::AwaitingResponse { upstream: u, .. } && u == upstream
                && event is ResponseFailed
        },
{
}

/// No failure is dropped in silence. A request that cannot be read is
/// answered with the status of its failure, unless the client was simply
/// done, which closes the connection. A failure of an upstream leads to the
/// next attempt or to `502 Bad Gateway`. A failure to write to the client
/// closes the connection.
pub proof fn lemma_failures_are_answered(
    state: StateData,
    event: EventData,
    client_ip: Seq<u8>,
    max_retries: nat,
)
    ensures
        state is AwaitingRequest ==> (event matches EventData::RequestRead(Err(failure)) ==> {
            let reaction = next(state, event, client_ip, max_retries).1;
            if failure == request::Failure::IncompleteRequest(0) {
                reaction.action is Close
            } else {
                reaction.action == send_error(status_of(failure))
            }
        }),
        event is NoUpstreamAvailable || event is ForwardFailed || event is ResponseFailed ==> {
            let reaction = next(state, event, client_ip, max_retries).1;
            reaction.action is ConnectUpstream || reaction.action == send_error(BAD_GATEWAY)
                || reaction.action is Close
        },
        event is ClientWriteFailed ==> next(state, event, client_ip, max_retries) == closing(),
{
}

/// The number of times that the machine says `ConnectUpstream` while it
/// takes the events `events` from `state` on, up to the event that ends
/// the forwarding of the request at hand.
pub open spec fn connects(
    state: StateData,
    events: Seq<EventData>,
    client_ip: Seq<u8>,
    max_retries: nat,
) -> nat
    decreases events.len(),
{
    if events.len() == 0 {
        0
    } else {
        let (after, reaction) = next(state, events[0], client_ip, max_retries);
        if attempts_of(after) == 0 {
            0
        } else if reaction.action is ConnectUpstream {
            1 + connects(after, events.skip(1), client_ip, max_retries)
        } else {
            connects(after, events.skip(1), client_ip, max_retries)
        }
    }
}

/// Whatever happens, a request is given no more attempts than there are
/// upstreams: the attempts made and the connects still to come never add up
/// to more than `max_retries`.
pub proof fn lemma_connects_within_budget(
    state: StateData,
    events: Seq<EventData>,
    client_ip: Seq<u8>,
    max_retries: nat,
)
    requires
        within_budget(state, max_retries),
    ensures
        attempts_of(state) + connects(state, events, client_ip, max_retries) <= max_retries,
    decreases events.len(),
{
    if events.len() > 0 {
        let after = next(state, events[0], client_ip, max_retries).0;
        lemma_retry_budget(state, events[0], client_ip, max_retries);
        lemma_connects_within_budget(after, events.skip(1), client_ip, max_retries);
    }
}

} // verus!
