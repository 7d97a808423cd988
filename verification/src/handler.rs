//! The per-connection handler, as a state machine: each network step the
//! runtime performs is an `Action` this module decided on, and its outcome
//! comes back as an `Event`. The `step` function holds the whole
//! read -> parse -> dispatch -> respond/relay discipline; the runtime around
//! it only moves bytes.

use vstd::prelude::*;

use crate::bytes::{bytes_eq, lower_bytes, lower_seq};
use crate::http::{parse_ok, spec_method, spec_path, Request};

verus! {

/// How a parsed request is dispatched: `CONNECT` opens a tunnel, anything
/// else is forwarded once.
#[derive(Clone, Copy, Debug, PartialEq, Eq, Structural)]
pub enum Route {
    Forward,
    Tunnel,
}

/// The error taxonomy: why a connection (or an admission) failed.
#[derive(Clone, Copy, Debug, PartialEq, Eq, Structural)]
pub enum ErrorKind {
    /// The request bytes did not parse.
    Parse,
    /// No free connection slot at accept time.
    Capacity,
    /// The upstream was unreachable or refused the connection.
    Connect,
    /// A timeout-bound operation exceeded its deadline.
    Timeout,
    /// A read or write on either socket failed.
    Io,
}

/// How a connection ended.
#[derive(Clone, Copy, Debug, PartialEq, Eq, Structural)]
pub enum Outcome {
    /// The client closed before sending anything; not an error.
    EmptyRequest,
    /// A response was forwarded to the client.
    Responded,
    /// The upstream returned no bytes; nothing was forwarded.
    NoResponse,
    /// A tunnel ran and ended (by either side closing or failing).
    TunnelClosed,
    /// The connection was torn down on an error.
    Failed(ErrorKind),
}

/// The phase a connection is in.
#[derive(Debug, PartialEq, Eq)]
pub enum HandlerState {
    /// Waiting for the one bounded read from the client.
    Reading,
    /// Waiting for the upstream connection to open.
    Connecting { raw: Vec<u8>, route: Route },
    /// Waiting for the raw request bytes to reach the upstream.
    SendingRequest,
    /// Waiting for the one bounded read from the upstream.
    AwaitingResponse,
    /// Waiting for the response bytes to reach the client.
    SendingResponse,
    /// Waiting for the tunnel handshake line to reach the client.
    SendingEstablished,
    /// The bidirectional relay is running.
    Relaying,
    /// The connection is over; the permit must be released.
    Closed(Outcome),
}

/// Mathematical model of `HandlerState`.
pub enum StateModel {
    Reading,
    Connecting { raw: Seq<u8>, route: Route },
    SendingRequest,
    AwaitingResponse,
    SendingResponse,
    SendingEstablished,
    Relaying,
    Closed(Outcome),
}

impl View for HandlerState {
    type V = StateModel;

    open spec fn view(&self) -> StateModel {
        match self {
            HandlerState::Reading => StateModel::Reading,
            HandlerState::Connecting { raw, route } => StateModel::Connecting {
                raw: raw@,
                route: *route,
            },
            HandlerState::SendingRequest => StateModel::SendingRequest,
            HandlerState::AwaitingResponse => StateModel::AwaitingResponse,
            HandlerState::SendingResponse => StateModel::SendingResponse,
            HandlerState::SendingEstablished => StateModel::SendingEstablished,
            HandlerState::Relaying => StateModel::Relaying,
            HandlerState::Closed(o) => StateModel::Closed(*o),
        }
    }
}

/// The outcome of the action the runtime last performed.
#[derive(Debug, PartialEq, Eq)]
pub enum Event {
    /// A read from the client finished with these bytes (empty on EOF).
    ClientData(Vec<u8>),
    /// The upstream connection opened.
    Connected,
    /// The pending write finished.
    Wrote,
    /// A read from the upstream finished with these bytes (empty on EOF).
    UpstreamData(Vec<u8>),
    /// The bidirectional relay ended with both directions done.
    TunnelDone,
    /// The pending timeout-bound operation exceeded its deadline.
    TimedOut,
    /// The pending operation failed.
    Failed,
}

/// Mathematical model of `Event`.
pub enum EventModel {
    ClientData(Seq<u8>),
    Connected,
    Wrote,
    UpstreamData(Seq<u8>),
    TunnelDone,
    TimedOut,
    Failed,
}

impl View for Event {
    type V = EventModel;

    open spec fn view(&self) -> EventModel {
        match self {
            Event::ClientData(d) => EventModel::ClientData(d@),
            Event::Connected => EventModel::Connected,
            Event::Wrote => EventModel::Wrote,
            Event::UpstreamData(d) => EventModel::UpstreamData(d@),
            Event::TunnelDone => EventModel::TunnelDone,
            Event::TimedOut => EventModel::TimedOut,
            Event::Failed => EventModel::Failed,
        }
    }
}

/// What the runtime must do next. Every action except `RelayTunnel` and
/// `Shutdown` is bounded by the configured timeout.
#[derive(Debug, PartialEq, Eq)]
pub enum Action {
    /// One bounded read from the client.
    ReadClient,
    /// Open a connection to this target (a `host:port` or URL byte string).
    ConnectUpstream(Vec<u8>),
    /// Write these bytes to the upstream.
    SendUpstream(Vec<u8>),
    /// One bounded read from the upstream.
    RecvUpstream,
    /// Write these bytes to the client.
    SendClient(Vec<u8>),
    /// Copy bytes both ways until either side closes or fails.
    RelayTunnel,
    /// Close the sockets and release the permit.
    Shutdown,
}

/// Mathematical model of `Action`.
pub enum ActionModel {
    ReadClient,
    ConnectUpstream(Seq<u8>),
    SendUpstream(Seq<u8>),
    RecvUpstream,
    SendClient(Seq<u8>),
    RelayTunnel,
    Shutdown,
}

impl View for Action {
    type V = ActionModel;

    open spec fn view(&self) -> ActionModel {
        match self {
            Action::ReadClient => ActionModel::ReadClient,
            Action::ConnectUpstream(t) => ActionModel::ConnectUpstream(t@),
            Action::SendUpstream(d) => ActionModel::SendUpstream(d@),
            Action::RecvUpstream => ActionModel::RecvUpstream,
            Action::SendClient(d) => ActionModel::SendClient(d@),
            Action::RelayTunnel => ActionModel::RelayTunnel,
            Action::Shutdown => ActionModel::Shutdown,
        }
    }
}

/// The view of an optional byte string.
pub open spec fn opt_bytes_view(o: Option<Vec<u8>>) -> Option<Seq<u8>> {
    match o {
        Some(v) => Some(v@),
        None => None,
    }
}

/// The method token that opens a tunnel, lowercased.
pub open spec fn connect_bytes() -> Seq<u8> {
    seq!['c' as u8, 'o' as u8, 'n' as u8, 'n' as u8, 'e' as u8, 'c' as u8, 't' as u8]
}

/// The fixed fallback target used when no target is configured.
pub open spec fn fallback_target_bytes() -> Seq<u8> {
    seq!['h' as u8, 't' as u8, 't' as u8, 'p' as u8, 'b' as u8, 'i' as u8, 'n' as u8, '.' as u8, 'o' as u8, 'r' as u8, 'g' as u8, ':' as u8, '8' as u8, '0' as u8]
}

/// The literal handshake line a tunnel answers with.
pub open spec fn established_bytes() -> Seq<u8> {
    seq!['H' as u8, 'T' as u8, 'T' as u8, 'P' as u8, '/' as u8, '1' as u8, '.' as u8, '1' as u8, ' ' as u8, '2' as u8, '0' as u8, '0' as u8, ' ' as u8, 'C' as u8, 'o' as u8, 'n' as u8, 'n' as u8, 'e' as u8, 'c' as u8, 't' as u8, 'i' as u8, 'o' as u8, 'n' as u8, ' ' as u8, 'E' as u8, 's' as u8, 't' as u8, 'a' as u8, 'b' as u8, 'l' as u8, 'i' as u8, 's' as u8, 'h' as u8, 'e' as u8, 'd' as u8, 13, 10, 13, 10]
}

/// Builds the lowercased tunnel method token.
fn connect_word() -> (r: Vec<u8>)
    ensures
        r@ == connect_bytes(),
{
    let mut r: Vec<u8> = Vec::new();
    r.push('c' as u8);
    r.push('o' as u8);
    r.push('n' as u8);
    r.push('n' as u8);
    r.push('e' as u8);
    r.push('c' as u8);
    r.push('t' as u8);
    proof {
        assert(r@ =~= connect_bytes());
    }
    r
}

/// Builds the fixed fallback target.
fn fallback_target() -> (r: Vec<u8>)
    ensures
        r@ == fallback_target_bytes(),
{
    let mut r: Vec<u8> = Vec::new();
    r.push('h' as u8);
    r.push('t' as u8);
    r.push('t' as u8);
    r.push('p' as u8);
    r.push('b' as u8);
    r.push('i' as u8);
    r.push('n' as u8);
    r.push('.' as u8);
    r.push('o' as u8);
    r.push('r' as u8);
    r.push('g' as u8);
    r.push(':' as u8);
    r.push('8' as u8);
    r.push('0' as u8);
    proof {
        assert(r@ =~= fallback_target_bytes());
    }
    r
}

/// Builds the literal tunnel handshake line.
pub fn established_response() -> (r: Vec<u8>)
    ensures
        r@ == established_bytes(),
{
    let mut r: Vec<u8> = Vec::new();
    r.push('H' as u8);
    r.push('T' as u8);
    r.push('T' as u8);
    r.push('P' as u8);
    r.push('/' as u8);
    r.push('1' as u8);
    r.push('.' as u8);
    r.push('1' as u8);
    r.push(' ' as u8);
    r.push('2' as u8);
    r.push('0' as u8);
    r.push('0' as u8);
    r.push(' ' as u8);
    r.push('C' as u8);
    r.push('o' as u8);
    r.push('n' as u8);
    r.push('n' as u8);
    r.push('e' as u8);
    r.push('c' as u8);
    r.push('t' as u8);
    r.push('i' as u8);
    r.push('o' as u8);
    r.push('n' as u8);
    r.push(' ' as u8);
    r.push('E' as u8);
    r.push('s' as u8);
    r.push('t' as u8);
    r.push('a' as u8);
    r.push('b' as u8);
    r.push('l' as u8);
    r.push('i' as u8);
    r.push('s' as u8);
    r.push('h' as u8);
    r.push('e' as u8);
    r.push('d' as u8);
    r.push(13);
    r.push(10);
    r.push(13);
    r.push(10);
    proof {
        assert(r@ =~= established_bytes());
    }
    r
}

/// The target a forwarded request goes to: the configured one, else the
/// fixed fallback.
pub open spec fn resolve_target_model(target: Option<Seq<u8>>) -> Seq<u8> {
    match target {
        Some(t) => t,
        None => fallback_target_bytes(),
    }
}

/// Resolves the forward target from the configuration.
pub fn resolve_target(target: &Option<Vec<u8>>) -> (r: Vec<u8>)
    ensures
        r@ == resolve_target_model(opt_bytes_view(*target)),
{
    match target {
        Some(t) => vstd::slice::slice_to_vec(t.as_slice()),
        None => fallback_target(),
    }
}

/// The transition relation of the connection handler: from the phase a
/// connection is in and the outcome of the last action, the next phase
/// and the next action.
///
/// Errors and timeouts end only this connection; a mismatched event (one
/// the phase did not ask for) tears the connection down as an I/O failure.
pub open spec fn step_spec(s: StateModel, e: EventModel, target: Option<Seq<u8>>) -> (
    StateModel,
    ActionModel,
) {
    match (s, e) {
        (StateModel::Reading, EventModel::ClientData(d)) => {
            if d.len() == 0 {
                (StateModel::Closed(Outcome::EmptyRequest), ActionModel::Shutdown)
            } else if !parse_ok(d) {
                (StateModel::Closed(Outcome::Failed(ErrorKind::Parse)), ActionModel::Shutdown)
            } else if lower_seq(spec_method(d)) == connect_bytes() {
                (
                    StateModel::Connecting { raw: d, route: Route::Tunnel },
                    ActionModel::ConnectUpstream(spec_path(d)),
                )
            } else {
                (
                    StateModel::Connecting { raw: d, route: Route::Forward },
                    ActionModel::ConnectUpstream(resolve_target_model(target)),
                )
            }
        },
        (StateModel::Reading, EventModel::TimedOut) => (
            StateModel::Closed(Outcome::Failed(ErrorKind::Timeout)),
            ActionModel::Shutdown,
        ),
        (StateModel::Connecting { raw, route }, EventModel::Connected) => {
            match route {
                Route::Forward => (StateModel::SendingRequest, ActionModel::SendUpstream(raw)),
                Route::Tunnel => (
                    StateModel::SendingEstablished,
                    ActionModel::SendClient(established_bytes()),
                ),
            }
        },
        (StateModel::Connecting { .. }, EventModel::TimedOut) => (
            StateModel::Closed(Outcome::Failed(ErrorKind::Timeout)),
            ActionModel::Shutdown,
        ),
        (StateModel::Connecting { .. }, EventModel::Failed) => (
            StateModel::Closed(Outcome::Failed(ErrorKind::Connect)),
            ActionModel::Shutdown,
        ),
        (StateModel::SendingRequest, EventModel::Wrote) => (
            StateModel::AwaitingResponse,
            ActionModel::RecvUpstream,
        ),
        (StateModel::SendingRequest, EventModel::TimedOut) => (
            StateModel::Closed(Outcome::Failed(ErrorKind::Timeout)),
            ActionModel::Shutdown,
        ),
        (StateModel::AwaitingResponse, EventModel::UpstreamData(d)) => {
            if d.len() == 0 {
                (StateModel::Closed(Outcome::NoResponse), ActionModel::Shutdown)
            } else {
                (StateModel::SendingResponse, ActionModel::SendClient(d))
            }
        },
        (StateModel::AwaitingResponse, EventModel::TimedOut) => (
            StateModel::Closed(Outcome::Failed(ErrorKind::Timeout)),
            ActionModel::Shutdown,
        ),
        (StateModel::SendingResponse, EventModel::Wrote) => (
            StateModel::Closed(Outcome::Responded),
            ActionModel::Shutdown,
        ),
        (StateModel::SendingResponse, EventModel::TimedOut) => (
            StateModel::Closed(Outcome::Failed(ErrorKind::Timeout)),
            ActionModel::Shutdown,
        ),
        (StateModel::SendingEstablished, EventModel::Wrote) => (
            StateModel::Relaying,
            ActionModel::RelayTunnel,
        ),
        (StateModel::SendingEstablished, EventModel::TimedOut) => (
            StateModel::Closed(Outcome::Failed(ErrorKind::Timeout)),
            ActionModel::Shutdown,
        ),
        (StateModel::Relaying, EventModel::TunnelDone) => (
            StateModel::Closed(Outcome::TunnelClosed),
            ActionModel::Shutdown,
        ),
        (StateModel::Relaying, EventModel::Failed) => (
            // a broken relay is an ordinary end of the tunnel, not an error
            StateModel::Closed(Outcome::TunnelClosed),
            ActionModel::Shutdown,
        ),
        _ => (StateModel::Closed(Outcome::Failed(ErrorKind::Io)), ActionModel::Shutdown),
    }
}

/// One transition of the connection handler; see `step_spec` for the
/// relation it implements.
pub fn step(state: HandlerState, event: Event, target: &Option<Vec<u8>>) -> (r: (
    HandlerState,
    Action,
))
    ensures
        (r.0@, r.1@) == step_spec(state@, event@, opt_bytes_view(*target)),
{
    match (state, event) {
        (HandlerState::Reading, Event::ClientData(d)) => {
            if d.len() == 0 {
                (HandlerState::Closed(Outcome::EmptyRequest), Action::Shutdown)
            } else {
                match Request::parse(d.as_slice()) {
                    Err(_) => (
                        HandlerState::Closed(Outcome::Failed(ErrorKind::Parse)),
                        Action::Shutdown,
                    ),
                    Ok(req) => {
                        let lowered = lower_bytes(req.method.as_slice());
                        let word = connect_word();
                        if bytes_eq(lowered.as_slice(), word.as_slice()) {
                            (
                                HandlerState::Connecting { raw: d, route: Route::Tunnel },
                                Action::ConnectUpstream(req.path),
                            )
                        } else {
                            (
                                HandlerState::Connecting { raw: d, route: Route::Forward },
                                Action::ConnectUpstream(resolve_target(target)),
                            )
                        }
                    },
                }
            }
        },
        (HandlerState::Reading, Event::TimedOut) => (
            HandlerState::Closed(Outcome::Failed(ErrorKind::Timeout)),
            Action::Shutdown,
        ),
        (HandlerState::Connecting { raw, route }, Event::Connected) => {
            match route {
                Route::Forward => (HandlerState::SendingRequest, Action::SendUpstream(raw)),
                Route::Tunnel => (
                    HandlerState::SendingEstablished,
                    Action::SendClient(established_response()),
                ),
            }
        },
        (HandlerState::Connecting { .. }, Event::TimedOut) => (
            HandlerState::Closed(Outcome::Failed(ErrorKind::Timeout)),
            Action::Shutdown,
        ),
        (HandlerState::Connecting { .. }, Event::Failed) => (
            HandlerState::Closed(Outcome::Failed(ErrorKind::Connect)),
            Action::Shutdown,
        ),
        (HandlerState::SendingRequest, Event::Wrote) => (
            HandlerState::AwaitingResponse,
            Action::RecvUpstream,
        ),
        (HandlerState::SendingRequest, Event::TimedOut) => (
            HandlerState::Closed(Outcome::Failed(ErrorKind::Timeout)),
            Action::Shutdown,
        ),
        (HandlerState::AwaitingResponse, Event::UpstreamData(d)) => {
            if d.len() == 0 {
                (HandlerState::Closed(Outcome::NoResponse), Action::Shutdown)
            } else {
                (HandlerState::SendingResponse, Action::SendClient(d))
            }
        },
        (HandlerState::AwaitingResponse, Event::TimedOut) => (
            HandlerState::Closed(Outcome::Failed(ErrorKind::Timeout)),
            Action::Shutdown,
        ),
        (HandlerState::SendingResponse, Event::Wrote) => (
            HandlerState::Closed(Outcome::Responded),
            Action::Shutdown,
        ),
        (HandlerState::SendingResponse, Event::TimedOut) => (
            HandlerState::Closed(Outcome::Failed(ErrorKind::Timeout)),
            Action::Shutdown,
        ),
        (HandlerState::SendingEstablished, Event::Wrote) => (
            HandlerState::Relaying,
            Action::RelayTunnel,
        ),
        (HandlerState::SendingEstablished, Event::TimedOut) => (
            HandlerState::Closed(Outcome::Failed(ErrorKind::Timeout)),
            Action::Shutdown,
        ),
        (HandlerState::Relaying, Event::TunnelDone) => (
            HandlerState::Closed(Outcome::TunnelClosed),
            Action::Shutdown,
        ),
        (HandlerState::Relaying, Event::Failed) => (
            HandlerState::Closed(Outcome::TunnelClosed),
            Action::Shutdown,
        ),
        (_, _) => (HandlerState::Closed(Outcome::Failed(ErrorKind::Io)), Action::Shutdown),
    }
}

/// Whether the runtime must bound this action by the configured timeout:
/// everything but the steady-state relay and the final teardown is.
pub fn action_is_timeout_bound(a: &Action) -> (r: bool)
    ensures
        r == !(a@ is RelayTunnel || a@ is Shutdown),
{
    match a {
        Action::RelayTunnel => false,
        Action::Shutdown => false,
        _ => true,
    }
}

/// A forwarded request reaches the upstream verbatim: for any bytes that
/// parse and do not name a tunnel, the handler connects to the resolved
/// target and then writes exactly the bytes it read from the client.
pub proof fn lemma_forward_request_verbatim(d: Seq<u8>, target: Option<Seq<u8>>)
    requires
        d.len() > 0,
        parse_ok(d),
        lower_seq(spec_method(d)) != connect_bytes(),
    ensures
        ({
            let (s1, a1) = step_spec(StateModel::Reading, EventModel::ClientData(d), target);
            &&& a1 == ActionModel::ConnectUpstream(resolve_target_model(target))
            &&& step_spec(s1, EventModel::Connected, target) == (
                StateModel::SendingRequest,
                ActionModel::SendUpstream(d),
            )
        }),
{
}

/// An upstream reply reaches the client verbatim; an empty reply is
/// forwarded as nothing at all.
pub proof fn lemma_response_verbatim(d: Seq<u8>, target: Option<Seq<u8>>)
    ensures
        d.len() > 0 ==> step_spec(StateModel::AwaitingResponse, EventModel::UpstreamData(d), target)
            == (StateModel::SendingResponse, ActionModel::SendClient(d)),
        d.len() == 0 ==> step_spec(StateModel::AwaitingResponse, EventModel::UpstreamData(d), target)
            == (StateModel::Closed(Outcome::NoResponse), ActionModel::Shutdown),
{
}

/// A tunnel request connects to the host and port named by its own path
/// and, once connected, answers the client with exactly the literal
/// handshake line before relaying.
pub proof fn lemma_tunnel_handshake(d: Seq<u8>, target: Option<Seq<u8>>)
    requires
        d.len() > 0,
        parse_ok(d),
        lower_seq(spec_method(d)) == connect_bytes(),
    ensures
        ({
            let (s1, a1) = step_spec(StateModel::Reading, EventModel::ClientData(d), target);
            &&& a1 == ActionModel::ConnectUpstream(spec_path(d))
            &&& step_spec(s1, EventModel::Connected, target) == (
                StateModel::SendingEstablished,
                ActionModel::SendClient(established_bytes()),
            )
            &&& step_spec(StateModel::SendingEstablished, EventModel::Wrote, target) == (
                StateModel::Relaying,
                ActionModel::RelayTunnel,
            )
        }),
{
}

/// A timeout or failure of any pending operation ends this connection and
/// nothing else: the next state is always `Closed` and the only action
/// left is the teardown of this connection's own sockets.
pub proof fn lemma_errors_close_connection(s: StateModel, target: Option<Seq<u8>>)
    ensures
        step_spec(s, EventModel::TimedOut, target).0 is Closed,
        step_spec(s, EventModel::TimedOut, target).1 == ActionModel::Shutdown,
        step_spec(s, EventModel::Failed, target).0 is Closed,
        step_spec(s, EventModel::Failed, target).1 == ActionModel::Shutdown,
{
}

/// A closed connection stays closed: no event revives it.
pub proof fn lemma_closed_is_final(o: Outcome, e: EventModel, target: Option<Seq<u8>>)
    ensures
        step_spec(StateModel::Closed(o), e, target).0 is Closed,
        step_spec(StateModel::Closed(o), e, target).1 == ActionModel::Shutdown,
{
}

} // verus!
