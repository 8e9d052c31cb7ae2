//! The per-client connection state machine.
//!
//! One session repeatedly reads a request from the client, forwards it to
//! the upstream picked at connection-open time, reads the response and
//! relays it back. The decisions of that loop — what each outcome of the
//! blocking work means for the session — live here as a pure transition
//! function; the caller performs the reads and writes and feeds the
//! outcomes back as events.

use vstd::prelude::*;

verus! {

/// Status code sent for a malformed, incomplete or inconsistent request.
pub const STATUS_BAD_REQUEST: u16 = 400;

/// Status code sent for a request whose body exceeds the size limit.
pub const STATUS_PAYLOAD_TOO_LARGE: u16 = 413;

/// Status code sent when the per-client rate limit is exceeded.
pub const STATUS_TOO_MANY_REQUESTS: u16 = 429;

/// Status code sent when the upstream is unreachable or fails mid-exchange.
pub const STATUS_BAD_GATEWAY: u16 = 502;

/// Status code of the client-side transport error bucket.
pub const STATUS_SERVICE_UNAVAILABLE: u16 = 503;

/// Ways reading one request from the client can fail.
#[derive(Clone, Copy, Debug, PartialEq, Eq, Structural)]
pub enum RequestError {
    /// The stream ended after the given number of bytes of an unfinished
    /// request; zero bytes means the client closed cleanly between requests.
    IncompleteRequest(usize),
    /// The bytes read do not parse as a request.
    MalformedRequest,
    /// The content-length header is present but not a number.
    InvalidContentLength,
    /// The body length does not match the content-length header.
    ContentLengthMismatch,
    /// The body exceeds the configured maximum size.
    RequestBodyTooLarge,
    /// A transport-level error on the client socket.
    ConnectionError,
}

/// States of one client session.
#[derive(Clone, Copy, Debug, PartialEq, Eq, Structural)]
pub enum SessionState {
    /// Waiting for the client's next request.
    AwaitingRequest,
    /// A request is in hand and must be written to the upstream.
    Forwarding,
    /// The request was forwarded; waiting for the upstream's response.
    AwaitingResponse,
    /// A response is in hand and must be written back to the client.
    Relaying,
    /// The session is over; no further work happens.
    Closed,
}

/// Outcomes of the blocking work, fed back into the state machine.
#[derive(Clone, Copy, Debug, PartialEq, Eq, Structural)]
pub enum SessionEvent {
    /// A request was read and parsed.
    RequestRead,
    /// Reading a request failed.
    RequestFailed(RequestError),
    /// The request was written to the upstream.
    ForwardOk,
    /// Writing the request to the upstream failed.
    ForwardFailed,
    /// The upstream's response was read and parsed.
    ResponseRead,
    /// Reading the upstream's response failed.
    ResponseFailed,
    /// The response was relayed to the client.
    RelayDone,
}

/// What the caller owes after a transition.
#[derive(Clone, Copy, Debug, PartialEq, Eq, Structural)]
pub enum SessionAction {
    /// Nothing to emit; carry on with the new state's work.
    Proceed,
    /// Send the given terminal error response; the connection stays open.
    SendError(u16),
    /// Send the given terminal error response, then close the connection.
    SendErrorAndClose(u16),
    /// Close the connection without a response (socket presumed dead).
    CloseSilently,
}

/// Which events can occur in which state.
pub open spec fn event_fits(s: SessionState, e: SessionEvent) -> bool {
    match (s, e) {
        (SessionState::AwaitingRequest, SessionEvent::RequestRead) => true,
        (SessionState::AwaitingRequest, SessionEvent::RequestFailed(_)) => true,
        (SessionState::Forwarding, SessionEvent::ForwardOk) => true,
        (SessionState::Forwarding, SessionEvent::ForwardFailed) => true,
        (SessionState::AwaitingResponse, SessionEvent::ResponseRead) => true,
        (SessionState::AwaitingResponse, SessionEvent::ResponseFailed) => true,
        (SessionState::Relaying, SessionEvent::RelayDone) => true,
        _ => false,
    }
}

/// The transition function of one client session.
///
/// A clean end-of-stream between requests and a client-side transport error
/// both close silently; a protocol error in the request is answered with
/// 400 or 413 and the connection stays open; any failure on the upstream
/// leg is answered with 502 and ends the session.
pub open spec fn spec_step(s: SessionState, e: SessionEvent) -> (SessionState, SessionAction) {
    match (s, e) {
        (SessionState::AwaitingRequest, SessionEvent::RequestRead) => (
            SessionState::Forwarding,
            SessionAction::Proceed,
        ),
        (SessionState::AwaitingRequest, SessionEvent::RequestFailed(err)) => match err {
            RequestError::IncompleteRequest(n) => if n == 0 {
                (SessionState::Closed, SessionAction::CloseSilently)
            } else {
                (SessionState::AwaitingRequest, SessionAction::SendError(STATUS_BAD_REQUEST))
            },
            RequestError::ConnectionError => (SessionState::Closed, SessionAction::CloseSilently),
            RequestError::RequestBodyTooLarge => (
                SessionState::AwaitingRequest,
                SessionAction::SendError(STATUS_PAYLOAD_TOO_LARGE),
            ),
            _ => (SessionState::AwaitingRequest, SessionAction::SendError(STATUS_BAD_REQUEST)),
        },
        (SessionState::Forwarding, SessionEvent::ForwardOk) => (
            SessionState::AwaitingResponse,
            SessionAction::Proceed,
        ),
        (SessionState::Forwarding, SessionEvent::ForwardFailed) => (
            SessionState::Closed,
            SessionAction::SendErrorAndClose(STATUS_BAD_GATEWAY),
        ),
        (SessionState::AwaitingResponse, SessionEvent::ResponseRead) => (
            SessionState::Relaying,
            SessionAction::Proceed,
        ),
        (SessionState::AwaitingResponse, SessionEvent::ResponseFailed) => (
            SessionState::Closed,
            SessionAction::SendErrorAndClose(STATUS_BAD_GATEWAY),
        ),
        (SessionState::Relaying, SessionEvent::RelayDone) => (
            SessionState::AwaitingRequest,
            SessionAction::Proceed,
        ),
        _ => (SessionState::Closed, SessionAction::CloseSilently),
    }
}

/// Executable form of the session transition function.
pub fn session_step(s: SessionState, e: SessionEvent) -> (r: (SessionState, SessionAction))
    requires
        event_fits(s, e),
    ensures
        r == spec_step(s, e),
{
    match (s, e) {
        (SessionState::AwaitingRequest, SessionEvent::RequestRead) => (
            SessionState::Forwarding,
            SessionAction::Proceed,
        ),
        (SessionState::AwaitingRequest, SessionEvent::RequestFailed(err)) => match err {
            RequestError::IncompleteRequest(n) => if n == 0 {
                (SessionState::Closed, SessionAction::CloseSilently)
            } else {
                (SessionState::AwaitingRequest, SessionAction::SendError(STATUS_BAD_REQUEST))
            },
            RequestError::ConnectionError => (SessionState::Closed, SessionAction::CloseSilently),
            RequestError::RequestBodyTooLarge => (
                SessionState::AwaitingRequest,
                SessionAction::SendError(STATUS_PAYLOAD_TOO_LARGE),
            ),
            _ => (SessionState::AwaitingRequest, SessionAction::SendError(STATUS_BAD_REQUEST)),
        },
        (SessionState::Forwarding, SessionEvent::ForwardOk) => (
            SessionState::AwaitingResponse,
            SessionAction::Proceed,
        ),
        (SessionState::Forwarding, SessionEvent::ForwardFailed) => (
            SessionState::Closed,
            SessionAction::SendErrorAndClose(STATUS_BAD_GATEWAY),
        ),
        (SessionState::AwaitingResponse, SessionEvent::ResponseRead) => (
            SessionState::Relaying,
            SessionAction::Proceed,
        ),
        (SessionState::AwaitingResponse, SessionEvent::ResponseFailed) => (
            SessionState::Closed,
            SessionAction::SendErrorAndClose(STATUS_BAD_GATEWAY),
        ),
        (SessionState::Relaying, SessionEvent::RelayDone) => (
            SessionState::AwaitingRequest,
            SessionAction::Proceed,
        ),
        _ => (SessionState::Closed, SessionAction::CloseSilently),
    }
}

/// One successful exchange returns the session to `AwaitingRequest`: the
/// connection is kept alive across requests for the lifetime of the client
/// session.
pub proof fn lemma_keep_alive_cycle()
    ensures
        spec_step(SessionState::AwaitingRequest, SessionEvent::RequestRead) == (
            SessionState::Forwarding,
            SessionAction::Proceed,
        ),
        spec_step(SessionState::Forwarding, SessionEvent::ForwardOk) == (
            SessionState::AwaitingResponse,
            SessionAction::Proceed,
        ),
        spec_step(SessionState::AwaitingResponse, SessionEvent::ResponseRead) == (
            SessionState::Relaying,
            SessionAction::Proceed,
        ),
        spec_step(SessionState::Relaying, SessionEvent::RelayDone) == (
            SessionState::AwaitingRequest,
            SessionAction::Proceed,
        ),
{
}

/// Whether an event reports a failure of the blocking work.
pub open spec fn is_failure_event(e: SessionEvent) -> bool {
    match e {
        SessionEvent::RequestFailed(_) => true,
        SessionEvent::ForwardFailed => true,
        SessionEvent::ResponseFailed => true,
        _ => false,
    }
}

/// Every failure is answered: the transition either emits a terminal error
/// response with one of the standard codes or closes the socket outright,
/// so a client never waits on a session that has already failed.
pub proof fn lemma_failure_always_answered(s: SessionState, e: SessionEvent)
    requires
        event_fits(s, e),
        is_failure_event(e),
    ensures
        spec_step(s, e).1 != SessionAction::Proceed,
        match spec_step(s, e).1 {
            SessionAction::SendError(code) => code == STATUS_BAD_REQUEST || code
                == STATUS_PAYLOAD_TOO_LARGE,
            SessionAction::SendErrorAndClose(code) => code == STATUS_BAD_GATEWAY,
            _ => true,
        },
{
}

/// A protocol error in the client's request never ends the session, and a
/// failure on the upstream leg always does.
pub proof fn lemma_error_scope(s: SessionState, e: SessionEvent)
    requires
        event_fits(s, e),
    ensures
        spec_step(s, e).1 matches SessionAction::SendError(_) ==> spec_step(s, e).0
            == SessionState::AwaitingRequest,
        (e == SessionEvent::ForwardFailed || e == SessionEvent::ResponseFailed) ==> spec_step(
            s,
            e,
        ).0 == SessionState::Closed,
{
}

/// Appends the client address to a forwarding-marker header value: the
/// existing value, a comma and a space, then the address; or just the
/// address when the header is not present yet.
pub fn extend_forwarded_for(existing: Option<&Vec<u8>>, client_ip: &Vec<u8>) -> (r: Vec<u8>)
    ensures
        match existing {
            Some(v) => r@ == v@ + seq![44u8, 32u8] + client_ip@,
            None => r@ == client_ip@,
        },
{
    match existing {
        Some(v) => {
            let mut out = v.clone();
            out.push(44u8);
            out.push(32u8);
            let mut i: usize = 0;
            while i < client_ip.len()
                invariant
                    i <= client_ip@.len(),
                    out@ == v@ + seq![44u8, 32u8] + client_ip@.take(i as int),
                decreases client_ip@.len() - i,
            {
                out.push(client_ip[i]);
                proof {
                    assert(out@ =~= v@ + seq![44u8, 32u8] + client_ip@.take(i + 1));
                }
                i += 1;
            }
            proof {
                assert(client_ip@.take(client_ip@.len() as int) =~= client_ip@);
            }
            out
        },
        None => client_ip.clone(),
    }
}

} // verus!
