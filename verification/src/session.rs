//! The per-connection session life cycle: greeting check, login
//! handshake, then the event loop that forwards qualifying messages.
//!
//! The decisions of the life cycle are a pure transition function from
//! state and event to next state and action; the caller performs the
//! connecting, reading and sending, and feeds the outcome back in.

use vstd::prelude::*;
use vstd::utf8::encode_utf8;
use crate::message::{Message, lookup, event_key};
use crate::text::{bytes_eq, str_bytes};

verus! {

/// The greeting line a server opens the conversation with.
pub open spec fn banner() -> Seq<u8> {
    encode_utf8("Asterisk Call Manager/1.1\r\n"@)
}

/// The header naming a command reply's outcome.
pub open spec fn response_key() -> Seq<u8> {
    encode_utf8("Response"@)
}

/// The reply value of a successful login.
pub open spec fn success_value() -> Seq<u8> {
    encode_utf8("Success"@)
}

/// The login command for the given credentials: the Action, Username and
/// Secret lines, ended by a blank line.
pub open spec fn spec_login_request(user: Seq<char>, secret: Seq<char>) -> Seq<u8> {
    encode_utf8("Action: Login\r\nUsername: "@) + encode_utf8(user) + encode_utf8(
        "\r\nSecret: "@,
    ) + encode_utf8(secret) + encode_utf8("\r\n\r\n"@)
}

/// Builds the login command for the given credentials.
pub fn login_request(user: &str, secret: &str) -> (r: Vec<u8>)
    ensures
        r@ == spec_login_request(user@, secret@),
{
    let mut out = str_bytes("Action: Login\r\nUsername: ");
    let mut part = str_bytes(user);
    out.append(&mut part);
    let mut part = str_bytes("\r\nSecret: ");
    out.append(&mut part);
    let mut part = str_bytes(secret);
    out.append(&mut part);
    let mut part = str_bytes("\r\n\r\n");
    out.append(&mut part);
    out
}

/// The two steps of authentication: awaiting the greeting banner, then
/// awaiting the reply to the login command.
#[derive(Clone, Copy, PartialEq, Eq, Debug)]
pub enum AuthPhase {
    Banner,
    LoginReply,
}

/// Where a session stands in its life cycle.
#[derive(Clone, Copy, PartialEq, Eq, Debug)]
pub enum SessionState {
    Connecting,
    Authenticating(AuthPhase),
    Streaming,
    Terminated,
}

/// What the connection hands the session: the outcome of the connection
/// attempt, one parsed frame, or the end of the stream.
pub enum SessionEvent {
    Connected,
    ConnectFailed,
    Frame(Message),
    StreamEnded,
}

/// A qualifying message together with the identity of the server it came
/// from.
pub struct RoutedEvent {
    pub source: String,
    pub message: Message,
}

/// What the caller must do next: nothing, send the login command, or
/// put a routed event on the bus.
pub enum SessionAction {
    Idle,
    SendLogin(Vec<u8>),
    Forward(RoutedEvent),
}

/// Whether a frame qualifies for forwarding: it has at least one header
/// and one of them is the event marker.
pub open spec fn qualifies(m: crate::message::MessageView) -> bool {
    m.headers.len() > 0 && lookup(m.headers, event_key()) is Some
}

/// The state a session moves to on an event.
pub open spec fn next_state(st: SessionState, ev: SessionEvent) -> SessionState {
    match (st, ev) {
        (SessionState::Connecting, SessionEvent::Connected) => SessionState::Authenticating(
            AuthPhase::Banner,
        ),
        (SessionState::Connecting, SessionEvent::ConnectFailed) => SessionState::Terminated,
        (SessionState::Authenticating(AuthPhase::Banner), SessionEvent::Frame(m)) => {
            if m@.rest == banner() {
                SessionState::Authenticating(AuthPhase::LoginReply)
            } else {
                SessionState::Terminated
            }
        },
        (SessionState::Authenticating(AuthPhase::LoginReply), SessionEvent::Frame(m)) => {
            if lookup(m@.headers, response_key()) == Some(success_value()) {
                SessionState::Streaming
            } else {
                SessionState::Terminated
            }
        },
        (SessionState::Streaming, SessionEvent::Frame(_)) => SessionState::Streaming,
        (_, _) => SessionState::Terminated,
    }
}

/// What action the step must produce, given the state it started in.
pub open spec fn step_action_ok(
    st: SessionState,
    name: Seq<char>,
    user: Seq<char>,
    secret: Seq<char>,
    ev: SessionEvent,
    act: SessionAction,
) -> bool {
    match (st, ev) {
        (SessionState::Authenticating(AuthPhase::Banner), SessionEvent::Frame(m)) => {
            if m@.rest == banner() {
                act matches SessionAction::SendLogin(v) && v@ == spec_login_request(user, secret)
            } else {
                act matches SessionAction::Idle
            }
        },
        (SessionState::Streaming, SessionEvent::Frame(m)) => {
            if qualifies(m@) {
                act matches SessionAction::Forward(r) && r.source@ == name && r.message@ == m@
            } else {
                act matches SessionAction::Idle
            }
        },
        (_, _) => act matches SessionAction::Idle,
    }
}

/// One session with one upstream server: its identity, its credentials,
/// and where it stands.
pub struct SessionClient {
    name: String,
    user: String,
    secret: String,
    state: SessionState,
}

impl SessionClient {
    /// The configured identity of the upstream server.
    pub closed spec fn spec_name(&self) -> Seq<char> {
        self.name@
    }

    pub closed spec fn spec_user(&self) -> Seq<char> {
        self.user@
    }

    pub closed spec fn spec_secret(&self) -> Seq<char> {
        self.secret@
    }

    pub closed spec fn spec_state(&self) -> SessionState {
        self.state
    }

    /// A fresh session for the named server, not yet connected.
    pub fn new(name: String, user: String, secret: String) -> (r: SessionClient)
        ensures
            r.spec_name() == name@,
            r.spec_user() == user@,
            r.spec_secret() == secret@,
            r.spec_state() == SessionState::Connecting,
    {
        SessionClient { name, user, secret, state: SessionState::Connecting }
    }

    /// The current state, for the caller driving the loop.
    pub fn state(&self) -> (r: SessionState)
        ensures
            r == self.spec_state(),
    {
        self.state
    }

    /// Feeds one event into the life cycle and returns what to do next.
    ///
    /// A frame while streaming is forwarded exactly when it qualifies; a
    /// greeting whose body is not the expected banner, a login reply
    /// without a successful Response header, a failed connection attempt
    /// and an ended stream all terminate the session.
    pub fn step(&mut self, event: SessionEvent) -> (action: SessionAction)
        requires
            event matches SessionEvent::Frame(m) ==> m.wf(),
        ensures
            final(self).spec_name() == old(self).spec_name(),
            final(self).spec_user() == old(self).spec_user(),
            final(self).spec_secret() == old(self).spec_secret(),
            final(self).spec_state() == next_state(old(self).spec_state(), event),
            step_action_ok(
                old(self).spec_state(),
                old(self).spec_name(),
                old(self).spec_user(),
                old(self).spec_secret(),
                event,
                action,
            ),
    {
        let st = self.state;
        match (st, event) {
            (SessionState::Connecting, SessionEvent::Connected) => {
                self.state = SessionState::Authenticating(AuthPhase::Banner);
                SessionAction::Idle
            },
            (SessionState::Authenticating(AuthPhase::Banner), SessionEvent::Frame(m)) => {
                let expected = str_bytes("Asterisk Call Manager/1.1\r\n");
                if bytes_eq(m.rest().as_slice(), expected.as_slice()) {
                    self.state = SessionState::Authenticating(AuthPhase::LoginReply);
                    SessionAction::SendLogin(login_request(self.user.as_str(), self.secret.as_str()))
                } else {
                    self.state = SessionState::Terminated;
                    SessionAction::Idle
                }
            },
            (SessionState::Authenticating(AuthPhase::LoginReply), SessionEvent::Frame(m)) => {
                let ok = match m.get_header(str_bytes("Response").as_slice()) {
                    Some(v) => bytes_eq(v.as_slice(), str_bytes("Success").as_slice()),
                    None => false,
                };
                if ok {
                    self.state = SessionState::Streaming;
                } else {
                    self.state = SessionState::Terminated;
                }
                SessionAction::Idle
            },
            (SessionState::Streaming, SessionEvent::Frame(m)) => {
                let has_event = m.header_count() > 0 && m.contains_header(
                    str_bytes("Event").as_slice(),
                );
                if has_event {
                    SessionAction::Forward(
                        RoutedEvent { source: self.name.clone(), message: m },
                    )
                } else {
                    SessionAction::Idle
                }
            },
            (_, _) => {
                self.state = SessionState::Terminated;
                SessionAction::Idle
            },
        }
    }
}

/// A routed event leaves a step only for a qualifying frame received
/// while streaming, and it carries exactly the received message under
/// the session's own identity.
pub proof fn lemma_forward_only_qualifying(
    st: SessionState,
    name: Seq<char>,
    user: Seq<char>,
    secret: Seq<char>,
    ev: SessionEvent,
    act: SessionAction,
)
    requires
        step_action_ok(st, name, user, secret, ev, act),
        act matches SessionAction::Forward(_),
    ensures
        st == SessionState::Streaming,
        ev matches SessionEvent::Frame(m) && qualifies(m@),
        act matches SessionAction::Forward(r) && (ev matches SessionEvent::Frame(m) ==> r.message@
            == m@ && r.source@ == name),
{
}

/// A frame without the event marker, or without any header, is never
/// forwarded, whatever the state.
pub proof fn lemma_no_forward_without_event(
    st: SessionState,
    name: Seq<char>,
    user: Seq<char>,
    secret: Seq<char>,
    m: Message,
    act: SessionAction,
)
    requires
        step_action_ok(st, name, user, secret, SessionEvent::Frame(m), act),
        !qualifies(m@),
    ensures
        !(act matches SessionAction::Forward(_)),
{
}

/// A qualifying frame received while streaming is forwarded exactly
/// once: the step's single action is the routed event that carries it.
pub proof fn lemma_streaming_forwards_exactly_once(
    name: Seq<char>,
    user: Seq<char>,
    secret: Seq<char>,
    m: Message,
    act: SessionAction,
)
    requires
        step_action_ok(SessionState::Streaming, name, user, secret, SessionEvent::Frame(m), act),
        qualifies(m@),
    ensures
        act matches SessionAction::Forward(r) && r.message@ == m@ && r.source@ == name,
{
}

/// A login reply without a successful Response header terminates the
/// session and forwards nothing.
pub proof fn lemma_failed_login_terminates(
    name: Seq<char>,
    user: Seq<char>,
    secret: Seq<char>,
    m: Message,
    act: SessionAction,
)
    requires
        step_action_ok(
            SessionState::Authenticating(AuthPhase::LoginReply),
            name,
            user,
            secret,
            SessionEvent::Frame(m),
            act,
        ),
        lookup(m@.headers, response_key()) != Some(success_value()),
    ensures
        next_state(
            SessionState::Authenticating(AuthPhase::LoginReply),
            SessionEvent::Frame(m),
        ) == SessionState::Terminated,
        !(act matches SessionAction::Forward(_)),
{
}

} // verus!
