//! The per-connection session state machine.
//!
//! A session is bound to one socket. It starts unregistered, accepts
//! one successful register, then dispatches events until a disconnect
//! or the socket closes. The machine itself decides; whatever talks
//! to the network or the shared registry acts on the returned action.

use vstd::prelude::*;

use crate::codec::{
    EnvView, Frame, SocketMessage, DeviceInfo, DeviceView, connected_ok, connected_ok_json,
    envelope_of_frame, env_valid, error_envelope, error_envelope_json, heartbeat_json,
    is_forward_event, parse_fail_msg, register_error, register_error_json, register_ok,
    register_ok_json, str_field, validation_msg, HeartbeatMessage, concat_str,
};
use crate::json::{Json, enc};
use crate::ids::{is_uuid_text, token_format_ok};

verus! {

broadcast use {vstd::string::group_string_axioms, vstd::seq::group_seq_axioms,
    vstd::std_specs::vec::group_vec_axioms};

/// Where a session stands.
pub enum SessionState {
    Unregistered,
    Registered { email: String, device: String },
    Closed,
}

/// A connection's state: its socket, its registration, and the last
/// heartbeat timestamp it reported.
pub struct SessionMachine {
    pub state: SessionState,
    pub socket_id: String,
    pub last_pong: u64,
}

/// The mathematical content of a session state.
pub enum StateView {
    Unregistered,
    Registered { email: Seq<char>, device: Seq<char> },
    Closed,
}

/// The mathematical content of a session.
pub struct SessionView {
    pub state: StateView,
    pub socket_id: Seq<char>,
    pub last_pong: int,
}

impl View for SessionState {
    type V = StateView;

    open spec fn view(&self) -> StateView {
        match self {
            SessionState::Unregistered => StateView::Unregistered,
            SessionState::Registered { email, device } => StateView::Registered {
                email: email@,
                device: device@,
            },
            SessionState::Closed => StateView::Closed,
        }
    }
}

impl View for SessionMachine {
    type V = SessionView;

    open spec fn view(&self) -> SessionView {
        SessionView { state: self.state@, socket_id: self.socket_id@, last_pong: self.last_pong as int }
    }
}

/// What the session asks its surroundings to do with one frame.
pub enum FrameAction {
    /// Send this text to the client.
    Reply(String),
    /// Send this text, then close the connection.
    ReplyClose(String),
    /// Resolve this register's token, then call `on_register_resolved`.
    Register(SocketMessage),
    /// Compute a `check` reply for this registered email.
    Check(String),
    /// Forward this envelope to its peer.
    Forward(SocketMessage),
    /// Close the connection without a reply.
    Close,
    /// Do nothing.
    Ignore,
}

/// The mathematical content of a frame action.
pub enum ActionView {
    Reply(Seq<char>),
    ReplyClose(Seq<char>),
    Register(EnvView),
    Check(Seq<char>),
    Forward(EnvView),
    Close,
    Ignore,
}

impl View for FrameAction {
    type V = ActionView;

    open spec fn view(&self) -> ActionView {
        match self {
            FrameAction::Reply(t) => ActionView::Reply(t@),
            FrameAction::ReplyClose(t) => ActionView::ReplyClose(t@),
            FrameAction::Register(m) => ActionView::Register(m@),
            FrameAction::Check(e) => ActionView::Check(e@),
            FrameAction::Forward(m) => ActionView::Forward(m@),
            FrameAction::Close => ActionView::Close,
            FrameAction::Ignore => ActionView::Ignore,
        }
    }
}

/// The heartbeat timestamp a `ping` is answered with: the clock
/// reading, but never behind the last answer.
pub open spec fn pong_ts(last: int, now: int) -> int {
    if now >= last {
        now
    } else {
        last
    }
}

/// What one frame does to a session: the next state and the action.
///
/// Frames with no envelope are answered with an error and change
/// nothing; so are invalid envelopes. A closed session ignores
/// everything. `disconnect` closes. A second register is a protocol
/// error; a malformed token fails the register and closes. Events
/// before registration are errors. A registered session answers
/// `check`, `connect` and `ping` itself and hands forwards on.
pub open spec fn session_step(s: SessionView, f_env: Option<EnvView>, f_msg: Seq<char>, now: int) -> (
    SessionView,
    ActionView,
) {
    match f_env {
        Option::None => (
            s,
            ActionView::Reply(enc(error_envelope_json("Failed to parse message: "@ + f_msg))),
        ),
        Option::Some(ev) => {
            if s.state is Closed {
                (s, ActionView::Ignore)
            } else if !env_valid(ev) {
                (s, ActionView::Reply(enc(error_envelope_json(validation_msg(ev)))))
            } else if ev.event == "disconnect"@ {
                (SessionView { state: StateView::Closed, ..s }, ActionView::Close)
            } else if ev.event == "register"@ {
                match s.state {
                    StateView::Registered { .. } => (
                        s,
                        ActionView::Reply(enc(error_envelope_json("Already registered"@))),
                    ),
                    _ => {
                        if is_uuid_text(ev.from_token) {
                            (s, ActionView::Register(ev))
                        } else {
                            (
                                SessionView { state: StateView::Closed, ..s },
                                ActionView::ReplyClose(
                                    enc(register_error_json("Invalid token format"@)),
                                ),
                            )
                        }
                    },
                }
            } else {
                match s.state {
                    StateView::Unregistered => (
                        s,
                        ActionView::Reply(enc(error_envelope_json("Must register first"@))),
                    ),
                    StateView::Registered { email, device } => {
                        if ev.event == "check"@ {
                            (s, ActionView::Check(email))
                        } else if ev.event == "connect"@ {
                            (s, ActionView::Reply(enc(connected_ok_json())))
                        } else if ev.event == "ping"@ {
                            let ts = pong_ts(s.last_pong, now);
                            (
                                SessionView { last_pong: ts, ..s },
                                ActionView::Reply(enc(heartbeat_json("pong"@, ts))),
                            )
                        } else if is_forward_event(ev.event) {
                            (s, ActionView::Forward(ev))
                        } else {
                            (
                                s,
                                ActionView::Reply(
                                    enc(error_envelope_json("Unknown event: "@ + ev.event)),
                                ),
                            )
                        }
                    },
                    StateView::Closed => (s, ActionView::Ignore),
                }
            }
        },
    }
}

impl SessionMachine {
    /// A fresh session on a socket: unregistered, no heartbeat yet.
    pub fn new(socket_id: String) -> (r: SessionMachine)
        ensures
            r@.state is Unregistered,
            r@.socket_id == socket_id@,
            r@.last_pong == 0,
    {
        SessionMachine { state: SessionState::Unregistered, socket_id, last_pong: 0 }
    }

    /// Feeds one frame to the machine; `now_secs` is the clock
    /// reading used for heartbeats.
    pub fn on_frame(&mut self, frame: Frame, now_secs: u64) -> (r: FrameAction)
        ensures
            (final(self)@, r@) == session_step(
                old(self)@,
                envelope_of_frame(frame),
                parse_fail_msg(frame),
                now_secs as int,
            ),
    {
        proof {
            crate::codec::lemma_events_distinct();
        }
        let parsed = SocketMessage::parse_message(frame);
        match parsed {
            Err(e) => {
                let msg = concat_str("Failed to parse message: ", e.as_str());
                FrameAction::Reply(error_envelope(msg.as_str()))
            },
            Ok(m) => {
                if matches!(self.state, SessionState::Closed) {
                    return FrameAction::Ignore;
                }
                match m.validate() {
                    Err(e) => FrameAction::Reply(error_envelope(e.as_str())),
                    Ok(()) => {
                        let ev: &str = m.event.as_str();
                        if crate::codec::str_eq(ev, "disconnect") {
                            self.state = SessionState::Closed;
                            FrameAction::Close
                        } else if crate::codec::str_eq(ev, "register") {
                            if matches!(self.state, SessionState::Registered { .. }) {
                                FrameAction::Reply(error_envelope("Already registered"))
                            } else if token_format_ok(m.from_token.as_str()) {
                                FrameAction::Register(m)
                            } else {
                                self.state = SessionState::Closed;
                                FrameAction::ReplyClose(register_error("Invalid token format"))
                            }
                        } else {
                            match &self.state {
                                SessionState::Unregistered => FrameAction::Reply(
                                    error_envelope("Must register first"),
                                ),
                                SessionState::Registered { email, device: _ } => {
                                    if crate::codec::str_eq(ev, "check") {
                                        FrameAction::Check(email.clone())
                                    } else if crate::codec::str_eq(ev, "connect") {
                                        FrameAction::Reply(connected_ok())
                                    } else if crate::codec::str_eq(ev, "ping") {
                                        let ts: u64 = if now_secs >= self.last_pong {
                                            now_secs
                                        } else {
                                            self.last_pong
                                        };
                                        self.last_pong = ts;
                                        let hb = HeartbeatMessage {
                                            event: String::from_str("pong"),
                                            timestamp: ts,
                                        };
                                        FrameAction::Reply(hb.encode())
                                    } else if crate::codec::str_eq(ev, "try_connect")
                                        || crate::codec::str_eq(ev, "sdp_offer")
                                        || crate::codec::str_eq(ev, "sdp_answer")
                                        || crate::codec::str_eq(ev, "ice_candidate") {
                                        FrameAction::Forward(m)
                                    } else {
                                        let msg = concat_str("Unknown event: ", ev);
                                        FrameAction::Reply(error_envelope(msg.as_str()))
                                    }
                                },
                                SessionState::Closed => FrameAction::Ignore,
                            }
                        }
                    },
                }
            },
        }
    }
}


/// A string read from the payload object, as `register` reads the
/// device name and type: absent, non-object or non-string is `None`.
pub open spec fn payload_str(j: Json, key: Seq<char>) -> Option<Seq<char>> {
    match j {
        Json::Obj(ps) => str_field(ps, key),
        _ => None,
    }
}

/// The outcome of a register once the token has been resolved.
pub enum RegisterOutcome {
    /// Reply with this text and close the connection.
    Fail(String),
    /// Bind the descriptor, record presence, then send this reply.
    Accept { reply: String, info: DeviceInfo },
}

/// The mathematical content of a register outcome.
pub enum RegOutView {
    Fail(Seq<char>),
    Accept { reply: Seq<char>, info: DeviceView },
}

impl View for RegisterOutcome {
    type V = RegOutView;

    open spec fn view(&self) -> RegOutView {
        match self {
            RegisterOutcome::Fail(t) => RegOutView::Fail(t@),
            RegisterOutcome::Accept { reply, info } => RegOutView::Accept {
                reply: reply@,
                info: info@,
            },
        }
    }
}

/// What a resolved register does to a session: an unresolved token
/// fails and closes; a resolved email that differs from the claimed
/// one fails and closes; a match registers the session and yields the
/// descriptor built from the payload's device name and type.
pub open spec fn register_step(s: SessionView, ev: EnvView, resolved: Option<Seq<char>>) -> (
    SessionView,
    RegOutView,
) {
    match resolved {
        Option::None => (
            SessionView { state: StateView::Closed, ..s },
            RegOutView::Fail(enc(register_error_json("Invalid or expired token"@))),
        ),
        Option::Some(em) => {
            if em != ev.from_email {
                (
                    SessionView { state: StateView::Closed, ..s },
                    RegOutView::Fail(enc(register_error_json("Email does not match token"@))),
                )
            } else {
                (
                    SessionView {
                        state: StateView::Registered {
                            email: ev.from_email,
                            device: ev.from_device,
                        },
                        ..s
                    },
                    RegOutView::Accept {
                        reply: enc(register_ok_json(s.socket_id)),
                        info: DeviceView {
                            socket_id: s.socket_id,
                            device_name: payload_str(ev.payload, "device_name"@),
                            device_type: payload_str(ev.payload, "device_type"@),
                            device_id: ev.from_device,
                        },
                    },
                )
            }
        },
    }
}

impl SessionMachine {
    /// Finishes a register after the token authority has spoken:
    /// `resolved` is the authoritative email of the token's user, if
    /// the token resolved at all.
    pub fn on_register_resolved(&mut self, msg: &SocketMessage, resolved: Option<String>) -> (r:
        RegisterOutcome)
        requires
            old(self)@.state is Unregistered,
        ensures
            (final(self)@, r@) == register_step(
                old(self)@,
                msg@,
                match resolved {
                    Some(e) => Some(e@),
                    None => None,
                },
            ),
    {
        match resolved {
            None => {
                self.state = SessionState::Closed;
                RegisterOutcome::Fail(register_error("Invalid or expired token"))
            },
            Some(em) => {
                if !crate::codec::str_eq(em.as_str(), msg.from_email.as_str()) {
                    self.state = SessionState::Closed;
                    RegisterOutcome::Fail(register_error("Email does not match token"))
                } else {
                    let name: Option<String> = match &msg.payload {
                        crate::json::JsonValue::Obj(ps) => crate::codec::obj_find_str(
                            ps,
                            "device_name",
                        ),
                        _ => None,
                    };
                    let ty: Option<String> = match &msg.payload {
                        crate::json::JsonValue::Obj(ps) => crate::codec::obj_find_str(
                            ps,
                            "device_type",
                        ),
                        _ => None,
                    };
                    let info = DeviceInfo {
                        socket_id: self.socket_id.clone(),
                        device_name: name,
                        device_type: ty,
                        device_id: msg.from_device.clone(),
                    };
                    let reply = register_ok(self.socket_id.as_str());
                    self.state = SessionState::Registered {
                        email: msg.from_email.clone(),
                        device: msg.from_device.clone(),
                    };
                    RegisterOutcome::Accept { reply, info }
                }
            },
        }
    }
}

/// A `ping` yields exactly one `pong`, and successive pongs carry
/// non-decreasing timestamps, whatever the clock reports.
pub proof fn lemma_pong_monotonic(
    s: SessionView,
    ev1: EnvView,
    ev2: EnvView,
    m: Seq<char>,
    now1: int,
    now2: int,
)
    requires
        s.state is Registered,
        ev1.event == "ping"@,
        env_valid(ev1),
        ev2.event == "ping"@,
        env_valid(ev2),
    ensures
        ({
            let (s1, a1) = session_step(s, Some(ev1), m, now1);
            let (s2, a2) = session_step(s1, Some(ev2), m, now2);
            &&& a1 == ActionView::Reply(enc(heartbeat_json("pong"@, s1.last_pong)))
            &&& a2 == ActionView::Reply(enc(heartbeat_json("pong"@, s2.last_pong)))
            &&& s.last_pong <= s1.last_pong <= s2.last_pong
            &&& s1.state == s.state && s2.state == s.state
        }),
{
    crate::codec::lemma_events_distinct();
}

} // verus!
