//! The signaling envelope and its validation rules.
//!
//! An envelope is the JSON message exchanged on the WebSocket. Each
//! event kind requires a particular set of non-empty fields; `validate`
//! enforces exactly that table and rejects unknown events.

use vstd::prelude::*;

use crate::json::{
    Json, JsonValue, dec, enc, jv, jv_pairs, json_wf, lemma_jv_pairs, json_encode, json_decode_str,
    u64_dec, dec_val, digit, lemma_u64_dec, lemma_u64_dec_wf, lemma_u64_dec_len,
    lemma_json_round_trip, obj_get, str_to_chars, u64_to_dec, dec_to_u64,
};

verus! {

broadcast use {vstd::string::group_string_axioms, vstd::seq::group_seq_axioms,
    vstd::std_specs::vec::group_vec_axioms};

/// The wire envelope. `payload` is opaque to the routing core: it is
/// carried and forwarded, and only `register` reads two of its keys.
pub struct SocketMessage {
    pub from_email: String,
    pub from_token: String,
    pub from_device: String,
    pub to_email: String,
    pub to_device: String,
    pub event: String,
    pub payload: crate::json::JsonValue,
}

/// The events that carry a peer target and are forwarded verbatim.
pub open spec fn is_forward_event(e: Seq<char>) -> bool {
    e == "try_connect"@ || e == "sdp_offer"@ || e == "sdp_answer"@ || e == "ice_candidate"@
}

/// The closed set of events a client may send.
pub open spec fn is_known_event(e: Seq<char>) -> bool {
    e == "register"@ || e == "check"@ || e == "connect"@ || is_forward_event(e)
        || e == "ping"@ || e == "pong"@ || e == "disconnect"@
}

/// The per-event required-field table: which envelopes are valid.
pub open spec fn env_valid(m: EnvView) -> bool {
    &&& is_known_event(m.event)
    &&& (m.event == "register"@ ==> m.from_email.len() > 0 && m.from_token.len() > 0
        && m.from_device.len() > 0)
    &&& (m.event == "check"@ ==> m.from_email.len() > 0)
    &&& (m.event == "connect"@ ==> m.from_email.len() > 0)
    &&& (is_forward_event(m.event) ==> m.from_email.len() > 0 && m.to_email.len() > 0
        && m.to_device.len() > 0 && m.from_device.len() > 0)
}

/// The error named for an invalid envelope: the first missing field
/// in table order, or the unknown event.
pub open spec fn validation_msg(m: EnvView) -> Seq<char> {
    if m.event == "register"@ {
        if m.from_email.len() == 0 {
            "from_email is required for register"@
        } else if m.from_token.len() == 0 {
            "from_token is required for register"@
        } else {
            "from_device is required for register"@
        }
    } else if m.event == "check"@ {
        "from_email is required for check"@
    } else if m.event == "connect"@ {
        "from_email is required for connect"@
    } else if is_forward_event(m.event) {
        if m.from_email.len() == 0 {
            "from_email is required"@
        } else if m.to_email.len() == 0 {
            "to_email is required"@
        } else if m.to_device.len() == 0 {
            "to_device is required"@
        } else {
            "from_device is required"@
        }
    } else {
        "Unknown event type: "@ + m.event
    }
}

/// The event and response literals are pairwise distinct.
pub proof fn lemma_events_distinct()
    ensures
        "register"@ != "check"@,
        "register"@ != "connect"@,
        "register"@ != "try_connect"@,
        "register"@ != "sdp_offer"@,
        "register"@ != "sdp_answer"@,
        "register"@ != "ice_candidate"@,
        "register"@ != "ping"@,
        "register"@ != "pong"@,
        "register"@ != "disconnect"@,
        "register"@ != "user_joined"@,
        "register"@ != "user_left"@,
        "register"@ != "error"@,
        "register"@ != "connected"@,
        "register"@ != "target_not_found"@,
        "check"@ != "connect"@,
        "check"@ != "try_connect"@,
        "check"@ != "sdp_offer"@,
        "check"@ != "sdp_answer"@,
        "check"@ != "ice_candidate"@,
        "check"@ != "ping"@,
        "check"@ != "pong"@,
        "check"@ != "disconnect"@,
        "check"@ != "user_joined"@,
        "check"@ != "user_left"@,
        "check"@ != "error"@,
        "check"@ != "connected"@,
        "check"@ != "target_not_found"@,
        "connect"@ != "try_connect"@,
        "connect"@ != "sdp_offer"@,
        "connect"@ != "sdp_answer"@,
        "connect"@ != "ice_candidate"@,
        "connect"@ != "ping"@,
        "connect"@ != "pong"@,
        "connect"@ != "disconnect"@,
        "connect"@ != "user_joined"@,
        "connect"@ != "user_left"@,
        "connect"@ != "error"@,
        "connect"@ != "connected"@,
        "connect"@ != "target_not_found"@,
        "try_connect"@ != "sdp_offer"@,
        "try_connect"@ != "sdp_answer"@,
        "try_connect"@ != "ice_candidate"@,
        "try_connect"@ != "ping"@,
        "try_connect"@ != "pong"@,
        "try_connect"@ != "disconnect"@,
        "try_connect"@ != "user_joined"@,
        "try_connect"@ != "user_left"@,
        "try_connect"@ != "error"@,
        "try_connect"@ != "connected"@,
        "try_connect"@ != "target_not_found"@,
        "sdp_offer"@ != "sdp_answer"@,
        "sdp_offer"@ != "ice_candidate"@,
        "sdp_offer"@ != "ping"@,
        "sdp_offer"@ != "pong"@,
        "sdp_offer"@ != "disconnect"@,
        "sdp_offer"@ != "user_joined"@,
        "sdp_offer"@ != "user_left"@,
        "sdp_offer"@ != "error"@,
        "sdp_offer"@ != "connected"@,
        "sdp_offer"@ != "target_not_found"@,
        "sdp_answer"@ != "ice_candidate"@,
        "sdp_answer"@ != "ping"@,
        "sdp_answer"@ != "pong"@,
        "sdp_answer"@ != "disconnect"@,
        "sdp_answer"@ != "user_joined"@,
        "sdp_answer"@ != "user_left"@,
        "sdp_answer"@ != "error"@,
        "sdp_answer"@ != "connected"@,
        "sdp_answer"@ != "target_not_found"@,
        "ice_candidate"@ != "ping"@,
        "ice_candidate"@ != "pong"@,
        "ice_candidate"@ != "disconnect"@,
        "ice_candidate"@ != "user_joined"@,
        "ice_candidate"@ != "user_left"@,
        "ice_candidate"@ != "error"@,
        "ice_candidate"@ != "connected"@,
        "ice_candidate"@ != "target_not_found"@,
        "ping"@ != "pong"@,
        "ping"@ != "disconnect"@,
        "ping"@ != "user_joined"@,
        "ping"@ != "user_left"@,
        "ping"@ != "error"@,
        "ping"@ != "connected"@,
        "ping"@ != "target_not_found"@,
        "pong"@ != "disconnect"@,
        "pong"@ != "user_joined"@,
        "pong"@ != "user_left"@,
        "pong"@ != "error"@,
        "pong"@ != "connected"@,
        "pong"@ != "target_not_found"@,
        "disconnect"@ != "user_joined"@,
        "disconnect"@ != "user_left"@,
        "disconnect"@ != "error"@,
        "disconnect"@ != "connected"@,
        "disconnect"@ != "target_not_found"@,
        "user_joined"@ != "user_left"@,
        "user_joined"@ != "error"@,
        "user_joined"@ != "connected"@,
        "user_joined"@ != "target_not_found"@,
        "user_left"@ != "error"@,
        "user_left"@ != "connected"@,
        "user_left"@ != "target_not_found"@,
        "error"@ != "connected"@,
        "error"@ != "target_not_found"@,
        "connected"@ != "target_not_found"@,
{
    reveal_strlit("register");
    reveal_strlit("check");
    reveal_strlit("connect");
    reveal_strlit("try_connect");
    reveal_strlit("sdp_offer");
    reveal_strlit("sdp_answer");
    reveal_strlit("ice_candidate");
    reveal_strlit("ping");
    reveal_strlit("pong");
    reveal_strlit("disconnect");
    reveal_strlit("user_joined");
    reveal_strlit("user_left");
    reveal_strlit("error");
    reveal_strlit("connected");
    reveal_strlit("target_not_found");
    assert("register"@.len() == 8);
    assert("check"@.len() == 5);
    assert("connect"@.len() == 7);
    assert("try_connect"@.len() == 11);
    assert("sdp_offer"@.len() == 9);
    assert("sdp_answer"@.len() == 10);
    assert("ice_candidate"@.len() == 13);
    assert("ping"@.len() == 4);
    assert("pong"@.len() == 4);
    assert("disconnect"@.len() == 10);
    assert("user_joined"@.len() == 11);
    assert("user_left"@.len() == 9);
    assert("error"@.len() == 5);
    assert("connected"@.len() == 9);
    assert("target_not_found"@.len() == 16);
    assert("ping"@[1] == 'i');
    assert("pong"@[1] == 'o');
    assert("check"@[0] == 'c');
    assert("error"@[0] == 'e');
    assert("sdp_offer"@[0] == 's');
    assert("user_left"@[0] == 'u');
    assert("connected"@[0] == 'c');
    assert("sdp_answer"@[0] == 's');
    assert("disconnect"@[0] == 'd');
    assert("try_connect"@[0] == 't');
    assert("user_joined"@[0] == 'u');
}

impl SocketMessage {
    /// Checks the required-field table for this envelope's event.
    /// Returns `Ok` exactly on valid envelopes; the error names the
    /// first missing field, or the unknown event.
    pub fn validate(&self) -> (r: Result<(), String>)
        ensures
            r is Ok <==> env_valid(self@),
            r is Err ==> r->Err_0@ == validation_msg(self@),
    {
        proof {
            lemma_events_distinct();
        }
        let ev: &str = self.event.as_str();
        if str_eq(ev, "register") {
            if self.from_email.as_str().is_empty() {
                Err("from_email is required for register".to_owned())
            } else if self.from_token.as_str().is_empty() {
                Err("from_token is required for register".to_owned())
            } else if self.from_device.as_str().is_empty() {
                Err("from_device is required for register".to_owned())
            } else {
                Ok(())
            }
        } else if str_eq(ev, "check") {
            if self.from_email.as_str().is_empty() {
                Err("from_email is required for check".to_owned())
            } else {
                Ok(())
            }
        } else if str_eq(ev, "connect") {
            if self.from_email.as_str().is_empty() {
                Err("from_email is required for connect".to_owned())
            } else {
                Ok(())
            }
        } else if str_eq(ev, "try_connect") || str_eq(ev, "sdp_offer") || str_eq(ev, "sdp_answer")
            || str_eq(ev, "ice_candidate") {
            if self.from_email.as_str().is_empty() {
                Err("from_email is required".to_owned())
            } else if self.to_email.as_str().is_empty() {
                Err("to_email is required".to_owned())
            } else if self.to_device.as_str().is_empty() {
                Err("to_device is required".to_owned())
            } else if self.from_device.as_str().is_empty() {
                Err("from_device is required".to_owned())
            } else {
                Ok(())
            }
        } else if str_eq(ev, "ping") || str_eq(ev, "pong") || str_eq(ev, "disconnect") {
            Ok(())
        } else {
            let mut msg = String::new();
            msg.append("Unknown event type: ");
            msg.append(ev);
            proof {
                assert(msg@ =~= "Unknown event type: "@ + self.event@);
            }
            Err(msg)
        }
    }
}

/// Character-for-character comparison of two string slices.
pub fn str_eq(a: &str, b: &str) -> (r: bool)
    ensures
        r <==> a@ == b@,
{
    let alen = a.unicode_len();
    let blen = b.unicode_len();
    if alen != blen {
        assert(a@.len() != b@.len());
        return false;
    }
    let mut i: usize = 0;
    while i < alen
        invariant
            alen == a@.len(),
            blen == b@.len(),
            alen == blen,
            0 <= i <= alen,
            forall|k: int| 0 <= k < i ==> a@[k] == b@[k],
        decreases alen - i,
    {
        if a.get_char(i) != b.get_char(i) {
            return false;
        }
        i += 1;
    }
    assert(a@ =~= b@);
    true
}


// ---------------------------------------------------------------------------
// The envelope as a JSON object
// ---------------------------------------------------------------------------

/// The mathematical content of an envelope.
pub struct EnvView {
    pub from_email: Seq<char>,
    pub from_token: Seq<char>,
    pub from_device: Seq<char>,
    pub to_email: Seq<char>,
    pub to_device: Seq<char>,
    pub event: Seq<char>,
    pub payload: Json,
}

impl View for SocketMessage {
    type V = EnvView;

    open spec fn view(&self) -> EnvView {
        EnvView {
            from_email: self.from_email@,
            from_token: self.from_token@,
            from_device: self.from_device@,
            to_email: self.to_email@,
            to_device: self.to_device@,
            event: self.event@,
            payload: jv(self.payload),
        }
    }
}

/// The JSON object of an envelope, fields in wire order.
pub open spec fn env_json(v: EnvView) -> Json {
    Json::Obj(
        seq![
            ("from_email"@, Json::Str(v.from_email)),
            ("from_token"@, Json::Str(v.from_token)),
            ("from_device"@, Json::Str(v.from_device)),
            ("to_email"@, Json::Str(v.to_email)),
            ("to_device"@, Json::Str(v.to_device)),
            ("event"@, Json::Str(v.event)),
            ("payload"@, v.payload),
        ],
    )
}

/// The wire text of an envelope.
pub open spec fn enc_envelope(v: EnvView) -> Seq<char> {
    enc(env_json(v))
}

impl Clone for SocketMessage {
    /// A field-for-field copy.
    fn clone(&self) -> (r: Self)
        ensures
            r@ == self@,
    {
        SocketMessage {
            from_email: self.from_email.clone(),
            from_token: self.from_token.clone(),
            from_device: self.from_device.clone(),
            to_email: self.to_email.clone(),
            to_device: self.to_device.clone(),
            event: self.event.clone(),
            payload: crate::json::json_clone(&self.payload),
        }
    }
}

impl SocketMessage {
    /// The envelope as a JSON document.
    pub fn to_json(&self) -> (r: JsonValue)
        ensures
            jv(r) == env_json(self@),
    {
        let pairs: Vec<(String, JsonValue)> = vec![
            (String::from_str("from_email"), JsonValue::Str(self.from_email.clone())),
            (String::from_str("from_token"), JsonValue::Str(self.from_token.clone())),
            (String::from_str("from_device"), JsonValue::Str(self.from_device.clone())),
            (String::from_str("to_email"), JsonValue::Str(self.to_email.clone())),
            (String::from_str("to_device"), JsonValue::Str(self.to_device.clone())),
            (String::from_str("event"), JsonValue::Str(self.event.clone())),
            (String::from_str("payload"), crate::json::json_clone(&self.payload)),
        ];
        let r = JsonValue::Obj(pairs);
        proof {
            let expected = env_json(self@)->Obj_0;
            lemma_jv_pairs(r->Obj_0@);
            assert(jv_pairs(r->Obj_0@) =~= expected);
            assert(jv(r) == env_json(self@));
        }
        r
    }

    /// The wire text of the envelope.
    pub fn encode(&self) -> (r: String)
        ensures
            r@ == enc_envelope(self@),
    {
        let v = self.to_json();
        json_encode(&v)
    }
}

/// The field names used on the wire are pairwise distinct.
pub proof fn lemma_keys_distinct()
    ensures
        "from_email"@ != "from_token"@,
        "from_email"@ != "from_device"@,
        "from_email"@ != "to_email"@,
        "from_email"@ != "to_device"@,
        "from_email"@ != "event"@,
        "from_email"@ != "payload"@,
        "from_email"@ != "target_email"@,
        "from_email"@ != "target_device"@,
        "from_email"@ != "socket_message"@,
        "from_email"@ != "sender_pod"@,
        "from_email"@ != "timestamp"@,
        "from_email"@ != "socket_id"@,
        "from_email"@ != "device_name"@,
        "from_email"@ != "device_type"@,
        "from_email"@ != "device_id"@,
        "from_email"@ != "email"@,
        "from_email"@ != "devices"@,
        "from_email"@ != "status"@,
        "from_email"@ != "error"@,
        "from_email"@ != "ok"@,
        "from_token"@ != "from_device"@,
        "from_token"@ != "to_email"@,
        "from_token"@ != "to_device"@,
        "from_token"@ != "event"@,
        "from_token"@ != "payload"@,
        "from_token"@ != "target_email"@,
        "from_token"@ != "target_device"@,
        "from_token"@ != "socket_message"@,
        "from_token"@ != "sender_pod"@,
        "from_token"@ != "timestamp"@,
        "from_token"@ != "socket_id"@,
        "from_token"@ != "device_name"@,
        "from_token"@ != "device_type"@,
        "from_token"@ != "device_id"@,
        "from_token"@ != "email"@,
        "from_token"@ != "devices"@,
        "from_token"@ != "status"@,
        "from_token"@ != "error"@,
        "from_token"@ != "ok"@,
        "from_device"@ != "to_email"@,
        "from_device"@ != "to_device"@,
        "from_device"@ != "event"@,
        "from_device"@ != "payload"@,
        "from_device"@ != "target_email"@,
        "from_device"@ != "target_device"@,
        "from_device"@ != "socket_message"@,
        "from_device"@ != "sender_pod"@,
        "from_device"@ != "timestamp"@,
        "from_device"@ != "socket_id"@,
        "from_device"@ != "device_name"@,
        "from_device"@ != "device_type"@,
        "from_device"@ != "device_id"@,
        "from_device"@ != "email"@,
        "from_device"@ != "devices"@,
        "from_device"@ != "status"@,
        "from_device"@ != "error"@,
        "from_device"@ != "ok"@,
        "to_email"@ != "to_device"@,
        "to_email"@ != "event"@,
        "to_email"@ != "payload"@,
        "to_email"@ != "target_email"@,
        "to_email"@ != "target_device"@,
        "to_email"@ != "socket_message"@,
        "to_email"@ != "sender_pod"@,
        "to_email"@ != "timestamp"@,
        "to_email"@ != "socket_id"@,
        "to_email"@ != "device_name"@,
        "to_email"@ != "device_type"@,
        "to_email"@ != "device_id"@,
        "to_email"@ != "email"@,
        "to_email"@ != "devices"@,
        "to_email"@ != "status"@,
        "to_email"@ != "error"@,
        "to_email"@ != "ok"@,
        "to_device"@ != "event"@,
        "to_device"@ != "payload"@,
        "to_device"@ != "target_email"@,
        "to_device"@ != "target_device"@,
        "to_device"@ != "socket_message"@,
        "to_device"@ != "sender_pod"@,
        "to_device"@ != "timestamp"@,
        "to_device"@ != "socket_id"@,
        "to_device"@ != "device_name"@,
        "to_device"@ != "device_type"@,
        "to_device"@ != "device_id"@,
        "to_device"@ != "email"@,
        "to_device"@ != "devices"@,
        "to_device"@ != "status"@,
        "to_device"@ != "error"@,
        "to_device"@ != "ok"@,
        "event"@ != "payload"@,
        "event"@ != "target_email"@,
        "event"@ != "target_device"@,
        "event"@ != "socket_message"@,
        "event"@ != "sender_pod"@,
        "event"@ != "timestamp"@,
        "event"@ != "socket_id"@,
        "event"@ != "device_name"@,
        "event"@ != "device_type"@,
        "event"@ != "device_id"@,
        "event"@ != "email"@,
        "event"@ != "devices"@,
        "event"@ != "status"@,
        "event"@ != "error"@,
        "event"@ != "ok"@,
        "payload"@ != "target_email"@,
        "payload"@ != "target_device"@,
        "payload"@ != "socket_message"@,
        "payload"@ != "sender_pod"@,
        "payload"@ != "timestamp"@,
        "payload"@ != "socket_id"@,
        "payload"@ != "device_name"@,
        "payload"@ != "device_type"@,
        "payload"@ != "device_id"@,
        "payload"@ != "email"@,
        "payload"@ != "devices"@,
        "payload"@ != "status"@,
        "payload"@ != "error"@,
        "payload"@ != "ok"@,
        "target_email"@ != "target_device"@,
        "target_email"@ != "socket_message"@,
        "target_email"@ != "sender_pod"@,
        "target_email"@ != "timestamp"@,
        "target_email"@ != "socket_id"@,
        "target_email"@ != "device_name"@,
        "target_email"@ != "device_type"@,
        "target_email"@ != "device_id"@,
        "target_email"@ != "email"@,
        "target_email"@ != "devices"@,
        "target_email"@ != "status"@,
        "target_email"@ != "error"@,
        "target_email"@ != "ok"@,
        "target_device"@ != "socket_message"@,
        "target_device"@ != "sender_pod"@,
        "target_device"@ != "timestamp"@,
        "target_device"@ != "socket_id"@,
        "target_device"@ != "device_name"@,
        "target_device"@ != "device_type"@,
        "target_device"@ != "device_id"@,
        "target_device"@ != "email"@,
        "target_device"@ != "devices"@,
        "target_device"@ != "status"@,
        "target_device"@ != "error"@,
        "target_device"@ != "ok"@,
        "socket_message"@ != "sender_pod"@,
        "socket_message"@ != "timestamp"@,
        "socket_message"@ != "socket_id"@,
        "socket_message"@ != "device_name"@,
        "socket_message"@ != "device_type"@,
        "socket_message"@ != "device_id"@,
        "socket_message"@ != "email"@,
        "socket_message"@ != "devices"@,
        "socket_message"@ != "status"@,
        "socket_message"@ != "error"@,
        "socket_message"@ != "ok"@,
        "sender_pod"@ != "timestamp"@,
        "sender_pod"@ != "socket_id"@,
        "sender_pod"@ != "device_name"@,
        "sender_pod"@ != "device_type"@,
        "sender_pod"@ != "device_id"@,
        "sender_pod"@ != "email"@,
        "sender_pod"@ != "devices"@,
        "sender_pod"@ != "status"@,
        "sender_pod"@ != "error"@,
        "sender_pod"@ != "ok"@,
        "timestamp"@ != "socket_id"@,
        "timestamp"@ != "device_name"@,
        "timestamp"@ != "device_type"@,
        "timestamp"@ != "device_id"@,
        "timestamp"@ != "email"@,
        "timestamp"@ != "devices"@,
        "timestamp"@ != "status"@,
        "timestamp"@ != "error"@,
        "timestamp"@ != "ok"@,
        "socket_id"@ != "device_name"@,
        "socket_id"@ != "device_type"@,
        "socket_id"@ != "device_id"@,
        "socket_id"@ != "email"@,
        "socket_id"@ != "devices"@,
        "socket_id"@ != "status"@,
        "socket_id"@ != "error"@,
        "socket_id"@ != "ok"@,
        "device_name"@ != "device_type"@,
        "device_name"@ != "device_id"@,
        "device_name"@ != "email"@,
        "device_name"@ != "devices"@,
        "device_name"@ != "status"@,
        "device_name"@ != "error"@,
        "device_name"@ != "ok"@,
        "device_type"@ != "device_id"@,
        "device_type"@ != "email"@,
        "device_type"@ != "devices"@,
        "device_type"@ != "status"@,
        "device_type"@ != "error"@,
        "device_type"@ != "ok"@,
        "device_id"@ != "email"@,
        "device_id"@ != "devices"@,
        "device_id"@ != "status"@,
        "device_id"@ != "error"@,
        "device_id"@ != "ok"@,
        "email"@ != "devices"@,
        "email"@ != "status"@,
        "email"@ != "error"@,
        "email"@ != "ok"@,
        "devices"@ != "status"@,
        "devices"@ != "error"@,
        "devices"@ != "ok"@,
        "status"@ != "error"@,
        "status"@ != "ok"@,
        "error"@ != "ok"@,
{
    reveal_strlit("from_email");
    reveal_strlit("from_token");
    reveal_strlit("from_device");
    reveal_strlit("to_email");
    reveal_strlit("to_device");
    reveal_strlit("event");
    reveal_strlit("payload");
    reveal_strlit("target_email");
    reveal_strlit("target_device");
    reveal_strlit("socket_message");
    reveal_strlit("sender_pod");
    reveal_strlit("timestamp");
    reveal_strlit("socket_id");
    reveal_strlit("device_name");
    reveal_strlit("device_type");
    reveal_strlit("device_id");
    reveal_strlit("email");
    reveal_strlit("devices");
    reveal_strlit("status");
    reveal_strlit("error");
    reveal_strlit("ok");
    assert("from_email"@.len() == 10);
    assert("from_token"@.len() == 10);
    assert("from_device"@.len() == 11);
    assert("to_email"@.len() == 8);
    assert("to_device"@.len() == 9);
    assert("event"@.len() == 5);
    assert("payload"@.len() == 7);
    assert("target_email"@.len() == 12);
    assert("target_device"@.len() == 13);
    assert("socket_message"@.len() == 14);
    assert("sender_pod"@.len() == 10);
    assert("timestamp"@.len() == 9);
    assert("socket_id"@.len() == 9);
    assert("device_name"@.len() == 11);
    assert("device_type"@.len() == 11);
    assert("device_id"@.len() == 9);
    assert("email"@.len() == 5);
    assert("devices"@.len() == 7);
    assert("status"@.len() == 6);
    assert("error"@.len() == 5);
    assert("ok"@.len() == 2);
    assert("device_id"@[0] == 'd');
    assert("device_name"@[0] == 'd');
    assert("device_name"@[7] == 'n');
    assert("device_type"@[0] == 'd');
    assert("device_type"@[7] == 't');
    assert("devices"@[0] == 'd');
    assert("email"@[1] == 'm');
    assert("error"@[1] == 'r');
    assert("event"@[1] == 'v');
    assert("from_device"@[0] == 'f');
    assert("from_email"@[0] == 'f');
    assert("from_email"@[5] == 'e');
    assert("from_token"@[0] == 'f');
    assert("from_token"@[5] == 't');
    assert("payload"@[0] == 'p');
    assert("sender_pod"@[0] == 's');
    assert("socket_id"@[0] == 's');
    assert("timestamp"@[0] == 't');
    assert("timestamp"@[1] == 'i');
    assert("to_device"@[0] == 't');
    assert("to_device"@[1] == 'o');
}


// ---------------------------------------------------------------------------
// Reading an envelope back from JSON
// ---------------------------------------------------------------------------

/// The string bound to `key`, if the member exists and is a string.
pub open spec fn str_field(ps: Seq<(Seq<char>, Json)>, key: Seq<char>) -> Option<Seq<char>> {
    match obj_get(ps, key) {
        Some(Json::Str(t)) => Some(t),
        _ => None,
    }
}

/// The envelope read from a JSON document: six string fields and a
/// payload, found by key, extra members ignored.
pub open spec fn env_of(j: Json) -> Option<EnvView> {
    match j {
        Json::Obj(ps) => if str_field(ps, "from_email"@) is Some && str_field(
            ps,
            "from_token"@,
        ) is Some && str_field(ps, "from_device"@) is Some && str_field(ps, "to_email"@) is Some
            && str_field(ps, "to_device"@) is Some && str_field(ps, "event"@) is Some && obj_get(
            ps,
            "payload"@,
        ) is Some {
            Some(
                EnvView {
                    from_email: str_field(ps, "from_email"@).unwrap(),
                    from_token: str_field(ps, "from_token"@).unwrap(),
                    from_device: str_field(ps, "from_device"@).unwrap(),
                    to_email: str_field(ps, "to_email"@).unwrap(),
                    to_device: str_field(ps, "to_device"@).unwrap(),
                    event: str_field(ps, "event"@).unwrap(),
                    payload: obj_get(ps, "payload"@).unwrap(),
                },
            )
        } else {
            None
        },
        _ => None,
    }
}

/// The envelope carried by a JSON text, if any.
pub open spec fn envelope_of_text(t: Seq<char>) -> Option<EnvView> {
    match dec(t) {
        Some(j) => env_of(j),
        None => None,
    }
}

/// Lookups before the first hit do not change the result.
pub proof fn lemma_obj_get_skip(ps: Seq<(Seq<char>, Json)>, n: int, key: Seq<char>)
    requires
        0 <= n <= ps.len(),
        forall|k: int| 0 <= k < n ==> (#[trigger] ps[k]).0 != key,
    ensures
        obj_get(ps, key) == obj_get(ps.subrange(n, ps.len() as int), key),
    decreases n,
{
    if n > 0 {
        assert(ps[0].0 != key);
        assert(ps.drop_first() =~= ps.subrange(1, ps.len() as int));
        lemma_obj_get_skip(ps.drop_first(), n - 1, key);
        assert(ps.drop_first().subrange(n - 1, ps.drop_first().len() as int) =~= ps.subrange(
            n,
            ps.len() as int,
        ));
    } else {
        assert(ps.subrange(0, ps.len() as int) =~= ps);
    }
}

/// The string member bound to `key`, cloned out of the object.
pub fn obj_find_str(ps: &Vec<(String, JsonValue)>, key: &str) -> (r: Option<String>)
    ensures
        match str_field(jv_pairs(ps@), key@) {
            Some(t) => r is Some && r.unwrap()@ == t,
            None => r is None,
        },
{
    proof {
        lemma_jv_pairs(ps@);
    }
    let ghost full = jv_pairs(ps@);
    let mut i: usize = 0;
    while i < ps.len()
        invariant
            0 <= i <= ps.len(),
            full == jv_pairs(ps@),
            full.len() == ps@.len(),
            forall|k: int| 0 <= k < ps@.len() ==> full[k] == (ps@[k].0@, jv(ps@[k].1)),
            forall|k: int| 0 <= k < i ==> (#[trigger] full[k]).0 != key@,
        decreases ps.len() - i,
    {
        if str_eq(ps[i].0.as_str(), key) {
            proof {
                lemma_obj_get_skip(full, i as int, key@);
                let suff = full.subrange(i as int, full.len() as int);
                assert(suff[0] == full[i as int]);
                assert(obj_get(full, key@) == Some(full[i as int].1));
            }
            match &ps[i].1 {
                JsonValue::Str(t) => {
                    return Some(t.clone());
                },
                _ => {
                    return None;
                },
            }
        }
        i += 1;
    }
    proof {
        lemma_obj_get_skip(full, full.len() as int, key@);
        assert(full.subrange(full.len() as int, full.len() as int) =~= Seq::<(
            Seq<char>,
            Json,
        )>::empty());
    }
    None
}

/// Removes and returns the first member bound to `key`.
fn obj_take(ps: &mut Vec<(String, JsonValue)>, key: &str) -> (r: Option<JsonValue>)
    ensures
        match obj_get(jv_pairs(old(ps)@), key@) {
            Some(j) => r is Some && jv(r.unwrap()) == j,
            None => r is None,
        },
{
    proof {
        lemma_jv_pairs(ps@);
    }
    let ghost full = jv_pairs(ps@);
    let mut i: usize = 0;
    while i < ps.len()
        invariant
            0 <= i <= ps.len(),
            ps@ == old(ps)@,
            full == jv_pairs(ps@),
            full.len() == ps@.len(),
            forall|k: int| 0 <= k < ps@.len() ==> full[k] == (ps@[k].0@, jv(ps@[k].1)),
            forall|k: int| 0 <= k < i ==> (#[trigger] full[k]).0 != key@,
        decreases ps.len() - i,
    {
        if str_eq(ps[i].0.as_str(), key) {
            proof {
                lemma_obj_get_skip(full, i as int, key@);
                let suff = full.subrange(i as int, full.len() as int);
                assert(suff[0] == full[i as int]);
                assert(obj_get(full, key@) == Some(full[i as int].1));
            }
            let el = ps.remove(i);
            return Some(el.1);
        }
        i += 1;
    }
    proof {
        lemma_obj_get_skip(full, full.len() as int, key@);
        assert(full.subrange(full.len() as int, full.len() as int) =~= Seq::<(
            Seq<char>,
            Json,
        )>::empty());
    }
    None
}

/// Builds an envelope from a decoded JSON document.
pub fn envelope_from_json(v: JsonValue) -> (r: Option<SocketMessage>)
    ensures
        match env_of(jv(v)) {
            Some(ev) => r is Some && r.unwrap()@ == ev,
            None => r is None,
        },
{
    match v {
        JsonValue::Obj(mut ps) => {
            let fe = obj_find_str(&ps, "from_email");
            let ft = obj_find_str(&ps, "from_token");
            let fd = obj_find_str(&ps, "from_device");
            let te = obj_find_str(&ps, "to_email");
            let td = obj_find_str(&ps, "to_device");
            let ev = obj_find_str(&ps, "event");
            let pay = obj_take(&mut ps, "payload");
            match (fe, ft, fd, te, td, ev, pay) {
                (
                    Some(from_email),
                    Some(from_token),
                    Some(from_device),
                    Some(to_email),
                    Some(to_device),
                    Some(event),
                    Some(payload),
                ) => Some(
                    SocketMessage {
                        from_email,
                        from_token,
                        from_device,
                        to_email,
                        to_device,
                        event,
                        payload,
                    },
                ),
                _ => None,
            }
        },
        _ => None,
    }
}

impl SocketMessage {
    /// Reads an envelope from a JSON text.
    pub fn decode(text: &str) -> (r: Option<SocketMessage>)
        ensures
            match envelope_of_text(text@) {
                Some(ev) => r is Some && r.unwrap()@ == ev,
                None => r is None,
            },
    {
        match json_decode_str(text) {
            Some(v) => envelope_from_json(v),
            None => None,
        }
    }
}

/// Decoding the wire text of an envelope yields the envelope: the
/// codec round-trips every envelope whose payload is well-formed.
pub proof fn lemma_envelope_round_trip(v: EnvView)
    requires
        json_wf(v.payload),
    ensures
        envelope_of_text(enc_envelope(v)) == Some(v),
{
    let j = env_json(v);
    let ps = j->Obj_0;
    assert(json_wf(j)) by {
        assert(forall|i: int| 0 <= i < ps.len() ==> json_wf(#[trigger] ps[i].1)) by {
            assert(json_wf(ps[0].1));
            assert(json_wf(ps[1].1));
            assert(json_wf(ps[2].1));
            assert(json_wf(ps[3].1));
            assert(json_wf(ps[4].1));
            assert(json_wf(ps[5].1));
            assert(json_wf(ps[6].1));
        }
    }
    lemma_json_round_trip(j);
    lemma_keys_distinct();
    lemma_env_of_env_json(v);
}

/// On wire texts the codec itself produced, decoding and re-encoding
/// is the identity.
pub proof fn lemma_envelope_text_round_trip(v: EnvView, t: Seq<char>)
    requires
        json_wf(v.payload),
        t == enc_envelope(v),
    ensures
        envelope_of_text(t) is Some,
        enc_envelope(envelope_of_text(t).unwrap()) == t,
{
    lemma_envelope_round_trip(v);
}

proof fn lemma_env_of_env_json(v: EnvView)
    ensures
        env_of(env_json(v)) == Some(v),
{
    lemma_keys_distinct();
    let ps = env_json(v)->Obj_0;
    lemma_obj_get_skip(ps, 0, "from_email"@);
    assert(ps.subrange(0, 7) =~= ps);
    assert(obj_get(ps, "from_email"@) == Some(Json::Str(v.from_email)));
    lemma_obj_get_skip(ps, 1, "from_token"@);
    assert(ps.subrange(1, 7)[0] == ps[1]);
    assert(obj_get(ps, "from_token"@) == Some(Json::Str(v.from_token)));
    lemma_obj_get_skip(ps, 2, "from_device"@);
    assert(ps.subrange(2, 7)[0] == ps[2]);
    assert(obj_get(ps, "from_device"@) == Some(Json::Str(v.from_device)));
    lemma_obj_get_skip(ps, 3, "to_email"@);
    assert(ps.subrange(3, 7)[0] == ps[3]);
    assert(obj_get(ps, "to_email"@) == Some(Json::Str(v.to_email)));
    lemma_obj_get_skip(ps, 4, "to_device"@);
    assert(ps.subrange(4, 7)[0] == ps[4]);
    assert(obj_get(ps, "to_device"@) == Some(Json::Str(v.to_device)));
    lemma_obj_get_skip(ps, 5, "event"@);
    assert(ps.subrange(5, 7)[0] == ps[5]);
    assert(obj_get(ps, "event"@) == Some(Json::Str(v.event)));
    lemma_obj_get_skip(ps, 6, "payload"@);
    assert(ps.subrange(6, 7)[0] == ps[6]);
    assert(obj_get(ps, "payload"@) == Some(v.payload));
}


// ---------------------------------------------------------------------------
// Frames
// ---------------------------------------------------------------------------

/// A WebSocket frame as the session sees it: text, binary, or some
/// other kind (ping, pong, close), which carries no envelope.
pub enum Frame {
    Text(String),
    Binary(Vec<u8>),
    Other,
}

/// Relies on `String::from_utf8`: succeeds exactly on valid UTF-8,
/// and the returned text's UTF-8 encoding is the input.
#[verifier::external_body]
fn utf8_to_string(v: Vec<u8>) -> (r: Option<String>)
    ensures
        r is Some <==> vstd::utf8::valid_utf8(v@),
        r is Some ==> r.unwrap()@ == vstd::utf8::decode_utf8(v@),
{
    match String::from_utf8(v) {
        Ok(s) => Some(s),
        Err(_) => None,
    }
}

/// Why a frame without an envelope was rejected.
pub open spec fn parse_fail_msg(f: Frame) -> Seq<char> {
    match f {
        Frame::Text(_) => "invalid JSON envelope"@,
        Frame::Binary(b) => if vstd::utf8::valid_utf8(b@) {
            "invalid JSON envelope"@
        } else {
            "invalid UTF-8 frame"@
        },
        Frame::Other => "invalid event type"@,
    }
}

/// The envelope a frame carries, if any: a text frame is decoded as
/// it stands, a binary frame after UTF-8 decoding, other frames none.
pub open spec fn envelope_of_frame(f: Frame) -> Option<EnvView> {
    match f {
        Frame::Text(t) => envelope_of_text(t@),
        Frame::Binary(b) => if vstd::utf8::valid_utf8(b@) {
            envelope_of_text(vstd::utf8::decode_utf8(b@))
        } else {
            None
        },
        Frame::Other => None,
    }
}

impl SocketMessage {
    /// Reads an envelope out of a frame; the error says what failed.
    pub fn parse_message(message: Frame) -> (r: Result<SocketMessage, String>)
        ensures
            match envelope_of_frame(message) {
                Some(ev) => r is Ok && r.unwrap()@ == ev,
                None => r is Err && r->Err_0@ == parse_fail_msg(message),
            },
    {
        match message {
            Frame::Text(t) => match SocketMessage::decode(t.as_str()) {
                Some(m) => Ok(m),
                None => Err("invalid JSON envelope".to_owned()),
            },
            Frame::Binary(b) => match utf8_to_string(b) {
                Some(t) => match SocketMessage::decode(t.as_str()) {
                    Some(m) => Ok(m),
                    None => Err("invalid JSON envelope".to_owned()),
                },
                None => Err("invalid UTF-8 frame".to_owned()),
            },
            Frame::Other => Err("invalid event type".to_owned()),
        }
    }
}


// ---------------------------------------------------------------------------
// Device descriptors
// ---------------------------------------------------------------------------

/// A device present on some pod: created at register, destroyed on
/// disconnect. `device_id` is client-chosen; `socket_id` is fresh per
/// connection.
pub struct DeviceInfo {
    pub socket_id: String,
    pub device_name: Option<String>,
    pub device_type: Option<String>,
    pub device_id: String,
}

/// The mathematical content of a device descriptor.
pub struct DeviceView {
    pub socket_id: Seq<char>,
    pub device_name: Option<Seq<char>>,
    pub device_type: Option<Seq<char>>,
    pub device_id: Seq<char>,
}

impl View for DeviceInfo {
    type V = DeviceView;

    open spec fn view(&self) -> DeviceView {
        DeviceView {
            socket_id: self.socket_id@,
            device_name: match self.device_name {
                Some(ref s) => Some(s@),
                None => None,
            },
            device_type: match self.device_type {
                Some(ref s) => Some(s@),
                None => None,
            },
            device_id: self.device_id@,
        }
    }
}

impl Clone for DeviceInfo {
    /// A field-for-field copy.
    fn clone(&self) -> (r: Self)
        ensures
            r@ == self@,
    {
        DeviceInfo {
            socket_id: self.socket_id.clone(),
            device_name: match &self.device_name {
                Some(s) => Some(s.clone()),
                None => None,
            },
            device_type: match &self.device_type {
                Some(s) => Some(s.clone()),
                None => None,
            },
            device_id: self.device_id.clone(),
        }
    }
}

/// `null` for a missing text, the string otherwise.
pub open spec fn opt_str_json(o: Option<Seq<char>>) -> Json {
    match o {
        None => Json::Null,
        Some(t) => Json::Str(t),
    }
}

/// The JSON object of a device descriptor, fields in wire order.
pub open spec fn device_json(d: DeviceView) -> Json {
    Json::Obj(
        seq![
            ("socket_id"@, Json::Str(d.socket_id)),
            ("device_name"@, opt_str_json(d.device_name)),
            ("device_type"@, opt_str_json(d.device_type)),
            ("device_id"@, Json::Str(d.device_id)),
        ],
    )
}

/// An optional string member: absent or `null` is `None`, a string is
/// `Some`, anything else is an error.
pub open spec fn opt_str_field(ps: Seq<(Seq<char>, Json)>, key: Seq<char>) -> Option<
    Option<Seq<char>>,
> {
    match obj_get(ps, key) {
        None => Some(None),
        Some(Json::Null) => Some(None),
        Some(Json::Str(t)) => Some(Some(t)),
        Some(_) => None,
    }
}

/// The device descriptor read from a JSON document.
pub open spec fn device_of(j: Json) -> Option<DeviceView> {
    match j {
        Json::Obj(ps) => if str_field(ps, "socket_id"@) is Some && str_field(
            ps,
            "device_id"@,
        ) is Some && opt_str_field(ps, "device_name"@) is Some && opt_str_field(
            ps,
            "device_type"@,
        ) is Some {
            Some(
                DeviceView {
                    socket_id: str_field(ps, "socket_id"@).unwrap(),
                    device_name: opt_str_field(ps, "device_name"@).unwrap(),
                    device_type: opt_str_field(ps, "device_type"@).unwrap(),
                    device_id: str_field(ps, "device_id"@).unwrap(),
                },
            )
        } else {
            None
        },
        _ => None,
    }
}

/// An optional string member, cloned out of the object.
fn obj_find_opt_str(ps: &Vec<(String, JsonValue)>, key: &str) -> (r: Option<Option<String>>)
    ensures
        match opt_str_field(jv_pairs(ps@), key@) {
            Some(Some(t)) => r is Some && r.unwrap() is Some && r.unwrap().unwrap()@ == t,
            Some(None) => r == Some(Option::<String>::None),
            None => r is None,
        },
{
    proof {
        lemma_jv_pairs(ps@);
    }
    let ghost full = jv_pairs(ps@);
    let mut i: usize = 0;
    while i < ps.len()
        invariant
            0 <= i <= ps.len(),
            full == jv_pairs(ps@),
            full.len() == ps@.len(),
            forall|k: int| 0 <= k < ps@.len() ==> full[k] == (ps@[k].0@, jv(ps@[k].1)),
            forall|k: int| 0 <= k < i ==> (#[trigger] full[k]).0 != key@,
        decreases ps.len() - i,
    {
        if str_eq(ps[i].0.as_str(), key) {
            proof {
                lemma_obj_get_skip(full, i as int, key@);
                let suff = full.subrange(i as int, full.len() as int);
                assert(suff[0] == full[i as int]);
                assert(obj_get(full, key@) == Some(full[i as int].1));
            }
            match &ps[i].1 {
                JsonValue::Str(t) => {
                    return Some(Some(t.clone()));
                },
                JsonValue::Null => {
                    return Some(None);
                },
                _ => {
                    return None;
                },
            }
        }
        i += 1;
    }
    proof {
        lemma_obj_get_skip(full, full.len() as int, key@);
        assert(full.subrange(full.len() as int, full.len() as int) =~= Seq::<(
            Seq<char>,
            Json,
        )>::empty());
    }
    Some(None)
}

impl DeviceInfo {
    /// The descriptor as a JSON document.
    pub fn to_json(&self) -> (r: JsonValue)
        ensures
            jv(r) == device_json(self@),
    {
        let name: JsonValue = match &self.device_name {
            Some(s) => JsonValue::Str(s.clone()),
            None => JsonValue::Null,
        };
        let ty: JsonValue = match &self.device_type {
            Some(s) => JsonValue::Str(s.clone()),
            None => JsonValue::Null,
        };
        let pairs: Vec<(String, JsonValue)> = vec![
            (String::from_str("socket_id"), JsonValue::Str(self.socket_id.clone())),
            (String::from_str("device_name"), name),
            (String::from_str("device_type"), ty),
            (String::from_str("device_id"), JsonValue::Str(self.device_id.clone())),
        ];
        let r = JsonValue::Obj(pairs);
        proof {
            lemma_jv_pairs(r->Obj_0@);
            assert(jv_pairs(r->Obj_0@) =~= device_json(self@)->Obj_0);
        }
        r
    }

    /// The wire text of the descriptor.
    pub fn encode(&self) -> (r: String)
        ensures
            r@ == enc(device_json(self@)),
    {
        let v = self.to_json();
        json_encode(&v)
    }

    /// Builds a descriptor from a decoded JSON document.
    pub fn from_json(v: &JsonValue) -> (r: Option<DeviceInfo>)
        ensures
            match device_of(jv(*v)) {
                Some(dv) => r is Some && r.unwrap()@ == dv,
                None => r is None,
            },
    {
        match v {
            JsonValue::Obj(ps) => {
                let sid = obj_find_str(ps, "socket_id");
                let did = obj_find_str(ps, "device_id");
                let name = obj_find_opt_str(ps, "device_name");
                let ty = obj_find_opt_str(ps, "device_type");
                match (sid, did, name, ty) {
                    (Some(socket_id), Some(device_id), Some(device_name), Some(device_type)) => {
                        Some(DeviceInfo { socket_id, device_name, device_type, device_id })
                    },
                    _ => None,
                }
            },
            _ => None,
        }
    }

    /// Reads a descriptor from a JSON text.
    pub fn decode(text: &str) -> (r: Option<DeviceInfo>)
        ensures
            match dec(text@) {
                Some(j) => match device_of(j) {
                    Some(dv) => r is Some && r.unwrap()@ == dv,
                    None => r is None,
                },
                None => r is None,
            },
    {
        match json_decode_str(text) {
            Some(v) => DeviceInfo::from_json(&v),
            None => None,
        }
    }
}

/// Decoding the wire text of a device descriptor yields it back.
pub proof fn lemma_device_round_trip(d: DeviceView)
    ensures
        dec(enc(device_json(d))) == Some(device_json(d)),
        device_of(device_json(d)) == Some(d),
{
    let j = device_json(d);
    let ps = j->Obj_0;
    assert(json_wf(j)) by {
        assert(forall|i: int| 0 <= i < ps.len() ==> json_wf(#[trigger] ps[i].1)) by {
            assert(json_wf(ps[0].1));
            assert(json_wf(ps[1].1));
            assert(json_wf(ps[2].1));
            assert(json_wf(ps[3].1));
        }
    }
    lemma_json_round_trip(j);
    lemma_keys_distinct();
    lemma_obj_get_skip(ps, 0, "socket_id"@);
    assert(ps.subrange(0, 4) =~= ps);
    assert(obj_get(ps, "socket_id"@) == Some(Json::Str(d.socket_id)));
    lemma_obj_get_skip(ps, 1, "device_name"@);
    assert(ps.subrange(1, 4)[0] == ps[1]);
    assert(obj_get(ps, "device_name"@) == Some(opt_str_json(d.device_name)));
    lemma_obj_get_skip(ps, 2, "device_type"@);
    assert(ps.subrange(2, 4)[0] == ps[2]);
    assert(obj_get(ps, "device_type"@) == Some(opt_str_json(d.device_type)));
    lemma_obj_get_skip(ps, 3, "device_id"@);
    assert(ps.subrange(3, 4)[0] == ps[3]);
    assert(obj_get(ps, "device_id"@) == Some(Json::Str(d.device_id)));
}


// ---------------------------------------------------------------------------
// Routed messages on the bus
// ---------------------------------------------------------------------------

/// An envelope plus routing metadata, published on the fan-out
/// channel. Broadcasts set both targets to `"*"`.
pub struct RedisMessage {
    pub target_email: String,
    pub target_device: String,
    pub socket_message: SocketMessage,
    pub sender_pod: Option<String>,
    pub timestamp: Option<u64>,
}

/// The mathematical content of a routed message.
pub struct RoutedView {
    pub target_email: Seq<char>,
    pub target_device: Seq<char>,
    pub socket_message: EnvView,
    pub sender_pod: Option<Seq<char>>,
    pub timestamp: Option<int>,
}

impl View for RedisMessage {
    type V = RoutedView;

    open spec fn view(&self) -> RoutedView {
        RoutedView {
            target_email: self.target_email@,
            target_device: self.target_device@,
            socket_message: self.socket_message@,
            sender_pod: match self.sender_pod {
                Some(ref s) => Some(s@),
                None => None,
            },
            timestamp: match self.timestamp {
                Some(n) => Some(n as int),
                None => None,
            },
        }
    }
}

/// The JSON object of a routed message, fields in wire order.
pub open spec fn routed_json(r: RoutedView) -> Json {
    Json::Obj(
        seq![
            ("target_email"@, Json::Str(r.target_email)),
            ("target_device"@, Json::Str(r.target_device)),
            ("socket_message"@, env_json(r.socket_message)),
            ("sender_pod"@, opt_str_json(r.sender_pod)),
            (
                "timestamp"@,
                match r.timestamp {
                    Some(n) => Json::Num(u64_dec(n)),
                    None => Json::Null,
                },
            ),
        ],
    )
}

/// An optional timestamp member: absent or `null` is `None`, a digit
/// lexeme of at most eighteen digits is its value, anything else an
/// error.
pub open spec fn opt_ts_field(ps: Seq<(Seq<char>, Json)>, key: Seq<char>) -> Option<Option<int>> {
    match obj_get(ps, key) {
        None => Some(None),
        Some(Json::Null) => Some(None),
        Some(Json::Num(t)) => if 1 <= t.len() <= 18 && (forall|k: int|
            0 <= k < t.len() ==> digit(#[trigger] t[k])) {
            Some(Some(dec_val(t)))
        } else {
            None
        },
        Some(_) => None,
    }
}

/// The routed message read from a JSON document.
pub open spec fn routed_of(j: Json) -> Option<RoutedView> {
    match j {
        Json::Obj(ps) => if str_field(ps, "target_email"@) is Some && str_field(
            ps,
            "target_device"@,
        ) is Some && (match obj_get(ps, "socket_message"@) {
            Some(ej) => env_of(ej) is Some,
            None => false,
        }) && opt_str_field(ps, "sender_pod"@) is Some && opt_ts_field(ps, "timestamp"@) is Some {
            Some(
                RoutedView {
                    target_email: str_field(ps, "target_email"@).unwrap(),
                    target_device: str_field(ps, "target_device"@).unwrap(),
                    socket_message: env_of(obj_get(ps, "socket_message"@).unwrap()).unwrap(),
                    sender_pod: opt_str_field(ps, "sender_pod"@).unwrap(),
                    timestamp: opt_ts_field(ps, "timestamp"@).unwrap(),
                },
            )
        } else {
            None
        },
        _ => None,
    }
}

/// The routed message carried by a JSON text, if any.
pub open spec fn routed_of_text(t: Seq<char>) -> Option<RoutedView> {
    match dec(t) {
        Some(j) => routed_of(j),
        None => None,
    }
}

/// An optional timestamp member of the object.
fn obj_find_ts(ps: &Vec<(String, JsonValue)>, key: &str) -> (r: Option<Option<u64>>)
    ensures
        match opt_ts_field(jv_pairs(ps@), key@) {
            Some(Some(n)) => r is Some && r.unwrap() is Some && r.unwrap().unwrap() as int == n,
            Some(None) => r == Some(Option::<u64>::None),
            None => r is None,
        },
{
    proof {
        lemma_jv_pairs(ps@);
    }
    let ghost full = jv_pairs(ps@);
    let mut i: usize = 0;
    while i < ps.len()
        invariant
            0 <= i <= ps.len(),
            full == jv_pairs(ps@),
            full.len() == ps@.len(),
            forall|k: int| 0 <= k < ps@.len() ==> full[k] == (ps@[k].0@, jv(ps@[k].1)),
            forall|k: int| 0 <= k < i ==> (#[trigger] full[k]).0 != key@,
        decreases ps.len() - i,
    {
        if str_eq(ps[i].0.as_str(), key) {
            proof {
                lemma_obj_get_skip(full, i as int, key@);
                let suff = full.subrange(i as int, full.len() as int);
                assert(suff[0] == full[i as int]);
                assert(obj_get(full, key@) == Some(full[i as int].1));
            }
            match &ps[i].1 {
                JsonValue::Num(t) => {
                    let cs = str_to_chars(t.as_str());
                    match dec_to_u64(&cs) {
                        Some(n) => {
                            return Some(Some(n));
                        },
                        None => {
                            return None;
                        },
                    }
                },
                JsonValue::Null => {
                    return Some(None);
                },
                _ => {
                    return None;
                },
            }
        }
        i += 1;
    }
    proof {
        lemma_obj_get_skip(full, full.len() as int, key@);
        assert(full.subrange(full.len() as int, full.len() as int) =~= Seq::<(
            Seq<char>,
            Json,
        )>::empty());
    }
    Some(None)
}

impl RedisMessage {
    /// The routed message as a JSON document.
    pub fn to_json(&self) -> (r: JsonValue)
        ensures
            jv(r) == routed_json(self@),
    {
        let pod: JsonValue = match &self.sender_pod {
            Some(s) => JsonValue::Str(s.clone()),
            None => JsonValue::Null,
        };
        let ts: JsonValue = match self.timestamp {
            Some(n) => JsonValue::Num(u64_to_dec(n)),
            None => JsonValue::Null,
        };
        let pairs: Vec<(String, JsonValue)> = vec![
            (String::from_str("target_email"), JsonValue::Str(self.target_email.clone())),
            (String::from_str("target_device"), JsonValue::Str(self.target_device.clone())),
            (String::from_str("socket_message"), self.socket_message.to_json()),
            (String::from_str("sender_pod"), pod),
            (String::from_str("timestamp"), ts),
        ];
        let r = JsonValue::Obj(pairs);
        proof {
            lemma_jv_pairs(r->Obj_0@);
            assert(jv_pairs(r->Obj_0@) =~= routed_json(self@)->Obj_0);
        }
        r
    }

    /// The wire text of the routed message.
    pub fn encode(&self) -> (r: String)
        ensures
            r@ == enc(routed_json(self@)),
    {
        let v = self.to_json();
        json_encode(&v)
    }

    /// Reads a routed message from a JSON text.
    pub fn decode(text: &str) -> (r: Option<RedisMessage>)
        ensures
            match routed_of_text(text@) {
                Some(rv) => r is Some && r.unwrap()@ == rv,
                None => r is None,
            },
    {
        match json_decode_str(text) {
            Some(v) => match v {
                JsonValue::Obj(mut ps) => {
                    let te = obj_find_str(&ps, "target_email");
                    let td = obj_find_str(&ps, "target_device");
                    let pod = obj_find_opt_str(&ps, "sender_pod");
                    let ts = obj_find_ts(&ps, "timestamp");
                    let smv = obj_take(&mut ps, "socket_message");
                    let sm = match smv {
                        Some(ej) => envelope_from_json(ej),
                        None => None,
                    };
                    match (te, td, sm, pod, ts) {
                        (
                            Some(target_email),
                            Some(target_device),
                            Some(socket_message),
                            Some(sender_pod),
                            Some(timestamp),
                        ) => Some(
                            RedisMessage {
                                target_email,
                                target_device,
                                socket_message,
                                sender_pod,
                                timestamp,
                            },
                        ),
                        _ => None,
                    }
                },
                _ => None,
            },
            None => None,
        }
    }
}

/// Decoding the wire text of a routed message yields it back, for
/// timestamps of at most eighteen digits.
pub proof fn lemma_routed_round_trip(r: RoutedView)
    requires
        json_wf(r.socket_message.payload),
        match r.timestamp {
            Some(n) => 0 <= n < 1000000000000000000,
            None => true,
        },
    ensures
        routed_of_text(enc(routed_json(r))) == Some(r),
{
    let j = routed_json(r);
    let ps = j->Obj_0;
    let envj = env_json(r.socket_message);
    let eps = envj->Obj_0;
    assert(json_wf(envj)) by {
        assert(forall|i: int| 0 <= i < eps.len() ==> json_wf(#[trigger] eps[i].1)) by {
            assert(json_wf(eps[0].1));
            assert(json_wf(eps[1].1));
            assert(json_wf(eps[2].1));
            assert(json_wf(eps[3].1));
            assert(json_wf(eps[4].1));
            assert(json_wf(eps[5].1));
            assert(json_wf(eps[6].1));
        }
    }
    assert(json_wf(j)) by {
        match r.timestamp {
            Some(n) => {
                lemma_u64_dec_wf(n);
            },
            None => {
            },
        }
        assert(forall|i: int| 0 <= i < ps.len() ==> json_wf(#[trigger] ps[i].1)) by {
            assert(json_wf(ps[0].1));
            assert(json_wf(ps[1].1));
            assert(json_wf(ps[2].1));
            assert(json_wf(ps[3].1));
            assert(json_wf(ps[4].1));
        }
    }
    lemma_json_round_trip(j);
    lemma_keys_distinct();
    lemma_obj_get_skip(ps, 0, "target_email"@);
    assert(ps.subrange(0, 5) =~= ps);
    assert(obj_get(ps, "target_email"@) == Some(Json::Str(r.target_email)));
    lemma_obj_get_skip(ps, 1, "target_device"@);
    assert(ps.subrange(1, 5)[0] == ps[1]);
    assert(obj_get(ps, "target_device"@) == Some(Json::Str(r.target_device)));
    lemma_obj_get_skip(ps, 2, "socket_message"@);
    assert(ps.subrange(2, 5)[0] == ps[2]);
    assert(obj_get(ps, "socket_message"@) == Some(envj));
    lemma_env_of_env_json(r.socket_message);
    lemma_obj_get_skip(ps, 3, "sender_pod"@);
    assert(ps.subrange(3, 5)[0] == ps[3]);
    assert(obj_get(ps, "sender_pod"@) == Some(opt_str_json(r.sender_pod)));
    lemma_obj_get_skip(ps, 4, "timestamp"@);
    assert(ps.subrange(4, 5)[0] == ps[4]);
    match r.timestamp {
        Some(n) => {
            lemma_u64_dec(n);
            assert(obj_get(ps, "timestamp"@) == Some(Json::Num(u64_dec(n))));
            assert(u64_dec(n).len() <= 18) by {
                lemma_u64_dec_len(n);
            }
            assert(opt_ts_field(ps, "timestamp"@) == Some(Some(n)));
        },
        None => {
            assert(obj_get(ps, "timestamp"@) == Some(Json::Null));
        },
    }
    assert(routed_of(j) == Some(r));
}


// ---------------------------------------------------------------------------
// Response shapes
// ---------------------------------------------------------------------------

/// A failure reported to the client, optionally naming the peer it
/// concerned.
pub struct ErrorResponse {
    pub event: String,
    pub error: String,
    pub target_email: Option<String>,
    pub target_device: Option<String>,
}

/// The JSON object of an error response, fields in wire order.
pub open spec fn error_response_json(
    event: Seq<char>,
    error: Seq<char>,
    target_email: Option<Seq<char>>,
    target_device: Option<Seq<char>>,
) -> Json {
    Json::Obj(
        seq![
            ("event"@, Json::Str(event)),
            ("error"@, Json::Str(error)),
            ("target_email"@, opt_str_json(target_email)),
            ("target_device"@, opt_str_json(target_device)),
        ],
    )
}

impl ErrorResponse {
    /// The wire text of the response.
    pub fn encode(&self) -> (r: String)
        ensures
            r@ == enc(
                error_response_json(
                    self.event@,
                    self.error@,
                    match self.target_email {
                        Some(ref s) => Some(s@),
                        None => None,
                    },
                    match self.target_device {
                        Some(ref s) => Some(s@),
                        None => None,
                    },
                ),
            ),
    {
        let te: JsonValue = match &self.target_email {
            Some(s) => JsonValue::Str(s.clone()),
            None => JsonValue::Null,
        };
        let td: JsonValue = match &self.target_device {
            Some(s) => JsonValue::Str(s.clone()),
            None => JsonValue::Null,
        };
        let pairs: Vec<(String, JsonValue)> = vec![
            (String::from_str("event"), JsonValue::Str(self.event.clone())),
            (String::from_str("error"), JsonValue::Str(self.error.clone())),
            (String::from_str("target_email"), te),
            (String::from_str("target_device"), td),
        ];
        let v = JsonValue::Obj(pairs);
        proof {
            lemma_jv_pairs(v->Obj_0@);
            assert(jv_pairs(v->Obj_0@) =~= error_response_json(
                self.event@,
                self.error@,
                match self.target_email {
                    Some(ref s) => Some(s@),
                    None => None,
                },
                match self.target_device {
                    Some(ref s) => Some(s@),
                    None => None,
                },
            )->Obj_0);
        }
        json_encode(&v)
    }
}

/// The reply to a `ping`.
pub struct HeartbeatMessage {
    pub event: String,
    pub timestamp: u64,
}

/// The JSON object of a heartbeat, fields in wire order.
pub open spec fn heartbeat_json(event: Seq<char>, timestamp: int) -> Json {
    Json::Obj(seq![("event"@, Json::Str(event)), ("timestamp"@, Json::Num(u64_dec(timestamp)))])
}

impl HeartbeatMessage {
    /// The wire text of the heartbeat.
    pub fn encode(&self) -> (r: String)
        ensures
            r@ == enc(heartbeat_json(self.event@, self.timestamp as int)),
    {
        let pairs: Vec<(String, JsonValue)> = vec![
            (String::from_str("event"), JsonValue::Str(self.event.clone())),
            (String::from_str("timestamp"), JsonValue::Num(u64_to_dec(self.timestamp))),
        ];
        let v = JsonValue::Obj(pairs);
        proof {
            lemma_jv_pairs(v->Obj_0@);
            assert(jv_pairs(v->Obj_0@) =~= heartbeat_json(
                self.event@,
                self.timestamp as int,
            )->Obj_0);
        }
        json_encode(&v)
    }
}

/// One entry of a `check` reply: a contact and the devices through
/// which the contact is reachable.
pub struct UserDevicesResponse {
    pub email: String,
    pub devices: Vec<DeviceInfo>,
}

/// The sequence of device objects of an entry.
pub open spec fn devices_json(ds: Seq<DeviceView>) -> Seq<Json> {
    ds.map(|i: int, d: DeviceView| device_json(d))
}

/// The JSON object of one `check` entry, fields in wire order.
pub open spec fn user_devices_json(email: Seq<char>, ds: Seq<DeviceView>) -> Json {
    Json::Obj(seq![("email"@, Json::Str(email)), ("devices"@, Json::Arr(devices_json(ds)))])
}

impl UserDevicesResponse {
    /// The entry as a JSON document.
    pub fn to_json(&self) -> (r: JsonValue)
        ensures
            jv(r) == user_devices_json(self.email@, self.devices@.map(|i: int, d: DeviceInfo| d@)),
    {
        let mut items: Vec<JsonValue> = Vec::new();
        let mut i: usize = 0;
        while i < self.devices.len()
            invariant
                0 <= i <= self.devices@.len(),
                items@.len() == i,
                forall|k: int|
                    0 <= k < i ==> jv(#[trigger] items@[k]) == device_json(self.devices@[k]@),
            decreases self.devices.len() - i,
        {
            items.push(self.devices[i].to_json());
            i += 1;
        }
        let pairs: Vec<(String, JsonValue)> = vec![
            (String::from_str("email"), JsonValue::Str(self.email.clone())),
            (String::from_str("devices"), JsonValue::Arr(items)),
        ];
        let v = JsonValue::Obj(pairs);
        proof {
            crate::json::lemma_jv_seq(v->Obj_0@[1].1->Arr_0@);
            assert(crate::json::jv_seq(v->Obj_0@[1].1->Arr_0@) =~= devices_json(
                self.devices@.map(|i: int, d: DeviceInfo| d@),
            ));
            lemma_jv_pairs(v->Obj_0@);
            assert(jv_pairs(v->Obj_0@) =~= user_devices_json(
                self.email@,
                self.devices@.map(|i: int, d: DeviceInfo| d@),
            )->Obj_0);
        }
        v
    }
}

/// The reply to a successful register.
pub open spec fn register_ok_json(socket_id: Seq<char>) -> Json {
    Json::Obj(
        seq![
            ("event"@, Json::Str("register"@)),
            ("socket_id"@, Json::Str(socket_id)),
            ("status"@, Json::Str("ok"@)),
        ],
    )
}

/// Builds the register-ok reply text.
pub fn register_ok(socket_id: &str) -> (r: String)
    ensures
        r@ == enc(register_ok_json(socket_id@)),
{
    let pairs: Vec<(String, JsonValue)> = vec![
        (String::from_str("event"), JsonValue::Str(String::from_str("register"))),
        (String::from_str("socket_id"), JsonValue::Str(String::from_str(socket_id))),
        (String::from_str("status"), JsonValue::Str(String::from_str("ok"))),
    ];
    let v = JsonValue::Obj(pairs);
    proof {
        lemma_jv_pairs(v->Obj_0@);
        assert(jv_pairs(v->Obj_0@) =~= register_ok_json(socket_id@)->Obj_0);
    }
    json_encode(&v)
}

/// The reply to a failed register.
pub open spec fn register_error_json(error: Seq<char>) -> Json {
    Json::Obj(
        seq![
            ("error"@, Json::Str(error)),
            ("event"@, Json::Str("register"@)),
            ("status"@, Json::Str("error"@)),
        ],
    )
}

/// Builds the register-error reply text.
pub fn register_error(error: &str) -> (r: String)
    ensures
        r@ == enc(register_error_json(error@)),
{
    let pairs: Vec<(String, JsonValue)> = vec![
        (String::from_str("error"), JsonValue::Str(String::from_str(error))),
        (String::from_str("event"), JsonValue::Str(String::from_str("register"))),
        (String::from_str("status"), JsonValue::Str(String::from_str("error"))),
    ];
    let v = JsonValue::Obj(pairs);
    proof {
        lemma_jv_pairs(v->Obj_0@);
        assert(jv_pairs(v->Obj_0@) =~= register_error_json(error@)->Obj_0);
    }
    json_encode(&v)
}

/// The acknowledgment of a `connect`.
pub open spec fn connected_ok_json() -> Json {
    Json::Obj(seq![("event"@, Json::Str("connected"@)), ("status"@, Json::Str("ok"@))])
}

/// Builds the connect acknowledgment text.
pub fn connected_ok() -> (r: String)
    ensures
        r@ == enc(connected_ok_json()),
{
    let pairs: Vec<(String, JsonValue)> = vec![
        (String::from_str("event"), JsonValue::Str(String::from_str("connected"))),
        (String::from_str("status"), JsonValue::Str(String::from_str("ok"))),
    ];
    let v = JsonValue::Obj(pairs);
    proof {
        lemma_jv_pairs(v->Obj_0@);
        assert(jv_pairs(v->Obj_0@) =~= connected_ok_json()->Obj_0);
    }
    json_encode(&v)
}

/// A generic error envelope.
pub open spec fn error_envelope_json(error: Seq<char>) -> Json {
    Json::Obj(seq![("error"@, Json::Str(error)), ("event"@, Json::Str("error"@))])
}

/// Builds a generic error reply text.
pub fn error_envelope(error: &str) -> (r: String)
    ensures
        r@ == enc(error_envelope_json(error@)),
{
    let pairs: Vec<(String, JsonValue)> = vec![
        (String::from_str("error"), JsonValue::Str(String::from_str(error))),
        (String::from_str("event"), JsonValue::Str(String::from_str("error"))),
    ];
    let v = JsonValue::Obj(pairs);
    proof {
        lemma_jv_pairs(v->Obj_0@);
        assert(jv_pairs(v->Obj_0@) =~= error_envelope_json(error@)->Obj_0);
    }
    json_encode(&v)
}

/// Concatenates two pieces of text.
pub fn concat_str(a: &str, b: &str) -> (r: String)
    ensures
        r@ == a@ + b@,
{
    let mut out = String::from_str(a);
    out.append(b);
    out
}

} // verus!
