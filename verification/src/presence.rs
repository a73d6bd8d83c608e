//! The shared presence registry's key layout and broadcast messages.
//!
//! The registry itself lives on the bus; this module builds the keys
//! it is addressed by, the descriptor texts stored under them, and
//! the join/leave broadcasts published when a device comes or goes.

use vstd::prelude::*;

use crate::codec::{EnvView, RedisMessage, RoutedView, SocketMessage};
use crate::json::{Json, JsonValue};

verus! {

broadcast use vstd::string::group_string_axioms;

/// The key under which a device's descriptor is stored.
pub open spec fn presence_key(email: Seq<char>, device: Seq<char>) -> Seq<char> {
    "socket:presence:"@ + email + ":"@ + device
}

/// Builds the presence key for `(email, device)`.
pub fn get_redis_presence_key(email: &str, device_id: &str) -> (r: String)
    ensures
        r@ == presence_key(email@, device_id@),
{
    let mut out = String::from_str("socket:presence:");
    out.append(email);
    out.append(":");
    out.append(device_id);
    proof {
        assert(out@ =~= presence_key(email@, device_id@));
    }
    out
}

/// The key of the hash that lists a user's devices.
pub open spec fn user_devices_key(email: Seq<char>) -> Seq<char> {
    "socket:user_devices:"@ + email
}

/// Builds the device-index key for `email`.
pub fn get_redis_user_devices_key(email: &str) -> (r: String)
    ensures
        r@ == user_devices_key(email@),
{
    let mut out = String::from_str("socket:user_devices:");
    out.append(email);
    out
}

/// The payload carried by a join or leave broadcast.
pub open spec fn broadcast_payload(email: Seq<char>, device: Seq<char>) -> Json {
    Json::Obj(seq![("email"@, Json::Str(email)), ("device_id"@, Json::Str(device))])
}

/// The envelope of a join or leave broadcast: only the sender fields
/// and the event are set.
pub open spec fn broadcast_env(event: Seq<char>, email: Seq<char>, device: Seq<char>) -> EnvView {
    EnvView {
        from_email: email,
        from_token: Seq::empty(),
        from_device: device,
        to_email: Seq::empty(),
        to_device: Seq::empty(),
        event: event,
        payload: broadcast_payload(email, device),
    }
}

/// A join or leave broadcast: both targets are the `"*"` sentinel.
pub open spec fn broadcast_view(
    event: Seq<char>,
    email: Seq<char>,
    device: Seq<char>,
    now_ms: int,
) -> RoutedView {
    RoutedView {
        target_email: "*"@,
        target_device: "*"@,
        socket_message: broadcast_env(event, email, device),
        sender_pod: None,
        timestamp: Some(now_ms),
    }
}

fn build_broadcast(event: &str, email: &str, device_id: &str, now_ms: u64) -> (r: RedisMessage)
    ensures
        r@ == broadcast_view(event@, email@, device_id@, now_ms as int),
{
    let payload = JsonValue::Obj(
        vec![
            (String::from_str("email"), JsonValue::Str(String::from_str(email))),
            (String::from_str("device_id"), JsonValue::Str(String::from_str(device_id))),
        ],
    );
    let env = SocketMessage {
        from_email: String::from_str(email),
        from_token: String::new(),
        from_device: String::from_str(device_id),
        to_email: String::new(),
        to_device: String::new(),
        event: String::from_str(event),
        payload,
    };
    let r = RedisMessage {
        target_email: String::from_str("*"),
        target_device: String::from_str("*"),
        socket_message: env,
        sender_pod: None,
        timestamp: Some(now_ms),
    };
    proof {
        crate::json::lemma_jv_pairs(r.socket_message.payload->Obj_0@);
        assert(crate::json::jv_pairs(r.socket_message.payload->Obj_0@) =~= broadcast_payload(
            email@,
            device_id@,
        )->Obj_0);
    }
    r
}

/// The broadcast published when `(email, device)` registers.
pub fn broadcast_user_joined(email: &str, device_id: &str, now_ms: u64) -> (r: RedisMessage)
    ensures
        r@ == broadcast_view("user_joined"@, email@, device_id@, now_ms as int),
{
    build_broadcast("user_joined", email, device_id, now_ms)
}

/// The broadcast published when `(email, device)` disconnects.
pub fn broadcast_user_left(email: &str, device_id: &str, now_ms: u64) -> (r: RedisMessage)
    ensures
        r@ == broadcast_view("user_left"@, email@, device_id@, now_ms as int),
{
    build_broadcast("user_left", email, device_id, now_ms)
}

} // verus!
