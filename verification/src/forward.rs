//! Peer forwarding: local delivery, cross-pod publication, and the
//! pending-delivery table.

use vstd::prelude::*;

use crate::codec::{
    EnvView, ErrorResponse, RedisMessage, SocketMessage, enc_envelope, error_response_json,
};
use crate::json::{enc, u64_dec, u64_to_dec};
use crate::router::{LocalRouter, bound, router_wf, socket_of};
use crate::strmap::StrMap;

verus! {

broadcast use vstd::string::group_string_axioms;

/// The identifier of a cross-pod forward, derived from its endpoints
/// and the clock reading at publication.
pub open spec fn message_id_text(ev: EnvView, ts_ms: int) -> Seq<char> {
    ev.from_email + "_"@ + ev.from_device + "_"@ + ev.to_email + "_"@ + ev.to_device + "_"@
        + u64_dec(ts_ms)
}

/// Builds the identifier of a forward published at `now_ms`.
pub fn make_message_id(m: &SocketMessage, now_ms: u64) -> (r: String)
    ensures
        r@ == message_id_text(m@, now_ms as int),
{
    let mut out = String::from_str(m.from_email.as_str());
    out.append("_");
    out.append(m.from_device.as_str());
    out.append("_");
    out.append(m.to_email.as_str());
    out.append("_");
    out.append(m.to_device.as_str());
    out.append("_");
    let ts = u64_to_dec(now_ms);
    out.append(ts.as_str());
    out
}

/// Looks the target peer up on this pod. Found, the envelope's wire
/// text goes onto that writer's queue, exactly once, unchanged; no
/// acknowledgment goes back. Not found, the caller publishes to the
/// bus instead.
pub fn forward_local<'a, W>(router: &'a LocalRouter<W>, m: &SocketMessage) -> (r: Option<
    (&'a W, String),
>)
    requires
        router_wf(*router),
    ensures
        match r {
            Some(p) => bound(*router, m@.to_email, m@.to_device) && router.writers@.contains_key(
                socket_of(*router, m@.to_email, m@.to_device).unwrap(),
            ) && *p.0 == router.writers@[socket_of(*router, m@.to_email, m@.to_device).unwrap()]
                && p.1@ == enc_envelope(m@),
            None => !bound(*router, m@.to_email, m@.to_device),
        },
{
    match router.lookup(m.to_email.as_str(), m.to_device.as_str()) {
        Some(w) => Some((w, m.encode())),
        None => None,
    }
}

/// The routed message published for a forward that found no local
/// binding: the envelope verbatim, addressed to its peer.
pub fn build_routed(m: SocketMessage, now_ms: u64) -> (r: RedisMessage)
    ensures
        r@.target_email == m@.to_email,
        r@.target_device == m@.to_device,
        r@.socket_message == m@,
        r@.sender_pod is None,
        r@.timestamp == Some(now_ms as int),
{
    let target_email = m.to_email.clone();
    let target_device = m.to_device.clone();
    RedisMessage {
        target_email,
        target_device,
        socket_message: m,
        sender_pod: None,
        timestamp: Some(now_ms),
    }
}

/// The reply when no pod confirmed delivery in time.
pub open spec fn target_not_found_json(ev: EnvView) -> crate::json::Json {
    error_response_json(
        "target_not_found"@,
        "User "@ + ev.to_email + " with device "@ + ev.to_device + " is not online"@,
        Some(ev.to_email),
        Some(ev.to_device),
    )
}

/// Builds the timeout reply for a forward.
pub fn target_not_found_response(m: &SocketMessage) -> (r: String)
    ensures
        r@ == enc(target_not_found_json(m@)),
{
    let mut msg = String::from_str("User ");
    msg.append(m.to_email.as_str());
    msg.append(" with device ");
    msg.append(m.to_device.as_str());
    msg.append(" is not online");
    let er = ErrorResponse {
        event: String::from_str("target_not_found"),
        error: msg,
        target_email: Some(m.to_email.clone()),
        target_device: Some(m.to_device.clone()),
    };
    er.encode()
}

/// The reply when the bus would not take the forward at all.
pub open spec fn publish_failed_json(ev: EnvView) -> crate::json::Json {
    error_response_json(
        "error"@,
        "Failed to route message - Redis unavailable"@,
        Some(ev.to_email),
        Some(ev.to_device),
    )
}

/// Builds the publish-failure reply for a forward.
pub fn publish_failed_response(m: &SocketMessage) -> (r: String)
    ensures
        r@ == enc(publish_failed_json(m@)),
{
    let er = ErrorResponse {
        event: String::from_str("error"),
        error: String::from_str("Failed to route message - Redis unavailable"),
        target_email: Some(m.to_email.clone()),
        target_device: Some(m.to_device.clone()),
    };
    er.encode()
}

/// What to tell the sender once the wait for confirmation has ended:
/// a confirmed delivery is silent; anything else - a timeout, a
/// closed channel, a negative confirmation - yields exactly one
/// `target_not_found` reply.
pub fn forward_wait_outcome(m: &SocketMessage, confirmed: Option<bool>) -> (r: Option<String>)
    ensures
        confirmed == Some(true) ==> r is None,
        confirmed != Some(true) ==> r is Some && r.unwrap()@ == enc(target_not_found_json(m@)),
{
    match confirmed {
        Some(true) => None,
        _ => Some(target_not_found_response(m)),
    }
}

/// The pending cross-pod forwards of one pod, each awaiting its
/// confirmation on the channel stored here.
pub struct PendingDeliveryTable<C> {
    table: StrMap<C>,
}

impl<C> PendingDeliveryTable<C> {
    /// The pending forwards by message id.
    pub closed spec fn view(&self) -> Map<Seq<char>, C> {
        self.table@
    }

    /// The representation keeps one channel per id.
    pub closed spec fn wf(&self) -> bool {
        self.table.wf()
    }

    /// An empty table.
    pub fn new() -> (r: PendingDeliveryTable<C>)
        ensures
            r@ == Map::<Seq<char>, C>::empty(),
            r.wf(),
    {
        PendingDeliveryTable { table: StrMap::new() }
    }

    /// Records a forward awaiting confirmation.
    pub fn insert(&mut self, message_id: String, channel: C)
        requires
            old(self).wf(),
        ensures
            final(self).wf(),
            final(self)@ == old(self)@.insert(message_id@, channel),
    {
        self.table.insert(message_id, channel);
    }

    /// Drops a forward that has completed or timed out.
    pub fn remove(&mut self, message_id: &str)
        requires
            old(self).wf(),
        ensures
            final(self).wf(),
            final(self)@ == old(self)@.remove(message_id@),
    {
        let _ = self.table.remove(message_id);
    }

    /// Resolves a confirmation: the waiting channel leaves the table
    /// and is handed back, exactly once per recorded forward.
    pub fn confirm_message_delivery(&mut self, message_id: &str) -> (r: Option<C>)
        requires
            old(self).wf(),
        ensures
            final(self).wf(),
            final(self)@ == old(self)@.remove(message_id@),
            match r {
                Some(c) => old(self)@.contains_key(message_id@) && c == old(self)@[message_id@],
                None => !old(self)@.contains_key(message_id@),
            },
    {
        self.table.remove(message_id)
    }
}

} // verus!
