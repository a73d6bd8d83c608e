//! The bus subscriber's dispatch: what one fan-out frame means for
//! this pod.

use vstd::prelude::*;

use crate::codec::{RedisMessage, enc_envelope, routed_of_text};
use crate::forward::message_id_text;
use crate::router::{LocalRouter, router_wf, socket_of};

verus! {

broadcast use vstd::string::group_string_axioms;

/// What the subscriber does with one frame from the fan-out channel.
pub enum BusAction<'a, W> {
    /// The embedded envelope's wire text goes onto this writer's
    /// queue; when the frame carried a timestamp, a confirmation with
    /// this message id goes back to the originating pod.
    Deliver { writer: &'a W, text: String, confirm_id: Option<String> },
    /// A join or leave broadcast; nothing is owed to any socket.
    Broadcast,
    /// Undecodable, or addressed to a device this pod does not hold.
    Ignore,
}

/// Decides one fan-out frame: broadcasts are recognized by the `"*"`
/// sentinels; a frame for a locally-bound device is delivered to that
/// device's writer, verbatim, exactly once; anything else is left to
/// the pod that holds the device.
pub fn handle_bus_frame<'a, W>(router: &'a LocalRouter<W>, payload: &str) -> (r: BusAction<'a, W>)
    requires
        router_wf(*router),
    ensures
        match routed_of_text(payload@) {
            None => r is Ignore,
            Some(rv) => {
                if rv.target_email == "*"@ && rv.target_device == "*"@ {
                    r is Broadcast
                } else {
                    match socket_of(*router, rv.target_email, rv.target_device) {
                        Some(sid) => match r {
                            BusAction::Deliver { writer, text, confirm_id } => {
                                &&& router.writers@.contains_key(sid)
                                &&& *writer == router.writers@[sid]
                                &&& text@ == enc_envelope(rv.socket_message)
                                &&& (match rv.timestamp {
                                    Some(ts) => confirm_id is Some && confirm_id.unwrap()@
                                        == message_id_text(rv.socket_message, ts),
                                    None => confirm_id is None,
                                })
                            },
                            _ => false,
                        },
                        None => r is Ignore,
                    }
                }
            },
        },
{
    match RedisMessage::decode(payload) {
        Some(rm) => {
            if crate::codec::str_eq(rm.target_email.as_str(), "*") && crate::codec::str_eq(
                rm.target_device.as_str(),
                "*",
            ) {
                BusAction::Broadcast
            } else {
                match router.lookup(rm.target_email.as_str(), rm.target_device.as_str()) {
                    Some(w) => {
                        let text = rm.socket_message.encode();
                        let confirm_id: Option<String> = match rm.timestamp {
                            Some(ts) => Some(
                                crate::forward::make_message_id(&rm.socket_message, ts),
                            ),
                            None => None,
                        };
                        BusAction::Deliver { writer: w, text, confirm_id }
                    },
                    None => BusAction::Ignore,
                }
            }
        },
        None => BusAction::Ignore,
    }
}

} // verus!
