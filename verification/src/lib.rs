//! A horizontally scalable WebSocket signaling hub: envelope codec,
//! per-pod routing tables, session state machine, presence registry
//! helpers, and cross-pod forwarding logic.

pub mod bus;
pub mod check;
pub mod clock;
pub mod codec;
pub mod credentials;
pub mod forward;
pub mod ids;
pub mod json;
pub mod presence;
pub mod router;
pub mod session;
pub mod strmap;
