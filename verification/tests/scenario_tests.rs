//! End-to-end scenarios over the library, a pod's I/O simulated by
//! plain values.

use signal_hub::bus::{BusAction, handle_bus_frame};
use signal_hub::check::{ContactFetch, check_users, check_users_response};
use signal_hub::codec::{DeviceInfo, SocketMessage};
use signal_hub::codec::Frame;
use signal_hub::forward::{build_routed, forward_local, forward_wait_outcome, make_message_id};
use signal_hub::presence::{broadcast_user_joined, get_redis_presence_key};
use signal_hub::json::JsonValue;
use signal_hub::router::LocalRouter;
use signal_hub::session::{FrameAction, RegisterOutcome, SessionMachine};

const TOKEN: &str = "123e4567-e89b-12d3-a456-426614174000";

fn register_on(
    router: &mut LocalRouter<u32>,
    writer: u32,
    socket_id: &str,
    email: &str,
    device: &str,
) -> SessionMachine {
    let mut s = SessionMachine::new(socket_id.to_string());
    let f = Frame::Text(format!(
        "{{\"from_email\":\"{email}\",\"from_token\":\"{TOKEN}\",\"from_device\":\"{device}\",\
         \"to_email\":\"\",\"to_device\":\"\",\"event\":\"register\",\
         \"payload\":{{\"device_name\":\"laptop\",\"device_type\":\"web\"}}}}"
    ));
    let msg = match s.on_frame(f, 0) {
        FrameAction::Register(m) => m,
        _ => panic!("expected a register directive"),
    };
    match s.on_register_resolved(&msg, Some(email.to_string())) {
        RegisterOutcome::Accept { reply, info } => {
            assert_eq!(
                reply,
                format!("{{\"event\":\"register\",\"socket_id\":\"{socket_id}\",\"status\":\"ok\"}}")
            );
            router.bind(email, device, socket_id.to_string(), writer, info);
        }
        RegisterOutcome::Fail(t) => panic!("registration failed: {t}"),
    }
    s
}

fn forward_env(from: &str, fdev: &str, to: &str, tdev: &str) -> SocketMessage {
    SocketMessage {
        from_email: from.to_string(),
        from_token: String::new(),
        from_device: fdev.to_string(),
        to_email: to.to_string(),
        to_device: tdev.to_string(),
        event: "sdp_offer".to_string(),
        payload: JsonValue::Obj(vec![(
            "sdp".to_string(),
            JsonValue::Str("v=0".to_string()),
        )]),
    }
}

#[test]
fn happy_register_writes_presence_key() {
    let mut router: LocalRouter<u32> = LocalRouter::new();
    register_on(&mut router, 1, "sock-1", "u@x", "d1");
    assert_eq!(get_redis_presence_key("u@x", "d1"), "socket:presence:u@x:d1");
    assert_eq!(router.lookup("u@x", "d1").copied(), Some(1));
}

#[test]
fn device_reconnection_keeps_one_descriptor() {
    let mut router: LocalRouter<u32> = LocalRouter::new();
    register_on(&mut router, 1, "sock-1", "u@x", "d1");
    register_on(&mut router, 2, "sock-2", "u@x", "d1");
    // the first socket's writer is dropped; the new one delivers
    assert!(router.writer_of("sock-1").is_none());
    assert_eq!(router.lookup("u@x", "d1").copied(), Some(2));
    // a later check sees exactly one descriptor, with the new socket
    let ds = router.local_devices("u@x");
    assert_eq!(ds.len(), 1);
    assert_eq!(ds[0].socket_id, "sock-2");
}

#[test]
fn cross_pod_forward_delivers_verbatim() {
    // pod A holds the peer
    let mut pod_a: LocalRouter<u32> = LocalRouter::new();
    register_on(&mut pod_a, 10, "sock-a", "peer@x", "d2");
    // pod B holds the sender and misses the peer locally
    let mut pod_b: LocalRouter<u32> = LocalRouter::new();
    register_on(&mut pod_b, 20, "sock-b", "u@x", "d1");
    let env = forward_env("u@x", "d1", "peer@x", "d2");
    assert!(forward_local(&pod_b, &env).is_none());
    // pod B publishes the routed message
    let expected_delivery = env.encode();
    let routed = build_routed(env, 1700000000123);
    let wire = routed.encode();
    // pod A's subscriber delivers it to the peer's writer, verbatim
    match handle_bus_frame(&pod_a, &wire) {
        BusAction::Deliver { writer, text, confirm_id } => {
            assert_eq!(*writer, 10);
            assert_eq!(text, expected_delivery);
            assert_eq!(
                confirm_id.as_deref(),
                Some("u@x_d1_peer@x_d2_1700000000123")
            );
        }
        BusAction::Broadcast => panic!("not a broadcast"),
        BusAction::Ignore => panic!("the peer is bound on pod A"),
    }
}

#[test]
fn forward_to_offline_peer_times_out() {
    let pod_b: LocalRouter<u32> = LocalRouter::new();
    let env = forward_env("u@x", "d1", "peer@x", "d2");
    assert!(forward_local(&pod_b, &env).is_none());
    // no pod confirms; after the wait the sender hears exactly one error
    let reply = forward_wait_outcome(&env, None).expect("a timeout reply");
    assert_eq!(
        reply,
        "{\"event\":\"target_not_found\",\"error\":\"User peer@x with device d2 is not online\",\
         \"target_email\":\"peer@x\",\"target_device\":\"d2\"}"
    );
    // a confirmed delivery stays silent
    assert!(forward_wait_outcome(&env, Some(true)).is_none());
}

#[test]
fn local_forward_hits_the_right_writer() {
    let mut pod: LocalRouter<u32> = LocalRouter::new();
    register_on(&mut pod, 5, "sock-1", "peer@x", "d2");
    register_on(&mut pod, 6, "sock-2", "peer@x", "d3");
    let env = forward_env("u@x", "d1", "peer@x", "d2");
    let (w, text) = forward_local(&pod, &env).expect("locally bound");
    assert_eq!(*w, 5);
    assert_eq!(text, env.encode());
}

#[test]
fn broadcasts_are_recognized() {
    let pod: LocalRouter<u32> = LocalRouter::new();
    let joined = broadcast_user_joined("u@x", "d1", 1700000000000);
    let wire = joined.encode();
    assert!(matches!(handle_bus_frame(&pod, &wire), BusAction::Broadcast));
    assert!(matches!(handle_bus_frame(&pod, "garbage"), BusAction::Ignore));
}

#[test]
fn message_ids_name_endpoints_and_time() {
    let env = forward_env("u@x", "d1", "peer@x", "d2");
    assert_eq!(make_message_id(&env, 99), "u@x_d1_peer@x_d2_99");
}

#[test]
fn check_with_contacts_lists_online_devices_only() {
    let router: LocalRouter<u32> = LocalRouter::new();
    let d1 = DeviceInfo {
        socket_id: "s1".to_string(),
        device_name: Some("laptop".to_string()),
        device_type: Some("web".to_string()),
        device_id: "d1".to_string(),
    };
    let d2 = DeviceInfo {
        socket_id: "s2".to_string(),
        device_name: None,
        device_type: None,
        device_id: "d2".to_string(),
    };
    let contacts = vec![
        ("a@x".to_string(), ContactFetch::Devices(vec![d1.encode(), d2.encode()])),
        ("b@x".to_string(), ContactFetch::Devices(vec![])),
    ];
    let entries = check_users(&contacts, &router);
    assert_eq!(entries.len(), 1);
    assert_eq!(entries[0].email, "a@x");
    assert_eq!(entries[0].devices.len(), 2);
    assert_eq!(entries[0].devices[0].device_id, "d1");
    assert_eq!(entries[0].devices[1].device_id, "d2");
    let text = check_users_response(&entries);
    assert_eq!(
        text,
        format!("[{{\"email\":\"a@x\",\"devices\":[{},{}]}}]", d1.encode(), d2.encode())
    );
}

#[test]
fn check_skips_malformed_and_duplicate_descriptors() {
    let router: LocalRouter<u32> = LocalRouter::new();
    let d1 = DeviceInfo {
        socket_id: "s1".to_string(),
        device_name: None,
        device_type: None,
        device_id: "d1".to_string(),
    };
    let d1_again = DeviceInfo {
        socket_id: "s9".to_string(),
        device_name: None,
        device_type: None,
        device_id: "d1".to_string(),
    };
    let contacts = vec![(
        "a@x".to_string(),
        ContactFetch::Devices(vec![
            "not json".to_string(),
            d1.encode(),
            d1_again.encode(),
        ]),
    )];
    let entries = check_users(&contacts, &router);
    assert_eq!(entries.len(), 1);
    // the malformed text is skipped and the duplicate id dropped
    assert_eq!(entries[0].devices.len(), 1);
    assert_eq!(entries[0].devices[0].socket_id, "s1");
}

#[test]
fn check_falls_back_to_local_snapshot() {
    let mut router: LocalRouter<u32> = LocalRouter::new();
    register_on(&mut router, 1, "sock-1", "a@x", "d1");
    let contacts = vec![
        ("a@x".to_string(), ContactFetch::RegistryFailed),
        ("b@x".to_string(), ContactFetch::RegistryFailed),
    ];
    let entries = check_users(&contacts, &router);
    assert_eq!(entries.len(), 1);
    assert_eq!(entries[0].email, "a@x");
    assert_eq!(entries[0].devices.len(), 1);
    assert_eq!(entries[0].devices[0].socket_id, "sock-1");
}

#[test]
fn join_broadcast_wire_form() {
    let joined = broadcast_user_joined("u@x", "d1", 5);
    let wire = joined.encode();
    assert_eq!(
        wire,
        "{\"target_email\":\"*\",\"target_device\":\"*\",\"socket_message\":\
         {\"from_email\":\"u@x\",\"from_token\":\"\",\"from_device\":\"d1\",\
         \"to_email\":\"\",\"to_device\":\"\",\"event\":\"user_joined\",\
         \"payload\":{\"email\":\"u@x\",\"device_id\":\"d1\"}},\
         \"sender_pod\":null,\"timestamp\":5}"
    );
}
