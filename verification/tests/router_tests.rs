use signal_hub::codec::DeviceInfo;
use signal_hub::forward::PendingDeliveryTable;
use signal_hub::router::LocalRouter;

fn desc(socket_id: &str, device_id: &str) -> DeviceInfo {
    DeviceInfo {
        socket_id: socket_id.to_string(),
        device_name: None,
        device_type: None,
        device_id: device_id.to_string(),
    }
}

#[test]
fn bind_then_lookup() {
    let mut r: LocalRouter<u32> = LocalRouter::new();
    r.bind("u@x", "d1", "s1".to_string(), 7, desc("s1", "d1"));
    assert_eq!(r.lookup("u@x", "d1").copied(), Some(7));
    assert_eq!(r.socket_id_of("u@x", "d1"), Some("s1".to_string()));
    assert!(r.lookup("u@x", "d2").is_none());
    assert!(r.lookup("v@x", "d1").is_none());
}

#[test]
fn rebind_evicts_prior_socket() {
    let mut r: LocalRouter<u32> = LocalRouter::new();
    r.bind("u@x", "d1", "s1".to_string(), 7, desc("s1", "d1"));
    r.bind("u@x", "d1", "s2".to_string(), 8, desc("s2", "d1"));
    // the key resolves to the new socket only
    assert_eq!(r.lookup("u@x", "d1").copied(), Some(8));
    assert_eq!(r.socket_id_of("u@x", "d1"), Some("s2".to_string()));
    // the evicted writer is gone from the table
    assert!(r.writer_of("s1").is_none());
    assert_eq!(r.writer_of("s2").copied(), Some(8));
    // exactly one descriptor remains for the pair
    let ds = r.local_devices("u@x");
    assert_eq!(ds.len(), 1);
    assert_eq!(ds[0].socket_id, "s2");
}

#[test]
fn unbind_clears_every_table() {
    let mut r: LocalRouter<u32> = LocalRouter::new();
    r.bind("u@x", "d1", "s1".to_string(), 7, desc("s1", "d1"));
    r.bind("u@x", "d2", "s2".to_string(), 8, desc("s2", "d2"));
    r.unbind("u@x", "d1", "s1");
    assert!(r.lookup("u@x", "d1").is_none());
    assert!(r.writer_of("s1").is_none());
    assert_eq!(r.local_devices("u@x").len(), 1);
    // the sibling device is untouched
    assert_eq!(r.lookup("u@x", "d2").copied(), Some(8));
    r.unbind("u@x", "d2", "s2");
    assert!(r.lookup("u@x", "d2").is_none());
    assert_eq!(r.local_devices("u@x").len(), 0);
}

#[test]
fn stale_unbind_after_eviction_changes_nothing() {
    let mut r: LocalRouter<u32> = LocalRouter::new();
    r.bind("u@x", "d1", "s1".to_string(), 7, desc("s1", "d1"));
    r.bind("u@x", "d1", "s2".to_string(), 8, desc("s2", "d1"));
    // the evicted session tears down late; the new binding survives
    r.unbind("u@x", "d1", "s1");
    assert_eq!(r.lookup("u@x", "d1").copied(), Some(8));
    assert!(r.writer_of("s1").is_none());
}

#[test]
fn local_devices_carry_their_ids() {
    let mut r: LocalRouter<u32> = LocalRouter::new();
    r.bind("u@x", "d1", "s1".to_string(), 1, desc("s1", "d1"));
    r.bind("u@x", "d2", "s2".to_string(), 2, desc("s2", "d2"));
    let mut ids: Vec<String> = r.local_devices("u@x").iter().map(|d| d.device_id.clone()).collect();
    ids.sort();
    assert_eq!(ids, vec!["d1".to_string(), "d2".to_string()]);
    assert!(r.local_devices("nobody@x").is_empty());
}

#[test]
fn pending_delivery_confirms_exactly_once() {
    let mut t: PendingDeliveryTable<u8> = PendingDeliveryTable::new();
    t.insert("m1".to_string(), 42);
    assert_eq!(t.confirm_message_delivery("m1"), Some(42));
    // a second confirmation finds nothing
    assert_eq!(t.confirm_message_delivery("m1"), None);
    t.insert("m2".to_string(), 1);
    t.remove("m2");
    assert_eq!(t.confirm_message_delivery("m2"), None);
}
