use signal_hub::clock::{clamp_reading, now_millis, now_secs};
use signal_hub::credentials::{generate_hash, hash_password, verify_password};
use signal_hub::ids::{new_socket_id, token_format_ok};

#[test]
fn password_hash_verifies_and_rejects() {
    let hash = hash_password("hunter2".to_string());
    assert_eq!(hash.chars().count(), 60);
    // the hash is a salted digest, not the password handed back
    assert_ne!(hash, "hunter2");
    assert!(verify_password("hunter2".to_string(), hash.clone()));
    assert!(!verify_password("wrong".to_string(), hash));
    assert!(!verify_password("hunter2".to_string(), "not a bcrypt hash".to_string()));
}

#[test]
fn generated_tokens_are_long_and_fresh() {
    let a = generate_hash();
    let b = generate_hash();
    assert_eq!(a.chars().count(), 43);
    assert_eq!(b.chars().count(), 43);
    // 256 random bits collide with vanishing probability
    assert_ne!(a, b);
    assert!(a.chars().all(|c| c.is_ascii_alphanumeric() || c == '-' || c == '_'));
}

#[test]
fn token_format_check_accepts_uuids_only() {
    assert!(token_format_ok("123e4567-e89b-12d3-a456-426614174000"));
    assert!(!token_format_ok("123e4567-e89b-12d3-a456"));
    assert!(!token_format_ok("not a uuid"));
    assert!(!token_format_ok(""));
}

#[test]
fn socket_ids_are_hyphenated_uuids() {
    let id = new_socket_id();
    assert_eq!(id.chars().count(), 36);
    assert!(token_format_ok(&id));
    assert_ne!(id, new_socket_id());
}

#[test]
fn clock_readings_are_plausible() {
    let ms = now_millis();
    let s = now_secs();
    // both read the same clock; seconds stay within a step of the quotient
    assert!((ms / 1000 - s).abs() <= 1);
    assert_eq!(clamp_reading(-5), 0);
    assert_eq!(clamp_reading(7), 7);
    assert_eq!(clamp_reading(s), s as u64);
}

#[test]
fn user_devices_key_layout() {
    assert_eq!(
        signal_hub::presence::get_redis_user_devices_key("u@x"),
        "socket:user_devices:u@x"
    );
}
