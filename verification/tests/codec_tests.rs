use signal_hub::codec::{DeviceInfo, Frame, RedisMessage, SocketMessage};
use signal_hub::codec::{connected_ok, error_envelope, register_error, register_ok};
use signal_hub::json::{JsonValue, json_decode_str, json_encode};

fn mk_env(
    from_email: &str,
    from_token: &str,
    from_device: &str,
    to_email: &str,
    to_device: &str,
    event: &str,
    payload: JsonValue,
) -> SocketMessage {
    SocketMessage {
        from_email: from_email.to_string(),
        from_token: from_token.to_string(),
        from_device: from_device.to_string(),
        to_email: to_email.to_string(),
        to_device: to_device.to_string(),
        event: event.to_string(),
        payload,
    }
}

#[test]
fn envelope_encode_exact_text() {
    let m = mk_env("u@x", "t", "d1", "", "", "ping", JsonValue::Null);
    assert_eq!(
        m.encode(),
        "{\"from_email\":\"u@x\",\"from_token\":\"t\",\"from_device\":\"d1\",\
         \"to_email\":\"\",\"to_device\":\"\",\"event\":\"ping\",\"payload\":null}"
    );
}

#[test]
fn envelope_round_trip_plain() {
    let m = mk_env("u@x", "tok", "d1", "p@x", "d2", "sdp_offer", JsonValue::Str("v=0".to_string()));
    let text = m.encode();
    let back = SocketMessage::decode(&text).expect("decodes");
    assert_eq!(back.from_email, "u@x");
    assert_eq!(back.from_token, "tok");
    assert_eq!(back.from_device, "d1");
    assert_eq!(back.to_email, "p@x");
    assert_eq!(back.to_device, "d2");
    assert_eq!(back.event, "sdp_offer");
    assert_eq!(back.encode(), text);
}

#[test]
fn envelope_round_trip_nested_payload() {
    let payload = JsonValue::Obj(vec![
        ("sdp".to_string(), JsonValue::Str("v=0\r\no=- 1 2 IN IP4 0.0.0.0".to_string())),
        ("n".to_string(), JsonValue::Num("-12.5e3".to_string())),
        ("flags".to_string(), JsonValue::Arr(vec![
            JsonValue::Bool(true),
            JsonValue::Null,
            JsonValue::Str("q\"uote\\".to_string()),
        ])),
    ]);
    let m = mk_env("a@x", "tok", "d1", "b@x", "d9", "ice_candidate", payload);
    let text = m.encode();
    let back = SocketMessage::decode(&text).expect("decodes");
    // the codec is the identity on its own output
    assert_eq!(back.encode(), text);
}

#[test]
fn envelope_decode_accepts_reordered_and_extra_fields() {
    let text = "{\"event\":\"ping\",\"payload\":{},\"extra\":[1,2],\"from_device\":\"d\",\
                \"to_device\":\"\",\"to_email\":\"\",\"from_token\":\"t\",\"from_email\":\"e@x\"}";
    let m = SocketMessage::decode(text).expect("decodes");
    assert_eq!(m.event, "ping");
    assert_eq!(m.from_email, "e@x");
}

#[test]
fn envelope_decode_rejects_missing_field() {
    // no payload member
    let text = "{\"from_email\":\"\",\"from_token\":\"\",\"from_device\":\"\",\
                \"to_email\":\"\",\"to_device\":\"\",\"event\":\"ping\"}";
    assert!(SocketMessage::decode(text).is_none());
    assert!(SocketMessage::decode("not json").is_none());
}

#[test]
fn envelope_matches_serde_json_reading() {
    let m = mk_env("u@x", "t", "d", "", "", "check", JsonValue::Num("42".to_string()));
    let text = m.encode();
    let v: serde_json::Value = serde_json::from_str(&text).expect("well-formed JSON");
    assert_eq!(v["from_email"], "u@x");
    assert_eq!(v["event"], "check");
    assert_eq!(v["payload"], serde_json::Value::from(42u64));
}

#[test]
fn string_escapes_round_trip() {
    let m = mk_env("q\"\\\n\t\u{8}\u{c}\r\u{1}", "t", "d", "", "", "ping", JsonValue::Null);
    let text = m.encode();
    let back = SocketMessage::decode(&text).expect("decodes");
    assert_eq!(back.from_email, "q\"\\\n\t\u{8}\u{c}\r\u{1}");
    // serde_json agrees on the escaping
    let v: serde_json::Value = serde_json::from_str(&text).expect("valid");
    assert_eq!(v["from_email"].as_str().unwrap(), "q\"\\\n\t\u{8}\u{c}\r\u{1}");
}

#[test]
fn unicode_escape_decoding() {
    let v = json_decode_str("\"a\\u0041\\u00e9\"").expect("decodes");
    match v {
        JsonValue::Str(s) => assert_eq!(s, "aA\u{e9}"),
        _ => panic!("expected a string"),
    }
}

#[test]
fn json_decode_whitespace_and_nesting() {
    let v = json_decode_str(" { \"a\" : [ 1 , true , null , \"x\" ] } ").expect("decodes");
    assert_eq!(json_encode(&v), "{\"a\":[1,true,null,\"x\"]}");
}

#[test]
fn json_decode_rejects_malformed() {
    assert!(json_decode_str("{").is_none());
    assert!(json_decode_str("[1,]").is_none());
    assert!(json_decode_str("01").is_none());
    assert!(json_decode_str("\"\\u00\"").is_none());
    assert!(json_decode_str("{\"a\":1} trailing").is_none());
}

#[test]
fn parse_message_text_binary_other() {
    let m = mk_env("u@x", "t", "d", "", "", "ping", JsonValue::Null);
    let text = m.encode();
    let from_text = SocketMessage::parse_message(Frame::Text(text.clone())).expect("ok");
    assert_eq!(from_text.event, "ping");
    let from_bin =
        SocketMessage::parse_message(Frame::Binary(text.clone().into_bytes())).expect("ok");
    assert_eq!(from_bin.event, "ping");
    assert!(SocketMessage::parse_message(Frame::Binary(vec![0xff, 0xfe])).is_err());
    match SocketMessage::parse_message(Frame::Other) {
        Err(e) => assert_eq!(e, "invalid event type"),
        Ok(_) => panic!("a non-text frame carries no envelope"),
    }
}

#[test]
fn validate_required_fields_table() {
    let ok = mk_env("u@x", "tok", "d1", "", "", "register", JsonValue::Null);
    assert!(ok.validate().is_ok());
    let bad = mk_env("u@x", "", "d1", "", "", "register", JsonValue::Null);
    assert_eq!(bad.validate().unwrap_err(), "from_token is required for register");
    let bad2 = mk_env("", "", "", "", "", "check", JsonValue::Null);
    assert_eq!(bad2.validate().unwrap_err(), "from_email is required for check");
    let fwd = mk_env("a@x", "", "d1", "b@x", "", "sdp_answer", JsonValue::Null);
    assert_eq!(fwd.validate().unwrap_err(), "to_device is required");
    let unk = mk_env("", "", "", "", "", "warp", JsonValue::Null);
    assert_eq!(unk.validate().unwrap_err(), "Unknown event type: warp");
    let ping = mk_env("", "", "", "", "", "ping", JsonValue::Null);
    assert!(ping.validate().is_ok());
}

#[test]
fn device_info_round_trip() {
    let d = DeviceInfo {
        socket_id: "s1".to_string(),
        device_name: Some("laptop".to_string()),
        device_type: None,
        device_id: "d1".to_string(),
    };
    let text = d.encode();
    assert_eq!(
        text,
        "{\"socket_id\":\"s1\",\"device_name\":\"laptop\",\"device_type\":null,\"device_id\":\"d1\"}"
    );
    let back = DeviceInfo::decode(&text).expect("decodes");
    assert_eq!(back.socket_id, "s1");
    assert_eq!(back.device_name.as_deref(), Some("laptop"));
    assert_eq!(back.device_type, None);
    assert_eq!(back.device_id, "d1");
}

#[test]
fn device_info_optional_fields_may_be_missing() {
    let back = DeviceInfo::decode("{\"socket_id\":\"s\",\"device_id\":\"d\"}").expect("decodes");
    assert_eq!(back.device_name, None);
    assert_eq!(back.device_type, None);
    assert!(DeviceInfo::decode("{\"socket_id\":\"s\"}").is_none());
}

#[test]
fn routed_message_round_trip() {
    let rm = RedisMessage {
        target_email: "p@x".to_string(),
        target_device: "d2".to_string(),
        socket_message: mk_env("u@x", "", "d1", "p@x", "d2", "sdp_offer", JsonValue::Null),
        sender_pod: None,
        timestamp: Some(1700000000123),
    };
    let text = rm.encode();
    let back = RedisMessage::decode(&text).expect("decodes");
    assert_eq!(back.target_email, "p@x");
    assert_eq!(back.target_device, "d2");
    assert_eq!(back.socket_message.event, "sdp_offer");
    assert_eq!(back.sender_pod, None);
    assert_eq!(back.timestamp, Some(1700000000123));
    assert_eq!(back.encode(), text);
}

#[test]
fn response_builders_exact_text() {
    assert_eq!(
        register_ok("abc"),
        "{\"event\":\"register\",\"socket_id\":\"abc\",\"status\":\"ok\"}"
    );
    assert_eq!(
        register_error("Email does not match token"),
        "{\"error\":\"Email does not match token\",\"event\":\"register\",\"status\":\"error\"}"
    );
    assert_eq!(connected_ok(), "{\"event\":\"connected\",\"status\":\"ok\"}");
    assert_eq!(error_envelope("nope"), "{\"error\":\"nope\",\"event\":\"error\"}");
}

#[test]
fn number_lexemes_survive() {
    let v = json_decode_str("[0,-1,2.5,1e10,-3.25E-2]").expect("decodes");
    assert_eq!(json_encode(&v), "[0,-1,2.5,1e10,-3.25E-2]");
}

#[test]
fn timestamp_extremes() {
    // eighteen digits round-trip; the decoder reads no more than that
    let rm = RedisMessage {
        target_email: "p@x".to_string(),
        target_device: "d".to_string(),
        socket_message: mk_env("u@x", "", "d1", "p@x", "d", "try_connect", JsonValue::Null),
        sender_pod: Some("pod-7".to_string()),
        timestamp: Some(999_999_999_999_999_999),
    };
    let back = RedisMessage::decode(&rm.encode()).expect("decodes");
    assert_eq!(back.timestamp, Some(999_999_999_999_999_999));
    assert_eq!(back.sender_pod.as_deref(), Some("pod-7"));
    // nineteen digits are rejected rather than misread
    let wide = rm.encode().replace("999999999999999999", "9999999999999999999");
    assert!(RedisMessage::decode(&wide).is_none());
    // a missing timestamp reads as none
    let rm2 = RedisMessage {
        target_email: "p@x".to_string(),
        target_device: "d".to_string(),
        socket_message: mk_env("u@x", "", "d1", "p@x", "d", "try_connect", JsonValue::Null),
        sender_pod: None,
        timestamp: None,
    };
    assert_eq!(RedisMessage::decode(&rm2.encode()).expect("decodes").timestamp, None);
}

#[test]
fn supplementary_characters_travel_verbatim() {
    let m = mk_env("u@x", "t", "d", "", "", "ping", JsonValue::Str("snow \u{2603} cat \u{1f408}".to_string()));
    let text = m.encode();
    let back = SocketMessage::decode(&text).expect("decodes");
    match back.payload {
        JsonValue::Str(s) => assert_eq!(s, "snow \u{2603} cat \u{1f408}"),
        _ => panic!("expected a string payload"),
    }
    let v: serde_json::Value = serde_json::from_str(&text).expect("valid");
    assert_eq!(v["payload"].as_str().unwrap(), "snow \u{2603} cat \u{1f408}");
}
