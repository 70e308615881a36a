use rdm::protocol::{decode, encode, ProtocolError, WireField, WireValue, WsMessage};

fn s(x: &str) -> String {
    x.to_string()
}

fn round_trip(m: &WsMessage) -> WsMessage {
    let fields = encode(m);
    decode(&fields).expect("decodes")
}

fn field(k: &str, v: WireValue) -> WireField {
    WireField { key: s(k), value: v }
}

#[test]
fn test_ws_message_serialization() {
    let msg = WsMessage::Command { id: s("test-cmd-123"), command: s("ls -la"), sudo: false };
    let deserialized = round_trip(&msg);
    match deserialized {
        WsMessage::Command { id, command, sudo } => {
            assert_eq!(id, "test-cmd-123");
            assert_eq!(command, "ls -la");
            assert_eq!(sudo, false);
        }
        _ => panic!("Expected Command message"),
    }
}

#[test]
fn test_message_serialization() {
    let msg = WsMessage::Command { id: s("test"), command: s("ls"), sudo: false };
    let deserialized = round_trip(&msg);
    match deserialized {
        WsMessage::Command { id, command, sudo } => {
            assert_eq!(id, "test");
            assert_eq!(command, "ls");
            assert_eq!(sudo, false);
        }
        _ => panic!("Expected Command message"),
    }
}

#[test]
fn every_variant_round_trips() {
    let all = vec![
        WsMessage::Auth { token: s("tok") },
        WsMessage::DeviceInfo { device_id: s("d1"), info: s("{\"cpu\":4}") },
        WsMessage::Command { id: s("c1"), command: s("uptime"), sudo: true },
        WsMessage::CommandResult { id: s("c1"), success: true, output: s("ok"), error: None },
        WsMessage::CommandResult { id: s("c2"), success: false, output: s(""), error: Some(s("boom")) },
        WsMessage::Log { device_id: s("d1"), level: s("info"), message: s("hi"), data: None },
        WsMessage::Log { device_id: s("d1"), level: s("warn"), message: s("x"), data: Some(s("y")) },
        WsMessage::Heartbeat { device_id: s("d1"), timestamp: -7 },
        WsMessage::Error { code: s("E1"), message: s("bad") },
    ];
    for m in all.iter() {
        assert_eq!(&round_trip(m), m);
    }
}

#[test]
fn encode_puts_the_tag_first() {
    let fields = encode(&WsMessage::Heartbeat { device_id: s("d9"), timestamp: 42 });
    assert_eq!(fields.len(), 3);
    assert_eq!(fields[0].key, "type");
    assert_eq!(fields[0].value, WireValue::Str(s("heartbeat")));
    assert_eq!(fields[1].key, "device_id");
    assert_eq!(fields[1].value, WireValue::Str(s("d9")));
    assert_eq!(fields[2].key, "timestamp");
    assert_eq!(fields[2].value, WireValue::Int(42));
}

#[test]
fn unknown_tag_is_rejected() {
    let fields = vec![field("type", WireValue::Str(s("reboot")))];
    assert_eq!(decode(&fields), Err(ProtocolError::UnknownTag));
}

#[test]
fn missing_tag_is_rejected() {
    let fields = vec![field("token", WireValue::Str(s("t")))];
    assert_eq!(decode(&fields), Err(ProtocolError::MissingTag));
    let fields = vec![field("type", WireValue::Int(3))];
    assert_eq!(decode(&fields), Err(ProtocolError::MissingTag));
}

#[test]
fn missing_field_is_rejected() {
    let fields = vec![
        field("type", WireValue::Str(s("command"))),
        field("id", WireValue::Str(s("c1"))),
        field("sudo", WireValue::Bool(false)),
    ];
    assert_eq!(decode(&fields), Err(ProtocolError::MissingField));
}

#[test]
fn wrong_field_type_is_rejected() {
    let fields = vec![
        field("type", WireValue::Str(s("heartbeat"))),
        field("device_id", WireValue::Str(s("d1"))),
        field("timestamp", WireValue::Str(s("now"))),
    ];
    assert_eq!(decode(&fields), Err(ProtocolError::WrongFieldType));
}

#[test]
fn absent_optional_field_is_none_and_field_order_is_free() {
    let fields = vec![
        field("output", WireValue::Str(s("done"))),
        field("success", WireValue::Bool(true)),
        field("id", WireValue::Str(s("c5"))),
        field("type", WireValue::Str(s("command_result"))),
    ];
    assert_eq!(
        decode(&fields),
        Ok(WsMessage::CommandResult { id: s("c5"), success: true, output: s("done"), error: None })
    );
}

#[test]
fn device_info_takes_any_value_as_json_text() {
    let with_info = |v: WireValue| {
        vec![
            field("type", WireValue::Str(s("device_info"))),
            field("device_id", WireValue::Str(s("d1"))),
            field("info", v),
        ]
    };
    let info_of = |v: WireValue| match decode(&with_info(v)) {
        Ok(WsMessage::DeviceInfo { info, .. }) => info,
        other => panic!("unexpected {:?}", other),
    };
    assert_eq!(info_of(WireValue::Raw(s("{\"a\":1}"))), "{\"a\":1}");
    assert_eq!(info_of(WireValue::Str(s("pixel"))), "\"pixel\"");
    assert_eq!(info_of(WireValue::Int(-5)), "-5");
    assert_eq!(info_of(WireValue::Bool(true)), "true");
    assert_eq!(info_of(WireValue::Null), "null");
}
