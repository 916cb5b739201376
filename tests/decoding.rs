use echo_node::codec::{encode, unframe};
use echo_node::json::{decode_message, Json, SchemaError};
use echo_node::message::{Message, Payload};

fn s(x: &str) -> Json {
    Json::Str(x.to_string())
}

fn obj(members: Vec<(&str, Json)>) -> Json {
    Json::Object(members.into_iter().map(|(k, v)| (k.to_string(), v)).collect())
}

fn envelope(body: Json) -> Json {
    obj(vec![("src", s("c1")), ("dest", s("n1")), ("body", body)])
}

fn from_value(v: serde_json::Value) -> Json {
    match v {
        serde_json::Value::Null => Json::Null,
        serde_json::Value::Bool(b) => Json::Bool(b),
        serde_json::Value::Number(n) => match n.as_u64() {
            Some(u) => Json::UInt(u),
            None => Json::OtherNumber,
        },
        serde_json::Value::String(t) => Json::Str(t),
        serde_json::Value::Array(items) => Json::Array(items.into_iter().map(from_value).collect()),
        serde_json::Value::Object(members) => {
            Json::Object(members.into_iter().map(|(k, v)| (k, from_value(v))).collect())
        }
    }
}

#[test]
fn decodes_init_in_any_member_order() {
    let body = obj(vec![
        ("node_ids", Json::Array(vec![s("n1"), s("n2")])),
        ("node_id", s("n1")),
        ("msg_id", Json::UInt(1)),
        ("type", s("init")),
    ]);
    let m = decode_message(&envelope(body)).unwrap();
    assert_eq!(m.src, "c1");
    assert_eq!(m.dst, "n1");
    assert_eq!(
        m.payload,
        Payload::Init {
            msg_id: 1,
            node_id: "n1".to_string(),
            node_ids: vec!["n1".to_string(), "n2".to_string()],
        }
    );
}

#[test]
fn unknown_members_are_ignored() {
    let body = obj(vec![("type", s("echo")), ("msg_id", Json::UInt(9)), ("echo", s("hi")), ("extra", Json::Null)]);
    let mut top = vec![("src", s("c1")), ("dest", s("n1")), ("body", body), ("id", Json::UInt(3))];
    top.reverse();
    let m = decode_message(&obj(top)).unwrap();
    assert_eq!(m.payload, Payload::Echo { msg_id: 9, echo: "hi".to_string() });
}

#[test]
fn unknown_tag_is_rejected() {
    let body = obj(vec![("type", s("broadcast")), ("msg_id", Json::UInt(1))]);
    assert_eq!(decode_message(&envelope(body)), Err(SchemaError));
}

#[test]
fn missing_or_mistyped_fields_are_rejected() {
    let no_echo = obj(vec![("type", s("echo")), ("msg_id", Json::UInt(1))]);
    assert_eq!(decode_message(&envelope(no_echo)), Err(SchemaError));
    let negative = obj(vec![("type", s("echo")), ("msg_id", Json::OtherNumber), ("echo", s("x"))]);
    assert_eq!(decode_message(&envelope(negative)), Err(SchemaError));
    let too_big = obj(vec![("type", s("init_ok")), ("in_reply_to", Json::UInt(4294967296))]);
    assert_eq!(decode_message(&envelope(too_big)), Err(SchemaError));
    let largest = obj(vec![("type", s("init_ok")), ("in_reply_to", Json::UInt(4294967295))]);
    assert_eq!(
        decode_message(&envelope(largest)).unwrap().payload,
        Payload::InitOk { in_reply_to: u32::MAX }
    );
    let bad_list = obj(vec![
        ("type", s("init")),
        ("msg_id", Json::UInt(1)),
        ("node_id", s("n1")),
        ("node_ids", Json::Array(vec![s("n1"), Json::UInt(2)])),
    ]);
    assert_eq!(decode_message(&envelope(bad_list)), Err(SchemaError));
    let tag_not_string = obj(vec![("type", Json::UInt(1))]);
    assert_eq!(decode_message(&envelope(tag_not_string)), Err(SchemaError));
    let no_dest = obj(vec![("src", s("c1")), ("body", obj(vec![("type", s("init_ok")), ("in_reply_to", Json::UInt(1))]))]);
    assert_eq!(decode_message(&no_dest), Err(SchemaError));
}

#[test]
fn non_objects_are_rejected() {
    assert_eq!(decode_message(&Json::Null), Err(SchemaError));
    assert_eq!(decode_message(&Json::Array(vec![])), Err(SchemaError));
    assert_eq!(decode_message(&envelope(s("init"))), Err(SchemaError));
}

#[test]
fn encoded_messages_decode_to_equal_values() {
    let messages = vec![
        Message::new(
            "c1".to_string(),
            "n1".to_string(),
            Payload::Init { msg_id: 1, node_id: "n1".to_string(), node_ids: vec!["n1".to_string(), "n2".to_string()] },
        ),
        Message::new("n1".to_string(), "c1".to_string(), Payload::InitOk { in_reply_to: 4294967295 }),
        Message::new("c1".to_string(), "n1".to_string(), Payload::Echo { msg_id: 0, echo: "tab\t\"q\" \\ \u{1}é".to_string() }),
        Message::new(
            "n1".to_string(),
            "c1".to_string(),
            Payload::EchoOk { msg_id: 5, in_reply_to: 6, echo: "line\nbreak".to_string() },
        ),
    ];
    for m in messages {
        let line = encode(&m);
        let text = unframe(&line).unwrap().unwrap();
        let value: serde_json::Value = serde_json::from_str(&text).unwrap();
        assert_eq!(decode_message(&from_value(value)), Ok(m));
    }
}
