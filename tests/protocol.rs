use echo_node::codec::{encode, unframe, FramingError};
use echo_node::message::{Message, Payload};
use echo_node::node::{NodeError, State};
use echo_node::session::run_session;

fn init(src: &str, msg_id: u32, node_id: &str, node_ids: &[&str]) -> Message {
    Message::new(
        src.to_string(),
        node_id.to_string(),
        Payload::Init {
            msg_id,
            node_id: node_id.to_string(),
            node_ids: node_ids.iter().map(|s| s.to_string()).collect(),
        },
    )
}

fn echo(src: &str, msg_id: u32, text: &str) -> Message {
    Message::new(
        src.to_string(),
        "n1".to_string(),
        Payload::Echo { msg_id, echo: text.to_string() },
    )
}

#[test]
fn handshake_reply_is_exact() {
    let mut state = State::new();
    let reply = state.step(init("c1", 7, "n1", &["n1"])).unwrap();
    assert_eq!(
        encode(&reply),
        "{\"src\":\"n1\",\"dest\":\"c1\",\"body\":{\"type\":\"init_ok\",\"in_reply_to\":7}}\n"
    );
    assert_eq!(state.node_id(), Some(&"n1".to_string()));
    let (out, end) = run_session(vec![init("c1", 7, "n1", &["n1"])]);
    assert_eq!(out, vec![reply]);
    assert_eq!(end, Ok(()));
}

#[test]
fn end_to_end_init_then_echo() {
    let (out, end) = run_session(vec![init("c1", 1, "n1", &["n1"]), echo("c1", 2, "hello")]);
    assert_eq!(end, Ok(()));
    let lines: Vec<String> = out.iter().map(encode).collect();
    assert_eq!(
        lines,
        vec![
            "{\"src\":\"n1\",\"dest\":\"c1\",\"body\":{\"type\":\"init_ok\",\"in_reply_to\":1}}\n"
                .to_string(),
            "{\"src\":\"n1\",\"dest\":\"c1\",\"body\":{\"type\":\"echo_ok\",\"msg_id\":0,\"in_reply_to\":2,\"echo\":\"hello\"}}\n"
                .to_string(),
        ]
    );
}

#[test]
fn echo_before_handshake_fails_without_reply() {
    let (out, end) = run_session(vec![echo("c1", 1, "x"), init("c1", 2, "n1", &[])]);
    assert!(out.is_empty());
    assert_eq!(
        end,
        Err(NodeError::InvalidPayload(Payload::Echo { msg_id: 1, echo: "x".to_string() }))
    );
}

#[test]
fn empty_input_is_a_failure() {
    let (out, end) = run_session(vec![]);
    assert!(out.is_empty());
    assert_eq!(end, Err(NodeError::NoInitialMessage));
    assert_eq!(State::new().finish(), Err(NodeError::NoInitialMessage));
}

#[test]
fn echo_text_and_id_are_carried_back() {
    let mut state = State::new();
    state.step(init("c1", 1, "n1", &["n1", "n2"])).unwrap();
    let text = "a \"quoted\"\nline\\ with ünïcode";
    let reply = state.step(echo("c9", 4242, text)).unwrap();
    assert_eq!(reply.src, "n1");
    assert_eq!(reply.dst, "c9");
    assert_eq!(
        reply.payload,
        Payload::EchoOk { msg_id: 0, in_reply_to: 4242, echo: text.to_string() }
    );
    assert_eq!(
        encode(&reply),
        "{\"src\":\"n1\",\"dest\":\"c9\",\"body\":{\"type\":\"echo_ok\",\"msg_id\":0,\"in_reply_to\":4242,\"echo\":\"a \\\"quoted\\\"\\nline\\\\ with ünïcode\"}}\n"
    );
}

#[test]
fn echo_ids_count_up_from_zero() {
    let mut msgs = vec![init("c1", 1, "n1", &["n1"])];
    for k in 0..5u32 {
        msgs.push(echo("c2", 100 + k, &format!("m{}", k)));
    }
    let (out, end) = run_session(msgs);
    assert_eq!(end, Ok(()));
    assert_eq!(out.len(), 6);
    for (k, reply) in out[1..].iter().enumerate() {
        assert_eq!(
            reply.payload,
            Payload::EchoOk {
                msg_id: k as u32,
                in_reply_to: 100 + k as u32,
                echo: format!("m{}", k),
            }
        );
    }
}

#[test]
fn second_handshake_is_rejected() {
    let mut state = State::new();
    state.step(init("c1", 1, "n1", &["n1"])).unwrap();
    let again = state.step(init("c1", 2, "n2", &["n2"]));
    assert!(matches!(again, Err(NodeError::InvalidPayload(Payload::Init { msg_id: 2, .. }))));
    assert_eq!(state.node_id(), Some(&"n1".to_string()));
    let reply = state.step(echo("c1", 3, "still here")).unwrap();
    assert_eq!(reply.src, "n1");
}

#[test]
fn reply_payloads_are_rejected_after_handshake() {
    let (out, end) = run_session(vec![
        init("c1", 1, "n1", &["n1"]),
        echo("c1", 2, "a"),
        Message::new("c1".to_string(), "n1".to_string(), Payload::InitOk { in_reply_to: 1 }),
        echo("c1", 3, "b"),
    ]);
    assert_eq!(out.len(), 2);
    assert_eq!(end, Err(NodeError::InvalidPayload(Payload::InitOk { in_reply_to: 1 })));
}

#[test]
fn last_id_is_used_then_ids_run_out() {
    let mut state = State::Ready { node_id: "n1".to_string(), next_id: 0xffff_ffff };
    let reply = state.step(echo("c1", 1, "x")).unwrap();
    assert_eq!(
        reply.payload,
        Payload::EchoOk { msg_id: u32::MAX, in_reply_to: 1, echo: "x".to_string() }
    );
    let before = state.clone();
    assert_eq!(state.step(echo("c1", 2, "y")), Err(NodeError::IdsExhausted));
    assert_eq!(state, before);
}

#[test]
fn init_encodes_with_its_node_list() {
    let msg = init("c1", 4294967295, "n1", &["n1", "n2", "n3"]);
    assert_eq!(
        encode(&msg),
        "{\"src\":\"c1\",\"dest\":\"n1\",\"body\":{\"type\":\"init\",\"msg_id\":4294967295,\"node_id\":\"n1\",\"node_ids\":[\"n1\",\"n2\",\"n3\"]}}\n"
    );
    let empty = init("c1", 0, "n1", &[]);
    assert_eq!(
        encode(&empty),
        "{\"src\":\"c1\",\"dest\":\"n1\",\"body\":{\"type\":\"init\",\"msg_id\":0,\"node_id\":\"n1\",\"node_ids\":[]}}\n"
    );
    assert_eq!(
        encode(&echo("c1", 10, "")),
        "{\"src\":\"c1\",\"dest\":\"n1\",\"body\":{\"type\":\"echo\",\"msg_id\":10,\"echo\":\"\"}}\n"
    );
}

#[test]
fn framing_cases() {
    assert_eq!(unframe(""), Ok(None));
    assert_eq!(unframe("{\"a\":1}\n"), Ok(Some("{\"a\":1}".to_string())));
    assert_eq!(unframe("{\"a\":1}"), Err(FramingError::Truncated));
    assert_eq!(unframe("\n"), Ok(Some(String::new())));
}

#[test]
fn encoded_line_frames_back_to_its_text() {
    let line = encode(&echo("c1", 5, "multi\nline"));
    assert_eq!(line.matches('\n').count(), 1);
    let text = unframe(&line).unwrap().unwrap();
    assert_eq!(format!("{}\n", text), line);
}
