use maelstrom::message::Body;
use maelstrom::message::InitMessageType;
use maelstrom::message::Message;
use maelstrom::message::Payload;
use maelstrom::node::handshake_line;
use maelstrom::node::init_ack;
use maelstrom::node::process_line;
use maelstrom::node::Node;
use maelstrom::node::NodeError;
use maelstrom::node::RuntimeError;
use maelstrom::nodes::worker_id_of;
use maelstrom::nodes::EchoNode;
use maelstrom::nodes::GenerateNode;
use maelstrom::wire::decode_message;
use maelstrom::wire::WireError;

const INIT_LINE: &str =
    "{\"src\":\"c0\",\"dest\":\"n1\",\"body\":{\"type\":\"init\",\"node_id\":\"n1\",\"node_ids\":[\"n1\"],\"msg_id\":1}}";

#[test]
fn handshake_acknowledges_init() {
    let (init, ack_line) = handshake_line(INIT_LINE).expect("init line must hand-shake");
    assert_eq!(init.node_id, "n1");
    assert_eq!(init.node_ids, vec!["n1".to_string()]);
    assert_eq!(
        ack_line,
        "{\"src\":\"n1\",\"dest\":\"c0\",\"body\":{\"type\":\"init_ok\",\"msg_id\":0,\"in_reply_to\":1}}"
    );
    // The acknowledgement decodes to an init_ok answering msg_id 1.
    let ack = decode_message(&ack_line).expect("acknowledgement must decode");
    assert_eq!(ack.src, "n1");
    assert_eq!(ack.dst, "c0");
    assert_eq!(ack.body.in_reply_to, Some(1));
    assert!(matches!(ack.body.message, Payload::InitOk));
}

#[test]
fn handshake_without_msg_id_acknowledges_without_in_reply_to() {
    let line = "{\"src\":\"c0\",\"dest\":\"n1\",\"body\":{\"type\":\"init\",\"node_id\":\"n1\",\"node_ids\":[\"n1\"]}}";
    let (_, ack_line) = handshake_line(line).expect("init without msg_id must hand-shake");
    let ack = decode_message(&ack_line).expect("acknowledgement must decode");
    assert_eq!(ack.body.in_reply_to, None);
}

#[test]
fn handshake_rejects_non_init_message() {
    let line = "{\"src\":\"c0\",\"dest\":\"n1\",\"body\":{\"type\":\"echo\",\"echo\":\"x\",\"msg_id\":1}}";
    assert_eq!(handshake_line(line), Err(RuntimeError::NotInit));
}

#[test]
fn handshake_rejects_malformed_line() {
    assert_eq!(
        handshake_line("garbage"),
        Err(RuntimeError::Wire(WireError::Malformed))
    );
}

#[test]
fn init_ack_swaps_addresses_and_answers_msg_id() {
    let m = Message {
        src: "c0".to_string(),
        dst: "n1".to_string(),
        body: Body {
            msg_id: Some(9),
            in_reply_to: None,
            message: InitMessageType::InitOk,
        },
    };
    let ack = init_ack(&m);
    assert_eq!(ack.src, "n1");
    assert_eq!(ack.dst, "c0");
    assert_eq!(ack.body.msg_id, Some(0));
    assert_eq!(ack.body.in_reply_to, Some(9));
    assert!(matches!(ack.body.message, InitMessageType::InitOk));
}

#[test]
fn echo_scenario_replies_with_same_text() {
    let (init, _) = handshake_line(INIT_LINE).expect("handshake");
    let mut node = EchoNode::from_init(init).expect("echo node builds");
    let line = "{\"src\":\"c0\",\"dest\":\"n1\",\"body\":{\"type\":\"echo\",\"echo\":\"hello\",\"msg_id\":2}}";
    let replies = process_line(&mut node, line).expect("echo must be handled");
    assert_eq!(replies.len(), 1);
    let reply = decode_message(&replies[0]).expect("reply must decode");
    assert_eq!(reply.src, "n1");
    assert_eq!(reply.dst, "c0");
    assert_eq!(reply.body.in_reply_to, Some(2));
    match reply.body.message {
        Payload::EchoOk(e) => assert_eq!(e, "hello"),
        _ => panic!("expected echo_ok"),
    }
}

#[test]
fn malformed_frame_after_init_is_fatal() {
    let (init, _) = handshake_line(INIT_LINE).expect("handshake");
    let mut node = EchoNode::from_init(init).expect("echo node builds");
    let res = process_line(&mut node, "this is not a frame");
    assert_eq!(res, Err(RuntimeError::Wire(WireError::Malformed)));
}

#[test]
fn echo_node_rejects_other_variants() {
    let (init, _) = handshake_line(INIT_LINE).expect("handshake");
    let mut node = EchoNode::from_init(init).expect("echo node builds");
    let line = "{\"src\":\"c0\",\"dest\":\"n1\",\"body\":{\"type\":\"generate\",\"msg_id\":2}}";
    assert_eq!(
        process_line(&mut node, line),
        Err(RuntimeError::Handler(NodeError::UnexpectedMessage))
    );
}

#[test]
fn generate_scenario_replies_with_fresh_id() {
    let (init, _) = handshake_line(INIT_LINE).expect("handshake");
    let mut node = GenerateNode::from_init(init).expect("generate node builds");
    let line = "{\"src\":\"c0\",\"dest\":\"n1\",\"body\":{\"type\":\"generate\",\"msg_id\":5}}";
    let replies = process_line(&mut node, line).expect("generate must be handled");
    assert_eq!(replies.len(), 1);
    let reply = decode_message(&replies[0]).expect("reply must decode");
    assert_eq!(reply.src, "n1");
    assert_eq!(reply.dst, "c0");
    assert_eq!(reply.body.in_reply_to, Some(5));
    assert!(matches!(reply.body.message, Payload::GenerateOk(_)));
}

#[test]
fn generate_node_ids_are_distinct_across_requests() {
    let (init, _) = handshake_line(INIT_LINE).expect("handshake");
    let mut node = GenerateNode::from_init(init).expect("generate node builds");
    let line = "{\"src\":\"c0\",\"dest\":\"n1\",\"body\":{\"type\":\"generate\",\"msg_id\":5}}";
    let mut seen = Vec::new();
    for _ in 0..200 {
        let replies = process_line(&mut node, line).expect("generate must be handled");
        let reply = decode_message(&replies[0]).expect("reply must decode");
        match reply.body.message {
            Payload::GenerateOk(id) => {
                assert!(!seen.contains(&id), "duplicate id {}", id);
                seen.push(id);
            }
            _ => panic!("expected generate_ok"),
        }
    }
}

#[test]
fn worker_id_derivation() {
    assert_eq!(worker_id_of("n1"), Ok(1));
    assert_eq!(worker_id_of("n0"), Ok(0));
    assert_eq!(worker_id_of("n31"), Ok(31));
    assert_eq!(worker_id_of("n012"), Ok(12));
    assert_eq!(worker_id_of(""), Err(NodeError::InvalidNodeId));
    assert_eq!(worker_id_of("n"), Err(NodeError::InvalidNodeId));
    assert_eq!(worker_id_of("x1"), Err(NodeError::InvalidNodeId));
    assert_eq!(worker_id_of("n1a"), Err(NodeError::InvalidNodeId));
    assert_eq!(worker_id_of("n32"), Err(NodeError::InvalidNodeId));
    assert_eq!(worker_id_of("n18446744073709551616"), Err(NodeError::InvalidNodeId));
}

#[test]
fn generate_node_rejects_unusable_name() {
    let line = "{\"src\":\"c0\",\"dest\":\"nx\",\"body\":{\"type\":\"init\",\"node_id\":\"nx\",\"node_ids\":[\"nx\"],\"msg_id\":1}}";
    let (init, _) = handshake_line(line).expect("handshake");
    assert!(matches!(
        GenerateNode::from_init(init),
        Err(NodeError::InvalidNodeId)
    ));
}
