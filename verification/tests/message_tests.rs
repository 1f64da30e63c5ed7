use maelstrom::message::Body;
use maelstrom::message::Init;
use maelstrom::message::Message;
use maelstrom::message::Payload;
use maelstrom::wire::decode_message;
use maelstrom::wire::encode_message;
use maelstrom::wire::WireError;

#[test]
fn test_init_message() {
    let init_message = r#"
        {
            "src":"c0",
            "dest":"n1",
            "body":{
                "type":"init",
                "node_id":"n1",
                "node_ids":["n1"],
                "msg_id":1
            }
        }
        "#;
    let res: Result<Message<Payload>, WireError> = decode_message(init_message);
    match res {
        Ok(init_message) => {
            assert_eq!(init_message.src, "c0");
            assert_eq!(init_message.dst, "n1");
            assert_eq!(init_message.body.msg_id, Some(1));
            match init_message.body.message {
                Payload::Init(init) => {
                    assert_eq!(init.node_id, "n1");
                    assert_eq!(init.node_ids.len(), 1);
                    assert_eq!(init.node_ids[0], "n1");
                }
                _ => panic!("invalid message type"),
            }
        }
        Err(e) => panic!("Error seriaising message {:?}", e),
    }
}

#[test]
fn test_err_missing_msg_id() {
    let json = r#"
        {
            "id":0,
            "src":"c0",
            "dest":"n1",
            "body":{
                "type":"init",
                "node_id":"n1",
                "node_ids":["n1"],
                "msg_id":1
                }
        }
        "#;
    let res: Result<Message<Payload>, WireError> = decode_message(json);
    assert!(res.is_ok());
}

fn msg(src: &str, dst: &str, msg_id: Option<u64>, in_reply_to: Option<u64>, p: Payload) -> Message<Payload> {
    Message {
        src: src.to_string(),
        dst: dst.to_string(),
        body: Body { msg_id, in_reply_to, message: p },
    }
}

fn assert_round_trip(m: &Message<Payload>) -> Message<Payload> {
    let line = encode_message(m);
    let back = decode_message(&line).expect("encoded line must decode");
    assert_eq!(back.src, m.src);
    assert_eq!(back.dst, m.dst);
    assert_eq!(back.body.msg_id, m.body.msg_id);
    assert_eq!(back.body.in_reply_to, m.body.in_reply_to);
    back
}

#[test]
fn round_trip_init() {
    let m = msg(
        "c0",
        "n1",
        Some(1),
        None,
        Payload::Init(Init { node_id: "n1".to_string(), node_ids: vec!["n1".to_string(), "n2".to_string()] }),
    );
    let back = assert_round_trip(&m);
    match back.body.message {
        Payload::Init(init) => {
            assert_eq!(init.node_id, "n1");
            assert_eq!(init.node_ids, vec!["n1".to_string(), "n2".to_string()]);
        }
        _ => panic!("wrong variant after round trip"),
    }
}

#[test]
fn round_trip_init_empty_node_ids() {
    let m = msg(
        "c0",
        "n1",
        None,
        None,
        Payload::Init(Init { node_id: "n0".to_string(), node_ids: vec![] }),
    );
    let back = assert_round_trip(&m);
    match back.body.message {
        Payload::Init(init) => assert_eq!(init.node_ids.len(), 0),
        _ => panic!("wrong variant after round trip"),
    }
}

#[test]
fn round_trip_init_ok() {
    let m = msg("n1", "c0", Some(0), Some(1), Payload::InitOk);
    let back = assert_round_trip(&m);
    assert!(matches!(back.body.message, Payload::InitOk));
}

#[test]
fn round_trip_echo() {
    let m = msg("c0", "n1", Some(2), None, Payload::Echo("hello".to_string()));
    let back = assert_round_trip(&m);
    match back.body.message {
        Payload::Echo(e) => assert_eq!(e, "hello"),
        _ => panic!("wrong variant after round trip"),
    }
}

#[test]
fn round_trip_echo_ok_with_escapes() {
    let text = "a \"quoted\" \\ backslash\nnewline\ttab\rreturn";
    let m = msg("n1", "c0", Some(0), Some(2), Payload::EchoOk(text.to_string()));
    // The framing guarantee: even a payload holding a newline encodes to
    // one single line.
    let line = encode_message(&m);
    assert!(!line.contains('\n'));
    let back = assert_round_trip(&m);
    match back.body.message {
        Payload::EchoOk(e) => assert_eq!(e, text),
        _ => panic!("wrong variant after round trip"),
    }
}

#[test]
fn round_trip_generate() {
    let m = msg("c0", "n1", Some(3), None, Payload::Generate);
    let back = assert_round_trip(&m);
    assert!(matches!(back.body.message, Payload::Generate));
}

#[test]
fn round_trip_generate_ok() {
    let m = msg("n1", "c0", Some(0), Some(3), Payload::GenerateOk(u64::MAX));
    let back = assert_round_trip(&m);
    match back.body.message {
        Payload::GenerateOk(id) => assert_eq!(id, u64::MAX),
        _ => panic!("wrong variant after round trip"),
    }
}

#[test]
fn encode_init_ok_exact_text() {
    let m = msg("n1", "c0", Some(0), Some(1), Payload::InitOk);
    assert_eq!(
        encode_message(&m),
        "{\"src\":\"n1\",\"dest\":\"c0\",\"body\":{\"type\":\"init_ok\",\"msg_id\":0,\"in_reply_to\":1}}"
    );
}

#[test]
fn encode_echo_exact_text() {
    let m = msg("c0", "n1", Some(2), None, Payload::Echo("hi".to_string()));
    assert_eq!(
        encode_message(&m),
        "{\"src\":\"c0\",\"dest\":\"n1\",\"body\":{\"type\":\"echo\",\"msg_id\":2,\"echo\":\"hi\"}}"
    );
}

#[test]
fn decode_rejects_invalid_json() {
    assert_eq!(decode_message("not json at all"), Err(WireError::Malformed));
    assert_eq!(decode_message(""), Err(WireError::Malformed));
    assert_eq!(decode_message("{\"src\":\"a\""), Err(WireError::Malformed));
    assert_eq!(decode_message("[1,2,3]"), Err(WireError::Malformed));
}

#[test]
fn decode_rejects_unknown_tag() {
    let line = "{\"src\":\"c0\",\"dest\":\"n1\",\"body\":{\"type\":\"broadcast\",\"msg_id\":1}}";
    assert_eq!(decode_message(line), Err(WireError::UnknownTag));
}

#[test]
fn decode_rejects_missing_fields() {
    // No body at all.
    assert_eq!(
        decode_message("{\"src\":\"c0\",\"dest\":\"n1\"}"),
        Err(WireError::MissingField)
    );
    // Tagged init without its required fields.
    assert_eq!(
        decode_message("{\"src\":\"c0\",\"dest\":\"n1\",\"body\":{\"type\":\"init\"}}"),
        Err(WireError::MissingField)
    );
    // Body without a tag.
    assert_eq!(
        decode_message("{\"src\":\"c0\",\"dest\":\"n1\",\"body\":{\"msg_id\":1}}"),
        Err(WireError::MissingField)
    );
}

#[test]
fn decode_accepts_null_ids_and_any_field_order() {
    let line = "{\"body\":{\"msg_id\":null,\"type\":\"echo\",\"echo\":\"x\"},\"dest\":\"n1\",\"src\":\"c0\"}";
    let m = decode_message(line).expect("reordered fields must decode");
    assert_eq!(m.src, "c0");
    assert_eq!(m.dst, "n1");
    assert_eq!(m.body.msg_id, None);
    match m.body.message {
        Payload::Echo(e) => assert_eq!(e, "x"),
        _ => panic!("wrong variant"),
    }
}

#[test]
fn decode_skips_unknown_fields_of_any_shape() {
    let line = "{\"extra\":{\"deep\":[1,{\"x\":\"]\"}]},\"src\":\"c0\",\"dest\":\"n1\",\
                \"body\":{\"flag\":true,\"other\":null,\"type\":\"generate\",\"msg_id\":7}}";
    let m = decode_message(line).expect("unknown fields must be skipped");
    assert_eq!(m.body.msg_id, Some(7));
    assert!(matches!(m.body.message, Payload::Generate));
}

#[test]
fn decode_last_repeated_field_wins() {
    let line = "{\"src\":\"a\",\"src\":\"b\",\"dest\":\"n1\",\"body\":{\"type\":\"init_ok\"}}";
    let m = decode_message(line).expect("repeated field must decode");
    assert_eq!(m.src, "b");
}

#[test]
fn decode_rejects_number_overflow() {
    // One past u64::MAX cannot be a msg_id.
    let line = "{\"src\":\"c0\",\"dest\":\"n1\",\"body\":{\"type\":\"init_ok\",\"msg_id\":18446744073709551616}}";
    assert_eq!(decode_message(line), Err(WireError::Malformed));
    // u64::MAX itself is fine.
    let line = "{\"src\":\"c0\",\"dest\":\"n1\",\"body\":{\"type\":\"init_ok\",\"msg_id\":18446744073709551615}}";
    let m = decode_message(line).expect("u64::MAX must decode");
    assert_eq!(m.body.msg_id, Some(u64::MAX));
}

#[test]
fn decode_unicode_escapes() {
    let line = "{\"src\":\"c0\",\"dest\":\"n1\",\"body\":{\"type\":\"echo\",\"echo\":\"\\u0041\\u00e9\\u20AC\",\"msg_id\":1}}";
    let m = decode_message(line).expect("unicode escapes must decode");
    match m.body.message {
        Payload::Echo(e) => assert_eq!(e, "A\u{e9}\u{20ac}"),
        _ => panic!("wrong variant"),
    }
}

#[test]
fn decode_rejects_bad_unicode_escapes() {
    // A lone surrogate is not a scalar value.
    let line = "{\"src\":\"c0\",\"dest\":\"n1\",\"body\":{\"type\":\"echo\",\"echo\":\"\\uD800\",\"msg_id\":1}}";
    assert_eq!(decode_message(line), Err(WireError::Malformed));
    // Too few digits.
    let line = "{\"src\":\"c0\",\"dest\":\"n1\",\"body\":{\"type\":\"echo\",\"echo\":\"\\u12\",\"msg_id\":1}}";
    assert_eq!(decode_message(line), Err(WireError::Malformed));
    // Not hexadecimal.
    let line = "{\"src\":\"c0\",\"dest\":\"n1\",\"body\":{\"type\":\"echo\",\"echo\":\"\\uZZZZ\",\"msg_id\":1}}";
    assert_eq!(decode_message(line), Err(WireError::Malformed));
}

#[test]
fn round_trip_control_characters() {
    let text = "bell\u{07} esc\u{1b} nul\u{0} end";
    let m = msg("n1", "c0", Some(0), Some(4), Payload::EchoOk(text.to_string()));
    let line = encode_message(&m);
    // Control characters are written as \u00XX escapes, never raw.
    assert!(line.contains("\\u0007"));
    assert!(line.contains("\\u001b"));
    assert!(line.contains("\\u0000"));
    assert!(!line.contains('\u{07}'));
    let back = decode_message(&line).expect("escaped control characters decode");
    match back.body.message {
        Payload::EchoOk(e) => assert_eq!(e, text),
        _ => panic!("wrong variant after round trip"),
    }
}
