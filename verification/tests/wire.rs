// The wire format.

use phantasma_link_relay::protocol::{topic_is_valid, ServerFrame};
use serde_json::Value;

#[test]
fn frames_have_their_members_in_order() {
    let payload: Value = serde_json::from_str(r#"{ "a" : [1, 2] }"#).expect("json");
    let deliver = ServerFrame::Deliver { topic: "t", id: Some("i"), payload: &payload };
    assert_eq!(
        deliver.to_json(),
        r#"{"op":"deliver","topic":"t","id":"i","payload":{"a":[1,2]}}"#
    );
    let deliver = ServerFrame::Deliver { topic: "t", id: None, payload: &Value::Null };
    assert_eq!(deliver.to_json(), r#"{"op":"deliver","topic":"t","payload":null}"#);
    let ack = ServerFrame::Ack { topic: "t", id: Some("i") };
    assert_eq!(ack.to_json(), r#"{"op":"ack","topic":"t","id":"i"}"#);
    let ack = ServerFrame::Ack { topic: "t", id: None };
    assert_eq!(ack.to_json(), r#"{"op":"ack","topic":"t"}"#);
    let error = ServerFrame::Error { code: "c", message: "m", id: Some("i") };
    assert_eq!(error.to_json(), r#"{"op":"error","code":"c","message":"m","id":"i"}"#);
    let error = ServerFrame::Error { code: "c", message: "m", id: None };
    assert_eq!(error.to_json(), r#"{"op":"error","code":"c","message":"m"}"#);
}

#[test]
fn strings_are_escaped() {
    let ack = ServerFrame::Ack { topic: "\"\\\u{8}\t\n\u{c}\r\u{0}\u{1f}\u{7f}é", id: Some("") };
    assert_eq!(
        ack.to_json(),
        "{\"op\":\"ack\",\"topic\":\"\\\"\\\\\\b\\t\\n\\f\\r\\u0000\\u001f\u{7f}é\",\"id\":\"\"}"
    );
    // What is written reads back.
    let all: String = (0..0x300u32).filter_map(char::from_u32).collect();
    let ack = ServerFrame::Ack { topic: &all, id: None };
    let back: Value = serde_json::from_str(&ack.to_json()).expect("json");
    assert_eq!(back["topic"], all.as_str());
}

#[test]
fn frames_read_back() {
    let payload = r#"{"n":[null,true,false,-0.0,1.5e-300,1e300,18446744073709551615],"s":"\u0001\"é"}"#;
    let payload: Value = serde_json::from_str(payload).expect("json");
    let topic = "t\",\"op\":\"ack";
    let deliver = ServerFrame::Deliver { topic, id: Some("\n"), payload: &payload };
    let back: Value = serde_json::from_str(&deliver.to_json()).expect("json");
    assert_eq!(back.as_object().expect("object").len(), 4);
    assert_eq!(back["op"], "deliver");
    assert_eq!(back["topic"], topic);
    assert_eq!(back["id"], "\n");
    assert_eq!(back["payload"], payload);
    let error = ServerFrame::Error { code: "c", message: "\\", id: None };
    let back: Value = serde_json::from_str(&error.to_json()).expect("json");
    assert_eq!(back.as_object().expect("object").len(), 3);
    assert_eq!(back["op"], "error");
    assert_eq!(back["code"], "c");
    assert_eq!(back["message"], "\\");
}

#[test]
fn frames_do_not_pass_for_one_another() {
    let forged = ServerFrame::Ack { topic: "t\",\"id\":\"i", id: None };
    let plain = ServerFrame::Ack { topic: "t", id: Some("i") };
    assert_ne!(forged.to_json(), plain.to_json());
}

#[test]
fn topics_are_bounded() {
    assert!(!topic_is_valid(""));
    assert!(topic_is_valid("t"));
    assert!(topic_is_valid(&"x".repeat(128)));
    assert!(!topic_is_valid(&"x".repeat(129)));
    // The bound counts bytes.
    assert!(topic_is_valid(&"é".repeat(64)));
    assert!(!topic_is_valid(&"é".repeat(65)));
    assert!(!topic_is_valid("a b"));
    assert!(!topic_is_valid("\ta"));
    assert!(!topic_is_valid("a\u{3000}"));
}

#[test]
fn white_space_is_what_unicode_says() {
    for c in '\0'..=char::MAX {
        assert_eq!(topic_is_valid(&c.to_string()), !c.is_whitespace(), "{:?}", c);
    }
}
