//! Cross-checks of the crate's codec against an independent JSON
//! implementation.

use signaller::codec::{decode_message, encode_message};
use signaller::rtc::SignallerMessage;

#[test]
fn test_encoded_frames_are_valid_json() {
    let msgs = vec![
        SignallerMessage::Start {
            room: "R room".to_string(),
            name: "weird \"name\"\n".to_string(),
            os: "linux".to_string(),
            version: "1.0".to_string(),
            control: true,
        },
        SignallerMessage::JoinDeclined {
            to: "v".to_string(),
            reason: "Device is offline".to_string(),
        },
        SignallerMessage::GetRoomList {
            os: None,
            name: Some("x".to_string()),
            version: None,
            server: None,
            sort: None,
            control: None,
            page: Some(1),
            per_page: Some(6),
        },
    ];
    for msg in &msgs {
        let text = encode_message(msg);
        let value: serde_json::Value = serde_json::from_str(&text).expect("valid JSON");
        assert!(value.is_object());
        assert!(value.get("type").is_some());
    }
}

#[test]
fn test_encoded_start_fields_survive_independent_parse() {
    let msg = SignallerMessage::Start {
        room: "R/2\\x".to_string(),
        name: "tab\tand newline\n".to_string(),
        os: "os".to_string(),
        version: "1".to_string(),
        control: false,
    };
    let text = encode_message(&msg);
    let value: serde_json::Value = serde_json::from_str(&text).unwrap();
    assert_eq!(value.get("type").unwrap().as_str(), Some("start"));
    assert_eq!(value.get("room").unwrap().as_str(), Some("R/2\\x"));
    assert_eq!(
        value.get("name").unwrap().as_str(),
        Some("tab\tand newline\n")
    );
    assert_eq!(value.get("control").unwrap().as_bool(), Some(false));
}

#[test]
fn test_decoder_accepts_independent_encoding() {
    let mut obj = serde_json::Map::new();
    obj.insert(
        "type".to_string(),
        serde_json::Value::String("join".to_string()),
    );
    obj.insert(
        "from".to_string(),
        serde_json::Value::String("astral \u{1F600} viewer".to_string()),
    );
    obj.insert(
        "room".to_string(),
        serde_json::Value::String("room".to_string()),
    );
    let text = serde_json::to_string(&serde_json::Value::Object(obj)).unwrap();
    match decode_message(&text).unwrap() {
        SignallerMessage::Join { from, room } => {
            assert_eq!(from, "astral \u{1F600} viewer");
            assert_eq!(room, "room");
        }
        _ => panic!("wrong variant"),
    }
}
