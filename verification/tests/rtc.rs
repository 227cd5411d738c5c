use signaller::codec::{decode_message, encode_message};
use signaller::rtc::{IceServer, RoomInfo, SignallerMessage};

#[test]
fn test_signaller_message_serialization() {
    let msg = SignallerMessage::Start {
        room: "test_room".to_string(),
        name: "test_name".to_string(),
        os: "test_os".to_string(),
        version: "1.0".to_string(),
        control: true,
    };

    let serialized = encode_message(&msg);
    let deserialized: SignallerMessage = decode_message(&serialized).unwrap();

    match deserialized {
        SignallerMessage::Start {
            room,
            name,
            os,
            version,
            control,
        } => {
            assert_eq!(room, "test_room");
            assert_eq!(name, "test_name");
            assert_eq!(os, "test_os");
            assert_eq!(version, "1.0");
            assert!(control);
        }
        _ => panic!("Deserialized to wrong variant"),
    }
}

#[test]
fn test_ice_server_default() {
    let ice_server = IceServer::default();
    assert_eq!(ice_server.url, "");
    assert_eq!(ice_server.username, "");
    assert_eq!(ice_server.password, "");
}

#[test]
fn test_start_encoding_is_exact() {
    let msg = SignallerMessage::Start {
        room: "R".to_string(),
        name: "N".to_string(),
        os: "linux".to_string(),
        version: "1".to_string(),
        control: true,
    };
    assert_eq!(
        encode_message(&msg),
        "{\"type\":\"start\",\"room\":\"R\",\"name\":\"N\",\"os\":\"linux\",\"version\":\"1\",\"control\":true}"
    );
}

fn round_trips(msg: SignallerMessage) -> SignallerMessage {
    decode_message(&encode_message(&msg)).expect("round trip decode")
}

#[test]
fn test_round_trip_offer_answer_ice() {
    match round_trips(SignallerMessage::Offer {
        from: "a".to_string(),
        to: "b".to_string(),
    }) {
        SignallerMessage::Offer { from, to } => {
            assert_eq!(from, "a");
            assert_eq!(to, "b");
        }
        _ => panic!("wrong variant"),
    }
    match round_trips(SignallerMessage::Answer {
        from: "x y".to_string(),
        to: "\"quoted\"".to_string(),
    }) {
        SignallerMessage::Answer { from, to } => {
            assert_eq!(from, "x y");
            assert_eq!(to, "\"quoted\"");
        }
        _ => panic!("wrong variant"),
    }
    match round_trips(SignallerMessage::Ice {
        from: "back\\slash".to_string(),
        to: "tab\there".to_string(),
    }) {
        SignallerMessage::Ice { from, to } => {
            assert_eq!(from, "back\\slash");
            assert_eq!(to, "tab\there");
        }
        _ => panic!("wrong variant"),
    }
}

#[test]
fn test_round_trip_join_leave_declined() {
    match round_trips(SignallerMessage::Join {
        from: "v1".to_string(),
        room: "room".to_string(),
    }) {
        SignallerMessage::Join { from, room } => {
            assert_eq!(from, "v1");
            assert_eq!(room, "room");
        }
        _ => panic!("wrong variant"),
    }
    match round_trips(SignallerMessage::Leave {
        from: "v1".to_string(),
    }) {
        SignallerMessage::Leave { from } => assert_eq!(from, "v1"),
        _ => panic!("wrong variant"),
    }
    match round_trips(SignallerMessage::JoinDeclined {
        to: "v2".to_string(),
        reason: "Device is offline".to_string(),
    }) {
        SignallerMessage::JoinDeclined { to, reason } => {
            assert_eq!(to, "v2");
            assert_eq!(reason, "Device is offline");
        }
        _ => panic!("wrong variant"),
    }
}

#[test]
fn test_round_trip_plain_variants() {
    assert!(matches!(
        round_trips(SignallerMessage::KeepAlive),
        SignallerMessage::KeepAlive
    ));
    assert!(matches!(
        round_trips(SignallerMessage::IceServers),
        SignallerMessage::IceServers
    ));
    assert!(matches!(
        round_trips(SignallerMessage::SubscribeRoomUpdates),
        SignallerMessage::SubscribeRoomUpdates
    ));
    assert!(matches!(
        round_trips(SignallerMessage::UnsubscribeRoomUpdates),
        SignallerMessage::UnsubscribeRoomUpdates
    ));
    match round_trips(SignallerMessage::StartResponse {
        room: "r".to_string(),
    }) {
        SignallerMessage::StartResponse { room } => assert_eq!(room, "r"),
        _ => panic!("wrong variant"),
    }
    match round_trips(SignallerMessage::ServerClosed {
        to: "v".to_string(),
        room: "r".to_string(),
    }) {
        SignallerMessage::ServerClosed { to, room } => {
            assert_eq!(to, "v");
            assert_eq!(room, "r");
        }
        _ => panic!("wrong variant"),
    }
    match round_trips(SignallerMessage::NewRoomNotification {
        room: "r2".to_string(),
    }) {
        SignallerMessage::NewRoomNotification { room } => assert_eq!(room, "r2"),
        _ => panic!("wrong variant"),
    }
}

#[test]
fn test_round_trip_ice_servers_response() {
    let msg = SignallerMessage::IceServersResponse {
        ice_servers: vec![
            IceServer {
                url: "stun:stun.example.com:3478".to_string(),
                username: "".to_string(),
                password: "".to_string(),
            },
            IceServer {
                url: "turn:turn.example.com:3478".to_string(),
                username: "user".to_string(),
                password: "pass".to_string(),
            },
        ],
    };
    match round_trips(msg) {
        SignallerMessage::IceServersResponse { ice_servers } => {
            assert_eq!(ice_servers.len(), 2);
            assert_eq!(ice_servers[0].url, "stun:stun.example.com:3478");
            assert_eq!(ice_servers[0].username, "");
            assert_eq!(ice_servers[1].username, "user");
            assert_eq!(ice_servers[1].password, "pass");
        }
        _ => panic!("wrong variant"),
    }
}

#[test]
fn test_round_trip_get_room_list() {
    let msg = SignallerMessage::GetRoomList {
        os: Some("linux".to_string()),
        name: None,
        version: Some("1.0".to_string()),
        server: None,
        sort: Some("asc".to_string()),
        control: Some(true),
        page: Some(2),
        per_page: None,
    };
    match round_trips(msg) {
        SignallerMessage::GetRoomList {
            os,
            name,
            version,
            server,
            sort,
            control,
            page,
            per_page,
        } => {
            assert_eq!(os.as_deref(), Some("linux"));
            assert_eq!(name, None);
            assert_eq!(version.as_deref(), Some("1.0"));
            assert_eq!(server, None);
            assert_eq!(sort.as_deref(), Some("asc"));
            assert_eq!(control, Some(true));
            assert_eq!(page, Some(2));
            assert_eq!(per_page, None);
        }
        _ => panic!("wrong variant"),
    }
}

#[test]
fn test_round_trip_room_list_response() {
    let msg = SignallerMessage::RoomListResponse {
        rooms: vec![(
            "R1".to_string(),
            RoomInfo {
                server: "R1".to_string(),
                viewer_count: 2,
                viewers: vec!["v1".to_string(), "v2".to_string()],
                os: "linux".to_string(),
                version: "1".to_string(),
                name: "host one".to_string(),
                control: false,
            },
        )],
        total_count: 1,
        page: Some(1),
        per_page: Some(6),
    };
    match round_trips(msg) {
        SignallerMessage::RoomListResponse {
            rooms,
            total_count,
            page,
            per_page,
        } => {
            assert_eq!(total_count, 1);
            assert_eq!(page, Some(1));
            assert_eq!(per_page, Some(6));
            assert_eq!(rooms.len(), 1);
            assert_eq!(rooms[0].0, "R1");
            assert_eq!(rooms[0].1.viewer_count, 2);
            assert_eq!(rooms[0].1.viewers, vec!["v1", "v2"]);
            assert_eq!(rooms[0].1.name, "host one");
            assert!(!rooms[0].1.control);
        }
        _ => panic!("wrong variant"),
    }
}

#[test]
fn test_decode_tolerates_unknown_fields_and_order() {
    let raw = "{\"sdp\":{\"nested\":[1,2,{\"deep\":null}]},\"to\":\"b\",\"from\":\"a\",\"type\":\"offer\",\"x\":1.5e3}";
    match decode_message(raw).unwrap() {
        SignallerMessage::Offer { from, to } => {
            assert_eq!(from, "a");
            assert_eq!(to, "b");
        }
        _ => panic!("wrong variant"),
    }
}

#[test]
fn test_decode_unicode_escapes() {
    let raw = "{\"type\":\"join\",\"from\":\"\\u0041\\n\\t\",\"room\":\"r\"}";
    match decode_message(raw).unwrap() {
        SignallerMessage::Join { from, .. } => assert_eq!(from, "A\n\t"),
        _ => panic!("wrong variant"),
    }
}

#[test]
fn test_decode_failures() {
    // not JSON at all
    assert!(decode_message("start the room").is_err());
    // unknown discriminator
    assert!(decode_message("{\"type\":\"warp\"}").is_err());
    // missing required field
    assert!(decode_message("{\"type\":\"join\",\"from\":\"v\"}").is_err());
    // no type field
    assert!(decode_message("{\"from\":\"v\",\"room\":\"r\"}").is_err());
    // trailing garbage
    assert!(decode_message("{\"type\":\"keep_alive\"} extra").is_err());
    // ill-typed field
    assert!(decode_message("{\"type\":\"leave\",\"from\":7}").is_err());
}

#[test]
fn test_control_characters_round_trip() {
    let msg = SignallerMessage::StartResponse {
        room: "a\u{1}b\u{1f}c".to_string(),
    };
    let text = encode_message(&msg);
    assert!(text.contains("\\u0001"));
    match decode_message(&text).unwrap() {
        SignallerMessage::StartResponse { room } => assert_eq!(room, "a\u{1}b\u{1f}c"),
        _ => panic!("wrong variant"),
    }
}
