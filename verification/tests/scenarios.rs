//! End-to-end scenarios: JSON frames in, enqueued frames out.

use futures_channel::mpsc::{unbounded, UnboundedReceiver};

use signaller::ice::IceEnv;
use signaller::service::handle_message;
use signaller::state::State;

fn no_env() -> IceEnv {
    IceEnv {
        ice_server_whitelist: None,
        stun_servers: None,
        turn_server_configs: None,
        turn_servers: None,
        turn_username: None,
        turn_credential: None,
    }
}

fn next_frame(rx: &mut UnboundedReceiver<String>) -> String {
    rx.try_next()
        .expect("queue open")
        .expect("a frame enqueued")
}

fn assert_empty(rx: &mut UnboundedReceiver<String>) {
    assert!(rx.try_next().is_err(), "expected no frame on this queue");
}

#[test]
fn test_host_registration() {
    let mut state = State::new();
    let (tx_a, mut rx_a) = unbounded();

    let r = handle_message(
        &mut state,
        &tx_a,
        "{\"type\":\"start\",\"room\":\"R\",\"name\":\"N\",\"os\":\"linux\",\"version\":\"1\",\"control\":true}",
        1,
        &no_env(),
        100,
    );
    assert!(r.is_ok());
    assert_eq!(next_frame(&mut rx_a), "{\"type\":\"start_response\",\"room\":\"R\"}");
    assert_eq!(state.sessions.len(), 1);
    assert!(state.get_session("R").is_some());
}

#[test]
fn test_second_start_for_same_room_fails() {
    let mut state = State::new();
    let (tx_a, _rx_a) = unbounded();
    let (tx_b, mut rx_b) = unbounded();
    handle_message(
        &mut state,
        &tx_a,
        "{\"type\":\"start\",\"room\":\"R\",\"name\":\"N\",\"os\":\"l\",\"version\":\"1\",\"control\":false}",
        1,
        &no_env(),
        100,
    )
    .unwrap();
    let r = handle_message(
        &mut state,
        &tx_b,
        "{\"type\":\"start\",\"room\":\"R\",\"name\":\"M\",\"os\":\"l\",\"version\":\"1\",\"control\":false}",
        2,
        &no_env(),
        200,
    );
    assert!(r.is_err());
    assert_empty(&mut rx_b);
    assert_eq!(state.sessions.len(), 1);
}

#[test]
fn test_viewer_join_and_addressed_forward() {
    let mut state = State::new();
    let (tx_a, mut rx_a) = unbounded();
    let (tx_b, mut rx_b) = unbounded();

    handle_message(
        &mut state,
        &tx_a,
        "{\"type\":\"start\",\"room\":\"R\",\"name\":\"N\",\"os\":\"linux\",\"version\":\"1\",\"control\":true}",
        1,
        &no_env(),
        100,
    )
    .unwrap();
    next_frame(&mut rx_a); // start_response

    let join_raw = "{\"type\":\"join\",\"from\":\"V1\",\"room\":\"R\"}";
    let r = handle_message(&mut state, &tx_b, join_raw, 2, &no_env(), 101);
    assert!(r.is_ok());

    // the host receives the original join frame, verbatim
    assert_eq!(next_frame(&mut rx_a), join_raw);
    assert_empty(&mut rx_b);
    let viewers = &state.get_session("R").unwrap().viewers;
    assert_eq!(viewers.len(), 1);
    assert_eq!(viewers[0], "V1");

    // an addressed offer from the viewer reaches the host verbatim,
    // opaque fields included
    let offer_raw = "{\"type\":\"offer\",\"from\":\"V1\",\"to\":\"R\",\"sdp\":\"v=0 lines\"}";
    handle_message(&mut state, &tx_b, offer_raw, 2, &no_env(), 102).unwrap();
    assert_eq!(next_frame(&mut rx_a), offer_raw);
}

#[test]
fn test_join_to_offline_room() {
    let mut state = State::new();
    let (tx_c, mut rx_c) = unbounded();

    let r = handle_message(
        &mut state,
        &tx_c,
        "{\"type\":\"join\",\"from\":\"V2\",\"room\":\"UNKNOWN\"}",
        3,
        &no_env(),
        100,
    );
    assert!(r.is_ok());
    assert_eq!(
        next_frame(&mut rx_c),
        "{\"type\":\"join_declined\",\"to\":\"V2\",\"reason\":\"Device is offline\"}"
    );
    assert!(state.sessions.is_empty());
    assert!(state.peers.is_empty());
}

#[test]
fn test_host_disconnect_cascades() {
    let mut state = State::new();
    let (tx_a, mut rx_a) = unbounded();
    let (tx_b, mut rx_b) = unbounded();

    handle_message(
        &mut state,
        &tx_a,
        "{\"type\":\"start\",\"room\":\"R\",\"name\":\"N\",\"os\":\"linux\",\"version\":\"1\",\"control\":true}",
        1,
        &no_env(),
        100,
    )
    .unwrap();
    handle_message(
        &mut state,
        &tx_b,
        "{\"type\":\"join\",\"from\":\"V1\",\"room\":\"R\"}",
        2,
        &no_env(),
        101,
    )
    .unwrap();
    next_frame(&mut rx_a); // start_response
    next_frame(&mut rx_a); // forwarded join

    state.on_disconnect(1);

    assert_eq!(
        next_frame(&mut rx_b),
        "{\"type\":\"server_closed\",\"to\":\"V1\",\"room\":\"R\"}"
    );
    assert!(state.sessions.is_empty());
    assert!(state.peers.is_empty());
    assert!(state.server_socket_addr_to_room.is_empty());
}

#[test]
fn test_viewer_disconnect_is_invisible() {
    let mut state = State::new();
    let (tx_a, _rx_a) = unbounded();
    let (tx_b, _rx_b) = unbounded();
    handle_message(
        &mut state,
        &tx_a,
        "{\"type\":\"start\",\"room\":\"R\",\"name\":\"N\",\"os\":\"l\",\"version\":\"1\",\"control\":true}",
        1,
        &no_env(),
        100,
    )
    .unwrap();
    handle_message(
        &mut state,
        &tx_b,
        "{\"type\":\"join\",\"from\":\"V1\",\"room\":\"R\"}",
        2,
        &no_env(),
        101,
    )
    .unwrap();
    // only host sockets are indexed: a viewer socket closing changes nothing
    state.on_disconnect(2);
    assert_eq!(state.sessions.len(), 1);
    assert_eq!(state.get_session("R").unwrap().viewers.len(), 1);
}

#[test]
fn test_room_listing_pagination() {
    let mut state = State::new();
    let (tx, mut rx) = unbounded();
    for (room, sock, time) in [("R1", 1u64, 10u64), ("R2", 2, 20), ("R3", 3, 30)] {
        let raw = format!(
            "{{\"type\":\"start\",\"room\":\"{}\",\"name\":\"n\",\"os\":\"l\",\"version\":\"1\",\"control\":false}}",
            room
        );
        handle_message(&mut state, &tx, &raw, sock, &no_env(), time).unwrap();
        next_frame(&mut rx); // start_response
    }

    handle_message(
        &mut state,
        &tx,
        "{\"type\":\"get_room_list\",\"per_page\":2,\"page\":1}",
        1,
        &no_env(),
        40,
    )
    .unwrap();
    let response = next_frame(&mut rx);
    assert!(response.contains("\"total_count\":3"));
    assert!(response.contains("\"R3\""));
    assert!(response.contains("\"R2\""));
    assert!(!response.contains("\"R1\""));
    // descending by start time: R3 before R2
    assert!(response.find("\"R3\"").unwrap() < response.find("\"R2\"").unwrap());

    handle_message(
        &mut state,
        &tx,
        "{\"type\":\"get_room_list\",\"per_page\":2,\"page\":2}",
        1,
        &no_env(),
        41,
    )
    .unwrap();
    let response = next_frame(&mut rx);
    assert!(response.contains("\"total_count\":3"));
    assert!(response.contains("\"R1\""));
    assert!(!response.contains("\"R2\""));
    assert!(!response.contains("\"R3\""));
}

#[test]
fn test_subscription_fan_out() {
    let mut state = State::new();
    let (tx_d, mut rx_d) = unbounded();
    let (tx_h, _rx_h) = unbounded();

    // connection D registers (so the registry knows its queue), then
    // subscribes to room updates
    handle_message(
        &mut state,
        &tx_d,
        "{\"type\":\"start\",\"room\":\"D\",\"name\":\"d\",\"os\":\"l\",\"version\":\"1\",\"control\":false}",
        9,
        &no_env(),
        1,
    )
    .unwrap();
    next_frame(&mut rx_d); // start_response
    handle_message(
        &mut state,
        &tx_d,
        "{\"type\":\"subscribe_room_updates\"}",
        9,
        &no_env(),
        2,
    )
    .unwrap();

    // a new room triggers a notification on D's queue
    handle_message(
        &mut state,
        &tx_h,
        "{\"type\":\"start\",\"room\":\"R2\",\"name\":\"h\",\"os\":\"l\",\"version\":\"1\",\"control\":false}",
        10,
        &no_env(),
        3,
    )
    .unwrap();
    assert_eq!(
        next_frame(&mut rx_d),
        "{\"type\":\"new_room_notification\",\"room\":\"R2\"}"
    );

    // after unsubscribing, no more notifications arrive
    handle_message(
        &mut state,
        &tx_d,
        "{\"type\":\"unsubscribe_room_updates\"}",
        9,
        &no_env(),
        4,
    )
    .unwrap();
    handle_message(
        &mut state,
        &tx_h,
        "{\"type\":\"start\",\"room\":\"R3\",\"name\":\"h\",\"os\":\"l\",\"version\":\"1\",\"control\":false}",
        11,
        &no_env(),
        5,
    )
    .unwrap();
    assert_empty(&mut rx_d);
}

#[test]
fn test_forward_to_unknown_peer_fails() {
    let mut state = State::new();
    let (tx, _rx) = unbounded();
    let r = handle_message(
        &mut state,
        &tx,
        "{\"type\":\"offer\",\"from\":\"a\",\"to\":\"ghost\"}",
        1,
        &no_env(),
        100,
    );
    assert!(r.is_err());
}

#[test]
fn test_malformed_frame_leaves_state_alone() {
    let mut state = State::new();
    let (tx, _rx) = unbounded();
    let r = handle_message(&mut state, &tx, "not json at all", 1, &no_env(), 100);
    assert!(r.is_err());
    assert!(state.sessions.is_empty());
    let r = handle_message(&mut state, &tx, "{\"type\":\"nope\"}", 1, &no_env(), 100);
    assert!(r.is_err());
}

#[test]
fn test_keep_alive_is_a_no_op() {
    let mut state = State::new();
    let (tx, mut rx) = unbounded();
    let r = handle_message(
        &mut state,
        &tx,
        "{\"type\":\"keep_alive\"}",
        1,
        &no_env(),
        100,
    );
    assert!(r.is_ok());
    assert_empty(&mut rx);
    assert!(state.sessions.is_empty());
}

#[test]
fn test_ice_servers_request() {
    let mut state = State::new();
    let (tx, mut rx) = unbounded();
    let env = IceEnv {
        ice_server_whitelist: None,
        stun_servers: Some("stun:s.example.com:3478".to_string()),
        turn_server_configs: None,
        turn_servers: None,
        turn_username: None,
        turn_credential: None,
    };
    handle_message(&mut state, &tx, "{\"type\":\"ice_servers\"}", 1, &env, 100).unwrap();
    assert_eq!(
        next_frame(&mut rx),
        "{\"type\":\"ice_servers_response\",\"ice_servers\":[{\"url\":\"stun:s.example.com:3478\",\"username\":\"\",\"password\":\"\"}]}"
    );
}
