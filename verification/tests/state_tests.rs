use futures_channel::mpsc::unbounded;

use signaller::state::State;

#[test]
fn state_tests_test_state_new() {
    let state = State::new();
    assert!(state.sessions.is_empty());
    assert!(state.server_socket_addr_to_room.is_empty());
    assert!(state.peers.is_empty());
    assert!(state.room_update_subscribers.is_empty());
}

#[test]
fn state_tests_test_add_server() {
    let mut state = State::new();
    let (tx, _rx) = unbounded();
    let socket_addr: u64 = 8080;

    let result = state.add_server(
        "test_room".to_string(),
        "test_name".to_string(),
        "test_os".to_string(),
        "1.0".to_string(),
        true,
        tx,
        socket_addr,
        1,
    );

    assert!(result.is_ok());
    assert_eq!(state.sessions.len(), 1);
    assert_eq!(state.server_socket_addr_to_room.len(), 1);
    assert_eq!(state.peers.len(), 1);
}

#[test]
fn state_tests_test_add_viewer() {
    let mut state = State::new();
    let (server_tx, _rx) = unbounded();
    let (viewer_tx, _rx2) = unbounded();
    let socket_addr: u64 = 8080;

    state
        .add_server(
            "test_room".to_string(),
            "test_name".to_string(),
            "test_os".to_string(),
            "1.0".to_string(),
            true,
            server_tx,
            socket_addr,
            1,
        )
        .unwrap();

    let result = state.add_viewer("viewer1".to_string(), "test_room".to_string(), viewer_tx);

    assert!(result.is_ok());
    assert_eq!(state.get_session("test_room").unwrap().viewers.len(), 1);
}

#[test]
fn state_tests_test_leave_session() {
    let mut state = State::new();
    let (server_tx, _rx) = unbounded();
    let (viewer_tx, _rx2) = unbounded();
    let socket_addr: u64 = 8080;

    state
        .add_server(
            "test_room".to_string(),
            "test_name".to_string(),
            "test_os".to_string(),
            "1.0".to_string(),
            true,
            server_tx,
            socket_addr,
            1,
        )
        .unwrap();

    state
        .add_viewer("viewer1".to_string(), "test_room".to_string(), viewer_tx)
        .unwrap();

    let result = state.leave_session("viewer1".to_string());
    assert!(result.is_ok());
    assert_eq!(state.get_session("test_room").unwrap().viewers.len(), 0);

    let result = state.leave_session("test_room".to_string());
    assert!(result.is_ok());
    assert!(state.sessions.is_empty());
}

#[test]
fn state_tests_test_get_available_rooms() {
    let mut state = State::new();
    let (tx, _rx) = unbounded();
    let socket_addr: u64 = 8080;

    state
        .add_server(
            "room1".to_string(),
            "test1".to_string(),
            "windows".to_string(),
            "1.0".to_string(),
            true,
            tx.clone(),
            socket_addr,
            1,
        )
        .unwrap();

    let (rooms, total_count) = state.get_available_rooms(
        Some("windows"),
        Some("1.0"),
        None,
        Some("test"),
        Some("desc"),
        Some(true),
        Some(1),
        Some(10),
    );

    assert_eq!(total_count, 1);
    assert_eq!(rooms.len(), 1);
    assert!(rooms.iter().any(|p| p.0 == "room1"));
}
