use futures_channel::mpsc::unbounded;

use signaller::ice::IceEnv;
use signaller::state::State;

fn no_env() -> IceEnv {
    IceEnv {
        ice_server_whitelist: None,
        stun_servers: None,
        turn_server_configs: None,
        turn_servers: None,
        turn_username: None,
        turn_credential: None,
    }
}

#[test]
fn test_state_new() {
    let state = State::new();
    assert!(state.sessions.is_empty());
    assert!(state.server_socket_addr_to_room.is_empty());
    assert!(state.peers.is_empty());
    assert!(state.room_update_subscribers.is_empty());
}

#[test]
fn test_add_server() {
    let mut state = State::new();
    let (tx, _rx) = unbounded();
    let socket_addr: u64 = 8080;

    let result = state.add_server(
        "test_room".to_string(),
        "test_name".to_string(),
        "test_os".to_string(),
        "1.0".to_string(),
        true,
        tx,
        socket_addr,
        1,
    );

    assert!(result.is_ok());
    assert_eq!(state.sessions.len(), 1);
    assert_eq!(state.server_socket_addr_to_room.len(), 1);
    assert_eq!(state.peers.len(), 1);
}

#[test]
fn test_add_viewer() {
    let mut state = State::new();
    let (server_tx, _rx) = unbounded();
    let (viewer_tx, _rx2) = unbounded();
    let socket_addr: u64 = 8080;

    state
        .add_server(
            "test_room".to_string(),
            "test_name".to_string(),
            "test_os".to_string(),
            "1.0".to_string(),
            true,
            server_tx,
            socket_addr,
            1,
        )
        .unwrap();

    let result = state.add_viewer("viewer1".to_string(), "test_room".to_string(), viewer_tx);

    assert!(result.is_ok());
    assert_eq!(state.get_session("test_room").unwrap().viewers.len(), 1);
}

#[test]
fn test_leave_session() {
    let mut state = State::new();
    let (server_tx, _rx) = unbounded();
    let (viewer_tx, _rx2) = unbounded();
    let socket_addr: u64 = 8080;

    state
        .add_server(
            "test_room".to_string(),
            "test_name".to_string(),
            "test_os".to_string(),
            "1.0".to_string(),
            true,
            server_tx,
            socket_addr,
            1,
        )
        .unwrap();

    state
        .add_viewer("viewer1".to_string(), "test_room".to_string(), viewer_tx)
        .unwrap();

    // viewer leaving
    let result = state.leave_session("viewer1".to_string());
    assert!(result.is_ok());
    assert_eq!(state.get_session("test_room").unwrap().viewers.len(), 0);

    // server leaving
    let result = state.leave_session("test_room".to_string());
    assert!(result.is_ok());
    assert!(state.sessions.is_empty());
}

#[test]
fn test_leave_session_unknown_peer_fails() {
    let mut state = State::new();
    assert!(state.leave_session("nobody".to_string()).is_err());
}

#[test]
fn test_get_available_rooms() {
    let mut state = State::new();
    let (tx, _rx) = unbounded();
    let socket_addr: u64 = 8080;

    state
        .add_server(
            "room1".to_string(),
            "test1".to_string(),
            "Windows".to_string(), // capitalized for the case-insensitive check
            "1.0".to_string(),
            true,
            tx.clone(),
            socket_addr,
            1,
        )
        .unwrap();

    let socket_addr2: u64 = 8081;
    state
        .add_server(
            "room2".to_string(),
            "TeStName".to_string(), // mixed case for the name filter
            "MacOS".to_string(),
            "1.0".to_string(),
            true,
            tx.clone(),
            socket_addr2,
            2,
        )
        .unwrap();

    // exact case match
    let (rooms, total_count) = state.get_available_rooms(
        Some("Windows"),
        Some("1.0"),
        None,
        Some("test"),
        Some("desc"),
        Some(true),
        Some(1),
        Some(10),
    );
    assert_eq!(total_count, 1);
    assert_eq!(rooms.len(), 1);
    assert!(rooms.iter().any(|p| p.0 == "room1"));

    // case-insensitive os filter
    let (rooms, total_count) = state.get_available_rooms(
        Some("windows"),
        Some("1.0"),
        None,
        Some("test"),
        Some("desc"),
        Some(true),
        Some(1),
        Some(10),
    );
    assert_eq!(total_count, 1);
    assert_eq!(rooms.len(), 1);
    assert!(rooms.iter().any(|p| p.0 == "room1"));

    // case-insensitive name substring filter
    let (rooms, total_count) = state.get_available_rooms(
        None,
        Some("1.0"),
        None,
        Some("testname"),
        Some("desc"),
        Some(true),
        Some(1),
        Some(10),
    );
    assert_eq!(total_count, 1);
    assert_eq!(rooms.len(), 1);
    assert!(rooms.iter().any(|p| p.0 == "room2"));
}

#[test]
fn test_get_available_rooms_empty_registry() {
    let state = State::new();
    let (rooms, total_count) =
        state.get_available_rooms(None, None, None, None, None, None, Some(1), Some(6));
    assert_eq!(total_count, 0);
    assert!(rooms.is_empty());
}

#[test]
fn test_get_available_rooms_page_past_end() {
    let mut state = State::new();
    let (tx, _rx) = unbounded();
    state
        .add_server(
            "r1".to_string(),
            "n".to_string(),
            "os".to_string(),
            "1".to_string(),
            false,
            tx,
            1,
            1,
        )
        .unwrap();
    let (rooms, total_count) =
        state.get_available_rooms(None, None, None, None, None, None, Some(9), Some(6));
    assert_eq!(total_count, 1);
    assert!(rooms.is_empty());
}

#[test]
fn test_get_available_rooms_sort_orders() {
    let mut state = State::new();
    let (tx, _rx) = unbounded();
    for (room, time, sock) in [("r1", 10u64, 1u64), ("r2", 20, 2), ("r3", 30, 3)] {
        state
            .add_server(
                room.to_string(),
                "n".to_string(),
                "os".to_string(),
                "1".to_string(),
                false,
                tx.clone(),
                sock,
                time,
            )
            .unwrap();
    }
    // default: descending by start time
    let (rooms, _) = state.get_available_rooms(None, None, None, None, None, None, None, None);
    let names: Vec<&str> = rooms.iter().map(|p| p.0.as_str()).collect();
    assert_eq!(names, vec!["r3", "r2", "r1"]);
    // "asc" flips it
    let (rooms, _) =
        state.get_available_rooms(None, None, None, None, Some("asc"), None, None, None);
    let names: Vec<&str> = rooms.iter().map(|p| p.0.as_str()).collect();
    assert_eq!(names, vec!["r1", "r2", "r3"]);
    // any other sort value stays descending
    let (rooms, _) =
        state.get_available_rooms(None, None, None, None, Some("upwards"), None, None, None);
    let names: Vec<&str> = rooms.iter().map(|p| p.0.as_str()).collect();
    assert_eq!(names, vec!["r3", "r2", "r1"]);
}

#[test]
fn test_subscribe_idempotent_and_unsubscribe_absent() {
    let mut state = State::new();
    state.subscribe_room_updates("p1".to_string());
    state.subscribe_room_updates("p1".to_string());
    state.subscribe_room_updates("p1".to_string());
    assert_eq!(state.room_update_subscribers.len(), 1);
    state.unsubscribe_room_updates("absent");
    assert_eq!(state.room_update_subscribers.len(), 1);
    state.unsubscribe_room_updates("p1");
    assert!(state.room_update_subscribers.is_empty());
}

#[test]
fn test_get_ice_servers() {
    let state = State::new();

    // no configuration at all
    let ice_servers = state.get_ice_servers("test_id".to_string(), &no_env());
    assert_eq!(ice_servers.len(), 0);

    // STUN servers
    let env = IceEnv {
        stun_servers: Some("stun:stun.example.com:3478,stun:stun2.example.com:3478".to_string()),
        ..no_env()
    };
    let ice_servers = state.get_ice_servers("test_id".to_string(), &env);
    assert_eq!(ice_servers.len(), 2);
    assert_eq!(ice_servers[0].url, "stun:stun.example.com:3478");
    assert_eq!(ice_servers[1].url, "stun:stun2.example.com:3478");

    // TURN servers with shared credentials
    let env = IceEnv {
        stun_servers: Some("stun:stun.example.com:3478,stun:stun2.example.com:3478".to_string()),
        turn_servers: Some("turn:turn.example.com:3478,turn:turn2.example.com:3478".to_string()),
        turn_username: Some("username".to_string()),
        turn_credential: Some("password".to_string()),
        ..no_env()
    };
    let ice_servers = state.get_ice_servers("test_id".to_string(), &env);
    assert_eq!(ice_servers.len(), 4);
    assert!(ice_servers
        .iter()
        .any(|s| s.url == "stun:stun.example.com:3478"));
    assert!(ice_servers
        .iter()
        .any(|s| s.url == "stun:stun2.example.com:3478"));
    let turn_servers: Vec<_> = ice_servers
        .iter()
        .filter(|s| s.url.starts_with("turn:"))
        .collect();
    assert_eq!(turn_servers.len(), 2);
    assert!(turn_servers
        .iter()
        .any(|s| s.url == "turn:turn.example.com:3478"));
    assert!(turn_servers
        .iter()
        .any(|s| s.url == "turn:turn2.example.com:3478"));
    for turn_server in turn_servers {
        assert_eq!(turn_server.username, "username");
        assert_eq!(turn_server.password, "password");
    }

    // TURN servers with individual credentials
    let env = IceEnv {
        turn_server_configs: Some(
            "turn:turn1.example.com:3478|user1|pass1,turn:turn2.example.com:3478|user2|pass2"
                .to_string(),
        ),
        ..no_env()
    };
    let ice_servers = state.get_ice_servers("test_id".to_string(), &env);
    assert_eq!(ice_servers.len(), 2);
    let turn1 = ice_servers
        .iter()
        .find(|s| s.url == "turn:turn1.example.com:3478")
        .unwrap();
    assert_eq!(turn1.username, "user1");
    assert_eq!(turn1.password, "pass1");
    let turn2 = ice_servers
        .iter()
        .find(|s| s.url == "turn:turn2.example.com:3478")
        .unwrap();
    assert_eq!(turn2.username, "user2");
    assert_eq!(turn2.password, "pass2");

    // all kinds combined
    let env = IceEnv {
        stun_servers: Some("stun:stun.example.com:3478".to_string()),
        turn_servers: Some("turn:shared.example.com:3478".to_string()),
        turn_username: Some("shared_user".to_string()),
        turn_credential: Some("shared_pass".to_string()),
        turn_server_configs: Some("turn:individual.example.com:3478|ind_user|ind_pass".to_string()),
        ..no_env()
    };
    let ice_servers = state.get_ice_servers("test_id".to_string(), &env);
    assert_eq!(ice_servers.len(), 3);

    // whitelist
    let env = IceEnv {
        stun_servers: Some("stun:stun.example.com:3478".to_string()),
        ice_server_whitelist: Some("allowed_id,another_id".to_string()),
        ..no_env()
    };
    let ice_servers = state.get_ice_servers("test_id".to_string(), &env);
    assert_eq!(ice_servers.len(), 0); // not in whitelist
    let ice_servers = state.get_ice_servers("allowed_id".to_string(), &env);
    assert_eq!(ice_servers.len(), 1); // in whitelist
}
