use futures_channel::mpsc::unbounded;

use signaller::codec::encode_message;
use signaller::ice::IceEnv;
use signaller::rtc::SignallerMessage;
use signaller::service::handle_message;
use signaller::state::State;

fn no_env() -> IceEnv {
    IceEnv {
        ice_server_whitelist: None,
        stun_servers: None,
        turn_server_configs: None,
        turn_servers: None,
        turn_username: None,
        turn_credential: None,
    }
}

#[test]
fn test_handle_message_start() {
    let mut state = State::new();
    let (tx, _rx) = unbounded();
    let socket_addr: u64 = 8080;

    let msg = SignallerMessage::Start {
        room: "test_room".to_string(),
        name: "test_name".to_string(),
        os: "test_os".to_string(),
        version: "1.0".to_string(),
        control: true,
    };

    let result = handle_message(
        &mut state,
        &tx,
        &encode_message(&msg),
        socket_addr,
        &no_env(),
        1,
    );

    assert!(result.is_ok());
    assert_eq!(state.sessions.len(), 1);
}

#[test]
fn test_handle_message_join() {
    let mut state = State::new();
    let (tx, _rx) = unbounded();
    let socket_addr: u64 = 8080;

    let start_msg = SignallerMessage::Start {
        room: "test_room".to_string(),
        name: "test_name".to_string(),
        os: "test_os".to_string(),
        version: "1.0".to_string(),
        control: true,
    };

    handle_message(
        &mut state,
        &tx,
        &encode_message(&start_msg),
        socket_addr,
        &no_env(),
        1,
    )
    .unwrap();

    let join_msg = SignallerMessage::Join {
        from: "viewer1".to_string(),
        room: "test_room".to_string(),
    };

    let result = handle_message(
        &mut state,
        &tx,
        &encode_message(&join_msg),
        socket_addr,
        &no_env(),
        2,
    );

    assert!(result.is_ok());
    assert_eq!(state.get_session("test_room").unwrap().viewers.len(), 1);
}
