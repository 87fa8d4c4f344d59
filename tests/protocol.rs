use phy_channels::{
    decode_inbound, dispatch_step, encode_frame, handler_call, DispatchAction, DispatchOutcome,
    EventKind, Foreign, HeartbeatAction, Inbound, Incoming, Key, Session, SessionError, Value,
    HEARTBEAT_INTERVAL_SECS,
};

fn inbound(message_ref: Option<u32>) -> Inbound {
    decode_inbound(Some(1), message_ref, "room:1".to_string(), "phx_reply", "{\"status\":\"ok\"}".to_string())
}

#[test]
fn fixed_tokens_decode_to_their_events() {
    assert!(matches!(EventKind::from_token("phx_close"), EventKind::Close));
    assert!(matches!(EventKind::from_token("phx_error"), EventKind::Error));
    assert!(matches!(EventKind::from_token("phx_join"), EventKind::Join));
    assert!(matches!(EventKind::from_token("phx_leave"), EventKind::Leave));
    assert!(matches!(EventKind::from_token("phx_reply"), EventKind::Reply));
    for t in ["phx_close", "phx_error", "phx_join", "phx_leave", "phx_reply"] {
        assert_eq!(EventKind::from_token(t).token(), t);
    }
}

#[test]
fn other_tokens_round_trip_as_custom() {
    match EventKind::from_token("new_msg") {
        EventKind::Custom(s) => assert_eq!(s, "new_msg"),
        other => panic!("unexpected {:?}", other),
    }
    assert_eq!(EventKind::from_token("phx_joined").token(), "phx_joined");
    assert_eq!(EventKind::from_token("").token(), "");
    assert_eq!(EventKind::Custom("msg".to_string()).token(), "msg");
}

#[test]
fn missing_ref_dispatches_as_zero() {
    let c = handler_call(inbound(None));
    assert_eq!(c.message_ref, 0);
    assert_eq!(c.topic, "room:1");
    assert_eq!(c.event, "phx_reply");
    assert_eq!(c.payload, "{\"status\":\"ok\"}");
}

#[test]
fn present_ref_dispatches_unchanged() {
    assert_eq!(handler_call(inbound(Some(42))).message_ref, 42);
}

#[test]
fn send_frame_for_room_message() {
    let payload = Value::Mapping(vec![
        (Key::Text("body".to_string()), Value::Text("hi".to_string())),
        (Key::Text("urgent".to_string()), Value::Bool(true)),
    ]);
    let frame = encode_frame(None, Some(3), "room:1", &EventKind::Custom("msg".to_string()), &payload).unwrap();
    assert_eq!(
        frame,
        "{\"join_ref\":null,\"ref\":3,\"topic\":\"room:1\",\"event\":\"msg\",\"payload\":{\"body\":\"hi\",\"urgent\":true}}"
    );
    assert!(frame.contains("\"payload\":{\"body\":\"hi\",\"urgent\":true}"));
}

#[test]
fn join_frame_uses_the_fixed_token() {
    let frame = encode_frame(Some(1), Some(1), "room:lobby", &EventKind::Join, &Value::Mapping(vec![])).unwrap();
    assert_eq!(
        frame,
        "{\"join_ref\":1,\"ref\":1,\"topic\":\"room:lobby\",\"event\":\"phx_join\",\"payload\":{}}"
    );
}

#[test]
fn frame_with_unserializable_payload_is_not_built() {
    let payload = Value::Sequence(vec![Value::Foreign(Foreign { repr: None, class_name: "socket".to_string() })]);
    let e = encode_frame(None, None, "t", &EventKind::Reply, &payload).unwrap_err();
    assert_eq!(e.detail, "socket");
}

#[test]
fn receiver_is_handed_out_once() {
    let mut s = Session::new();
    assert_eq!(s.take_receiver(), Ok(()));
    assert_eq!(s.take_receiver(), Err(SessionError::AlreadyTaken));
    assert_eq!(s.take_receiver(), Err(SessionError::AlreadyTaken));
}

#[test]
fn broken_session_refuses_everything() {
    let mut s = Session::new();
    assert_eq!(s.check_open(), Ok(()));
    s.record_send(true);
    assert_eq!(s.check_open(), Ok(()));
    s.record_send(false);
    assert_eq!(s.check_open(), Err(SessionError::ConnectionLost));
    s.record_send(true);
    assert_eq!(s.check_open(), Err(SessionError::ConnectionLost));
    assert_eq!(s.take_receiver(), Err(SessionError::ConnectionLost));
    assert_eq!(s.heartbeat_tick(), HeartbeatAction::Stop);
}

#[test]
fn heartbeat_runs_until_stop() {
    let mut s = Session::new();
    assert_eq!(HEARTBEAT_INTERVAL_SECS, 2);
    assert_eq!(s.heartbeat_tick(), HeartbeatAction::SendHeartbeat);
    s.request_stop();
    assert_eq!(s.heartbeat_tick(), HeartbeatAction::Stop);
}

#[test]
fn dispatch_steps() {
    let s = Session::new();
    match dispatch_step(&s, Incoming::Frame(inbound(None))) {
        DispatchAction::Deliver(c) => {
            assert_eq!(c.message_ref, 0);
            assert_eq!(c.event, "phx_reply");
        }
        other => panic!("unexpected {:?}", other),
    }
    assert!(matches!(dispatch_step(&s, Incoming::Control), DispatchAction::Skip));
    assert!(matches!(
        dispatch_step(&s, Incoming::Ended),
        DispatchAction::Finish(DispatchOutcome::StreamEnded)
    ));
    assert!(matches!(
        dispatch_step(&s, Incoming::Undecodable),
        DispatchAction::Finish(DispatchOutcome::DecodeFailed)
    ));
    let mut broken = Session::new();
    broken.record_send(false);
    assert!(matches!(
        dispatch_step(&broken, Incoming::Frame(inbound(Some(2)))),
        DispatchAction::Finish(DispatchOutcome::ConnectionLost)
    ));
    let mut stopping = Session::new();
    stopping.request_stop();
    assert!(matches!(
        dispatch_step(&stopping, Incoming::Ended),
        DispatchAction::Finish(DispatchOutcome::Stopped)
    ));
}

#[test]
fn connect_url_appends_parameters_in_order() {
    let params = vec![("token".to_string(), "abc".to_string()), ("v".to_string(), "2".to_string())];
    assert_eq!(
        phy_channels::connect_url("ws://localhost:4000/socket", &params),
        "ws://localhost:4000/socket/websocket?vsn=1.0.0&token=abc&v=2"
    );
    assert_eq!(phy_channels::connect_url("ws://h", &vec![]), "ws://h/websocket?vsn=1.0.0");
}

#[test]
fn join_and_heartbeat_frames() {
    assert_eq!(
        phy_channels::join_frame(4, "room:1"),
        "{\"join_ref\":4,\"ref\":4,\"topic\":\"room:1\",\"event\":\"phx_join\",\"payload\":{}}"
    );
    assert_eq!(
        phy_channels::heartbeat_frame(9),
        "{\"join_ref\":null,\"ref\":9,\"topic\":\"phoenix\",\"event\":\"heartbeat\",\"payload\":{}}"
    );
}

#[test]
fn message_refs_count_up_and_stop_at_the_limit() {
    let mut s = Session::new();
    assert_eq!(s.next_ref(), Some(1));
    assert_eq!(s.next_ref(), Some(2));
    s.last_ref = u32::MAX;
    assert_eq!(s.next_ref(), None);
    assert_eq!(s.last_ref, u32::MAX);
}
