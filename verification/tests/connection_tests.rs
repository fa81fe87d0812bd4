use basalt::connection::{handle_frame, read_hello, Flow, HelloError};
use basalt::connection::{
    close_code_end, frame_action, handshake_kind, heartbeat_period_ms, heartbeat_tick, CommandEffect, ConnOutcome,
    FrameAction, Handshake, LoopEnd, Outbound, Supervisor, TickAction,
};
use basalt::opcodes::{
    from_close_code, ladder_step, next_backoff, GatewayCloseCode, GatewayOp, BASELINE_INTENTS, BASE_BACKOFF_MS,
    FULL_INTENTS, MAX_BACKOFF_MS,
};
use basalt::snowflake::Snowflake;
use basalt::state::ConnectionStatus;

#[test]
fn backoff_ladder_doubles_and_caps() {
    let mut b = BASE_BACKOFF_MS;
    let mut steps = Vec::new();
    for _ in 0..10 {
        steps.push(b);
        b = ladder_step(b);
    }
    assert_eq!(steps[0], 1_000);
    assert_eq!(steps[1], 2_000);
    assert_eq!(steps[5], 32_000);
    assert!(steps.iter().all(|&s| s <= MAX_BACKOFF_MS));
    assert_eq!(steps[9], MAX_BACKOFF_MS);
}

#[test]
fn backoff_resets_after_a_stable_connection() {
    assert_eq!(next_backoff(8_000, 1_000), 16_000);
    assert_eq!(next_backoff(8_000, 45_000), BASE_BACKOFF_MS);
    assert_eq!(next_backoff(0, 10), 2_000);
}

#[test]
fn opcodes_and_close_codes() {
    assert_eq!(GatewayOp::from_u8(10), Some(GatewayOp::Hello));
    assert_eq!(GatewayOp::from_u8(13), None);
    assert_eq!(GatewayOp::Heartbeat.code(), 1);
    assert_eq!(from_close_code(4004), Some(GatewayCloseCode::AuthenticationFailed));
    assert!(!GatewayCloseCode::AuthenticationFailed.reconnect_allowed());
    assert_eq!(from_close_code(4006), None);
    assert_eq!(from_close_code(1000), Some(GatewayCloseCode::VoiceDisconnected));
}

#[test]
fn close_codes_end_connections() {
    assert_eq!(close_code_end(4004), LoopEnd::AuthFailed);
    assert_eq!(close_code_end(4014), LoopEnd::DisallowedIntent);
    assert_eq!(close_code_end(4009), LoopEnd::Outcome(ConnOutcome::ReconnectFresh));
    assert_eq!(close_code_end(4000), LoopEnd::Outcome(ConnOutcome::ReconnectResume));
    assert_eq!(close_code_end(1000), LoopEnd::Outcome(ConnOutcome::ReconnectFresh));
}

#[test]
fn frames_map_to_actions() {
    assert_eq!(frame_action(Some(0), None), FrameAction::Dispatch);
    assert_eq!(frame_action(Some(11), None), FrameAction::HeartbeatAck);
    assert_eq!(frame_action(Some(1), None), FrameAction::HeartbeatNow);
    assert_eq!(frame_action(Some(7), None), FrameAction::ReconnectResume);
    assert_eq!(frame_action(Some(9), Some(true)), FrameAction::ReconnectResume);
    assert_eq!(frame_action(Some(9), Some(false)), FrameAction::ReconnectFresh);
    assert_eq!(frame_action(Some(9), None), FrameAction::ReconnectFresh);
    assert_eq!(frame_action(Some(3), None), FrameAction::Ignore);
    assert_eq!(frame_action(None, None), FrameAction::Ignore);
}

#[test]
fn heartbeats_and_handshake() {
    assert_eq!(heartbeat_tick(false, Some(Snowflake(5))), TickAction::ReconnectResume);
    assert_eq!(heartbeat_tick(true, Some(Snowflake(5))), TickAction::Send(5));
    assert_eq!(heartbeat_tick(true, None), TickAction::Send(0));
    assert_eq!(heartbeat_period_ms(41_250), 41_250);
    assert_eq!(heartbeat_period_ms(10), 500);
    assert_eq!(handshake_kind(true, Some(Snowflake(9))), Handshake::Resume);
    assert_eq!(handshake_kind(true, None), Handshake::Identify);
    assert_eq!(handshake_kind(false, Some(Snowflake(9))), Handshake::Identify);
}

#[test]
fn supervisor_retries_baseline_intents_once() {
    let mut s = Supervisor::new();
    assert_eq!(s.on_command(Outbound::Connect { token: String::new(), bot: false }), CommandEffect::Ignored);
    assert_eq!(s.on_command(Outbound::Connect { token: "tok".to_string(), bot: true }), CommandEffect::Connect);
    assert!(s.is_bot);
    let e = s.on_end(LoopEnd::DisallowedIntent, 100);
    assert!(!e.stop && e.clear_session);
    assert_eq!(e.intents_limited, Some(true));
    assert_eq!(s.intent_set, BASELINE_INTENTS);
    let e = s.on_end(LoopEnd::DisallowedIntent, 100);
    assert!(e.stop);
    assert_eq!(e.status, Some(ConnectionStatus::DisallowedIntent));
    // A fresh connect resets the intent attempt.
    s.on_command(Outbound::Connect { token: "tok".to_string(), bot: false });
    assert_eq!(s.intent_set, FULL_INTENTS);
}

#[test]
fn supervisor_backoff_and_halts() {
    let mut s = Supervisor::new();
    let e = s.on_end(LoopEnd::Outcome(ConnOutcome::ReconnectResume), 60_000);
    assert_eq!(e.sleep_ms, None);
    let e = s.on_end(LoopEnd::Failed, 1_000);
    assert_eq!(e.sleep_ms, Some(2_000));
    let e = s.on_end(LoopEnd::Outcome(ConnOutcome::ReconnectFresh), 1_000);
    assert!(e.clear_session);
    assert_eq!(e.sleep_ms, Some(4_000));
    let e = s.on_end(LoopEnd::AuthFailed, 1);
    assert!(e.stop);
    assert_eq!(e.status, Some(ConnectionStatus::AuthFailed));
    assert!(s.on_end(LoopEnd::Outcome(ConnOutcome::CleanShutdown), 1).stop);
    assert_eq!(s.on_command(Outbound::Shutdown), CommandEffect::Stop);
}

#[test]
fn snowflake_fields_and_text() {
    let s = Snowflake::from_u64(175928847299117063);
    assert_eq!(s.timestamp_ms(), 1462015105796);
    assert_eq!(s.worker_id(), 1);
    assert_eq!(s.process_id(), 0);
    assert_eq!(s.increment(), 7);
    assert_eq!(s.to_decimal(), "175928847299117063");
    assert!(Snowflake::empty().is_empty());
}

#[test]
fn snowflake_parses_string() {
    let s = Snowflake::parse("123456789012345678").unwrap();
    assert_eq!(s.0, 123456789012345678);
    assert!(Snowflake::parse("12a").is_err());
    assert!(Snowflake::parse("").is_err());
    assert!(Snowflake::parse("18446744073709551616").is_err());
}

#[test]
fn requested_heartbeat_echoes_last_dispatch_sequence() {
    let mut s = basalt::state::AppState::new();
    let step = basalt::connection::handle_decoded(&mut s, Some(0), Some(42), None, None, 0);
    assert_eq!(step.heartbeat, None);
    assert_eq!(s.last_seq(), Some(Snowflake(42)));
    let step = basalt::connection::handle_decoded(&mut s, Some(1), None, None, None, 0);
    assert_eq!(step.heartbeat, Some(42));
}

#[test]
fn frame_bytes_are_read_by_the_library() {
    let mut s = basalt::state::AppState::new();
    // Not JSON: skipped, nothing changes.
    let step = handle_frame(&mut s, b"\x00not json", None, 0);
    assert_eq!(step.flow, Flow::Continue);
    assert_eq!(step.heartbeat, None);
    assert_eq!(s.last_seq(), None);
    // A dispatch frame records its sequence number.
    let step = handle_frame(&mut s, br#"{"op":0,"s":7,"t":"TYPING_START","d":{}}"#, None, 0);
    assert_eq!(step.flow, Flow::Continue);
    assert_eq!(s.last_seq(), Some(Snowflake(7)));
    // op 1 asks for a heartbeat with that number.
    let step = handle_frame(&mut s, br#"{"op":1,"d":null}"#, None, 0);
    assert_eq!(step.heartbeat, Some(7));
    // op 9 with d == true resumes; otherwise the session is forgotten.
    assert_eq!(handle_frame(&mut s, br#"{"op":9,"d":true}"#, None, 0).flow, Flow::ReconnectResume);
    assert_eq!(handle_frame(&mut s, br#"{"op":9,"d":false}"#, None, 0).flow, Flow::ReconnectFresh);
    assert_eq!(s.last_seq(), None);
    assert_eq!(handle_frame(&mut s, br#"{"op":7,"d":null}"#, None, 0).flow, Flow::ReconnectResume);

    assert_eq!(read_hello(br#"{"op":10,"d":{"heartbeat_interval":41250}}"#), Ok(41250));
    assert_eq!(read_hello(br#"{"op":11}"#), Err(HelloError::NotHello { op: Some(11) }));
    assert_eq!(read_hello(br#"{"op":10,"d":{}}"#), Err(HelloError::NoInterval));
    assert_eq!(read_hello(b"]"), Err(HelloError::NotJson));
}
