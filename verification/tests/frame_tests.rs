use basalt::connection::{handle_decoded, Flow};
use basalt::events::Event;
use basalt::model::Message;
use basalt::snowflake::Snowflake;
use basalt::state::AppState;

fn msg(id: u64, channel: u64) -> Message {
    let mut m = Message::default();
    m.id = Snowflake::from_u64(id);
    m.channel_id = Snowflake::from_u64(channel);
    m
}

#[test]
fn dispatch_frame_records_sequence_and_applies_event() {
    let mut s = AppState::new();
    let step = handle_decoded(&mut s, Some(0), Some(17), None, Some(Event::MessageCreate { d: msg(1, 9) }), 0);
    assert_eq!(step.flow, Flow::Continue);
    assert!(step.heartbeat.is_none());
    assert_eq!(s.last_seq(), Some(Snowflake::from_u64(17)));
    assert_eq!(s.messages_for(Snowflake::from_u64(9)).len(), 1);
    let step = handle_decoded(&mut s, Some(0), None, None, None, 0);
    assert_eq!(step.flow, Flow::Continue);
    assert_eq!(s.last_seq(), Some(Snowflake::from_u64(0)));
}

#[test]
fn heartbeat_frames() {
    let mut s = AppState::new();
    s.reset_heartbeat_ack();
    let step = handle_decoded(&mut s, Some(11), None, None, None, 0);
    assert_eq!(step.flow, Flow::Continue);
    assert!(s.heartbeat_acked());
    s.set_last_seq(Snowflake::from_u64(5));
    let step = handle_decoded(&mut s, Some(1), None, None, None, 0);
    assert_eq!(step.heartbeat, Some(5));
}

#[test]
fn reconnect_frames() {
    let mut s = AppState::new();
    s.set_session("sess".to_string(), "wss://resume".to_string());
    s.set_last_seq(Snowflake::from_u64(3));
    assert_eq!(handle_decoded(&mut s, Some(7), None, None, None, 0).flow, Flow::ReconnectResume);
    assert_eq!(handle_decoded(&mut s, Some(9), None, Some(true), None, 0).flow, Flow::ReconnectResume);
    assert!(s.session_snapshot().is_some());
    assert_eq!(handle_decoded(&mut s, Some(9), None, Some(false), None, 0).flow, Flow::ReconnectFresh);
    assert!(s.session_snapshot().is_none());
    assert!(s.last_seq().is_none());
    assert_eq!(handle_decoded(&mut s, Some(3), None, None, None, 0).flow, Flow::Continue);
    assert_eq!(handle_decoded(&mut s, None, None, None, None, 0).flow, Flow::Continue);
}
