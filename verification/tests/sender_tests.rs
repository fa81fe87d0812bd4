use basalt::sender::{is_block_response, reserve_send_slot, Admission, SendFailure, SendControl, SendGovernor, MAX_SENDS_PER_MINUTE};

#[test]
fn governor_caps_at_limit() {
    let mut g = SendGovernor::new();
    for _ in 0..MAX_SENDS_PER_MINUTE {
        assert!(g.reserve(1_000).is_ok(), "first MAX sends must pass");
    }
    assert!(g.reserve(1_000).is_err(), "send {} must be refused", MAX_SENDS_PER_MINUTE + 1);
}

#[test]
fn governor_window_slides() {
    let mut g = SendGovernor::new();
    for i in 0..MAX_SENDS_PER_MINUTE as u64 {
        assert!(reserve_send_slot(&mut g, 10_000 + i));
    }
    assert!(!reserve_send_slot(&mut g, 69_999));
    // A minute after the first send, its slot is free again.
    assert!(reserve_send_slot(&mut g, 70_000));
    assert!(!reserve_send_slot(&mut g, 70_000));
}

#[test]
fn block_detector_catches_the_real_markers() {
    assert!(is_block_response(403, "{\"code\": 0}"));
    assert!(is_block_response(400, "{\"message\": \"captcha required\"}"));
    assert!(is_block_response(400, "{\"message\": \"You need to verify your account\"}"));
    assert!(is_block_response(400, "{\"code\": 40004, \"message\": \"spam\"}"));
    // Ordinary errors must NOT lock sending.
    assert!(!is_block_response(400, "{\"code\": 50035, \"message\": \"Invalid Form Body\"}"));
    assert!(!is_block_response(404, "{\"message\": \"Unknown Channel\"}"));
}

#[test]
fn block_answer_locks_sending_until_retry() {
    let mut ctl = SendControl::new();
    assert_eq!(ctl.check_next(0), Admission::Post);
    let msg = ctl.on_failure(SendFailure::Discord {
        status: 400,
        status_text: "400 Bad Request".to_string(),
        body: "{\"message\": \"CAPTCHA required\"}".to_string(),
    });
    assert_eq!(msg, "Discord blocked sending. Basalt stopped all sends for your safety.");
    match ctl.check_next(1) {
        Admission::Refuse(m) => assert_eq!(
            m,
            "Sending is paused: Discord blocked message sending (verification, captcha or spam guard). Tap Retry after resolving it in Discord."
        ),
        Admission::Post => panic!("a locked sender must refuse"),
    }
    ctl.clear_lock();
    assert!(ctl.lock_reason().is_none());
    assert_eq!(ctl.check_next(2), Admission::Post);
}

#[test]
fn failure_messages() {
    let mut ctl = SendControl::new();
    assert_eq!(
        ctl.on_failure(SendFailure::RateLimited),
        "Rate limited by Discord. Please wait a moment and press Enter again."
    );
    assert_eq!(
        ctl.on_failure(SendFailure::Discord {
            status: 400,
            status_text: "400 Bad Request".to_string(),
            body: "Invalid Form Body".to_string(),
        }),
        "Discord rejected the message (HTTP 400 Bad Request): Invalid Form Body"
    );
    assert_eq!(ctl.on_failure(SendFailure::Other("timed out".to_string())), "Could not deliver the message (timed out).");
    assert!(ctl.lock_reason().is_none());
}

#[test]
fn sends_refused_past_the_cap() {
    let mut ctl = SendControl::new();
    for _ in 0..MAX_SENDS_PER_MINUTE {
        assert_eq!(ctl.check_next(5), Admission::Post);
    }
    assert_eq!(
        ctl.check_next(5),
        Admission::Refuse("Local rate cap reached (30 messages per minute). Nothing was sent; try again shortly.".to_string())
    );
}
