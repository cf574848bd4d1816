use multi_desktop::control::{AUTH_PROMPT, BANNER};
use multi_desktop::protocol::{
    audit_line, can_manage, closing_audit, forward_input_frames, relay_input_frame, route_command, stream_config, stream_data,
    stream_reply, AuditEvent, AuthRateLimiter, ControlAction, ControlEvent,
    ControlSession, Principal, RouteKind, AUTH_FAILURE_WINDOW, MAX_AUTH_FAILURES,
};
use multi_desktop::transport::{Frame, FrameKind, InputEvent, TransportError};

#[test]
fn rate_limiter_blocks_the_sixth_failure_inside_one_minute() {
    let mut limiter = AuthRateLimiter::new();
    let now = 1_000_000_000u64;
    for _ in 0..MAX_AUTH_FAILURES {
        assert!(!limiter.limited("peer", now));
        limiter.record_failure("peer", now);
    }
    assert!(limiter.limited("peer", now));
    limiter.clear("peer");
    assert!(!limiter.limited("peer", now));
}

#[test]
fn rate_limiter_forgets_failures_after_the_window() {
    let mut limiter = AuthRateLimiter::new();
    for _ in 0..MAX_AUTH_FAILURES {
        limiter.record_failure("peer", 10);
    }
    assert!(limiter.limited("peer", 10 + AUTH_FAILURE_WINDOW - 1));
    assert!(!limiter.limited("other", 10));
    assert!(!limiter.limited("peer", 10 + AUTH_FAILURE_WINDOW));
}

#[test]
fn forwards_only_valid_input_frames_and_appends_reset() {
    let events = [
        InputEvent::Key {
            code: 30,
            pressed: true,
        },
        InputEvent::PointerMotion { x: 12, y: -4 },
    ];
    let mut network = Vec::new();
    for event in events {
        Frame {
            kind: FrameKind::Input,
            payload: event.encode(),
        }
        .write_to(&mut network)
        .unwrap();
    }
    let mut relay = Vec::new();
    forward_input_frames(network.as_slice(), &mut relay).unwrap();
    let expected: Vec<_> = events
        .into_iter()
        .flat_map(InputEvent::encode)
        .chain(InputEvent::Reset.encode())
        .collect();
    assert_eq!(relay, expected);
}

#[test]
fn rejects_non_input_frames_and_still_resets_the_agent() {
    let mut network = Vec::new();
    Frame {
        kind: FrameKind::VideoData,
        payload: Vec::new(),
    }
    .write_to(&mut network)
    .unwrap();
    let mut relay = Vec::new();
    assert!(forward_input_frames(network.as_slice(), &mut relay).is_err());
    assert_eq!(relay, InputEvent::Reset.encode());
}

#[test]
fn invalid_input_event_stops_forwarding() {
    let mut network = Vec::new();
    Frame { kind: FrameKind::Input, payload: vec![1, 1, 0, 30] }.write_to(&mut network).unwrap();
    Frame { kind: FrameKind::Input, payload: vec![1, 1, 0xff, 0xff] }.write_to(&mut network).unwrap();
    let mut relay = Vec::new();
    assert_eq!(forward_input_frames(network.as_slice(), &mut relay), Err(TransportError::InvalidInputEvent));
    assert_eq!(relay, vec![1, 1, 0, 30, 5]);
}

fn reply(action: ControlAction) -> String {
    match action {
        ControlAction::Reply(text) => text,
        other => panic!("expected a reply, got {other:?}"),
    }
}

#[test]
fn authenticates_and_reports_capabilities() {
    let mut limiter = AuthRateLimiter::new();
    let mut session = ControlSession::new("test".to_owned());
    let greeting = reply(session.step(&mut limiter, 1, ControlEvent::Connected));
    let mut lines = greeting.lines();
    assert_eq!(lines.next().unwrap().trim(), BANNER);
    assert_eq!(lines.next().unwrap().trim(), AUTH_PROMPT);
    let token = "01234567890123456789012345678901";
    match session.step(&mut limiter, 2, ControlEvent::Line(format!("AUTH {token}\n"))) {
        ControlAction::Authenticate(presented) => assert_eq!(presented, token),
        other => panic!("expected authentication, got {other:?}"),
    }
    let ok = reply(session.step(&mut limiter, 3, ControlEvent::Authenticated(Some(Principal::Admin))));
    assert_eq!(ok.trim(), "OK authenticated");
    let info = reply(session.step(&mut limiter, 4, ControlEvent::Line("INFO\n".to_owned())));
    assert_eq!(
        info.trim(),
        "OK version=1;features=desktop-lifecycle,device-management,private-h264-capture,private-opus-audio,private-input"
    );
    let unknown = reply(session.step(&mut limiter, 5, ControlEvent::Line("NOT-A-COMMAND\n".to_owned())));
    assert_eq!(unknown.trim(), "ERR unknown-command");
    assert!(matches!(session.step(&mut limiter, 6, ControlEvent::Line("QUIT\n".to_owned())), ControlAction::Close));
}

#[test]
fn failed_authentication_is_recorded_and_then_blocks() {
    let mut limiter = AuthRateLimiter::new();
    for attempt in 0..MAX_AUTH_FAILURES as u64 {
        let mut session = ControlSession::new("10.0.0.9".to_owned());
        let _ = session.step(&mut limiter, attempt, ControlEvent::Connected);
        let _ = session.step(&mut limiter, attempt, ControlEvent::Line("AUTH wrong\n".to_owned()));
        match session.step(&mut limiter, attempt, ControlEvent::Authenticated(None)) {
            ControlAction::ReplyAndClose(text) => assert_eq!(text, "ERR unauthorized\n"),
            other => panic!("expected a refusal, got {other:?}"),
        }
    }
    let mut session = ControlSession::new("10.0.0.9".to_owned());
    match session.step(&mut limiter, 10, ControlEvent::Connected) {
        ControlAction::ReplyAndClose(text) => assert!(text.ends_with("ERR rate-limited\n")),
        other => panic!("expected a block, got {other:?}"),
    }
}

#[test]
fn pairing_reply_names_desktop_and_token() {
    let mut limiter = AuthRateLimiter::new();
    let mut session = ControlSession::new("peer".to_owned());
    let _ = session.step(&mut limiter, 0, ControlEvent::Connected);
    match session.step(&mut limiter, 0, ControlEvent::Line("PAIR 0123\n".to_owned())) {
        ControlAction::RedeemPairing(code) => assert_eq!(code, "0123"),
        other => panic!("expected a redemption, got {other:?}"),
    }
    match session.step(&mut limiter, 0, ControlEvent::Paired(Some(("desk".to_owned(), "abcd".to_owned())))) {
        ControlAction::ReplyAndClose(text) => assert_eq!(text, "OK paired desktop=desk token=abcd\n"),
        other => panic!("expected the credentials, got {other:?}"),
    }
}

#[test]
fn device_tokens_reach_only_their_desktop() {
    let device = Principal::Device("desk".to_owned());
    assert!(can_manage(&device, &['d', 'e', 's', 'k']));
    assert!(!can_manage(&device, &['o', 't', 'h', 'e', 'r']));
    assert_eq!(route_command(&device, "START desk").kind, RouteKind::Start);
    assert_eq!(route_command(&device, "START other").kind, RouteKind::Forbidden);
    assert_eq!(route_command(&device, "LIST").kind, RouteKind::Forbidden);
    assert_eq!(route_command(&device, "VIDEO desk").kind, RouteKind::Video);
    let admin = Principal::Admin;
    let route = route_command(&admin, "REVOKE-DEVICE desk 0123456789abcdef");
    assert_eq!(route.kind, RouteKind::RevokeDevice);
    assert_eq!(route.desktop.as_deref(), Some("desk"));
    assert_eq!(route.device.as_deref(), Some("0123456789abcdef"));
    assert_eq!(route_command(&admin, "LIST").kind, RouteKind::List);
}

#[test]
fn stream_openings_and_relayed_frames() {
    assert_eq!(stream_reply(RouteKind::Video), "OK video;codec=h264;framing=annex-b\n");
    assert_eq!(stream_reply(RouteKind::InputStream), "OK input;framing=mdes;events=key,pointer,button,scroll\n");
    assert_eq!(stream_reply(RouteKind::Ping), "");
    let config = stream_config(RouteKind::Audio).unwrap();
    assert_eq!(config.kind, FrameKind::AudioConfig);
    assert_eq!(config.payload, b"codec=opus;container=ogg;rate=48000;channels=2".to_vec());
    assert!(stream_config(RouteKind::InputStream).is_none());
    let data = stream_data(RouteKind::Video, &[1, 2]).unwrap();
    assert_eq!((data.kind, data.payload), (FrameKind::VideoData, vec![1, 2]));
    let key = Frame { kind: FrameKind::Input, payload: vec![1, 0, 0, 30] };
    assert_eq!(relay_input_frame(&key), Ok(vec![1, 0, 0, 30]));
    let video = Frame { kind: FrameKind::VideoData, payload: vec![5] };
    assert_eq!(relay_input_frame(&video), Err(TransportError::UnexpectedFrame));
    let bad = Frame { kind: FrameKind::Input, payload: vec![5, 5] };
    assert_eq!(relay_input_frame(&bad), Err(TransportError::InvalidInputEvent));
}

#[test]
fn device_session_is_refused_other_desktops_and_keeps_reading() {
    let mut limiter = AuthRateLimiter::new();
    let mut session = ControlSession::new("phone".to_owned());
    let _ = session.step(&mut limiter, 1, ControlEvent::Connected);
    let _ = session.step(&mut limiter, 2, ControlEvent::Line("AUTH x\n".to_owned()));
    let _ = session.step(&mut limiter, 3, ControlEvent::Authenticated(Some(Principal::Device("desk".to_owned()))));
    for line in ["STATUS other\n", "VIDEO other\n", "LIST\n", "PROVISION desk\n", "REVOKE-DEVICE desk 0123\n"] {
        assert_eq!(reply(session.step(&mut limiter, 4, ControlEvent::Line(line.to_owned()))), "ERR forbidden\n");
    }
    assert_eq!(reply(session.step(&mut limiter, 5, ControlEvent::Line("PING\n".to_owned()))), "OK PONG\n");
}

#[test]
fn only_failures_inside_the_window_count() {
    let mut limiter = AuthRateLimiter::new();
    let second = 1_000_000_000u64;
    for t in [0, 10, 61, 62, 63, 64] {
        limiter.record_failure("peer", t * second);
    }
    // At 70 s the failures at 0 s and 10 s have expired: four still count.
    assert!(!limiter.limited("peer", 70 * second));
    limiter.record_failure("peer", 70 * second);
    assert!(limiter.limited("peer", 70 * second));
    assert!(!limiter.limited("other", 70 * second));
}

#[test]
fn audit_lines_name_event_peer_and_outcome() {
    assert_eq!(audit_line("10.0.0.9", &AuditEvent::RateLimited).unwrap(), "audit event=authentication-rate-limited peer=10.0.0.9");
    assert_eq!(audit_line("p", &AuditEvent::AuthenticationFailed).unwrap(), "audit event=authentication-failed peer=p");
    assert_eq!(audit_line("p", &AuditEvent::PairingRedeemed("laptop".to_owned())).unwrap(), "audit event=pairing-redeemed peer=p desktop=laptop");
    assert_eq!(audit_line("p", &AuditEvent::PairingFailed("pairing code expired".to_owned())).unwrap(), "audit event=pairing-failed peer=p detail=pairing code expired");
    assert_eq!(audit_line("p", &AuditEvent::Request(RouteKind::Start, Ok("started".to_owned()))).unwrap(), "audit event=START peer=p result=ok detail=started");
    assert_eq!(audit_line("p", &AuditEvent::Request(RouteKind::RevokeDevice, Err("forbidden".to_owned()))).unwrap(), "audit event=REVOKE-DEVICE peer=p result=error detail=forbidden");
    assert_eq!(audit_line("p", &AuditEvent::Request(RouteKind::Audio, Err("gone".to_owned()))).unwrap(), "audit event=VIDEO peer=p result=error detail=gone");
    assert!(audit_line("p", &AuditEvent::Request(RouteKind::Video, Ok(String::new()))).is_none());
    assert!(audit_line("p", &AuditEvent::Request(RouteKind::Status, Ok("x".to_owned()))).is_none());
}

#[test]
fn closing_replies_are_audited_once() {
    let refused = format!("{BANNER}\n{AUTH_PROMPT}\nERR rate-limited\n");
    assert!(matches!(closing_audit(&refused), Some(AuditEvent::RateLimited)));
    assert!(matches!(closing_audit("ERR unauthorized\n"), Some(AuditEvent::AuthenticationFailed)));
    assert!(closing_audit("ERR pairing-failed\n").is_none());
    assert!(closing_audit("OK paired desktop=d token=t\n").is_none());
}
