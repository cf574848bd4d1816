use multi_desktop::client::{
    check_events, command_response, encode_input_frames, parse_u16, ClientAction, ClientEvent,
    ClientOutcome, ClientPhase, ClientRequest, ClientSession, FailureKind, ParseIntError, tls_name,
    tls_server_name,
};
use multi_desktop::transport::{Frame, FrameKind, InputEvent, TransportError};

#[test]
fn command_errors_produce_a_failing_client_result() {
    assert_eq!(command_response("OK PONG\n").unwrap(), "OK PONG");
    let error = command_response("ERR forbidden\n").unwrap_err();
    assert_eq!(error.to_string(), "ERR forbidden");
}

#[test]
fn parses_decimal_and_hexadecimal_evdev_codes() {
    assert_eq!(parse_u16("30").unwrap(), 30);
    assert_eq!(parse_u16("0x110").unwrap(), 0x110);
    assert!(parse_u16("nope").is_err());
}

#[test]
fn evdev_codes_follow_from_str_radix() {
    assert_eq!(parse_u16("+7"), Ok(7));
    assert_eq!(parse_u16("0xFF"), Ok(255));
    assert_eq!(parse_u16("65535"), Ok(65535));
    assert_eq!(parse_u16("65536"), Err(ParseIntError));
    assert_eq!(parse_u16("0x"), Err(ParseIntError));
    assert_eq!(parse_u16(""), Err(ParseIntError));
    assert_eq!(parse_u16("-1"), Err(ParseIntError));
    assert_eq!(parse_u16("0x1g"), Err(ParseIntError));
}

fn send(action: ClientAction) -> String {
    match action {
        ClientAction::Send(text) => text,
        other => panic!("expected a line to send, got {other:?}"),
    }
}

fn failure(action: ClientAction) -> (FailureKind, String) {
    match action {
        ClientAction::Finish(Err(f)) => (f.kind, f.message),
        other => panic!("expected a failure, got {other:?}"),
    }
}

#[test]
fn command_session_authenticates_then_sends_the_request() {
    let mut session = ClientSession::new(ClientRequest::Command("PING".to_owned()), "secret".to_owned());
    assert!(matches!(session.step(ClientEvent::Line("MULTIDESKTOP/1\n".to_owned())), ClientAction::Continue));
    assert_eq!(send(session.step(ClientEvent::Line("AUTH <token>\n".to_owned()))), "AUTH secret\n");
    assert_eq!(send(session.step(ClientEvent::Line("OK authenticated\n".to_owned()))), "PING\n");
    match session.step(ClientEvent::Line("OK PONG\n".to_owned())) {
        ClientAction::Finish(Ok(ClientOutcome::Response(text))) => assert_eq!(text, "OK PONG"),
        other => panic!("expected the answer, got {other:?}"),
    }
    assert_eq!(session.phase, ClientPhase::Done);
}

#[test]
fn client_refuses_foreign_servers_and_bad_credentials() {
    let mut run = ClientSession::new(ClientRequest::Command("INFO".to_owned()), "t".to_owned());
    assert_eq!(
        failure(run.step(ClientEvent::Line("HTTP/1.1 400\n".to_owned()))),
        (FailureKind::InvalidData, "server is not a compatible Multi-Desktop control endpoint".to_owned())
    );
    let mut pair = ClientSession::new(ClientRequest::Pair("00ff".to_owned()), String::new());
    let _ = pair.step(ClientEvent::Line("MULTIDESKTOP/1\n".to_owned()));
    assert_eq!(
        failure(pair.step(ClientEvent::Line("LOGIN\n".to_owned()))),
        (FailureKind::InvalidData, "invalid pairing prompt".to_owned())
    );
    let mut video = ClientSession::new(ClientRequest::Video("desk".to_owned()), "t".to_owned());
    let _ = video.step(ClientEvent::Line("MULTIDESKTOP/1\n".to_owned()));
    let _ = video.step(ClientEvent::Line("AUTH <token>\n".to_owned()));
    assert_eq!(
        failure(video.step(ClientEvent::Line("ERR unauthorized\n".to_owned()))),
        (FailureKind::PermissionDenied, "ERR unauthorized".to_owned())
    );
}

#[test]
fn pairing_session_returns_the_credentials_line() {
    let mut session = ClientSession::new(ClientRequest::Pair("00ff".to_owned()), String::new());
    let _ = session.step(ClientEvent::Line("MULTIDESKTOP/1\n".to_owned()));
    assert_eq!(send(session.step(ClientEvent::Line("AUTH <token>\n".to_owned()))), "PAIR 00ff\n");
    match session.step(ClientEvent::Line("OK paired desktop=desk token=ab\n".to_owned())) {
        ClientAction::Finish(Ok(ClientOutcome::Response(text))) => assert_eq!(text, "OK paired desktop=desk token=ab"),
        other => panic!("expected the credentials, got {other:?}"),
    }
}

#[test]
fn video_session_counts_stream_bytes() {
    let mut session = ClientSession::new(ClientRequest::Video("desk".to_owned()), "t".to_owned());
    let _ = session.step(ClientEvent::Line("MULTIDESKTOP/1\n".to_owned()));
    let _ = session.step(ClientEvent::Line("AUTH <token>\n".to_owned()));
    assert_eq!(send(session.step(ClientEvent::Line("OK authenticated\n".to_owned()))), "VIDEO desk\n");
    assert!(!session.expects_frame());
    let _ = session.step(ClientEvent::Line("OK video;codec=h264;framing=annex-b\n".to_owned()));
    assert!(session.expects_frame());
    let config = Frame { kind: FrameKind::VideoConfig, payload: b"codec=h264;framing=annex-b".to_vec() };
    assert!(matches!(session.step(ClientEvent::Frame(config)), ClientAction::Continue));
    match session.step(ClientEvent::Frame(Frame { kind: FrameKind::VideoData, payload: vec![0, 0, 1] })) {
        ClientAction::Write(bytes) => assert_eq!(bytes, vec![0, 0, 1]),
        other => panic!("expected data, got {other:?}"),
    }
    let _ = session.step(ClientEvent::Frame(Frame { kind: FrameKind::VideoData, payload: vec![9; 4] }));
    match session.step(ClientEvent::End) {
        ClientAction::Finish(Ok(ClientOutcome::Received(n))) => assert_eq!(n, 7),
        other => panic!("expected the byte count, got {other:?}"),
    }
}

#[test]
fn audio_session_rejects_a_wrong_configuration() {
    let mut session = ClientSession::new(ClientRequest::Audio("desk".to_owned()), "t".to_owned());
    let _ = session.step(ClientEvent::Line("MULTIDESKTOP/1\n".to_owned()));
    let _ = session.step(ClientEvent::Line("AUTH <token>\n".to_owned()));
    assert_eq!(send(session.step(ClientEvent::Line("OK authenticated\n".to_owned()))), "AUDIO desk\n");
    let _ = session.step(ClientEvent::Line("OK audio;codec=opus;container=ogg;rate=48000;channels=2\n".to_owned()));
    let config = Frame { kind: FrameKind::AudioConfig, payload: b"codec=opus".to_vec() };
    assert_eq!(
        failure(session.step(ClientEvent::Frame(config))),
        (FailureKind::InvalidData, "unexpected audio configuration".to_owned())
    );
}

#[test]
fn input_session_sends_events_then_a_reset() {
    let events = vec![InputEvent::Key { code: 30, pressed: true }, InputEvent::Key { code: 30, pressed: false }];
    assert_eq!(check_events(&events), Ok(()));
    assert_eq!(check_events(&[InputEvent::Key { code: 0, pressed: true }]), Err(TransportError::InvalidInputEvent));
    let expected = encode_input_frames(&events);
    let mut manual = Vec::new();
    for event in events.iter().copied().chain([InputEvent::Reset]) {
        Frame { kind: FrameKind::Input, payload: event.encode() }.write_to(&mut manual).unwrap();
    }
    assert_eq!(expected, manual);
    let mut session = ClientSession::new(ClientRequest::Input("desk".to_owned(), events), "t".to_owned());
    let _ = session.step(ClientEvent::Line("MULTIDESKTOP/1\n".to_owned()));
    let _ = session.step(ClientEvent::Line("AUTH <token>\n".to_owned()));
    assert_eq!(send(session.step(ClientEvent::Line("OK authenticated\n".to_owned()))), "INPUT-STREAM desk\n");
    match session.step(ClientEvent::Line("OK input;framing=mdes;events=key,pointer,button,scroll\n".to_owned())) {
        ClientAction::SendAndFinish(bytes) => assert_eq!(bytes, manual),
        other => panic!("expected the frames, got {other:?}"),
    }
}

#[test]
fn tls_server_name_defaults_to_the_host() {
    assert_eq!(tls_name("desk.example:47990", None), "desk.example");
    assert_eq!(tls_name("desk.example", None), "desk.example");
    assert_eq!(tls_name("10.0.0.2:47990", Some("other.example")), "other.example");
    assert!(tls_server_name("desk.example:47990", None).is_some());
    assert!(tls_server_name("10.0.0.2:47990", None).is_some());
    assert!(tls_server_name("10.0.0.2:47990", Some("bad name!")).is_none());
    assert!(tls_server_name(":47990", None).is_none());
}
