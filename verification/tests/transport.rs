use multi_desktop::transport::{
    payload_len, Frame, FrameKind, InputEvent, TransportError, HEADER_LEN, MAX_PAYLOAD,
};

#[test]
fn frame_round_trip() {
    let source = Frame {
        kind: FrameKind::Ping,
        payload: b"hello".to_vec(),
    };
    let mut bytes = Vec::new();
    source.write_to(&mut bytes).unwrap();
    assert_eq!(Frame::read_from(bytes.as_slice()).unwrap(), source);
}

#[test]
fn rejects_unknown_frame_kind() {
    let bytes = [b'M', b'D', b'E', b'S', 0, 1, 0, 99, 0, 0, 0, 0];
    assert!(Frame::read_from(bytes.as_slice()).is_err());
}

#[test]
fn input_events_round_trip() {
    let events = [
        InputEvent::Key {
            code: 30,
            pressed: true,
        },
        InputEvent::PointerMotion { x: -12, y: 25 },
        InputEvent::PointerButton {
            code: 0x110,
            pressed: false,
        },
        InputEvent::Scroll { x: 0, y: -120 },
        InputEvent::Reset,
    ];
    for event in events {
        assert_eq!(InputEvent::decode(&event.encode()).unwrap(), event);
    }
}

#[test]
fn rejects_invalid_input_codes_and_shapes() {
    assert!(InputEvent::decode(&[1, 1, 0xff, 0xff]).is_err());
    assert!(InputEvent::decode(&[3, 1, 0, 1]).is_err());
    assert!(InputEvent::decode(&[1, 2, 0, 30]).is_err());
    assert!(InputEvent::decode(&[5, 0]).is_err());
}

#[test]
fn frame_header_layout_is_exact() {
    let mut bytes = Vec::new();
    Frame { kind: FrameKind::Input, payload: vec![5] }.write_to(&mut bytes).unwrap();
    assert_eq!(bytes, vec![b'M', b'D', b'E', b'S', 0, 1, 0, 30, 0, 0, 0, 1, 5]);
    assert_eq!(bytes.len(), HEADER_LEN + 1);
    assert_eq!(FrameKind::try_from_code(30).unwrap(), FrameKind::Input);
    assert_eq!(FrameKind::Input.code(), 30);
    assert!(FrameKind::try_from_code(99).is_err());
}

#[test]
fn frame_read_errors_are_distinguished() {
    assert_eq!(Frame::read_from(&[b'M', b'D']).unwrap_err(), TransportError::UnexpectedEof);
    assert_eq!(
        Frame::read_from(&[b'X', b'D', b'E', b'S', 0, 1, 0, 1, 0, 0, 0, 0]).unwrap_err(),
        TransportError::InvalidMagic
    );
    assert_eq!(
        Frame::read_from(&[b'M', b'D', b'E', b'S', 0, 2, 0, 1, 0, 0, 0, 0]).unwrap_err(),
        TransportError::UnsupportedVersion
    );
    let mut bytes = Vec::new();
    Frame { kind: FrameKind::VideoData, payload: vec![1, 2, 3] }.write_to(&mut bytes).unwrap();
    assert_eq!(Frame::read_from_with_limit(bytes.as_slice(), 2).unwrap_err(), TransportError::PayloadTooLarge);
    bytes.pop();
    assert_eq!(Frame::read_from(bytes.as_slice()).unwrap_err(), TransportError::UnexpectedEof);
    assert_eq!(TransportError::UnknownFrameKind.message(), "unknown frame type");
    assert_eq!(TransportError::UnexpectedEof.message(), "failed to fill whole buffer");
}

#[test]
fn oversized_frame_is_not_written() {
    let frame = Frame { kind: FrameKind::VideoData, payload: vec![0; MAX_PAYLOAD + 1] };
    let mut bytes = vec![7];
    assert_eq!(frame.write_to(&mut bytes).unwrap_err(), TransportError::FrameExceedsLimit);
    assert_eq!(bytes, vec![7]);
}

#[test]
fn encoded_lengths_follow_the_tag() {
    assert_eq!(InputEvent::encoded_len_for_tag(1), Some(4));
    assert_eq!(InputEvent::encoded_len_for_tag(2), Some(5));
    assert_eq!(InputEvent::encoded_len_for_tag(5), Some(1));
    assert_eq!(InputEvent::encoded_len_for_tag(9), None);
    assert_eq!(InputEvent::Key { code: 30, pressed: true }.encode(), vec![1, 1, 0, 30]);
    assert_eq!(InputEvent::PointerMotion { x: -1, y: 2 }.encode(), vec![2, 0xff, 0xff, 0, 2]);
}

#[test]
fn headers_declare_their_payload_length() {
    let mut bytes = Vec::new();
    Frame { kind: FrameKind::AudioData, payload: vec![7; 300] }.write_to(&mut bytes).unwrap();
    assert_eq!(payload_len(&bytes[..HEADER_LEN], 1000), Ok(300));
    assert_eq!(payload_len(&bytes[..HEADER_LEN], 299), Err(TransportError::PayloadTooLarge));
    let mut header = bytes[..HEADER_LEN].to_vec();
    header[7] = 99;
    assert_eq!(payload_len(&header, 1000), Err(TransportError::UnknownFrameKind));
}
