use multi_desktop::input::{
    apply_event, connect_verdict, error_status, publish_ready_status, required_capabilities_ready,
    reset_devices, socket_path, start_devices, ChannelError, ConnectVerdict, DeviceState, EiCall,
    InputAgent, InputBuffer, CAP_BUTTON, CAP_KEYBOARD, CAP_POINTER, CAP_SCROLL, EI_EVENT_CONNECT,
    EI_EVENT_DISCONNECT,
};
use multi_desktop::transport::InputEvent;

#[test]
fn input_client_handles_fragmented_and_combined_events() {
    let mut client = InputBuffer::new();
    let key = InputEvent::Key {
        code: 30,
        pressed: true,
    }
    .encode();
    client.push_chunk(&key[..2]).unwrap();
    assert!(client.take_events().unwrap().is_empty());
    client.push_chunk(&key[2..]).unwrap();
    client.push_chunk(&InputEvent::Reset.encode()).unwrap();
    assert_eq!(
        client.take_events().unwrap(),
        vec![
            InputEvent::Key {
                code: 30,
                pressed: true
            },
            InputEvent::Reset
        ]
    );
}

#[test]
fn input_buffer_refuses_garbage_and_floods() {
    let mut client = InputBuffer::new();
    client.push_chunk(&[9, 1, 2]).unwrap();
    assert_eq!(client.take_events(), Err(ChannelError::UnknownEvent));
    let mut client = InputBuffer::new();
    client.push_chunk(&[1, 1, 0xff, 0xff]).unwrap();
    assert_eq!(client.take_events(), Err(ChannelError::InvalidEvent));
    let mut client = InputBuffer::new();
    assert_eq!(client.push_chunk(&vec![5; 4097]), Err(ChannelError::BufferLimit));
    assert_eq!(ChannelError::Disconnected.message(), "input channel disconnected");
}

fn full_device(handle: u64) -> DeviceState {
    let mut device = DeviceState::new(handle, CAP_KEYBOARD | CAP_POINTER | CAP_BUTTON | CAP_SCROLL);
    device.resumed = true;
    device
}

#[test]
fn readiness_needs_every_capability_on_resumed_devices() {
    let mut keyboard = DeviceState::new(1, CAP_KEYBOARD);
    keyboard.resumed = true;
    let mut pointer = DeviceState::new(2, CAP_POINTER | CAP_BUTTON | CAP_SCROLL);
    assert!(!required_capabilities_ready(&[]));
    assert!(keyboard.has(CAP_KEYBOARD) && !keyboard.has(CAP_SCROLL));
    let devices = vec![keyboard, pointer];
    assert!(!required_capabilities_ready(&devices));
    let mut devices = devices;
    pointer = devices.pop().unwrap();
    let mut pointer = pointer;
    pointer.resumed = true;
    devices.push(pointer);
    assert!(required_capabilities_ready(&devices));
}

#[test]
fn duplicate_presses_are_filtered_and_frames_follow_each_change() {
    let mut devices = vec![full_device(7)];
    let mut calls = Vec::new();
    apply_event(&mut devices, InputEvent::Key { code: 30, pressed: true }, &mut calls).unwrap();
    assert_eq!(
        calls,
        vec![
            EiCall::StartEmulating { device: 7, sequence: 1 },
            EiCall::KeyboardKey { device: 7, code: 30, pressed: true },
            EiCall::Frame { device: 7 },
        ]
    );
    let mut again = Vec::new();
    apply_event(&mut devices, InputEvent::Key { code: 30, pressed: true }, &mut again).unwrap();
    assert!(again.is_empty());
    apply_event(&mut devices, InputEvent::PointerMotion { x: 0, y: 0 }, &mut again).unwrap();
    assert!(again.is_empty());
    apply_event(&mut devices, InputEvent::Scroll { x: 0, y: -120 }, &mut again).unwrap();
    assert_eq!(again, vec![EiCall::ScrollDiscrete { device: 7, x: 0, y: -120 }, EiCall::Frame { device: 7 }]);
    assert_eq!(devices[0].keys, vec![30]);
}

#[test]
fn reset_releases_held_keys_in_order_then_stops() {
    let mut devices = vec![full_device(3)];
    let mut calls = Vec::new();
    for code in [40u16, 30, 35] {
        apply_event(&mut devices, InputEvent::Key { code, pressed: true }, &mut calls).unwrap();
    }
    apply_event(&mut devices, InputEvent::PointerButton { code: 0x110, pressed: true }, &mut calls).unwrap();
    assert_eq!(devices[0].keys, vec![30, 35, 40]);
    let mut released = Vec::new();
    reset_devices(&mut devices, &mut released);
    assert_eq!(
        released,
        vec![
            EiCall::KeyboardKey { device: 3, code: 30, pressed: false },
            EiCall::KeyboardKey { device: 3, code: 35, pressed: false },
            EiCall::KeyboardKey { device: 3, code: 40, pressed: false },
            EiCall::ButtonButton { device: 3, code: 0x110, pressed: false },
            EiCall::Frame { device: 3 },
            EiCall::StopEmulating { device: 3 },
        ]
    );
    assert!(devices[0].keys.is_empty() && devices[0].buttons.is_empty() && !devices[0].emulating);
    let mut restart = Vec::new();
    start_devices(&mut devices, &mut restart);
    assert_eq!(restart, vec![EiCall::StartEmulating { device: 3, sequence: 2 }]);
}

#[test]
fn events_without_a_capable_device_are_refused() {
    let mut keyboard = DeviceState::new(1, CAP_KEYBOARD);
    keyboard.resumed = true;
    let mut devices = vec![keyboard];
    let mut calls = Vec::new();
    assert!(apply_event(&mut devices, InputEvent::PointerMotion { x: 1, y: 1 }, &mut calls).is_err());
    assert!(calls.is_empty());
    let mut sequence_wrap = DeviceState::new(2, CAP_KEYBOARD);
    sequence_wrap.resumed = true;
    sequence_wrap.sequence = u32::MAX;
    let mut more = Vec::new();
    sequence_wrap.start_emulating(&mut more);
    assert_eq!(more, vec![EiCall::StartEmulating { device: 2, sequence: 1 }]);
}

#[test]
fn agent_tracks_devices_clients_and_published_status() {
    let mut agent = InputAgent::new();
    let mut calls = Vec::new();
    assert!(!agent.device_added(1, 0));
    assert!(agent.device_added(9, CAP_KEYBOARD | CAP_POINTER | CAP_BUTTON | CAP_SCROLL));
    agent.device_resumed(9, &mut calls);
    assert!(calls.is_empty());
    assert!(required_capabilities_ready(&agent.devices));
    assert_eq!(agent.publish(true), Some(publish_ready_status(true, false)));
    assert_eq!(agent.publish(true), None);
    agent.client_connected(&mut calls);
    assert_eq!(calls, vec![EiCall::StartEmulating { device: 9, sequence: 1 }]);
    calls.clear();
    agent.deliver(
        &[InputEvent::Key { code: 30, pressed: true }, InputEvent::Reset, InputEvent::Key { code: 31, pressed: true }],
        &mut calls,
    );
    assert!(agent.client);
    assert_eq!(agent.devices[0].keys, vec![31]);
    agent.device_paused(9);
    calls.clear();
    agent.deliver(&[InputEvent::Key { code: 32, pressed: true }], &mut calls);
    assert!(!agent.client);
    assert_eq!(agent.publish(false), Some(publish_ready_status(false, false)));
    assert!(agent.device_removed(9));
    assert!(!agent.device_removed(9));
    assert!(agent.device_added(4, CAP_SCROLL));
    assert_eq!(agent.disconnected(), vec![4]);
}

#[test]
fn agent_texts_and_paths() {
    assert_eq!(
        publish_ready_status(true, true),
        "state=ready\nbackend=libei\nseat=gamescope-private\nkeyboard=ready\npointer=ready\nbutton=ready\nscroll=ready\nchannel=active\n"
    );
    assert_eq!(publish_ready_status(false, true), "state=connected\nbackend=libei\nseat=gamescope-private\nchannel=waiting\n");
    assert_eq!(error_status("no\nway"), "state=error\nbackend=libei\nreason=noway\n");
    assert_eq!(socket_path("gamescope-0-ei", Some("/run/user/1001")), "/run/user/1001/gamescope-0-ei");
    assert_eq!(socket_path("/tmp/ei", Some("/run/user/1001")), "/tmp/ei");
    assert_eq!(socket_path("ei", None), "ei");
    assert_eq!(connect_verdict(EI_EVENT_CONNECT), ConnectVerdict::Connected);
    assert_eq!(connect_verdict(EI_EVENT_DISCONNECT), ConnectVerdict::Disconnected);
    assert_eq!(connect_verdict(5), ConnectVerdict::Pending);
}

#[test]
fn only_one_client_is_admitted_at_a_time() {
    let mut agent = InputAgent::new();
    let mut calls = Vec::new();
    assert!(!agent.admits_client(false));
    assert!(agent.admits_client(true));
    agent.client_connected(&mut calls);
    assert!(!agent.admits_client(true));
    agent.client_lost(&mut calls);
    assert!(agent.admits_client(true));
}
