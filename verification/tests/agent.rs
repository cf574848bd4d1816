use multi_desktop::agent::{
    capture_status, encoder_status, exit_status, find_gamescope_node, gamescope_node_from_dump, has_private_sink, ready_node,
    reason_status, sanitize, AgentError, NodeProps, PipeWireObject, SINK_NAME,
};

#[test]
fn recognizes_only_the_named_private_sink() {
    let sinks = "12\tother\tPipeWire\n37\tmulti_desktop_audio\tPipeWire\n";
    assert!(has_private_sink(sinks));
    let sinks = "12\tphysical-output\tPipeWire\n";
    assert!(!has_private_sink(sinks));
}

#[test]
fn sink_name_must_be_the_second_field() {
    assert_eq!(SINK_NAME, "multi_desktop_audio");
    assert!(!has_private_sink("multi_desktop_audio\n"));
    assert!(!has_private_sink("1 multi_desktop_audio_2 x\n"));
    assert!(has_private_sink("1   multi_desktop_audio"));
}

fn node(id: u64, kind: &str, name: &str, class: Option<&str>) -> PipeWireObject {
    PipeWireObject {
        object_type: Some(kind.to_owned()),
        id: Some(id),
        props: Some(NodeProps {
            node_name: Some(name.to_owned()),
            media_class: class.map(str::to_owned),
        }),
    }
}

#[test]
fn selects_only_gamescope_video_node() {
    let dump = r#"[
              {"id":7,"type":"PipeWire:Interface:Node","info":{"props":{"node.name":"camera","media.class":"Video/Source"}}},
              {"id":42,"type":"PipeWire:Interface:Node","info":{"props":{"node.name":"gamescope-stream","media.class":"Video/Source"}}}
            ]"#;
    assert_eq!(gamescope_node_from_dump(dump.as_bytes()), Ok(Some(42)));
}

#[test]
fn selects_gamescope_video_node_from_objects() {
    let objects = vec![
        node(7, "PipeWire:Interface:Node", "camera", Some("Video/Source")),
        node(42, "PipeWire:Interface:Node", "gamescope-stream", Some("Video/Source")),
    ];
    assert_eq!(find_gamescope_node(&objects), Some(42));
}

#[test]
fn refuses_a_dump_that_is_not_a_json_array() {
    assert_eq!(gamescope_node_from_dump(b"not json"), Err(AgentError::InvalidDump));
    assert_eq!(gamescope_node_from_dump(br#"{"id":1}"#), Err(AgentError::InvalidDump));
    assert_eq!(AgentError::InvalidDump.message(), "pw-dump returned invalid JSON");
    assert_eq!(gamescope_node_from_dump(b"[]"), Ok(None));
    let dump = br#"[{"id":5,"type":"PipeWire:Interface:Node","info":{"props":{"node.name":"gamescope","media.class":7}}},
                    {"id":"9","type":"PipeWire:Interface:Node","info":{"props":{"node.name":"Gamescope","media.class":"Video/Source"}}},
                    {"id":11,"type":"PipeWire:Interface:Node","info":{"props":{"node.name":"GAMESCOPE out","media.class":"video"}}}]"#;
    assert_eq!(gamescope_node_from_dump(dump), Ok(Some(11)));
}

#[test]
fn gamescope_node_needs_type_name_and_video_class() {
    let objects = vec![
        node(1, "PipeWire:Interface:Port", "gamescope", Some("Video/Source")),
        node(2, "PipeWire:Interface:Node", "GameScope", Some("Audio/Sink")),
        node(3, "PipeWire:Interface:Node", "GameScope", None),
        PipeWireObject { object_type: Some("PipeWire:Interface:Node".to_owned()), id: Some(4), props: None },
        node(5, "PipeWire:Interface:Node", "My GAMESCOPE", Some("VIDEO/Source")),
    ];
    assert_eq!(find_gamescope_node(&objects), Some(5));
    assert_eq!(find_gamescope_node(&objects[..4]), None);
}

#[test]
fn media_agent_reads_a_ready_capture_node() {
    assert_eq!(ready_node("state=ready\nnode_id=42\n"), Some(42));
    assert_eq!(ready_node("node_id=x\nnode_id=7\nstate=ready\n"), Some(7));
    assert_eq!(ready_node("state=waiting\nnode_id=42\n"), None);
    assert_eq!(ready_node("state=ready\n"), None);
}

#[test]
fn status_texts_fit_on_their_lines() {
    assert_eq!(sanitize("a\nb\rc"), "abc");
    assert_eq!(capture_status(Ok(Some(42))), "state=ready\nnode_id=42\n");
    assert_eq!(capture_status(Ok(None)), "state=waiting\n");
    assert_eq!(capture_status(Err("pw-dump\nfailed".to_owned())), "state=error\nreason=pw-dumpfailed\n");
    assert_eq!(encoder_status("encoding", 9), "state=encoding\nnode_id=9\ncodec=h264\nrelay=private-unix\n");
    assert_eq!(exit_status(Some(0)), "state=encoder-exited\nexit_code=0\n");
    assert_eq!(exit_status(None), "state=encoder-exited\nexit_code=-1\n");
    assert_eq!(exit_status(Some(i32::MIN)), "state=encoder-exited\nexit_code=-2147483648\n");
    assert_eq!(reason_status("relay-ended", "broken\npipe"), "state=relay-ended\nreason=brokenpipe\n");
}
