use peeps::wire::{
    check_frame_header, frame_len, frame_prefix, pull_step, PullAction, PullEvent,
    SnapshotRequestHead, MAX_FRAME_LEN,
};

#[test]
fn headers_are_big_endian() {
    assert_eq!(frame_len([0, 0, 1, 2]), 258);
    assert_eq!(frame_len([1, 0, 0, 0]), 16_777_216);
    assert_eq!(frame_prefix(258).ok(), Some([0, 0, 1, 2]));
    assert_eq!(frame_prefix(0xffff_ffff).ok(), Some([255, 255, 255, 255]));
}

#[test]
fn written_headers_read_back() {
    for len in [0usize, 1, 300, 70_000, MAX_FRAME_LEN as usize] {
        let h = frame_prefix(len).ok().expect("fits");
        assert_eq!(check_frame_header(h).ok(), Some(len as u32));
    }
}

#[test]
fn oversized_frames_are_refused() {
    let h = frame_prefix(MAX_FRAME_LEN as usize + 1).ok().expect("fits in u32");
    assert_eq!(check_frame_header(h).err().as_deref(), Some("frame too large: 134217729 bytes"));
    assert_eq!(
        frame_prefix(u32::MAX as usize + 1).err().as_deref(),
        Some("frame exceeds u32 length prefix")
    );
}

#[test]
fn the_pull_loop_answers_snapshot_requests_only() {
    assert!(matches!(pull_step(PullEvent::Header([0, 0, 0, 9])), PullAction::ReadPayload(9)));
    assert!(matches!(pull_step(PullEvent::Header([9, 0, 0, 0])), PullAction::Fail(_)));
    assert!(matches!(pull_step(PullEvent::Payload(None)), PullAction::Skip));
    let req = SnapshotRequestHead { msg_type: "snapshot_request".to_string(), snapshot_id: 3 };
    assert!(matches!(pull_step(PullEvent::Payload(Some(req))), PullAction::Reply(3)));
    let other = SnapshotRequestHead { msg_type: "ping".to_string(), snapshot_id: 3 };
    assert!(matches!(pull_step(PullEvent::Payload(Some(other))), PullAction::Skip));
}
