use bootstrap::channel::Message;

#[test]
fn frames_round_trip() {
    for m in [
        Message::IdentifierMappingRequest,
        Message::MappingAck,
        Message::InitReady(1),
        Message::InitReady(-7),
        Message::IntermediateReady(i32::MAX),
        Message::IntermediateReady(i32::MIN),
    ] {
        assert_eq!(Message::decode(&m.encode()), Some(m));
    }
}

#[test]
fn frame_layout() {
    assert_eq!(Message::InitReady(0x01020304).encode(), vec![2, 4, 3, 2, 1]);
    assert_eq!(Message::MappingAck.encode(), vec![1, 0, 0, 0, 0]);
    assert_eq!(Message::IntermediateReady(-1).encode(), vec![3, 255, 255, 255, 255]);
}

#[test]
fn bad_frames_are_refused() {
    assert_eq!(Message::decode(&[1, 0, 0, 0]), None);
    assert_eq!(Message::decode(&[]), None);
    assert_eq!(Message::decode(&[9, 0, 0, 0, 0]), None);
    assert_eq!(Message::decode(&[0, 0, 0, 0, 0, 0]), None);
}
