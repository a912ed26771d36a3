use collab_sync::{
    compress_diff, decode_envelope, decode_message, dispatch_message, encode_frame, encode_snapshot,
    CollabType, Compression, Item, MessageKind, RealtimeMessage, Router, SyncError, DOCUMENT_ROOT,
};

fn message(kind: u8, object_id: &str, payload: &[u8]) -> Vec<u8> {
    let mut m = vec![kind];
    m.extend(encode_frame(object_id.as_bytes()));
    m.extend(payload);
    m
}

fn envelope(device: &str, body: &[u8]) -> Vec<u8> {
    let mut e = encode_frame(device.as_bytes());
    e.extend(body);
    e
}

#[test]
fn envelope_carries_device_and_message() {
    let env = envelope("ipad", &message(1, "doc-1", b"payload"));
    let (device, msg) = decode_envelope(&env, Compression::Uncompressed).unwrap();
    assert_eq!(device, "ipad");
    assert_eq!(msg.kind, MessageKind::Update);
    assert_eq!(msg.object_id, "doc-1");
    assert_eq!(msg.payload, b"payload".to_vec());
}

#[test]
fn compressed_envelope_is_unwrapped() {
    let packed = compress_diff(&message(3, "o", b"")).unwrap();
    let (device, msg) = decode_envelope(&envelope("", &packed), Compression::Zstd).unwrap();
    assert_eq!(device, "");
    assert_eq!(msg.kind, MessageKind::Ack);
    assert!(msg.payload.is_empty());
}

#[test]
fn malformed_messages_are_decode_errors() {
    assert_eq!(decode_message(&[9, 0, 0, 0, 1, b'o']).err(), Some(SyncError::Decode));
    assert_eq!(decode_message(&[1, 0, 0, 0, 5, b'o']).err(), Some(SyncError::Decode));
    assert_eq!(decode_message(&[1, 0, 0, 0, 0]).err(), Some(SyncError::Decode));
    assert_eq!(decode_message(&[1, 0, 0, 0, 1, 0xc3]).err(), Some(SyncError::Decode));
    assert_eq!(decode_envelope(&[0, 0, 0, 9], Compression::Uncompressed).err(), Some(SyncError::Decode));
    assert_eq!(decode_envelope(&envelope("d", b"junk"), Compression::Zstd).err(), Some(SyncError::Decode));
}

#[test]
fn updates_reach_the_router() {
    let mut router = Router::new(1, 8);
    let update = encode_snapshot(&vec![Item::new(1, 0, DOCUMENT_ROOT, b"t".to_vec())]);
    let msg = decode_message(&message(1, "doc", &update)).unwrap();
    assert_eq!(dispatch_message(&mut router, "ws", CollabType::Document, msg), Ok(()));
    assert_eq!(router.len(), 1);
    let again = decode_message(&message(1, "doc", &update)).unwrap();
    assert_eq!(dispatch_message(&mut router, "ws", CollabType::Document, again), Err(SyncError::Busy));
    let bad = RealtimeMessage { kind: MessageKind::Update, object_id: "x".to_string(), payload: vec![7] };
    assert_eq!(dispatch_message(&mut router, "ws", CollabType::Document, bad), Err(SyncError::Decode));
    let ack = RealtimeMessage { kind: MessageKind::Ack, object_id: "y".to_string(), payload: vec![] };
    assert_eq!(dispatch_message(&mut router, "ws", CollabType::Document, ack), Ok(()));
    assert_eq!(router.len(), 1);
    assert_eq!(router.drain("ws", "doc"), Ok(1));
}
