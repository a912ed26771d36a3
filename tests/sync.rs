use collab_sync::{
    compress_diff, decode_snapshot, decode_state_vector, decompress, encode_frame, encode_snapshot,
    serve_full_sync, split_batch,
    split_frames, connect, disconnect, CollabStore, CollabType, Compression, DocumentActor, Item, PresenceRegistry,
    RealtimeUser, Router, StateVector, SyncError, DATABASE_ROOT, DOCUMENT_ROOT, SNAPSHOT_VERSION,
};

fn item(client: u64, clock: u64, root: u32, content: &[u8]) -> Item {
    Item::new(client, clock, root, content.to_vec())
}

fn sorted(items: &[Item]) -> Vec<(u64, u64, u32, Vec<u8>)> {
    let mut v: Vec<_> = items.iter().map(|i| (i.client, i.clock, i.root, i.content.clone())).collect();
    v.sort();
    v
}

fn doc_actor(id: &str) -> DocumentActor {
    DocumentActor::new("ws-1", id, CollabType::Document)
}

#[test]
fn scenario_a_catch_up_from_empty() {
    let mut actor = doc_actor("doc-1");
    let u1 = vec![item(1, 0, DOCUMENT_ROOT, b"hello"), item(1, 1, DOCUMENT_ROOT, b"world")];
    let empty = StateVector::new();
    let (v1, d1) = actor.apply_update(&u1, Some(&empty)).unwrap();
    assert_eq!(v1.get(1), Some(1));
    assert_eq!(v1.len(), 1);
    assert_eq!(sorted(&d1), sorted(&u1));
    let snapshot = actor.full_sync(&vec![], &StateVector::new()).unwrap().unwrap();
    assert_eq!(sorted(&snapshot), sorted(&d1));
}

#[test]
fn applying_an_update_twice_is_applying_it_once() {
    let mut once = doc_actor("a");
    let mut twice = doc_actor("a");
    let u = vec![item(3, 0, DOCUMENT_ROOT, b"x"), item(3, 1, DOCUMENT_ROOT, b"y")];
    once.apply_update(&u, None).unwrap();
    twice.apply_update(&u, None).unwrap();
    twice.apply_update(&u, None).unwrap();
    assert_eq!(sorted(&once.snapshot()), sorted(&twice.snapshot()));
    assert_eq!(once.state_vector().get(3), twice.state_vector().get(3));
    assert_eq!(once.state_vector().len(), twice.state_vector().len());
    assert_eq!(twice.version(), 2);
}

#[test]
fn independent_updates_commute() {
    let a = vec![item(1, 0, DOCUMENT_ROOT, b"a0"), item(1, 1, DOCUMENT_ROOT, b"a1")];
    let b = vec![item(2, 0, DOCUMENT_ROOT, b"b0")];
    let mut ab = doc_actor("o");
    let mut ba = doc_actor("o");
    ab.apply_update(&a, None).unwrap();
    ab.apply_update(&b, None).unwrap();
    ba.apply_update(&b, None).unwrap();
    ba.apply_update(&a, None).unwrap();
    assert_eq!(sorted(&ab.snapshot()), sorted(&ba.snapshot()));
    assert_eq!(ab.snapshot().len(), 3);
}

#[test]
fn full_sync_with_current_vector_sends_nothing() {
    let mut actor = doc_actor("o");
    let u = vec![item(1, 0, DOCUMENT_ROOT, b"a"), item(2, 4, DOCUMENT_ROOT, b"b")];
    actor.apply_update(&u, None).unwrap();
    let sv = actor.state_vector();
    assert!(matches!(actor.full_sync(&vec![], &sv), Ok(None)));
}

#[test]
fn diff_holds_only_what_the_client_lacks() {
    let mut actor = doc_actor("o");
    let u = vec![item(1, 0, DOCUMENT_ROOT, b"a"), item(1, 1, DOCUMENT_ROOT, b"b"), item(2, 0, DOCUMENT_ROOT, b"c")];
    actor.apply_update(&u, None).unwrap();
    let mut client = StateVector::new();
    client.observe(1, 0);
    let (_, d) = actor.apply_update(&vec![], Some(&client)).unwrap();
    assert_eq!(sorted(&d), sorted(&[item(1, 1, DOCUMENT_ROOT, b"b"), item(2, 0, DOCUMENT_ROOT, b"c")]));
}

#[test]
fn scenario_b_disjoint_full_syncs_both_land() {
    let mut actor = doc_actor("doc-2");
    let a = vec![item(10, 0, DOCUMENT_ROOT, b"from a")];
    let b = vec![item(20, 0, DOCUMENT_ROOT, b"from b")];
    assert!(actor.full_sync(&a, &StateVector::new()).is_ok());
    assert!(actor.full_sync(&b, &StateVector::new()).is_ok());
    let mut both = a;
    both.extend(b);
    assert_eq!(sorted(&actor.snapshot()), sorted(&both));
}

#[test]
fn corrupt_update_changes_nothing() {
    let mut actor = doc_actor("o");
    actor.apply_update(&vec![item(1, 0, DOCUMENT_ROOT, b"a")], None).unwrap();
    let before = sorted(&actor.snapshot());
    let clash = vec![item(1, 0, DOCUMENT_ROOT, b"other")];
    assert!(matches!(actor.apply_update(&clash, None), Err(SyncError::Decode)));
    let twice = vec![item(5, 0, DOCUMENT_ROOT, b"x"), item(5, 0, DOCUMENT_ROOT, b"y")];
    assert!(matches!(actor.full_sync(&twice, &StateVector::new()), Err(SyncError::Decode)));
    assert_eq!(sorted(&actor.snapshot()), before);
    assert_eq!(actor.version(), 1);
}

#[test]
fn broadcast_skips_the_originator() {
    let mut actor = doc_actor("o");
    actor.subscribe("s1");
    actor.subscribe("s2");
    actor.subscribe("s3");
    assert_eq!(actor.broadcast_targets("s2"), vec!["s1".to_string(), "s3".to_string()]);
    assert_eq!(actor.broadcast_targets("zz").len(), 3);
    actor.subscribe("s2");
    actor.unsubscribe("s2");
    assert_eq!(actor.broadcast_targets(""), vec!["s1".to_string(), "s3".to_string()]);
}

#[test]
fn serialized_submissions_all_take_effect() {
    let mut router = Router::new(8, 4);
    for c in 0..5u64 {
        let u = vec![item(c, 0, DOCUMENT_ROOT, &[c as u8])];
        assert_eq!(router.route("ws", "doc", CollabType::Document, u), Ok(()));
    }
    assert_eq!(router.drain("ws", "doc"), Ok(5));
    assert_eq!(router.drain("ws", "doc"), Ok(0));
    assert_eq!(router.len(), 1);
}

#[test]
fn router_admission_is_bounded() {
    let mut router = Router::new(1, 1);
    assert_eq!(router.route("ws", "a", CollabType::Document, vec![]), Ok(()));
    assert_eq!(router.route("ws", "a", CollabType::Document, vec![]), Err(SyncError::Busy));
    assert_eq!(router.route("ws", "b", CollabType::Document, vec![]), Err(SyncError::Busy));
    assert_eq!(router.route("other", "a", CollabType::Document, vec![]), Err(SyncError::NotFound));
    assert_eq!(router.drain("other", "a"), Err(SyncError::NotFound));
    assert_eq!(router.drain("ws", "a"), Ok(1));
    assert_eq!(router.route("ws", "a", CollabType::Document, vec![]), Ok(()));
}

fn user(uid: i64, device: &str, session: &str) -> RealtimeUser {
    RealtimeUser::new(uid, device.to_string(), session.to_string(), 0, "1.0".to_string())
}

#[test]
fn reconnect_from_same_device_evicts_old_session() {
    let mut reg = PresenceRegistry::new();
    assert!(reg.register(user(1, "phone", "s1")).is_empty());
    assert!(reg.register(user(1, "desk", "s2")).is_empty());
    let evicted = reg.register(user(1, "phone", "s3"));
    assert_eq!(evicted.len(), 1);
    assert_eq!(evicted[0].session_id, "s1");
    assert_eq!(reg.len(), 2);
    assert_eq!(reg.lookup_session("s1").err(), Some(SyncError::NotFound));
    assert_eq!(reg.lookup_session("s3").unwrap().device_id, "phone");
    assert_eq!(reg.sessions_of(1).unwrap(), vec!["s2".to_string(), "s3".to_string()]);
}

#[test]
fn unregister_unknown_session_is_not_found() {
    let mut reg = PresenceRegistry::new();
    reg.register(user(2, "d", "s"));
    assert_eq!(reg.unregister("nope").err(), Some(SyncError::NotFound));
    assert_eq!(reg.unregister("s").unwrap().uid, 2);
    assert_eq!(reg.len(), 0);
    assert_eq!(reg.sessions_of(2).err(), Some(SyncError::NotFound));
}

#[test]
fn frames_split_at_their_lengths() {
    let mut buf = encode_frame(b"abc");
    assert_eq!(buf, vec![0, 0, 0, 3, b'a', b'b', b'c']);
    buf.extend(encode_frame(b""));
    buf.extend(vec![0, 0, 1, 0, 1]);
    let (frames, end) = split_frames(&buf);
    assert_eq!(frames, vec![(4, 3), (11, 0)]);
    assert_eq!(end, 11);
}

#[test]
fn compression_envelopes_unwrap() {
    let data = b"a diff a diff a diff".to_vec();
    let packed = compress_diff(&data).unwrap();
    assert_ne!(packed, data);
    assert_eq!(decompress(&packed, Compression::Zstd).unwrap(), data);
    assert_eq!(decompress(&data, Compression::Uncompressed).unwrap(), data);
    assert_eq!(decompress(b"not zstd", Compression::Zstd), Err(SyncError::Decode));
    assert_eq!(decompress(b"\xff\xff\xff", Compression::Brotli { buffer_size: 4096 }), Err(SyncError::Decode));
}

#[test]
fn brotli_payload_unwraps() {
    // "hello" compressed with Brotli at quality 0.
    let packed: Vec<u8> = vec![0x0b, 0x02, 0x80, 0x68, 0x65, 0x6c, 0x6c, 0x6f, 0x03];
    assert_eq!(decompress(&packed, Compression::Brotli { buffer_size: 4096 }).unwrap(), b"hello".to_vec());
}

#[test]
fn snapshots_round_trip() {
    let items = vec![item(1, 2, DOCUMENT_ROOT, b"text"), item(u64::MAX, 0, 9, b"")];
    let bytes = encode_snapshot(&items);
    assert_eq!(bytes[0], SNAPSHOT_VERSION);
    assert_eq!(&bytes[1..5], &[0, 0, 0, 2]);
    assert_eq!(sorted(&decode_snapshot(&bytes).unwrap()), sorted(&items));
    let mut other_version = bytes.clone();
    other_version[0] = 2;
    assert_eq!(decode_snapshot(&other_version).err(), Some(SyncError::Decode));
    let mut trailing = bytes.clone();
    trailing.push(0);
    assert_eq!(decode_snapshot(&trailing).err(), Some(SyncError::Decode));
    assert_eq!(decode_snapshot(&bytes[..bytes.len() - 1]).err(), Some(SyncError::Decode));
    assert_eq!(decode_snapshot(&[]).err(), Some(SyncError::Decode));
}

fn doc_snapshot(text: &[u8]) -> Vec<u8> {
    encode_snapshot(&vec![item(1, 0, DOCUMENT_ROOT, text)])
}

#[test]
fn write_over_capacity_leaves_store_unchanged() {
    let mut store = CollabStore::new();
    let first = doc_snapshot(b"v1");
    assert_eq!(store.write_snapshot("ws", "doc", CollabType::Document, &first, 0, 1000), Ok(()));
    let bigger = doc_snapshot(&[7u8; 200]);
    assert_eq!(
        store.write_snapshot("ws", "doc", CollabType::Document, &bigger, 900, 1000),
        Err(SyncError::CapacityExceeded)
    );
    assert_eq!(store.doc_state("doc").unwrap(), first);
    assert_eq!(store.pending_index_tasks().len(), 1);
}

#[test]
fn write_checks_structure_and_workspace() {
    let mut store = CollabStore::new();
    let doc = doc_snapshot(b"hello");
    assert_eq!(store.write_snapshot("ws", "d", CollabType::Database, &doc, 0, 1000), Err(SyncError::Validation));
    assert_eq!(store.write_snapshot("ws", "d", CollabType::Document, b"junk", 0, 1000), Err(SyncError::Decode));
    assert_eq!(store.write_snapshot("ws", "d", CollabType::Document, &doc, 0, 1000), Ok(()));
    assert_eq!(store.write_snapshot("ws2", "d", CollabType::Document, &doc, 0, 1000), Err(SyncError::Validation));
    let task = &store.pending_index_tasks()[0];
    assert_eq!(task.extracted_text, b"hello".to_vec());
    let db = encode_snapshot(&vec![item(1, 0, DATABASE_ROOT, b"row")]);
    assert_eq!(store.write_snapshot("ws", "db", CollabType::Database, &db, 0, 1000), Ok(()));
    assert_eq!(store.pending_index_tasks().len(), 1);
    assert_eq!(store.len(), 2);
    assert_eq!(store.doc_state("missing").err(), Some(SyncError::NotFound));
}

fn pair(out: &mut Vec<u8>, meta: &[u8], data: &[u8]) {
    out.extend(encode_frame(meta));
    out.extend(encode_frame(data));
}

fn meta(tag: u8, id: &str) -> Vec<u8> {
    let mut m = vec![tag];
    m.extend(id.as_bytes());
    m
}

#[test]
fn batch_with_one_corrupt_frame_keeps_the_rest() {
    let mut body = Vec::new();
    for k in 0..10u8 {
        let id = format!("obj-{}", k);
        if k == 4 {
            pair(&mut body, &meta(0, &id), b"corrupt");
        } else {
            pair(&mut body, &meta(0, &id), &doc_snapshot(&[b'a' + k]));
        }
    }
    body.extend([0, 0, 0, 0]);
    let mut store = CollabStore::new();
    let report = store.ingest_batch("ws", &body, Compression::Uncompressed, 0, 1_000_000).unwrap();
    assert_eq!(report.inserted, 9);
    assert_eq!(report.dropped, 1);
    assert_eq!(store.len(), 9);
    assert_eq!(store.pending_index_tasks().len(), 9);
    assert_eq!(store.doc_state("obj-4").err(), Some(SyncError::NotFound));
}

#[test]
fn batch_refusals() {
    let mut store = CollabStore::new();
    let mut body = Vec::new();
    pair(&mut body, &meta(0, "a"), &doc_snapshot(b"x"));
    assert_eq!(store.ingest_batch("ws", &body, Compression::Uncompressed, 0, 1000).err(), Some(SyncError::Decode));
    body.extend([0, 0, 0, 0]);
    assert_eq!(store.ingest_batch("ws", &body, Compression::Uncompressed, 990, 1000).err(), Some(SyncError::CapacityExceeded));
    assert_eq!(store.len(), 0);
    let mut bad = Vec::new();
    pair(&mut bad, &meta(9, "a"), &doc_snapshot(b"x"));
    bad.extend([0, 0, 0, 0]);
    assert_eq!(store.ingest_batch("ws", &bad, Compression::Uncompressed, 0, 1000).err(), Some(SyncError::Validation));
    let packed = compress_diff(&doc_snapshot(b"zipped")).unwrap();
    let mut zipped = Vec::new();
    pair(&mut zipped, &meta(1, "db"), &encode_snapshot(&vec![item(1, 0, DATABASE_ROOT, b"r")]));
    pair(&mut zipped, &meta(0, "doc"), &packed);
    zipped.extend([0, 0, 0, 0]);
    let report = store.ingest_batch("ws", &zipped, Compression::Zstd, 0, 1000).unwrap();
    assert_eq!((report.inserted, report.dropped), (1, 1));
    assert_eq!(store.doc_state("doc").unwrap(), doc_snapshot(b"zipped"));
}

#[test]
fn batch_frames_are_capped() {
    let mut body = vec![0, 0x40, 0, 1];
    body.extend(vec![0u8; 0x0040_0001]);
    assert_eq!(split_batch(&body).err(), Some(SyncError::Decode));
    assert_eq!(split_batch(&[0, 0, 0, 0]).unwrap().len(), 0);
}

fn sv_bytes(records: &[(u64, u64)]) -> Vec<u8> {
    let mut b = (records.len() as u32).to_be_bytes().to_vec();
    for (client, clock) in records {
        b.extend(client.to_be_bytes());
        b.extend(clock.to_be_bytes());
    }
    b
}

fn full_sync_body(tag: u8, compression: u8, update: &[u8], sv: &[u8]) -> Vec<u8> {
    let mut body = vec![tag, compression];
    body.extend(encode_frame(update));
    body.extend(encode_frame(sv));
    body
}

#[test]
fn full_sync_request_is_served_with_a_compressed_snapshot() {
    let mut actor = doc_actor("doc-9");
    actor.apply_update(&vec![item(1, 0, DOCUMENT_ROOT, b"server")], None).unwrap();
    let update = encode_snapshot(&vec![item(2, 0, DOCUMENT_ROOT, b"client")]);
    let body = full_sync_body(0, 0, &update, &sv_bytes(&[(2, 0)]));
    let answer = serve_full_sync(&mut actor, &body, 0, 1_000_000).unwrap().unwrap();
    let snapshot = decompress(&answer, Compression::Zstd).unwrap();
    let items = decode_snapshot(&snapshot).unwrap();
    assert_eq!(sorted(&items), sorted(&[item(1, 0, DOCUMENT_ROOT, b"server")]));
    assert_eq!(actor.snapshot().len(), 2);
    let current = sv_bytes(&[(1, 0), (2, 0)]);
    let again = full_sync_body(0, 0, &update, &current);
    assert_eq!(serve_full_sync(&mut actor, &again, 0, 1_000_000), Ok(None));
}

#[test]
fn full_sync_request_refusals() {
    let mut actor = doc_actor("doc-9");
    let update = encode_snapshot(&vec![item(2, 0, DOCUMENT_ROOT, b"c")]);
    assert_eq!(serve_full_sync(&mut actor, &[], 0, 1_000_000), Err(SyncError::Decode));
    assert_eq!(serve_full_sync(&mut actor, &full_sync_body(0, 0, &[], &sv_bytes(&[])), 0, 1_000_000), Err(SyncError::Decode));
    assert_eq!(serve_full_sync(&mut actor, &full_sync_body(0, 7, &update, &sv_bytes(&[])), 0, 1_000_000), Err(SyncError::Decode));
    assert_eq!(serve_full_sync(&mut actor, &full_sync_body(1, 0, &update, &sv_bytes(&[])), 0, 1_000_000), Err(SyncError::Validation));
    assert_eq!(serve_full_sync(&mut actor, &full_sync_body(0, 0, &update, &[0, 0, 0, 1]), 0, 1_000_000), Err(SyncError::Decode));
    assert_eq!(actor.snapshot().len(), 0);
}

#[test]
fn zstd_full_sync_request_is_unwrapped() {
    let mut actor = doc_actor("doc-z");
    let update = compress_diff(&encode_snapshot(&vec![item(4, 1, DOCUMENT_ROOT, b"z")])).unwrap();
    let sv = compress_diff(&sv_bytes(&[])).unwrap();
    let answer = serve_full_sync(&mut actor, &full_sync_body(0, 1, &update, &sv), 0, 1_000_000).unwrap().unwrap();
    let items = decode_snapshot(&decompress(&answer, Compression::Zstd).unwrap()).unwrap();
    assert_eq!(sorted(&items), sorted(&[item(4, 1, DOCUMENT_ROOT, b"z")]));
}

#[test]
fn state_vectors_keep_the_highest_clock() {
    let sv = decode_state_vector(&sv_bytes(&[(1, 5), (1, 3), (2, 0)])).unwrap();
    assert_eq!(sv.get(1), Some(5));
    assert_eq!(sv.get(2), Some(0));
    assert_eq!(sv.get(3), None);
    assert_eq!(sv.len(), 2);
    assert_eq!(decode_state_vector(&[0, 0, 0, 1]).err(), Some(SyncError::Decode));
}

#[test]
fn idle_actor_is_retired_and_rehydrated() {
    let mut router = Router::new(4, 2);
    let u = vec![item(1, 0, DOCUMENT_ROOT, b"kept")];
    router.route("ws", "doc", CollabType::Document, u).unwrap();
    assert_eq!(router.evict("ws", "doc").err(), Some(SyncError::Busy));
    assert_eq!(router.drain("ws", "doc"), Ok(1));
    assert_eq!(router.evict("other", "doc").err(), Some(SyncError::NotFound));
    let items = router.evict("ws", "doc").unwrap();
    assert_eq!(sorted(&items), sorted(&[item(1, 0, DOCUMENT_ROOT, b"kept")]));
    assert_eq!(router.len(), 0);
    assert_eq!(router.evict("ws", "doc").err(), Some(SyncError::NotFound));
    assert_eq!(router.rehydrate("ws", "doc", CollabType::Document, &items), Ok(()));
    assert_eq!(router.rehydrate("ws", "doc", CollabType::Document, &items), Err(SyncError::NotFound));
    let clash = vec![item(1, 0, DOCUMENT_ROOT, b"a"), item(1, 0, DOCUMENT_ROOT, b"b")];
    assert_eq!(router.rehydrate("ws", "x", CollabType::Document, &clash), Err(SyncError::Decode));
    router.rehydrate("ws", "y", CollabType::Document, &vec![]).unwrap();
    assert_eq!(router.rehydrate("ws", "z", CollabType::Document, &vec![]), Err(SyncError::Busy));
    assert_eq!(sorted(&router.evict("ws", "doc").unwrap()), sorted(&items));
}

#[test]
fn actor_rehydrates_from_items() {
    let items = vec![item(1, 0, DOCUMENT_ROOT, b"a"), item(2, 3, DOCUMENT_ROOT, b"b")];
    let actor = DocumentActor::from_items("ws", "doc", CollabType::Document, &items).unwrap();
    assert_eq!(sorted(&actor.snapshot()), sorted(&items));
    assert_eq!(actor.state_vector().get(2), Some(3));
    assert_eq!(actor.object_id(), "doc");
    assert_eq!(actor.workspace_id(), "ws");
    assert_eq!(actor.collab_type(), CollabType::Document);
    assert_eq!(actor.version(), 0);
}

#[test]
fn full_sync_over_storage_limit_is_refused_before_merging() {
    let mut actor = doc_actor("doc-c");
    actor.apply_update(&vec![item(1, 0, DOCUMENT_ROOT, b"kept")], None).unwrap();
    let before = sorted(&actor.snapshot());
    let update = encode_snapshot(&vec![item(2, 0, DOCUMENT_ROOT, b"too much")]);
    let body = full_sync_body(0, 0, &update, &sv_bytes(&[]));
    assert_eq!(serve_full_sync(&mut actor, &body, 100, 100 + update.len() as u64 - 1), Err(SyncError::CapacityExceeded));
    assert_eq!(sorted(&actor.snapshot()), before);
    assert!(serve_full_sync(&mut actor, &body, 100, 100 + update.len() as u64).is_ok());
    assert_eq!(actor.snapshot().len(), 2);
}

#[test]
fn object_id_equal_to_workspace_id_is_refused() {
    let mut store = CollabStore::new();
    assert_eq!(store.write_snapshot("ws", "ws", CollabType::Document, &doc_snapshot(b"x"), 0, 1000), Err(SyncError::Validation));
    assert_eq!(store.len(), 0);
    assert_eq!(store.pending_index_tasks().len(), 0);
}

#[test]
fn connections_leave_actor_subscriptions() {
    let mut reg = PresenceRegistry::new();
    let mut router = Router::new(4, 4);
    router.route("ws", "doc", CollabType::Document, vec![]).unwrap();
    assert!(connect(&mut reg, &mut router, user(1, "phone", "s1")).is_empty());
    connect(&mut reg, &mut router, user(2, "desk", "s2"));
    assert_eq!(router.subscribe("ws", "doc", "s1"), Ok(()));
    assert_eq!(router.subscribe("ws", "doc", "s2"), Ok(()));
    assert_eq!(router.subscribe("other", "doc", "s2"), Err(SyncError::NotFound));
    let evicted = connect(&mut reg, &mut router, user(1, "phone", "s3"));
    assert_eq!(evicted.len(), 1);
    assert_eq!(disconnect(&mut reg, &mut router, "s2").unwrap().uid, 2);
    assert_eq!(disconnect(&mut reg, &mut router, "s2").err(), Some(SyncError::NotFound));
    assert_eq!(router.drain("ws", "doc"), Ok(1));
    let items = router.evict("ws", "doc").unwrap();
    assert!(items.is_empty());
    assert_eq!(reg.len(), 1);
}
