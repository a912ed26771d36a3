use vstd::prelude::*;
use crate::batch::{ascii_text, is_ascii_id};
use crate::collab::{CollabType, SyncError};
use crate::crdt::set_of;
use crate::envelope::{be_u32, decompress, read_be_u32, unwrapped, Compression};
use crate::router::{route_outcome, Router};
use crate::snapshot::{decode_snapshot, parse_snapshot};
use crate::text::push_char;

verus! {

/// The kinds of message on the realtime stream.
#[derive(Debug, Clone, Copy, PartialEq, Eq, Structural)]
pub enum MessageKind {
    Init,
    Update,
    AwarenessUpdate,
    Ack,
    Error,
}

/// A message of the realtime stream: its kind, the object it is about, and
/// its payload.
#[derive(Debug)]
pub struct RealtimeMessage {
    pub kind: MessageKind,
    pub object_id: String,
    pub payload: Vec<u8>,
}

pub open spec fn kind_of_tag(t: u8) -> Option<MessageKind> {
    if t == 0 {
        Some(MessageKind::Init)
    } else if t == 1 {
        Some(MessageKind::Update)
    } else if t == 2 {
        Some(MessageKind::AwarenessUpdate)
    } else if t == 3 {
        Some(MessageKind::Ack)
    } else if t == 4 {
        Some(MessageKind::Error)
    } else {
        None
    }
}

/// A realtime envelope: the sending device's id behind its four-byte
/// length, then the rest, which is the message, possibly compressed.
/// Gives the device id's bytes and the message's bytes.
pub open spec fn split_envelope(b: Seq<u8>) -> Option<(Seq<u8>, Seq<u8>)> {
    if b.len() < 4 || 4 + be_u32(b, 0) > b.len() {
        None
    } else {
        Some((b.subrange(4, 4int + be_u32(b, 0)), b.subrange(4int + be_u32(b, 0), b.len() as int)))
    }
}

/// A message: a kind tag, the object id in ASCII behind its four-byte
/// length, then the payload.
pub open spec fn parse_message(m: Seq<u8>) -> Option<(MessageKind, Seq<char>, Seq<u8>)> {
    if m.len() < 5 || 5 + be_u32(m, 1) > m.len() {
        None
    } else {
        let id = m.subrange(5, 5int + be_u32(m, 1));
        match kind_of_tag(m[0]) {
            Some(k) => if is_ascii_id(id) {
                Some((k, ascii_text(id), m.subrange(5int + be_u32(m, 1), m.len() as int)))
            } else {
                None
            },
            None => None,
        }
    }
}

/// What a realtime envelope carries: the device id and the message, or
/// `None` when it is malformed or its compression does not unwrap.
pub open spec fn parse_envelope(b: Seq<u8>, c: Compression) -> Option<(Seq<char>, (MessageKind, Seq<char>, Seq<u8>))> {
    match split_envelope(b) {
        None => None,
        Some((dev, body)) => if !(forall|i: int| 0 <= i < dev.len() ==> (#[trigger] dev[i]) < 128) {
            None
        } else {
            match unwrapped(body, c) {
                None => None,
                Some(m) => match parse_message(m) {
                    None => None,
                    Some(msg) => Some((ascii_text(dev), msg)),
                },
            }
        },
    }
}

fn ascii_string(b: &[u8]) -> (r: Option<String>)
    ensures
        match r {
            Some(s) => (forall|i: int| 0 <= i < b@.len() ==> (#[trigger] b@[i]) < 128) && s@ == ascii_text(b@),
            None => !(forall|i: int| 0 <= i < b@.len() ==> (#[trigger] b@[i]) < 128),
        },
{
    let mut s = String::new();
    let mut i: usize = 0;
    while i < b.len()
        invariant
            i <= b@.len(),
            forall|k: int| 0 <= k < i ==> (#[trigger] b@[k]) < 128,
            s@ == ascii_text(b@.subrange(0, i as int)),
        decreases b@.len() - i,
    {
        if b[i] >= 128 {
            return None;
        }
        push_char(&mut s, b[i] as char);
        assert(ascii_text(b@.subrange(0, i + 1)) =~= ascii_text(b@.subrange(0, i as int)).push(b@[i as int] as char));
        i = i + 1;
    }
    assert(b@.subrange(0, b@.len() as int) == b@);
    Some(s)
}

fn copy_slice(b: &[u8], from: usize, to: usize) -> (r: Vec<u8>)
    requires
        from <= to <= b@.len(),
    ensures
        r@ == b@.subrange(from as int, to as int),
{
    let mut r: Vec<u8> = Vec::new();
    let mut i: usize = from;
    while i < to
        invariant
            from <= i <= to,
            to <= b@.len(),
            r@ == b@.subrange(from as int, i as int),
        decreases to - i,
    {
        r.push(b[i]);
        assert(b@.subrange(from as int, i + 1) == b@.subrange(from as int, i as int).push(b@[i as int]));
        i = i + 1;
    }
    r
}

/// Reads a message.
pub fn decode_message(m: &[u8]) -> (r: Result<RealtimeMessage, SyncError>)
    ensures
        match r {
            Ok(msg) => parse_message(m@) == Some((msg.kind, msg.object_id@, msg.payload@)),
            Err(e) => e == SyncError::Decode && parse_message(m@) is None,
        },
{
    if m.len() < 5 {
        return Err(SyncError::Decode);
    }
    let n = read_be_u32(m, 1) as usize;
    if n > m.len() - 5 {
        return Err(SyncError::Decode);
    }
    let kind = match m[0] {
        0 => MessageKind::Init,
        1 => MessageKind::Update,
        2 => MessageKind::AwarenessUpdate,
        3 => MessageKind::Ack,
        4 => MessageKind::Error,
        _ => return Err(SyncError::Decode),
    };
    let id_bytes = vstd::slice::slice_subrange(m, 5, 5 + n);
    let object_id = match ascii_string(id_bytes) {
        Some(s) => s,
        None => return Err(SyncError::Decode),
    };
    if n == 0 {
        return Err(SyncError::Decode);
    }
    let payload = copy_slice(m, 5 + n, m.len());
    Ok(RealtimeMessage { kind, object_id, payload })
}

/// Reads a realtime envelope into the sending device's id and the message,
/// unwrapping the message from `c` on the way.
pub fn decode_envelope(b: &[u8], c: Compression) -> (r: Result<(String, RealtimeMessage), SyncError>)
    ensures
        match r {
            Ok((dev, msg)) => parse_envelope(b@, c) == Some((dev@, (msg.kind, msg.object_id@, msg.payload@))),
            Err(e) => e == SyncError::Decode && parse_envelope(b@, c) is None,
        },
{
    if b.len() < 4 {
        return Err(SyncError::Decode);
    }
    let n = read_be_u32(b, 0) as usize;
    if n > b.len() - 4 {
        return Err(SyncError::Decode);
    }
    let device = match ascii_string(vstd::slice::slice_subrange(b, 4, 4 + n)) {
        Some(d) => d,
        None => return Err(SyncError::Decode),
    };
    let body = vstd::slice::slice_subrange(b, 4 + n, b.len());
    let m = match decompress(body, c) {
        Ok(m) => m,
        Err(e) => return Err(e),
    };
    match decode_message(m.as_slice()) {
        Ok(msg) => Ok((device, msg)),
        Err(e) => Err(e),
    }
}

/// Hands a realtime message to the router. An update's payload must be a
/// snapshot-format list of items (`Decode` otherwise) and goes to the
/// object's mailbox, with the router's own answer (`Busy`, `NotFound`);
/// the other kinds carry nothing to merge and are accepted as they are.
pub fn dispatch_message(router: &mut Router, workspace_id: &str, collab_type: CollabType, msg: RealtimeMessage) -> (r: Result<(), SyncError>)
    requires
        old(router).wf(),
    ensures
        final(router).wf(),
        msg.kind != MessageKind::Update ==> r is Ok && final(router).spec_slots() == old(router).spec_slots(),
        msg.kind == MessageKind::Update && parse_snapshot(msg.payload@) is None ==> r == Err::<(), SyncError>(SyncError::Decode)
            && final(router).spec_slots() == old(router).spec_slots(),
        r is Err ==> final(router).spec_slots() == old(router).spec_slots(),
        final(router).spec_mailbox_capacity() == old(router).spec_mailbox_capacity(),
        final(router).spec_max_actors() == old(router).spec_max_actors(),
        msg.kind == MessageKind::Update && parse_snapshot(msg.payload@) is Some ==> r == route_outcome(
            old(router).spec_slots(),
            workspace_id@,
            msg.object_id@,
            old(router).spec_mailbox_capacity(),
            old(router).spec_max_actors(),
        ),
        msg.kind == MessageKind::Update && r is Ok ==> (exists|k: int| 0 <= k < old(router).spec_slots().len()
            && (#[trigger] old(router).spec_slots()[k]).1 == msg.object_id@
            && final(router).spec_slots() == old(router).spec_slots().update(k, (
                old(router).spec_slots()[k].0,
                old(router).spec_slots()[k].1,
                old(router).spec_slots()[k].2,
                old(router).spec_slots()[k].3.push(parse_snapshot(msg.payload@)->0.to_set()),
            )))
            || final(router).spec_slots() == old(router).spec_slots().push(
                (workspace_id@, msg.object_id@, Set::empty(), seq![parse_snapshot(msg.payload@)->0.to_set()])),
{
    match msg.kind {
        MessageKind::Update => {
            let update = match decode_snapshot(msg.payload.as_slice()) {
                Ok(u) => u,
                Err(e) => return Err(e),
            };
            proof {
                crate::fullsync::lemma_set_of_views(update@);
            }
            router.route(workspace_id, msg.object_id.as_str(), collab_type, update)
        },
        _ => Ok(()),
    }
}

} // verus!
