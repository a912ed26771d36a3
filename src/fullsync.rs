use vstd::prelude::*;
use crate::actor::DocumentActor;
use crate::batch::type_of_tag;
use crate::collab::{CollabType, SyncError};
use crate::crdt::{diff, is_state_vector, merged, mergeable, observed, set_of, Item, ItemView, StateVector};
use crate::envelope::{be_u32, compress_diff, decompress, read_be_u32, unwrapped, zstd_encoded, Compression, DIFF_ZSTD_LEVEL, MAX_BODY};
use crate::snapshot::{be_u64, decode_snapshot, encode_snapshot, parse_snapshot, read_be_u64, snapshot_bytes, views};

verus! {

/// The state vector that `count` (client, clock) records from offset 4 on
/// spell, each taken in turn.
pub open spec fn sv_records(b: Seq<u8>, count: nat) -> Map<u64, u64>
    decreases count,
{
    if count == 0 {
        Map::empty()
    } else {
        let k = (count - 1) as nat;
        observed(sv_records(b, k), be_u64(b, 4 + 16 * k as int) as u64, be_u64(b, 12 + 16 * k as int) as u64)
    }
}

/// A state vector as bytes: a record count, then that many (client, clock)
/// records of sixteen bytes, and nothing after.
pub open spec fn parse_state_vector(b: Seq<u8>) -> Option<Map<u64, u64>> {
    if b.len() < 4 || b.len() != 4 + 16 * be_u32(b, 0) {
        None
    } else {
        Some(sv_records(b, be_u32(b, 0)))
    }
}

/// Reads a state vector.
pub fn decode_state_vector(b: &[u8]) -> (r: Result<StateVector, SyncError>)
    ensures
        match r {
            Ok(sv) => parse_state_vector(b@) == Some(sv@),
            Err(e) => e == SyncError::Decode && parse_state_vector(b@) is None,
        },
{
    if b.len() < 4 {
        return Err(SyncError::Decode);
    }
    let count = read_be_u32(b, 0) as usize;
    if (b.len() - 4) / 16 != count || (b.len() - 4) % 16 != 0 {
        return Err(SyncError::Decode);
    }
    let blen = b.len();
    assert(blen == 4 + 16 * count) by (nonlinear_arith)
        requires
            (blen - 4) / 16 == count as int,
            (blen - 4) % 16 == 0,
            blen >= 4,
    ;
    let mut sv = StateVector::new();
    let mut k: usize = 0;
    while k < count
        invariant
            k <= count,
            count as nat == be_u32(b@, 0),
            b@.len() == 4 + 16 * count,
            blen == b@.len(),
            sv@ == sv_records(b@, k as nat),
        decreases count - k,
    {
        assert(16 * k + 20 <= 4 + 16 * count) by (nonlinear_arith)
            requires
                k < count,
        ;
        let client = read_be_u64(b, 4 + 16 * k);
        let clock = read_be_u64(b, 12 + 16 * k);
        sv.observe(client, clock);
        k = k + 1;
    }
    Ok(sv)
}

/// What a full-sync request carries once unwrapped: the object's type, the
/// client's pending update and the client's state vector.
pub struct FullSyncRequest {
    pub collab_type: CollabType,
    pub update: Vec<Item>,
    pub state_vector: StateVector,
    /// The size of the update once unwrapped, in bytes.
    pub update_size: usize,
}

/// The compression that a request's tag names.
pub open spec fn compression_of_tag(t: u8) -> Option<Compression> {
    if t == 0 {
        Some(Compression::Uncompressed)
    } else if t == 1 {
        Some(Compression::Zstd)
    } else {
        None
    }
}

/// A full-sync request's body: a collab type tag, a compression tag, then
/// the update and the state vector, each behind its four-byte length, and
/// nothing after; with them, the size of the unwrapped update. An empty body, one over the size cap, and an empty update
/// field are refused, and so is whatever does not unwrap and decode.
pub open spec fn parse_full_sync(b: Seq<u8>) -> Option<(CollabType, Seq<ItemView>, Map<u64, u64>, nat)> {
    if b.len() == 0 || b.len() > MAX_BODY || b.len() < 6 {
        None
    } else {
        let n1 = be_u32(b, 2);
        if 6 + n1 + 4 > b.len() || n1 == 0 {
            None
        } else {
            let n2 = be_u32(b, 6int + n1);
            if 10 + n1 + n2 != b.len() {
                None
            } else {
                match (type_of_tag(b[0]), compression_of_tag(b[1])) {
                    (Some(t), Some(c)) => match (unwrapped(b.subrange(6, 6int + n1), c), unwrapped(b.subrange(10int + n1, b.len() as int), c)) {
                        (Some(doc), Some(sv)) => match (parse_snapshot(doc), parse_state_vector(sv)) {
                            (Some(items), Some(m)) => Some((t, items, m, doc.len())),
                            _ => None,
                        },
                        _ => None,
                    },
                    _ => None,
                }
            }
        }
    }
}

fn collab_type_of_tag(t: u8) -> (r: Option<CollabType>)
    ensures
        r == type_of_tag(t),
{
    match t {
        0 => Some(CollabType::Document),
        1 => Some(CollabType::Database),
        2 => Some(CollabType::Folder),
        3 => Some(CollabType::WorkspaceDatabase),
        4 => Some(CollabType::UserAwareness),
        _ => None,
    }
}

/// Reads a full-sync request.
pub fn decode_full_sync_request(b: &[u8]) -> (r: Result<FullSyncRequest, SyncError>)
    ensures
        match r {
            Ok(req) => parse_full_sync(b@) == Some((req.collab_type, views(req.update@), req.state_vector@, req.update_size as nat)),
            Err(e) => e == SyncError::Decode && parse_full_sync(b@) is None,
        },
{
    let len = b.len();
    if len == 0 || len > MAX_BODY || len < 10 {
        return Err(SyncError::Decode);
    }
    let n1 = read_be_u32(b, 2) as usize;
    if n1 == 0 || n1 > len - 10 {
        return Err(SyncError::Decode);
    }
    let n2 = read_be_u32(b, 6 + n1) as usize;
    if n2 != len - 10 - n1 {
        return Err(SyncError::Decode);
    }
    let t = match collab_type_of_tag(b[0]) {
        Some(t) => t,
        None => return Err(SyncError::Decode),
    };
    let c = match b[1] {
        0 => Compression::Uncompressed,
        1 => Compression::Zstd,
        _ => return Err(SyncError::Decode),
    };
    let doc_raw = vstd::slice::slice_subrange(b, 6, 6 + n1);
    let sv_raw = vstd::slice::slice_subrange(b, 10 + n1, len);
    let doc = match decompress(doc_raw, c) {
        Ok(d) => d,
        Err(e) => return Err(e),
    };
    let sv_bytes = match decompress(sv_raw, c) {
        Ok(d) => d,
        Err(e) => return Err(e),
    };
    let update = match decode_snapshot(doc.as_slice()) {
        Ok(u) => u,
        Err(e) => return Err(e),
    };
    let state_vector = match decode_state_vector(sv_bytes.as_slice()) {
        Ok(s) => s,
        Err(e) => return Err(e),
    };
    Ok(FullSyncRequest { collab_type: t, update, state_vector, update_size: doc.len() })
}

/// Whether a list of items fits the snapshot format's length fields.
pub open spec fn fits_snapshot(items: Seq<Item>) -> bool {
    items.len() <= u32::MAX && forall|i: int| 0 <= i < items.len() ==> (#[trigger] items[i]).content@.len() <= u32::MAX
}

fn check_fits(items: &Vec<Item>) -> (r: bool)
    ensures
        r == fits_snapshot(items@),
{
    if items.len() > u32::MAX as usize {
        return false;
    }
    let mut i: usize = 0;
    while i < items.len()
        invariant
            i <= items@.len(),
            forall|k: int| 0 <= k < i ==> (#[trigger] items@[k]).content@.len() <= u32::MAX,
        decreases items@.len() - i,
    {
        if items[i].content.len() > u32::MAX as usize {
            return false;
        }
        i = i + 1;
    }
    true
}

/// Serves a full-sync request on the object's actor. The request is read
/// first (`Decode` when it is not a request, `Validation` when its type is
/// not the object's); then the caller's storage is checked
/// (`CapacityExceeded` when `current_usage` plus the unwrapped update's size
/// passes `limit`); then the update is merged (`Decode` when corrupt). Every
/// refusal leaves the object as it was. The answer is what the client
/// lacks, written as a snapshot and Zstandard-compressed, or `None` when it
/// lacks nothing; `Internal` only when that answer does not fit the
/// snapshot format or does not compress.
pub fn serve_full_sync(actor: &mut DocumentActor, body: &[u8], current_usage: u64, limit: u64) -> (r: Result<Option<Vec<u8>>, SyncError>)
    requires
        old(actor).wf(),
    ensures
        final(actor).wf(),
        final(actor).spec_object_id() == old(actor).spec_object_id(),
        final(actor).spec_workspace_id() == old(actor).spec_workspace_id(),
        final(actor).spec_collab_type() == old(actor).spec_collab_type(),
        r is Err && r != Err::<Option<Vec<u8>>, SyncError>(SyncError::Internal) ==> final(actor).state() == old(actor).state(),
        parse_full_sync(body@) is None ==> r == Err::<Option<Vec<u8>>, SyncError>(SyncError::Decode),
        parse_full_sync(body@) matches Some((t, u, sv, size)) ==> {
            &&& t != old(actor).spec_collab_type() ==> r == Err::<Option<Vec<u8>>, SyncError>(SyncError::Validation)
            &&& t == old(actor).spec_collab_type() && current_usage + size > limit
                ==> r == Err::<Option<Vec<u8>>, SyncError>(SyncError::CapacityExceeded)
            &&& t == old(actor).spec_collab_type() && current_usage + size <= limit && !mergeable(old(actor).state(), u.to_set())
                ==> r == Err::<Option<Vec<u8>>, SyncError>(SyncError::Decode)
            &&& t == old(actor).spec_collab_type() && current_usage + size <= limit && mergeable(old(actor).state(), u.to_set())
                ==> final(actor).state() == merged(old(actor).state(), u.to_set())
                && (r is Ok || r == Err::<Option<Vec<u8>>, SyncError>(SyncError::Internal))
            &&& r matches Ok(None) ==> diff(final(actor).state(), sv) == Set::<ItemView>::empty()
            &&& r matches Ok(Some(bytes)) ==> exists|d: Seq<ItemView>| #[trigger] d.to_set() == diff(final(actor).state(), sv)
                && d.to_set() != Set::<ItemView>::empty()
                && zstd_encoded(snapshot_bytes(d), DIFF_ZSTD_LEVEL) == Some(bytes@)
            &&& r == Err::<Option<Vec<u8>>, SyncError>(SyncError::Internal) ==> exists|d: Seq<Item>| #[trigger] set_of(d) == diff(final(actor).state(), sv)
                && set_of(d) != Set::<ItemView>::empty()
                && (!fits_snapshot(d) || zstd_encoded(snapshot_bytes(views(d)), DIFF_ZSTD_LEVEL) is None)
        },
{
    let req = match decode_full_sync_request(body) {
        Ok(req) => req,
        Err(e) => return Err(e),
    };
    if req.collab_type != actor.collab_type() {
        return Err(SyncError::Validation);
    }
    if (current_usage as u128) + (req.update_size as u128) > limit as u128 {
        return Err(SyncError::CapacityExceeded);
    }
    proof {
        lemma_set_of_views(req.update@);
    }
    match actor.full_sync(&req.update, &req.state_vector) {
        Err(e) => Err(e),
        Ok(None) => Ok(None),
        Ok(Some(d)) => {
            if !check_fits(&d) {
                return Err(SyncError::Internal);
            }
            let bytes = encode_snapshot(&d);
            proof {
                lemma_set_of_views(d@);
            }
            match compress_diff(bytes.as_slice()) {
                Ok(z) => Ok(Some(z)),
                Err(e) => Err(e),
            }
        },
    }
}

/// The items of a list are the set of its views.
pub proof fn lemma_set_of_views(s: Seq<Item>)
    ensures
        set_of(s) == views(s).to_set(),
{
    assert forall|x: ItemView| set_of(s).contains(x) implies views(s).to_set().contains(x) by {
        let i = choose|i: int| 0 <= i < s.len() && #[trigger] s[i]@ == x;
        assert(views(s)[i] == x);
    }
    assert forall|x: ItemView| views(s).to_set().contains(x) implies set_of(s).contains(x) by {
        let i = choose|i: int| 0 <= i < views(s).len() && views(s)[i] == x;
        assert(s[i]@ == x);
    }
    assert(set_of(s) =~= views(s).to_set());
}

} // verus!
