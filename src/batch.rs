use vstd::prelude::*;
use crate::collab::{CollabType, SyncError};
use crate::envelope::{be_u32, decompress, unwrapped, Compression, MAX_DATA_FRAME, MAX_METADATA_FRAME, read_be_u32};
use crate::snapshot::{decode_snapshot, parse_snapshot, views};
use crate::storage::{
    document_text, extract_text, has_required_root, has_root, owned_elsewhere, upserted,
    CollabStore, PendingIndexTask, RowView, StoredCollab, TaskView,
};
use crate::bytes::copy_bytes;
use crate::text::push_char;

verus! {

/// Where a metadata frame's and its data frame's payloads lie: (start,
/// length) of each.
pub type FramePair = ((nat, nat), (nat, nat));

/// The frame pairs of a batch body from `off` on, up to the zero-length
/// metadata frame that ends it; `None` where the body is cut short, lacks
/// the end mark, or has a frame over its size cap.
pub open spec fn batch_from(b: Seq<u8>, off: nat) -> Option<Seq<FramePair>>
    decreases b.len() - off,
{
    if off + 4 > b.len() {
        None
    } else {
        let m = be_u32(b, off as int);
        if m == 0 {
            Some(Seq::empty())
        } else if m > MAX_METADATA_FRAME || off + 8 + m > b.len() {
            None
        } else {
            let d = be_u32(b, off + 4int + m);
            if d > MAX_DATA_FRAME || off + 8 + m + d > b.len() {
                None
            } else {
                match batch_from(b, off + 8 + m + d) {
                    Some(rest) => Some(seq![((off + 4, m), (off + 8 + m, d))] + rest),
                    None => None,
                }
            }
        }
    }
}

/// The collab type that a metadata tag names.
pub open spec fn type_of_tag(t: u8) -> Option<CollabType> {
    if t == 0 {
        Some(CollabType::Document)
    } else if t == 1 {
        Some(CollabType::Database)
    } else if t == 2 {
        Some(CollabType::Folder)
    } else if t == 3 {
        Some(CollabType::WorkspaceDatabase)
    } else if t == 4 {
        Some(CollabType::UserAwareness)
    } else {
        None
    }
}

/// The characters that ASCII bytes spell.
pub open spec fn ascii_text(b: Seq<u8>) -> Seq<char> {
    b.map_values(|x: u8| x as char)
}

pub open spec fn is_ascii_id(b: Seq<u8>) -> bool {
    b.len() > 0 && forall|i: int| 0 <= i < b.len() ==> (#[trigger] b[i]) < 128
}

/// What a metadata frame says: a collab type tag, then the object id in
/// ASCII.
pub open spec fn parse_metadata(meta: Seq<u8>) -> Option<(CollabType, Seq<char>)> {
    if meta.len() < 2 || !is_ascii_id(meta.drop_first()) {
        None
    } else {
        match type_of_tag(meta[0]) {
            Some(t) => Some((t, ascii_text(meta.drop_first()))),
            None => None,
        }
    }
}

/// The object that one frame pair carries, as it would be stored, when the
/// pair is valid: readable metadata, a payload that unwraps to a snapshot
/// holding its type's required root, and an object id not stored under
/// another workspace.
pub open spec fn entry_of(
    rows: Seq<RowView>,
    workspace: Seq<char>,
    meta: Seq<u8>,
    data: Seq<u8>,
    c: Compression,
) -> Option<RowView> {
    match parse_metadata(meta) {
        None => None,
        Some((t, id)) => match unwrapped(data, c) {
            None => None,
            Some(snapshot) => match parse_snapshot(snapshot) {
                None => None,
                Some(items) => if has_required_root(items, t) && !owned_elsewhere(rows, workspace, id) {
                    Some((workspace, id, t, snapshot))
                } else {
                    None
                },
            },
        },
    }
}

pub open spec fn slice_of(b: Seq<u8>, r: (nat, nat)) -> Seq<u8> {
    b.subrange(r.0 as int, r.0 + r.1 as int)
}

/// The valid objects of a batch, in frame order.
pub open spec fn valid_entries(
    rows: Seq<RowView>,
    workspace: Seq<char>,
    b: Seq<u8>,
    pairs: Seq<FramePair>,
    c: Compression,
) -> Seq<RowView>
    decreases pairs.len(),
{
    if pairs.len() == 0 {
        Seq::empty()
    } else {
        let rest = valid_entries(rows, workspace, b, pairs.drop_last(), c);
        let p = pairs.last();
        match entry_of(rows, workspace, slice_of(b, p.0), slice_of(b, p.1), c) {
            Some(e) => rest.push(e),
            None => rest,
        }
    }
}

pub open spec fn total_size(entries: Seq<RowView>) -> nat
    decreases entries.len(),
{
    if entries.len() == 0 {
        0
    } else {
        total_size(entries.drop_last()) + entries.last().3.len()
    }
}

/// The rows after writing each entry in turn.
pub open spec fn upserted_all(rows: Seq<RowView>, entries: Seq<RowView>) -> Seq<RowView>
    decreases entries.len(),
{
    if entries.len() == 0 {
        rows
    } else {
        upserted(upserted_all(rows, entries.drop_last()), entries.last())
    }
}

/// The indexing work that the documents among the entries leave.
pub open spec fn index_tasks(entries: Seq<RowView>) -> Seq<TaskView>
    decreases entries.len(),
{
    if entries.len() == 0 {
        Seq::empty()
    } else {
        let rest = index_tasks(entries.drop_last());
        let e = entries.last();
        if e.2 == CollabType::Document {
            rest.push((e.0, e.1, e.2, document_text(parse_snapshot(e.3)->0)))
        } else {
            rest
        }
    }
}

/// How many frame pairs of a batch are invalid.
pub open spec fn invalid_count(
    rows: Seq<RowView>,
    workspace: Seq<char>,
    b: Seq<u8>,
    pairs: Seq<FramePair>,
    c: Compression,
) -> nat
    decreases pairs.len(),
{
    if pairs.len() == 0 {
        0
    } else {
        let rest = invalid_count(rows, workspace, b, pairs.drop_last(), c);
        let p = pairs.last();
        if entry_of(rows, workspace, slice_of(b, p.0), slice_of(b, p.1), c) is Some {
            rest
        } else {
            rest + 1
        }
    }
}

/// A batch is never all or nothing: every frame pair that is valid is kept
/// and every invalid one is dropped on its own, so the kept and the dropped
/// add up to the whole batch.
pub proof fn lemma_batch_partial_tolerance(
    rows: Seq<RowView>,
    workspace: Seq<char>,
    b: Seq<u8>,
    pairs: Seq<FramePair>,
    c: Compression,
)
    ensures
        valid_entries(rows, workspace, b, pairs, c).len() + invalid_count(rows, workspace, b, pairs, c)
            == pairs.len(),
    decreases pairs.len(),
{
    if pairs.len() > 0 {
        lemma_batch_partial_tolerance(rows, workspace, b, pairs.drop_last(), c);
    }
}

/// How many frame pairs of a batch were stored and how many dropped.
#[derive(Debug, Clone, Copy, PartialEq, Eq, Structural)]
pub struct BatchReport {
    pub inserted: usize,
    pub dropped: usize,
}

/// Splits a batch body into its frame pairs.
pub fn split_batch(b: &[u8]) -> (r: Result<Vec<((usize, usize), (usize, usize))>, SyncError>)
    ensures
        match r {
            Ok(v) => batch_from(b@, 0) matches Some(ps) && ps.len() == v@.len()
                && forall|i: int| 0 <= i < v@.len() ==> ((#[trigger] v@[i]).0.0 as nat, v@[i].0.1 as nat) == ps[i].0
                    && (v@[i].1.0 as nat, v@[i].1.1 as nat) == ps[i].1,
            Err(e) => e == SyncError::Decode && batch_from(b@, 0) is None,
        },
{
    let mut out: Vec<((usize, usize), (usize, usize))> = Vec::new();
    let ghost done: Seq<FramePair> = Seq::empty();
    let mut cur: usize = 0;
    loop
        invariant
            cur <= b@.len(),
            done.len() == out@.len(),
            forall|i: int| 0 <= i < out@.len() ==> ((#[trigger] out@[i]).0.0 as nat, out@[i].0.1 as nat) == done[i].0
                && (out@[i].1.0 as nat, out@[i].1.1 as nat) == done[i].1,
            batch_from(b@, 0) == match batch_from(b@, cur as nat) {
                Some(rest) => Some(done + rest),
                None => None::<Seq<FramePair>>,
            },
        decreases b@.len() - cur,
    {
        if b.len() - cur < 4 {
            return Err(SyncError::Decode);
        }
        let m = read_be_u32(b, cur);
        if m == 0 {
            assert(done + Seq::<FramePair>::empty() =~= done);
            return Ok(out);
        }
        if m > MAX_METADATA_FRAME || b.len() - cur - 4 < (m as usize) + 4 {
            return Err(SyncError::Decode);
        }
        let mu = m as usize;
        let d = read_be_u32(b, cur + 4 + mu);
        if d > MAX_DATA_FRAME || b.len() - cur - 8 - mu < d as usize {
            return Err(SyncError::Decode);
        }
        let du = d as usize;
        out.push(((cur + 4, mu), (cur + 8 + mu, du)));
        proof {
            let p: FramePair = ((cur as nat + 4, mu as nat), ((cur + 8 + mu) as nat, du as nat));
            let next = (cur + 8 + mu + du) as nat;
            let old_done = done;
            done = done.push(p);
            match batch_from(b@, next) {
                Some(rest) => {
                    assert(old_done + (seq![p] + rest) =~= done + rest);
                },
                None => {},
            }
        }
        cur = cur + 8 + mu + du;
    }
}

/// The object id that ASCII bytes spell.
fn ascii_to_string(b: &[u8]) -> (r: String)
    requires
        forall|i: int| 0 <= i < b@.len() ==> (#[trigger] b@[i]) < 128,
    ensures
        r@ == ascii_text(b@),
{
    let mut s = String::new();
    let mut i: usize = 0;
    while i < b.len()
        invariant
            i <= b@.len(),
            s@ == ascii_text(b@.subrange(0, i as int)),
        decreases b@.len() - i,
    {
        push_char(&mut s, b[i] as char);
        assert(ascii_text(b@.subrange(0, i + 1)) =~= ascii_text(b@.subrange(0, i as int)).push(b@[i as int] as char));
        i = i + 1;
    }
    assert(b@.subrange(0, b@.len() as int) == b@);
    s
}

/// Reads a metadata frame.
pub fn read_metadata(meta: &[u8]) -> (r: Option<(CollabType, String)>)
    ensures
        match r {
            Some((t, id)) => parse_metadata(meta@) == Some((t, id@)),
            None => parse_metadata(meta@) is None,
        },
{
    if meta.len() < 2 {
        return None;
    }
    let t = match meta[0] {
        0 => CollabType::Document,
        1 => CollabType::Database,
        2 => CollabType::Folder,
        3 => CollabType::WorkspaceDatabase,
        4 => CollabType::UserAwareness,
        _ => return None,
    };
    let mut i: usize = 1;
    while i < meta.len()
        invariant
            1 <= i <= meta@.len(),
            forall|k: int| 1 <= k < i ==> (#[trigger] meta@[k]) < 128,
        decreases meta@.len() - i,
    {
        if meta[i] >= 128 {
            assert(meta@.drop_first()[i - 1] == meta@[i as int]);
            return None;
        }
        i = i + 1;
    }
    let id_bytes = slice_subrange(meta, 1, meta.len());
    assert(id_bytes@ =~= meta@.drop_first());
    Some((t, ascii_to_string(id_bytes)))
}

fn slice_subrange(b: &[u8], from: usize, to: usize) -> (r: &[u8])
    requires
        from <= to <= b@.len(),
    ensures
        r@ == b@.subrange(from as int, to as int),
{
    vstd::slice::slice_subrange(b, from, to)
}

proof fn lemma_batch_in_bounds(b: Seq<u8>, off: nat)
    requires
        batch_from(b, off) is Some,
    ensures
        forall|i: int| 0 <= i < batch_from(b, off)->0.len() ==>
            (#[trigger] batch_from(b, off)->0[i]).0.0 + batch_from(b, off)->0[i].0.1 <= b.len()
            && batch_from(b, off)->0[i].1.0 + batch_from(b, off)->0[i].1.1 <= b.len(),
    decreases b.len() - off,
{
    let m = be_u32(b, off as int);
    if m != 0 {
        let d = be_u32(b, off + 4int + m);
        let next = off + 8 + m + d;
        lemma_batch_in_bounds(b, next);
        let ps = batch_from(b, off)->0;
        let rest = batch_from(b, next)->0;
        assert forall|i: int| 0 <= i < ps.len() implies
            (#[trigger] ps[i]).0.0 + ps[i].0.1 <= b.len() && ps[i].1.0 + ps[i].1.1 <= b.len() by {
            if i > 0 {
                assert(ps[i] == rest[i - 1]);
            }
        }
    }
}

proof fn lemma_valid_entries_len(
    rows: Seq<RowView>,
    workspace: Seq<char>,
    b: Seq<u8>,
    pairs: Seq<FramePair>,
    c: Compression,
)
    ensures
        valid_entries(rows, workspace, b, pairs, c).len() <= pairs.len(),
    decreases pairs.len(),
{
    if pairs.len() > 0 {
        lemma_valid_entries_len(rows, workspace, b, pairs.drop_last(), c);
    }
}

/// The object that one frame pair carries, with the text to index when it
/// is a document.
fn prepare_entry(
    store: &CollabStore,
    workspace_id: &str,
    meta: &[u8],
    data: &[u8],
    c: Compression,
) -> (r: Option<(StoredCollab, Vec<u8>)>)
    ensures
        match r {
            Some((row, text)) => entry_of(store.spec_rows(), workspace_id@, meta@, data@, c) == Some(row@)
                && text@ == document_text(parse_snapshot(row@.3)->0),
            None => entry_of(store.spec_rows(), workspace_id@, meta@, data@, c) is None,
        },
{
    let (t, id) = match read_metadata(meta) {
        Some(m) => m,
        None => return None,
    };
    let snapshot = match decompress(data, c) {
        Ok(v) => v,
        Err(_) => return None,
    };
    let items = match decode_snapshot(snapshot.as_slice()) {
        Ok(items) => items,
        Err(_) => return None,
    };
    if !has_root(&items, t) || store.owned_elsewhere(workspace_id, id.as_str()) {
        return None;
    }
    let text = extract_text(&items);
    let row = StoredCollab { workspace_id: workspace_id.to_owned(), object_id: id, collab_type: t, doc_state: snapshot };
    Some((row, text))
}

pub open spec fn row_seq(v: Seq<(StoredCollab, Vec<u8>)>) -> Seq<RowView> {
    v.map_values(|e: (StoredCollab, Vec<u8>)| e.0@)
}

impl CollabStore {
    /// Stores every valid object of a batch body. The body is split into
    /// frame pairs first; a body that is cut short, lacks its end mark or has
    /// an oversized frame is refused with `Decode`. Each pair is then checked
    /// on its own and an invalid one is dropped, not the batch. A batch with
    /// no valid pair is refused with `Validation`; one whose valid objects
    /// together would pass the plan's byte limit with `CapacityExceeded`.
    /// Nothing is written unless all of these pass; then every valid object
    /// is written, in frame order, and only after that are the documents
    /// queued for indexing.
    pub fn ingest_batch(
        &mut self,
        workspace_id: &str,
        body: &[u8],
        c: Compression,
        current_usage: u64,
        limit: u64,
    ) -> (r: Result<BatchReport, SyncError>)
        requires
            old(self).wf(),
        ensures
            final(self).wf(),
            (r == Err::<BatchReport, SyncError>(SyncError::Decode)) == (batch_from(body@, 0) is None),
            r is Err ==> final(self).spec_rows() == old(self).spec_rows()
                && final(self).spec_pending() == old(self).spec_pending(),
            batch_from(body@, 0) matches Some(ps) ==> {
                let es = valid_entries(old(self).spec_rows(), workspace_id@, body@, ps, c);
                &&& (r == Err::<BatchReport, SyncError>(SyncError::Validation)) == (es.len() == 0)
                &&& (r == Err::<BatchReport, SyncError>(SyncError::CapacityExceeded)) == (es.len() > 0
                    && current_usage + total_size(es) > limit)
                &&& (es.len() > 0 && current_usage + total_size(es) <= limit) ==> r is Ok
                &&& r matches Ok(rep) ==> {
                    &&& rep.inserted == es.len()
                    &&& rep.inserted + rep.dropped == ps.len()
                    &&& rep.dropped == invalid_count(old(self).spec_rows(), workspace_id@, body@, ps, c)
                    &&& final(self).spec_rows() == upserted_all(old(self).spec_rows(), es)
                    &&& final(self).spec_pending() == old(self).spec_pending() + index_tasks(es)
                }
            },
    {
        let pairs = match split_batch(body) {
            Ok(p) => p,
            Err(e) => return Err(e),
        };
        let ghost ps = batch_from(body@, 0)->0;
        let ghost rows0 = self.spec_rows();
        proof {
            lemma_batch_in_bounds(body@, 0);
        }
        let mut valid: Vec<(StoredCollab, Vec<u8>)> = Vec::new();
        let mut total: u64 = 0;
        let mut over = current_usage > limit;
        let blen = body.len();
        let mut i: usize = 0;
        while i < pairs.len()
            invariant
                self.wf(),
                self.spec_rows() == rows0,
                blen == body@.len(),
                ps == batch_from(body@, 0)->0,
                i <= pairs@.len(),
                pairs@.len() == ps.len(),
                forall|k: int| 0 <= k < pairs@.len() ==> ((#[trigger] pairs@[k]).0.0 as nat, pairs@[k].0.1 as nat) == ps[k].0
                    && (pairs@[k].1.0 as nat, pairs@[k].1.1 as nat) == ps[k].1,
                forall|k: int| 0 <= k < ps.len() ==> (#[trigger] ps[k]).0.0 + ps[k].0.1 <= body@.len()
                    && ps[k].1.0 + ps[k].1.1 <= body@.len(),
                row_seq(valid@) == valid_entries(rows0, workspace_id@, body@, ps.take(i as int), c),
                forall|k: int| 0 <= k < valid@.len() ==> (#[trigger] valid@[k]).1@ == document_text(parse_snapshot(valid@[k].0@.3)->0),
                !over ==> total as nat == total_size(row_seq(valid@)) && current_usage + total <= limit,
                over ==> current_usage + total_size(row_seq(valid@)) > limit,
            decreases pairs@.len() - i,
        {
            let (mr, dr) = pairs[i];
            assert(ps[i as int].0.0 + ps[i as int].0.1 <= blen);
            assert(ps[i as int].1.0 + ps[i as int].1.1 <= blen);
            let meta = slice_subrange(body, mr.0, mr.0 + mr.1);
            let data = slice_subrange(body, dr.0, dr.0 + dr.1);
            let ghost before = valid@;
            proof {
                assert(ps.take(i + 1).drop_last() =~= ps.take(i as int));
                assert(ps.take(i + 1).last() == ps[i as int]);
            }
            match prepare_entry(self, workspace_id, meta, data, c) {
                Some(e) => {
                    let n = e.0.doc_state.len();
                    valid.push(e);
                    proof {
                        assert(row_seq(valid@) =~= row_seq(before).push(valid@.last().0@));
                        assert(row_seq(valid@).drop_last() =~= row_seq(before));
                    }
                    if !over {
                        if (current_usage as u128) + (total as u128) + (n as u128) > limit as u128 {
                            over = true;
                        } else {
                            total = total + n as u64;
                        }
                    }
                },
                None => {},
            }
            i = i + 1;
        }
        assert(ps.take(ps.len() as int) =~= ps);
        if valid.len() == 0 {
            return Err(SyncError::Validation);
        }
        if over {
            return Err(SyncError::CapacityExceeded);
        }
        let ghost es = row_seq(valid@);
        let ghost pend0 = self.spec_pending();
        proof {
            lemma_valid_entries_len(rows0, workspace_id@, body@, ps, c);
            lemma_batch_partial_tolerance(rows0, workspace_id@, body@, ps, c);
        }
        let mut j: usize = 0;
        while j < valid.len()
            invariant
                self.wf(),
                es == row_seq(valid@),
                j <= valid@.len(),
                self.spec_rows() == upserted_all(rows0, es.take(j as int)),
                self.spec_pending() == pend0,
            decreases valid@.len() - j,
        {
            let row = valid[j].0.duplicate();
            self.upsert(row);
            proof {
                assert(es.take(j + 1).drop_last() =~= es.take(j as int));
                assert(es.take(j + 1).last() == valid@[j as int].0@);
            }
            j = j + 1;
        }
        assert(es.take(es.len() as int) =~= es);
        let mut j: usize = 0;
        proof {
            assert(pend0 + index_tasks(es.take(0)) =~= pend0);
        }
        while j < valid.len()
            invariant
                self.wf(),
                es == row_seq(valid@),
                j <= valid@.len(),
                forall|k: int| 0 <= k < valid@.len() ==> (#[trigger] valid@[k]).1@ == document_text(parse_snapshot(valid@[k].0@.3)->0),
                self.spec_rows() == upserted_all(rows0, es),
                self.spec_pending() == pend0 + index_tasks(es.take(j as int)),
            decreases valid@.len() - j,
        {
            let e = &valid[j];
            proof {
                assert(es.take(j + 1).drop_last() =~= es.take(j as int));
                assert(es.take(j + 1).last() == e.0@);
            }
            if e.0.collab_type.is_indexable() {
                let task = PendingIndexTask {
                    workspace_id: e.0.workspace_id.clone(),
                    object_id: e.0.object_id.clone(),
                    collab_type: e.0.collab_type,
                    extracted_text: copy_bytes(e.1.as_slice()),
                };
                self.queue_index_task(task);
                assert(self.spec_pending() =~= pend0 + index_tasks(es.take(j + 1)));
            }
            j = j + 1;
        }
        assert(es.take(es.len() as int) =~= es);
        let n = valid.len();
        Ok(BatchReport { inserted: n, dropped: pairs.len() - n })
    }
}

} // verus!
