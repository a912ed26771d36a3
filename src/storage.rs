use vstd::prelude::*;
use crate::bytes::copy_bytes;
use crate::collab::{required_root, CollabType, SyncError, DOCUMENT_ROOT};
use crate::crdt::{Item, ItemView};
use crate::snapshot::{decode_snapshot, parse_snapshot, views};
use crate::text::str_equals;

verus! {

/// A stored object: workspace, object id, type, snapshot.
pub type RowView = (Seq<char>, Seq<char>, CollabType, Seq<u8>);

/// A durable copy of one object.
#[derive(Debug)]
pub struct StoredCollab {
    pub workspace_id: String,
    pub object_id: String,
    pub collab_type: CollabType,
    pub doc_state: Vec<u8>,
}

impl View for StoredCollab {
    type V = RowView;

    open spec fn view(&self) -> RowView {
        (self.workspace_id@, self.object_id@, self.collab_type, self.doc_state@)
    }
}

impl StoredCollab {
    pub fn duplicate(&self) -> (r: StoredCollab)
        ensures
            r@ == self@,
    {
        StoredCollab {
            workspace_id: self.workspace_id.clone(),
            object_id: self.object_id.clone(),
            collab_type: self.collab_type,
            doc_state: copy_bytes(self.doc_state.as_slice()),
        }
    }
}

/// Text of a document waiting to be indexed.
#[derive(Debug)]
pub struct PendingIndexTask {
    pub workspace_id: String,
    pub object_id: String,
    pub collab_type: CollabType,
    pub extracted_text: Vec<u8>,
}

/// Workspace, object id, type, text.
pub type TaskView = (Seq<char>, Seq<char>, CollabType, Seq<u8>);

impl View for PendingIndexTask {
    type V = TaskView;

    open spec fn view(&self) -> TaskView {
        (self.workspace_id@, self.object_id@, self.collab_type, self.extracted_text@)
    }
}

/// Whether the items hold the root container that the type requires.
pub open spec fn has_required_root(items: Seq<ItemView>, t: CollabType) -> bool {
    exists|i: int| 0 <= i < items.len() && (#[trigger] items[i]).2 == required_root(t)
}

/// The content of a document's block items, in order.
pub open spec fn document_text(items: Seq<ItemView>) -> Seq<u8>
    decreases items.len(),
{
    if items.len() == 0 {
        Seq::empty()
    } else {
        let rest = document_text(items.drop_last());
        if items.last().2 == DOCUMENT_ROOT {
            rest + items.last().3
        } else {
            rest
        }
    }
}

/// Whether `id` is stored under a workspace other than `workspace`.
pub open spec fn owned_elsewhere(rows: Seq<RowView>, workspace: Seq<char>, id: Seq<char>) -> bool {
    exists|k: int| 0 <= k < rows.len() && (#[trigger] rows[k]).1 == id && rows[k].0 != workspace
}

/// The rows after writing `row`: the row with its object id is replaced, or
/// `row` is added when there is none.
pub open spec fn upserted(rows: Seq<RowView>, row: RowView) -> Seq<RowView> {
    if exists|k: int| 0 <= k < rows.len() && (#[trigger] rows[k]).1 == row.1 {
        let k = choose|k: int| 0 <= k < rows.len() && (#[trigger] rows[k]).1 == row.1;
        rows.update(k, row)
    } else {
        rows.push(row)
    }
}

pub open spec fn ids_distinct(rows: Seq<RowView>) -> bool {
    forall|i: int, j: int|
        0 <= i < rows.len() && 0 <= j < rows.len() && i != j ==> (#[trigger] rows[i]).1 != (#[trigger] rows[j]).1
}

/// How a write of a snapshot ends.
pub open spec fn write_outcome(
    rows: Seq<RowView>,
    workspace: Seq<char>,
    id: Seq<char>,
    t: CollabType,
    snapshot: Seq<u8>,
    current_usage: u64,
    limit: u64,
) -> Result<(), SyncError> {
    if id == workspace {
        Err(SyncError::Validation)
    } else {
        match parse_snapshot(snapshot) {
        None => Err(SyncError::Decode),
        Some(items) => if !has_required_root(items, t) || owned_elsewhere(rows, workspace, id) {
            Err(SyncError::Validation)
        } else if current_usage + snapshot.len() > limit {
            Err(SyncError::CapacityExceeded)
        } else {
            Ok(())
        },
        }
    }
}

/// A write over the plan's byte limit is refused with `CapacityExceeded`
/// once the request itself is sound: the object id is not the workspace
/// id, the snapshot decodes and holds its type's root, and the object is
/// not stored under another workspace. (A write that is not sound is
/// refused for that first, and `write_snapshot` leaves the store unchanged
/// on every refusal.)
pub proof fn lemma_capacity_enforced(
    rows: Seq<RowView>,
    workspace: Seq<char>,
    id: Seq<char>,
    t: CollabType,
    snapshot: Seq<u8>,
    current_usage: u64,
    limit: u64,
)
    requires
        id != workspace,
        parse_snapshot(snapshot) matches Some(items) && has_required_root(items, t),
        !owned_elsewhere(rows, workspace, id),
        current_usage + snapshot.len() > limit,
    ensures
        write_outcome(rows, workspace, id, t, snapshot, current_usage, limit) == Err::<(), SyncError>(SyncError::CapacityExceeded),
{
}

/// The durable store of objects, with the queue of indexing work that
/// successful document writes leave behind.
pub struct CollabStore {
    rows: Vec<StoredCollab>,
    pending: Vec<PendingIndexTask>,
}

pub open spec fn row_views(rows: Seq<StoredCollab>) -> Seq<RowView> {
    rows.map_values(|r: StoredCollab| r@)
}

pub open spec fn task_views(tasks: Seq<PendingIndexTask>) -> Seq<TaskView> {
    tasks.map_values(|t: PendingIndexTask| t@)
}

/// Whether a document's items hold the root its type requires.
pub fn has_root(items: &Vec<Item>, t: CollabType) -> (r: bool)
    ensures
        r == has_required_root(views(items@), t),
{
    let root = t.required_root();
    let mut i: usize = 0;
    while i < items.len()
        invariant
            i <= items@.len(),
            root == required_root(t),
            forall|k: int| 0 <= k < i ==> (#[trigger] items@[k]).root != root,
        decreases items@.len() - i,
    {
        if items[i].root == root {
            assert(views(items@)[i as int].2 == root);
            return true;
        }
        i = i + 1;
    }
    assert forall|k: int| 0 <= k < views(items@).len() implies (#[trigger] views(items@)[k]).2 != root by {
        assert(views(items@)[k] == items@[k]@);
    }
    false
}

/// The text to index for a document: its block items' content, in order.
pub fn extract_text(items: &Vec<Item>) -> (r: Vec<u8>)
    ensures
        r@ == document_text(views(items@)),
{
    let mut out: Vec<u8> = Vec::new();
    let mut i: usize = 0;
    while i < items.len()
        invariant
            i <= items@.len(),
            out@ == document_text(views(items@.take(i as int))),
        decreases items@.len() - i,
    {
        let it = &items[i];
        proof {
            let v = views(items@.take(i + 1));
            assert(v.drop_last() =~= views(items@.take(i as int)));
            assert(v.last() == it@);
        }
        if it.root == DOCUMENT_ROOT {
            let mut j: usize = 0;
            let ghost start = out@;
            while j < it.content.len()
                invariant
                    j <= it.content@.len(),
                    out@ == start + it.content@.subrange(0, j as int),
                decreases it.content@.len() - j,
            {
                out.push(it.content[j]);
                assert(it.content@.subrange(0, j + 1) == it.content@.subrange(0, j as int).push(it.content@[j as int]));
                assert(out@ =~= start + it.content@.subrange(0, j + 1));
                j = j + 1;
            }
            assert(it.content@.subrange(0, it.content@.len() as int) == it.content@);
        }
        i = i + 1;
    }
    assert(items@.take(items@.len() as int) == items@);
    out
}

impl CollabStore {
    pub closed spec fn spec_rows(&self) -> Seq<RowView> {
        row_views(self.rows@)
    }

    pub closed spec fn spec_pending(&self) -> Seq<TaskView> {
        task_views(self.pending@)
    }

    pub open spec fn wf(&self) -> bool {
        ids_distinct(self.spec_rows())
    }

    /// An empty store.
    pub fn new() -> (r: CollabStore)
        ensures
            r.wf(),
            r.spec_rows() == Seq::<RowView>::empty(),
            r.spec_pending() == Seq::<TaskView>::empty(),
    {
        let r = CollabStore { rows: Vec::new(), pending: Vec::new() };
        assert(r.spec_rows() =~= Seq::<RowView>::empty());
        assert(r.spec_pending() =~= Seq::<TaskView>::empty());
        r
    }

    /// Where `object_id` is stored, if anywhere.
    pub fn find(&self, object_id: &str) -> (r: Option<usize>)
        ensures
            r matches Some(k) ==> k < self.spec_rows().len() && self.spec_rows()[k as int].1 == object_id@,
            r is None ==> forall|k: int| 0 <= k < self.spec_rows().len() ==> (#[trigger] self.spec_rows()[k]).1 != object_id@,
    {
        let mut k: usize = 0;
        while k < self.rows.len()
            invariant
                k <= self.rows@.len(),
                forall|j: int| 0 <= j < k ==> (#[trigger] self.spec_rows()[j]).1 != object_id@,
            decreases self.rows@.len() - k,
        {
            if str_equals(self.rows[k].object_id.as_str(), object_id) {
                return Some(k);
            }
            k = k + 1;
        }
        None
    }

    /// The stored snapshot of `object_id`.
    pub fn doc_state(&self, object_id: &str) -> (r: Result<Vec<u8>, SyncError>)
        ensures
            match r {
                Ok(v) => exists|k: int| 0 <= k < self.spec_rows().len() && (#[trigger] self.spec_rows()[k]).1 == object_id@
                    && self.spec_rows()[k].3 == v@,
                Err(e) => e == SyncError::NotFound && forall|k: int| 0 <= k < self.spec_rows().len() ==> (#[trigger] self.spec_rows()[k]).1 != object_id@,
            },
    {
        match self.find(object_id) {
            Some(k) => {
                let v = copy_bytes(self.rows[k].doc_state.as_slice());
                assert(self.spec_rows()[k as int].3 == v@);
                Ok(v)
            },
            None => Err(SyncError::NotFound),
        }
    }

    /// The number of stored objects.
    pub fn len(&self) -> (r: usize)
        ensures
            r == self.spec_rows().len(),
    {
        self.rows.len()
    }

    /// The indexing work queued so far, oldest first.
    pub fn pending_index_tasks(&self) -> (r: &Vec<PendingIndexTask>)
        ensures
            task_views(r@) == self.spec_pending(),
    {
        &self.pending
    }

    pub(crate) fn owned_elsewhere(&self, workspace_id: &str, object_id: &str) -> (r: bool)
        ensures
            r == owned_elsewhere(self.spec_rows(), workspace_id@, object_id@),
    {
        let mut k: usize = 0;
        while k < self.rows.len()
            invariant
                k <= self.rows@.len(),
                forall|j: int| 0 <= j < k ==> !((#[trigger] self.spec_rows()[j]).1 == object_id@ && self.spec_rows()[j].0 != workspace_id@),
            decreases self.rows@.len() - k,
        {
            if str_equals(self.rows[k].object_id.as_str(), object_id)
                && !str_equals(self.rows[k].workspace_id.as_str(), workspace_id) {
                assert(self.spec_rows()[k as int].1 == object_id@);
                return true;
            }
            k = k + 1;
        }
        false
    }

    /// Inserts or replaces the row of `row.object_id`.
    pub(crate) fn upsert(&mut self, row: StoredCollab)
        requires
            old(self).wf(),
        ensures
            final(self).wf(),
            final(self).spec_rows() == upserted(old(self).spec_rows(), row@),
            final(self).spec_pending() == old(self).spec_pending(),
    {
        let ghost rv = row@;
        let ghost before = self.spec_rows();
        match self.find(row.object_id.as_str()) {
            Some(k) => {
                self.rows.set(k, row);
                proof {
                    assert(self.spec_rows() =~= before.update(k as int, rv));
                    let kk = choose|kk: int| 0 <= kk < before.len() && (#[trigger] before[kk]).1 == rv.1;
                    assert(kk == k);
                }
            },
            None => {
                self.rows.push(row);
                assert(self.spec_rows() =~= before.push(rv));
            },
        }
    }

    /// Queues indexing work.
    pub(crate) fn queue_index_task(&mut self, task: PendingIndexTask)
        ensures
            final(self).spec_rows() == old(self).spec_rows(),
            final(self).spec_pending() == old(self).spec_pending().push(task@),
    {
        let ghost before = self.spec_pending();
        self.pending.push(task);
        assert(self.spec_pending() =~= before.push(task@));
    }

    /// Persists a snapshot of an object. An object id equal to its
    /// workspace id is refused (`Validation`): only the workspace's folder
    /// has that id, and it is made with the workspace. The snapshot is then decoded, checked
    /// against its type's required structure and against the plan's byte
    /// limit, in that order, before anything is written; any failure leaves
    /// the store exactly as it was. A document write then queues its text
    /// for indexing.
    pub fn write_snapshot(
        &mut self,
        workspace_id: &str,
        object_id: &str,
        collab_type: CollabType,
        snapshot: &[u8],
        current_usage: u64,
        limit: u64,
    ) -> (r: Result<(), SyncError>)
        requires
            old(self).wf(),
        ensures
            final(self).wf(),
            r == write_outcome(old(self).spec_rows(), workspace_id@, object_id@, collab_type, snapshot@, current_usage, limit),
            r is Err ==> final(self).spec_rows() == old(self).spec_rows()
                && final(self).spec_pending() == old(self).spec_pending(),
            r is Ok ==> final(self).spec_rows() == upserted(old(self).spec_rows(), (workspace_id@, object_id@, collab_type, snapshot@)),
            r is Ok && collab_type == CollabType::Document ==> final(self).spec_pending() == old(self).spec_pending().push(
                (workspace_id@, object_id@, collab_type, document_text(parse_snapshot(snapshot@)->0)),
            ),
            r is Ok && collab_type != CollabType::Document ==> final(self).spec_pending() == old(self).spec_pending(),
    {
        if str_equals(object_id, workspace_id) {
            return Err(SyncError::Validation);
        }
        let items = match decode_snapshot(snapshot) {
            Ok(items) => items,
            Err(e) => return Err(e),
        };
        if !has_root(&items, collab_type) || self.owned_elsewhere(workspace_id, object_id) {
            return Err(SyncError::Validation);
        }
        if (current_usage as u128) + (snapshot.len() as u128) > limit as u128 {
            return Err(SyncError::CapacityExceeded);
        }
        let row = StoredCollab {
            workspace_id: workspace_id.to_owned(),
            object_id: object_id.to_owned(),
            collab_type,
            doc_state: copy_bytes(snapshot),
        };
        self.upsert(row);
        if collab_type.is_indexable() {
            let task = PendingIndexTask {
                workspace_id: workspace_id.to_owned(),
                object_id: object_id.to_owned(),
                collab_type,
                extracted_text: extract_text(&items),
            };
            let ghost before = self.spec_pending();
            self.pending.push(task);
            assert(self.spec_pending() =~= before.push(self.pending@.last()@));
        }
        Ok(())
    }
}

} // verus!
