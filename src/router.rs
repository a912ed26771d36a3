use vstd::prelude::*;
use crate::actor::{without_sessions, views_of, DocumentActor};
use crate::collab::{CollabType, SyncError};
use crate::crdt::{mergeable, set_of, Item, ItemView};
use crate::laws::{apply_in_order, lemma_apply_in_order_head};
use crate::text::str_equals;

verus! {

/// An actor's workspace, object, state, and queued updates, oldest first.
pub type SlotView = (Seq<char>, Seq<char>, Set<ItemView>, Seq<Set<ItemView>>);

/// One live actor and its mailbox.
pub struct Slot {
    actor: DocumentActor,
    mailbox: Vec<Vec<Item>>,
}

impl View for Slot {
    type V = SlotView;

    closed spec fn view(&self) -> SlotView {
        (
            self.actor.spec_workspace_id(),
            self.actor.spec_object_id(),
            self.actor.state(),
            self.mailbox@.map_values(|u: Vec<Item>| set_of(u@)),
        )
    }
}

impl Slot {
    pub closed spec fn wf(&self) -> bool {
        self.actor.wf()
    }
}

pub open spec fn slot_views(s: Seq<Slot>) -> Seq<SlotView> {
    s.map_values(|x: Slot| x@)
}

/// No two actors own one object.
pub open spec fn slots_distinct(slots: Seq<SlotView>) -> bool {
    forall|i: int, j: int|
        0 <= i < slots.len() && 0 <= j < slots.len() && i != j ==> (#[trigger] slots[i]).1 != (#[trigger] slots[j]).1
}

/// What routing to `object_id` in `workspace_id` answers: `NotFound` when
/// another workspace owns the object, `Busy` when its mailbox is full or,
/// with no actor yet, when the table is full; `Ok` otherwise.
pub open spec fn route_outcome(
    slots: Seq<SlotView>,
    workspace_id: Seq<char>,
    object_id: Seq<char>,
    capacity: usize,
    max_actors: usize,
) -> Result<(), SyncError> {
    if exists|k: int| 0 <= k < slots.len() && (#[trigger] slots[k]).1 == object_id {
        let k = choose|k: int| 0 <= k < slots.len() && (#[trigger] slots[k]).1 == object_id;
        if slots[k].0 != workspace_id {
            Err(SyncError::NotFound)
        } else if slots[k].3.len() >= capacity {
            Err(SyncError::Busy)
        } else {
            Ok(())
        }
    } else if slots.len() >= max_actors {
        Err(SyncError::Busy)
    } else {
        Ok(())
    }
}

/// Maps each (workspace, object) to the one actor that owns the object,
/// spawning actors on first use. Admission never waits: a full mailbox, or
/// a full table when a new actor would be needed, is refused with `Busy`.
pub struct Router {
    slots: Vec<Slot>,
    mailbox_capacity: usize,
    max_actors: usize,
}

impl Router {
    pub closed spec fn spec_slots(&self) -> Seq<SlotView> {
        slot_views(self.slots@)
    }

    /// The subscribers of each actor, in the order of `spec_slots`.
    pub closed spec fn spec_subscribers(&self) -> Seq<Seq<Seq<char>>> {
        self.slots@.map_values(|x: Slot| x.actor.spec_subscribers())
    }

    pub closed spec fn spec_mailbox_capacity(&self) -> usize {
        self.mailbox_capacity
    }

    pub closed spec fn spec_max_actors(&self) -> usize {
        self.max_actors
    }

    pub closed spec fn wf(&self) -> bool {
        &&& forall|k: int| 0 <= k < self.slots@.len() ==> (#[trigger] self.slots@[k]).wf()
        &&& forall|i: int, j: int|
            0 <= i < self.slots@.len() && 0 <= j < self.slots@.len() && i != j
                ==> (#[trigger] self.slots@[i]@).1 != (#[trigger] self.slots@[j]@).1
        &&& self.mailbox_capacity > 0
    }

    /// Each object has at most one actor.
    pub proof fn lemma_ids_distinct(&self)
        requires
            self.wf(),
        ensures
            slots_distinct(self.spec_slots()),
            self.spec_mailbox_capacity() > 0,
    {
        assert forall|i: int, j: int|
            0 <= i < self.spec_slots().len() && 0 <= j < self.spec_slots().len() && i != j
                implies (#[trigger] self.spec_slots()[i]).1 != (#[trigger] self.spec_slots()[j]).1 by {
            assert(self.spec_slots()[i] == self.slots@[i]@);
            assert(self.spec_slots()[j] == self.slots@[j]@);
        }
    }

    /// A router with no actor. Each mailbox holds at most `mailbox_capacity`
    /// updates and at most `max_actors` actors live at once.
    pub fn new(mailbox_capacity: usize, max_actors: usize) -> (r: Router)
        requires
            mailbox_capacity > 0,
        ensures
            r.wf(),
            r.spec_slots() == Seq::<SlotView>::empty(),
            r.spec_mailbox_capacity() == mailbox_capacity,
            r.spec_max_actors() == max_actors,
    {
        let r = Router { slots: Vec::new(), mailbox_capacity, max_actors };
        assert(r.spec_slots() =~= Seq::<SlotView>::empty());
        r
    }

    /// The number of live actors.
    pub fn len(&self) -> (r: usize)
        ensures
            r == self.spec_slots().len(),
    {
        self.slots.len()
    }

    fn find(&self, object_id: &str) -> (r: Option<usize>)
        ensures
            r matches Some(k) ==> k < self.spec_slots().len() && self.spec_slots()[k as int].1 == object_id@,
            r is None ==> forall|k: int| 0 <= k < self.spec_slots().len() ==> (#[trigger] self.spec_slots()[k]).1 != object_id@,
    {
        let mut k: usize = 0;
        while k < self.slots.len()
            invariant
                k <= self.slots@.len(),
                forall|j: int| 0 <= j < k ==> (#[trigger] self.spec_slots()[j]).1 != object_id@,
            decreases self.slots@.len() - k,
        {
            if str_equals(self.slots[k].actor.object_id(), object_id) {
                return Some(k);
            }
            k = k + 1;
        }
        None
    }

    /// Delivers an update to the actor of `object_id`, spawning the actor
    /// when there is none. The object must belong to `workspace_id`:
    /// another workspace gets `NotFound`. A full mailbox, or a full table
    /// when an actor would have to be spawned, gets `Busy`. Only a success
    /// changes anything: the update joins the back of the mailbox.
    pub fn route(&mut self, workspace_id: &str, object_id: &str, collab_type: CollabType, update: Vec<Item>) -> (r: Result<(), SyncError>)
        requires
            old(self).wf(),
        ensures
            final(self).wf(),
            final(self).spec_mailbox_capacity() == old(self).spec_mailbox_capacity(),
            final(self).spec_max_actors() == old(self).spec_max_actors(),
            r is Err ==> final(self).spec_slots() == old(self).spec_slots(),
            r == route_outcome(old(self).spec_slots(), workspace_id@, object_id@, old(self).spec_mailbox_capacity(), old(self).spec_max_actors()),
            match r {
                Ok(()) => (exists|k: int| 0 <= k < old(self).spec_slots().len()
                    && (#[trigger] old(self).spec_slots()[k]).1 == object_id@
                    && old(self).spec_slots()[k].0 == workspace_id@
                    && old(self).spec_slots()[k].3.len() < old(self).spec_mailbox_capacity()
                    && final(self).spec_slots() == old(self).spec_slots().update(k,
                        (workspace_id@, object_id@, old(self).spec_slots()[k].2, old(self).spec_slots()[k].3.push(set_of(update@)))))
                    || ((forall|k: int| 0 <= k < old(self).spec_slots().len() ==> (#[trigger] old(self).spec_slots()[k]).1 != object_id@)
                    && old(self).spec_slots().len() < old(self).spec_max_actors()
                    && final(self).spec_slots() == old(self).spec_slots().push(
                        (workspace_id@, object_id@, Set::<ItemView>::empty(), seq![set_of(update@)]))),
                Err(e) => (e == SyncError::NotFound && exists|k: int| 0 <= k < old(self).spec_slots().len()
                    && (#[trigger] old(self).spec_slots()[k]).1 == object_id@
                    && old(self).spec_slots()[k].0 != workspace_id@)
                    || (e == SyncError::Busy && exists|k: int| 0 <= k < old(self).spec_slots().len()
                    && (#[trigger] old(self).spec_slots()[k]).1 == object_id@
                    && old(self).spec_slots()[k].0 == workspace_id@
                    && old(self).spec_slots()[k].3.len() >= old(self).spec_mailbox_capacity())
                    || (e == SyncError::Busy && (forall|k: int| 0 <= k < old(self).spec_slots().len() ==> (#[trigger] old(self).spec_slots()[k]).1 != object_id@)
                    && old(self).spec_slots().len() >= old(self).spec_max_actors()),
            },
    {
        let ghost before = self.spec_slots();
        proof {
            self.lemma_ids_distinct();
        }
        match self.find(object_id) {
            Some(k) => {
                proof {
                    let kk = choose|kk: int| 0 <= kk < before.len() && (#[trigger] before[kk]).1 == object_id@;
                    assert(kk == k);
                }
                if !str_equals(self.slots[k].actor.workspace_id(), workspace_id) {
                    return Err(SyncError::NotFound);
                }
                if self.slots[k].mailbox.len() >= self.mailbox_capacity {
                    return Err(SyncError::Busy);
                }
                let mut slot = self.slots.remove(k);
                let ghost sv = slot@;
                slot.mailbox.push(update);
                proof {
                    assert(slot@.3 =~= sv.3.push(set_of(update@)));
                }
                self.slots.insert(k, slot);
                proof {
                    assert(self.spec_slots() =~= before.update(k as int, slot@));
                    assert forall|i: int, j: int|
                        0 <= i < self.slots@.len() && 0 <= j < self.slots@.len() && i != j
                            implies (#[trigger] self.slots@[i]@).1 != (#[trigger] self.slots@[j]@).1 by {
                        assert(self.spec_slots()[i] == self.slots@[i]@);
                        assert(self.spec_slots()[j] == self.slots@[j]@);
                        assert(before[i] == old(self).slots@[i]@);
                        assert(before[j] == old(self).slots@[j]@);
                    }
                    assert forall|i: int| 0 <= i < self.slots@.len() implies (#[trigger] self.slots@[i]).wf() by {
                        if i != k {
                            assert(self.slots@[i] == old(self).slots@[i]);
                        }
                    }
                }
                Ok(())
            },
            None => {
                if self.slots.len() >= self.max_actors {
                    return Err(SyncError::Busy);
                }
                let actor = DocumentActor::new(workspace_id, object_id, collab_type);
                let mut mailbox: Vec<Vec<Item>> = Vec::new();
                mailbox.push(update);
                let slot = Slot { actor, mailbox };
                proof {
                    assert(slot@.3 =~= seq![set_of(update@)]);
                }
                self.slots.push(slot);
                proof {
                    assert(self.spec_slots() =~= before.push(slot@));
                    assert forall|i: int, j: int|
                        0 <= i < self.slots@.len() && 0 <= j < self.slots@.len() && i != j
                            implies (#[trigger] self.slots@[i]@).1 != (#[trigger] self.slots@[j]@).1 by {
                        assert(self.spec_slots()[i] == self.slots@[i]@);
                        assert(self.spec_slots()[j] == self.slots@[j]@);
                    }
                    assert forall|i: int| 0 <= i < self.slots@.len() implies (#[trigger] self.slots@[i]).wf() by {
                        if i < before.len() {
                            assert(self.slots@[i] == old(self).slots@[i]);
                        }
                    }
                }
                Ok(())
            },
        }
    }

    /// Handles every update queued for `object_id`, oldest first, one at a
    /// time: each is merged unless it is corrupt, in which case it is
    /// dropped. Answers how many were handled, or `NotFound` when the object
    /// has no actor in `workspace_id`.
    pub fn drain(&mut self, workspace_id: &str, object_id: &str) -> (r: Result<usize, SyncError>)
        requires
            old(self).wf(),
        ensures
            final(self).wf(),
            final(self).spec_mailbox_capacity() == old(self).spec_mailbox_capacity(),
            final(self).spec_max_actors() == old(self).spec_max_actors(),
            match r {
                Ok(n) => exists|k: int| 0 <= k < old(self).spec_slots().len()
                    && (#[trigger] old(self).spec_slots()[k]).1 == object_id@
                    && old(self).spec_slots()[k].0 == workspace_id@
                    && n == old(self).spec_slots()[k].3.len()
                    && final(self).spec_slots() == old(self).spec_slots().update(k, (
                        workspace_id@,
                        object_id@,
                        apply_in_order(old(self).spec_slots()[k].2, old(self).spec_slots()[k].3),
                        Seq::<Set<ItemView>>::empty(),
                    )),
                Err(e) => e == SyncError::NotFound && final(self).spec_slots() == old(self).spec_slots()
                    && forall|k: int| 0 <= k < old(self).spec_slots().len()
                    ==> !((#[trigger] old(self).spec_slots()[k]).1 == object_id@ && old(self).spec_slots()[k].0 == workspace_id@),
            },
    {
        let ghost before = self.spec_slots();
        let k = match self.find(object_id) {
            Some(k) => k,
            None => return Err(SyncError::NotFound),
        };
        if !str_equals(self.slots[k].actor.workspace_id(), workspace_id) {
            proof {
                assert forall|j: int| 0 <= j < before.len() implies !((#[trigger] before[j]).1 == object_id@ && before[j].0 == workspace_id@) by {
                    if j != k {
                        assert(before[j] == self.slots@[j]@);
                        assert(before[k as int] == self.slots@[k as int]@);
                    }
                }
            }
            return Err(SyncError::NotFound);
        }
        let mut slot = self.slots.remove(k);
        let ghost s0 = slot@;
        let n = slot.mailbox.len();
        let mut handled: usize = 0;
        while slot.mailbox.len() > 0
            invariant
                slot.wf(),
                slot@.0 == s0.0,
                slot@.1 == s0.1,
                handled + slot@.3.len() == n,
                n == s0.3.len(),
                apply_in_order(s0.2, s0.3) == apply_in_order(slot@.2, slot@.3),
            decreases slot.mailbox@.len(),
        {
            let ghost sv = slot@;
            let u = slot.mailbox.remove(0);
            proof {
                lemma_apply_in_order_head(sv.2, sv.3);
                assert(seq![sv.3[0]].drop_last() =~= Seq::<Set<ItemView>>::empty());
                assert(sv.3[0] == set_of(u@));
                assert(slot.mailbox@.map_values(|x: Vec<Item>| set_of(x@)) =~= sv.3.drop_first());
            }
            let res = slot.actor.apply_update(&u, None);
            proof {
                let one = seq![sv.3[0]];
                assert(apply_in_order(sv.2, one.drop_last()) == sv.2);
                assert(slot@.2 == apply_in_order(sv.2, one));
            }
            handled = handled + 1;
        }
        proof {
            assert(slot@.3 =~= Seq::<Set<ItemView>>::empty());
        }
        self.slots.insert(k, slot);
        proof {
            assert(self.spec_slots() =~= before.update(k as int, slot@));
            assert forall|i: int, j: int|
                0 <= i < self.slots@.len() && 0 <= j < self.slots@.len() && i != j
                    implies (#[trigger] self.slots@[i]@).1 != (#[trigger] self.slots@[j]@).1 by {
                assert(self.spec_slots()[i] == self.slots@[i]@);
                assert(self.spec_slots()[j] == self.slots@[j]@);
                assert(before[i] == old(self).slots@[i]@);
                assert(before[j] == old(self).slots@[j]@);
            }
            assert forall|i: int| 0 <= i < self.slots@.len() implies (#[trigger] self.slots@[i]).wf() by {
                if i != k {
                    assert(self.slots@[i] == old(self).slots@[i]);
                }
            }
        }
        Ok(n)
    }

    /// Retires the actor of `object_id`, handing back its items for storage.
    /// An actor with queued work is not retired (`Busy`): what was
    /// delivered runs to completion first. `NotFound` when the object has no
    /// actor in `workspace_id`.
    pub fn evict(&mut self, workspace_id: &str, object_id: &str) -> (r: Result<Vec<Item>, SyncError>)
        requires
            old(self).wf(),
        ensures
            final(self).wf(),
            final(self).spec_mailbox_capacity() == old(self).spec_mailbox_capacity(),
            final(self).spec_max_actors() == old(self).spec_max_actors(),
            r is Err ==> final(self).spec_slots() == old(self).spec_slots(),
            match r {
                Ok(items) => exists|k: int| 0 <= k < old(self).spec_slots().len()
                    && (#[trigger] old(self).spec_slots()[k]).1 == object_id@
                    && old(self).spec_slots()[k].0 == workspace_id@
                    && old(self).spec_slots()[k].3.len() == 0
                    && set_of(items@) == old(self).spec_slots()[k].2
                    && final(self).spec_slots() == old(self).spec_slots().remove(k),
                Err(e) => (e == SyncError::Busy && exists|k: int| 0 <= k < old(self).spec_slots().len()
                    && (#[trigger] old(self).spec_slots()[k]).1 == object_id@
                    && old(self).spec_slots()[k].0 == workspace_id@
                    && old(self).spec_slots()[k].3.len() > 0)
                    || (e == SyncError::NotFound && forall|k: int| 0 <= k < old(self).spec_slots().len()
                    ==> !((#[trigger] old(self).spec_slots()[k]).1 == object_id@ && old(self).spec_slots()[k].0 == workspace_id@)),
            },
    {
        let ghost before = self.spec_slots();
        let k = match self.find(object_id) {
            Some(k) => k,
            None => return Err(SyncError::NotFound),
        };
        if !str_equals(self.slots[k].actor.workspace_id(), workspace_id) {
            proof {
                assert forall|j: int| 0 <= j < before.len() implies !((#[trigger] before[j]).1 == object_id@ && before[j].0 == workspace_id@) by {
                    if j != k {
                        assert(before[j] == self.slots@[j]@);
                        assert(before[k as int] == self.slots@[k as int]@);
                    }
                }
            }
            return Err(SyncError::NotFound);
        }
        if self.slots[k].mailbox.len() > 0 {
            return Err(SyncError::Busy);
        }
        let items = self.slots[k].actor.snapshot();
        let slot = self.slots.remove(k);
        proof {
            assert(self.spec_slots() =~= before.remove(k as int));
            assert forall|i: int, j: int|
                0 <= i < self.slots@.len() && 0 <= j < self.slots@.len() && i != j
                    implies (#[trigger] self.slots@[i]@).1 != (#[trigger] self.slots@[j]@).1 by {
                let oi = if i < k { i } else { i + 1 };
                let oj = if j < k { j } else { j + 1 };
                assert(self.slots@[i] == old(self).slots@[oi]);
                assert(self.slots@[j] == old(self).slots@[oj]);
            }
            assert forall|i: int| 0 <= i < self.slots@.len() implies (#[trigger] self.slots@[i]).wf() by {
                let oi = if i < k { i } else { i + 1 };
                assert(self.slots@[i] == old(self).slots@[oi]);
            }
        }
        Ok(items)
    }

    /// Brings back a retired actor from its stored items, with an empty
    /// mailbox. `NotFound` when the object already has an actor (under any
    /// workspace), `Busy` when the table is full, `Decode` when the items
    /// disagree with each other.
    pub fn rehydrate(&mut self, workspace_id: &str, object_id: &str, collab_type: CollabType, items: &Vec<Item>) -> (r: Result<(), SyncError>)
        requires
            old(self).wf(),
        ensures
            final(self).wf(),
            final(self).spec_mailbox_capacity() == old(self).spec_mailbox_capacity(),
            final(self).spec_max_actors() == old(self).spec_max_actors(),
            r is Err ==> final(self).spec_slots() == old(self).spec_slots(),
            r is Ok ==> final(self).spec_slots() == old(self).spec_slots().push(
                (workspace_id@, object_id@, set_of(items@), Seq::<Set<ItemView>>::empty())),
            r is Ok <==> (forall|k: int| 0 <= k < old(self).spec_slots().len() ==> (#[trigger] old(self).spec_slots()[k]).1 != object_id@)
                && old(self).spec_slots().len() < old(self).spec_max_actors()
                && mergeable(Set::<ItemView>::empty(), set_of(items@)),
    {
        let ghost before = self.spec_slots();
        match self.find(object_id) {
            Some(_) => return Err(SyncError::NotFound),
            None => {},
        }
        if self.slots.len() >= self.max_actors {
            return Err(SyncError::Busy);
        }
        let actor = match DocumentActor::from_items(workspace_id, object_id, collab_type, items) {
            Ok(a) => a,
            Err(e) => return Err(e),
        };
        let slot = Slot { actor, mailbox: Vec::new() };
        proof {
            assert(slot@.3 =~= Seq::<Set<ItemView>>::empty());
        }
        self.slots.push(slot);
        proof {
            assert(self.spec_slots() =~= before.push(slot@));
            assert forall|i: int, j: int|
                0 <= i < self.slots@.len() && 0 <= j < self.slots@.len() && i != j
                    implies (#[trigger] self.slots@[i]@).1 != (#[trigger] self.slots@[j]@).1 by {
                assert(self.spec_slots()[i] == self.slots@[i]@);
                assert(self.spec_slots()[j] == self.slots@[j]@);
            }
            assert forall|i: int| 0 <= i < self.slots@.len() implies (#[trigger] self.slots@[i]).wf() by {
                if i < before.len() {
                    assert(self.slots@[i] == old(self).slots@[i]);
                }
            }
        }
        Ok(())
    }

    /// Subscribes a live connection to the object's actor; `NotFound` when
    /// the object has no actor in `workspace_id`.
    pub fn subscribe(&mut self, workspace_id: &str, object_id: &str, session_id: &str) -> (r: Result<(), SyncError>)
        requires
            old(self).wf(),
        ensures
            final(self).wf(),
            final(self).spec_slots() == old(self).spec_slots(),
            final(self).spec_mailbox_capacity() == old(self).spec_mailbox_capacity(),
            final(self).spec_max_actors() == old(self).spec_max_actors(),
            match r {
                Ok(()) => exists|k: int| 0 <= k < old(self).spec_slots().len()
                    && (#[trigger] old(self).spec_slots()[k]).1 == object_id@
                    && old(self).spec_slots()[k].0 == workspace_id@
                    && final(self).spec_subscribers() == old(self).spec_subscribers().update(k,
                        old(self).spec_subscribers()[k].push(session_id@)),
                Err(e) => e == SyncError::NotFound && final(self).spec_subscribers() == old(self).spec_subscribers()
                    && forall|k: int| 0 <= k < old(self).spec_slots().len()
                    ==> !((#[trigger] old(self).spec_slots()[k]).1 == object_id@ && old(self).spec_slots()[k].0 == workspace_id@),
            },
    {
        let ghost before = self.spec_slots();
        let ghost subs = self.spec_subscribers();
        let k = match self.find(object_id) {
            Some(k) => k,
            None => return Err(SyncError::NotFound),
        };
        if !str_equals(self.slots[k].actor.workspace_id(), workspace_id) {
            proof {
                assert forall|j: int| 0 <= j < before.len() implies !((#[trigger] before[j]).1 == object_id@ && before[j].0 == workspace_id@) by {
                    if j != k {
                        assert(before[j] == self.slots@[j]@);
                        assert(before[k as int] == self.slots@[k as int]@);
                    }
                }
            }
            return Err(SyncError::NotFound);
        }
        let mut slot = self.slots.remove(k);
        slot.actor.subscribe(session_id);
        self.slots.insert(k, slot);
        proof {
            assert(self.spec_slots() =~= before);
            assert(self.spec_subscribers() =~= subs.update(k as int, subs[k as int].push(session_id@)));
            assert forall|i: int, j: int|
                0 <= i < self.slots@.len() && 0 <= j < self.slots@.len() && i != j
                    implies (#[trigger] self.slots@[i]@).1 != (#[trigger] self.slots@[j]@).1 by {
                assert(self.spec_slots()[i] == self.slots@[i]@);
                assert(self.spec_slots()[j] == self.slots@[j]@);
                assert(before[i] == old(self).slots@[i]@);
                assert(before[j] == old(self).slots@[j]@);
            }
            assert forall|i: int| 0 <= i < self.slots@.len() implies (#[trigger] self.slots@[i]).wf() by {
                if i != k {
                    assert(self.slots@[i] == old(self).slots@[i]);
                }
            }
        }
        Ok(())
    }

    /// Drops every subscription of the ended connections `sessions`, at
    /// every actor.
    pub fn drop_sessions(&mut self, sessions: &Vec<String>)
        requires
            old(self).wf(),
        ensures
            final(self).wf(),
            final(self).spec_slots() == old(self).spec_slots(),
            final(self).spec_mailbox_capacity() == old(self).spec_mailbox_capacity(),
            final(self).spec_max_actors() == old(self).spec_max_actors(),
            final(self).spec_subscribers().len() == old(self).spec_subscribers().len(),
            forall|k: int| 0 <= k < old(self).spec_subscribers().len() ==> #[trigger] final(self).spec_subscribers()[k]
                == without_sessions(old(self).spec_subscribers()[k], views_of(sessions@)),
    {
        let ghost before = self.spec_slots();
        let ghost subs = self.spec_subscribers();
        let mut k: usize = 0;
        while k < self.slots.len()
            invariant
                self.wf(),
                self.mailbox_capacity == old(self).mailbox_capacity,
                self.max_actors == old(self).max_actors,
                self.spec_slots() == before,
                k <= self.slots@.len(),
                self.spec_subscribers().len() == subs.len(),
                forall|j: int| 0 <= j < k ==> #[trigger] self.spec_subscribers()[j] == without_sessions(subs[j], views_of(sessions@)),
                forall|j: int| k <= j < subs.len() ==> #[trigger] self.spec_subscribers()[j] == subs[j],
            decreases self.slots@.len() - k,
        {
            let ghost cur = self.slots@;
            let ghost cur_subs = self.spec_subscribers();
            let mut slot = self.slots.remove(k);
            proof {
                assert(cur_subs[k as int] == cur[k as int].actor.spec_subscribers());
                assert(slot == cur[k as int]);
                assert(cur_subs[k as int] == subs[k as int]);
            }
            slot.actor.unsubscribe_all(sessions);
            self.slots.insert(k, slot);
            proof {
                assert(self.slots@ =~= cur.update(k as int, slot));
                assert(self.spec_slots() =~= before);
                assert(self.spec_subscribers() =~= cur_subs.update(k as int, without_sessions(subs[k as int], views_of(sessions@))));
                assert forall|i: int, j: int|
                    0 <= i < self.slots@.len() && 0 <= j < self.slots@.len() && i != j
                        implies (#[trigger] self.slots@[i]@).1 != (#[trigger] self.slots@[j]@).1 by {
                    assert(self.spec_slots()[i] == self.slots@[i]@);
                    assert(self.spec_slots()[j] == self.slots@[j]@);
                    assert(before[i] == cur[i]@);
                    assert(before[j] == cur[j]@);
                }
                assert forall|i: int| 0 <= i < self.slots@.len() implies (#[trigger] self.slots@[i]).wf() by {
                    if i != k {
                        assert(self.slots@[i] == cur[i]);
                    }
                }
            }
            k = k + 1;
        }
    }
}

} // verus!
