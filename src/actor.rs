use vstd::prelude::*;
use crate::collab::{CollabType, SyncError};
use crate::crdt::{
    diff, is_state_vector, merged, mergeable, set_of, Item, ItemView, Replica, StateVector,
};
use crate::text::str_equals;

verus! {

/// The strings of a list.
pub open spec fn views_of(s: Seq<String>) -> Seq<Seq<char>> {
    s.map_values(|x: String| x@)
}

/// The subscribers that a change from `origin` is pushed to.
pub open spec fn broadcast_targets(subscribers: Seq<Seq<char>>, origin: Seq<char>) -> Seq<Seq<char>> {
    subscribers.filter(|s: Seq<char>| s != origin)
}

/// The subscribers left once the sessions `gone` have ended.
pub open spec fn without_sessions(subscribers: Seq<Seq<char>>, gone: Seq<Seq<char>>) -> Seq<Seq<char>> {
    subscribers.filter(|s: Seq<char>| !gone.contains(s))
}

fn contains_session(sessions: &Vec<String>, s: &str) -> (r: bool)
    ensures
        r == views_of(sessions@).contains(s@),
{
    let mut i: usize = 0;
    while i < sessions.len()
        invariant
            i <= sessions@.len(),
            forall|j: int| 0 <= j < i ==> sessions@[j]@ != s@,
        decreases sessions@.len() - i,
    {
        if str_equals(sessions[i].as_str(), s) {
            assert(views_of(sessions@)[i as int] == s@);
            return true;
        }
        i = i + 1;
    }
    assert forall|j: int| 0 <= j < views_of(sessions@).len() implies views_of(sessions@)[j] != s@ by {
        assert(views_of(sessions@)[j] == sessions@[j]@);
    }
    false
}

/// The version after one more accepted update.
pub open spec fn next_version(v: u64) -> u64 {
    if v < u64::MAX { (v + 1) as u64 } else { v }
}

/// The single owner of one object's replicated state. Every change to the
/// object goes through it, one at a time.
pub struct DocumentActor {
    workspace_id: String,
    object_id: String,
    collab_type: CollabType,
    replica: Replica,
    subscribers: Vec<String>,
    version: u64,
}

proof fn lemma_set_of_empty(s: Seq<Item>)
    ensures
        (s.len() == 0) == (set_of(s) == Set::<ItemView>::empty()),
{
    if s.len() > 0 {
        assert(set_of(s).contains(s[0]@));
    } else {
        assert(set_of(s) =~= Set::<ItemView>::empty());
    }
}

impl DocumentActor {
    pub closed spec fn wf(&self) -> bool {
        self.replica.wf()
    }

    /// The object's state.
    pub closed spec fn state(&self) -> Set<ItemView> {
        self.replica@
    }

    pub closed spec fn spec_version(&self) -> u64 {
        self.version
    }

    pub closed spec fn spec_subscribers(&self) -> Seq<Seq<char>> {
        views_of(self.subscribers@)
    }

    pub closed spec fn spec_object_id(&self) -> Seq<char> {
        self.object_id@
    }

    pub closed spec fn spec_workspace_id(&self) -> Seq<char> {
        self.workspace_id@
    }

    pub closed spec fn spec_collab_type(&self) -> CollabType {
        self.collab_type
    }

    /// An actor for an object that holds nothing yet.
    pub fn new(workspace_id: &str, object_id: &str, collab_type: CollabType) -> (r: DocumentActor)
        ensures
            r.wf(),
            r.state() == Set::<ItemView>::empty(),
            r.spec_version() == 0,
            r.spec_subscribers() == Seq::<Seq<char>>::empty(),
            r.spec_workspace_id() == workspace_id@,
            r.spec_object_id() == object_id@,
            r.spec_collab_type() == collab_type,
    {
        let r = DocumentActor {
            workspace_id: workspace_id.to_owned(),
            object_id: object_id.to_owned(),
            collab_type,
            replica: Replica::new(),
            subscribers: Vec::new(),
            version: 0,
        };
        assert(r.spec_subscribers() =~= Seq::<Seq<char>>::empty());
        r
    }

    /// An actor rehydrated from stored items; `Decode` when the items
    /// disagree with each other.
    pub fn from_items(workspace_id: &str, object_id: &str, collab_type: CollabType, items: &Vec<Item>) -> (r: Result<DocumentActor, SyncError>)
        ensures
            match r {
                Ok(a) => a.wf() && a.state() == set_of(items@) && a.spec_version() == 0
                    && mergeable(Set::<ItemView>::empty(), set_of(items@))
                    && a.spec_subscribers() == Seq::<Seq<char>>::empty()
                    && a.spec_workspace_id() == workspace_id@ && a.spec_object_id() == object_id@
                    && a.spec_collab_type() == collab_type,
                Err(e) => e == SyncError::Decode && !mergeable(Set::<ItemView>::empty(), set_of(items@)),
            },
    {
        let mut a = DocumentActor::new(workspace_id, object_id, collab_type);
        if !a.replica.merge(items) {
            return Err(SyncError::Decode);
        }
        assert(Set::<ItemView>::empty().union(set_of(items@)) =~= set_of(items@));
        Ok(a)
    }

    pub fn object_id(&self) -> (r: &str)
        ensures
            r@ == self.spec_object_id(),
    {
        self.object_id.as_str()
    }

    pub fn workspace_id(&self) -> (r: &str)
        ensures
            r@ == self.spec_workspace_id(),
    {
        self.workspace_id.as_str()
    }

    pub fn collab_type(&self) -> (r: CollabType)
        ensures
            r == self.spec_collab_type(),
    {
        self.collab_type
    }

    pub fn version(&self) -> (r: u64)
        ensures
            r == self.spec_version(),
    {
        self.version
    }

    /// The object's state vector.
    pub fn state_vector(&self) -> (r: StateVector)
        requires
            self.wf(),
        ensures
            is_state_vector(self.state(), r@),
    {
        self.replica.state_vector()
    }

    /// Every item of the object.
    pub fn snapshot(&self) -> (r: Vec<Item>)
        requires
            self.wf(),
        ensures
            set_of(r@) == self.state(),
    {
        self.replica.snapshot()
    }

    /// Merges `update` and answers with the new state vector and what the
    /// caller lacks: the diff against `client_state_vector` when one is
    /// given, the whole state otherwise. A corrupt update is refused with
    /// `Decode` and changes nothing.
    pub fn apply_update(&mut self, update: &Vec<Item>, client_state_vector: Option<&StateVector>) -> (r: Result<(StateVector, Vec<Item>), SyncError>)
        requires
            old(self).wf(),
        ensures
            final(self).wf(),
            final(self).spec_subscribers() == old(self).spec_subscribers(),
            final(self).spec_object_id() == old(self).spec_object_id(),
            final(self).spec_workspace_id() == old(self).spec_workspace_id(),
            final(self).spec_collab_type() == old(self).spec_collab_type(),
            r is Ok == mergeable(old(self).state(), set_of(update@)),
            r is Err ==> r == Err::<(StateVector, Vec<Item>), SyncError>(SyncError::Decode)
                && final(self).state() == old(self).state()
                && final(self).spec_version() == old(self).spec_version(),
            r matches Ok((sv, d)) ==> {
                &&& final(self).state() == merged(old(self).state(), set_of(update@))
                &&& final(self).spec_version() == next_version(old(self).spec_version())
                &&& is_state_vector(final(self).state(), sv@)
                &&& set_of(d@) == match client_state_vector {
                    Some(c) => diff(final(self).state(), c@),
                    None => final(self).state(),
                }
            },
    {
        if !self.replica.merge(update) {
            return Err(SyncError::Decode);
        }
        if self.version < u64::MAX {
            self.version = self.version + 1;
        }
        let sv = self.replica.state_vector();
        let d = match client_state_vector {
            Some(c) => self.replica.diff(c),
            None => self.replica.snapshot(),
        };
        Ok((sv, d))
    }

    /// Catch-up for a client that sends its pending update and its state
    /// vector: the update is merged, then the client is answered with what
    /// it lacks, or `None` when it lacks nothing.
    pub fn full_sync(&mut self, update: &Vec<Item>, client_state_vector: &StateVector) -> (r: Result<Option<Vec<Item>>, SyncError>)
        requires
            old(self).wf(),
        ensures
            final(self).wf(),
            final(self).spec_subscribers() == old(self).spec_subscribers(),
            final(self).spec_object_id() == old(self).spec_object_id(),
            final(self).spec_workspace_id() == old(self).spec_workspace_id(),
            final(self).spec_collab_type() == old(self).spec_collab_type(),
            r is Ok == mergeable(old(self).state(), set_of(update@)),
            r is Err ==> r == Err::<Option<Vec<Item>>, SyncError>(SyncError::Decode)
                && final(self).state() == old(self).state(),
            r is Ok ==> final(self).state() == merged(old(self).state(), set_of(update@)),
            r matches Ok(None) ==> diff(final(self).state(), client_state_vector@) == Set::<ItemView>::empty(),
            r matches Ok(Some(d)) ==> set_of(d@) == diff(final(self).state(), client_state_vector@)
                && set_of(d@) != Set::<ItemView>::empty(),
    {
        match self.apply_update(update, Some(client_state_vector)) {
            Err(e) => Err(e),
            Ok((_, d)) => {
                proof {
                    lemma_set_of_empty(d@);
                }
                if d.len() == 0 {
                    Ok(None)
                } else {
                    Ok(Some(d))
                }
            },
        }
    }

    /// Adds a live connection to the object's subscribers.
    pub fn subscribe(&mut self, session_id: &str)
        ensures
            final(self).wf() == old(self).wf(),
            final(self).state() == old(self).state(),
            final(self).spec_version() == old(self).spec_version(),
            final(self).spec_object_id() == old(self).spec_object_id(),
            final(self).spec_workspace_id() == old(self).spec_workspace_id(),
            final(self).spec_collab_type() == old(self).spec_collab_type(),
            final(self).spec_subscribers() == old(self).spec_subscribers().push(session_id@),
    {
        self.subscribers.push(session_id.to_owned());
        assert(views_of(self.subscribers@) =~= views_of(old(self).subscribers@).push(session_id@));
    }

    /// Drops every subscription of a connection that went away.
    pub fn unsubscribe(&mut self, session_id: &str)
        ensures
            final(self).wf() == old(self).wf(),
            final(self).state() == old(self).state(),
            final(self).spec_version() == old(self).spec_version(),
            final(self).spec_object_id() == old(self).spec_object_id(),
            final(self).spec_workspace_id() == old(self).spec_workspace_id(),
            final(self).spec_collab_type() == old(self).spec_collab_type(),
            final(self).spec_subscribers() == broadcast_targets(old(self).spec_subscribers(), session_id@),
    {
        let kept = self.broadcast_targets(session_id);
        self.subscribers = kept;
    }

    /// Drops every subscription of the connections in `sessions`.
    pub fn unsubscribe_all(&mut self, sessions: &Vec<String>)
        ensures
            final(self).wf() == old(self).wf(),
            final(self).state() == old(self).state(),
            final(self).spec_version() == old(self).spec_version(),
            final(self).spec_object_id() == old(self).spec_object_id(),
            final(self).spec_workspace_id() == old(self).spec_workspace_id(),
            final(self).spec_collab_type() == old(self).spec_collab_type(),
            final(self).spec_subscribers() == without_sessions(old(self).spec_subscribers(), views_of(sessions@)),
    {
        let ghost gone = views_of(sessions@);
        let ghost subs = self.spec_subscribers();
        let ghost pred = |s: Seq<char>| !gone.contains(s);
        let mut kept: Vec<String> = Vec::new();
        let mut i: usize = 0;
        proof {
            reveal(Seq::filter);
            assert(views_of(kept@) =~= subs.take(0).filter(pred));
        }
        while i < self.subscribers.len()
            invariant
                i <= self.subscribers@.len(),
                subs == views_of(self.subscribers@),
                gone == views_of(sessions@),
                pred == |s: Seq<char>| !gone.contains(s),
                views_of(kept@) == subs.take(i as int).filter(pred),
            decreases self.subscribers@.len() - i,
        {
            let s = &self.subscribers[i];
            proof {
                reveal(Seq::filter);
                assert(subs.take(i + 1).drop_last() =~= subs.take(i as int));
                assert(subs.take(i + 1).last() == s@);
            }
            if !contains_session(sessions, s.as_str()) {
                kept.push(s.clone());
                assert(views_of(kept@) =~= subs.take(i + 1).filter(pred));
            } else {
                assert(views_of(kept@) =~= subs.take(i + 1).filter(pred));
            }
            i = i + 1;
        }
        assert(subs.take(subs.len() as int) =~= subs);
        self.subscribers = kept;
    }

    /// The subscribers that a change from `origin` is pushed to: all but the
    /// originator.
    pub fn broadcast_targets(&self, origin: &str) -> (r: Vec<String>)
        ensures
            views_of(r@) == broadcast_targets(self.spec_subscribers(), origin@),
    {
        let mut r: Vec<String> = Vec::new();
        let mut i: usize = 0;
        let ghost subs = self.spec_subscribers();
        proof {
            reveal(Seq::filter);
            assert(views_of(r@) =~= broadcast_targets(subs.take(0), origin@));
        }
        while i < self.subscribers.len()
            invariant
                i <= self.subscribers@.len(),
                subs == views_of(self.subscribers@),
                views_of(r@) == broadcast_targets(subs.take(i as int), origin@),
            decreases self.subscribers@.len() - i,
        {
            let s = &self.subscribers[i];
            proof {
                reveal(Seq::filter);
                assert(subs.take(i + 1).drop_last() =~= subs.take(i as int));
                assert(subs.take(i + 1).last() == s@);
            }
            if !str_equals(s.as_str(), origin) {
                r.push(s.clone());
                assert(views_of(r@) =~= broadcast_targets(subs.take(i + 1), origin@));
            } else {
                assert(views_of(r@) =~= broadcast_targets(subs.take(i + 1), origin@));
            }
            i = i + 1;
        }
        assert(subs.take(subs.len() as int) =~= subs);
        r
    }
}

} // verus!
