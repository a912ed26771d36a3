use vstd::prelude::*;
use std::collections::HashMap;
use crate::bytes::{bytes_equal, copy_bytes};

verus! {

broadcast use vstd::std_specs::hash::group_hash_axioms;

/// What an item is: the client that made it, that client's clock when it was
/// made, the root container it belongs to, and its content.
pub type ItemView = (u64, u64, u32, Seq<u8>);

/// One insertion into a replicated object. `(client, clock)` is its id: a
/// client never issues two items under one clock.
#[derive(Debug)]
pub struct Item {
    pub client: u64,
    pub clock: u64,
    pub root: u32,
    pub content: Vec<u8>,
}

impl View for Item {
    type V = ItemView;

    open spec fn view(&self) -> ItemView {
        (self.client, self.clock, self.root, self.content@)
    }
}

pub open spec fn same_id(a: ItemView, b: ItemView) -> bool {
    a.0 == b.0 && a.1 == b.1
}

/// The items that a list holds.
pub open spec fn set_of(s: Seq<Item>) -> Set<ItemView> {
    Set::new(|x: ItemView| exists|i: int| 0 <= i < s.len() && #[trigger] s[i]@ == x)
}

/// No two different items carry one id.
pub open spec fn consistent(s: Set<ItemView>) -> bool {
    forall|a: ItemView, b: ItemView|
        #![trigger s.contains(a), s.contains(b)]
        s.contains(a) && s.contains(b) && same_id(a, b) ==> a == b
}

/// An update can be merged into a state when together they stay consistent;
/// otherwise the update is corrupt.
pub open spec fn mergeable(state: Set<ItemView>, update: Set<ItemView>) -> bool {
    consistent(state.union(update))
}

/// The state after merging an update.
pub open spec fn merged(state: Set<ItemView>, update: Set<ItemView>) -> Set<ItemView> {
    state.union(update)
}

/// `sv` maps each client that has an item in `s` to the highest clock among
/// that client's items, and holds no other client.
pub open spec fn is_state_vector(s: Set<ItemView>, sv: Map<u64, u64>) -> bool {
    &&& forall|x: ItemView| #[trigger] s.contains(x) ==> sv.contains_key(x.0) && x.1 <= sv[x.0]
    &&& forall|c: u64|
        #[trigger] sv.contains_key(c) ==> exists|x: ItemView| #[trigger]
            s.contains(x) && x.0 == c && x.1 == sv[c]
}

/// Whether a replica whose state vector is `sv` lacks item `x`.
pub open spec fn unseen(sv: Map<u64, u64>, x: ItemView) -> bool {
    !sv.contains_key(x.0) || x.1 > sv[x.0]
}

/// The items of `s` that a replica with state vector `sv` has not seen.
pub open spec fn diff(s: Set<ItemView>, sv: Map<u64, u64>) -> Set<ItemView> {
    s.filter(|x: ItemView| unseen(sv, x))
}

pub open spec fn observed(sv: Map<u64, u64>, client: u64, clock: u64) -> Map<u64, u64> {
    if sv.contains_key(client) && clock <= sv[client] {
        sv
    } else {
        sv.insert(client, clock)
    }
}

impl Item {
    pub fn new(client: u64, clock: u64, root: u32, content: Vec<u8>) -> (r: Item)
        ensures
            r@ == (client, clock, root, content@),
    {
        Item { client, clock, root, content }
    }

    /// A copy of this item.
    pub fn duplicate(&self) -> (r: Item)
        ensures
            r@ == self@,
    {
        Item {
            client: self.client,
            clock: self.clock,
            root: self.root,
            content: copy_bytes(self.content.as_slice()),
        }
    }

    pub fn same_as(&self, other: &Item) -> (r: bool)
        ensures
            r == (self@ == other@),
    {
        self.client == other.client && self.clock == other.clock && self.root == other.root
            && bytes_equal(self.content.as_slice(), other.content.as_slice())
    }
}

/// A copy of every item of a list.
pub fn duplicate_items(items: &Vec<Item>) -> (r: Vec<Item>)
    ensures
        r@.len() == items@.len(),
        forall|i: int| 0 <= i < items@.len() ==> #[trigger] r@[i]@ == items@[i]@,
        set_of(r@) == set_of(items@),
{
    let mut r: Vec<Item> = Vec::new();
    let mut i: usize = 0;
    while i < items.len()
        invariant
            i <= items@.len(),
            r@.len() == i,
            forall|k: int| 0 <= k < i ==> #[trigger] r@[k]@ == items@[k]@,
        decreases items@.len() - i,
    {
        r.push(items[i].duplicate());
        i = i + 1;
    }
    assert(set_of(r@) =~= set_of(items@)) by {
        assert forall|x: ItemView| set_of(items@).contains(x) implies set_of(r@).contains(x) by {
            let k = choose|k: int| 0 <= k < items@.len() && #[trigger] items@[k]@ == x;
            assert(r@[k]@ == x);
        }
        assert forall|x: ItemView| set_of(r@).contains(x) implies set_of(items@).contains(x) by {
            let k = choose|k: int| 0 <= k < r@.len() && #[trigger] r@[k]@ == x;
            assert(items@[k]@ == x);
        }
    }
    r
}

/// A state vector: for each client, the highest clock seen from it.
#[derive(Debug)]
pub struct StateVector {
    clocks: HashMap<u64, u64>,
}

impl View for StateVector {
    type V = Map<u64, u64>;

    closed spec fn view(&self) -> Map<u64, u64> {
        self.clocks@
    }
}

impl StateVector {
    /// The state vector of a replica that has seen nothing.
    pub fn new() -> (r: StateVector)
        ensures
            r@ == Map::<u64, u64>::empty(),
    {
        StateVector { clocks: HashMap::new() }
    }

    /// The highest clock seen from `client`, if any.
    pub fn get(&self, client: u64) -> (r: Option<u64>)
        ensures
            r == (if self@.contains_key(client) { Some(self@[client]) } else { None::<u64> }),
    {
        match self.clocks.get(&client) {
            Some(c) => Some(*c),
            None => None,
        }
    }

    /// Records that `clock` was seen from `client`.
    pub fn observe(&mut self, client: u64, clock: u64)
        ensures
            final(self)@ == observed(old(self)@, client, clock),
    {
        match self.clocks.get(&client) {
            Some(c) => {
                if clock > *c {
                    self.clocks.insert(client, clock);
                }
            },
            None => {
                self.clocks.insert(client, clock);
            },
        }
    }

    /// The number of clients seen.
    pub fn len(&self) -> (r: usize)
        ensures
            r == self@.len(),
    {
        self.clocks.len()
    }

    pub fn duplicate(&self) -> (r: StateVector)
        ensures
            r@ == self@,
    {
        StateVector { clocks: self.clocks.clone() }
    }
}

pub proof fn lemma_observe_keeps_state_vector(s: Set<ItemView>, sv: Map<u64, u64>, x: ItemView)
    requires
        is_state_vector(s, sv),
    ensures
        is_state_vector(s.insert(x), observed(sv, x.0, x.1)),
{
    let s2 = s.insert(x);
    let sv2 = observed(sv, x.0, x.1);
    assert forall|y: ItemView| #[trigger] s2.contains(y) implies sv2.contains_key(y.0) && y.1
        <= sv2[y.0] by {
        if y != x {
            assert(s.contains(y));
        }
    }
    assert forall|c: u64| #[trigger] sv2.contains_key(c) implies exists|y: ItemView| #[trigger]
        s2.contains(y) && y.0 == c && y.1 == sv2[c] by {
        if c == x.0 && sv2[c] == x.1 {
            assert(s2.contains(x));
        } else {
            assert(sv.contains_key(c) && sv2[c] == sv[c]);
            let y = choose|y: ItemView| #[trigger] s.contains(y) && y.0 == c && y.1 == sv[c];
            assert(s2.contains(y));
        }
    }
}

/// A replica of one object's CRDT state.
pub struct Replica {
    items: Vec<Item>,
    sv: StateVector,
}

impl View for Replica {
    type V = Set<ItemView>;

    closed spec fn view(&self) -> Set<ItemView> {
        set_of(self.items@)
    }
}

pub open spec fn ids_unique(s: Seq<Item>) -> bool {
    forall|i: int, j: int|
        0 <= i < s.len() && 0 <= j < s.len() && i != j ==> !same_id(#[trigger] s[i]@, #[trigger] s[j]@)
}

pub proof fn lemma_unique_ids_consistent(s: Seq<Item>)
    requires
        ids_unique(s),
    ensures
        consistent(set_of(s)),
{
    assert forall|a: ItemView, b: ItemView|
        set_of(s).contains(a) && set_of(s).contains(b) && same_id(a, b) implies a == b by {
        let i = choose|i: int| 0 <= i < s.len() && #[trigger] s[i]@ == a;
        let j = choose|j: int| 0 <= j < s.len() && #[trigger] s[j]@ == b;
        if i != j {
            assert(!same_id(s[i]@, s[j]@));
        }
    }
}

proof fn lemma_set_of_push(s: Seq<Item>, x: Item)
    ensures
        set_of(s.push(x)) == set_of(s).insert(x@),
{
    let t = s.push(x);
    assert forall|y: ItemView| set_of(t).contains(y) implies set_of(s).insert(x@).contains(y) by {
        let i = choose|i: int| 0 <= i < t.len() && #[trigger] t[i]@ == y;
        if i < s.len() {
            assert(s[i]@ == y);
        }
    }
    assert forall|y: ItemView| set_of(s).insert(x@).contains(y) implies set_of(t).contains(y) by {
        if y == x@ {
            assert(t[s.len() as int]@ == y);
        } else {
            let i = choose|i: int| 0 <= i < s.len() && #[trigger] s[i]@ == y;
            assert(t[i]@ == y);
        }
    }
    assert(set_of(t) =~= set_of(s).insert(x@));
}

proof fn lemma_set_of_take_next(s: Seq<Item>, i: int)
    requires
        0 <= i < s.len(),
    ensures
        set_of(s.take(i + 1)) == set_of(s.take(i)).insert(s[i]@),
{
    assert(s.take(i + 1) == s.take(i).push(s[i]));
    lemma_set_of_push(s.take(i), s[i]);
}

impl Replica {
    pub closed spec fn wf(&self) -> bool {
        &&& ids_unique(self.items@)
        &&& is_state_vector(set_of(self.items@), self.sv@)
    }

    /// A replica that holds nothing.
    pub fn new() -> (r: Replica)
        ensures
            r.wf(),
            r@ == Set::<ItemView>::empty(),
    {
        let r = Replica { items: Vec::new(), sv: StateVector::new() };
        assert(set_of(r.items@) =~= Set::<ItemView>::empty());
        r
    }

    /// The replica's state vector.
    pub fn state_vector(&self) -> (r: StateVector)
        requires
            self.wf(),
        ensures
            is_state_vector(self@, r@),
    {
        self.sv.duplicate()
    }

    fn find(&self, client: u64, clock: u64) -> (r: Option<usize>)
        ensures
            r matches Some(k) ==> k < self.items@.len() && self.items@[k as int].client == client
                && self.items@[k as int].clock == clock,
            r is None ==> forall|k: int|
                0 <= k < self.items@.len() ==> !(#[trigger] self.items@[k].client == client
                    && self.items@[k].clock == clock),
    {
        let mut k: usize = 0;
        while k < self.items.len()
            invariant
                k <= self.items@.len(),
                forall|j: int|
                    0 <= j < k ==> !(#[trigger] self.items@[j].client == client
                        && self.items@[j].clock == clock),
            decreases self.items@.len() - k,
        {
            if self.items[k].client == client && self.items[k].clock == clock {
                return Some(k);
            }
            k = k + 1;
        }
        None
    }
    /// Whether `update` can be merged into this replica.
    pub fn can_merge(&self, update: &Vec<Item>) -> (r: bool)
        requires
            self.wf(),
        ensures
            r == mergeable(self@, set_of(update@)),
    {
        let ghost st = self@;
        proof {
            lemma_unique_ids_consistent(self.items@);
            assert(set_of(update@.take(0)) =~= Set::<ItemView>::empty());
            assert(st.union(set_of(update@.take(0))) =~= st);
        }
        let mut i: usize = 0;
        while i < update.len()
            invariant
                self.wf(),
                st == self@,
                i <= update@.len(),
                consistent(st.union(set_of(update@.take(i as int)))),
            decreases update@.len() - i,
        {
            let it = &update[i];
            proof {
                assert(set_of(update@).contains(update@[i as int]@));
            }
            match self.find(it.client, it.clock) {
                Some(k) => {
                    if !self.items[k].same_as(it) {
                        proof {
                            let a = self.items@[k as int]@;
                            assert(st.contains(a));
                            assert(st.union(set_of(update@)).contains(a));
                            assert(st.union(set_of(update@)).contains(it@));
                        }
                        return false;
                    }
                },
                None => {},
            }
            let mut j: usize = 0;
            while j < i
                invariant
                    st == self@,
                    i < update@.len(),
                    j <= i,
                    it == &update@[i as int],
                    forall|m: int| 0 <= m < j ==> (same_id(#[trigger] update@[m]@, it@) ==> update@[m]@ == it@),
                decreases i - j,
            {
                if update[j].client == it.client && update[j].clock == it.clock && !update[j].same_as(it) {
                    proof {
                        let a = update@[j as int]@;
                        assert(set_of(update@).contains(a));
                        assert(st.union(set_of(update@)).contains(a));
                        assert(st.union(set_of(update@)).contains(it@));
                        assert(same_id(a, it@) && a != it@);
                        assert(!consistent(st.union(set_of(update@))));
                    }
                    return false;
                }
                j = j + 1;
            }
            proof {
                let prev = st.union(set_of(update@.take(i as int)));
                lemma_set_of_take_next(update@, i as int);
                assert(st.union(set_of(update@.take(i + 1))) =~= prev.insert(it@));
                assert forall|y: ItemView| #[trigger] prev.contains(y) && same_id(y, it@) implies y == it@ by {
                    if st.contains(y) {
                        let kk = choose|kk: int| 0 <= kk < self.items@.len() && #[trigger] self.items@[kk]@ == y;
                        assert(self.items@[kk].client == it.client && self.items@[kk].clock == it.clock);
                    } else {
                        let m = choose|m: int| 0 <= m < update@.take(i as int).len() && #[trigger] update@.take(i as int)[m]@ == y;
                        assert(update@[m]@ == y);
                    }
                }
            }
            i = i + 1;
        }
        proof {
            assert(update@.take(update@.len() as int) == update@);
        }
        true
    }

    /// Merges `update` into this replica. A corrupt update, one that carries
    /// an id already present with other content, or one id twice with
    /// different content, is refused and the replica is left as it was.
    pub fn merge(&mut self, update: &Vec<Item>) -> (r: bool)
        requires
            old(self).wf(),
        ensures
            final(self).wf(),
            r == mergeable(old(self)@, set_of(update@)),
            r ==> final(self)@ == merged(old(self)@, set_of(update@)),
            !r ==> final(self)@ == old(self)@,
    {
        if !self.can_merge(update) {
            return false;
        }
        let ghost st = self@;
        proof {
            assert(set_of(update@.take(0)) =~= Set::<ItemView>::empty());
            assert(st.union(set_of(update@.take(0))) =~= st);
        }
        let mut i: usize = 0;
        while i < update.len()
            invariant
                self.wf(),
                i <= update@.len(),
                consistent(st.union(set_of(update@))),
                self@ == st.union(set_of(update@.take(i as int))),
            decreases update@.len() - i,
        {
            let it = &update[i];
            proof {
                lemma_set_of_take_next(update@, i as int);
                assert(set_of(update@).contains(it@));
            }
            match self.find(it.client, it.clock) {
                Some(k) => {
                    proof {
                        let a = self.items@[k as int]@;
                        assert(self@.contains(a));
                        assert(set_of(update@.take(i as int)).subset_of(set_of(update@))) by {
                            assert forall|y: ItemView| set_of(update@.take(i as int)).contains(y) implies set_of(update@).contains(y) by {
                                let m = choose|m: int| 0 <= m < update@.take(i as int).len() && #[trigger] update@.take(i as int)[m]@ == y;
                                assert(update@[m]@ == y);
                            }
                        }
                        assert(st.union(set_of(update@)).contains(a));
                        assert(st.union(set_of(update@)).contains(it@));
                        assert(a == it@);
                        assert(self@.insert(it@) =~= self@);
                        assert(st.union(set_of(update@.take(i + 1))) =~= self@.insert(it@));
                    }
                },
                None => {
                    let ghost before = self.items@;
                    let ghost sv_before = self.sv@;
                    self.items.push(it.duplicate());
                    self.sv.observe(it.client, it.clock);
                    proof {
                        lemma_set_of_push(before, self.items@.last());
                        assert(self.items@ == before.push(self.items@.last()));
                        lemma_observe_keeps_state_vector(set_of(before), sv_before, it@);
                        assert forall|p: int, q: int|
                            0 <= p < self.items@.len() && 0 <= q < self.items@.len() && p != q
                            implies !same_id(#[trigger] self.items@[p]@, #[trigger] self.items@[q]@) by {
                            if p < before.len() && q < before.len() {
                                assert(before[p] == self.items@[p]);
                                assert(before[q] == self.items@[q]);
                            } else if p < before.len() {
                                assert(before[p] == self.items@[p]);
                            } else {
                                assert(before[q] == self.items@[q]);
                            }
                        }
                        assert(st.union(set_of(update@.take(i + 1))) =~= self@);
                    }
                },
            }
            i = i + 1;
        }
        proof {
            assert(update@.take(update@.len() as int) == update@);
        }
        true
    }

    /// The items that a replica with state vector `sv` lacks.
    pub fn diff(&self, sv: &StateVector) -> (r: Vec<Item>)
        requires
            self.wf(),
        ensures
            set_of(r@) == diff(self@, sv@),
    {
        let mut r: Vec<Item> = Vec::new();
        let mut i: usize = 0;
        proof {
            assert(set_of(r@) =~= set_of(self.items@.take(0)).filter(|x: ItemView| unseen(sv@, x)));
        }
        while i < self.items.len()
            invariant
                i <= self.items@.len(),
                set_of(r@) == set_of(self.items@.take(i as int)).filter(|x: ItemView| unseen(sv@, x)),
            decreases self.items@.len() - i,
        {
            let it = &self.items[i];
            proof {
                lemma_set_of_take_next(self.items@, i as int);
            }
            let seen = match sv.get(it.client) {
                Some(c) => it.clock <= c,
                None => false,
            };
            if !seen {
                let ghost before = r@;
                r.push(it.duplicate());
                proof {
                    lemma_set_of_push(before, r@.last());
                    assert(r@ == before.push(r@.last()));
                }
            }
            proof {
                assert(set_of(r@) =~= set_of(self.items@.take(i + 1)).filter(|x: ItemView| unseen(sv@, x)));
            }
            i = i + 1;
        }
        proof {
            assert(self.items@.take(self.items@.len() as int) == self.items@);
        }
        r
    }

    /// Every item held.
    pub fn snapshot(&self) -> (r: Vec<Item>)
        requires
            self.wf(),
        ensures
            set_of(r@) == self@,
    {
        duplicate_items(&self.items)
    }
}


} // verus!
