use vstd::prelude::*;
use crate::crdt::{consistent, diff, is_state_vector, merged, mergeable, same_id, ItemView};

verus! {

/// A state has one state vector.
pub proof fn lemma_state_vector_unique(s: Set<ItemView>, a: Map<u64, u64>, b: Map<u64, u64>)
    requires
        is_state_vector(s, a),
        is_state_vector(s, b),
    ensures
        a == b,
{
    assert forall|c: u64| a.contains_key(c) implies b.contains_key(c) && a[c] == b[c] by {
        let x = choose|x: ItemView| #[trigger] s.contains(x) && x.0 == c && x.1 == a[c];
        let y = choose|y: ItemView| #[trigger] s.contains(y) && y.0 == c && y.1 == b[c];
        assert(x.1 <= b[c]);
        assert(y.1 <= a[c]);
    }
    assert forall|c: u64| b.contains_key(c) implies a.contains_key(c) by {
        let y = choose|y: ItemView| #[trigger] s.contains(y) && y.0 == c && y.1 == b[c];
    }
    assert(a =~= b);
}

/// Merging an update a second time changes nothing: the state after two
/// merges of `u` is the state after one, and so is its state vector.
pub proof fn lemma_merge_idempotent(
    s: Set<ItemView>,
    u: Set<ItemView>,
    once: Map<u64, u64>,
    twice: Map<u64, u64>,
)
    requires
        mergeable(s, u),
        is_state_vector(merged(s, u), once),
        is_state_vector(merged(merged(s, u), u), twice),
    ensures
        mergeable(merged(s, u), u),
        merged(merged(s, u), u) == merged(s, u),
        twice == once,
{
    assert(merged(s, u).union(u) =~= merged(s, u));
    lemma_state_vector_unique(merged(s, u), once, twice);
}

/// Two updates that agree with each other and with the state merge to the
/// same state in either order, and merging one after the other is merging
/// both at once.
pub proof fn lemma_merge_commutative(s: Set<ItemView>, a: Set<ItemView>, b: Set<ItemView>)
    requires
        consistent(s.union(a).union(b)),
    ensures
        mergeable(s, a),
        mergeable(s, b),
        mergeable(merged(s, a), b),
        mergeable(merged(s, b), a),
        merged(merged(s, a), b) == merged(merged(s, b), a),
        merged(merged(s, a), b) == merged(s, a.union(b)),
{
    let all = s.union(a).union(b);
    assert(s.union(a).subset_of(all));
    assert(s.union(b).subset_of(all));
    assert(s.union(b).union(a) =~= all);
    assert(s.union(a.union(b)) =~= all);
}

/// A replica that is up to date has nothing to send: the diff against its own
/// state vector is empty.
pub proof fn lemma_diff_of_own_vector_empty(s: Set<ItemView>, sv: Map<u64, u64>)
    requires
        is_state_vector(s, sv),
    ensures
        diff(s, sv) == Set::<ItemView>::empty(),
{
    assert(diff(s, sv) =~= Set::<ItemView>::empty());
}

/// A replica that has seen nothing is sent the whole state.
pub proof fn lemma_diff_of_empty_vector_is_state(s: Set<ItemView>)
    ensures
        diff(s, Map::<u64, u64>::empty()) == s,
{
    assert(diff(s, Map::<u64, u64>::empty()) =~= s);
}

/// Two updates with no id in common, each of which agrees with the state,
/// are both accepted, in either order, and the state ends up holding both.
pub proof fn lemma_disjoint_updates_both_apply(
    s: Set<ItemView>,
    a: Set<ItemView>,
    b: Set<ItemView>,
)
    requires
        mergeable(s, a),
        mergeable(s, b),
        forall|x: ItemView, y: ItemView| a.contains(x) && b.contains(y) ==> !same_id(x, y),
    ensures
        mergeable(merged(s, a), b),
        mergeable(merged(s, b), a),
        merged(merged(s, a), b) == s.union(a).union(b),
        merged(merged(s, b), a) == s.union(a).union(b),
{
    let all = s.union(a).union(b);
    assert forall|x: ItemView, y: ItemView|
        #![trigger all.contains(x), all.contains(y)]
        all.contains(x) && all.contains(y) && same_id(x, y) implies x == y by {
        let sa = s.union(a);
        let sb = s.union(b);
        if sa.contains(x) && sa.contains(y) {
            assert(consistent(sa));
        } else if sb.contains(x) && sb.contains(y) {
            assert(consistent(sb));
        } else if a.contains(x) && b.contains(y) {
            assert(!same_id(x, y));
        } else {
            assert(b.contains(x) && a.contains(y));
            assert(!same_id(y, x));
        }
    }
    lemma_merge_commutative(s, a, b);
}

/// The state after a queue of updates is handled in order: each update that
/// can be merged is merged, a corrupt one is dropped.
pub open spec fn apply_in_order(s: Set<ItemView>, us: Seq<Set<ItemView>>) -> Set<ItemView>
    decreases us.len(),
{
    if us.len() == 0 {
        s
    } else {
        let prev = apply_in_order(s, us.drop_last());
        if mergeable(prev, us.last()) {
            merged(prev, us.last())
        } else {
            prev
        }
    }
}

/// Everything that a queue of updates holds.
pub open spec fn union_of(us: Seq<Set<ItemView>>) -> Set<ItemView>
    decreases us.len(),
{
    if us.len() == 0 {
        Set::empty()
    } else {
        union_of(us.drop_last()).union(us.last())
    }
}

/// Updates handled one at a time, whichever order they were queued in, all
/// take effect when none of them is corrupt: the state is the union of the
/// start and every update, never a part of one.
pub proof fn lemma_serial_application(s: Set<ItemView>, us: Seq<Set<ItemView>>)
    requires
        consistent(s.union(union_of(us))),
    ensures
        apply_in_order(s, us) == s.union(union_of(us)),
    decreases us.len(),
{
    if us.len() > 0 {
        let init = us.drop_last();
        assert(s.union(union_of(init)).subset_of(s.union(union_of(us))));
        lemma_serial_application(s, init);
        assert(s.union(union_of(init)).union(us.last()) =~= s.union(union_of(us)));
    }
}

} // verus!

verus! {

/// Handling a queue in two parts, one after the other, is handling it whole.
pub proof fn lemma_apply_in_order_append(s: Set<ItemView>, a: Seq<Set<ItemView>>, b: Seq<Set<ItemView>>)
    ensures
        apply_in_order(s, a + b) == apply_in_order(apply_in_order(s, a), b),
    decreases b.len(),
{
    if b.len() == 0 {
        assert(a + b =~= a);
    } else {
        assert((a + b).drop_last() =~= a + b.drop_last());
        assert((a + b).last() == b.last());
        lemma_apply_in_order_append(s, a, b.drop_last());
    }
}

/// Handling the head of a queue, then the rest.
pub proof fn lemma_apply_in_order_head(s: Set<ItemView>, us: Seq<Set<ItemView>>)
    requires
        us.len() > 0,
    ensures
        apply_in_order(s, us) == apply_in_order(apply_in_order(s, seq![us[0]]), us.drop_first()),
{
    assert(seq![us[0]] + us.drop_first() =~= us);
    lemma_apply_in_order_append(s, seq![us[0]], us.drop_first());
    assert(seq![us[0]].drop_last() =~= Seq::<Set<ItemView>>::empty());
}

} // verus!
