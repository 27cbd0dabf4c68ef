use vstd::prelude::*;
use std::collections::HashMap;

use crate::types::{PurrStep, lawful_step};
use crate::cat_malloc::purr_train::PurrTrain;
use crate::cat_malloc::train_types::{PurrRule, PurrTrainEvent};
use crate::cat_telegraph::dispatcher_types::{
    DispatchData, DispatchStep, DispatcherCommand, DispatcherError, PurrKey, RouteAction, TrainReply,
    FAST_ROUTES_CAPACITY,
};
use crate::cat_telegraph::station_link::KeySenderReply;

verus! {

broadcast use {
    vstd::std_specs::hash::group_hash_axioms,
    vstd::array::group_array_axioms,
};

/// The slot holds a route under `key`.
pub open spec fn slot_holds<C: PurrKey, R>(slot: KeySenderReply<C, R>, key: C) -> bool {
    slot.sender is Some && slot.key == key
}

/// The first slot from `i` on that holds a route under `key`, or the length
/// of the table when there is none.
pub open spec fn first_match_from<C: PurrKey, R>(fast: Seq<KeySenderReply<C, R>>, key: C, i: int) -> int
    decreases fast.len() - i,
{
    if i >= fast.len() || i < 0 {
        fast.len() as int
    } else if slot_holds(fast[i], key) {
        i
    } else {
        first_match_from(fast, key, i + 1)
    }
}

/// The first free slot from `i` on, or the length of the table when there
/// is none.
pub open spec fn first_free_from<C: PurrKey, R>(fast: Seq<KeySenderReply<C, R>>, i: int) -> int
    decreases fast.len() - i,
{
    if i >= fast.len() || i < 0 {
        fast.len() as int
    } else if fast[i].sender is None {
        i
    } else {
        first_free_from(fast, i + 1)
    }
}

/// How many slots hold a route.
pub open spec fn occupied_count<C: PurrKey, R>(fast: Seq<KeySenderReply<C, R>>) -> nat
    decreases fast.len(),
{
    if fast.len() == 0 {
        0
    } else {
        occupied_count(fast.drop_last()) + if fast.last().sender is Some { 1nat } else { 0nat }
    }
}

/// `m` with the routes of the slots added in slot order (a later slot with
/// the same key wins).
pub open spec fn fold_fast<C: PurrKey, R>(m: Map<C, R>, fast: Seq<KeySenderReply<C, R>>) -> Map<C, R>
    decreases fast.len(),
{
    if fast.len() == 0 {
        m
    } else {
        let before = fold_fast(m, fast.drop_last());
        match fast.last().sender {
            Some(s) => before.insert(fast.last().key, s),
            None => before,
        }
    }
}

/// The table with route `e` in its first free slot; a full table drops it.
pub open spec fn place<C: PurrKey, R>(fast: Seq<KeySenderReply<C, R>>, e: (C, R)) -> Seq<KeySenderReply<C, R>> {
    let j = first_free_from(fast, 0);
    if j < fast.len() {
        fast.update(j, KeySenderReply { sender: Some(e.1), key: e.0 })
    } else {
        fast
    }
}

/// The table with the routes of `es` placed in order.
pub open spec fn fill<C: PurrKey, R>(fast: Seq<KeySenderReply<C, R>>, es: Seq<(C, R)>) -> Seq<KeySenderReply<C, R>>
    decreases es.len(),
{
    if es.len() == 0 {
        fast
    } else {
        fill(place(fast, es[0]), es.skip(1))
    }
}

/// `es` lists the routes of `m`, each key once.
pub open spec fn lists_routes<C, R>(es: Seq<(C, R)>, m: Map<C, R>) -> bool {
    &&& es.len() == m.len()
    &&& forall|i: int| 0 <= i < es.len() ==> #[trigger] m.contains_key(es[i].0) && m[es[i].0] == es[i].1
    &&& forall|i: int, j: int| 0 <= i < j < es.len() ==> (#[trigger] es[i]).0 != (#[trigger] es[j]).0
}

/// `HashMap::drain`, collected: the map's routes in the map's own order,
/// leaving it empty. The order depends on the map's per-process hashing.
#[verifier::external_body]
fn map_drain<K: core::cmp::Eq + core::hash::Hash, V>(m: &mut HashMap<K, V>) -> (r: Vec<(K, V)>)
    requires
        vstd::std_specs::hash::obeys_key_model::<K>(),
    ensures
        lists_routes(r@, old(m)@),
        final(m)@.dom() == Set::<K>::empty(),
{
    m.drain().collect()
}

proof fn lemma_first_match_from<C: PurrKey, R>(fast: Seq<KeySenderReply<C, R>>, key: C, i: int)
    requires
        0 <= i <= fast.len(),
    ensures
        i <= first_match_from(fast, key, i) <= fast.len(),
        first_match_from(fast, key, i) < fast.len() ==> slot_holds(fast[first_match_from(fast, key, i)], key),
        forall|j: int| i <= j < first_match_from(fast, key, i) ==> !slot_holds(#[trigger] fast[j], key),
    decreases fast.len() - i,
{
    if i < fast.len() && !slot_holds(fast[i], key) {
        lemma_first_match_from(fast, key, i + 1);
    }
}

proof fn lemma_first_free_from<C: PurrKey, R>(fast: Seq<KeySenderReply<C, R>>, i: int)
    requires
        0 <= i <= fast.len(),
    ensures
        i <= first_free_from(fast, i) <= fast.len(),
        first_free_from(fast, i) < fast.len() ==> fast[first_free_from(fast, i)].sender is None,
        forall|j: int| i <= j < first_free_from(fast, i) ==> (#[trigger] fast[j]).sender is Some,
    decreases fast.len() - i,
{
    if i < fast.len() && fast[i].sender is Some {
        lemma_first_free_from(fast, i + 1);
    }
}

proof fn lemma_occupied_update<C: PurrKey, R>(fast: Seq<KeySenderReply<C, R>>, i: int, s: KeySenderReply<C, R>)
    requires
        0 <= i < fast.len(),
    ensures
        occupied_count(fast.update(i, s)) + (if fast[i].sender is Some { 1int } else { 0int })
            == occupied_count(fast) + (if s.sender is Some { 1int } else { 0int }),
    decreases fast.len(),
{
    let u = fast.update(i, s);
    if i == fast.len() - 1 {
        assert(u.drop_last() =~= fast.drop_last());
    } else {
        assert(u.drop_last() =~= fast.drop_last().update(i, s));
        lemma_occupied_update(fast.drop_last(), i, s);
    }
}

proof fn lemma_occupied_bound<C: PurrKey, R>(fast: Seq<KeySenderReply<C, R>>)
    ensures
        occupied_count(fast) <= fast.len(),
    decreases fast.len(),
{
    if fast.len() > 0 {
        lemma_occupied_bound(fast.drop_last());
    }
}

proof fn lemma_occupied_none<C: PurrKey, R>(fast: Seq<KeySenderReply<C, R>>)
    requires
        forall|i: int| 0 <= i < fast.len() ==> (#[trigger] fast[i]).sender is None,
    ensures
        occupied_count(fast) == 0,
    decreases fast.len(),
{
    if fast.len() > 0 {
        lemma_occupied_none(fast.drop_last());
    }
}

proof fn lemma_fold_fast_len<C: PurrKey, R>(m: Map<C, R>, fast: Seq<KeySenderReply<C, R>>)
    requires
        m.dom().finite(),
    ensures
        fold_fast(m, fast).dom().finite(),
        fold_fast(m, fast).len() <= m.len() + occupied_count(fast),
    decreases fast.len(),
{
    if fast.len() > 0 {
        lemma_fold_fast_len(m, fast.drop_last());
    }
}

proof fn lemma_fill_occupied<C: PurrKey, R>(fast: Seq<KeySenderReply<C, R>>, es: Seq<(C, R)>)
    ensures
        occupied_count(fill(fast, es)) <= occupied_count(fast) + es.len(),
        fill(fast, es).len() == fast.len(),
    decreases es.len(),
{
    if es.len() > 0 {
        let p = place(fast, es[0]);
        lemma_first_free_from(fast, 0);
        let j = first_free_from(fast, 0);
        if j < fast.len() {
            lemma_occupied_update(fast, j, KeySenderReply { sender: Some(es[0].1), key: es[0].0 });
        }
        lemma_fill_occupied(p, es.skip(1));
    }
}

/// `table` is `fast` with the routes of `m` placed in free slots in some
/// order that lists each of them once.
pub open spec fn refilled<C: PurrKey, R>(table: Seq<KeySenderReply<C, R>>, fast: Seq<KeySenderReply<C, R>>, m: Map<C, R>) -> bool {
    exists|es: Seq<(C, R)>| lists_routes(es, m) && same_routes(table, #[trigger] fill(fast, es))
}

proof fn lemma_first_match_at<C: PurrKey, R>(fast: Seq<KeySenderReply<C, R>>, key: C, i: int, j: int)
    requires
        0 <= i <= j < fast.len(),
        slot_holds(fast[j], key),
        forall|k: int| i <= k < j ==> !slot_holds(#[trigger] fast[k], key),
    ensures
        first_match_from(fast, key, i) == j,
    decreases j - i,
{
    if i < j {
        lemma_first_match_at(fast, key, i + 1, j);
    }
}

proof fn lemma_first_match_none<C: PurrKey, R>(fast: Seq<KeySenderReply<C, R>>, key: C, i: int)
    requires
        0 <= i <= fast.len(),
        forall|k: int| i <= k < fast.len() ==> !slot_holds(#[trigger] fast[k], key),
    ensures
        first_match_from(fast, key, i) == fast.len(),
    decreases fast.len() - i,
{
    if i < fast.len() {
        lemma_first_match_none(fast, key, i + 1);
    }
}

proof fn lemma_occupied_full<C: PurrKey, R>(fast: Seq<KeySenderReply<C, R>>)
    requires
        forall|i: int| 0 <= i < fast.len() ==> (#[trigger] fast[i]).sender is Some,
    ensures
        occupied_count(fast) == fast.len(),
    decreases fast.len(),
{
    if fast.len() > 0 {
        lemma_occupied_full(fast.drop_last());
    }
}

proof fn lemma_fill_keeps_out<C: PurrKey, R>(fast: Seq<KeySenderReply<C, R>>, es: Seq<(C, R)>, key: C)
    requires
        forall|k: int| 0 <= k < fast.len() ==> !slot_holds(#[trigger] fast[k], key),
        forall|i: int| 0 <= i < es.len() ==> (#[trigger] es[i]).0 != key,
    ensures
        forall|k: int| 0 <= k < fill(fast, es).len() ==> !slot_holds(#[trigger] fill(fast, es)[k], key),
    decreases es.len(),
{
    if es.len() > 0 {
        let p = place(fast, es[0]);
        let j = first_free_from(fast, 0);
        lemma_first_free_from(fast, 0);
        let slot = KeySenderReply { sender: Some(es[0].1), key: es[0].0 };
        assert(es[0].0 != key);
        assert(!slot_holds(slot, key));
        if j < fast.len() {
            assert(p == fast.update(j, slot));
        } else {
            assert(p == fast);
        }
        assert(p.len() == fast.len());
        assert forall|k: int| 0 <= k < p.len() implies !slot_holds(#[trigger] p[k], key) by {
            if j < fast.len() && k == j {
                assert(p[k] == slot);
            } else {
                assert(p[k] == fast[k]);
            }
        }
        assert forall|i: int| 0 <= i < es.skip(1).len() implies (#[trigger] es.skip(1)[i]).0 != key by {
            assert(es.skip(1)[i] == es[i + 1]);
        }
        lemma_fill_keeps_out(p, es.skip(1), key);
        assert(fill(fast, es) == fill(p, es.skip(1)));
    }
}

/// Some slot of the table holds a route under `k`.
pub open spec fn held_in<C: PurrKey, R>(fast: Seq<KeySenderReply<C, R>>, k: C) -> bool {
    exists|t: int| 0 <= t < fast.len() && #[trigger] slot_holds(fast[t], k)
}

/// Some route of `es` is under `k`.
pub open spec fn listed<C, R>(es: Seq<(C, R)>, k: C) -> bool {
    exists|i: int| 0 <= i < es.len() && (#[trigger] es[i]).0 == k
}

/// Every free slot of the table holds the key `free_key`, as a fresh slot does.
pub open spec fn free_slots_blank<C: PurrKey, R>(fast: Seq<KeySenderReply<C, R>>, free_key: C) -> bool {
    forall|j: int| 0 <= j < fast.len() && (#[trigger] fast[j]).sender is None ==> fast[j].key == free_key
}

proof fn lemma_place_blank<C: PurrKey, R>(fast: Seq<KeySenderReply<C, R>>, e: (C, R), free_key: C)
    requires
        free_slots_blank(fast, free_key),
    ensures
        free_slots_blank(place(fast, e), free_key),
{
    lemma_first_free_from(fast, 0);
    let j = first_free_from(fast, 0);
    let p = place(fast, e);
    assert forall|t: int| 0 <= t < p.len() && (#[trigger] p[t]).sender is None implies p[t].key == free_key by {
        if j < fast.len() {
            if t != j {
                assert(p[t] == fast[t]);
            }
        }
    }
}

/// No two slots of the table hold a route under the same key.
pub open spec fn keys_unique<C: PurrKey, R>(fast: Seq<KeySenderReply<C, R>>) -> bool {
    forall|i: int, j: int| 0 <= i < fast.len() && 0 <= j < fast.len() && i != j
        && (#[trigger] fast[i]).sender is Some && (#[trigger] fast[j]).sender is Some ==> fast[i].key != fast[j].key
}

proof fn lemma_first_match_exists<C: PurrKey, R>(fast: Seq<KeySenderReply<C, R>>, key: C)
    ensures
        first_match_from(fast, key, 0) < fast.len() <==> held_in(fast, key),
{
    lemma_first_match_from(fast, key, 0);
    if first_match_from(fast, key, 0) < fast.len() {
        assert(slot_holds(fast[first_match_from(fast, key, 0)], key));
    }
}

proof fn lemma_free_slot_exists<C: PurrKey, R>(fast: Seq<KeySenderReply<C, R>>)
    requires
        occupied_count(fast) < fast.len(),
    ensures
        first_free_from(fast, 0) < fast.len(),
{
    lemma_first_free_from(fast, 0);
    if first_free_from(fast, 0) >= fast.len() {
        lemma_occupied_full(fast);
    }
}

proof fn lemma_fold_fast_dom<C: PurrKey, R>(m: Map<C, R>, fast: Seq<KeySenderReply<C, R>>)
    requires
        m.dom().finite(),
        keys_unique(fast),
        forall|i: int| 0 <= i < fast.len() && (#[trigger] fast[i]).sender is Some ==> !m.contains_key(fast[i].key),
    ensures
        fold_fast(m, fast).dom().finite(),
        fold_fast(m, fast).len() == m.len() + occupied_count(fast),
        forall|k: C| #[trigger] fold_fast(m, fast).contains_key(k) <==> (m.contains_key(k) || held_in(fast, k)),
    decreases fast.len(),
{
    if fast.len() > 0 {
        let d = fast.drop_last();
        assert forall|i: int, j: int| 0 <= i < d.len() && 0 <= j < d.len() && i != j
            && (#[trigger] d[i]).sender is Some && (#[trigger] d[j]).sender is Some implies d[i].key != d[j].key by {
            assert(d[i] == fast[i] && d[j] == fast[j]);
        }
        assert forall|i: int| 0 <= i < d.len() && (#[trigger] d[i]).sender is Some implies !m.contains_key(d[i].key) by {
            assert(d[i] == fast[i]);
        }
        lemma_fold_fast_dom(m, d);
        let l = fast.last();
        let before = fold_fast(m, d);
        if l.sender is Some {
            assert(!before.contains_key(l.key)) by {
                if before.contains_key(l.key) {
                    if !m.contains_key(l.key) {
                        let i = choose|i: int| 0 <= i < d.len() && #[trigger] slot_holds(d[i], l.key);
                        assert(fast[i] == d[i]);
                        assert(fast[fast.len() - 1] == l);
                    }
                }
            }
        }
        assert forall|k: C| #[trigger] fold_fast(m, fast).contains_key(k) <==> (m.contains_key(k) || held_in(fast, k)) by {
            if exists|i: int| 0 <= i < fast.len() && #[trigger] slot_holds(fast[i], k) {
                let i = choose|i: int| 0 <= i < fast.len() && #[trigger] slot_holds(fast[i], k);
                if i < fast.len() - 1 {
                    assert(d[i] == fast[i]);
                    assert(slot_holds(d[i], k));
                }
            }
            if exists|i: int| 0 <= i < d.len() && #[trigger] slot_holds(d[i], k) {
                let i = choose|i: int| 0 <= i < d.len() && #[trigger] slot_holds(d[i], k);
                assert(fast[i] == d[i]);
                assert(slot_holds(fast[i], k));
            }
            if slot_holds(l, k) {
                assert(slot_holds(fast[fast.len() - 1], k));
            }
        }
    }
}

proof fn lemma_fill_props<C: PurrKey, R>(fast: Seq<KeySenderReply<C, R>>, es: Seq<(C, R)>)
    requires
        keys_unique(fast),
        es.len() + occupied_count(fast) <= fast.len(),
        forall|i: int, j: int| 0 <= i < j < es.len() ==> (#[trigger] es[i]).0 != (#[trigger] es[j]).0,
        forall|i: int, t: int| 0 <= i < es.len() && 0 <= t < fast.len() ==> !slot_holds(#[trigger] fast[t], (#[trigger] es[i]).0),
    ensures
        fill(fast, es).len() == fast.len(),
        keys_unique(fill(fast, es)),
        occupied_count(fill(fast, es)) == occupied_count(fast) + es.len(),
        forall|k: C| #[trigger] held_in(fill(fast, es), k) <==> (held_in(fast, k) || listed(es, k)),
    decreases es.len(),
{
    lemma_fill_occupied(fast, es);
    if es.len() > 0 {
        lemma_occupied_bound(fast);
        lemma_free_slot_exists(fast);
        lemma_first_free_from(fast, 0);
        let j = first_free_from(fast, 0);
        let e = es[0];
        let slot = KeySenderReply { sender: Some(e.1), key: e.0 };
        let p = fast.update(j, slot);
        assert(place(fast, e) == p);
        assert(fill(fast, es) == fill(p, es.skip(1)));
        lemma_occupied_update(fast, j, slot);
        assert forall|a: int, b: int| 0 <= a < p.len() && 0 <= b < p.len() && a != b
            && (#[trigger] p[a]).sender is Some && (#[trigger] p[b]).sender is Some implies p[a].key != p[b].key by {
            if a == j {
                assert(!slot_holds(fast[b], es[0].0));
            } else if b == j {
                assert(!slot_holds(fast[a], es[0].0));
            }
        }
        let rest = es.skip(1);
        assert forall|i: int, k: int| 0 <= i < k < rest.len() implies (#[trigger] rest[i]).0 != (#[trigger] rest[k]).0 by {
            assert(rest[i] == es[i + 1] && rest[k] == es[k + 1]);
        }
        assert forall|i: int, t: int| 0 <= i < rest.len() && 0 <= t < p.len() implies !slot_holds(#[trigger] p[t], (#[trigger] rest[i]).0) by {
            assert(rest[i] == es[i + 1]);
            if t == j {
                assert(es[0].0 != es[i + 1].0);
            } else {
                assert(!slot_holds(fast[t], es[i + 1].0));
            }
        }
        lemma_fill_props(p, rest);
        assert forall|k: C| #[trigger] held_in(fill(fast, es), k) <==> (held_in(fast, k) || listed(es, k)) by {
            assert(held_in(fill(fast, es), k) == held_in(p, k) || listed(rest, k));
            if exists|t: int| 0 <= t < fast.len() && #[trigger] slot_holds(p[t], k) {
                let t = choose|t: int| 0 <= t < fast.len() && #[trigger] slot_holds(p[t], k);
                if t == j {
                    assert(es[0].0 == k);
                } else {
                    assert(slot_holds(fast[t], k));
                }
            }
            if exists|t: int| 0 <= t < fast.len() && #[trigger] slot_holds(fast[t], k) {
                let t = choose|t: int| 0 <= t < fast.len() && #[trigger] slot_holds(fast[t], k);
                assert(t != j);
                assert(slot_holds(p[t], k));
            }
            if exists|i: int| 0 <= i < es.len() && (#[trigger] es[i]).0 == k {
                let i = choose|i: int| 0 <= i < es.len() && (#[trigger] es[i]).0 == k;
                if i == 0 {
                    assert(slot_holds(p[j], k));
                } else {
                    assert(rest[i - 1] == es[i]);
                }
            }
            if exists|i: int| 0 <= i < rest.len() && (#[trigger] rest[i]).0 == k {
                let i = choose|i: int| 0 <= i < rest.len() && (#[trigger] rest[i]).0 == k;
                assert(rest[i] == es[i + 1]);
            }
        }
    } else {
        assert(fill(fast, es) == fast);
    }
}

proof fn lemma_lists_all<C: PurrKey, R>(es: Seq<(C, R)>, m: Map<C, R>)
    requires
        lists_routes(es, m),
        m.dom().finite(),
    ensures
        forall|k: C| #[trigger] m.contains_key(k) <==> listed(es, k),
{
    let ks = es.map_values(|e: (C, R)| e.0);
    assert(ks.no_duplicates()) by {
        assert forall|i: int, j: int| 0 <= i < ks.len() && 0 <= j < ks.len() && i != j implies ks[i] != ks[j] by {
            if i < j {
                assert(es[i].0 != es[j].0);
            } else {
                assert(es[j].0 != es[i].0);
            }
        }
    }
    ks.unique_seq_to_set();
    assert forall|k: C| #[trigger] m.contains_key(k) <==> listed(es, k) by {
        if listed(es, k) {
            let i = choose|i: int| 0 <= i < es.len() && (#[trigger] es[i]).0 == k;
            assert(m.contains_key(es[i].0));
        }
        if m.contains_key(k) && !listed(es, k) {
            assert(ks.to_set().subset_of(m.dom().remove(k))) by {
                assert forall|x: C| ks.to_set().contains(x) implies m.dom().remove(k).contains(x) by {
                    let i = choose|i: int| 0 <= i < ks.len() && ks[i] == x;
                    assert(es[i].0 == x);
                    assert(m.contains_key(es[i].0));
                }
            }
            vstd::set_lib::lemma_len_subset(ks.to_set(), m.dom().remove(k));
            assert(false);
        }
    }
}

/// The two tables hold the same routes in the same slots (keys of free slots
/// aside).
pub open spec fn same_routes<C: PurrKey, R>(a: Seq<KeySenderReply<C, R>>, b: Seq<KeySenderReply<C, R>>) -> bool {
    &&& a.len() == b.len()
    &&& forall|j: int| 0 <= j < a.len() ==> (#[trigger] a[j]).sender == b[j].sender
    &&& forall|j: int| 0 <= j < a.len() && (#[trigger] a[j]).sender is Some ==> a[j].key == b[j].key
}

proof fn lemma_same_routes_first_free<C: PurrKey, R>(a: Seq<KeySenderReply<C, R>>, b: Seq<KeySenderReply<C, R>>, i: int)
    requires
        same_routes(a, b),
        0 <= i <= a.len(),
    ensures
        first_free_from(a, i) == first_free_from(b, i),
    decreases a.len() - i,
{
    if i < a.len() {
        assert(a[i].sender == b[i].sender);
        lemma_same_routes_first_free(a, b, i + 1);
    }
}

proof fn lemma_same_routes_fill<C: PurrKey, R>(a: Seq<KeySenderReply<C, R>>, b: Seq<KeySenderReply<C, R>>, es: Seq<(C, R)>)
    requires
        same_routes(a, b),
    ensures
        same_routes(fill(a, es), fill(b, es)),
    decreases es.len(),
{
    if es.len() > 0 {
        lemma_same_routes_first_free(a, b, 0);
        lemma_first_free_from(a, 0);
        let pa = place(a, es[0]);
        let pb = place(b, es[0]);
        assert(pa.len() == pb.len());
        assert forall|j: int| 0 <= j < pa.len() implies (#[trigger] pa[j]).sender == pb[j].sender by {
            assert(a[j].sender == b[j].sender);
        }
        assert forall|j: int| 0 <= j < pa.len() && (#[trigger] pa[j]).sender is Some implies pa[j].key == pb[j].key by {
            assert(a[j].sender == b[j].sender);
        }
        assert(same_routes(pa, pb));
        lemma_same_routes_fill(pa, pb, es.skip(1));
    }
}

proof fn lemma_same_routes_occupied<C: PurrKey, R>(a: Seq<KeySenderReply<C, R>>, b: Seq<KeySenderReply<C, R>>)
    requires
        same_routes(a, b),
    ensures
        occupied_count(a) == occupied_count(b),
    decreases a.len(),
{
    if a.len() > 0 {
        assert(a.last().sender == b.last().sender);
        lemma_same_routes_occupied(a.drop_last(), b.drop_last());
    }
}

/// A train together with the routes its replies go out on: a fixed table
/// of slots, and a map that takes over when the table is outgrown.
#[derive(Debug)]
pub struct PurrDispatcher<T: PurrStep, U: PurrRule, C: PurrKey, R> {
    pub purr_train: PurrTrain<T, U>,
    pub line_count: usize,
    pub fast_routes: [KeySenderReply<C, R>; FAST_ROUTES_CAPACITY],
    pub dynamic_routes: HashMap<C, R>,
    /// The key that every free slot of the table holds: the key type's
    /// default, taken once when the dispatcher is made.
    pub free_key: C,
}

impl<T: PurrStep, U: PurrRule, C: PurrKey, R> PurrDispatcher<T, U, C, R> {
    /// The route count covers every route held, every free slot is blank,
    /// and the train is sound.
    pub open spec fn wf(&self) -> bool {
        &&& self.purr_train.wf()
        &&& self.line_count >= occupied_count(self.fast_routes@) + self.dynamic_routes@.len()
        &&& free_slots_blank(self.fast_routes@, self.free_key)
    }

    /// Every route is counted once and each key is held once, and one
    /// store is in use at a time: the table while the route count is within
    /// its size, the map past it.
    pub open spec fn routes_tidy(&self) -> bool {
        &&& self.dynamic_routes@.dom().finite()
        &&& self.line_count == occupied_count(self.fast_routes@) + self.dynamic_routes@.len()
        &&& keys_unique(self.fast_routes@)
        &&& self.line_count <= FAST_ROUTES_CAPACITY ==> self.dynamic_routes@.dom() == Set::<C>::empty()
        &&& self.line_count > FAST_ROUTES_CAPACITY ==> forall|i: int|
            0 <= i < FAST_ROUTES_CAPACITY ==> (#[trigger] self.fast_routes@[i]).sender is None
    }

    /// A route is held under `key`, in the table or in the map.
    pub open spec fn holds_route(&self, key: C) -> bool {
        held_in(self.fast_routes@, key) || self.dynamic_routes@.contains_key(key)
    }

    pub fn new() -> (r: Self)
        ensures
            r.wf(),
            r.routes_tidy(),
            r.line_count == 0,
            forall|i: int| 0 <= i < FAST_ROUTES_CAPACITY ==> (#[trigger] r.fast_routes@[i]).sender is None,
            r.dynamic_routes@ == Map::<C, R>::empty(),
            r.purr_train.carriages().len() == 0,
    {
        let free_key = C::default();
        let fast_routes = [
            KeySenderReply { sender: None, key: free_key }, KeySenderReply { sender: None, key: free_key },
            KeySenderReply { sender: None, key: free_key }, KeySenderReply { sender: None, key: free_key },
            KeySenderReply { sender: None, key: free_key }, KeySenderReply { sender: None, key: free_key },
            KeySenderReply { sender: None, key: free_key }, KeySenderReply { sender: None, key: free_key },
            KeySenderReply { sender: None, key: free_key }, KeySenderReply { sender: None, key: free_key },
            KeySenderReply { sender: None, key: free_key }, KeySenderReply { sender: None, key: free_key },
            KeySenderReply { sender: None, key: free_key }, KeySenderReply { sender: None, key: free_key },
            KeySenderReply { sender: None, key: free_key }, KeySenderReply { sender: None, key: free_key },
        ];
        let r = PurrDispatcher {
            purr_train: PurrTrain::new(),
            line_count: 0,
            fast_routes,
            dynamic_routes: HashMap::new(),
            free_key,
        };
        proof {
            lemma_occupied_none(r.fast_routes@);
        }
        r
    }

    /// The first slot holding a route under `key`, or the table size.
    fn find_route_slot(&self, key: C) -> (r: usize)
        requires
            lawful_step::<C>(),
        ensures
            r == first_match_from(self.fast_routes@, key, 0),
    {
        let mut i: usize = 0;
        while i < FAST_ROUTES_CAPACITY
            invariant
                lawful_step::<C>(),
                i <= FAST_ROUTES_CAPACITY,
                first_match_from(self.fast_routes@, key, 0) == first_match_from(self.fast_routes@, key, i as int),
            decreases FAST_ROUTES_CAPACITY - i,
        {
            proof {
                reveal(vstd::laws_eq::obeys_concrete_eq);
            }
            let slot = &self.fast_routes[i];
            if slot.sender.is_some() && slot.key == key {
                return i;
            }
            i += 1;
        }
        i
    }

    /// The first free slot, or the table size.
    fn find_free_slot(&self) -> (r: usize)
        ensures
            r == first_free_from(self.fast_routes@, 0),
    {
        let mut i: usize = 0;
        while i < FAST_ROUTES_CAPACITY
            invariant
                i <= FAST_ROUTES_CAPACITY,
                first_free_from(self.fast_routes@, 0) == first_free_from(self.fast_routes@, i as int),
            decreases FAST_ROUTES_CAPACITY - i,
        {
            if self.fast_routes[i].sender.is_none() {
                return i;
            }
            i += 1;
        }
        i
    }

    /// The route a reply under `key` goes out on: the first slot of the
    /// table holding `key` while the table is in use (or `find_all`), else
    /// the map while it is in use (or `find_all`).
    pub open spec fn route_of(&self, key: C, route_action: RouteAction) -> Option<R> {
        let find_all = route_action matches RouteAction::GetConfigure { find_all: true };
        let i = first_match_from(self.fast_routes@, key, 0);
        if (self.line_count <= FAST_ROUTES_CAPACITY || find_all) && i < FAST_ROUTES_CAPACITY {
            self.fast_routes@[i].sender
        } else if self.line_count > FAST_ROUTES_CAPACITY || find_all {
            if self.dynamic_routes@.contains_key(key) { Some(self.dynamic_routes@[key]) } else { None }
        } else {
            None
        }
    }

    pub fn get_route(&self, key: C, route_action: RouteAction) -> (r: Option<&R>)
        requires
            lawful_step::<C>(),
        ensures
            match r {
                Some(s) => self.route_of(key, route_action) == Some(*s),
                None => self.route_of(key, route_action) is None,
            },
    {
        let find_all = match route_action {
            RouteAction::GetConfigure { find_all } => find_all,
            _ => false,
        };
        if self.line_count <= FAST_ROUTES_CAPACITY || find_all {
            let i = self.find_route_slot(key);
            proof {
                lemma_first_match_from(self.fast_routes@, key, 0);
            }
            if i < FAST_ROUTES_CAPACITY {
                return self.fast_routes[i].sender.as_ref();
            }
        }
        if self.line_count > FAST_ROUTES_CAPACITY || find_all {
            return self.dynamic_routes.get(&key);
        }
        None
    }

    /// Moves every route of the table into the map, in slot order, leaving
    /// the table free.
    fn migrate_to_dynamic(&mut self)
        requires
            lawful_step::<C>(),
        ensures
            final(self).dynamic_routes@ == fold_fast(old(self).dynamic_routes@, old(self).fast_routes@),
            forall|i: int| 0 <= i < FAST_ROUTES_CAPACITY ==> (#[trigger] final(self).fast_routes@[i]).sender is None,
            forall|i: int| 0 <= i < FAST_ROUTES_CAPACITY ==> (#[trigger] final(self).fast_routes@[i]).key == old(self).free_key,
            final(self).line_count == old(self).line_count,
            final(self).purr_train == old(self).purr_train,
            final(self).free_key == old(self).free_key,
    {
        let ghost fast0 = self.fast_routes@;
        let ghost dyn0 = self.dynamic_routes@;
        let mut i: usize = 0;
        while i < FAST_ROUTES_CAPACITY
            invariant
                lawful_step::<C>(),
                i <= FAST_ROUTES_CAPACITY,
                fast0.len() == FAST_ROUTES_CAPACITY,
                self.dynamic_routes@ == fold_fast(dyn0, fast0.take(i as int)),
                forall|j: int| 0 <= j < i ==> (#[trigger] self.fast_routes@[j]).sender is None,
                forall|j: int| 0 <= j < i ==> (#[trigger] self.fast_routes@[j]).key == old(self).free_key,
                forall|j: int| i <= j < FAST_ROUTES_CAPACITY ==> #[trigger] self.fast_routes@[j] == fast0[j],
                self.line_count == old(self).line_count,
                self.purr_train == old(self).purr_train,
                self.free_key == old(self).free_key,
            decreases FAST_ROUTES_CAPACITY - i,
        {
            let mut slot = KeySenderReply { sender: None, key: self.free_key };
            core::mem::swap(&mut slot, &mut self.fast_routes[i]);
            assert(fast0.take(i + 1).drop_last() =~= fast0.take(i as int));
            match slot.sender {
                Some(s) => {
                    self.dynamic_routes.insert(slot.key, s);
                },
                None => {},
            }
            i += 1;
        }
        assert(fast0.take(FAST_ROUTES_CAPACITY as int) =~= fast0);
    }

    /// What `add_route` makes of `pre`, and returns, for the route `sender`
    /// under `key` and `route_action`.
    pub open spec fn route_added(pre: &Self, post: &Self, key: C, route_action: RouteAction, sender: R, r: Result<(), DispatcherError>) -> bool {
        let lc = pre.line_count;
        let fast = pre.fast_routes@;
        let dynm = pre.dynamic_routes@;
        let dup_check = route_action is Default || route_action matches RouteAction::AddConfigure { check_duplicates: true, .. };
        let dup_migrate = route_action matches RouteAction::AddConfigure { check_duplicates_migrate: true, .. };
        let to_dynamic = route_action is Default || route_action matches RouteAction::AddConfigure { migrate_to_dynamic: true, .. };
        let in_fast = first_match_from(fast, key, 0) < FAST_ROUTES_CAPACITY;
        let unchanged = post.line_count == lc && post.fast_routes@ == fast && post.dynamic_routes@ == dynm;
        &&& post.free_key == pre.free_key
        &&& free_slots_blank(post.fast_routes@, post.free_key)
        &&& post.purr_train == pre.purr_train
        &&& if lc < FAST_ROUTES_CAPACITY {
            if dup_check && in_fast {
                r == Err::<(), DispatcherError>(DispatcherError::DuplicateInFastRoutes) && unchanged
            } else if dup_check && dup_migrate && dynm.contains_key(key) {
                r == Err::<(), DispatcherError>(DispatcherError::DuplicateInDynamicRoutes) && unchanged
            } else {
                let j = first_free_from(fast, 0);
                &&& r == Ok::<(), DispatcherError>(())
                &&& post.line_count == lc + 1
                &&& post.dynamic_routes@ == dynm
                &&& post.fast_routes@ == (if j < FAST_ROUTES_CAPACITY {
                    fast.update(j, KeySenderReply { sender: Some(sender), key })
                } else {
                    fast
                })
            }
        } else {
            if dup_check && dynm.contains_key(key) {
                r == Err::<(), DispatcherError>(DispatcherError::DuplicateInDynamicRoutes) && unchanged
            } else if dup_migrate && in_fast {
                r == Err::<(), DispatcherError>(DispatcherError::DuplicateInFastRoutes) && unchanged
            } else {
                &&& r == Ok::<(), DispatcherError>(())
                &&& post.line_count == lc + 1
                &&& to_dynamic ==> {
                    &&& forall|i: int| 0 <= i < FAST_ROUTES_CAPACITY ==> (#[trigger] post.fast_routes@[i]).sender is None
                    &&& post.dynamic_routes@ == fold_fast(dynm, fast).insert(key, sender)
                }
                &&& !to_dynamic ==> {
                    &&& post.fast_routes@ == fast
                    &&& post.dynamic_routes@ == dynm.insert(key, sender)
                }
            }
        }
    }

    /// Registers the route `sender` under `key`. While the route count is
    /// below the table size, the route takes the first free slot, after the
    /// duplicate checks the action asks for (the table, then the map).
    /// From then on it goes into the map, after the checks (the map, then
    /// the table), and the table's routes are first moved into the map when
    /// the action asks for it. A refused route changes nothing.
    pub fn add_route(&mut self, key: C, route_action: RouteAction, sender: R) -> (r: Result<(), DispatcherError>)
        requires
            lawful_step::<C>(),
            old(self).wf(),
            old(self).line_count < usize::MAX,
        ensures
            final(self).wf(),
            Self::route_added(&*old(self), &*final(self), key, route_action, sender, r),
    {
        let dup_check = match route_action {
            RouteAction::Default => true,
            RouteAction::AddConfigure { check_duplicates, .. } => check_duplicates,
            _ => false,
        };
        let dup_migrate = match route_action {
            RouteAction::AddConfigure { check_duplicates_migrate, .. } => check_duplicates_migrate,
            _ => false,
        };
        let to_dynamic = match route_action {
            RouteAction::Default => true,
            RouteAction::AddConfigure { migrate_to_dynamic, .. } => migrate_to_dynamic,
            _ => false,
        };
        let ghost fast = self.fast_routes@;
        let ghost dynm = self.dynamic_routes@;
        proof {
            lemma_first_match_from(fast, key, 0);
            lemma_first_free_from(fast, 0);
            lemma_occupied_bound(fast);
        }
        if self.line_count < FAST_ROUTES_CAPACITY {
            if dup_check {
                if self.find_route_slot(key) < FAST_ROUTES_CAPACITY {
                    return Err(DispatcherError::DuplicateInFastRoutes);
                }
                if dup_migrate && self.dynamic_routes.contains_key(&key) {
                    return Err(DispatcherError::DuplicateInDynamicRoutes);
                }
            }
            let j = self.find_free_slot();
            if j < FAST_ROUTES_CAPACITY {
                proof {
                    lemma_occupied_update(fast, j as int, KeySenderReply { sender: Some(sender), key });
                }
                self.fast_routes[j] = KeySenderReply { sender: Some(sender), key };
            }
        } else {
            if dup_check && self.dynamic_routes.contains_key(&key) {
                return Err(DispatcherError::DuplicateInDynamicRoutes);
            }
            if dup_migrate && self.find_route_slot(key) < FAST_ROUTES_CAPACITY {
                return Err(DispatcherError::DuplicateInFastRoutes);
            }
            if to_dynamic {
                self.migrate_to_dynamic();
                proof {
                    lemma_fold_fast_len(dynm, fast);
                    lemma_occupied_none(self.fast_routes@);
                }
            }
            self.dynamic_routes.insert(key, sender);
        }
        self.line_count += 1;
        Ok(())
    }

    /// Puts the route (`key`, `sender`) into the first free slot; a full
    /// table drops it.
    fn place_route(&mut self, key: C, sender: R)
        ensures
            final(self).fast_routes@ == place(old(self).fast_routes@, (key, sender)),
            final(self).dynamic_routes@ == old(self).dynamic_routes@,
            final(self).line_count == old(self).line_count,
            final(self).purr_train == old(self).purr_train,
            final(self).free_key == old(self).free_key,
    {
        let j = self.find_free_slot();
        if j < FAST_ROUTES_CAPACITY {
            self.fast_routes[j] = KeySenderReply { sender: Some(sender), key };
        }
    }

    /// What `delete_route` makes of `pre` for `key` under `route_action`.
    pub open spec fn route_deleted(pre: &Self, post: &Self, key: C, route_action: RouteAction) -> bool {
        let lc = pre.line_count;
        let fast = pre.fast_routes@;
        let dynm = pre.dynamic_routes@;
        let everywhere = route_action matches RouteAction::DeleteConfigure { delete_everywhere: true, .. };
        let to_fast = route_action is Default || route_action matches RouteAction::DeleteConfigure { migrate_to_fast: true, .. };
        let i1 = first_match_from(fast, key, 0);
        let hit1 = (lc <= FAST_ROUTES_CAPACITY || everywhere) && i1 < FAST_ROUTES_CAPACITY;
        let fast1 = if hit1 { fast.update(i1, KeySenderReply { sender: None, key: fast[i1].key }) } else { fast };
        let lc1 = if hit1 { lc - 1 } else { lc as int };
        let look2 = lc1 > FAST_ROUTES_CAPACITY || everywhere;
        let hit2 = look2 && dynm.contains_key(key);
        let dyn2 = if hit2 { dynm.remove(key) } else { dynm };
        let lc2 = if hit2 { lc1 - 1 } else { lc1 };
        let migrate = look2 && lc2 <= FAST_ROUTES_CAPACITY && to_fast;
        &&& post.line_count == lc2
        &&& !migrate ==> same_routes(post.fast_routes@, fast1) && post.dynamic_routes@ == dyn2
        &&& migrate ==> {
            &&& post.dynamic_routes@.dom() == Set::<C>::empty()
            &&& refilled(post.fast_routes@, fast1, dyn2)
        }
        &&& post.free_key == pre.free_key
        &&& free_slots_blank(post.fast_routes@, post.free_key)
        &&& post.purr_train == pre.purr_train
    }

    /// Removes the route under `key`: from the table (its first slot with
    /// `key`) while the route count is within the table size or the action
    /// says everywhere; then, with the count updated, from the map while the
    /// count is past the table size or the action says everywhere. When the
    /// map was looked at and the count is then within the table size, the
    /// action's migration (by default) moves the map's routes into free slots
    /// in the map's own order, dropping those that find none.
    pub fn delete_route(&mut self, key: C, route_action: RouteAction)
        requires
            lawful_step::<C>(),
            old(self).wf(),
        ensures
            final(self).wf(),
            Self::route_deleted(&*old(self), &*final(self), key, route_action),
    {
        let everywhere = match route_action {
            RouteAction::DeleteConfigure { delete_everywhere, .. } => delete_everywhere,
            _ => false,
        };
        let to_fast = match route_action {
            RouteAction::Default => true,
            RouteAction::DeleteConfigure { migrate_to_fast, .. } => migrate_to_fast,
            _ => false,
        };
        let ghost fast = self.fast_routes@;
        let ghost dynm = self.dynamic_routes@;
        let ghost i1 = first_match_from(fast, key, 0);
        let ghost fast1 = fast;
        proof {
            lemma_first_match_from(fast, key, 0);
            lemma_occupied_bound(fast);
        }
        if self.line_count <= FAST_ROUTES_CAPACITY || everywhere {
            let i = self.find_route_slot(key);
            if i < FAST_ROUTES_CAPACITY {
                proof {
                    fast1 = fast.update(i1, KeySenderReply { sender: None, key: fast[i1].key });
                    lemma_occupied_update(fast, i as int, KeySenderReply { sender: None, key: fast[i1].key });
                }
                let free = KeySenderReply { sender: None, key: self.free_key };
                let ghost free_spec = free;
                self.fast_routes[i] = free;
                proof {
                    lemma_occupied_update(fast, i as int, free_spec);
                    assert(same_routes(self.fast_routes@, fast1));
                    assert forall|t: int| 0 <= t < FAST_ROUTES_CAPACITY && (#[trigger] self.fast_routes@[t]).sender is None
                        implies self.fast_routes@[t].key == self.free_key by {
                        if t != i {
                            assert(self.fast_routes@[t] == fast[t]);
                        }
                    }
                }
                self.line_count -= 1;
            }
        }
        assert(same_routes(self.fast_routes@, fast1));
        proof {
            lemma_same_routes_occupied(self.fast_routes@, fast1);
        }
        if self.line_count > FAST_ROUTES_CAPACITY || everywhere {
            if self.dynamic_routes.remove(&key).is_some() {
                self.line_count -= 1;
            }
            proof {
                if !dynm.contains_key(key) {
                    assert(dynm.remove(key) =~= dynm);
                }
            }
            if !(self.line_count <= FAST_ROUTES_CAPACITY && to_fast) {
                return;
            }
            let ghost fast_before = self.fast_routes@;
            let ghost dyn2 = self.dynamic_routes@;
            let ghost lc2 = self.line_count;
            let mut routes = map_drain(&mut self.dynamic_routes);
            let ghost es = routes@;
            let n = routes.len();
            let mut k: usize = 0;
            proof {
                lemma_same_routes_fill(fast_before, fast1, es);
                lemma_fill_occupied(fast1, es);
                assert(es.skip(0) =~= es);
            }
            while routes.len() > 0
                invariant
                    n == es.len(),
                    k <= es.len(),
                    routes@ == es.skip(k as int),
                    same_routes(fill(self.fast_routes@, es.skip(k as int)), fill(fast1, es)),
                    self.fast_routes@.len() == FAST_ROUTES_CAPACITY,
                    self.dynamic_routes@.dom() == Set::<C>::empty(),
                    self.line_count == lc2,
                    self.purr_train == old(self).purr_train,
                    self.free_key == old(self).free_key,
                    free_slots_blank(self.fast_routes@, self.free_key),
                decreases routes@.len(),
            {
                let ghost cur = self.fast_routes@;
                let ghost rest = es.skip(k as int);
                let (rk, rs) = routes.remove(0);
                assert(rest[0] == (rk, rs));
                assert(rest.skip(1) =~= es.skip(k + 1));
                self.place_route(rk, rs);
                proof {
                    lemma_place_blank(cur, (rk, rs), self.free_key);
                }
                assert(fill(cur, rest) == fill(place(cur, rest[0]), rest.skip(1)));
                k += 1;
            }
            proof {
                assert(es.skip(k as int) =~= Seq::<(C, R)>::empty());
                assert(fill(self.fast_routes@, es.skip(k as int)) == self.fast_routes@);
                assert(same_routes(self.fast_routes@, fill(fast1, es)));
                assert(lists_routes(es, dyn2));
                lemma_same_routes_occupied(self.fast_routes@, fill(fast1, es));
            }
        }
    }
    /// Takes one command: updates the dispatcher's state for it and says what
    /// is left to do over channels. A route command is recorded by its
    /// action; any other command answers on the route of its key, and is
    /// recorded with its key (and its carriage, position or length) for when
    /// that answer has gone out. Carriage commands change nothing here.
    pub fn dispatch_command(&mut self, command: DispatcherCommand<T, C>) -> (r: (DispatchData<T, C>, DispatchStep<T, U, C>))
        requires
            lawful_step::<C>(),
            old(self).wf(),
        ensures
            final(self).wf(),
            match command {
                DispatcherCommand::AddRoute { key, action, channel_cap } => {
                    &&& r.0 == (DispatchData::<T, C> { command: None, key: None, carriage: None, insert_position: None, line_length: None, action: Some(action) })
                    &&& r.1 == (DispatchStep::<T, U, C>::OpenRoute { key, action, channel_cap })
                    &&& *final(self) == *old(self)
                },
                DispatcherCommand::DeleteRoute { key, action } => {
                    &&& r.0 == (DispatchData::<T, C> { command: None, key: None, carriage: None, insert_position: None, line_length: None, action: Some(action) })
                    &&& r.1 == DispatchStep::<T, U, C>::Done
                    &&& Self::route_deleted(&*old(self), &*final(self), key, action)
                },
                DispatcherCommand::Attach { carriage, key } | DispatcherCommand::Replace { carriage, key } => {
                    &&& r.0 == (DispatchData::<T, C> { command: Some(command), key: Some(key), carriage: Some(carriage), insert_position: None, line_length: None, action: None })
                    &&& r.1 == (DispatchStep::<T, U, C>::Reply { key, reply: TrainReply::Empty })
                    &&& *final(self) == *old(self)
                },
                DispatcherCommand::RerouteAt { carriage, position, key } => {
                    &&& r.0 == (DispatchData::<T, C> { command: Some(command), key: Some(key), carriage: Some(carriage), insert_position: Some(position), line_length: None, action: None })
                    &&& r.1 == (DispatchStep::<T, U, C>::Reply { key, reply: TrainReply::Empty })
                    &&& *final(self) == *old(self)
                },
                DispatcherCommand::ShrinkLine { line_length, key } => {
                    &&& r.0 == (DispatchData::<T, C> { command: Some(command), key: Some(key), carriage: None, insert_position: None, line_length: Some(line_length), action: None })
                    &&& r.1 == (DispatchStep::<T, U, C>::Reply { key, reply: TrainReply::Empty })
                    &&& PurrTrain::shrunk(old(self).purr_train, final(self).purr_train, line_length)
                    &&& final(self).line_count == old(self).line_count
                    &&& final(self).fast_routes == old(self).fast_routes
                    &&& final(self).dynamic_routes == old(self).dynamic_routes
                },
                DispatcherCommand::AdvanceTrain { key } => {
                    &&& r.0 == (DispatchData::<T, C> { command: Some(command), key: Some(key), carriage: None, insert_position: None, line_length: None, action: None })
                    &&& r.1 matches DispatchStep::Reply { key: k, reply: TrainReply::Advance { event } } && k == key && (
                        PurrTrain::advanced(old(self).purr_train, final(self).purr_train, event, true)
                        || PurrTrain::advanced(old(self).purr_train, final(self).purr_train, event, false))
                    &&& final(self).line_count == old(self).line_count
                    &&& final(self).fast_routes == old(self).fast_routes
                    &&& final(self).dynamic_routes == old(self).dynamic_routes
                },
                DispatcherCommand::GetCurrent { key } => {
                    &&& r.0 == (DispatchData::<T, C> { command: Some(command), key: Some(key), carriage: None, insert_position: None, line_length: None, action: None })
                    &&& r.1 == (DispatchStep::<T, U, C>::Reply { key, reply: TrainReply::Current { route_box: old(self).purr_train.line.current_spec() } })
                    &&& *final(self) == *old(self)
                },
                DispatcherCommand::GetCursor { key } => {
                    &&& r.0 == (DispatchData::<T, C> { command: Some(command), key: Some(key), carriage: None, insert_position: None, line_length: None, action: None })
                    &&& r.1 == (DispatchStep::<T, U, C>::Reply { key, reply: TrainReply::Cursor { cursor: old(self).purr_train.cursor() as usize } })
                    &&& *final(self) == *old(self)
                },
            },
    {
        let mut data = DispatchData::new();
        let (reply_key, reply) = match command {
            DispatcherCommand::AddRoute { key, action, channel_cap } => {
                data.action = Some(action);
                return (data, DispatchStep::OpenRoute { key, action, channel_cap });
            },
            DispatcherCommand::DeleteRoute { key, action } => {
                data.action = Some(action);
                self.delete_route(key, action);
                return (data, DispatchStep::Done);
            },
            DispatcherCommand::Attach { carriage, key } => {
                data.carriage = Some(carriage);
                (key, TrainReply::Empty)
            },
            DispatcherCommand::Replace { carriage, key } => {
                data.carriage = Some(carriage);
                (key, TrainReply::Empty)
            },
            DispatcherCommand::RerouteAt { carriage, position, key } => {
                data.carriage = Some(carriage);
                data.insert_position = Some(position);
                (key, TrainReply::Empty)
            },
            DispatcherCommand::ShrinkLine { line_length, key } => {
                data.line_length = Some(line_length);
                self.purr_train.shrink_line(line_length);
                (key, TrainReply::Empty)
            },
            DispatcherCommand::AdvanceTrain { key } => {
                let event = self.purr_train.advance_train();
                (key, TrainReply::Advance { event })
            },
            DispatcherCommand::GetCurrent { key } => {
                let route_box = self.purr_train.get_current();
                (key, TrainReply::Current { route_box })
            },
            DispatcherCommand::GetCursor { key } => {
                let cursor = self.purr_train.get_cursor();
                (key, TrainReply::Cursor { cursor })
            },
        };
        data.key = Some(reply_key);
        data.command = Some(command);
        (data, DispatchStep::Reply { key: reply_key, reply })
    }
}

/// A route added with the default action is where replies under its key
/// then go out: the lookup with the default action finds it.
pub proof fn lemma_added_route_found<T: PurrStep, U: PurrRule, C: PurrKey, R>(
    pre: PurrDispatcher<T, U, C, R>,
    post: PurrDispatcher<T, U, C, R>,
    key: C,
    sender: R,
)
    requires
        pre.wf(),
        PurrDispatcher::route_added(&pre, &post, key, RouteAction::Default, sender, Ok(())),
    ensures
        post.route_of(key, RouteAction::Default) == Some(sender),
{
    let fast = pre.fast_routes@;
    lemma_first_match_from(fast, key, 0);
    lemma_first_free_from(fast, 0);
    if pre.line_count < FAST_ROUTES_CAPACITY {
        let j = first_free_from(fast, 0);
        if j >= FAST_ROUTES_CAPACITY {
            lemma_occupied_full(fast);
            assert(false);
        }
        let pf = post.fast_routes@;
        assert forall|k: int| 0 <= k < j implies !slot_holds(#[trigger] pf[k], key) by {
            assert(pf[k] == fast[k]);
        }
        lemma_first_match_at(pf, key, 0, j);
    } else {
        let pf = post.fast_routes@;
        assert forall|k: int| 0 <= k < pf.len() implies !slot_holds(#[trigger] pf[k], key) by {
            assert(pf[k].sender is None);
        }
        lemma_first_match_none(pf, key, 0);
    }
}

/// Deleting, with the default action, a route just added with the default
/// action leaves the key without a route and the route count as it was.
pub proof fn lemma_delete_undoes_add<T: PurrStep, U: PurrRule, C: PurrKey, R>(
    pre: PurrDispatcher<T, U, C, R>,
    mid: PurrDispatcher<T, U, C, R>,
    post: PurrDispatcher<T, U, C, R>,
    key: C,
    sender: R,
)
    requires
        pre.wf(),
        PurrDispatcher::route_added(&pre, &mid, key, RouteAction::Default, sender, Ok(())),
        PurrDispatcher::route_deleted(&mid, &post, key, RouteAction::Default),
    ensures
        post.route_of(key, RouteAction::Default) is None,
        post.line_count == pre.line_count,
{
    let fast = pre.fast_routes@;
    let mf = mid.fast_routes@;
    let pf = post.fast_routes@;
    lemma_first_match_from(fast, key, 0);
    lemma_first_free_from(fast, 0);
    if pre.line_count < FAST_ROUTES_CAPACITY {
        let j = first_free_from(fast, 0);
        if j >= FAST_ROUTES_CAPACITY {
            lemma_occupied_full(fast);
            assert(false);
        }
        assert forall|k: int| 0 <= k < j implies !slot_holds(#[trigger] mf[k], key) by {
            assert(mf[k] == fast[k]);
        }
        lemma_first_match_at(mf, key, 0, j);
        let fast1 = mf.update(j, KeySenderReply { sender: None, key: mf[j].key });
        assert forall|k: int| 0 <= k < pf.len() implies !slot_holds(#[trigger] pf[k], key) by {
            assert(pf[k].sender == fast1[k].sender);
            if k != j {
                assert(fast1[k] == fast[k]);
            }
        }
        lemma_first_match_none(pf, key, 0);
    } else {
        let dyn2 = mid.dynamic_routes@.remove(key);
        assert(mid.dynamic_routes@.contains_key(key));
        assert forall|k: int| 0 <= k < mf.len() implies !slot_holds(#[trigger] mf[k], key) by {
            assert(mf[k].sender is None);
        }
        lemma_first_match_none(mf, key, 0);
        if post.line_count <= FAST_ROUTES_CAPACITY {
            let es = choose|es: Seq<(C, R)>| lists_routes(es, dyn2) && same_routes(pf, #[trigger] fill(mf, es));
            assert forall|i: int| 0 <= i < es.len() implies (#[trigger] es[i]).0 != key by {
                assert(dyn2.contains_key(es[i].0));
            }
            lemma_fill_keeps_out(mf, es, key);
            assert forall|k: int| 0 <= k < pf.len() implies !slot_holds(#[trigger] pf[k], key) by {
                assert(pf[k].sender == fill(mf, es)[k].sender);
            }
            lemma_first_match_none(pf, key, 0);
        } else {
            assert forall|k: int| 0 <= k < pf.len() implies !slot_holds(#[trigger] pf[k], key) by {
                assert(pf[k].sender == mf[k].sender);
            }
            lemma_first_match_none(pf, key, 0);
        }
    }
}

/// In a tidy dispatcher, the lookup with the default action finds exactly
/// the keys that a route is held under.
pub proof fn lemma_tidy_found<T: PurrStep, U: PurrRule, C: PurrKey, R>(d: PurrDispatcher<T, U, C, R>, key: C)
    requires
        d.routes_tidy(),
    ensures
        d.route_of(key, RouteAction::Default) is Some <==> d.holds_route(key),
{
    let fast = d.fast_routes@;
    lemma_first_match_exists(fast, key);
    lemma_first_match_from(fast, key, 0);
    if d.line_count > FAST_ROUTES_CAPACITY {
        if held_in(fast, key) {
            let t = choose|t: int| 0 <= t < fast.len() && #[trigger] slot_holds(fast[t], key);
            assert(fast[t].sender is None);
        }
    } else {
        assert(!d.dynamic_routes@.contains_key(key));
    }
}

/// Adding, with the default action, a route under a key that holds none
/// keeps the dispatcher tidy, adds that key to the held ones and counts one
/// route more.
pub proof fn lemma_add_keeps_tidy<T: PurrStep, U: PurrRule, C: PurrKey, R>(
    pre: PurrDispatcher<T, U, C, R>,
    post: PurrDispatcher<T, U, C, R>,
    key: C,
    sender: R,
)
    requires
        pre.wf(),
        pre.routes_tidy(),
        !pre.holds_route(key),
        PurrDispatcher::route_added(&pre, &post, key, RouteAction::Default, sender, Ok(())),
    ensures
        post.routes_tidy(),
        post.line_count == pre.line_count + 1,
        forall|k: C| #[trigger] post.holds_route(k) <==> (pre.holds_route(k) || k == key),
{
    let fast = pre.fast_routes@;
    let dynm = pre.dynamic_routes@;
    let pf = post.fast_routes@;
    lemma_first_match_exists(fast, key);
    lemma_first_match_from(fast, key, 0);
    if pre.line_count < FAST_ROUTES_CAPACITY {
        lemma_free_slot_exists(fast);
        lemma_first_free_from(fast, 0);
        let j = first_free_from(fast, 0);
        let slot = KeySenderReply { sender: Some(sender), key };
        assert(pf == fast.update(j, slot));
        lemma_occupied_update(fast, j, slot);
        assert(!slot_holds(fast[j], key));
        assert forall|a: int, b: int| 0 <= a < pf.len() && 0 <= b < pf.len() && a != b
            && (#[trigger] pf[a]).sender is Some && (#[trigger] pf[b]).sender is Some implies pf[a].key != pf[b].key by {
            if a == j {
                assert(!slot_holds(fast[b], key));
            } else if b == j {
                assert(!slot_holds(fast[a], key));
            }
        }
        assert forall|k: C| #[trigger] post.holds_route(k) <==> (pre.holds_route(k) || k == key) by {
            if held_in(pf, k) {
                let t = choose|t: int| 0 <= t < pf.len() && #[trigger] slot_holds(pf[t], k);
                if t != j {
                    assert(slot_holds(fast[t], k));
                }
            }
            if held_in(fast, k) {
                let t = choose|t: int| 0 <= t < fast.len() && #[trigger] slot_holds(fast[t], k);
                assert(t != j);
                assert(slot_holds(pf[t], k));
            }
            if k == key {
                assert(slot_holds(pf[j], k));
            }
        }
    } else {
        assert forall|i: int| 0 <= i < fast.len() && (#[trigger] fast[i]).sender is Some implies !dynm.contains_key(fast[i].key) by {
            if pre.line_count > FAST_ROUTES_CAPACITY {
                assert(fast[i].sender is None);
            } else {
                assert(dynm.dom() == Set::<C>::empty());
            }
        }
        lemma_fold_fast_dom(dynm, fast);
        lemma_occupied_none(pf);
        assert(!fold_fast(dynm, fast).contains_key(key));
        assert forall|k: C| #[trigger] post.holds_route(k) <==> (pre.holds_route(k) || k == key) by {
            if held_in(pf, k) {
                let t = choose|t: int| 0 <= t < pf.len() && #[trigger] slot_holds(pf[t], k);
                assert(pf[t].sender is None);
            }
        }
    }
}

/// Deleting a key with the default action keeps a tidy dispatcher tidy,
/// takes that key from the held ones, and counts one route fewer exactly
/// when a route was held under it.
pub proof fn lemma_delete_keeps_tidy<T: PurrStep, U: PurrRule, C: PurrKey, R>(
    pre: PurrDispatcher<T, U, C, R>,
    post: PurrDispatcher<T, U, C, R>,
    key: C,
)
    requires
        pre.wf(),
        pre.routes_tidy(),
        PurrDispatcher::route_deleted(&pre, &post, key, RouteAction::Default),
    ensures
        post.routes_tidy(),
        post.line_count == (if pre.holds_route(key) { pre.line_count - 1 } else { pre.line_count as int }),
        forall|k: C| #[trigger] post.holds_route(k) <==> (pre.holds_route(k) && k != key),
{
    let fast = pre.fast_routes@;
    let dynm = pre.dynamic_routes@;
    let pf = post.fast_routes@;
    lemma_first_match_exists(fast, key);
    lemma_first_match_from(fast, key, 0);
    let i1 = first_match_from(fast, key, 0);
    if pre.line_count <= FAST_ROUTES_CAPACITY {
        assert(!dynm.contains_key(key));
        let fast1 = if i1 < FAST_ROUTES_CAPACITY { fast.update(i1, KeySenderReply { sender: None, key: fast[i1].key }) } else { fast };
        if i1 < FAST_ROUTES_CAPACITY {
            lemma_occupied_update(fast, i1, KeySenderReply { sender: None, key: fast[i1].key });
        }
        lemma_same_routes_occupied(pf, fast1);
        assert forall|t: int| 0 <= t < pf.len() implies slot_holds(#[trigger] pf[t], key) == false by {
            assert(pf[t].sender == fast1[t].sender);
            if t != i1 && slot_holds(fast[t], key) && i1 < FAST_ROUTES_CAPACITY {
                assert(slot_holds(fast[i1], key));
            }
        }
        assert forall|a: int, b: int| 0 <= a < pf.len() && 0 <= b < pf.len() && a != b
            && (#[trigger] pf[a]).sender is Some && (#[trigger] pf[b]).sender is Some implies pf[a].key != pf[b].key by {
            assert(pf[a].sender == fast1[a].sender && pf[b].sender == fast1[b].sender);
            assert(fast1[a].sender is Some ==> fast1[a] == fast[a]);
            assert(fast1[b].sender is Some ==> fast1[b] == fast[b]);
        }
        assert forall|k: C| #[trigger] post.holds_route(k) <==> (pre.holds_route(k) && k != key) by {
            if held_in(pf, k) {
                let t = choose|t: int| 0 <= t < pf.len() && #[trigger] slot_holds(pf[t], k);
                assert(pf[t].sender == fast1[t].sender);
                assert(fast1[t].sender is Some ==> fast1[t] == fast[t]);
                assert(slot_holds(fast[t], k));
            }
            if held_in(fast, k) && k != key {
                let t = choose|t: int| 0 <= t < fast.len() && #[trigger] slot_holds(fast[t], k);
                if i1 < FAST_ROUTES_CAPACITY {
                    assert(t != i1);
                }
                assert(fast1[t] == fast[t]);
                assert(pf[t].sender == fast1[t].sender);
                assert(slot_holds(pf[t], k));
            }
        }
    } else {
        assert(i1 == FAST_ROUTES_CAPACITY) by {
            if i1 < FAST_ROUTES_CAPACITY {
                assert(fast[i1].sender is None);
            }
        }
        assert(!held_in(fast, key));
        let dyn2 = if dynm.contains_key(key) { dynm.remove(key) } else { dynm };
        assert forall|t: int| 0 <= t < fast.len() implies !slot_holds(#[trigger] fast[t], key) by {
            assert(fast[t].sender is None);
        }
        lemma_occupied_none(fast);
        if post.line_count <= FAST_ROUTES_CAPACITY && dynm.contains_key(key) {
            let es = choose|es: Seq<(C, R)>| lists_routes(es, dyn2) && same_routes(pf, #[trigger] fill(fast, es));
            lemma_lists_all(es, dyn2);
            assert forall|i: int, t: int| 0 <= i < es.len() && 0 <= t < fast.len() implies !slot_holds(#[trigger] fast[t], (#[trigger] es[i]).0) by {
                assert(fast[t].sender is None);
            }
            assert(keys_unique(fast));
            lemma_fill_props(fast, es);
            let f = fill(fast, es);
            lemma_same_routes_occupied(pf, f);
            assert forall|a: int, b: int| 0 <= a < pf.len() && 0 <= b < pf.len() && a != b
                && (#[trigger] pf[a]).sender is Some && (#[trigger] pf[b]).sender is Some implies pf[a].key != pf[b].key by {
                assert(pf[a].sender == f[a].sender && pf[b].sender == f[b].sender);
            }
            assert forall|k: C| #[trigger] post.holds_route(k) <==> (pre.holds_route(k) && k != key) by {
                assert(held_in(f, k) == (held_in(fast, k) || listed(es, k)));
                if held_in(pf, k) {
                    let t = choose|t: int| 0 <= t < pf.len() && #[trigger] slot_holds(pf[t], k);
                    assert(pf[t].sender == f[t].sender);
                    assert(slot_holds(f[t], k));
                }
                if held_in(f, k) {
                    let t = choose|t: int| 0 <= t < f.len() && #[trigger] slot_holds(f[t], k);
                    assert(pf[t].sender == f[t].sender);
                    assert(slot_holds(pf[t], k));
                }
                assert(dyn2.contains_key(k) == listed(es, k));
                if held_in(fast, k) {
                    let t = choose|t: int| 0 <= t < fast.len() && #[trigger] slot_holds(fast[t], k);
                    assert(fast[t].sender is None);
                }
            }
        } else {
            lemma_same_routes_occupied(pf, fast);
            assert forall|t: int| 0 <= t < pf.len() implies (#[trigger] pf[t]).sender is None by {
                assert(pf[t].sender == fast[t].sender);
            }
            assert forall|k: C| #[trigger] post.holds_route(k) <==> (pre.holds_route(k) && k != key) by {
                if held_in(pf, k) {
                    let t = choose|t: int| 0 <= t < pf.len() && #[trigger] slot_holds(pf[t], k);
                    assert(pf[t].sender is None);
                }
                if held_in(fast, k) {
                    let t = choose|t: int| 0 <= t < fast.len() && #[trigger] slot_holds(fast[t], k);
                    assert(fast[t].sender is None);
                }
            }
        }
    }
}

/// Deleting, with the default action, a key that a route is held under in
/// a tidy dispatcher leaves that key unfound, counts one route fewer, and
/// keeps every other held key found.
pub proof fn lemma_delete_registered<T: PurrStep, U: PurrRule, C: PurrKey, R>(
    pre: PurrDispatcher<T, U, C, R>,
    post: PurrDispatcher<T, U, C, R>,
    key: C,
)
    requires
        pre.wf(),
        pre.routes_tidy(),
        pre.holds_route(key),
        PurrDispatcher::route_deleted(&pre, &post, key, RouteAction::Default),
    ensures
        post.route_of(key, RouteAction::Default) is None,
        post.line_count == pre.line_count - 1,
        forall|k: C| k != key && #[trigger] pre.route_of(k, RouteAction::Default) is Some
            ==> post.route_of(k, RouteAction::Default) is Some,
{
    lemma_delete_keeps_tidy(pre, post, key);
    lemma_tidy_found(post, key);
    assert forall|k: C| k != key && #[trigger] pre.route_of(k, RouteAction::Default) is Some
        implies post.route_of(k, RouteAction::Default) is Some by {
        lemma_tidy_found(pre, k);
        lemma_tidy_found(post, k);
    }
}

} // verus!
