//! Joins: the entities that hold a value in every one of several stores.

use vstd::prelude::*;
use crate::entity::Entity;
use crate::entity::ascending;
use crate::store::Store;

verus! {

/// Keeps of `candidates` the entities that hold a value in `store`.
fn restrict<T>(candidates: &Vec<Entity>, store: &Store<T>) -> (r: Vec<Entity>)
    requires
        ascending(candidates@),
    ensures
        ascending(r@),
        forall|e: Entity| r@.contains(e) <==> candidates@.contains(e) && store@.contains_key(e),
{
    let mut out: Vec<Entity> = Vec::new();
    let mut i: usize = 0;
    while i < candidates.len()
        invariant
            i <= candidates@.len(),
            ascending(candidates@),
            ascending(out@),
            forall|k: int|
                0 <= k < out@.len() ==> store@.contains_key(#[trigger] out@[k]) && exists|j: int|
                    0 <= j < i && candidates@[j] == out@[k],
            forall|j: int|
                0 <= j < i && store@.contains_key(#[trigger] candidates@[j]) ==> out@.contains(
                    candidates@[j],
                ),
        decreases candidates@.len() - i,
    {
        let e = candidates[i];
        if store.contains(e) {
            let ghost prev = out@;
            out.push(e);
            assert forall|k: int| 0 <= k < out@.len() implies store@.contains_key(
                #[trigger] out@[k],
            ) && exists|j: int| 0 <= j < i + 1 && candidates@[j] == out@[k] by {
                if k < prev.len() {
                    let j = choose|j: int| 0 <= j < i && candidates@[j] == prev[k];
                    assert(candidates@[j] == out@[k]);
                } else {
                    assert(candidates@[i as int] == out@[k]);
                }
            }
            assert forall|a: int, b: int| 0 <= a < b < out@.len() implies out@[a].index
                < out@[b].index by {
                if b == prev.len() {
                    let j = choose|j: int| 0 <= j < i && candidates@[j] == prev[a];
                    assert(candidates@[j].index < candidates@[i as int].index);
                }
            }
            assert forall|j: int|
                0 <= j < i + 1 && store@.contains_key(#[trigger] candidates@[j]) implies out@.contains(
                candidates@[j],
            ) by {
                if j < i {
                    assert(prev.contains(candidates@[j]));
                    let k = choose|k: int| 0 <= k < prev.len() && prev[k] == candidates@[j];
                    assert(out@[k] == candidates@[j]);
                } else {
                    assert(out@[prev.len() as int] == candidates@[j]);
                }
            }
        }
        i += 1;
    }
    proof {
        assert forall|e: Entity| out@.contains(e) <==> candidates@.contains(e)
            && store@.contains_key(e) by {
            if out@.contains(e) {
                let k = choose|k: int| 0 <= k < out@.len() && out@[k] == e;
                let j = choose|j: int| 0 <= j < i && candidates@[j] == out@[k];
                assert(candidates@.contains(e));
            }
            if candidates@.contains(e) && store@.contains_key(e) {
                let j = choose|j: int| 0 <= j < candidates@.len() && candidates@[j] == e;
                assert(out@.contains(candidates@[j]));
            }
        }
    }
    out
}

/// The entities that hold a value in both stores, in increasing order of
/// index. An entity that lacks either value is passed over.
pub fn join2<A, B>(a: &Store<A>, b: &Store<B>) -> (r: Vec<Entity>)
    ensures
        ascending(r@),
        forall|e: Entity| r@.contains(e) <==> a@.contains_key(e) && b@.contains_key(e),
{
    let first = a.entities();
    restrict(&first, b)
}

/// The entities that hold a value in all three stores, in increasing order
/// of index. An entity that lacks any of the three values is passed over.
pub fn join3<A, B, C>(a: &Store<A>, b: &Store<B>, c: &Store<C>) -> (r: Vec<Entity>)
    ensures
        ascending(r@),
        forall|e: Entity|
            r@.contains(e) <==> a@.contains_key(e) && b@.contains_key(e) && c@.contains_key(e),
{
    let both = join2(a, b);
    restrict(&both, c)
}

} // verus!
