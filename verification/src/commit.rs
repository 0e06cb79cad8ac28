//! Proposed updates of one store, and how they are written back.
//!
//! A system first computes, for every entity of its join, the value that the
//! entity is to get, or `None` where that value cannot be computed. The
//! proposals are then written in increasing order of entity index, up to the
//! first that is `None`: from there on the system is skipped.

use vstd::prelude::*;
use crate::entity::Entity;
use crate::entity::ascending;
use crate::store::Store;
use crate::store::pair_keys;

verus! {

/// Whether the proposal for `e` could not be computed.
pub open spec fn fails<T>(proposals: Map<Entity, Option<T>>, e: Entity) -> bool {
    proposals.contains_key(e) && proposals[e].is_none()
}

/// Whether the proposal for `e` is written: there is one, and `e` comes
/// before every entity whose proposal could not be computed.
pub open spec fn reached<T>(proposals: Map<Entity, Option<T>>, e: Entity) -> bool {
    proposals.contains_key(e) && forall|x: Entity| #[trigger]
        fails(proposals, x) ==> e.index < x.index
}

/// The store after the proposals were written.
pub open spec fn applied<T>(store: Map<Entity, T>, proposals: Map<Entity, Option<T>>) -> Map<
    Entity,
    T,
> {
    Map::new(
        |e: Entity| store.contains_key(e),
        |e: Entity|
            if reached(proposals, e) {
                proposals[e].unwrap()
            } else {
                store[e]
            },
    )
}

/// Whether `e` is the first entity whose proposal could not be computed.
pub open spec fn is_first_failure<T>(proposals: Map<Entity, Option<T>>, e: Entity) -> bool {
    fails(proposals, e) && forall|x: Entity| #[trigger]
        fails(proposals, x) ==> e.index <= x.index
}

/// The first entity whose proposal could not be computed, if there is one.
pub open spec fn first_failure<T>(proposals: Map<Entity, Option<T>>) -> Option<Entity> {
    if exists|e: Entity| is_first_failure(proposals, e) {
        Some(choose|e: Entity| is_first_failure(proposals, e))
    } else {
        None
    }
}

/// A place of `e` in the list.
pub open spec fn place_of<T>(list: Seq<(Entity, Option<T>)>, e: Entity) -> int {
    choose|k: int| 0 <= k < list.len() && (#[trigger] list[k]).0 == e
}

/// The proposals that a list of (entity, proposal) pairs stands for.
pub open spec fn proposal_map<T>(list: Seq<(Entity, Option<T>)>) -> Map<Entity, Option<T>> {
    Map::new(|e: Entity| pair_keys(list).contains(e), |e: Entity| list[place_of(list, e)].1)
}

/// In an ascending list, each pair is the proposal of its entity.
pub proof fn lemma_proposal_map<T>(list: Seq<(Entity, Option<T>)>, k: int)
    requires
        ascending(pair_keys(list)),
        0 <= k < list.len(),
    ensures
        proposal_map(list).contains_key(list[k].0),
        proposal_map(list)[list[k].0] == list[k].1,
{
    let keys = pair_keys(list);
    let e = list[k].0;
    assert(keys[k] == e);
    assert(keys.contains(e));
    let c = place_of(list, e);
    assert(keys[c] == e);
    if c < k {
        assert(keys[c].index < keys[k].index);
    }
    if k < c {
        assert(keys[k].index < keys[c].index);
    }
}

/// Every entity with a proposal stands somewhere in the list.
pub proof fn lemma_proposal_index<T>(list: Seq<(Entity, Option<T>)>, e: Entity) -> (k: int)
    requires
        proposal_map(list).contains_key(e),
    ensures
        0 <= k < list.len(),
        list[k].0 == e,
{
    let keys = pair_keys(list);
    assert(keys.contains(e));
    let k = choose|k: int| 0 <= k < keys.len() && keys[k] == e;
    k
}

/// Writes the proposals of `list` into `store`, in order, up to the first
/// that is `None`. Returns the entity of that proposal, or `None` where all
/// were written.
pub fn commit<T: Copy>(store: &mut Store<T>, list: &Vec<(Entity, Option<T>)>) -> (r: Option<
    Entity,
>)
    requires
        ascending(pair_keys(list@)),
        forall|k: int| 0 <= k < list@.len() ==> old(store)@.contains_key((#[trigger] list@[k]).0),
    ensures
        final(store)@ == applied(old(store)@, proposal_map(list@)),
        r == first_failure(proposal_map(list@)),
{
    let ghost before = store@;
    let ghost proposals = proposal_map(list@);
    let mut i: usize = 0;
    let mut failed: Option<Entity> = None;
    while i < list.len() && failed.is_none()
        invariant
            i <= list@.len(),
            ascending(pair_keys(list@)),
            before == old(store)@,
            forall|k: int| 0 <= k < list@.len() ==> before.contains_key((#[trigger] list@[k]).0),
            store@.dom() == before.dom(),
            failed.is_none() ==> forall|k: int| 0 <= k < i ==> (#[trigger] list@[k]).1.is_some(),
            failed.is_some() ==> 0 < i && list@[i - 1].1.is_none() && failed.unwrap() == list@[i
                - 1].0 && forall|k: int| 0 <= k < i - 1 ==> (#[trigger] list@[k]).1.is_some(),
            forall|k: int|
                0 <= k < i && (#[trigger] list@[k]).1.is_some() ==> store@[list@[k].0]
                    == list@[k].1.unwrap(),
            forall|e: Entity|
                before.contains_key(e) && (forall|k: int|
                    0 <= k < i && (#[trigger] list@[k]).1.is_some() ==> list@[k].0 != e)
                    ==> store@[e] == before[e],
        decreases list@.len() - i, failed.is_none() as int,
    {
        let (e, proposal) = list[i];
        let ghost prev = store@;
        match proposal {
            Some(value) => {
                store.insert(e, value);
                proof {
                    assert(store@.dom() =~= before.dom());
                    assert forall|k: int|
                        0 <= k < i + 1 && (#[trigger] list@[k]).1.is_some() implies store@[list@[k].0]
                        == list@[k].1.unwrap() by {
                        if k < i {
                            assert(pair_keys(list@)[k] == list@[k].0);
                            assert(pair_keys(list@)[i as int] == list@[i as int].0);
                            assert(list@[k].0 != e);
                        }
                    }
                    assert forall|x: Entity|
                        before.contains_key(x) && (forall|k: int|
                            0 <= k < i + 1 && (#[trigger] list@[k]).1.is_some() ==> list@[k].0
                                != x) implies store@[x] == before[x] by {
                        assert(list@[i as int].0 != x);
                        assert(prev[x] == before[x]);
                    }
                }
            },
            None => {
                failed = Some(e);
            },
        }
        i += 1;
    }
    proof {
        let keys = pair_keys(list@);
        // Where the loop stopped, seen from the list.
        let stop: int = if failed.is_some() {
            i - 1
        } else {
            list@.len() as int
        };
        assert(failed.is_none() ==> i == list@.len());
        assert forall|k: int| 0 <= k < stop implies (#[trigger] list@[k]).1.is_some() by {}
        assert forall|e: Entity| #[trigger]
            reached(proposals, e) <==> exists|k: int|
                0 <= k < stop && (#[trigger] list@[k]).0 == e by {
            if reached(proposals, e) {
                let k = lemma_proposal_index(list@, e);
                lemma_proposal_map(list@, k);
                if k >= stop {
                    lemma_proposal_map(list@, stop);
                    assert(fails(proposals, list@[stop].0));
                    assert(keys[stop] == list@[stop].0);
                    assert(keys[k] == list@[k].0);
                    if k > stop {
                        assert(keys[stop].index < keys[k].index);
                    }
                    assert(false);
                }
            }
            if exists|k: int| 0 <= k < stop && (#[trigger] list@[k]).0 == e {
                let k = choose|k: int| 0 <= k < stop && (#[trigger] list@[k]).0 == e;
                lemma_proposal_map(list@, k);
                assert forall|x: Entity| #[trigger] fails(proposals, x) implies e.index
                    < x.index by {
                    let j = lemma_proposal_index(list@, x);
                    lemma_proposal_map(list@, j);
                    assert(j >= stop);
                    assert(keys[k] == list@[k].0);
                    assert(keys[j] == list@[j].0);
                    assert(keys[k].index < keys[j].index);
                }
            }
        }
        assert forall|e: Entity| before.contains_key(e) implies store@[e] == applied(
            before,
            proposals,
        )[e] by {
            if reached(proposals, e) {
                let k = choose|k: int| 0 <= k < stop && (#[trigger] list@[k]).0 == e;
                lemma_proposal_map(list@, k);
            } else {
                assert forall|k: int|
                    0 <= k < i && (#[trigger] list@[k]).1.is_some() implies list@[k].0 != e by {
                    if list@[k].0 == e {
                        assert(k < stop);
                    }
                }
            }
        }
        assert(store@ =~= applied(before, proposals));
        if failed.is_some() {
            let f = failed.unwrap();
            lemma_proposal_map(list@, stop);
            assert forall|x: Entity| #[trigger] fails(proposals, x) implies f.index
                <= x.index by {
                let j = lemma_proposal_index(list@, x);
                lemma_proposal_map(list@, j);
                assert(j >= stop);
                assert(keys[stop] == list@[stop].0);
                assert(keys[j] == list@[j].0);
                if j > stop {
                    assert(keys[stop].index < keys[j].index);
                }
            }
            assert(is_first_failure(proposals, f));
            let c = choose|e: Entity| is_first_failure(proposals, e);
            assert(fails(proposals, c));
            assert(fails(proposals, f));
            assert(c.index == f.index);
        } else {
            assert forall|e: Entity| !is_first_failure(proposals, e) by {
                if fails(proposals, e) {
                    let j = lemma_proposal_index(list@, e);
                    lemma_proposal_map(list@, j);
                }
            }
        }
    }
    failed
}

} // verus!
