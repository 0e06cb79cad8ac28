//! Entity identity.

use vstd::prelude::*;

verus! {

/// An identifier under which component values are stored.
///
/// An entity carries no payload of its own; it is only a key. Entities are
/// handed out by a world in increasing order of `index`.
#[derive(Clone, Copy, Debug, PartialEq, Eq, Structural)]
pub struct Entity {
    pub index: usize,
}

impl Entity {
    /// Makes the entity with the given index.
    pub fn from_index(index: usize) -> (e: Entity)
        ensures
            e.index == index,
    {
        Entity { index }
    }

    /// The index of this entity.
    pub fn index(&self) -> (i: usize)
        ensures
            i == self.index,
    {
        self.index
    }
}

/// Whether the entities of `s` stand in strictly increasing order of index.
pub open spec fn ascending(s: Seq<Entity>) -> bool {
    forall|i: int, j: int| 0 <= i < j < s.len() ==> s[i].index < s[j].index
}

/// Two ascending sequences that hold the same entities are the same sequence.
pub proof fn lemma_ascending_unique(a: Seq<Entity>, b: Seq<Entity>)
    requires
        ascending(a),
        ascending(b),
        forall|e: Entity| a.contains(e) <==> b.contains(e),
    ensures
        a == b,
    decreases a.len(),
{
    if a.len() == 0 {
        if b.len() > 0 {
            assert(b.contains(b[0]));
        }
        assert(a =~= b);
    } else if b.len() == 0 {
        assert(a.contains(a[0]));
    } else {
        let la = a.last();
        let lb = b.last();
        assert(a.contains(la));
        assert(b.contains(lb));
        assert(b.contains(la));
        assert(a.contains(lb));
        let ia = choose|i: int| 0 <= i < b.len() && b[i] == la;
        let ib = choose|i: int| 0 <= i < a.len() && a[i] == lb;
        assert(la.index <= lb.index);
        assert(lb.index <= la.index);
        assert(la == lb);
        let a0 = a.drop_last();
        let b0 = b.drop_last();
        assert forall|e: Entity| a0.contains(e) <==> b0.contains(e) by {
            if a0.contains(e) {
                let i = choose|i: int| 0 <= i < a0.len() && a0[i] == e;
                assert(a[i] == e);
                assert(a.contains(e));
                let j = choose|j: int| 0 <= j < b.len() && b[j] == e;
                assert(e.index < la.index);
                assert(j < b.len() - 1);
                assert(b0[j] == e);
            }
            if b0.contains(e) {
                let i = choose|i: int| 0 <= i < b0.len() && b0[i] == e;
                assert(b[i] == e);
                assert(b.contains(e));
                let j = choose|j: int| 0 <= j < a.len() && a[j] == e;
                assert(e.index < lb.index);
                assert(j < a.len() - 1);
                assert(a0[j] == e);
            }
        }
        lemma_ascending_unique(a0, b0);
        assert(a =~= a0.push(la));
        assert(b =~= b0.push(lb));
    }
}

} // verus!
