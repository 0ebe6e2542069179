//! Laws that relate the access operations of a cell storage, stated over its
//! view: the map from the id of each present cell to its value.
use crate::cell_storage::{cell_of, id_of, lemma_id_cell_bijection, valid_cell};
use crate::NUM_CELLS;
use crate::mask::lists_ascending;
use vstd::prelude::*;

verus! {

/// Reading a cell just after inserting `v` there gives `v`.
pub proof fn law_insert_then_get<T>(m: Map<u32, T>, x: u32, y: u32, v: T)
    requires
        valid_cell(x, y),
    ensures
        m.insert(id_of(x, y), v).dom().contains(id_of(x, y)),
        m.insert(id_of(x, y), v)[id_of(x, y)] == v,
{
}

/// A cell that was inserted and then removed is absent.
pub proof fn law_remove_clears<T>(m: Map<u32, T>, x: u32, y: u32, v: T)
    requires
        valid_cell(x, y),
    ensures
        !m.insert(id_of(x, y), v).remove(id_of(x, y)).dom().contains(id_of(x, y)),
{
}

/// Inserting twice at one cell leaves what the second insert alone would:
/// nothing of the first value remains.
pub proof fn law_insert_overwrites<T>(m: Map<u32, T>, x: u32, y: u32, v1: T, v2: T)
    requires
        valid_cell(x, y),
    ensures
        m.insert(id_of(x, y), v1).insert(id_of(x, y), v2) == m.insert(id_of(x, y), v2),
        m.insert(id_of(x, y), v1).insert(id_of(x, y), v2)[id_of(x, y)] == v2,
{
    assert(m.insert(id_of(x, y), v1).insert(id_of(x, y), v2) =~= m.insert(id_of(x, y), v2));
}

/// The steps of a join that lists the cells of a set in ascending order reach
/// pairwise distinct cells, so the slot handed out at one step is never the
/// slot of another step.
pub proof fn law_join_steps_distinct(steps: Seq<u32>, present: Set<u32>)
    requires
        lists_ascending(steps, present),
    ensures
        forall|i: int, j: int|
            0 <= i < steps.len() && 0 <= j < steps.len() && i != j ==> steps[i] != steps[j],
{
    assert forall|i: int, j: int|
        0 <= i < steps.len() && 0 <= j < steps.len() && i != j implies steps[i] != steps[j] by {
        if i < j {
            assert(steps[i] < steps[j]);
        } else {
            assert(steps[j] < steps[i]);
        }
    }
}

/// After a mutable join (`join_update`) with a step function that stores the
/// sentinel of the cell it is given, every present cell holds its own
/// sentinel: no step's write lands in another step's cell. `before` and
/// `after` are the storage's view around the join.
pub proof fn law_join_sentinels<T, F: Fn((u32, u32), T) -> T>(
    before: Map<u32, T>,
    after: Map<u32, T>,
    f: F,
    sentinel: spec_fn(u32) -> T,
)
    requires
        forall|id: u32| #[trigger] before.dom().contains(id) ==> id < NUM_CELLS,
        forall|c: (u32, u32), v: T, r: T| #[trigger] f.ensures((c, v), r) ==> r == sentinel(id_of(c.0, c.1)),
        after.dom() == before.dom(),
        forall|id: u32|
            #[trigger] before.dom().contains(id) ==> f.ensures((cell_of(id), before[id]), after[id]),
    ensures
        forall|id: u32| #[trigger] after.dom().contains(id) ==> after[id] == sentinel(id),
{
    assert forall|id: u32| #[trigger] after.dom().contains(id) implies after[id] == sentinel(id) by {
        assert(f.ensures((cell_of(id), before[id]), after[id]));
        lemma_id_cell_bijection(id);
    }
}

} // verus!
