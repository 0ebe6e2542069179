//! Dense storage: one slot per cell id, filled with a blank value.
use crate::NUM_CELLS;
use vstd::prelude::*;

verus! {

/// What a dense backing store for one component type offers: slots addressed
/// by cell id, read and written without regard to presence.
pub trait InnerCellStorage<T>: Sized {
    /// The slots, indexed by cell id.
    spec fn cells(&self) -> Seq<T>;

    /// The value a slot holds when it holds nothing.
    spec fn blank(&self) -> T;

    /// The store has one slot per cell of a chunk.
    spec fn wf(&self) -> bool;

    /// The slot of `id`, for writing.
    fn get_mut(&mut self, id: u32) -> (r: &mut T)
        requires
            old(self).wf(),
            id < NUM_CELLS,
        ensures
            *r == old(self).cells()[id as int],
            final(self).cells() == old(self).cells().update(id as int, *final(r)),
            final(self).blank() == old(self).blank(),
            final(self).wf(),
    ;

    /// The value in the slot of `id`.
    fn get(&self, id: u32) -> (r: &T)
        requires
            self.wf(),
            id < NUM_CELLS,
        ensures
            *r == self.cells()[id as int],
    ;

    /// Overwrites the slot of `id` with `component`.
    fn insert(&mut self, id: u32, component: T)
        requires
            old(self).wf(),
            id < NUM_CELLS,
        ensures
            final(self).cells() == old(self).cells().update(id as int, component),
            final(self).blank() == old(self).blank(),
            final(self).wf(),
    ;

    /// Resets the slot of `id` to the blank value.
    fn remove(&mut self, id: u32)
        requires
            old(self).wf(),
            id < NUM_CELLS,
        ensures
            final(self).cells() == old(self).cells().update(id as int, old(self).blank()),
            final(self).blank() == old(self).blank(),
            final(self).wf(),
    ;
}

/// A dense store backed by one vector of `NUM_CELLS` slots.
pub struct SliceAccessStorage<T> {
    cells: Vec<T>,
    blank: T,
}

impl<T: Copy> SliceAccessStorage<T> {
    /// A store whose every slot holds `blank`.
    pub fn new(blank: T) -> (r: Self)
        ensures
            r.cells() == Seq::new(NUM_CELLS as nat, |i: int| blank),
            r.blank() == blank,
            r.wf(),
    {
        let mut cells: Vec<T> = Vec::new();
        let mut i: u32 = 0;
        while i < NUM_CELLS
            invariant
                i <= NUM_CELLS,
                cells@ == Seq::new(i as nat, |k: int| blank),
            decreases NUM_CELLS - i,
        {
            cells.push(blank);
            i = i + 1;
            assert(cells@ =~= Seq::new(i as nat, |k: int| blank));
        }
        SliceAccessStorage { cells, blank }
    }
}

impl<T: Copy> InnerCellStorage<T> for SliceAccessStorage<T> {
    closed spec fn cells(&self) -> Seq<T> {
        self.cells@
    }

    closed spec fn blank(&self) -> T {
        self.blank
    }

    open spec fn wf(&self) -> bool {
        self.cells().len() == NUM_CELLS
    }

    fn get_mut(&mut self, id: u32) -> (r: &mut T) {
        &mut self.cells[id as usize]
    }

    fn get(&self, id: u32) -> (r: &T) {
        &self.cells[id as usize]
    }

    fn insert(&mut self, id: u32, component: T) {
        self.cells.set(id as usize, component);
    }

    fn remove(&mut self, id: u32) {
        let blank = self.blank;
        self.cells.set(id as usize, blank);
    }
}

} // verus!
