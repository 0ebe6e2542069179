//! Masked cell storage: a presence mask over a dense store, with
//! coordinate-addressed access and joins over the present cells.
use crate::mask::{
    bits_of, lists_ascending, mask_add, mask_and_ids, mask_contains, mask_ids, mask_new,
    mask_remove,
};
use crate::slice_access_storage::{InnerCellStorage, SliceAccessStorage};
use crate::{CHUNK_SIZE, NUM_CELLS};
use core::marker::PhantomData;
use hibitset::BitSet;
use vstd::prelude::*;

verus! {

/// `(x, y)` lies inside the chunk.
pub open spec fn valid_cell(x: u32, y: u32) -> bool {
    x < CHUNK_SIZE && y < CHUNK_SIZE
}

/// The id of the cell at `(x, y)`.
pub open spec fn id_of(x: u32, y: u32) -> u32 {
    (x + y * CHUNK_SIZE) as u32
}

/// The coordinate of the cell with id `id`.
pub open spec fn cell_of(id: u32) -> (u32, u32) {
    ((id % CHUNK_SIZE) as u32, (id / CHUNK_SIZE) as u32)
}

/// Each valid coordinate has its own id, and the id leads back to it.
pub proof fn lemma_cell_id_bijection(x: u32, y: u32)
    requires
        valid_cell(x, y),
    ensures
        id_of(x, y) < NUM_CELLS,
        cell_of(id_of(x, y)) == (x, y),
{
    let n = CHUNK_SIZE as int;
    let (a, b) = (x as int, y as int);
    assert(0 <= a + b * n < n * n && (a + b * n) % n == a && (a + b * n) / n == b)
        by (nonlinear_arith)
        requires
            0 <= a < n,
            0 <= b < n,
    ;
}

/// Each id of the chunk has a valid coordinate, and the coordinate leads back
/// to it.
pub proof fn lemma_id_cell_bijection(id: u32)
    requires
        id < NUM_CELLS,
    ensures
        valid_cell(cell_of(id).0, cell_of(id).1),
        id_of(cell_of(id).0, cell_of(id).1) == id,
{
    let n = CHUNK_SIZE as int;
    let i = id as int;
    assert(0 <= i % n < n && 0 <= i / n < n && i % n + (i / n) * n == i) by (nonlinear_arith)
        requires
            0 <= i < n * n,
            n > 0,
    ;
}

/// The id of the cell at `(x, y)`.
pub fn cell_to_id(x: u32, y: u32) -> (r: u32)
    requires
        valid_cell(x, y),
    ensures
        r == id_of(x, y),
        r < NUM_CELLS,
{
    proof {
        lemma_cell_id_bijection(x, y);
    }
    x + y * CHUNK_SIZE
}

/// The coordinate of the cell with id `id`.
pub fn id_to_cell(id: u32) -> (r: (u32, u32))
    requires
        id < NUM_CELLS,
    ensures
        r == cell_of(id),
        valid_cell(r.0, r.1),
        id_of(r.0, r.1) == id,
{
    proof {
        lemma_id_cell_bijection(id);
    }
    (id % CHUNK_SIZE, id / CHUNK_SIZE)
}


/// The ids of the cells that a join visited, in the order visited.
pub open spec fn visited_ids<V>(r: Seq<((u32, u32), V)>) -> Seq<u32> {
    r.map_values(|e: ((u32, u32), V)| id_of(e.0.0, e.0.1))
}

/// The ids of the cells that a mutable join visited, one per step.
pub open spec fn step_ids(s: Seq<(u32, u32)>) -> Seq<u32> {
    s.map_values(|c: (u32, u32)| id_of(c.0, c.1))
}

/// `r` visits each cell of `m` once, in ascending id order, and no other,
/// pairing the cell's coordinate with its value.
pub open spec fn visits_all<T>(r: Seq<((u32, u32), T)>, m: Map<u32, T>) -> bool {
    &&& lists_ascending(visited_ids(r), m.dom())
    &&& forall|k: int|
        0 <= k < r.len() ==> valid_cell((#[trigger] r[k]).0.0, r[k].0.1) && r[k].1 == m[id_of(
            r[k].0.0,
            r[k].0.1,
        )]
}

proof fn lemma_visit_ids<T>(out: Seq<((u32, u32), T)>, ids: Seq<u32>, m: Map<u32, T>)
    requires
        lists_ascending(ids, m.dom()),
        forall|id: u32| #[trigger] m.dom().contains(id) ==> id < NUM_CELLS,
        out.len() == ids.len(),
        forall|k: int| 0 <= k < ids.len() ==> #[trigger] out[k] == (cell_of(ids[k]), m[ids[k]]),
    ensures
        visits_all(out, m),
{
    assert forall|k: int| 0 <= k < ids.len() implies valid_cell(out[k].0.0, out[k].0.1)
        && id_of(out[k].0.0, out[k].0.1) == ids[k] by {
        assert(m.dom().contains(ids[k]));
        lemma_id_cell_bijection(ids[k]);
    }
    assert(visited_ids(out) =~= ids);
}

/// The storage of one component type over a chunk: a presence mask and a
/// dense store `S`. Absent cells hold the blank value.
pub struct MaskedCellStorage<T, S = SliceAccessStorage<T>> {
    mask: BitSet,
    inner: S,
    component: PhantomData<T>,
}

impl<T: Copy, S: InnerCellStorage<T>> MaskedCellStorage<T, S> {
    /// The ids of the cells that hold a value.
    pub closed spec fn present(&self) -> Set<u32> {
        bits_of(self.mask)
    }

    /// The dense slots, indexed by id.
    pub closed spec fn cells(&self) -> Seq<T> {
        self.inner.cells()
    }

    /// The dense store has one slot per cell.
    pub closed spec fn store_wf(&self) -> bool {
        self.inner.wf()
    }

    /// The value of an absent slot.
    pub closed spec fn blank(&self) -> T {
        self.inner.blank()
    }

    /// The mask only holds ids of the chunk, and a slot outside the mask is
    /// blank.
    pub open spec fn wf(&self) -> bool {
        &&& self.store_wf()
        &&& self.cells().len() == NUM_CELLS
        &&& forall|id: u32| #[trigger] self.present().contains(id) ==> id < NUM_CELLS
        &&& forall|i: int|
            0 <= i < NUM_CELLS && !self.present().contains(i as u32) ==> #[trigger] self.cells()[i]
                == self.blank()
    }

    /// The present cells, by id, with their values.
    pub open spec fn view(&self) -> Map<u32, T> {
        Map::new(|id: u32| self.present().contains(id), |id: u32| self.cells()[id as int])
    }

    /// A storage with no cell present over `inner`, whose slots must all be
    /// blank.
    pub fn with_store(inner: S) -> (r: Self)
        requires
            inner.wf(),
            inner.cells().len() == NUM_CELLS,
            forall|i: int| 0 <= i < NUM_CELLS ==> #[trigger] inner.cells()[i] == inner.blank(),
        ensures
            r.wf(),
            r.present() == Set::<u32>::empty(),
            r.cells() == inner.cells(),
            r.blank() == inner.blank(),
    {
        MaskedCellStorage { mask: mask_new(), inner, component: PhantomData }
    }

    /// The mask and the dense store, borrowed apart, so that the mask can be
    /// read while the slots are written.
    fn open_mut(&mut self) -> (r: (&BitSet, &mut S))
        ensures
            *r.0 == old(self).mask,
            *r.1 == old(self).inner,
            final(self).mask == old(self).mask,
            final(self).inner == *final(r.1),
    {
        (&self.mask, &mut self.inner)
    }
}

impl<T: Copy> MaskedCellStorage<T, SliceAccessStorage<T>> {
    /// A storage with no cell present, every slot holding `blank`.
    pub fn new(blank: T) -> (r: Self)
        ensures
            r.wf(),
            r.present() == Set::<u32>::empty(),
            r.blank() == blank,
    {
        MaskedCellStorage::with_store(SliceAccessStorage::new(blank))
    }
}

/// Access to the masked storage of one component type, by coordinate.
/// A shared borrow of it reads; an exclusive borrow writes.
pub struct CellStorage<D> {
    data: D,
}

impl<D> CellStorage<D> {
    /// The storage that this wraps.
    pub closed spec fn data(&self) -> D {
        self.data
    }

    /// Wraps `data`.
    pub fn new(data: D) -> (r: Self)
        ensures
            r.data() == data,
    {
        CellStorage::<D> { data: data }
    }
}

impl<T: Copy, S: InnerCellStorage<T>> CellStorage<MaskedCellStorage<T, S>> {
    /// The wrapped storage is well formed.
    pub open spec fn wf(&self) -> bool {
        self.data().wf()
    }

    /// The present cells, by id, with their values.
    pub open spec fn view(&self) -> Map<u32, T> {
        self.data().view()
    }

    /// The value of the cell at `(x, y)`, or `None` when it is absent.
    pub fn get(&self, x: u32, y: u32) -> (r: Option<&T>)
        requires
            self.wf(),
            valid_cell(x, y),
        ensures
            r is Some <==> self@.dom().contains(id_of(x, y)),
            r is Some ==> *r->Some_0 == self@[id_of(x, y)],
    {
        let id = cell_to_id(x, y);
        if mask_contains(&self.data.mask, id) {
            Some(self.data.inner.get(id))
        } else {
            None
        }
    }

    /// Makes the cell at `(x, y)` present with `component`, over any value it
    /// held, and returns the stored value.
    pub fn insert(&mut self, x: u32, y: u32, component: T) -> (r: &T)
        requires
            old(self).wf(),
            valid_cell(x, y),
        ensures
            *r == component,
            final(self).wf(),
            final(self)@ == old(self)@.insert(id_of(x, y), component),
            final(self).data().blank() == old(self).data().blank(),
    {
        let id = cell_to_id(x, y);
        mask_add(&mut self.data.mask, id);
        self.data.inner.insert(id, component);
        proof {
            assert(self@ =~= old(self)@.insert(id, component));
        }
        self.data.inner.get(id)
    }

    /// Takes the cell out of the mask and resets its slot to the blank value;
    /// an absent cell stays as it is.
    pub fn remove(&mut self, x: u32, y: u32)
        requires
            old(self).wf(),
            valid_cell(x, y),
        ensures
            final(self).wf(),
            final(self)@ == old(self)@.remove(id_of(x, y)),
            final(self).data().blank() == old(self).data().blank(),
            final(self).data().cells()[id_of(x, y) as int] == old(self).data().blank(),
    {
        let id = cell_to_id(x, y);
        mask_remove(&mut self.data.mask, id);
        self.data.inner.remove(id);
        proof {
            assert(self@ =~= old(self)@.remove(id));
        }
    }

    /// Each present cell, once, in ascending id order, with its coordinate
    /// and its value.
    pub fn join(&self) -> (r: Vec<((u32, u32), T)>)
        requires
            self.wf(),
        ensures
            visits_all(r@, self@),
    {
        let ids = mask_ids(&self.data.mask);
        let mut out: Vec<((u32, u32), T)> = Vec::new();
        let mut i: usize = 0;
        while i < ids.len()
            invariant
                self.wf(),
                lists_ascending(ids@, self.data().present()),
                i <= ids.len(),
                out@.len() == i,
                forall|k: int|
                    0 <= k < i ==> #[trigger] out@[k] == (
                        cell_of(ids@[k]),
                        self@[ids@[k]],
                    ),
            decreases ids.len() - i,
        {
            let id = ids[i];
            assert(self.data().present().contains(ids@[i as int]));
            let c = id_to_cell(id);
            out.push((c, *self.data.inner.get(id)));
            i = i + 1;
        }
        proof {
            lemma_visit_ids(out@, ids@, self@);
        }
        out
    }

    /// Hands each present cell, once and in ascending id order, to `f`
    /// together with its coordinate, and stores what `f` returns in its
    /// place. Each step holds the only reference to its own slot, so no step
    /// reaches another cell. Returns the cells visited, one per step.
    pub fn join_update<F: Fn((u32, u32), T) -> T>(&mut self, f: F) -> (steps: Vec<(u32, u32)>)
        requires
            old(self).wf(),
            forall|c: (u32, u32), v: T| valid_cell(c.0, c.1) ==> f.requires((c, v)),
        ensures
            lists_ascending(step_ids(steps@), old(self)@.dom()),
            forall|k: int|
                0 <= k < steps@.len() ==> valid_cell((#[trigger] steps@[k]).0, steps@[k].1),
            final(self).wf(),
            final(self)@.dom() == old(self)@.dom(),
            final(self).data().blank() == old(self).data().blank(),
            forall|id: u32|
                #[trigger] old(self)@.dom().contains(id) ==> f.ensures(
                    (cell_of(id), old(self)@[id]),
                    final(self)@[id],
                ),
    {
        let ghost before = self.data;
        let (mask, inner) = self.data.open_mut();
        let ids = mask_ids(mask);
        let ghost start = *inner;
        let mut steps: Vec<(u32, u32)> = Vec::new();
        assert(bits_of(*mask) == before.present());
        assert(start.cells() == before.cells());
        let mut i: usize = 0;
        while i < ids.len()
            invariant
                forall|c: (u32, u32), v: T| valid_cell(c.0, c.1) ==> f.requires((c, v)),
                lists_ascending(ids@, bits_of(*mask)),
                forall|id: u32| #[trigger] bits_of(*mask).contains(id) ==> id < NUM_CELLS,
                i <= ids.len(),
                steps@.len() == i,
                forall|k: int| 0 <= k < i ==> #[trigger] steps@[k] == cell_of(ids@[k]),
                inner.wf(),
                inner.cells().len() == NUM_CELLS,
                inner.blank() == start.blank(),
                forall|j: int|
                    0 <= j < NUM_CELLS && !ids@.subrange(0, i as int).contains(j as u32)
                        ==> #[trigger] inner.cells()[j] == start.cells()[j],
                forall|k: int|
                    0 <= k < i ==> f.ensures(
                        (cell_of(#[trigger] ids@[k]), start.cells()[ids@[k] as int]),
                        inner.cells()[ids@[k] as int],
                    ),
            decreases ids.len() - i,
        {
            let id = ids[i];
            assert(bits_of(*mask).contains(ids@[i as int]));
            let c = id_to_cell(id);
            assert(!ids@.subrange(0, i as int).contains(id)) by {
                if ids@.subrange(0, i as int).contains(id) {
                    let k = choose|k: int| 0 <= k < i && ids@.subrange(0, i as int)[k] == id;
                    assert(ids@[k] == id);
                }
            }
            let slot = inner.get_mut(id);
            let v = f(c, *slot);
            *slot = v;
            steps.push(c);
            i = i + 1;
            assert forall|j: int|
                0 <= j < NUM_CELLS && !ids@.subrange(0, i as int).contains(j as u32)
                    implies #[trigger] inner.cells()[j] == start.cells()[j] by {
                assert(ids@.subrange(0, i as int)[i - 1] == id);
                if !ids@.subrange(0, (i - 1) as int).contains(j as u32) {
                } else {
                    let k = choose|k: int|
                        #![trigger ids@.subrange(0, (i - 1) as int)[k]]
                        0 <= k < i - 1 && ids@.subrange(0, (i - 1) as int)[k] == j as u32;
                    assert(ids@.subrange(0, i as int)[k] == j as u32);
                }
            }
        }
        proof {
            assert forall|id: u32| #[trigger] old(self)@.dom().contains(id) implies f.ensures(
                (cell_of(id), old(self)@[id]),
                final(self)@[id],
            ) by {
                assert(ids@.contains(id));
                let k = choose|k: int| 0 <= k < ids@.len() && ids@[k] == id;
                assert(f.ensures((cell_of(ids@[k]), start.cells()[ids@[k] as int]), inner.cells()[ids@[k] as int]));
            }
            assert forall|k: int| 0 <= k < ids@.len() implies valid_cell(steps@[k].0, steps@[k].1)
                && id_of(steps@[k].0, steps@[k].1) == ids@[k] by {
                assert(bits_of(*mask).contains(ids@[k]));
                lemma_id_cell_bijection(ids@[k]);
            }
            assert(step_ids(steps@) =~= ids@);
        }
        steps
    }

    /// The slot of the cell at `(x, y)` for writing, or `None` when the cell
    /// is absent.
    pub fn get_mut(&mut self, x: u32, y: u32) -> (r: Option<&mut T>)
        requires
            old(self).wf(),
            valid_cell(x, y),
        ensures
            r is Some <==> old(self)@.dom().contains(id_of(x, y)),
            match r {
                Some(e) => {
                    &&& *e == old(self)@[id_of(x, y)]
                    &&& final(self).wf()
                    &&& final(self)@ == old(self)@.insert(id_of(x, y), *final(e))
                    &&& final(self).data().blank() == old(self).data().blank()
                },
                None => *final(self) == *old(self),
            },
    {
        let id = cell_to_id(x, y);
        if mask_contains(&self.data.mask, id) {
            Some(self.data.inner.get_mut(id))
        } else {
            None
        }
    }
}

/// The ids of the cells that a two-way join visited, in the order visited.
pub open spec fn visited_ids2<A, B>(r: Seq<((u32, u32), A, B)>) -> Seq<u32> {
    r.map_values(|e: ((u32, u32), A, B)| id_of(e.0.0, e.0.1))
}

/// `r` visits each cell present in both `a` and `b` once, in ascending id
/// order, and no other, pairing the cell's coordinate with both values.
pub open spec fn visits_both<A, B>(r: Seq<((u32, u32), A, B)>, a: Map<u32, A>, b: Map<u32, B>) -> bool {
    &&& lists_ascending(visited_ids2(r), a.dom().intersect(b.dom()))
    &&& forall|k: int|
        0 <= k < r.len() ==> valid_cell((#[trigger] r[k]).0.0, r[k].0.1) && r[k].1 == a[id_of(
            r[k].0.0,
            r[k].0.1,
        )] && r[k].2 == b[id_of(r[k].0.0, r[k].0.1)]
}

/// Each cell present in both storages, once, in ascending id order, with its
/// coordinate and the value each storage holds there.
pub fn join2<A: Copy, B: Copy, SA: InnerCellStorage<A>, SB: InnerCellStorage<B>>(
    a: &CellStorage<MaskedCellStorage<A, SA>>,
    b: &CellStorage<MaskedCellStorage<B, SB>>,
) -> (r: Vec<((u32, u32), A, B)>)
    requires
        a.wf(),
        b.wf(),
    ensures
        visits_both(r@, a@, b@),
{
    let ids = mask_and_ids(&a.data.mask, &b.data.mask);
    let mut out: Vec<((u32, u32), A, B)> = Vec::new();
    let mut i: usize = 0;
    while i < ids.len()
        invariant
            a.wf(),
            b.wf(),
            lists_ascending(ids@, a@.dom().intersect(b@.dom())),
            i <= ids.len(),
            out@.len() == i,
            forall|k: int|
                0 <= k < i ==> #[trigger] out@[k] == (cell_of(ids@[k]), a@[ids@[k]], b@[ids@[k]]),
        decreases ids.len() - i,
    {
        let id = ids[i];
        assert(a@.dom().intersect(b@.dom()).contains(ids@[i as int]));
        let c = id_to_cell(id);
        out.push((c, *a.data.inner.get(id), *b.data.inner.get(id)));
        i = i + 1;
    }
    proof {
        assert forall|k: int| 0 <= k < ids@.len() implies valid_cell(out@[k].0.0, out@[k].0.1)
            && id_of(out@[k].0.0, out@[k].0.1) == ids@[k] by {
            assert(a@.dom().contains(ids@[k]));
            lemma_id_cell_bijection(ids@[k]);
        }
        assert(visited_ids2(out@) =~= ids@);
    }
    out
}

} // verus!
