use vstd::prelude::*;

pub mod cell_storage;
pub mod laws;
pub mod mask;
pub mod slice_access_storage;

verus! {

/// Side length of a chunk, in cells.
pub const CHUNK_SIZE: u32 = 32;

/// Number of cells in a chunk.
pub const NUM_CELLS: u32 = CHUNK_SIZE * CHUNK_SIZE;

} // verus!
