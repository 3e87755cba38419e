//! The data that each cell of a mesh carries, and its ids.

use vstd::prelude::*;

verus! {

/// The data of a cell, with its local id (on this process, ghosts after
/// the cells of the process), its global id and the rank that owns it.
#[derive(Clone, Debug, Default)]
pub struct CellData<T> {
    pub data: T,
    pub local_id: u32,
    pub global_id: u32,
    pub owner_rank: u32,
}

/// The ids of a cell of this process: quadrant `quadid` of its tree, whose
/// quadrants start at `quadrants_offset` among the process's quadrants; the
/// process's cells start at `global_offset` among all cells; `rank` is the
/// process.
pub fn assign_cell_ids<T>(
    cell: &mut CellData<T>,
    quadid: i32,
    quadrants_offset: i32,
    global_offset: usize,
    rank: usize,
)
    requires
        i32::MIN <= quadid + quadrants_offset <= i32::MAX,
        ((quadid + quadrants_offset) as u32) + (global_offset as u32) <= u32::MAX,
    ensures
        final(cell).local_id == (quadid + quadrants_offset) as u32,
        final(cell).global_id == final(cell).local_id + (global_offset as u32),
        final(cell).owner_rank == rank as u32,
        final(cell).data == old(cell).data,
{
    let local_id = quadid + quadrants_offset;
    cell.local_id = local_id as u32;
    cell.global_id = (local_id as u32) + (global_offset as u32);
    cell.owner_rank = rank as u32;
}

/// Gives the ghost cells the local ids that follow those of the
/// `local_len` cells of this process.
pub fn update_ghost_ids<T>(ghost_data: &mut Vec<CellData<T>>, local_len: usize)
    requires
        local_len + old(ghost_data)@.len() <= usize::MAX,
    ensures
        final(ghost_data)@.len() == old(ghost_data)@.len(),
        forall|i: int|
            0 <= i < final(ghost_data)@.len() ==> {
                &&& (#[trigger] final(ghost_data)@[i]).local_id == (local_len + i) as u32
                &&& final(ghost_data)@[i].global_id == old(ghost_data)@[i].global_id
                &&& final(ghost_data)@[i].owner_rank == old(ghost_data)@[i].owner_rank
                &&& final(ghost_data)@[i].data == old(ghost_data)@[i].data
            },
{
    let n = ghost_data.len();
    let mut i: usize = 0;
    while i < n
        invariant
            i <= n == ghost_data@.len() == old(ghost_data)@.len(),
            local_len + n <= usize::MAX,
            forall|j: int|
                0 <= j < n ==> {
                    &&& j < i ==> (#[trigger] ghost_data@[j]).local_id == (local_len + j) as u32
                    &&& j >= i ==> ghost_data@[j].local_id == old(ghost_data)@[j].local_id
                    &&& ghost_data@[j].global_id == old(ghost_data)@[j].global_id
                    &&& ghost_data@[j].owner_rank == old(ghost_data)@[j].owner_rank
                    &&& ghost_data@[j].data == old(ghost_data)@[j].data
                },
        decreases n - i,
    {
        ghost_data[i].local_id = (local_len + i) as u32;
        i = i + 1;
    }
}

} // verus!
