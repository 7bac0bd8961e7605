//! What the board knows of a creature: its name, its birth and its cell.

use crate::board::{BoardCoordinate, BoardSize};
use crate::sbip::{on_board, reindexed, SoftBodiesInPositions};
use vstd::prelude::*;

verus! {

/// The record of one creature. Its body and its brain live with the caller,
/// who finds them by the id.
#[derive(Clone, Copy, Debug)]
pub struct SoftBody {
    /// The name of the creature, unique on its board.
    pub id: usize,
    /// The time at which the creature was born.
    pub birth_time: u64,
    /// The cell on which the creature stands.
    pub position: BoardCoordinate,
    /// The cell under which the spatial index holds the creature, if it
    /// holds it at all.
    pub previous_cell: Option<BoardCoordinate>,
}

impl SoftBody {
    /// A creature that no index holds yet.
    pub fn new(id: usize, birth_time: u64, position: BoardCoordinate) -> (body: Self)
        ensures
            body == (SoftBody { id, birth_time, position, previous_cell: None }),
    {
        SoftBody { id, birth_time, position, previous_cell: None }
    }

    /// The name of the creature.
    pub fn get_id(&self) -> (id: usize)
        ensures
            id == self.id,
    {
        self.id
    }

    /// The time at which the creature was born.
    pub fn get_birth_time(&self) -> (birth_time: u64)
        ensures
            birth_time == self.birth_time,
    {
        self.birth_time
    }

    /// The cell on which the creature stands.
    pub fn get_position(&self) -> (position: BoardCoordinate)
        ensures
            position == self.position,
    {
        self.position
    }

    /// The creature as the index should know it: recorded under the cell on
    /// which it stands.
    pub open spec fn settled(self) -> SoftBody {
        SoftBody { previous_cell: Some(self.position), ..self }
    }

    /// Brings the index up to date with the creature's position: the
    /// creature leaves the bucket of the cell under which it was recorded,
    /// if that is another cell, and enters the bucket of the cell on which
    /// it stands, which is then the recorded one.
    pub fn set_sbip(&mut self, sbip: &mut SoftBodiesInPositions, board_size: BoardSize)
        requires
            old(sbip).wf(),
            old(sbip).board_size() == board_size,
            on_board(old(self).position, board_size),
            old(self).previous_cell matches Some(cell) ==> on_board(cell, board_size),
        ensures
            final(sbip).wf(),
            final(sbip).board_size() == board_size,
            final(sbip)@ == reindexed(
                old(sbip)@,
                old(self).id,
                old(self).previous_cell,
                old(self).position,
            ),
            *final(self) == old(self).settled(),
    {
        let (x, y) = self.position;
        if let Some(previous) = self.previous_cell {
            if previous.0 != x || previous.1 != y {
                sbip.remove_soft_body_at(previous.0, previous.1, self.id);
            }
        }
        sbip.add_soft_body_at(x, y, self.id);
        self.previous_cell = Some((x, y));
    }
}

/// Bringing the index up to date twice in a row, with the creature standing
/// still, changes no more than doing so once.
pub proof fn lemma_set_sbip_twice(
    index: Map<BoardCoordinate, Set<usize>>,
    id: usize,
    previous: Option<BoardCoordinate>,
    current: BoardCoordinate,
)
    ensures
        reindexed(reindexed(index, id, previous, current), id, Some(current), current)
            == reindexed(index, id, previous, current),
{
    let once = reindexed(index, id, previous, current);
    assert(once[current].insert(id) =~= once[current]);
}

} // verus!
