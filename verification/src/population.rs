//! How a population and a spatial index agree, and the steps that keep them
//! in agreement.

use crate::board::{BoardCoordinate, BoardSize};
use crate::sbip::{adjacent, on_board, reindexed};
use crate::softbody::SoftBody;
use crate::terrain::tile::Tile;
use vstd::prelude::*;

verus! {

/// Whether the creature `id` is part of the population and stands on `cell`.
pub open spec fn stands_at(creatures: Seq<SoftBody>, id: usize, cell: BoardCoordinate) -> bool {
    exists|i: int|
        0 <= i < creatures.len() && (#[trigger] creatures[i]).id == id && creatures[i].position
            == cell
}

/// No two creatures share an id.
pub open spec fn distinct_ids(creatures: Seq<SoftBody>) -> bool {
    forall|i: int, j: int|
        0 <= i < j < creatures.len() ==> (#[trigger] creatures[i]).id != (#[trigger] creatures[j]).id
}

/// The index holds a creature under a cell exactly if the creature is part
/// of the population and stands on that cell.
pub open spec fn index_matches(
    index: Map<BoardCoordinate, Set<usize>>,
    creatures: Seq<SoftBody>,
    board_size: BoardSize,
) -> bool {
    forall|cell: BoardCoordinate, id: usize|
        on_board(cell, board_size) ==> (#[trigger] index[cell].contains(id) <==> stands_at(
            creatures,
            id,
            cell,
        ))
}

/// A creature with a new id that enters the population and the bucket of
/// its cell leaves population and index in agreement.
pub proof fn lemma_enter(
    index: Map<BoardCoordinate, Set<usize>>,
    creatures: Seq<SoftBody>,
    board_size: BoardSize,
    newcomer: SoftBody,
)
    requires
        index_matches(index, creatures, board_size),
        distinct_ids(creatures),
        forall|i: int| 0 <= i < creatures.len() ==> (#[trigger] creatures[i]).id != newcomer.id,
    ensures
        distinct_ids(creatures.push(newcomer)),
        index_matches(
            reindexed(index, newcomer.id, None, newcomer.position),
            creatures.push(newcomer),
            board_size,
        ),
{
    let after = creatures.push(newcomer);
    let index_after = reindexed(index, newcomer.id, None, newcomer.position);
    assert forall|cell: BoardCoordinate, id: usize| on_board(cell, board_size) implies (
    #[trigger] index_after[cell].contains(id) <==> stands_at(after, id, cell)) by {
        if stands_at(after, id, cell) {
            let i = choose|i: int|
                0 <= i < after.len() && (#[trigger] after[i]).id == id && after[i].position == cell;
            if i < creatures.len() {
                assert(index[cell].contains(id));
            }
        }
        if index_after[cell].contains(id) {
            if cell == newcomer.position && id == newcomer.id {
                assert(after[creatures.len() as int] == newcomer);
            } else {
                let i = choose|i: int|
                    0 <= i < creatures.len() && (#[trigger] creatures[i]).id == id
                        && creatures[i].position == cell;
                assert(after[i] == creatures[i]);
            }
        }
    }
}

/// A creature that leaves the population and the bucket of its cell leaves
/// population and index in agreement.
pub proof fn lemma_leave(
    index: Map<BoardCoordinate, Set<usize>>,
    creatures: Seq<SoftBody>,
    board_size: BoardSize,
    place: int,
)
    requires
        index_matches(index, creatures, board_size),
        distinct_ids(creatures),
        0 <= place < creatures.len(),
    ensures
        distinct_ids(creatures.remove(place)),
        index_matches(
            index.insert(
                creatures[place].position,
                index[creatures[place].position].remove(creatures[place].id),
            ),
            creatures.remove(place),
            board_size,
        ),
{
    let gone = creatures[place];
    let after = creatures.remove(place);
    let index_after = index.insert(gone.position, index[gone.position].remove(gone.id));
    assert forall|i: int, j: int| 0 <= i < j < after.len() implies (#[trigger] after[i]).id != (
    #[trigger] after[j]).id by {
        let b = if j < place { j } else { j + 1 };
        assert(after[j] == creatures[b]);
    }
    assert forall|cell: BoardCoordinate, id: usize| on_board(cell, board_size) implies (
    #[trigger] index_after[cell].contains(id) <==> stands_at(after, id, cell)) by {
        if stands_at(after, id, cell) {
            let i = choose|i: int|
                0 <= i < after.len() && (#[trigger] after[i]).id == id && after[i].position == cell;
            let a = if i < place { i } else { i + 1 };
            assert(creatures[a].id != creatures[place].id);
        }
        if index_after[cell].contains(id) {
            let a = choose|a: int|
                0 <= a < creatures.len() && (#[trigger] creatures[a]).id == id
                    && creatures[a].position == cell;
            let i = if a < place { a } else { a - 1 };
            assert(after[i] == creatures[a]);
        }
    }
}

/// A creature that steps onto another cell and is recorded there leaves
/// population and index in agreement.
pub proof fn lemma_step(
    index: Map<BoardCoordinate, Set<usize>>,
    creatures: Seq<SoftBody>,
    board_size: BoardSize,
    place: int,
    target: BoardCoordinate,
)
    requires
        index_matches(index, creatures, board_size),
        distinct_ids(creatures),
        0 <= place < creatures.len(),
        index.dom().contains(target),
        index.dom().contains(creatures[place].position),
    ensures
        distinct_ids(
            creatures.update(place, (SoftBody { position: target, ..creatures[place] }).settled()),
        ),
        index_matches(
            reindexed(index, creatures[place].id, Some(creatures[place].position), target),
            creatures.update(place, (SoftBody { position: target, ..creatures[place] }).settled()),
            board_size,
        ),
{
    let mover = creatures[place];
    let moved = (SoftBody { position: target, ..mover }).settled();
    let after = creatures.update(place, moved);
    let index_after = reindexed(index, mover.id, Some(mover.position), target);
    assert forall|cell: BoardCoordinate, id: usize| on_board(cell, board_size) implies (
    #[trigger] index_after[cell].contains(id) <==> stands_at(after, id, cell)) by {
        if stands_at(after, id, cell) {
            let i = choose|i: int|
                0 <= i < after.len() && (#[trigger] after[i]).id == id && after[i].position == cell;
            if i != place {
                assert(creatures[i].id != creatures[place].id);
            }
        }
        if index_after[cell].contains(id) {
            if id == mover.id {
                if cell != target {
                    let a = choose|a: int|
                        0 <= a < creatures.len() && (#[trigger] creatures[a]).id == id
                            && creatures[a].position == cell;
                    assert(a == place);
                }
                assert(after[place] == moved);
            } else {
                let a = choose|a: int|
                    0 <= a < creatures.len() && (#[trigger] creatures[a]).id == id
                        && creatures[a].position == cell;
                assert(after[a] == creatures[a]);
            }
        }
    }
}

/// The creatures whose mark is `wanted`, in their order. With the marks
/// saying who has died, the survivors are those marked `false`.
pub open spec fn chosen(creatures: Seq<SoftBody>, marks: Seq<bool>, wanted: bool) -> Seq<
    SoftBody,
>
    decreases creatures.len(),
{
    if creatures.len() == 0 {
        Seq::empty()
    } else {
        let before = chosen(creatures.drop_last(), marks.drop_last(), wanted);
        if marks.last() == wanted {
            before.push(creatures.last())
        } else {
            before
        }
    }
}

/// Whether a creature with this id is among the given ones.
pub open spec fn among(creatures: Seq<SoftBody>, id: usize) -> bool {
    exists|i: int| 0 <= i < creatures.len() && (#[trigger] creatures[i]).id == id
}

/// Taking one creature more into account either leaves the chosen ones as
/// they are or adds that creature.
pub proof fn lemma_chosen_step(creatures: Seq<SoftBody>, marks: Seq<bool>, wanted: bool, j: int)
    requires
        0 <= j < creatures.len(),
        marks.len() == creatures.len(),
    ensures
        chosen(creatures.subrange(0, j + 1), marks.subrange(0, j + 1), wanted) == if marks[j]
            == wanted {
            chosen(creatures.subrange(0, j), marks.subrange(0, j), wanted).push(creatures[j])
        } else {
            chosen(creatures.subrange(0, j), marks.subrange(0, j), wanted)
        },
{
    assert(creatures.subrange(0, j + 1).drop_last() =~= creatures.subrange(0, j));
    assert(marks.subrange(0, j + 1).drop_last() =~= marks.subrange(0, j));
}

/// The ground after the dead have been returned to it: each creature that
/// `dead` marks leaves its `biomass` as food on the tile on which it stood,
/// one creature after the other.
pub open spec fn buried(
    terrain: Map<BoardCoordinate, Tile>,
    creatures: Seq<SoftBody>,
    dead: Seq<bool>,
    biomass: Seq<i64>,
) -> Map<BoardCoordinate, Tile>
    decreases creatures.len(),
{
    if creatures.len() == 0 {
        terrain
    } else {
        let before = buried(terrain, creatures.drop_last(), dead.drop_last(), biomass.drop_last());
        if dead.last() {
            let cell = creatures.last().position;
            before.insert(cell, before[cell].fed(biomass.last() as int))
        } else {
            before
        }
    }
}

/// Taking one creature more into account either leaves the ground as it is
/// or feeds the tile under that creature.
pub proof fn lemma_buried_step(
    terrain: Map<BoardCoordinate, Tile>,
    creatures: Seq<SoftBody>,
    dead: Seq<bool>,
    biomass: Seq<i64>,
    j: int,
)
    requires
        0 <= j < creatures.len(),
        dead.len() == creatures.len(),
        biomass.len() == creatures.len(),
    ensures
        ({
            let before = buried(
                terrain,
                creatures.subrange(0, j),
                dead.subrange(0, j),
                biomass.subrange(0, j),
            );
            buried(
                terrain,
                creatures.subrange(0, j + 1),
                dead.subrange(0, j + 1),
                biomass.subrange(0, j + 1),
            ) == if dead[j] {
                before.insert(
                    creatures[j].position,
                    before[creatures[j].position].fed(biomass[j] as int),
                )
            } else {
                before
            }
        }),
{
    assert(creatures.subrange(0, j + 1).drop_last() =~= creatures.subrange(0, j));
    assert(dead.subrange(0, j + 1).drop_last() =~= dead.subrange(0, j));
    assert(biomass.subrange(0, j + 1).drop_last() =~= biomass.subrange(0, j));
}

/// Whether the creature at `other` can be the mate of the creature at
/// `place`: it is another creature, it is eligible, and it stands on the
/// same cell or on one that touches it.
pub open spec fn is_candidate(
    creatures: Seq<SoftBody>,
    place: int,
    other: int,
    eligible: Seq<bool>,
) -> bool {
    &&& 0 <= other < creatures.len()
    &&& other != place
    &&& eligible[other]
    &&& adjacent(creatures[place].position, creatures[other].position)
}

/// Whether the creature at `first` is to be preferred as a mate to the one
/// at `second`: a creature on the same cell goes before one on a
/// neighbouring cell, and of two that are equally near the one with the
/// lower id goes first.
pub open spec fn preferred(creatures: Seq<SoftBody>, place: int, first: int, second: int) -> bool {
    let home = creatures[place].position;
    let a = creatures[first];
    let b = creatures[second];
    if (a.position == home) == (b.position == home) {
        a.id <= b.id
    } else {
        a.position == home
    }
}

/// Whether the creature at `mate` is the mate of the creature at `place`:
/// a candidate that is preferred to every candidate.
pub open spec fn is_mate(creatures: Seq<SoftBody>, place: int, mate: int, eligible: Seq<bool>) -> bool {
    &&& is_candidate(creatures, place, mate, eligible)
    &&& forall|other: int|
        is_candidate(creatures, place, other, eligible) ==> preferred(creatures, place, mate, other)
}

/// The place of the mate of the creature at `place`, if it has one.
pub open spec fn mate_of(creatures: Seq<SoftBody>, place: int, eligible: Seq<bool>) -> Option<int> {
    if exists|mate: int| is_mate(creatures, place, mate, eligible) {
        Some(choose|mate: int| is_mate(creatures, place, mate, eligible))
    } else {
        None
    }
}

/// No creature has two mates.
pub proof fn lemma_mate_is_unique(
    creatures: Seq<SoftBody>,
    place: int,
    first: int,
    second: int,
    eligible: Seq<bool>,
)
    requires
        distinct_ids(creatures),
        is_mate(creatures, place, first, eligible),
        is_mate(creatures, place, second, eligible),
    ensures
        first == second,
{
    assert(preferred(creatures, place, first, second));
    assert(preferred(creatures, place, second, first));
    if first < second {
        assert(creatures[first].id != creatures[second].id);
    }
    if second < first {
        assert(creatures[second].id != creatures[first].id);
    }
}

/// A child that was born, and the ids of the two that it has its genome
/// from: the parent that bore it and the mate of that parent.
#[derive(Clone, Copy, Debug)]
pub struct Birth {
    pub baby: SoftBody,
    pub parent: usize,
    pub mate: usize,
}

/// The children of a list of births.
pub open spec fn babies(born: Seq<Birth>) -> Seq<SoftBody> {
    Seq::new(born.len(), |k: int| born[k].baby)
}

/// The births of one round among the first `upto` creatures. A creature
/// bears a child if it is eligible and has a mate. The child is born at the
/// time `year` on the cell of its parent. The children get the ids from
/// `first_id` upwards, in the order of their parents.
pub open spec fn births(
    creatures: Seq<SoftBody>,
    eligible: Seq<bool>,
    first_id: int,
    year: u64,
    upto: int,
) -> Seq<Birth>
    decreases upto,
{
    if upto <= 0 {
        Seq::empty()
    } else {
        let before = births(creatures, eligible, first_id, year, upto - 1);
        let parent = creatures[upto - 1];
        match mate_of(creatures, upto - 1, eligible) {
            Some(mate) if eligible[upto - 1] => before.push(
                Birth {
                    baby: SoftBody {
                        id: (first_id + before.len()) as usize,
                        birth_time: year,
                        position: parent.position,
                        previous_cell: Some(parent.position),
                    },
                    parent: parent.id,
                    mate: creatures[mate].id,
                },
            ),
            _ => before,
        }
    }
}

/// What a creature with the given appetite eats from a tile: as much as it
/// wants, but no more than there is, and never less than nothing.
pub open spec fn meal_of(tile: Tile, appetite: i64) -> i64 {
    if appetite <= 0 {
        0
    } else if appetite > tile.food_level() {
        if tile.food_level() < 0 {
            0
        } else {
            tile.food_level()
        }
    } else {
        appetite
    }
}

/// The ground after the first `upto` creatures have eaten, one after the
/// other, each from the tile on which it stands.
pub open spec fn grazed(
    terrain: Map<BoardCoordinate, Tile>,
    creatures: Seq<SoftBody>,
    appetites: Seq<i64>,
    upto: int,
) -> Map<BoardCoordinate, Tile>
    decreases upto,
{
    if upto <= 0 {
        terrain
    } else {
        let before = grazed(terrain, creatures, appetites, upto - 1);
        let cell = creatures[upto - 1].position;
        before.insert(cell, before[cell].fed(-(meal_of(before[cell], appetites[upto - 1]) as int)))
    }
}

} // verus!
