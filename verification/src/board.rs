//! The board: the clock, the ground, the population and the selection of a
//! single creature, and the steps of a tick.

use crate::population::{
    babies, births, is_candidate, is_mate, lemma_mate_is_unique, mate_of, preferred, Birth,
};
use crate::population::{grazed, meal_of};
use crate::population::{
    among, buried, chosen, distinct_ids, index_matches, lemma_buried_step, lemma_chosen_step,
    lemma_enter, lemma_leave, lemma_step, stands_at,
};
use crate::random::random_between;
use crate::sbip::{adjacent, on_board, SoftBodiesInPositions};
use crate::softbody::{lemma_set_sbip_twice, SoftBody};
use crate::terrain::tile::{Tile, QUANTITY_UNIT};
use crate::terrain::Terrain;
use vstd::prelude::*;

verus! {

/// The length of a year on the board's clock. Time is kept in fixed point:
/// one unit is the millionth part of a year.
pub const TIME_UNITS_PER_YEAR: u64 = 1_000_000;

/// Width and height of a board, in cells.
pub type BoardSize = (usize, usize);

/// Column and row of a cell.
pub type BoardCoordinate = (usize, usize);

/// The creature that a viewer follows, named by its id.
pub struct SelectedCreature(pub Option<usize>);

impl Default for SelectedCreature {
    fn default() -> (s: Self)
        ensures
            s.0.is_none(),
    {
        SelectedCreature(None)
    }
}

impl SelectedCreature {
    /// What the selection is after `creature` has died: it survives only
    /// where it names another creature.
    pub open spec fn after_death(self, creature: usize) -> Option<usize> {
        match self.0 {
            Some(selected) if selected != creature => Some(selected),
            _ => None,
        }
    }

    /// Drops the selection if it names `creature`, which has just died.
    pub fn unselect_if_dead(&mut self, creature: usize)
        ensures
            final(self).0 == old(self).after_death(creature),
    {
        if let Some(selected) = self.0 {
            if selected != creature {
                return;
            }
        }
        self.0 = None;
    }

    /// Makes `creature` the selected one.
    pub fn select(&mut self, creature: usize)
        ensures
            final(self).0 == Some(creature),
    {
        self.0 = Some(creature);
    }

    /// Clears the selection.
    pub fn deselect(&mut self)
        ensures
            final(self).0.is_none(),
    {
        self.0 = None;
    }
}

/// The step of a tick that the board awaits. A tick runs through them in
/// this order and none can be left out.
#[derive(Clone, Copy, Debug, PartialEq, Eq, Structural)]
pub enum Phase {
    /// Between two ticks.
    Idle,
    /// The clock has moved; the creatures are to sense and to act.
    Acting,
    /// The creatures that are no longer viable are to be removed.
    Culling,
    /// The survivors are to bear their offspring.
    Reproducing,
    /// The population is to be brought up to its minimum.
    Refilling,
    /// All creatures, the newborn among them, are to move.
    Moving,
}

/// The world in which the creatures live: its clock, its terrain, its
/// population, and the index that finds the creatures by their cell.
pub struct Board {
    board_width: usize,
    board_height: usize,
    terrain: Terrain,
    creature_minimum: usize,
    soft_bodies_in_positions: SoftBodiesInPositions,
    creatures: Vec<SoftBody>,
    creature_id_up_to: usize,
    year: u64,
    phase: Phase,
    /// The creature that a viewer follows. The board only clears it, when
    /// that creature dies.
    pub selected_creature: SelectedCreature,
}

impl Board {
    /// Width and height of the board.
    pub closed spec fn board_size(&self) -> BoardSize {
        (self.board_width, self.board_height)
    }

    /// The number of creatures below which the board spawns new ones.
    pub closed spec fn creature_minimum(&self) -> usize {
        self.creature_minimum
    }

    /// The id that the next new creature gets.
    pub closed spec fn creature_id_up_to(&self) -> usize {
        self.creature_id_up_to
    }

    /// The time on the clock.
    pub closed spec fn year(&self) -> u64 {
        self.year
    }

    /// The step of a tick that the board awaits.
    pub closed spec fn phase(&self) -> Phase {
        self.phase
    }

    /// The id of the selected creature, if one is selected.
    pub closed spec fn selected(&self) -> Option<usize> {
        self.selected_creature.0
    }

    /// The population, in the order in which the creatures joined it.
    pub closed spec fn creatures(&self) -> Seq<SoftBody> {
        self.creatures@
    }

    /// The ids that the spatial index holds under each cell.
    pub closed spec fn index(&self) -> Map<BoardCoordinate, Set<usize>> {
        self.soft_bodies_in_positions@
    }

    /// The spatial index itself.
    pub closed spec fn soft_bodies_in_positions(&self) -> SoftBodiesInPositions {
        self.soft_bodies_in_positions
    }

    /// The tile at each cell of the board.
    pub closed spec fn terrain(&self) -> Map<BoardCoordinate, Tile> {
        self.terrain@
    }

    /// The terrain is sound and covers the board.
    pub closed spec fn terrain_wf(&self) -> bool {
        self.terrain.wf() && self.terrain.board_size() == (self.board_width, self.board_height)
    }

    /// The spatial index is sound and covers the board.
    pub closed spec fn index_wf(&self) -> bool {
        self.soft_bodies_in_positions.wf() && self.soft_bodies_in_positions.board_size() == (
            self.board_width,
            self.board_height,
        )
    }

    /// Whether a creature is one that this board can hold: it stands on the
    /// board, the index knows where, and its id and birth lie behind the
    /// board's counter and clock.
    pub open spec fn at_home(&self, creature: SoftBody) -> bool {
        &&& on_board(creature.position, self.board_size())
        &&& creature.previous_cell == Some(creature.position)
        &&& creature.id < self.creature_id_up_to()
        &&& creature.birth_time <= self.year()
    }

    /// The consistency of the board between any two of its operations: every
    /// creature is at home, no id is in use twice, and the index holds each
    /// creature under the cell on which it stands and under no other.
    pub open spec fn wf(&self) -> bool {
        &&& self.terrain_wf()
        &&& self.index_wf()
        &&& forall|i: int|
            0 <= i < self.creatures().len() ==> self.at_home(#[trigger] self.creatures()[i])
        &&& distinct_ids(self.creatures())
        &&& index_matches(self.index(), self.creatures(), self.board_size())
    }

    /// Whether two boards differ in nothing but their population, their
    /// index and their id counter.
    pub open spec fn same_frame(&self, other: &Board) -> bool {
        &&& self.board_size() == other.board_size()
        &&& self.terrain() == other.terrain()
        &&& self.creature_minimum() == other.creature_minimum()
        &&& self.year() == other.year()
        &&& self.phase() == other.phase()
        &&& self.selected() == other.selected()
    }

    /// The size of the population after it has been brought up to the
    /// minimum: the minimum, or what it was where that is more.
    pub open spec fn refilled_size(&self) -> nat {
        if self.creatures().len() < self.creature_minimum() {
            self.creature_minimum() as nat
        } else {
            self.creatures().len()
        }
    }

    /// The creature that is born on `cell` of this board next.
    pub open spec fn newborn(&self, cell: BoardCoordinate) -> SoftBody {
        SoftBody {
            id: self.creature_id_up_to(),
            birth_time: self.year(),
            position: cell,
            previous_cell: Some(cell),
        }
    }

    /// Lets a new creature come to life on `cell`, under the next id, and
    /// records it in the index.
    fn spawn_at(&mut self, cell: BoardCoordinate) -> (creature: SoftBody)
        requires
            old(self).wf(),
            on_board(cell, old(self).board_size()),
            old(self).creature_id_up_to() < usize::MAX,
        ensures
            final(self).wf(),
            final(self).same_frame(old(self)),
            creature == old(self).newborn(cell),
            final(self).creatures() == old(self).creatures().push(creature),
            final(self).creature_id_up_to() == old(self).creature_id_up_to() + 1,
    {
        let board_size = (self.board_width, self.board_height);
        let mut creature = SoftBody::new(self.creature_id_up_to, self.year, cell);

        // Record the creature in the index.
        creature.set_sbip(&mut self.soft_bodies_in_positions, board_size);
        // Once more, which settles the cell under which it is recorded.
        creature.set_sbip(&mut self.soft_bodies_in_positions, board_size);

        proof {
            lemma_set_sbip_twice(old(self).index(), creature.id, None, cell);
            lemma_enter(old(self).index(), old(self).creatures(), board_size, creature);
        }
        self.creatures.push(creature);
        self.creature_id_up_to += 1;
        creature
    }

    /// Spawns creatures on cells drawn at random until the population has
    /// reached its minimum.
    fn refill(&mut self) -> (spawned: Vec<SoftBody>)
        requires
            old(self).wf(),
            old(self).creatures().len() < old(self).creature_minimum() ==> {
                &&& old(self).board_size().0 > 0
                &&& old(self).board_size().1 > 0
                &&& old(self).creature_id_up_to() + old(self).creature_minimum()
                    - old(self).creatures().len() <= usize::MAX
            },
        ensures
            final(self).wf(),
            final(self).same_frame(old(self)),
            final(self).creatures().len() == old(self).refilled_size(),
            final(self).creatures() == old(self).creatures() + spawned@,
            final(self).creature_id_up_to() == old(self).creature_id_up_to() + spawned@.len(),
            forall|k: int|
                0 <= k < spawned@.len() ==> {
                    &&& (#[trigger] spawned@[k]).id == old(self).creature_id_up_to() + k
                    &&& spawned@[k].birth_time == old(self).year()
                    &&& on_board(spawned@[k].position, old(self).board_size())
                    &&& spawned@[k].previous_cell == Some(spawned@[k].position)
                },
    {
        let mut spawned: Vec<SoftBody> = Vec::new();
        while self.creatures.len() < self.creature_minimum
            invariant
                self.wf(),
                self.same_frame(old(self)),
                self.creatures() == old(self).creatures() + spawned@,
                self.creature_id_up_to() == old(self).creature_id_up_to() + spawned@.len(),
                self.creatures().len() < self.creature_minimum() ==> {
                    &&& self.board_size().0 > 0
                    &&& self.board_size().1 > 0
                    &&& self.creature_id_up_to() + self.creature_minimum()
                        - self.creatures().len() <= usize::MAX
                },
                spawned@.len() > 0 ==> self.creatures().len() <= self.creature_minimum(),
                forall|k: int|
                    0 <= k < spawned@.len() ==> {
                        &&& (#[trigger] spawned@[k]).id == old(self).creature_id_up_to() + k
                        &&& spawned@[k].birth_time == old(self).year()
                        &&& on_board(spawned@[k].position, old(self).board_size())
                        &&& spawned@[k].previous_cell == Some(spawned@[k].position)
                    },
            decreases self.creature_minimum() - self.creatures().len(),
        {
            let x = random_between(0, self.board_width);
            let y = random_between(0, self.board_height);
            let creature = self.spawn_at((x, y));
            spawned.push(creature);
        }
        spawned
    }

    /// A board on the given terrain at time zero, with a population of
    /// `creature_minimum` creatures on cells drawn at random. The creatures
    /// carry the ids from zero upwards.
    pub fn new_random(terrain: Terrain, creature_minimum: usize) -> (board: Self)
        requires
            terrain.wf(),
            creature_minimum > 0 ==> terrain.board_size().0 > 0 && terrain.board_size().1 > 0,
        ensures
            board.wf(),
            board.board_size() == terrain.board_size(),
            board.terrain() == terrain@,
            board.creature_minimum() == creature_minimum,
            board.year() == 0,
            board.phase() == Phase::Idle,
            board.selected().is_none(),
            board.creature_id_up_to() == creature_minimum,
            board.creatures().len() == creature_minimum,
            forall|k: int|
                0 <= k < creature_minimum ==> (#[trigger] board.creatures()[k]).id == k
                    && board.creatures()[k].birth_time == 0,
    {
        let creatures: Vec<SoftBody> = Vec::with_capacity(creature_minimum);
        let board_size = terrain.get_board_size();
        let mut board = Board {
            board_width: board_size.0,
            board_height: board_size.1,
            terrain,
            creature_minimum,
            soft_bodies_in_positions: SoftBodiesInPositions::new_allocated(board_size),
            creatures,
            creature_id_up_to: 0,
            year: 0,
            phase: Phase::Idle,
            selected_creature: SelectedCreature::default(),
        };

        // Initialize creatures.
        board.refill();
        board
    }

    /// Whether the board has room, in its id counter and on its cells, for
    /// the creatures that bring the population up to its minimum.
    pub open spec fn can_refill(&self) -> bool {
        self.creatures().len() < self.creature_minimum() ==> {
            &&& self.board_size().0 > 0
            &&& self.board_size().1 > 0
            &&& self.creature_id_up_to() + self.creature_minimum() - self.creatures().len()
                <= usize::MAX
        }
    }

    /// The fifth step of a tick. Maintains the creature minimum by adding
    /// creatures on cells drawn at random until there are at least
    /// `creature_minimum` of them. No creature is removed or changed; the
    /// new ones stand behind the old ones and are handed back.
    pub fn maintain_creature_minimum(&mut self) -> (spawned: Vec<SoftBody>)
        requires
            old(self).wf(),
            old(self).phase() == Phase::Refilling,
            old(self).can_refill(),
        ensures
            final(self).wf(),
            final(self).phase() == Phase::Moving,
            final(self).board_size() == old(self).board_size(),
            final(self).terrain() == old(self).terrain(),
            final(self).creature_minimum() == old(self).creature_minimum(),
            final(self).year() == old(self).year(),
            final(self).selected() == old(self).selected(),
            final(self).creatures().len() == old(self).refilled_size(),
            final(self).creatures() == old(self).creatures() + spawned@,
            final(self).creature_id_up_to() == old(self).creature_id_up_to() + spawned@.len(),
            forall|k: int|
                0 <= k < spawned@.len() ==> {
                    &&& (#[trigger] spawned@[k]).id == old(self).creature_id_up_to() + k
                    &&& spawned@[k].birth_time == old(self).year()
                    &&& on_board(spawned@[k].position, old(self).board_size())
                    &&& spawned@[k].previous_cell == Some(spawned@[k].position)
                },
    {
        let spawned = self.refill();
        self.phase = Phase::Moving;
        spawned
    }

    /// The first step of a tick: the clock moves on by `time_step`. The
    /// board is told by how much the temperature has changed on the way into
    /// the new moment and by how much it will change on the way out of it,
    /// and says whether the trend has turned in between, one change being a
    /// rise and the other a fall. With a turn, every tile is to be brought
    /// up to date before the creatures sense and act.
    pub fn update(
        &mut self,
        time_step: u64,
        temp_change_into_frame: i64,
        temp_change_out_of_frame: i64,
    ) -> (refresh: bool)
        requires
            old(self).wf(),
            old(self).phase() == Phase::Idle,
            old(self).year() + time_step <= u64::MAX,
        ensures
            refresh == (temp_change_into_frame * temp_change_out_of_frame < 0),
            final(self).wf(),
            final(self).phase() == Phase::Acting,
            final(self).year() == old(self).year() + time_step,
            final(self).board_size() == old(self).board_size(),
            final(self).terrain() == old(self).terrain(),
            final(self).creature_minimum() == old(self).creature_minimum(),
            final(self).creature_id_up_to() == old(self).creature_id_up_to(),
            final(self).creatures() == old(self).creatures(),
            final(self).index() == old(self).index(),
            final(self).selected() == old(self).selected(),
    {
        self.year += time_step;
        self.phase = Phase::Acting;
        assert((temp_change_into_frame * temp_change_out_of_frame < 0) == ((temp_change_into_frame
            < 0 && temp_change_out_of_frame > 0) || (temp_change_into_frame > 0
            && temp_change_out_of_frame < 0))) by (nonlinear_arith);
        (temp_change_into_frame < 0 && temp_change_out_of_frame > 0) || (temp_change_into_frame > 0
            && temp_change_out_of_frame < 0)
    }

    /// The tiles of the board.
    pub fn get_terrain(&self) -> (terrain: &Terrain)
        ensures
            terrain@ == self.terrain(),
            self.terrain_wf() ==> terrain.wf() && terrain.board_size() == self.board_size(),
    {
        &self.terrain
    }

    /// Whether two boards differ in nothing but their terrain.
    pub open spec fn same_life(&self, other: &Board) -> bool {
        &&& self.board_size() == other.board_size()
        &&& self.creature_minimum() == other.creature_minimum()
        &&& self.creature_id_up_to() == other.creature_id_up_to()
        &&& self.year() == other.year()
        &&& self.phase() == other.phase()
        &&& self.selected() == other.selected()
        &&& self.creatures() == other.creatures()
        &&& self.index() == other.index()
    }

    /// Brings the tile at the given cell up to date with the board's clock.
    /// `growth_change` is what the climate has let grow since the tile was
    /// last brought up to date, and `factor` is what this leaves of the
    /// food, where it is decay, or of the distance to the full level, where
    /// it is growth.
    pub fn update_tile_at(&mut self, coordinate: BoardCoordinate, growth_change: i64, factor: i64)
        requires
            old(self).wf(),
            on_board(coordinate, old(self).board_size()),
            0 <= factor <= QUANTITY_UNIT,
        ensures
            final(self).wf(),
            final(self).same_life(old(self)),
            final(self).terrain() == old(self).terrain().insert(
                coordinate,
                old(self).terrain()[coordinate].updated(old(self).year(), growth_change, factor),
            ),
    {
        self.terrain.update_at(coordinate, self.year, growth_change, factor);
    }

    /// The second step of a tick, after the creatures have sensed and made
    /// up their minds: they act on the ground that they share. Each
    /// creature, in the order of the population, eats from the tile on which
    /// it stands: as much as its appetite asks for, but no more than is
    /// left. What each has eaten is handed back.
    pub fn update_creatures(&mut self, appetites: &Vec<i64>) -> (meals: Vec<i64>)
        requires
            old(self).wf(),
            old(self).phase() == Phase::Acting,
            appetites.len() == old(self).creatures().len(),
        ensures
            final(self).wf(),
            final(self).phase() == Phase::Culling,
            final(self).board_size() == old(self).board_size(),
            final(self).creature_minimum() == old(self).creature_minimum(),
            final(self).creature_id_up_to() == old(self).creature_id_up_to(),
            final(self).year() == old(self).year(),
            final(self).selected() == old(self).selected(),
            final(self).creatures() == old(self).creatures(),
            final(self).index() == old(self).index(),
            final(self).terrain() == grazed(
                old(self).terrain(),
                old(self).creatures(),
                appetites@,
                appetites@.len() as int,
            ),
            meals@.len() == appetites@.len(),
            forall|i: int|
                0 <= i < meals@.len() ==> #[trigger] meals@[i] == meal_of(
                    grazed(
                        old(self).terrain(),
                        old(self).creatures(),
                        appetites@,
                        i,
                    )[old(self).creatures()[i].position],
                    appetites@[i],
                ),
    {
        let count = self.creatures.len();
        let mut meals: Vec<i64> = Vec::with_capacity(count);
        for i in 0..count
            invariant
                count == appetites.len(),
                count == old(self).creatures().len(),
                self.wf(),
                self.same_life(old(self)),
                self.terrain() == grazed(
                    old(self).terrain(),
                    old(self).creatures(),
                    appetites@,
                    i as int,
                ),
                meals@.len() == i,
                forall|k: int|
                    0 <= k < i ==> #[trigger] meals@[k] == meal_of(
                        grazed(
                            old(self).terrain(),
                            old(self).creatures(),
                            appetites@,
                            k,
                        )[old(self).creatures()[k].position],
                        appetites@[k],
                    ),
        {
            let cell = self.creatures[i].position;
            assert(self.at_home(self.creatures()[i as int]));
            let left = self.terrain.get_tile_at(cell).get_food_level();
            let appetite = appetites[i];
            let meal = if appetite <= 0 {
                0
            } else if appetite > left {
                if left < 0 {
                    0
                } else {
                    left
                }
            } else {
                appetite
            };
            self.terrain.remove_food_at(cell, meal);
            meals.push(meal);
        }
        self.phase = Phase::Culling;
        meals
    }

    /// The third step of a tick. Removes the creatures that `dead` marks:
    /// each of them returns its `biomass` as food to the tile on which it
    /// stands and leaves the population and the index, and the selection is
    /// cleared if it names one of them. The survivors keep their order. The
    /// removed creatures are handed back.
    pub fn remove_dead_creatures(&mut self, dead: &Vec<bool>, biomass: &Vec<i64>) -> (removed: Vec<
        SoftBody,
    >)
        requires
            old(self).wf(),
            old(self).phase() == Phase::Culling,
            dead.len() == old(self).creatures().len(),
            biomass.len() == old(self).creatures().len(),
        ensures
            final(self).terrain() == buried(
                old(self).terrain(),
                old(self).creatures(),
                dead@,
                biomass@,
            ),
            final(self).wf(),
            final(self).phase() == Phase::Reproducing,
            final(self).board_size() == old(self).board_size(),
            final(self).creature_minimum() == old(self).creature_minimum(),
            final(self).creature_id_up_to() == old(self).creature_id_up_to(),
            final(self).year() == old(self).year(),
            final(self).creatures() == chosen(old(self).creatures(), dead@, false),
            removed@ == chosen(old(self).creatures(), dead@, true),
            final(self).selected() == match old(self).selected() {
                Some(id) if !among(removed@, id) => Some(id),
                _ => None,
            },
    {
        let count = self.creatures.len();
        let mut kept: Vec<SoftBody> = Vec::with_capacity(count);
        let mut removed: Vec<SoftBody> = Vec::new();
        let ghost before = old(self).creatures();

        let mut j: usize = 0;
        assert(kept@ + before.subrange(0, count as int) =~= before);
        while j < count
            invariant
                j <= count,
                count == before.len(),
                dead.len() == count,
                biomass.len() == count,
                self.terrain_wf(),
                self.terrain() == buried(
                    old(self).terrain(),
                    before.subrange(0, j as int),
                    dead@.subrange(0, j as int),
                    biomass@.subrange(0, j as int),
                ),
                before == old(self).creatures(),
                self.creatures() == before,
                self.index_wf(),
                self.board_size() == old(self).board_size(),
                self.creature_minimum() == old(self).creature_minimum(),
                self.creature_id_up_to() == old(self).creature_id_up_to(),
                self.year() == old(self).year(),
                self.phase() == old(self).phase(),
                forall|i: int| 0 <= i < count ==> self.at_home(#[trigger] before[i]),
                kept@ == chosen(before.subrange(0, j as int), dead@.subrange(0, j as int), false),
                removed@ == chosen(before.subrange(0, j as int), dead@.subrange(0, j as int), true),
                kept@.len() <= j,
                forall|i: int| 0 <= i < kept@.len() ==> self.at_home(#[trigger] kept@[i]),
                distinct_ids(kept@ + before.subrange(j as int, count as int)),
                index_matches(
                    self.index(),
                    kept@ + before.subrange(j as int, count as int),
                    self.board_size(),
                ),
                self.selected() == match old(self).selected() {
                    Some(id) if !among(removed@, id) => Some(id),
                    _ => None,
                },
            decreases count - j,
        {
            let creature = self.creatures[j];
            let ghost current = kept@ + before.subrange(j as int, count as int);
            proof {
                lemma_chosen_step(before, dead@, false, j as int);
                lemma_chosen_step(before, dead@, true, j as int);
                lemma_buried_step(old(self).terrain(), before, dead@, biomass@, j as int);
            }
            let ghost index_before = self.index();
            if dead[j] {
                self.terrain.add_food_or_nothing_at(creature.position, biomass[j]);
                self.soft_bodies_in_positions.remove_soft_body_at(
                    creature.position.0,
                    creature.position.1,
                    creature.id,
                );
                self.selected_creature.unselect_if_dead(creature.id);
                let ghost removed_before = removed@;
                removed.push(creature);
                proof {
                    lemma_leave(index_before, current, self.board_size(), kept@.len() as int);
                    assert(current.remove(kept@.len() as int) =~= kept@ + before.subrange(
                        j + 1,
                        count as int,
                    ));
                    assert(among(removed@, creature.id)) by {
                        assert(removed@[removed_before.len() as int].id == creature.id);
                    }
                    assert forall|id: usize| id != creature.id implies (among(removed@, id)
                        <==> among(removed_before, id)) by {
                        if among(removed@, id) {
                            let i = choose|i: int|
                                0 <= i < removed@.len() && (#[trigger] removed@[i]).id == id;
                            assert(removed_before[i].id == id);
                        }
                        if among(removed_before, id) {
                            let i = choose|i: int|
                                0 <= i < removed_before.len() && (#[trigger] removed_before[i]).id
                                    == id;
                            assert(removed@[i].id == id);
                        }
                    }
                }
            } else {
                kept.push(creature);
                proof {
                    assert(current =~= kept@ + before.subrange(j + 1, count as int));
                }
            }
            j += 1;
        }
        proof {
            assert(dead@.subrange(0, count as int) =~= dead@);
            assert(biomass@.subrange(0, count as int) =~= biomass@);
        }
        self.creatures = kept;
        self.phase = Phase::Reproducing;
        removed
    }

    /// The fourth step of a tick. Every creature that `eligible` marks and
    /// that has a mate bears a child. The couples are found among those who
    /// were there before the first child of the round is born. A child is
    /// born at the present time on the cell of its parent, takes the next
    /// id, in the order of the parents, is recorded in the index and joins
    /// the population behind all who were there. The births are handed
    /// back, so that the caller can give each child a body and the genome
    /// of its parents.
    pub fn creatures_reproduce(&mut self, eligible: &Vec<bool>) -> (born: Vec<Birth>)
        requires
            old(self).wf(),
            old(self).phase() == Phase::Reproducing,
            eligible.len() == old(self).creatures().len(),
            old(self).creature_id_up_to() + eligible.len() <= usize::MAX,
        ensures
            final(self).wf(),
            final(self).phase() == Phase::Refilling,
            final(self).board_size() == old(self).board_size(),
            final(self).terrain() == old(self).terrain(),
            final(self).creature_minimum() == old(self).creature_minimum(),
            final(self).year() == old(self).year(),
            final(self).selected() == old(self).selected(),
            born@ == births(
                old(self).creatures(),
                eligible@,
                old(self).creature_id_up_to() as int,
                old(self).year(),
                old(self).creatures().len() as int,
            ),
            final(self).creatures() == old(self).creatures() + babies(born@),
            final(self).creature_id_up_to() == old(self).creature_id_up_to() + born@.len(),
    {
        let count = self.creatures.len();
        let ghost parents = old(self).creatures();
        let ghost first_id = old(self).creature_id_up_to() as int;

        let mut mates: Vec<Option<usize>> = Vec::with_capacity(count);
        for i in 0..count
            invariant
                self.wf(),
                self.creatures() == parents,
                count == parents.len(),
                eligible.len() == count,
                mates.len() == i,
                forall|k: int|
                    0 <= k < i ==> match #[trigger] mates@[k] {
                        Some(mate) => eligible@[k] && mate < count && mate_of(parents, k, eligible@)
                            == Some(mate as int),
                        None => !eligible@[k] || mate_of(parents, k, eligible@).is_none(),
                    },
        {
            let mate = if eligible[i] {
                self.find_mate(i, eligible)
            } else {
                None
            };
            mates.push(mate);
        }

        let mut born: Vec<Birth> = Vec::new();
        for j in 0..count
            invariant
                count == parents.len(),
                eligible.len() == count,
                mates.len() == count,
                parents == old(self).creatures(),
                first_id == old(self).creature_id_up_to(),
                first_id + count <= usize::MAX,
                forall|k: int|
                    0 <= k < count ==> match #[trigger] mates@[k] {
                        Some(mate) => eligible@[k] && mate < count && mate_of(parents, k, eligible@)
                            == Some(mate as int),
                        None => !eligible@[k] || mate_of(parents, k, eligible@).is_none(),
                    },
                forall|k: int| 0 <= k < count ==> old(self).at_home(#[trigger] parents[k]),
                self.wf(),
                self.same_frame(old(self)),
                born@ == births(parents, eligible@, first_id, old(self).year(), j as int),
                born@.len() <= j,
                self.creatures() == parents + babies(born@),
                self.creature_id_up_to() == first_id + born@.len(),
        {
            let ghost before = born@;
            if let Some(mate) = mates[j] {
                let parent = self.creatures[j];
                let partner = self.creatures[mate];
                assert(parent == parents[j as int] && partner == parents[mate as int]);
                let baby = self.spawn_at(parent.position);
                born.push(Birth { baby, parent: parent.id, mate: partner.id });
                assert(babies(born@) =~= babies(before).push(baby));
                assert(self.creatures() =~= parents + babies(born@));
            }
            assert(born@ == births(parents, eligible@, first_id, old(self).year(), j + 1));
        }
        self.phase = Phase::Refilling;
        born
    }

    /// The creature as it is after it has moved onto `target` and the index
    /// has been brought up to date.
    pub open spec fn moved(creature: SoftBody, target: BoardCoordinate) -> SoftBody {
        SoftBody { position: target, previous_cell: Some(target), ..creature }
    }

    /// The last step of a tick. Moves every creature onto the cell that
    /// `targets` names for it and brings the index up to date, creature by
    /// creature. The board then rests until the next tick.
    pub fn move_creatures(&mut self, targets: &Vec<BoardCoordinate>)
        requires
            old(self).wf(),
            old(self).phase() == Phase::Moving,
            targets.len() == old(self).creatures().len(),
            forall|i: int|
                0 <= i < targets.len() ==> on_board(#[trigger] targets@[i], old(self).board_size()),
        ensures
            final(self).wf(),
            final(self).phase() == Phase::Idle,
            final(self).board_size() == old(self).board_size(),
            final(self).terrain() == old(self).terrain(),
            final(self).creature_minimum() == old(self).creature_minimum(),
            final(self).creature_id_up_to() == old(self).creature_id_up_to(),
            final(self).year() == old(self).year(),
            final(self).selected() == old(self).selected(),
            final(self).creatures().len() == old(self).creatures().len(),
            forall|i: int|
                0 <= i < targets.len() ==> #[trigger] final(self).creatures()[i] == Self::moved(
                    old(self).creatures()[i],
                    targets@[i],
                ),
    {
        let board_size = (self.board_width, self.board_height);
        let count = self.creatures.len();

        for i in 0..count
            invariant
                count == targets.len(),
                board_size == self.board_size(),
                forall|k: int|
                    0 <= k < targets.len() ==> on_board(#[trigger] targets@[k], board_size),
                self.wf(),
                self.same_frame(old(self)),
                self.creature_id_up_to() == old(self).creature_id_up_to(),
                self.creatures().len() == count,
                old(self).creatures().len() == count,
                forall|k: int|
                    0 <= k < i ==> #[trigger] self.creatures()[k] == Self::moved(
                        old(self).creatures()[k],
                        targets@[k],
                    ),
                forall|k: int|
                    i <= k < count ==> #[trigger] self.creatures()[k] == old(self).creatures()[k],
        {
            let ghost index_before = self.index();
            let ghost creatures_before = self.creatures();
            let mut creature = self.creatures[i];
            proof {
                self.soft_bodies_in_positions.lemma_cells();
            }
            creature.position = targets[i];
            creature.set_sbip(&mut self.soft_bodies_in_positions, board_size);
            self.creatures[i] = creature;
            proof {
                lemma_step(index_before, creatures_before, board_size, i as int, targets@[i as int]);
                assert forall|k: int| 0 <= k < self.creatures().len() implies self.at_home(
                    #[trigger] self.creatures()[k],
                ) by {
                    if k != i {
                        assert(self.creatures()[k] == creatures_before[k]);
                    }
                }
            }
        }
        self.phase = Phase::Idle;
    }

    /// Whether the creature at `place` was born before all creatures that
    /// stand before it in the population, and after none of the others.
    pub open spec fn is_oldest(creatures: Seq<SoftBody>, place: int) -> bool {
        &&& 0 <= place < creatures.len()
        &&& forall|j: int|
            0 <= j < creatures.len() ==> creatures[place].birth_time <= (
            #[trigger] creatures[j]).birth_time
        &&& forall|j: int|
            0 <= j < place ==> creatures[place].birth_time < (#[trigger] creatures[j]).birth_time
    }

    /// Whether the energy at `place` is above all energies that stand before
    /// it, and below none of the others.
    pub open spec fn is_biggest(energies: Seq<u64>, place: int) -> bool {
        &&& 0 <= place < energies.len()
        &&& forall|j: int| 0 <= j < energies.len() ==> (#[trigger] energies[j]) <= energies[place]
        &&& forall|j: int| 0 <= j < place ==> (#[trigger] energies[j]) < energies[place]
    }

    /// Selects the oldest creature still alive: the one with the earliest
    /// birth, and of several such the one that joined the population first.
    /// An empty population leaves the selection as it is.
    pub fn select_oldest(&mut self)
        requires
            old(self).wf(),
        ensures
            final(self).wf(),
            final(self).same_frame_but_selection(old(self)),
            final(self).creatures() == old(self).creatures(),
            final(self).index() == old(self).index(),
            final(self).creature_id_up_to() == old(self).creature_id_up_to(),
            old(self).creatures().len() == 0 ==> final(self).selected() == old(self).selected(),
            old(self).creatures().len() > 0 ==> exists|place: int|
                Self::is_oldest(old(self).creatures(), place) && final(self).selected() == Some(
                    #[trigger] old(self).creatures()[place].id,
                ),
    {
        if self.creatures.len() == 0 {
            return;
        }
        let mut oldest: usize = 0;
        for i in 1..self.creatures.len()
            invariant
                self.creatures() == old(self).creatures(),
                self.creatures().len() > 0,
                Self::is_oldest(self.creatures().subrange(0, i as int), oldest as int),
        {
            let ghost seen = self.creatures().subrange(0, i as int);
            let ghost more = self.creatures().subrange(0, i + 1);
            assert forall|j: int| 0 <= j < i implies #[trigger] more[j] == seen[j] by {}
            if self.creatures[i].birth_time < self.creatures[oldest].birth_time {
                oldest = i;
            }
            assert(Self::is_oldest(more, oldest as int)) by {
                assert forall|j: int| 0 <= j < more.len() implies more[oldest as int].birth_time
                    <= (#[trigger] more[j]).birth_time by {
                    if j < i {
                        assert(seen[j] == more[j]);
                    }
                }
                assert forall|j: int| 0 <= j < oldest implies more[oldest as int].birth_time < (
                #[trigger] more[j]).birth_time by {
                    assert(seen[j] == more[j]);
                }
            }
        }
        assert(self.creatures().subrange(0, self.creatures().len() as int) =~= self.creatures());
        let id = self.creatures[oldest].id;
        self.selected_creature.select(id);
    }

    /// Selects the biggest creature: the one with the most energy, and of
    /// several such the one that joined the population first. `energies`
    /// holds the energy of each creature, in the order of the population.
    /// An empty population leaves the selection as it is.
    pub fn select_biggest(&mut self, energies: &Vec<u64>)
        requires
            old(self).wf(),
            energies.len() == old(self).creatures().len(),
        ensures
            final(self).wf(),
            final(self).same_frame_but_selection(old(self)),
            final(self).creatures() == old(self).creatures(),
            final(self).index() == old(self).index(),
            final(self).creature_id_up_to() == old(self).creature_id_up_to(),
            old(self).creatures().len() == 0 ==> final(self).selected() == old(self).selected(),
            old(self).creatures().len() > 0 ==> exists|place: int|
                Self::is_biggest(energies@, place) && final(self).selected() == Some(
                    #[trigger] old(self).creatures()[place].id,
                ),
    {
        if self.creatures.len() == 0 {
            return;
        }
        let mut biggest: usize = 0;
        for i in 1..energies.len()
            invariant
                self.creatures() == old(self).creatures(),
                energies.len() == self.creatures().len(),
                energies.len() > 0,
                Self::is_biggest(energies@.subrange(0, i as int), biggest as int),
        {
            let ghost seen = energies@.subrange(0, i as int);
            let ghost more = energies@.subrange(0, i + 1);
            assert forall|j: int| 0 <= j < i implies #[trigger] more[j] == seen[j] by {}
            if energies[i] > energies[biggest] {
                biggest = i;
            }
            assert(Self::is_biggest(more, biggest as int)) by {
                assert forall|j: int| 0 <= j < more.len() implies (#[trigger] more[j])
                    <= more[biggest as int] by {
                    if j < i {
                        assert(seen[j] == more[j]);
                    }
                }
                assert forall|j: int| 0 <= j < biggest implies (#[trigger] more[j])
                    < more[biggest as int] by {
                    assert(seen[j] == more[j]);
                }
            }
        }
        assert(energies@.subrange(0, energies@.len() as int) =~= energies@);
        let id = self.creatures[biggest].id;
        self.selected_creature.select(id);
    }

    /// Whether two boards differ in nothing but their population, their
    /// index, their id counter and their selection.
    pub open spec fn same_frame_but_selection(&self, other: &Board) -> bool {
        &&& self.board_size() == other.board_size()
        &&& self.terrain() == other.terrain()
        &&& self.creature_minimum() == other.creature_minimum()
        &&& self.year() == other.year()
        &&& self.phase() == other.phase()
    }

    /// Returns the current time.
    pub fn get_time(&self) -> (time: u64)
        ensures
            time == self.year(),
    {
        self.year
    }

    /// Returns a tuple with the width and height of this board.
    pub fn get_board_size(&self) -> (board_size: BoardSize)
        ensures
            board_size == self.board_size(),
    {
        (self.board_width, self.board_height)
    }

    /// Returns the width of the board.
    pub fn get_board_width(&self) -> (width: usize)
        ensures
            width == self.board_size().0,
    {
        self.board_width
    }

    /// Returns the height of the board.
    pub fn get_board_height(&self) -> (height: usize)
        ensures
            height == self.board_size().1,
    {
        self.board_height
    }

    /// Returns the minimum amount of creatures that should be on the board.
    pub fn get_creature_minimum(&self) -> (minimum: usize)
        ensures
            minimum == self.creature_minimum(),
    {
        self.creature_minimum
    }

    /// Returns the id that the next new creature gets.
    pub fn get_creature_id_up_to(&self) -> (id: usize)
        ensures
            id == self.creature_id_up_to(),
    {
        self.creature_id_up_to
    }

    /// Gets the size of the current population: how many creatures are
    /// alive.
    pub fn get_population_size(&self) -> (size: usize)
        ensures
            size == self.creatures().len(),
    {
        self.creatures.len()
    }

    /// The step of a tick that the board awaits.
    pub fn get_phase(&self) -> (phase: Phase)
        ensures
            phase == self.phase(),
    {
        self.phase
    }

    /// The population, in the order in which the creatures joined it.
    pub fn get_creatures(&self) -> (creatures: &Vec<SoftBody>)
        ensures
            creatures@ == self.creatures(),
    {
        &self.creatures
    }

    /// The spatial index of the board.
    pub fn get_soft_bodies_in_positions(&self) -> (index: &SoftBodiesInPositions)
        ensures
            *index == self.soft_bodies_in_positions(),
            index@ == self.index(),
            self.index_wf() ==> index.wf() && index.board_size() == self.board_size(),
    {
        &self.soft_bodies_in_positions
    }

    /// Returns the name of the current season.
    pub fn get_season(&self) -> (season: String)
        ensures
            season@ == season_name(quarter_of(self.year())),
    {
        let quarter = (self.year % TIME_UNITS_PER_YEAR) * 4 / TIME_UNITS_PER_YEAR;
        if quarter == 0 {
            "Winter".to_owned()
        } else if quarter == 1 {
            "Spring".to_owned()
        } else if quarter == 2 {
            "Summer".to_owned()
        } else {
            "Autumn".to_owned()
        }
    }

    /// Finds the mate of the creature at `place` among the creatures that
    /// `eligible` marks: the nearest of those that the index holds on the
    /// creature's cell or next to it, and of several the one with the
    /// lowest id. Hands back its place in the population, or nothing where
    /// no eligible creature is near.
    pub fn find_mate(&self, place: usize, eligible: &Vec<bool>) -> (mate: Option<usize>)
        requires
            self.wf(),
            place < self.creatures().len(),
            eligible.len() == self.creatures().len(),
        ensures
            match mate {
                Some(mate) => is_mate(self.creatures(), place as int, mate as int, eligible@),
                None => forall|other: int|
                    !is_candidate(self.creatures(), place as int, other, eligible@),
            },
            mate_of(self.creatures(), place as int, eligible@) == match mate {
                Some(mate) => Some(mate as int),
                None => None,
            },
    {
        let home = self.creatures[place].position;
        let mut mate: Option<usize> = None;
        for i in 0..self.creatures.len()
            invariant
                self.wf(),
                place < self.creatures().len(),
                eligible.len() == self.creatures().len(),
                home == self.creatures()[place as int].position,
                match mate {
                    Some(mate) => {
                        &&& mate < i
                        &&& is_candidate(self.creatures(), place as int, mate as int, eligible@)
                        &&& forall|other: int|
                            0 <= other < i && is_candidate(self.creatures(), place as int, other, eligible@)
                                ==> preferred(self.creatures(), place as int, mate as int, other)
                    },
                    None => forall|other: int|
                        0 <= other < i ==> !is_candidate(self.creatures(), place as int, other, eligible@),
                },
        {
            let other = self.creatures[i];
            let near = other.position.0 <= home.0 + 1 && home.0 <= other.position.0 + 1
                && other.position.1 <= home.1 + 1 && home.1 <= other.position.1 + 1;
            proof {
                assert(self.at_home(self.creatures()[place as int]));
            }
            if i != place && eligible[i] && near {
                let better = match mate {
                    None => true,
                    Some(best) => {
                        let so_far = self.creatures[best];
                        let best_home = so_far.position.0 == home.0 && so_far.position.1 == home.1;
                        let other_home = other.position.0 == home.0 && other.position.1 == home.1;
                        if best_home == other_home {
                            other.id < so_far.id
                        } else {
                            other_home
                        }
                    },
                };
                let ghost best_before = mate;
                if better {
                    mate = Some(i);
                }
                proof {
                    assert((other.position == home) == (other.position.0 == home.0
                        && other.position.1 == home.1));
                    let chosen = mate.unwrap() as int;
                    assert forall|k: int|
                        0 <= k < i + 1 && is_candidate(
                            self.creatures(),
                            place as int,
                            k,
                            eligible@,
                        ) implies preferred(self.creatures(), place as int, chosen, k) by {
                        if k < i {
                            let best = best_before.unwrap() as int;
                            assert(preferred(self.creatures(), place as int, best, k));
                        }
                    }
                }
            }
        }
        proof {
            match mate {
                Some(found) => {
                    assert(is_mate(self.creatures(), place as int, found as int, eligible@));
                    let chosen = choose|m: int|
                        is_mate(self.creatures(), place as int, m, eligible@);
                    lemma_mate_is_unique(
                        self.creatures(),
                        place as int,
                        found as int,
                        chosen,
                        eligible@,
                    );
                },
                None => {},
            }
        }
        mate
    }

    /// Whether a population can be set on a board with the given size,
    /// counter and clock.
    pub open spec fn restorable(
        creatures: Seq<SoftBody>,
        board_size: BoardSize,
        creature_id_up_to: usize,
        year: u64,
    ) -> bool {
        &&& distinct_ids(creatures)
        &&& forall|i: int|
            0 <= i < creatures.len() ==> {
                &&& on_board((#[trigger] creatures[i]).position, board_size)
                &&& creatures[i].id < creature_id_up_to
                &&& creatures[i].birth_time <= year
            }
    }

    /// Sets up a board from the parts of an earlier one, with the index
    /// built anew from where the creatures stand. Nothing is handed back
    /// where the parts do not fit together: where the terrain is of another
    /// size than the board, or a creature stands off the board, was born
    /// after `year`, or carries an id that another creature carries or that
    /// is not below `creature_id_up_to`.
    pub fn new(
        board_width: usize,
        board_height: usize,
        terrain: Terrain,
        creature_minimum: usize,
        creatures: Vec<SoftBody>,
        creature_id_up_to: usize,
        year: u64,
        selected_creature: SelectedCreature,
    ) -> (restored: Option<Board>)
        requires
            terrain.wf(),
        ensures
            restored.is_some() == (terrain.board_size() == (board_width, board_height)
                && Self::restorable(
                creatures@,
                (board_width, board_height),
                creature_id_up_to,
                year,
            )),
            restored matches Some(board) ==> {
                &&& board.wf()
                &&& board.board_size() == (board_width, board_height)
                &&& board.terrain() == terrain@
                &&& board.creature_minimum() == creature_minimum
                &&& board.creature_id_up_to() == creature_id_up_to
                &&& board.year() == year
                &&& board.phase() == Phase::Idle
                &&& board.selected() == selected_creature.0
                &&& board.creatures().len() == creatures@.len()
                &&& forall|i: int|
                    0 <= i < creatures@.len() ==> #[trigger] board.creatures()[i]
                        == creatures@[i].settled()
            },
    {
        let board_size = (board_width, board_height);
        let covered = terrain.get_board_size();
        if covered.0 != board_width || covered.1 != board_height {
            return None;
        }
        let mut board = Board {
            board_width,
            board_height,
            terrain,
            creature_minimum,
            soft_bodies_in_positions: SoftBodiesInPositions::new_allocated(board_size),
            creatures: Vec::with_capacity(creatures.len()),
            creature_id_up_to,
            year,
            phase: Phase::Idle,
            selected_creature,
        };
        for i in 0..creatures.len()
            invariant
                board.wf(),
                board_size == (board_width, board_height),
                board.board_size() == board_size,
                board.terrain() == terrain@,
                board.creature_minimum() == creature_minimum,
                board.creature_id_up_to() == creature_id_up_to,
                board.year() == year,
                board.phase() == Phase::Idle,
                board.selected() == selected_creature.0,
                board.creatures().len() == i,
                forall|k: int|
                    0 <= k < i ==> #[trigger] board.creatures()[k] == creatures@[k].settled(),
                Self::restorable(creatures@.subrange(0, i as int), board_size, creature_id_up_to, year),
        {
            let creature = creatures[i];
            let ghost seen = creatures@.subrange(0, i as int);
            let ghost more = creatures@.subrange(0, i + 1);
            let fits = creature.position.0 < board_width && creature.position.1 < board_height
                && creature.id < creature_id_up_to && creature.birth_time <= year;
            if !fits || board.holds(creature.id) {
                proof {
                    if Self::restorable(creatures@, board_size, creature_id_up_to, year) {
                        if fits {
                            let k = choose|k: int|
                                0 <= k < i && (#[trigger] board.creatures()[k]).id == creature.id;
                            assert(creatures@[k].id == creatures@[i as int].id);
                        }
                    }
                }
                return None;
            }
            let mut entering = SoftBody::new(creature.id, creature.birth_time, creature.position);
            let ghost index_before = board.index();
            let ghost creatures_before = board.creatures();
            entering.set_sbip(&mut board.soft_bodies_in_positions, board_size);
            proof {
                lemma_enter(index_before, creatures_before, board_size, entering);
            }
            board.creatures.push(entering);
            proof {
                assert forall|a: int, b: int| 0 <= a < b < more.len() implies (#[trigger] more[a]).id
                    != (#[trigger] more[b]).id by {
                    if b < i {
                        assert(seen[a] == more[a] && seen[b] == more[b]);
                    } else {
                        assert(board.creatures()[a].id == creatures@[a].id);
                    }
                }
                assert forall|k: int| 0 <= k < more.len() implies on_board(
                    (#[trigger] more[k]).position,
                    board_size,
                ) && more[k].id < creature_id_up_to && more[k].birth_time <= year by {
                    if k < i {
                        assert(seen[k] == more[k]);
                    }
                }
            }
        }
        assert(creatures@.subrange(0, creatures@.len() as int) =~= creatures@);
        Some(board)
    }

    /// Says whether a creature with this id is part of the population.
    pub fn holds(&self, id: usize) -> (found: bool)
        ensures
            found == among(self.creatures(), id),
    {
        let mut found = false;
        for i in 0..self.creatures.len()
            invariant
                found == (exists|k: int| 0 <= k < i && (#[trigger] self.creatures()[k]).id == id),
        {
            if self.creatures[i].id == id {
                found = true;
            }
        }
        found
    }
}

/// Every creature is held by the index under the cell on which it stands,
/// and under no other cell of the board.
pub proof fn lemma_single_membership(board: &Board, place: int, cell: BoardCoordinate)
    requires
        board.wf(),
        0 <= place < board.creatures().len(),
        on_board(cell, board.board_size()),
    ensures
        on_board(board.creatures()[place].position, board.board_size()),
        board.index()[cell].contains(board.creatures()[place].id) <==> cell
            == board.creatures()[place].position,
{
    let creatures = board.creatures();
    let creature = creatures[place];
    if board.index()[cell].contains(creature.id) {
        let other = choose|i: int|
            0 <= i < creatures.len() && (#[trigger] creatures[i]).id == creature.id
                && creatures[i].position == cell;
        assert(other == place);
    }
    if cell == creature.position {
        assert(stands_at(creatures, creature.id, cell));
    }
}

/// What the index finds near a cell are the creatures that stand on that
/// cell or on one that touches it, all of them and no others.
pub proof fn lemma_near_finds_the_neighbours(board: &Board, cell: BoardCoordinate, id: usize)
    requires
        board.wf(),
    ensures
        board.soft_bodies_in_positions().near(cell).contains(id) <==> exists|place: int|
            0 <= place < board.creatures().len() && (#[trigger] board.creatures()[place]).id == id
                && adjacent(cell, board.creatures()[place].position),
{
    let index = board.soft_bodies_in_positions();
    let creatures = board.creatures();
    if index.near(cell).contains(id) {
        let found = choose|found: BoardCoordinate|
            on_board(found, index.board_size()) && adjacent(cell, found) && (
            #[trigger] index@[found]).contains(id);
        let place = choose|place: int|
            0 <= place < creatures.len() && (#[trigger] creatures[place]).id == id
                && creatures[place].position == found;
        assert(adjacent(cell, creatures[place].position));
    }
    if exists|place: int|
        0 <= place < creatures.len() && (#[trigger] creatures[place]).id == id && adjacent(
            cell,
            creatures[place].position,
        ) {
        let place = choose|place: int|
            0 <= place < creatures.len() && (#[trigger] creatures[place]).id == id && adjacent(
                cell,
                creatures[place].position,
            );
        let found = creatures[place].position;
        assert(index@[found].contains(id));
    }
}

/// The index holds no creature that is not part of the population.
pub proof fn lemma_index_holds_population(board: &Board, id: usize, cell: BoardCoordinate)
    requires
        board.wf(),
        on_board(cell, board.board_size()),
        board.index()[cell].contains(id),
    ensures
        stands_at(board.creatures(), id, cell),
{
}

/// The quarter of the year in which a time lies, counted from zero: the
/// whole part of four times the fraction of the year that has passed.
pub open spec fn quarter_of(year: u64) -> int {
    ((year % TIME_UNITS_PER_YEAR) * 4) / (TIME_UNITS_PER_YEAR as int)
}

/// The name of a quarter of the year.
pub open spec fn season_name(quarter: int) -> Seq<char> {
    if quarter == 0 {
        "Winter"@
    } else if quarter == 1 {
        "Spring"@
    } else if quarter == 2 {
        "Summer"@
    } else {
        "Autumn"@
    }
}

/// The season depends on nothing but the part of the year that has passed:
/// two times that lie whole years apart fall into the same quarter, and
/// every quarter is one of the four.
pub proof fn lemma_season_periodic(year: u64, later: u64)
    requires
        later % TIME_UNITS_PER_YEAR == year % TIME_UNITS_PER_YEAR,
    ensures
        quarter_of(later) == quarter_of(year),
        0 <= quarter_of(year) < 4,
{
}

} // verus!
