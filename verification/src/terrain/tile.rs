//! A tile of the terrain: water, or land on which food grows.

use vstd::prelude::*;

verus! {

/// The fixed-point representation of the quantity one. Fertility, food and
/// hue are counted in millionths.
pub const QUANTITY_UNIT: i64 = 1_000_000;

/// The food level that growth approaches and does not pass.
pub const MAX_GROWTH_LEVEL: i64 = 3_000_000;

/// How far the hue of a creature's mouth may lie from the hue of the food
/// before the food does it harm.
pub const FOOD_SENSITIVITY: i64 = 300_000;

/// The shortest time, in units of the clock, after which a tile is brought
/// up to date again.
pub const UPDATE_THRESHOLD: u64 = 10;

/// A food level after `change` has been added to it: never below zero, and
/// held within the range of the numbers.
pub open spec fn changed_food_level(food_level: i64, change: int) -> i64 {
    let sum = food_level + change;
    if sum < 0 {
        0
    } else if sum > i64::MAX {
        i64::MAX
    } else {
        sum as i64
    }
}

/// The part `factor` of `quantity`, both in fixed point, cut off.
pub open spec fn part_of(quantity: i64, factor: i64) -> int {
    (quantity * factor) / (QUANTITY_UNIT as int)
}

/// Computes a part of a quantity.
fn take_part(quantity: i64, factor: i64) -> (part: i64)
    requires
        0 <= quantity,
        0 <= factor <= QUANTITY_UNIT,
    ensures
        part == part_of(quantity, factor),
        0 <= part <= quantity,
{
    assert(0 <= quantity * factor <= quantity * QUANTITY_UNIT) by (nonlinear_arith)
        requires
            0 <= quantity,
            0 <= factor <= QUANTITY_UNIT,
    ;
    assert((quantity * factor) / (QUANTITY_UNIT as int) <= quantity) by (nonlinear_arith)
        requires
            0 <= quantity * factor <= quantity * QUANTITY_UNIT,
            QUANTITY_UNIT == 1_000_000,
    ;
    let product: i128 = (quantity as i128) * (factor as i128);
    (product / (QUANTITY_UNIT as i128)) as i64
}

/// A tile on which food grows.
#[derive(Clone, Copy, Debug)]
pub struct LandTile {
    fertility: i64,
    food_level: i64,
    food_type: i64,
    last_update_time: u64,
}

/// A tile of the terrain.
#[derive(Clone, Copy, Debug)]
pub enum Tile {
    Water,
    Land(LandTile),
}

impl LandTile {
    /// How well food grows on the tile.
    pub closed spec fn fertility(&self) -> i64 {
        self.fertility
    }

    /// How much food lies on the tile.
    pub closed spec fn food_level(&self) -> i64 {
        self.food_level
    }

    /// The hue of the food.
    pub closed spec fn food_type(&self) -> i64 {
        self.food_type
    }

    /// The time at which the tile was last brought up to date.
    pub closed spec fn last_update_time(&self) -> u64 {
        self.last_update_time
    }

    /// The tile holds no less than no food.
    pub open spec fn wf(&self) -> bool {
        self.food_level() >= 0
    }

    /// The tile with its food level changed by `change`.
    pub closed spec fn fed(self, change: int) -> LandTile {
        LandTile { food_level: changed_food_level(self.food_level, change), ..self }
    }

    /// The tile after it has been brought up to date at `time`: as it was
    /// where it is not due, and else with the food grown or decayed and the
    /// time noted.
    pub closed spec fn updated(self, time: u64, growth_change: i64, factor: i64) -> LandTile {
        if self.is_due(time) {
            LandTile {
                food_level: self.grown(growth_change, factor),
                last_update_time: time,
                ..self
            }
        } else {
            self
        }
    }

    /// What `fed` changes and what it leaves.
    pub proof fn lemma_fed(self, change: int)
        ensures
            self.fed(change).food_level() == changed_food_level(self.food_level(), change),
            self.fed(change).food_level() >= 0,
            self.fed(change).same_ground(&self),
    {
    }

    /// What `updated` changes and what it leaves.
    pub proof fn lemma_updated(self, time: u64, growth_change: i64, factor: i64)
        ensures
            self.updated(time, growth_change, factor).fertility() == self.fertility(),
            self.updated(time, growth_change, factor).food_type() == self.food_type(),
            self.is_due(time) ==> self.updated(time, growth_change, factor).last_update_time()
                == time && self.updated(time, growth_change, factor).food_level() == self.grown(
                growth_change,
                factor,
            ),
            !self.is_due(time) ==> self.updated(time, growth_change, factor) == self,
    {
    }

    /// Whether the two tiles differ in nothing but their food level.
    pub open spec fn same_ground(&self, other: &LandTile) -> bool {
        &&& self.fertility() == other.fertility()
        &&& self.food_type() == other.food_type()
        &&& self.last_update_time() == other.last_update_time()
    }

    /// Creates a new tile with the given `fertility` and `food_type`. It
    /// begins with as much food as it is fertile, and was never brought up
    /// to date.
    pub fn new(fertility: i64, food_type: i64) -> (tile: Self)
        ensures
            tile.fertility() == fertility,
            tile.food_level() == fertility,
            tile.food_type() == food_type,
            tile.last_update_time() == 0,
    {
        LandTile { fertility, food_level: fertility, food_type, last_update_time: 0 }
    }

    /// A tile as it was left earlier. A food level below zero gives nothing.
    pub fn restore(fertility: i64, food_level: i64, food_type: i64, last_update_time: u64) -> (tile:
        Option<Self>)
        ensures
            tile.is_some() == (food_level >= 0),
            tile matches Some(tile) ==> {
                &&& tile.fertility() == fertility
                &&& tile.food_level() == food_level
                &&& tile.food_type() == food_type
                &&& tile.last_update_time() == last_update_time
            },
    {
        if food_level >= 0 {
            Some(LandTile { fertility, food_level, food_type, last_update_time })
        } else {
            None
        }
    }

    /// What the food on this tile is worth to a mouth of the given hue: one
    /// where the hues agree, less the further they lie apart, and less than
    /// nothing where they lie further apart than the sensitivity.
    pub open spec fn food_multiplier(&self, hue: i64) -> int {
        let apart = if self.food_type() >= hue {
            self.food_type() - hue
        } else {
            hue - self.food_type()
        };
        QUANTITY_UNIT - (apart * QUANTITY_UNIT) / (FOOD_SENSITIVITY as int)
    }

    /// Computes what the food on this tile is worth to a mouth of the given
    /// hue.
    pub fn get_food_multiplier(&self, hue: i64) -> (multiplier: i128)
        ensures
            multiplier == self.food_multiplier(hue),
    {
        let apart: i128 = if self.food_type >= hue {
            self.food_type as i128 - hue as i128
        } else {
            hue as i128 - self.food_type as i128
        };
        QUANTITY_UNIT as i128 - (apart * QUANTITY_UNIT as i128) / (FOOD_SENSITIVITY as i128)
    }

    /// Changes the food level by `change`, holding it at zero from below.
    fn change_food(&mut self, change: i128)
        requires
            -0x1_0000_0000_0000_0000 <= change <= 0x1_0000_0000_0000_0000,
        ensures
            *final(self) == old(self).fed(change as int),
    {
        let sum: i128 = self.food_level as i128 + change;
        self.food_level = if sum < 0 {
            0
        } else if sum > i64::MAX as i128 {
            i64::MAX
        } else {
            sum as i64
        };
    }

    /// Subtracts the given amount of food from the food level, which does
    /// not get negative, however much is taken.
    pub fn remove_food(&mut self, food_to_remove: i64)
        ensures
            *final(self) == old(self).fed(-(food_to_remove as int)),
            final(self).food_level() == changed_food_level(
                old(self).food_level(),
                -(food_to_remove as int),
            ),
            final(self).food_level() >= 0,
            final(self).same_ground(old(self)),
    {
        self.change_food(-(food_to_remove as i128));
    }

    /// Adds the given amount of food to the food level, which does not get
    /// negative, whatever is added. No ceiling is set but that of the
    /// numbers.
    pub fn add_food(&mut self, food_to_add: i64)
        ensures
            *final(self) == old(self).fed(food_to_add as int),
            final(self).food_level() == changed_food_level(
                old(self).food_level(),
                food_to_add as int,
            ),
            final(self).food_level() >= 0,
            final(self).same_ground(old(self)),
    {
        self.change_food(food_to_add as i128);
    }

    /// Whether the tile is due to be brought up to date at `time`.
    pub open spec fn is_due(&self, time: u64) -> bool {
        time - self.last_update_time() > UPDATE_THRESHOLD
    }

    /// The food level after growth or decay. With `growth_change` at or
    /// below zero the food decays to its part `factor`. With growth, and the
    /// food below the level that growth approaches, the distance to that
    /// level shrinks to its part `factor`. Food at or above that level does
    /// not grow.
    pub open spec fn grown(&self, growth_change: i64, factor: i64) -> i64 {
        if growth_change <= 0 {
            changed_food_level(
                self.food_level(),
                -(self.food_level() - part_of(self.food_level(), factor)),
            )
        } else if self.food_level() < MAX_GROWTH_LEVEL {
            changed_food_level(
                self.food_level(),
                MAX_GROWTH_LEVEL - part_of((MAX_GROWTH_LEVEL - self.food_level()) as i64, factor)
                    - self.food_level(),
            )
        } else {
            self.food_level()
        }
    }

    /// Brings the tile up to date, if it is due. `growth_change` is what the
    /// climate has let grow since the tile was last brought up to date, and
    /// `factor` is what this leaves of the food, where it is decay, or of
    /// the distance to the full level, where it is growth.
    pub fn update(&mut self, time: u64, growth_change: i64, factor: i64)
        requires
            old(self).wf(),
            0 <= factor <= QUANTITY_UNIT,
        ensures
            *final(self) == old(self).updated(time, growth_change, factor),
            final(self).wf(),
            final(self).fertility() == old(self).fertility(),
            final(self).food_type() == old(self).food_type(),
            old(self).is_due(time) ==> final(self).last_update_time() == time
                && final(self).food_level() == old(self).grown(growth_change, factor),
            !old(self).is_due(time) ==> *final(self) == *old(self),
    {
        if time > self.last_update_time && time - self.last_update_time > UPDATE_THRESHOLD {
            if growth_change <= 0 {
                let food_to_remove = self.food_level - take_part(self.food_level, factor);
                self.remove_food(food_to_remove);
            } else if self.food_level < MAX_GROWTH_LEVEL {
                let new_dist_to_max = take_part(MAX_GROWTH_LEVEL - self.food_level, factor);
                let food_to_add = MAX_GROWTH_LEVEL - new_dist_to_max - self.food_level;
                self.add_food(food_to_add);
            }
            self.last_update_time = time;
        }
    }
}

impl Tile {
    /// A tile from what the ground is like at its place: water where the
    /// fertility is above one, and else land, with a fertility of zero at
    /// the least.
    pub fn new(fertility: i64, food_type: i64) -> (tile: Self)
        ensures
            match tile {
                Tile::Water => fertility > QUANTITY_UNIT,
                Tile::Land(land) => {
                    &&& fertility <= QUANTITY_UNIT
                    &&& land.fertility() == if fertility < 0 {
                        0
                    } else {
                        fertility
                    }
                    &&& land.food_level() == land.fertility()
                    &&& land.food_type() == food_type
                    &&& land.last_update_time() == 0
                },
            },
    {
        if fertility > QUANTITY_UNIT {
            Tile::Water
        } else {
            let t = LandTile::new(if fertility < 0 { 0 } else { fertility }, food_type);
            Tile::Land(t)
        }
    }

    /// The tile holds no less than no food.
    pub open spec fn wf(&self) -> bool {
        match self {
            Tile::Water => true,
            Tile::Land(t) => t.wf(),
        }
    }

    /// The food on the tile: none on water.
    pub open spec fn food_level(&self) -> i64 {
        match self {
            Tile::Water => 0,
            Tile::Land(t) => t.food_level(),
        }
    }

    /// The tile with its food level changed by `change`; water as it is.
    pub open spec fn fed(self, change: int) -> Tile {
        match self {
            Tile::Water => Tile::Water,
            Tile::Land(t) => Tile::Land(t.fed(change)),
        }
    }

    /// The tile after it has been brought up to date; water as it is.
    pub open spec fn updated(self, time: u64, growth_change: i64, factor: i64) -> Tile {
        match self {
            Tile::Water => Tile::Water,
            Tile::Land(t) => Tile::Land(t.updated(time, growth_change, factor)),
        }
    }

    /// Says whether the tile is water.
    pub fn is_water(&self) -> (water: bool)
        ensures
            water == (self is Water),
    {
        match self {
            Tile::Water => true,
            Tile::Land(_) => false,
        }
    }

    /// Get the food level of this tile, zero if it is water.
    pub fn get_food_level(&self) -> (food_level: i64)
        ensures
            food_level == self.food_level(),
    {
        match self {
            Tile::Water => 0,
            Tile::Land(t) => t.food_level,
        }
    }

    /// Get the fertility of this tile, zero if it is water.
    pub fn get_fertility(&self) -> (fertility: i64)
        ensures
            fertility == match self {
                Tile::Water => 0,
                Tile::Land(t) => t.fertility(),
            },
    {
        match self {
            Tile::Water => 0,
            Tile::Land(t) => t.fertility,
        }
    }

    /// Get the hue of the food of this tile, zero if it is water.
    pub fn get_food_type(&self) -> (food_type: i64)
        ensures
            food_type == match self {
                Tile::Water => 0,
                Tile::Land(t) => t.food_type(),
            },
    {
        match self {
            Tile::Water => 0,
            Tile::Land(t) => t.food_type,
        }
    }

    /// Get the time at which this tile was last brought up to date, zero if
    /// it is water.
    pub fn get_last_update_time(&self) -> (time: u64)
        ensures
            time == match self {
                Tile::Water => 0,
                Tile::Land(t) => t.last_update_time(),
            },
    {
        match self {
            Tile::Water => 0,
            Tile::Land(t) => t.last_update_time,
        }
    }

    /// Brings this tile up to date, as `LandTile::update` does. Water stays
    /// as it is.
    pub fn update(&mut self, time: u64, growth_change: i64, factor: i64)
        requires
            old(self).wf(),
            0 <= factor <= QUANTITY_UNIT,
        ensures
            *final(self) == old(self).updated(time, growth_change, factor),
            final(self).wf(),
    {
        match self {
            Tile::Water => {},
            Tile::Land(t) => t.update(time, growth_change, factor),
        }
    }

    /// Adds the given value to the food level if it's possible. This does
    /// nothing for water tiles.
    pub fn add_food_or_nothing(&mut self, food_to_add: i64)
        ensures
            *final(self) == old(self).fed(food_to_add as int),
            final(self).food_level() == if *old(self) is Water {
                0
            } else {
                changed_food_level(old(self).food_level(), food_to_add as int)
            },
            final(self).food_level() >= 0,
    {
        match self {
            Tile::Water => {},
            Tile::Land(t) => t.add_food(food_to_add),
        }
    }

    /// Removes the given value from the food level. Water has no food, and
    /// none may be taken from it.
    pub fn remove_food(&mut self, food_to_remove: i64)
        requires
            *old(self) is Water ==> food_to_remove <= 0,
        ensures
            *final(self) == old(self).fed(-(food_to_remove as int)),
            final(self).food_level() == if *old(self) is Water {
                0
            } else {
                changed_food_level(old(self).food_level(), -(food_to_remove as int))
            },
            final(self).food_level() >= 0,
    {
        match self {
            Tile::Water => {},
            Tile::Land(t) => t.remove_food(food_to_remove),
        }
    }

    /// What the food on this tile is worth to a mouth of the given hue;
    /// nothing for water.
    pub fn get_food_multiplier(&self, hue: i64) -> (multiplier: Option<i128>)
        ensures
            match self {
                Tile::Water => multiplier.is_none(),
                Tile::Land(t) => multiplier == Some(t.food_multiplier(hue) as i128),
            },
    {
        match self {
            Tile::Water => None,
            Tile::Land(t) => Some(t.get_food_multiplier(hue)),
        }
    }
}

} // verus!
