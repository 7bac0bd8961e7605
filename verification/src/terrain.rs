//! The ground of the board: a grid of tiles.

pub mod tile;

use crate::board::{BoardCoordinate, BoardSize};
use crate::sbip::on_board;
use crate::terrain::tile::{Tile, QUANTITY_UNIT};
use vstd::prelude::*;

verus! {

/// One tile for each cell of a board.
pub struct Terrain {
    width: usize,
    height: usize,
    tiles: Vec<Vec<Tile>>,
}

impl View for Terrain {
    type V = Map<BoardCoordinate, Tile>;

    /// The tile at each cell of the board.
    closed spec fn view(&self) -> Map<BoardCoordinate, Tile> {
        Map::new(
            |cell: BoardCoordinate| cell.0 < self.width && cell.1 < self.height,
            |cell: BoardCoordinate| self.tiles@[cell.0 as int]@[cell.1 as int],
        )
    }
}

/// Whether the columns form a grid of the given size in which no tile holds
/// less than no food.
pub open spec fn is_ground(tiles: Seq<Vec<Tile>>, board_size: BoardSize) -> bool {
    &&& tiles.len() == board_size.0
    &&& forall|x: int| 0 <= x < tiles.len() ==> (#[trigger] tiles[x]).len() == board_size.1
    &&& forall|x: int, y: int|
        0 <= x < tiles.len() && 0 <= y < tiles[x].len() ==> (#[trigger] tiles[x]@[y]).wf()
}

impl Terrain {
    /// The size of the board that the terrain covers.
    pub closed spec fn board_size(&self) -> BoardSize {
        (self.width, self.height)
    }

    /// The terrain has a tile for each cell, and no tile holds less than no
    /// food.
    pub closed spec fn wf(&self) -> bool {
        is_ground(self.tiles@, (self.width, self.height))
    }

    /// The terrain speaks of the cells of its board and of no others, and
    /// each of its tiles is sound.
    pub proof fn lemma_cells(&self)
        ensures
            forall|cell: BoardCoordinate|
                self@.dom().contains(cell) <==> on_board(cell, self.board_size()),
            self.wf() ==> forall|cell: BoardCoordinate|
                on_board(cell, self.board_size()) ==> (#[trigger] self@[cell]).wf(),
    {
        if self.wf() {
            assert forall|cell: BoardCoordinate| on_board(cell, self.board_size()) implies (
            #[trigger] self@[cell]).wf() by {
                assert(self.tiles@[cell.0 as int]@[cell.1 as int].wf());
            }
        }
    }

    /// A terrain of the given columns of tiles, if they form a grid of the
    /// given size in which no tile holds less than no food.
    pub fn new(tiles: Vec<Vec<Tile>>, board_size: BoardSize) -> (terrain: Option<Self>)
        ensures
            terrain.is_some() == is_ground(tiles@, board_size),
            terrain matches Some(terrain) ==> {
                &&& terrain.wf()
                &&& terrain.board_size() == board_size
                &&& forall|cell: BoardCoordinate|
                    on_board(cell, board_size) ==> #[trigger] terrain@[cell]
                        == tiles@[cell.0 as int]@[cell.1 as int]
            },
    {
        if tiles.len() != board_size.0 {
            return None;
        }
        for x in 0..tiles.len()
            invariant
                tiles.len() == board_size.0,
                forall|a: int| 0 <= a < x ==> (#[trigger] tiles@[a]).len() == board_size.1,
                forall|a: int, b: int|
                    0 <= a < x && 0 <= b < tiles@[a].len() ==> (#[trigger] tiles@[a]@[b]).wf(),
        {
            let height = tiles[x].len();
            if height != board_size.1 {
                return None;
            }
            for y in 0..height
                invariant
                    x < tiles.len(),
                    height == tiles@[x as int].len(),
                    forall|b: int| 0 <= b < y ==> (#[trigger] tiles@[x as int]@[b]).wf(),
            {
                if tiles[x][y].get_food_level() < 0 {
                    return None;
                }
            }
        }
        Some(Terrain { width: board_size.0, height: board_size.1, tiles })
    }

    /// The width and height of the board that the terrain covers.
    pub fn get_board_size(&self) -> (board_size: BoardSize)
        ensures
            board_size == self.board_size(),
    {
        (self.width, self.height)
    }

    /// The tile at the given cell.
    pub fn get_tile_at(&self, coordinate: BoardCoordinate) -> (tile: &Tile)
        requires
            self.wf(),
            on_board(coordinate, self.board_size()),
        ensures
            *tile == self@[coordinate],
            tile.wf(),
    {
        &self.tiles[coordinate.0][coordinate.1]
    }

    /// Adds food to the tile at the given cell, as
    /// `Tile::add_food_or_nothing` does.
    pub fn add_food_or_nothing_at(&mut self, coordinate: BoardCoordinate, food_to_add: i64)
        requires
            old(self).wf(),
            on_board(coordinate, old(self).board_size()),
        ensures
            final(self).wf(),
            final(self).board_size() == old(self).board_size(),
            final(self)@ == old(self)@.insert(
                coordinate,
                old(self)@[coordinate].fed(food_to_add as int),
            ),
    {
        self.tiles[coordinate.0][coordinate.1].add_food_or_nothing(food_to_add);
        assert(self@ =~= old(self)@.insert(
            coordinate,
            old(self)@[coordinate].fed(food_to_add as int),
        ));
    }

    /// Takes food from the tile at the given cell, as `Tile::remove_food`
    /// does. Water has no food, and none may be taken from it.
    pub fn remove_food_at(&mut self, coordinate: BoardCoordinate, food_to_remove: i64)
        requires
            old(self).wf(),
            on_board(coordinate, old(self).board_size()),
            old(self)@[coordinate] is Water ==> food_to_remove <= 0,
        ensures
            final(self).wf(),
            final(self).board_size() == old(self).board_size(),
            final(self)@ == old(self)@.insert(
                coordinate,
                old(self)@[coordinate].fed(-(food_to_remove as int)),
            ),
    {
        self.tiles[coordinate.0][coordinate.1].remove_food(food_to_remove);
        assert(self@ =~= old(self)@.insert(
            coordinate,
            old(self)@[coordinate].fed(-(food_to_remove as int)),
        ));
    }

    /// Brings the tile at the given cell up to date, as `Tile::update`
    /// does.
    pub fn update_at(
        &mut self,
        coordinate: BoardCoordinate,
        time: u64,
        growth_change: i64,
        factor: i64,
    )
        requires
            old(self).wf(),
            on_board(coordinate, old(self).board_size()),
            0 <= factor <= QUANTITY_UNIT,
        ensures
            final(self).wf(),
            final(self).board_size() == old(self).board_size(),
            final(self)@ == old(self)@.insert(
                coordinate,
                old(self)@[coordinate].updated(time, growth_change, factor),
            ),
    {
        self.tiles[coordinate.0][coordinate.1].update(time, growth_change, factor);
        assert(self@ =~= old(self)@.insert(
            coordinate,
            old(self)@[coordinate].updated(time, growth_change, factor),
        ));
    }
}

} // verus!
