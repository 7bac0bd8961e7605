//! The spatial index: for every cell of the board, the creatures that stand
//! on it.

use crate::board::{BoardCoordinate, BoardSize};
use vstd::prelude::*;

verus! {

/// Whether the cell lies on a board of the given size.
pub open spec fn on_board(cell: BoardCoordinate, board_size: BoardSize) -> bool {
    cell.0 < board_size.0 && cell.1 < board_size.1
}

/// Whether two cells are the same or touch, diagonals included.
pub open spec fn adjacent(a: BoardCoordinate, b: BoardCoordinate) -> bool {
    a.0 <= b.0 + 1 && b.0 <= a.0 + 1 && a.1 <= b.1 + 1 && b.1 <= a.1 + 1
}

/// What the index holds after the creature `id`, so far recorded at
/// `previous`, has been recorded at `current`.
pub open spec fn reindexed(
    index: Map<BoardCoordinate, Set<usize>>,
    id: usize,
    previous: Option<BoardCoordinate>,
    current: BoardCoordinate,
) -> Map<BoardCoordinate, Set<usize>> {
    let cleared = match previous {
        Some(cell) if cell != current => index.insert(cell, index[cell].remove(id)),
        _ => index,
    };
    cleared.insert(current, cleared[current].insert(id))
}

/// A grid of buckets, one for each cell, that hold the ids of the creatures
/// on that cell.
pub struct SoftBodiesInPositions {
    width: usize,
    height: usize,
    cells: Vec<Vec<Vec<usize>>>,
}

impl View for SoftBodiesInPositions {
    type V = Map<BoardCoordinate, Set<usize>>;

    /// The set of ids in each cell of the board.
    closed spec fn view(&self) -> Map<BoardCoordinate, Set<usize>> {
        Map::new(
            |cell: BoardCoordinate| cell.0 < self.width && cell.1 < self.height,
            |cell: BoardCoordinate| self.cells@[cell.0 as int]@[cell.1 as int]@.to_set(),
        )
    }
}

/// The place of `id` in the bucket, if it is there.
fn place_in(bucket: &Vec<usize>, id: usize) -> (place: Option<usize>)
    ensures
        match place {
            Some(i) => i < bucket.len() && bucket@[i as int] == id,
            None => !bucket@.contains(id),
        },
{
    let mut i: usize = 0;
    while i < bucket.len()
        invariant
            i <= bucket.len(),
            forall|j: int| 0 <= j < i ==> bucket@[j] != id,
        decreases bucket.len() - i,
    {
        if bucket[i] == id {
            return Some(i);
        }
        i += 1;
    }
    None
}

/// Taking the one occurrence of a value out of a sequence takes it out of
/// the set of its values, and nothing else.
proof fn lemma_remove_from_bucket(bucket: Seq<usize>, i: int)
    requires
        bucket.no_duplicates(),
        0 <= i < bucket.len(),
    ensures
        bucket.remove(i).no_duplicates(),
        bucket.remove(i).to_set() =~= bucket.to_set().remove(bucket[i]),
{
    let rest = bucket.remove(i);
    assert forall|v: usize| rest.to_set().contains(v) <==> bucket.to_set().remove(
        bucket[i],
    ).contains(v) by {
        if rest.contains(v) {
            let j = choose|j: int| 0 <= j < rest.len() && rest[j] == v;
            if j < i {
                assert(bucket[j] == v);
            } else {
                assert(bucket[j + 1] == v);
            }
        }
        if bucket.contains(v) && v != bucket[i] {
            let k = choose|k: int| 0 <= k < bucket.len() && bucket[k] == v;
            if k < i {
                assert(rest[k] == v);
            } else {
                assert(rest[k - 1] == v);
            }
        }
    }
}

/// Appending a new value to a sequence adds it to the set of its values.
proof fn lemma_push_to_bucket(bucket: Seq<usize>, id: usize)
    requires
        bucket.no_duplicates(),
        !bucket.contains(id),
    ensures
        bucket.push(id).no_duplicates(),
        bucket.push(id).to_set() =~= bucket.to_set().insert(id),
{
    let more = bucket.push(id);
    assert forall|v: usize| more.to_set().contains(v) <==> bucket.to_set().insert(id).contains(
        v,
    ) by {
        if more.contains(v) {
            let j = choose|j: int| 0 <= j < more.len() && more[j] == v;
            if j < bucket.len() {
                assert(bucket[j] == v);
            }
        }
        if bucket.contains(v) {
            let k = choose|k: int| 0 <= k < bucket.len() && bucket[k] == v;
            assert(more[k] == v);
        }
        if v == id {
            assert(more[bucket.len() as int] == v);
        }
    }
}

impl SoftBodiesInPositions {
    /// The size of the board that the index covers.
    pub closed spec fn board_size(&self) -> BoardSize {
        (self.width, self.height)
    }

    /// The index has one bucket for each cell, and no bucket holds an id
    /// twice.
    pub closed spec fn wf(&self) -> bool {
        &&& self.cells.len() == self.width
        &&& forall|x: int| 0 <= x < self.width ==> (#[trigger] self.cells@[x]).len() == self.height
        &&& forall|x: int, y: int|
            0 <= x < self.width && 0 <= y < self.height ==> (#[trigger] self.cells@[x]@[y])@.no_duplicates()
    }

    /// The index speaks of the cells of its board and of no others.
    pub proof fn lemma_cells(&self)
        ensures
            forall|cell: BoardCoordinate|
                self@.dom().contains(cell) <==> on_board(cell, self.board_size()),
    {
    }

    /// An index for a board of the given size, with every bucket empty.
    pub fn new_allocated(board_size: BoardSize) -> (index: Self)
        ensures
            index.wf(),
            index.board_size() == board_size,
            forall|cell: BoardCoordinate|
                on_board(cell, board_size) ==> (#[trigger] index@[cell]) == Set::<usize>::empty(),
    {
        let (width, height) = board_size;
        let mut cells: Vec<Vec<Vec<usize>>> = Vec::new();
        let mut x: usize = 0;
        while x < width
            invariant
                x <= width,
                cells.len() == x,
                forall|a: int| 0 <= a < x ==> (#[trigger] cells@[a]).len() == height,
                forall|a: int, b: int|
                    0 <= a < x && 0 <= b < height ==> (#[trigger] cells@[a]@[b])@.len() == 0,
            decreases width - x,
        {
            let mut column: Vec<Vec<usize>> = Vec::new();
            let mut y: usize = 0;
            while y < height
                invariant
                    y <= height,
                    column.len() == y,
                    forall|b: int| 0 <= b < y ==> (#[trigger] column@[b])@.len() == 0,
                decreases height - y,
            {
                column.push(Vec::new());
                y += 1;
            }
            cells.push(column);
            x += 1;
        }
        let index = SoftBodiesInPositions { width, height, cells };
        assert forall|cell: BoardCoordinate| on_board(cell, board_size) implies (
        #[trigger] index@[cell]) == Set::<usize>::empty() by {
            let bucket = index.cells@[cell.0 as int]@[cell.1 as int]@;
            assert(bucket.to_set() =~= Set::<usize>::empty());
        }
        index
    }

    /// The width and height of the board that the index covers.
    pub fn get_board_size(&self) -> (board_size: BoardSize)
        ensures
            board_size == self.board_size(),
    {
        (self.width, self.height)
    }

    /// Records the creature `id` in the cell at column `x` and row `y`.
    pub fn add_soft_body_at(&mut self, x: usize, y: usize, id: usize)
        requires
            old(self).wf(),
            on_board((x, y), old(self).board_size()),
        ensures
            final(self).wf(),
            final(self).board_size() == old(self).board_size(),
            final(self)@ == old(self)@.insert((x, y), old(self)@[(x, y)].insert(id)),
    {
        if place_in(&self.cells[x][y], id).is_none() {
            proof {
                lemma_push_to_bucket(self.cells@[x as int]@[y as int]@, id);
            }
            self.cells[x][y].push(id);
        }
        assert(self.cells@[x as int]@[y as int]@.to_set() =~= old(self).cells@[x as int]@[y as int]@.to_set().insert(
            id,
        ));
    }

    /// Strikes the creature `id` from the cell at column `x` and row `y`.
    pub fn remove_soft_body_at(&mut self, x: usize, y: usize, id: usize)
        requires
            old(self).wf(),
            on_board((x, y), old(self).board_size()),
        ensures
            final(self).wf(),
            final(self).board_size() == old(self).board_size(),
            final(self)@ == old(self)@.insert((x, y), old(self)@[(x, y)].remove(id)),
    {
        if let Some(place) = place_in(&self.cells[x][y], id) {
            proof {
                lemma_remove_from_bucket(self.cells@[x as int]@[y as int]@, place as int);
            }
            self.cells[x][y].remove(place);
        }
        assert(self.cells@[x as int]@[y as int]@.to_set() =~= old(self).cells@[x as int]@[y as int]@.to_set().remove(
            id,
        ));
    }

    /// The creatures recorded in the cell at column `x` and row `y`, each
    /// once.
    pub fn get_soft_bodies_at(&self, x: usize, y: usize) -> (bodies: &Vec<usize>)
        requires
            self.wf(),
            on_board((x, y), self.board_size()),
        ensures
            bodies@.no_duplicates(),
            bodies@.to_set() == self@[(x, y)],
    {
        &self.cells[x][y]
    }

    /// The creatures recorded in the cell `center` or in a cell that touches
    /// it.
    pub open spec fn near(&self, center: BoardCoordinate) -> Set<usize> {
        Set::new(
            |id: usize|
                exists|cell: BoardCoordinate|
                    on_board(cell, self.board_size()) && adjacent(center, cell) && (
                    #[trigger] self@[cell]).contains(id),
        )
    }

    /// The creatures in the cells of a block of columns and rows that a
    /// sweep has passed: all columns before `x`, and in column `x` the rows
    /// before `y`.
    spec fn swept(&self, low: BoardCoordinate, high: BoardCoordinate, x: int, y: int) -> Set<
        usize,
    > {
        Set::new(
            |id: usize|
                exists|cell: BoardCoordinate|
                    low.1 <= cell.1 <= high.1 && (low.0 <= cell.0 < x || (cell.0 == x && cell.1
                        < y)) && (#[trigger] self@[cell]).contains(id),
        )
    }

    /// The creatures recorded in the cell `center` or in a cell that touches
    /// it. A creature that is recorded in several of these cells is listed
    /// once for each.
    pub fn get_soft_bodies_near(&self, center: BoardCoordinate) -> (bodies: Vec<usize>)
        requires
            self.wf(),
            on_board(center, self.board_size()),
        ensures
            bodies@.to_set() == self.near(center),
    {
        let (x, y) = center;
        let x_low = if x > 0 { x - 1 } else { 0 };
        let x_high = if x + 1 < self.width { x + 1 } else { x };
        let y_low = if y > 0 { y - 1 } else { 0 };
        let y_high = if y + 1 < self.height { y + 1 } else { y };
        let ghost low = (x_low, y_low);
        let ghost high = (x_high, y_high);

        let mut bodies: Vec<usize> = Vec::new();
        let mut cx = x_low;
        while cx <= x_high
            invariant
                self.wf(),
                low == (x_low, y_low),
                high == (x_high, y_high),
                x_low <= cx <= x_high + 1,
                x_high < self.width,
                y_low <= y_high < self.height,
                bodies@.to_set() == self.swept(low, high, cx as int, y_low as int),
            decreases x_high + 1 - cx,
        {
            let mut cy = y_low;
            while cy <= y_high
                invariant
                    self.wf(),
                    low == (x_low, y_low),
                    high == (x_high, y_high),
                    x_low <= cx <= x_high < self.width,
                    y_low <= cy <= y_high + 1,
                    y_high < self.height,
                    bodies@.to_set() == self.swept(low, high, cx as int, cy as int),
                decreases y_high + 1 - cy,
            {
                let ghost before = bodies@;
                let bucket = &self.cells[cx][cy];
                bodies.extend_from_slice(bucket.as_slice());
                proof {
                    let here = (cx, cy);
                    assert forall|id: usize| bodies@.to_set().contains(id) <==> self.swept(
                        low,
                        high,
                        cx as int,
                        cy + 1,
                    ).contains(id) by {
                        if bodies@.contains(id) {
                            let j = choose|j: int| 0 <= j < bodies@.len() && bodies@[j] == id;
                            if j < before.len() {
                                assert(before.to_set().contains(id));
                            } else {
                                assert(self@[here].contains(id));
                            }
                        }
                        if self.swept(low, high, cx as int, cy + 1).contains(id) {
                            let cell = choose|cell: BoardCoordinate|
                                low.1 <= cell.1 <= high.1 && (low.0 <= cell.0 < cx || (cell.0
                                    == cx && cell.1 < cy + 1)) && (#[trigger] self@[cell]).contains(
                                    id,
                                );
                            if cell == here {
                                let k = choose|k: int| 0 <= k < bucket@.len() && bucket@[k] == id;
                                assert(bodies@[before.len() + k] == id);
                            } else {
                                assert(before.to_set().contains(id));
                                let k = choose|k: int| 0 <= k < before.len() && before[k] == id;
                                assert(bodies@[k] == id);
                            }
                        }
                    }
                }
                cy += 1;
            }
            assert(self.swept(low, high, cx as int, y_high + 1) =~= self.swept(
                low,
                high,
                cx + 1,
                y_low as int,
            ));
            cx += 1;
        }
        bodies
    }
}

} // verus!
