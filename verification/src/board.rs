//! The square grid of cells, with bounds-checked access.

use vstd::prelude::*;
use crate::cell::Cell;
use crate::rng::random_below;

verus! {

/// The cells board generation can produce: open ground, a mountain, a
/// neutral fortress seeded with 40 to 49 units, or a one-unit king of one
/// of the first `num_players` teams.
pub open spec fn generated_cell(c: Cell, num_players: usize) -> bool {
    match c {
        Cell::Open => true,
        Cell::Mountain => true,
        Cell::Fortress(o, u) => o is None && 40 <= u < 50,
        Cell::King(t, u) => t < num_players && u == 1,
        _ => false,
    }
}

/// The cells the terrain pass alone can produce: as `generated_cell`, but
/// with no king placed yet.
pub open spec fn terrain_cell(c: Cell) -> bool {
    match c {
        Cell::Open => true,
        Cell::Mountain => true,
        Cell::Fortress(o, u) => o is None && 40 <= u < 50,
        _ => false,
    }
}

/// At most one king stands on the grid per team: two king cells with the
/// same owner are the same cell.
pub open spec fn kings_unique(cells: Seq<Seq<Cell>>) -> bool {
    forall|y1: int, x1: int, y2: int, x2: int|
        0 <= y1 < cells.len() && 0 <= x1 < cells[y1].len() && 0 <= y2 < cells.len() && 0 <= x2
            < cells[y2].len() && (#[trigger] cells[y1][x1]) is King && (#[trigger] cells[y2][x2])
            is King && cells[y1][x1]->King_0 == cells[y2][x2]->King_0 ==> y1 == y2 && x1 == x2
}

/// A fixed-size square grid of cells, row-major: a cell is addressed as
/// `cells[y][x]`. Dimensions never change after construction.
pub struct Board {
    cells: Vec<Vec<Cell>>,
}

impl View for Board {
    type V = Seq<Seq<Cell>>;

    closed spec fn view(&self) -> Seq<Seq<Cell>> {
        Seq::new(self.cells@.len(), |y: int| self.cells@[y]@)
    }
}

impl Board {
    /// Well-formed: square, with a side that fits an `i32` coordinate.
    pub open spec fn wf(self) -> bool {
        &&& self@.len() <= i32::MAX
        &&& forall|y: int|
            0 <= y < self@.len() ==> (#[trigger] self@[y]).len() == self@.len()
    }

    /// An `n` by `n` grid of open cells.
    pub fn empty(n: usize) -> (r: Board)
        requires
            n <= i32::MAX,
        ensures
            r.wf(),
            r@.len() == n,
            forall|y: int, x: int|
                0 <= y < n && 0 <= x < n ==> r@[y][x] == Cell::Open,
    {
        let mut cells: Vec<Vec<Cell>> = Vec::new();
        let mut y: usize = 0;
        while y < n
            invariant
                y <= n,
                cells@.len() == y,
                forall|i: int| 0 <= i < y ==> (#[trigger] cells@[i])@.len() == n,
                forall|i: int, j: int|
                    0 <= i < y && 0 <= j < n ==> (#[trigger] cells@[i]@[j]) == Cell::Open,
            decreases n - y,
        {
            let mut row: Vec<Cell> = Vec::new();
            let mut x: usize = 0;
            while x < n
                invariant
                    x <= n,
                    row@.len() == x,
                    forall|j: int| 0 <= j < x ==> row@[j] == Cell::Open,
                decreases n - x,
            {
                row.push(Cell::Open);
                x = x + 1;
            }
            cells.push(row);
            y = y + 1;
        }
        Board { cells }
    }

    /// Re-rolls every cell by weighted choice (open, mountain, neutral
    /// fortress, with weights 100 : 10 : 3), seeds each placed fortress
    /// with a uniformly random count in `[40, 50)`, then drops one king
    /// per team on an independently random cell. No collision avoidance:
    /// a later king may overwrite an earlier one, a fortress, or a
    /// mountain; only the last-placed king is certain to stand. Each team
    /// is placed once, so at most one king per team stands afterwards —
    /// and so at most `num_players` king cells in all, since every king's
    /// team lies below `num_players`.
    pub fn randomize(&mut self, num_players: usize)
        requires
            old(self).wf(),
            num_players > 0 ==> old(self)@.len() > 0,
        ensures
            final(self).wf(),
            final(self)@.len() == old(self)@.len(),
            forall|y: int, x: int|
                0 <= y < final(self)@.len() && 0 <= x < final(self)@[y].len()
                    ==> generated_cell(#[trigger] final(self)@[y][x], num_players),
            kings_unique(final(self)@),
            num_players > 0 ==> exists|y: int, x: int|
                0 <= y < final(self)@.len() && 0 <= x < final(self)@[y].len()
                    && final(self)@[y][x] == Cell::King((num_players - 1) as usize, 1),
    {
        let h = self.height();
        let mut y: usize = 0;
        while y < h
            invariant
                y <= h,
                h == self@.len(),
                h <= i32::MAX,
                forall|i: int| 0 <= i < h ==> (#[trigger] self@[i]).len() == h,
                forall|i: int, j: int|
                    0 <= i < y && 0 <= j < h ==> terrain_cell(#[trigger] self@[i][j]),
            decreases h - y,
        {
            let mut x: usize = 0;
            while x < h
                invariant
                    x <= h,
                    y < h,
                    h == self@.len(),
                    forall|i: int| 0 <= i < h ==> (#[trigger] self@[i]).len() == h,
                    forall|i: int, j: int|
                        0 <= i < y && 0 <= j < h ==> terrain_cell(#[trigger] self@[i][j]),
                    forall|j: int|
                        0 <= j < x ==> terrain_cell(#[trigger] self@[y as int][j]),
                decreases h - x,
            {
                let roll = random_below(113);
                let c = if roll < 100 {
                    Cell::Open
                } else if roll < 110 {
                    Cell::Mountain
                } else {
                    Cell::Fortress(None, 40 + random_below(10))
                };
                self.put(x, y, c);
                x = x + 1;
            }
            y = y + 1;
        }
        let mut team: usize = 0;
        while team < num_players
            invariant
                team <= num_players,
                num_players > 0 ==> h >= 1,
                h == self@.len(),
                h <= i32::MAX,
                forall|i: int| 0 <= i < h ==> (#[trigger] self@[i]).len() == h,
                forall|i: int, j: int|
                    0 <= i < h && 0 <= j < h ==> generated_cell(
                        #[trigger] self@[i][j],
                        num_players,
                    ),
                forall|i: int, j: int|
                    0 <= i < h && 0 <= j < h && (#[trigger] self@[i][j]) is King
                        ==> self@[i][j]->King_0 < team,
                kings_unique(self@),
                team > 0 ==> exists|i: int, j: int|
                    0 <= i < h && 0 <= j < h && self@[i][j] == Cell::King(
                        (team - 1) as usize,
                        1,
                    ),
            decreases num_players - team,
        {
            let row = random_below(h);
            let col = random_below(h);
            let ghost before = self@;
            self.put(col, row, Cell::King(team, 1));
            proof {
                assert(self@[row as int][col as int] == Cell::King(team, 1));
                // The new king's team is new to the grid: every other king
                // kept its owner below `team`, so uniqueness is preserved.
                assert forall|y1: int, x1: int, y2: int, x2: int|
                    0 <= y1 < h && 0 <= x1 < h && 0 <= y2 < h && 0 <= x2 < h
                        && (#[trigger] self@[y1][x1]) is King && (#[trigger] self@[y2][x2]) is King
                        && self@[y1][x1]->King_0 == self@[y2][x2]->King_0 implies y1 == y2 && x1
                    == x2 by {
                    if !(y1 == row as int && x1 == col as int) {
                        assert(self@[y1][x1] == before[y1][x1]);
                    }
                    if !(y2 == row as int && x2 == col as int) {
                        assert(self@[y2][x2] == before[y2][x2]);
                    }
                }
            }
            team = team + 1;
        }
    }

    /// A read-only snapshot of the full grid, for drawing.
    pub fn cells(&self) -> (r: &Vec<Vec<Cell>>)
        ensures
            r@.len() == self@.len(),
            forall|y: int| 0 <= y < self@.len() ==> (#[trigger] r@[y])@ == self@[y],
    {
        &self.cells
    }

    /// The number of rows.
    pub(crate) fn height(&self) -> (r: usize)
        ensures
            r == self@.len(),
    {
        self.cells.len()
    }

    /// The length of row `y`.
    pub(crate) fn row_len(&self, y: usize) -> (r: usize)
        requires
            y < self@.len(),
        ensures
            r == self@[y as int].len(),
    {
        self.cells[y].len()
    }

    /// The cell at column `x` of row `y`, by value.
    pub(crate) fn at(&self, x: usize, y: usize) -> (r: Cell)
        requires
            y < self@.len(),
            x < self@[y as int].len(),
        ensures
            r == self@[y as int][x as int],
    {
        self.cells[y][x]
    }

    /// Replaces the cell at column `x` of row `y`.
    pub(crate) fn put(&mut self, x: usize, y: usize, c: Cell)
        requires
            y < old(self)@.len(),
            x < old(self)@[y as int].len(),
        ensures
            final(self)@ == old(self)@.update(
                y as int,
                old(self)@[y as int].update(x as int, c),
            ),
    {
        let row = &mut self.cells[y];
        row[x] = c;
        proof {
            assert(final(self)@ =~~= old(self)@.update(
                y as int,
                old(self)@[y as int].update(x as int, c),
            ));
        }
    }

    /// The cell at grid coordinate `(x, y)`; the caller guarantees the
    /// coordinate lies on the board.
    pub fn get(&self, x: i32, y: i32) -> (r: &Cell)
        requires
            0 <= y < self@.len(),
            0 <= x < self@[y as int].len(),
        ensures
            *r == self@[y as int][x as int],
    {
        &self.cells[y as usize][x as usize]
    }

    /// The cell at `(x, y)`, or `None` for a coordinate off the board:
    /// the accessor for untrusted external queries.
    pub fn try_get(&self, x: i32, y: i32) -> (r: Option<&Cell>)
        ensures
            r is Some <==> (0 <= y < self@.len() && 0 <= x < self@[y as int].len()),
            r is Some ==> *r->0 == self@[y as int][x as int],
    {
        if y >= 0 && x >= 0 {
            let yu = y as usize;
            let xu = x as usize;
            if yu < self.cells.len() {
                let row = &self.cells[yu];
                if xu < row.len() {
                    return Some(&row[xu]);
                }
            }
        }
        None
    }

    /// Mutable access to the cell at `(x, y)`; the caller guarantees the
    /// coordinate lies on the board.
    pub fn get_mut(&mut self, x: i32, y: i32) -> (r: &mut Cell)
        requires
            0 <= y < old(self)@.len(),
            0 <= x < old(self)@[y as int].len(),
        ensures
            *r == old(self)@[y as int][x as int],
            final(self)@ == old(self)@.update(
                y as int,
                old(self)@[y as int].update(x as int, *final(r)),
            ),
    {
        &mut self.cells[y as usize][x as usize]
    }
}

} // verus!
