//! Totals of units over rows and over the whole grid, with the lemmas the
//! tick engine needs to rule out arithmetic overflow.

use vstd::prelude::*;
use vstd::arithmetic::mul::lemma_mul_is_distributive_add;
use crate::cell::Cell;

verus! {

/// The units held by all cells of one row.
pub open spec fn row_units(row: Seq<Cell>) -> nat
    decreases row.len(),
{
    if row.len() == 0 {
        0
    } else {
        row_units(row.drop_last()) + row.last().count() as nat
    }
}

/// The units held by all cells of the grid.
pub open spec fn board_units(cells: Seq<Seq<Cell>>) -> nat
    decreases cells.len(),
{
    if cells.len() == 0 {
        0
    } else {
        board_units(cells.drop_last()) + row_units(cells.last())
    }
}

/// The number of cells in the grid.
pub open spec fn board_area(cells: Seq<Seq<Cell>>) -> nat
    decreases cells.len(),
{
    if cells.len() == 0 {
        0
    } else {
        board_area(cells.drop_last()) + cells.last().len()
    }
}

/// A cell's count never exceeds its row's total.
pub proof fn lemma_row_units_bound(row: Seq<Cell>, x: int)
    requires
        0 <= x < row.len(),
    ensures
        row[x].count() <= row_units(row),
    decreases row.len(),
{
    if x < row.len() - 1 {
        lemma_row_units_bound(row.drop_last(), x);
        assert(row.drop_last()[x] == row[x]);
    }
}

/// A row's total never exceeds the grid's total.
pub proof fn lemma_board_row_bound(cells: Seq<Seq<Cell>>, y: int)
    requires
        0 <= y < cells.len(),
    ensures
        row_units(cells[y]) <= board_units(cells),
    decreases cells.len(),
{
    if y < cells.len() - 1 {
        lemma_board_row_bound(cells.drop_last(), y);
        assert(cells.drop_last()[y] == cells[y]);
    }
}

/// A cell's count never exceeds the grid's total.
pub proof fn lemma_board_units_bound(cells: Seq<Seq<Cell>>, x: int, y: int)
    requires
        0 <= y < cells.len(),
        0 <= x < cells[y].len(),
    ensures
        cells[y][x].count() <= board_units(cells),
{
    lemma_row_units_bound(cells[y], x);
    lemma_board_row_bound(cells, y);
}

/// A row's length never exceeds the grid's cell count.
pub proof fn lemma_board_area_row(cells: Seq<Seq<Cell>>, y: int)
    requires
        0 <= y < cells.len(),
    ensures
        cells[y].len() <= board_area(cells),
    decreases cells.len(),
{
    if y < cells.len() - 1 {
        lemma_board_area_row(cells.drop_last(), y);
        assert(cells.drop_last()[y] == cells[y]);
    }
}

/// Replacing one cell changes the row total by the difference of counts.
pub proof fn lemma_row_units_update(row: Seq<Cell>, x: int, c: Cell)
    requires
        0 <= x < row.len(),
    ensures
        row_units(row.update(x, c)) == row_units(row) - row[x].count() + c.count(),
    decreases row.len(),
{
    let r2 = row.update(x, c);
    if x == row.len() - 1 {
        assert(r2.drop_last() =~= row.drop_last());
    } else {
        lemma_row_units_update(row.drop_last(), x, c);
        assert(r2.drop_last() =~= row.drop_last().update(x, c));
        assert(r2.last() == row.last());
    }
}

/// Replacing one row changes the grid total by the difference of row
/// totals.
pub proof fn lemma_board_units_update(cells: Seq<Seq<Cell>>, y: int, row: Seq<Cell>)
    requires
        0 <= y < cells.len(),
    ensures
        board_units(cells.update(y, row)) == board_units(cells) - row_units(cells[y])
            + row_units(row),
    decreases cells.len(),
{
    let c2 = cells.update(y, row);
    if y == cells.len() - 1 {
        assert(c2.drop_last() =~= cells.drop_last());
    } else {
        lemma_board_units_update(cells.drop_last(), y, row);
        assert(c2.drop_last() =~= cells.drop_last().update(y, row));
        assert(c2.last() == cells.last());
    }
}

/// Replacing one cell keeps the grid's shape and changes its total by the
/// difference of counts.
pub proof fn lemma_board_units_set(cells: Seq<Seq<Cell>>, x: int, y: int, c: Cell)
    requires
        0 <= y < cells.len(),
        0 <= x < cells[y].len(),
    ensures
        board_units(cells.update(y, cells[y].update(x, c))) == board_units(cells)
            - cells[y][x].count() + c.count(),
{
    lemma_row_units_update(cells[y], x, c);
    lemma_board_units_update(cells, y, cells[y].update(x, c));
}

/// A row whose every cell holds at most `b` units holds at most `b`
/// units per cell in total.
proof fn lemma_row_units_cellwise_bound(row: Seq<Cell>, b: nat)
    requires
        forall|x: int| 0 <= x < row.len() ==> (#[trigger] row[x]).count() <= b,
    ensures
        row_units(row) <= b * row.len(),
    decreases row.len(),
{
    if row.len() > 0 {
        lemma_row_units_cellwise_bound(row.drop_last(), b);
        assert(row.last() == row[row.len() - 1]);
        lemma_mul_is_distributive_add(b as int, row.len() - 1, 1);
    }
}

/// A grid whose every cell holds at most `b` units holds at most `b`
/// units per cell in total: with this, a caller can establish the unit
/// room that `tick` asks for.
pub proof fn lemma_board_units_cellwise_bound(cells: Seq<Seq<Cell>>, b: nat)
    requires
        forall|y: int, x: int|
            0 <= y < cells.len() && 0 <= x < cells[y].len() ==> (#[trigger] cells[y][x]).count()
                <= b,
    ensures
        board_units(cells) <= b * board_area(cells),
    decreases cells.len(),
{
    if cells.len() > 0 {
        let n = cells.len() - 1;
        lemma_board_units_cellwise_bound(cells.drop_last(), b);
        assert(forall|x: int| 0 <= x < cells[n].len() ==> (#[trigger] cells[n][x]).count() <= b);
        lemma_row_units_cellwise_bound(cells[n], b);
        assert(cells.last() == cells[n]);
        lemma_mul_is_distributive_add(
            b as int,
            board_area(cells.drop_last()) as int,
            cells[n].len() as int,
        );
    }
}

/// Two grids of the same shape whose cells differ pointwise by at most
/// one unit differ in total by at most one unit per cell.
pub proof fn lemma_row_units_pointwise(r1: Seq<Cell>, r2: Seq<Cell>)
    requires
        r1.len() == r2.len(),
        forall|x: int| 0 <= x < r1.len() ==> (#[trigger] r2[x]).count() <= r1[x].count() + 1,
    ensures
        row_units(r2) <= row_units(r1) + r1.len(),
    decreases r1.len(),
{
    if r1.len() > 0 {
        lemma_row_units_pointwise(r1.drop_last(), r2.drop_last());
        assert(r2.last() == r2[r1.len() - 1]);
    }
}

/// The grid-level counterpart of `lemma_row_units_pointwise`.
pub proof fn lemma_board_units_pointwise(c1: Seq<Seq<Cell>>, c2: Seq<Seq<Cell>>)
    requires
        c1.len() == c2.len(),
        forall|y: int| 0 <= y < c1.len() ==> (#[trigger] c2[y]).len() == c1[y].len(),
        forall|y: int, x: int|
            0 <= y < c1.len() && 0 <= x < c1[y].len() ==> (#[trigger] c2[y][x]).count()
                <= c1[y][x].count() + 1,
    ensures
        board_units(c2) <= board_units(c1) + board_area(c1),
    decreases c1.len(),
{
    if c1.len() > 0 {
        let n = c1.len() - 1;
        lemma_board_units_pointwise(c1.drop_last(), c2.drop_last());
        assert(forall|x: int|
            0 <= x < c1[n].len() ==> (#[trigger] c2[n][x]).count() <= c1[n][x].count() + 1);
        lemma_row_units_pointwise(c1[n], c2[n]);
        assert(c2.last() == c2[n]);
        assert(c1.last() == c1[n]);
    }
}

} // verus!
