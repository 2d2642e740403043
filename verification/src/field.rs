//! The model of a playfield: a matrix of cell values, `0` for an empty cell.

use vstd::prelude::*;
use crate::geometry::{Offset, COORD_MAX};

verus! {

/// The cell value of an empty cell.
pub const EMPTY: usize = 0;

/// The number of rows of the playfield.
pub const ROWS: usize = 20;

/// The number of columns of the playfield.
pub const COLS: usize = 10;

/// The cell values held by the rows of a grid.
pub open spec fn matrix_of(rows: Seq<Vec<usize>>) -> Seq<Seq<usize>> {
    Seq::new(rows.len(), |r: int| rows[r]@)
}

/// The number of rows of a field.
pub open spec fn height(field: Seq<Seq<usize>>) -> int {
    field.len() as int
}

/// The number of columns of a field, read off its first row.
pub open spec fn width(field: Seq<Seq<usize>>) -> int {
    field[0].len() as int
}

/// A matrix has at least one row, rows of one length, and no more rows or
/// columns than there are coordinates.
pub open spec fn is_matrix(field: Seq<Seq<usize>>) -> bool {
    &&& 1 <= field.len() <= COORD_MAX
    &&& field[0].len() <= COORD_MAX
    &&& forall|r: int| 0 <= r < field.len() ==> (#[trigger] field[r]).len() == field[0].len()
}

/// The playfield proper: a matrix of `ROWS` by `COLS` cells.
pub open spec fn is_playfield(field: Seq<Seq<usize>>) -> bool {
    &&& field.len() == ROWS
    &&& forall|r: int| 0 <= r < field.len() ==> (#[trigger] field[r]).len() == COLS
}

/// The cell at `(row, col)` holds a settled colour.
pub open spec fn occupied(field: Seq<Seq<usize>>, row: int, col: int) -> bool {
    field[row][col] != EMPTY
}

/// The position is a cell of the field, and that cell is empty.
pub open spec fn is_free(field: Seq<Seq<usize>>, at: Offset) -> bool {
    &&& 0 <= at.row < field.len()
    &&& 0 <= at.col < field[at.row].len()
    &&& !occupied(field, at.row, at.col)
}

/// The field after a piece with tiles at `tiles` has left `color` in each of
/// its cells.
pub open spec fn painted(field: Seq<Seq<usize>>, tiles: Seq<Offset>, color: usize) -> Seq<Seq<usize>> {
    Seq::new(
        field.len(),
        |r: int|
            Seq::new(
                field[r].len(),
                |c: int|
                    if tiles.contains(Offset::at(r, c)) {
                        color
                    } else {
                        field[r][c]
                    },
            ),
    )
}

/// A row is full when none of its cells is empty.
pub open spec fn is_full(row: Seq<usize>) -> bool {
    forall|c: int| 0 <= c < row.len() ==> #[trigger] row[c] != EMPTY
}

/// The test that a row passes when it is not full.
pub open spec fn stays() -> spec_fn(Seq<usize>) -> bool {
    |row: Seq<usize>| !is_full(row)
}

/// The rows that are not full, in their order.
pub open spec fn survivors(field: Seq<Seq<usize>>) -> Seq<Seq<usize>> {
    field.filter(stays())
}

/// The number of full rows.
pub open spec fn full_rows(field: Seq<Seq<usize>>) -> nat {
    (field.len() - survivors(field).len()) as nat
}

/// A row of `COLS` empty cells.
pub open spec fn blank_row() -> Seq<usize> {
    Seq::new(COLS as nat, |c: int| EMPTY)
}

/// `n` rows of empty cells.
pub open spec fn blank_rows(n: nat) -> Seq<Seq<usize>> {
    Seq::new(n, |r: int| blank_row())
}

/// The field after its full rows have been cleared: the rows that are not
/// full keep their order and sink to the bottom, under as many empty rows as
/// there were full ones.
pub open spec fn settled(field: Seq<Seq<usize>>) -> Seq<Seq<usize>> {
    blank_rows(full_rows(field)) + survivors(field)
}

/// Painting changes no dimension: a painted playfield is a playfield.
pub proof fn lemma_painted_shape(field: Seq<Seq<usize>>, tiles: Seq<Offset>, color: usize)
    ensures
        painted(field, tiles, color).len() == field.len(),
        forall|r: int| 0 <= r < field.len() ==> (#[trigger] painted(field, tiles, color)[r]).len() == field[r].len(),
        is_playfield(field) ==> is_playfield(painted(field, tiles, color)),
{
}

/// Painting one tile more writes one cell more.
pub proof fn lemma_painted_one_more(field: Seq<Seq<usize>>, tiles: Seq<Offset>, n: int, color: usize)
    requires
        0 <= n < tiles.len(),
        0 <= tiles[n].row < field.len(),
        0 <= tiles[n].col < field[tiles[n].row].len(),
    ensures
        painted(field, tiles.take(n + 1), color) == painted(field, tiles.take(n), color).update(
            tiles[n].row,
            painted(field, tiles.take(n), color)[tiles[n].row].update(tiles[n].col, color),
        ),
        tiles.take(tiles.len() as int) == tiles,
        painted(field, tiles.take(0), color) == field,
{
    let before = painted(field, tiles.take(n), color);
    let after = painted(field, tiles.take(n + 1), color);
    let wanted = before.update(tiles[n].row, before[tiles[n].row].update(tiles[n].col, color));
    let shorter = tiles.take(n);
    let longer = tiles.take(n + 1);
    assert forall|r: int, c: int| 0 <= r < field.len() && 0 <= c < field[r].len() implies after[r][c]
        == wanted[r][c] by {
        let cell = Offset::at(r, c);
        if longer.contains(cell) {
            let i = choose|i: int| 0 <= i < longer.len() && longer[i] == cell;
            if i < n {
                assert(shorter[i] == cell);
            }
        }
        if shorter.contains(cell) {
            let i = choose|i: int| 0 <= i < shorter.len() && shorter[i] == cell;
            assert(longer[i] == cell);
        }
        if cell == tiles[n] {
            assert(longer[n] == cell);
        }
    }
    assert(after =~~= wanted);
    assert(tiles.take(tiles.len() as int) =~= tiles);
    assert(painted(field, tiles.take(0), color) =~~= field);
}

/// Every row that survives is a row of the field, so clearing the full rows
/// of a playfield leaves a playfield.
pub proof fn lemma_settled_shape(field: Seq<Seq<usize>>)
    requires
        is_playfield(field),
    ensures
        is_playfield(settled(field)),
        full_rows(field) <= ROWS,
{
    let kept = survivors(field);
    field.lemma_filter_len(stays());
    assert forall|r: int| 0 <= r < settled(field).len() implies (#[trigger] settled(field)[r]).len() == COLS by {
        if r >= full_rows(field) {
            let row = kept[r - full_rows(field)];
            assert(kept.contains(row));
            field.lemma_filter_contains_rev(stays(), row);
            let at = choose|at: int| 0 <= at < field.len() && field[at] == row;
            assert(field[at].len() == COLS);
        }
    }
}

/// Rows that all stay are all kept.
pub proof fn lemma_all_survive(rows: Seq<Seq<usize>>)
    requires
        forall|r: int| 0 <= r < rows.len() ==> !is_full(#[trigger] rows[r]),
    ensures
        survivors(rows) == rows,
    decreases rows.len(),
{
    reveal(Seq::filter);
    if rows.len() > 0 {
        lemma_all_survive(rows.drop_last());
        assert(rows.drop_last().push(rows.last()) =~= rows);
    }
}

/// When one row of a playfield is full and no other, clearing removes that
/// row alone: one row is counted, an empty row enters at the top, the rows
/// above the full one sink by one, and the rows below it stay.
pub proof fn lemma_one_full_row(field: Seq<Seq<usize>>, full: int)
    requires
        is_playfield(field),
        0 <= full < ROWS,
        is_full(field[full]),
        forall|r: int| 0 <= r < ROWS && r != full ==> !is_full(#[trigger] field[r]),
    ensures
        full_rows(field) == 1,
        settled(field).len() == ROWS,
        settled(field)[0] == blank_row(),
        forall|r: int| 0 < r <= full ==> #[trigger] settled(field)[r] == field[r - 1],
        forall|r: int| full < r < ROWS ==> #[trigger] settled(field)[r] == field[r],
{
    let above = field.take(full);
    let below = field.skip(full + 1);
    let middle = seq![field[full]];
    assert(field =~= above + middle + below);
    Seq::filter_distributes_over_add(above + middle, below, stays());
    Seq::filter_distributes_over_add(above, middle, stays());
    lemma_all_survive(above);
    lemma_all_survive(below);
    assert(middle.filter(stays()) =~= Seq::<Seq<usize>>::empty()) by {
        reveal_with_fuel(Seq::filter, 2);
        assert(middle.drop_last() =~= Seq::<Seq<usize>>::empty());
    }
    assert(survivors(field) =~= above + below);
    assert(settled(field) =~= seq![blank_row()] + above + below);
}

/// A piece that lies in the one empty cell of a row of a playfield, and
/// nowhere else, completes that row. If no other row is full, settling the
/// piece clears exactly that row: an empty row enters at the top, the rows
/// above sink by one, and the rows below stay as they were.
pub proof fn lemma_filling_the_gap(field: Seq<Seq<usize>>, tiles: Seq<Offset>, color: usize, row: int, col: int)
    requires
        is_playfield(field),
        0 <= row < ROWS,
        0 <= col < COLS,
        color != EMPTY,
        tiles.len() >= 1,
        forall|i: int| 0 <= i < tiles.len() ==> #[trigger] tiles[i] == Offset::at(row, col),
        forall|c: int| 0 <= c < COLS && c != col ==> #[trigger] field[row][c] != EMPTY,
        forall|r: int| 0 <= r < ROWS && r != row ==> !is_full(#[trigger] field[r]),
    ensures
        full_rows(painted(field, tiles, color)) == 1,
        settled(painted(field, tiles, color)).len() == ROWS,
        settled(painted(field, tiles, color))[0] == blank_row(),
        forall|r: int| 0 < r <= row ==> #[trigger] settled(painted(field, tiles, color))[r] == field[r - 1],
        forall|r: int| row < r < ROWS ==> #[trigger] settled(painted(field, tiles, color))[r] == field[r],
{
    let after = painted(field, tiles, color);
    lemma_painted_shape(field, tiles, color);
    assert(tiles[0] == Offset::at(row, col));
    assert forall|r: int| 0 <= r < ROWS && r != row implies #[trigger] after[r] == field[r] by {
        assert forall|c: int| 0 <= c < COLS implies after[r][c] == field[r][c] by {
            if tiles.contains(Offset::at(r, c)) {
                let i = choose|i: int| 0 <= i < tiles.len() && tiles[i] == Offset::at(r, c);
                assert(tiles[i] == Offset::at(row, col));
            }
        }
        assert(after[r] =~= field[r]);
    }
    assert forall|c: int| 0 <= c < after[row].len() implies #[trigger] after[row][c] != EMPTY by {
        if c != col {
            if tiles.contains(Offset::at(row, c)) {
                let i = choose|i: int| 0 <= i < tiles.len() && tiles[i] == Offset::at(row, c);
                assert(tiles[i] == Offset::at(row, col));
            }
        }
    }
    lemma_one_full_row(after, row);
}

} // verus!
