//! The playfield: the cells that settled pieces have left behind.

use vstd::prelude::*;
use crate::field::{
    blank_row, blank_rows, full_rows, is_full, is_playfield, lemma_painted_one_more, lemma_settled_shape, matrix_of,
    painted, settled, stays, survivors, COLS, EMPTY, ROWS,
};
use crate::models::tetris::{offsets_of, RowCol, Tetris};

verus! {

/// The playfield, a matrix of `ROWS` by `COLS` cell values. A cell holds
/// `EMPTY` or the colour of the piece that settled there.
pub struct Grid {
    pub grid_vec: Vec<Vec<usize>>,
}

impl View for Grid {
    type V = Seq<Seq<usize>>;

    open spec fn view(&self) -> Seq<Seq<usize>> {
        matrix_of(self.grid_vec@)
    }
}

/// A fresh row of empty cells.
pub fn new_blank_row() -> (row: Vec<usize>)
    ensures
        row@ == blank_row(),
{
    let mut row: Vec<usize> = Vec::new();
    while row.len() < COLS
        invariant
            row.len() <= COLS,
            forall|c: int| 0 <= c < row.len() ==> row[c] == EMPTY,
        decreases COLS - row.len(),
    {
        row.push(EMPTY);
    }
    assert(row@ =~= blank_row());
    row
}

/// Whether none of the cells of a row is empty.
pub fn row_is_full(row: &Vec<usize>) -> (full: bool)
    ensures
        full == is_full(row@),
{
    let mut c: usize = 0;
    while c < row.len()
        invariant
            c <= row.len(),
            forall|k: int| 0 <= k < c ==> row[k] != EMPTY,
        decreases row.len() - c,
    {
        if row[c] == EMPTY {
            return false;
        }
        c = c + 1;
    }
    true
}

/// Writes `color` into the cell under each of the positions.
pub fn paint(cells: &mut Vec<Vec<usize>>, poses: &Vec<RowCol>, color: usize)
    requires
        is_playfield(matrix_of(old(cells)@)),
        forall|i: int| 0 <= i < poses.len() ==> (#[trigger] offsets_of(poses@)[i]).within(ROWS as int, COLS as int),
    ensures
        matrix_of(final(cells)@) == painted(matrix_of(old(cells)@), offsets_of(poses@), color),
        is_playfield(matrix_of(final(cells)@)),
{
    let ghost before_all = matrix_of(cells@);
    let ghost tiles = offsets_of(poses@);
    let mut j: usize = 0;
    proof {
        if tiles.len() > 0 {
            lemma_painted_one_more(before_all, tiles, 0, color);
        } else {
            assert(tiles.take(0) =~= tiles);
            assert(painted(before_all, tiles, color) =~~= before_all);
        }
    }
    while j < poses.len()
        invariant
            j <= poses.len(),
            tiles == offsets_of(poses@),
            tiles.len() == poses.len(),
            is_playfield(before_all),
            is_playfield(matrix_of(cells@)),
            forall|i: int| 0 <= i < poses.len() ==> (#[trigger] offsets_of(poses@)[i]).within(ROWS as int, COLS as int),
            matrix_of(cells@) == painted(before_all, tiles.take(j as int), color),
        decreases poses.len() - j,
    {
        let row = poses[j].row;
        let col = poses[j].col;
        let ghost before = matrix_of(cells@);
        proof {
            assert(offsets_of(poses@)[j as int] == poses[j as int]@);
            assert(tiles[j as int].within(ROWS as int, COLS as int));
            assert(before[row as int] == cells@[row as int]@);
            lemma_painted_one_more(before_all, tiles, j as int, color);
        }
        cells[row][col] = color;
        assert(matrix_of(cells@) =~~= before.update(row as int, before[row as int].update(col as int, color)));
        j = j + 1;
    }
    proof {
        assert(tiles.take(tiles.len() as int) =~= tiles);
    }
}

impl Grid {
    /// The playfield has its `ROWS` rows of `COLS` cells.
    pub open spec fn wf(&self) -> bool {
        is_playfield(self@)
    }

    /// An empty playfield.
    pub fn new() -> (grid: Grid)
        ensures
            grid.wf(),
            forall|r: int| 0 <= r < ROWS ==> #[trigger] grid@[r] == blank_row(),
    {
        let mut grid_vec: Vec<Vec<usize>> = Vec::new();
        while grid_vec.len() < ROWS
            invariant
                grid_vec.len() <= ROWS,
                forall|r: int| 0 <= r < grid_vec.len() ==> (#[trigger] grid_vec[r])@ == blank_row(),
            decreases ROWS - grid_vec.len(),
        {
            grid_vec.push(new_blank_row());
        }
        Grid { grid_vec }
    }

    /// Settles a piece: writes its colour into the cell under each of its
    /// tiles, then clears every full row, the rows above sinking by one and
    /// an empty row entering at the top for each. Returns the number of rows
    /// cleared.
    pub fn apply_tetris(&mut self, tetris: &Tetris) -> (lines_cleared: i32)
        requires
            old(self).wf(),
            tetris@.wf(),
            tetris@.on_board(ROWS as int, COLS as int),
        ensures
            final(self).wf(),
            final(self)@ == settled(painted(old(self)@, tetris@.positions(), tetris@.color)),
            lines_cleared == full_rows(painted(old(self)@, tetris@.positions(), tetris@.color)),
    {
        let poses = tetris.get_poses();
        let color = tetris.get_color();
        proof {
            assert forall|i: int| 0 <= i < poses.len() implies (#[trigger] offsets_of(poses@)[i]).within(
                ROWS as int,
                COLS as int,
            ) by {
                assert(offsets_of(poses@).len() == poses.len());
                assert(tetris@.positions().len() == tetris@.tiles.len());
                assert(tetris@.positions()[i] == tetris@.position(i));
                assert(tetris@.position(i).within(ROWS as int, COLS as int));
            }
        }
        paint(&mut self.grid_vec, &poses, color);
        let ghost snapshot = self@;
        proof {
            assert(snapshot.take(0) =~= Seq::<Seq<usize>>::empty());
            assert(survivors(snapshot.take(0)) =~= Seq::<Seq<usize>>::empty()) by {
                reveal(Seq::filter);
            }
        }

        let mut lines_cleared: i32 = 0;
        let mut index: usize = 0;
        while index < self.grid_vec.len()
            invariant
                is_playfield(snapshot),
                self.grid_vec.len() == ROWS,
                index <= ROWS,
                0 <= lines_cleared <= index,
                lines_cleared == index - survivors(snapshot.take(index as int)).len(),
                self@ == blank_rows(lines_cleared as nat) + survivors(snapshot.take(index as int)) + snapshot.skip(
                    index as int,
                ),
            decreases ROWS - index,
        {
            let ghost kept = survivors(snapshot.take(index as int));
            let ghost before = self@;
            proof {
                assert(snapshot.take(index as int + 1) =~= snapshot.take(index as int).push(snapshot[index as int]));
                snapshot.take(index as int).lemma_filter_push(snapshot[index as int], stays());
                assert(before[index as int] == snapshot.skip(index as int)[0]);
                assert(before[index as int] == self.grid_vec@[index as int]@);
            }
            if row_is_full(&self.grid_vec[index]) {
                lines_cleared = lines_cleared + 1;
                self.grid_vec.remove(index);
                assert(self@ =~= before.remove(index as int));
                let ghost removed = self@;
                self.grid_vec.insert(0, new_blank_row());
                assert(self@ =~= removed.insert(0, blank_row()));
                assert(self@ =~= blank_rows(lines_cleared as nat) + kept + snapshot.skip(index as int + 1));
            } else {
                assert(self@ =~= blank_rows(lines_cleared as nat) + kept.push(snapshot[index as int]) + snapshot.skip(
                    index as int + 1,
                ));
            }
            index = index + 1;
        }
        proof {
            assert(snapshot.take(ROWS as int) =~= snapshot);
            assert(snapshot.skip(ROWS as int) =~= Seq::<Seq<usize>>::empty());
            assert(self@ =~= settled(snapshot));
            lemma_settled_shape(snapshot);
        }
        lines_cleared
    }
}

} // verus!
