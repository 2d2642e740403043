//! The falling piece and the operations that move it.

use vstd::prelude::*;
use crate::field::{height, is_free, is_matrix, matrix_of, width, COLS, ROWS};
use crate::geometry::{lemma_shift_bound, lemma_turned_bound, placed, Offset, PieceView, COORD_MAX};
use crate::models::grid::Grid;
use crate::motion::{
    can_attempt, can_fall, down, dropped, lemma_clear_from, lemma_dropped_at_rest, lemma_dropped_step,
    lemma_fall_is_never_absorbed, lemma_landing_exists, lemma_translated_wf, tile_verdict, translated,
    translation_succeeds, verdict, verdict_from,
};
use crate::rotation::{
    bounds_correction, candidates, cols_of, correction, first_fit, fits, kick, lemma_rotated_wf, next_spin, rotated,
    rotation_succeeds, rows_of, KICKS,
};

verus! {

/// A coordinate: a row and a column, both counted from zero.
#[derive(Clone, Copy, Debug, PartialEq, Eq, Structural)]
pub struct RowCol {
    pub col: usize,
    pub row: usize,
}

impl View for RowCol {
    type V = Offset;

    open spec fn view(&self) -> Offset {
        Offset { row: self.row as int, col: self.col as int }
    }
}

/// The offsets that a sequence of coordinates stands for.
pub open spec fn offsets_of(cells: Seq<RowCol>) -> Seq<Offset> {
    Seq::new(cells.len(), |i: int| cells[i]@)
}

/// A piece: its shape, and where and how it currently lies.
#[derive(Debug)]
pub struct Tetris {
    tiles: Vec<RowCol>,
    centre: RowCol,
    spin: i32,
    shift_row: i64,
    shift_col: i64,
    pub color: usize,
}

impl View for Tetris {
    type V = PieceView;

    closed spec fn view(&self) -> PieceView {
        PieceView {
            tiles: offsets_of(self.tiles@),
            centre: self.centre@,
            spin: self.spin as int,
            shift: Offset { row: self.shift_row as int, col: self.shift_col as int },
            color: self.color,
        }
    }
}

/// The offsets that a sequence of signed pairs stands for.
pub open spec fn points_of(pairs: Seq<(i64, i64)>) -> Seq<Offset> {
    Seq::new(pairs.len(), |i: int| Offset::at(pairs[i].0 as int, pairs[i].1 as int))
}

/// Neither number of the pair is further from zero than `times` times the
/// largest coordinate.
pub open spec fn in_reach(pair: (i64, i64), times: int) -> bool {
    &&& -times * COORD_MAX <= pair.0 <= times * COORD_MAX
    &&& -times * COORD_MAX <= pair.1 <= times * COORD_MAX
}

/// The `k`-th kick of a rotation.
fn kick_offset(k: usize) -> (by: (i64, i64))
    requires
        k < KICKS,
    ensures
        Offset::at(by.0 as int, by.1 as int) == kick(k as int),
{
    if k == 0 {
        (0, 0)
    } else if k == 1 {
        (0, 1)
    } else if k == 2 {
        (1, 1)
    } else if k == 3 {
        (1, 0)
    } else if k == 4 {
        (1, -1)
    } else if k == 5 {
        (0, -1)
    } else if k == 6 {
        (-1, -1)
    } else if k == 7 {
        (-1, 0)
    } else {
        (-1, 1)
    }
}

/// Whether every tile, moved by `(row_by, col_by)`, stands on an empty cell
/// of the playfield.
fn fits_at(tiles: &Vec<(i64, i64)>, row_by: i64, col_by: i64, grid: &Grid) -> (ok: bool)
    requires
        grid.wf(),
        in_reach((row_by, col_by), 6),
        forall|i: int| 0 <= i < tiles.len() ==> in_reach(#[trigger] tiles[i], 4),
    ensures
        ok == fits(grid@, points_of(tiles@), Offset::at(row_by as int, col_by as int)),
{
    let ghost by = Offset::at(row_by as int, col_by as int);
    let mut i: usize = 0;
    while i < tiles.len()
        invariant
            i <= tiles.len(),
            grid.wf(),
            by == Offset::at(row_by as int, col_by as int),
            in_reach((row_by, col_by), 6),
            forall|j: int| 0 <= j < tiles.len() ==> in_reach(#[trigger] tiles[j], 4),
            forall|j: int| 0 <= j < i ==> is_free(grid@, (#[trigger] points_of(tiles@)[j]).plus(by)),
        decreases tiles.len() - i,
    {
        let adjusted_row: i64 = tiles[i].0 + row_by;
        let adjusted_col: i64 = tiles[i].1 + col_by;
        assert(points_of(tiles@)[i as int].plus(by) == Offset::at(adjusted_row as int, adjusted_col as int));
        if adjusted_row < 0 || adjusted_col < 0 {
            return false;
        }
        if adjusted_row >= ROWS as i64 || adjusted_col >= COLS as i64 {
            return false;
        }
        assert(grid@[adjusted_row as int] == grid.grid_vec@[adjusted_row as int]@);
        if grid.grid_vec[adjusted_row as usize][adjusted_col as usize] != 0 {
            return false;
        }
        i = i + 1;
    }
    true
}

impl Tetris {
    /// Builds a piece from its parts. The parts must describe a well-formed
    /// piece.
    pub fn new(tiles: Vec<RowCol>, centre: RowCol, shift: RowCol, spin: i32, color: usize) -> (piece: Self)
        requires
            (PieceView {
                tiles: offsets_of(tiles@),
                centre: centre@,
                spin: spin as int,
                shift: shift@,
                color,
            }).wf(),
        ensures
            piece@ == (PieceView {
                tiles: offsets_of(tiles@),
                centre: centre@,
                spin: spin as int,
                shift: shift@,
                color,
            }),
    {
        proof {
            lemma_shift_bound(
                PieceView { tiles: offsets_of(tiles@), centre: centre@, spin: spin as int, shift: shift@, color },
            );
        }
        Tetris { tiles, centre, spin, shift_row: shift.row as i64, shift_col: shift.col as i64, color }
    }

    /// The tiles of the shape as they were given, without spin or shift.
    pub fn get_tiles(&self) -> (tiles: &Vec<RowCol>)
        ensures
            offsets_of(tiles@) == self@.tiles,
    {
        &self.tiles
    }

    /// The cell value that the piece leaves in the playfield.
    pub fn get_color(&self) -> (color: usize)
        ensures
            color == self@.color,
    {
        self.color
    }

    /// Where tile `i` would stand were the piece turned `spin` quarter turns.
    fn place(&self, i: usize, spin: i32) -> (at: (i64, i64))
        requires
            self@.wf(),
            i < self@.tiles.len(),
            0 <= spin < 4,
        ensures
            Offset::at(at.0 as int, at.1 as int) == placed(
                self@.tiles[i as int],
                self@.centre,
                spin as nat,
                self@.shift,
            ),
            in_reach(at, 4),
    {
        proof {
            lemma_shift_bound(self@);
        }
        let tile = self.tiles[i];
        assert(tile@ == self@.tiles[i as int]);
        assert(tile@.is_coordinate());
        let ghost delta = tile@.minus(self.centre@);
        let mut row: i64 = tile.row as i64 - self.centre.row as i64;
        let mut col: i64 = tile.col as i64 - self.centre.col as i64;
        let mut turns: i32 = 0;
        while turns < spin
            invariant
                0 <= turns <= spin,
                -COORD_MAX <= delta.row <= COORD_MAX,
                -COORD_MAX <= delta.col <= COORD_MAX,
                Offset::at(row as int, col as int) == delta.turned(turns as nat),
            decreases spin - turns,
        {
            proof {
                lemma_turned_bound(delta, turns as nat, COORD_MAX as int);
            }
            let next_row: i64 = -col;
            col = row;
            row = next_row;
            turns = turns + 1;
        }
        proof {
            lemma_turned_bound(delta, spin as nat, COORD_MAX as int);
        }
        (row + self.centre.row as i64 + self.shift_row, col + self.centre.col as i64 + self.shift_col)
    }

    /// The absolute position of every tile, spin and shift applied, in the
    /// order of the tiles.
    pub fn get_poses(&self) -> (poses: Vec<RowCol>)
        requires
            self@.wf(),
        ensures
            offsets_of(poses@) == self@.positions(),
    {
        let mut poses: Vec<RowCol> = Vec::new();
        let mut i: usize = 0;
        while i < self.tiles.len()
            invariant
                self@.wf(),
                i <= self.tiles.len(),
                poses.len() == i,
                forall|j: int| 0 <= j < i ==> (#[trigger] poses[j])@ == self@.position(j),
            decreases self.tiles.len() - i,
        {
            let at = self.place(i, self.spin);
            assert(self@.position(i as int).is_coordinate());
            poses.push(RowCol { row: at.0 as usize, col: at.1 as usize });
            i = i + 1;
        }
        assert(offsets_of(poses@) =~= self@.positions());
        poses
    }

    /// Tries to move the piece by `direction`, a pair of rows and columns.
    /// Returns `false` when the piece has landed, and `true` when it has
    /// moved or when the move was swallowed; the piece moves only if every
    /// tile is clear to move.
    pub fn try_move_or_set_tetris(&mut self, grid: &Vec<Vec<usize>>, direction: &(i32, i32)) -> (moved: bool)
        requires
            old(self)@.wf(),
            can_attempt(matrix_of(grid@), old(self)@, Offset::at(direction.0 as int, direction.1 as int)),
        ensures
            moved == translation_succeeds(
                matrix_of(grid@),
                old(self)@,
                Offset::at(direction.0 as int, direction.1 as int),
            ),
            final(self)@ == translated(
                matrix_of(grid@),
                old(self)@,
                Offset::at(direction.0 as int, direction.1 as int),
            ),
            final(self)@.wf(),
            direction.0 != 0 || direction.1 != 0 ==> final(self)@.in_columns(width(matrix_of(grid@))),
            old(self)@.on_board(height(matrix_of(grid@)), width(matrix_of(grid@))) ==> final(self)@.on_board(
                height(matrix_of(grid@)),
                width(matrix_of(grid@)),
            ),
    {
        if direction.0 == 0 && direction.1 == 0 {
            return true;
        }
        let ghost field = matrix_of(grid@);
        let ghost by = Offset::at(direction.0 as int, direction.1 as int);
        proof {
            lemma_translated_wf(field, self@, by);
        }
        let num_cols: i64 = grid[0].len() as i64;
        let num_rows: i64 = grid.len() as i64;
        let poses = self.get_poses();
        let mut i: usize = 0;
        while i < poses.len()
            invariant
                i <= poses.len(),
                is_matrix(field),
                field == matrix_of(grid@),
                num_cols == width(field),
                num_rows == grid.len(),
                by == Offset::at(direction.0 as int, direction.1 as int),
                by != Offset::zero(),
                *self == *old(self),
                self@.wf(),
                self@.in_columns(width(field)),
                offsets_of(poses@) == self@.positions(),
                verdict_from(field, self@.positions(), by, i as int) == verdict(field, self@, by),
            decreases poses.len() - i,
        {
            let row = poses[i].row;
            let col = poses[i].col;
            proof {
                assert(offsets_of(poses@)[i as int] == poses[i as int]@);
                assert(self@.positions()[i as int] == self@.position(i as int));
                assert(self@.position(i as int).is_coordinate());
                assert(0 <= self@.position(i as int).col < width(field));
            }
            let new_row: i64 = row as i64 + direction.0 as i64;
            let new_col: i64 = col as i64 + direction.1 as i64;
            if new_col < 0 || new_col >= num_cols {
                return true;
            }
            if new_row < 0 || new_row >= num_rows {
                return false;
            }
            assert(field[new_row as int] == grid@[new_row as int]@);
            if grid[new_row as usize][col] != 0 {
                return false;
            }
            if grid[new_row as usize][new_col as usize] != 0 {
                return true;
            }
            assert(tile_verdict(field, self@.positions()[i as int], by) is Clear);
            i = i + 1;
        }
        proof {
            lemma_shift_bound(self@);
        }
        self.shift_row = self.shift_row + direction.0 as i64;
        self.shift_col = self.shift_col + direction.1 as i64;
        true
    }

    /// Drops the piece: moves it down row by row until it lands.
    pub fn drop_tetris(&mut self, grid: &Vec<Vec<usize>>)
        requires
            old(self)@.wf(),
            is_matrix(matrix_of(grid@)),
            old(self)@.in_columns(width(matrix_of(grid@))),
        ensures
            final(self)@ == dropped(matrix_of(grid@), old(self)@),
            final(self)@.wf(),
            final(self)@.in_columns(width(matrix_of(grid@))),
            old(self)@.on_board(height(matrix_of(grid@)), width(matrix_of(grid@))) ==> final(self)@.on_board(
                height(matrix_of(grid@)),
                width(matrix_of(grid@)),
            ),
    {
        let ghost field = matrix_of(grid@);
        proof {
            lemma_landing_exists(field, self@);
        }
        loop
            invariant
                field == matrix_of(grid@),
                is_matrix(field),
                self@.wf(),
                self@.in_columns(width(field)),
                dropped(field, self@) == dropped(field, old(self)@),
            ensures
                self@ == dropped(field, old(self)@),
                self@.wf(),
                self@.in_columns(width(field)),
            decreases field.len() - self@.position(0).row,
        {
            let ghost before = self@;
            proof {
                lemma_fall_is_never_absorbed(field, before.positions(), width(field), 0);
                assert forall|i: int| 0 <= i < before.positions().len() implies 0 <= (
                #[trigger] before.positions()[i]).col < width(field) by {
                    assert(before.positions()[i] == before.position(i));
                }
                if can_fall(field, before) {
                    lemma_dropped_step(field, before);
                    lemma_clear_from(field, before.positions(), down(), 0);
                    assert(tile_verdict(field, before.positions()[0], down()) is Clear);
                } else {
                    lemma_dropped_at_rest(field, before);
                }
            }
            let moved = self.try_move_or_set_tetris(grid, &(1, 0));
            if !moved {
                break;
            }
        }
    }

    /// The piece where it would land if it were dropped now; the piece itself
    /// stays where it is.
    pub fn get_droped_tetris(&self, grid: &Vec<Vec<usize>>) -> (shadow: Tetris)
        requires
            self@.wf(),
            is_matrix(matrix_of(grid@)),
            self@.in_columns(width(matrix_of(grid@))),
        ensures
            shadow@ == dropped(matrix_of(grid@), self@),
            shadow@.wf(),
            shadow@.in_columns(width(matrix_of(grid@))),
            self@.on_board(height(matrix_of(grid@)), width(matrix_of(grid@))) ==> shadow@.on_board(
                height(matrix_of(grid@)),
                width(matrix_of(grid@)),
            ),
    {
        let mut shadow = self.clone();
        shadow.drop_tetris(grid);
        shadow
    }

    /// Tries to turn the piece a quarter turn, clockwise for `spin == 1` and
    /// back for `spin == -1`. The turned piece is pushed back towards the
    /// board and then tried with each kick in turn; the first pose in which
    /// every tile stands on an empty cell is taken. Returns whether one was
    /// found; if none was, the piece is left as it is.
    pub fn try_spin_tetris(&mut self, spin: i32, grid: &Grid) -> (turned: bool)
        requires
            old(self)@.wf(),
            grid.wf(),
            spin == 1 || spin == -1,
        ensures
            turned == rotation_succeeds(grid@, old(self)@, spin as int),
            final(self)@ == rotated(grid@, old(self)@, spin as int),
            final(self)@.wf(),
            turned ==> final(self)@.on_board(ROWS as int, COLS as int),
            old(self)@.on_board(ROWS as int, COLS as int) ==> final(self)@.on_board(ROWS as int, COLS as int),
    {
        let new_spin: i32 = (self.spin + spin + 4) % 4;
        let ghost tiles = candidates(self@, spin as int);
        proof {
            lemma_shift_bound(self@);
        }
        let mut abs_tiles: Vec<(i64, i64)> = Vec::new();
        let mut i: usize = 0;
        while i < self.tiles.len()
            invariant
                self@.wf(),
                0 <= new_spin < 4,
                new_spin == next_spin(self@.spin, spin as int),
                tiles == candidates(self@, spin as int),
                i <= self.tiles.len(),
                abs_tiles.len() == i,
                forall|j: int| 0 <= j < i ==> points_of(abs_tiles@)[j] == #[trigger] tiles[j],
                forall|j: int| 0 <= j < i ==> in_reach(#[trigger] abs_tiles[j], 4),
            decreases self.tiles.len() - i,
        {
            let at = self.place(i, new_spin);
            abs_tiles.push(at);
            i = i + 1;
        }
        assert(points_of(abs_tiles@) =~= tiles);

        let last_row: i64 = ROWS as i64 - 1;
        let last_col: i64 = COLS as i64 - 1;
        let mut row_shift: i64 = 0;
        let mut col_shift: i64 = 0;
        let mut j: usize = 0;
        while j < abs_tiles.len()
            invariant
                j <= abs_tiles.len(),
                last_row == ROWS - 1,
                last_col == COLS - 1,
                points_of(abs_tiles@) == tiles,
                row_shift == correction(rows_of(tiles), ROWS - 1, j as int),
                col_shift == correction(cols_of(tiles), COLS - 1, j as int),
                in_reach((row_shift, col_shift), 5),
                forall|j: int| 0 <= j < abs_tiles.len() ==> in_reach(#[trigger] abs_tiles[j], 4),
            decreases abs_tiles.len() - j,
        {
            let abs_row = abs_tiles[j].0;
            let abs_col = abs_tiles[j].1;
            assert(tiles[j as int] == Offset::at(abs_row as int, abs_col as int));
            if abs_row < 0 {
                if row_shift < -abs_row {
                    row_shift = -abs_row;
                }
            } else if abs_row > last_row {
                if row_shift > last_row - abs_row {
                    row_shift = last_row - abs_row;
                }
            }
            if abs_col < 0 {
                if col_shift < -abs_col {
                    col_shift = -abs_col;
                }
            } else if abs_col > last_col {
                if col_shift > last_col - abs_col {
                    col_shift = last_col - abs_col;
                }
            }
            j = j + 1;
        }
        let ghost base = bounds_correction(tiles);

        let mut k: usize = 0;
        while k < KICKS
            invariant
                k <= KICKS,
                grid.wf(),
                spin == 1 || spin == -1,
                *self == *old(self),
                self@.wf(),
                0 <= new_spin < 4,
                new_spin == next_spin(self@.spin, spin as int),
                tiles == candidates(self@, spin as int),
                points_of(abs_tiles@) == tiles,
                base == bounds_correction(tiles),
                base == Offset::at(row_shift as int, col_shift as int),
                in_reach((row_shift, col_shift), 5),
                -2 * COORD_MAX <= self@.shift.row <= 2 * COORD_MAX,
                -2 * COORD_MAX <= self@.shift.col <= 2 * COORD_MAX,
                forall|j: int| 0 <= j < abs_tiles.len() ==> in_reach(#[trigger] abs_tiles[j], 4),
                first_fit(grid@, tiles, base, k as int) == first_fit(grid@, tiles, base, 0),
            decreases KICKS - k,
        {
            let local = kick_offset(k);
            if fits_at(&abs_tiles, row_shift + local.0, col_shift + local.1, grid) {
                proof {
                    assert(base.plus(kick(k as int)) == Offset::at(row_shift + local.0, col_shift + local.1));
                    lemma_rotated_wf(grid@, self@, spin as int);
                }
                self.shift_row = self.shift_row + row_shift + local.0;
                self.shift_col = self.shift_col + col_shift + local.1;
                self.spin = new_spin;
                return true;
            }
            assert(base.plus(kick(k as int)) == Offset::at(row_shift + local.0, col_shift + local.1));
            k = k + 1;
        }
        false
    }

    /// Puts the piece back in its canonical pose: no turn, no shift.
    pub fn reset_tetris(&mut self)
        requires
            old(self)@.wf(),
        ensures
            final(self)@ == old(self)@.at_rest(),
            final(self)@.wf(),
    {
        self.shift_row = 0;
        self.shift_col = 0;
        self.spin = 0;
        proof {
            assert forall|i: int| 0 <= i < self@.tiles.len() implies (#[trigger] self@.position(i)).is_coordinate() by {
                assert(self@.tiles[i].is_coordinate());
                assert(self@.tiles[i].minus(self@.centre).turned(0) == self@.tiles[i].minus(self@.centre));
            }
        }
    }
}

impl Clone for Tetris {
    fn clone(&self) -> (copy: Self)
        ensures
            copy@ == self@,
    {
        let mut tiles: Vec<RowCol> = Vec::new();
        let mut i: usize = 0;
        while i < self.tiles.len()
            invariant
                i <= self.tiles.len(),
                tiles.len() == i,
                forall|j: int| 0 <= j < i ==> tiles[j] == self.tiles[j],
            decreases self.tiles.len() - i,
        {
            tiles.push(self.tiles[i]);
            i = i + 1;
        }
        assert(tiles@ =~= self.tiles@);
        Tetris {
            tiles,
            centre: self.centre,
            spin: self.spin,
            shift_row: self.shift_row,
            shift_col: self.shift_col,
            color: self.color,
        }
    }
}

} // verus!
