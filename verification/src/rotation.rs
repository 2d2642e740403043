//! The rules of rotation: the candidate pose, its correction at the edges of
//! the board, and the search for a kick that makes it fit.

use vstd::prelude::*;
use crate::field::{is_free, is_playfield, COLS, EMPTY, ROWS};
use crate::geometry::{Offset, PieceView};

verus! {

/// The number of kicks that a rotation tries.
pub const KICKS: usize = 9;

/// The spin after a turn of `turn`, which is `1` or `-1`.
pub open spec fn next_spin(spin: int, turn: int) -> int {
    (spin + turn + 4) % 4
}

/// Where each tile would stand after the turn, the shift left as it is.
pub open spec fn candidates(piece: PieceView, turn: int) -> Seq<Offset> {
    piece.with_spin(next_spin(piece.spin, turn)).positions()
}

/// The correction after one more coordinate has been looked at: a coordinate
/// below zero raises the correction to what brings it to zero, one above
/// `last` lowers the correction to what brings it to `last`.
pub open spec fn pushed_inward(correction: int, coordinate: int, last: int) -> int {
    if coordinate < 0 {
        if correction >= -coordinate {
            correction
        } else {
            -coordinate
        }
    } else if coordinate > last {
        if correction <= last - coordinate {
            correction
        } else {
            last - coordinate
        }
    } else {
        correction
    }
}

/// The correction that the first `n` coordinates ask for, each taken in its
/// turn, on an axis whose cells are numbered `0..=last`.
pub open spec fn correction(coords: Seq<int>, last: int, n: int) -> int
    decreases n,
{
    if n <= 0 {
        0
    } else {
        pushed_inward(correction(coords, last, n - 1), coords[n - 1], last)
    }
}

/// The rows of a sequence of positions.
pub open spec fn rows_of(tiles: Seq<Offset>) -> Seq<int> {
    Seq::new(tiles.len(), |i: int| tiles[i].row)
}

/// The columns of a sequence of positions.
pub open spec fn cols_of(tiles: Seq<Offset>) -> Seq<int> {
    Seq::new(tiles.len(), |i: int| tiles[i].col)
}

/// The single offset that pushes the candidates back towards the board, each
/// axis by the most extreme correction that its tiles ask for in turn.
pub open spec fn bounds_correction(tiles: Seq<Offset>) -> Offset {
    Offset {
        row: correction(rows_of(tiles), ROWS - 1, tiles.len() as int),
        col: correction(cols_of(tiles), COLS - 1, tiles.len() as int),
    }
}

/// The kicks in the order in which they are tried: the centre first, then the
/// ring around it, clockwise from the right.
pub open spec fn kick(k: int) -> Offset {
    if k == 0 {
        Offset::at(0, 0)
    } else if k == 1 {
        Offset::at(0, 1)
    } else if k == 2 {
        Offset::at(1, 1)
    } else if k == 3 {
        Offset::at(1, 0)
    } else if k == 4 {
        Offset::at(1, -1)
    } else if k == 5 {
        Offset::at(0, -1)
    } else if k == 6 {
        Offset::at(-1, -1)
    } else if k == 7 {
        Offset::at(-1, 0)
    } else {
        Offset::at(-1, 1)
    }
}

/// Moved by `by`, every tile stands on an empty cell of the field.
pub open spec fn fits(field: Seq<Seq<usize>>, tiles: Seq<Offset>, by: Offset) -> bool {
    forall|i: int| 0 <= i < tiles.len() ==> is_free(field, (#[trigger] tiles[i]).plus(by))
}

/// The index of the first kick from `start` on with which the candidates fit
/// on top of `base`, and `KICKS` if there is none.
pub open spec fn first_fit(field: Seq<Seq<usize>>, tiles: Seq<Offset>, base: Offset, start: int) -> int
    decreases KICKS - start,
{
    if start < 0 || start >= KICKS {
        KICKS as int
    } else if fits(field, tiles, base.plus(kick(start))) {
        start
    } else {
        first_fit(field, tiles, base, start + 1)
    }
}

/// The index of the kick that wins the rotation, and `KICKS` if none does.
pub open spec fn winning_kick(field: Seq<Seq<usize>>, piece: PieceView, turn: int) -> int {
    let tiles = candidates(piece, turn);
    first_fit(field, tiles, bounds_correction(tiles), 0)
}

/// Whether the rotation succeeds: some kick makes the candidates fit.
pub open spec fn rotation_succeeds(field: Seq<Seq<usize>>, piece: PieceView, turn: int) -> bool {
    winning_kick(field, piece, turn) < KICKS
}

/// The piece after the rotation: turned, and moved by the bounds correction
/// and the winning kick, if there is one; as it was otherwise.
pub open spec fn rotated(field: Seq<Seq<usize>>, piece: PieceView, turn: int) -> PieceView {
    let k = winning_kick(field, piece, turn);
    if k < KICKS {
        piece.with_spin(next_spin(piece.spin, turn)).shifted(
            bounds_correction(candidates(piece, turn)).plus(kick(k)),
        )
    } else {
        piece
    }
}

/// The search returns the first kick that fits: none before it does, and it
/// does itself unless the search ran out.
pub proof fn lemma_first_fit(field: Seq<Seq<usize>>, tiles: Seq<Offset>, base: Offset, start: int)
    requires
        0 <= start <= KICKS,
    ensures
        start <= first_fit(field, tiles, base, start) <= KICKS,
        first_fit(field, tiles, base, start) < KICKS ==> fits(
            field,
            tiles,
            base.plus(kick(first_fit(field, tiles, base, start))),
        ),
        forall|k: int|
            start <= k < first_fit(field, tiles, base, start) ==> !fits(field, tiles, base.plus(#[trigger] kick(k))),
    decreases KICKS - start,
{
    if start < KICKS && !fits(field, tiles, base.plus(kick(start))) {
        lemma_first_fit(field, tiles, base, start + 1);
    }
}

/// A rotation leaves a well-formed piece well formed, and a rotation that
/// succeeds leaves every tile on an empty cell of the playfield.
pub proof fn lemma_rotated_wf(field: Seq<Seq<usize>>, piece: PieceView, turn: int)
    requires
        piece.wf(),
        is_playfield(field),
        turn == 1 || turn == -1,
    ensures
        rotated(field, piece, turn).wf(),
        rotation_succeeds(field, piece, turn) ==> rotated(field, piece, turn).on_board(ROWS as int, COLS as int),
        rotation_succeeds(field, piece, turn) ==> fits(field, rotated(field, piece, turn).positions(), Offset::zero()),
{
    let tiles = candidates(piece, turn);
    let base = bounds_correction(tiles);
    let k = winning_kick(field, piece, turn);
    lemma_first_fit(field, tiles, base, 0);
    if k < KICKS {
        let by = base.plus(kick(k));
        let turned = piece.with_spin(next_spin(piece.spin, turn));
        let after = rotated(field, piece, turn);
        assert forall|i: int| 0 <= i < after.tiles.len() implies is_free(field, #[trigger] after.position(i)) by {
            assert(tiles[i] == turned.position(i));
            assert(is_free(field, tiles[i].plus(by)));
            assert(after.position(i) == turned.position(i).plus(by));
        }
        assert forall|i: int| 0 <= i < after.tiles.len() implies (#[trigger] after.position(i)).within(
            ROWS as int,
            COLS as int,
        ) by {
            assert(is_free(field, after.position(i)));
        }
        assert forall|i: int| 0 <= i < after.positions().len() implies is_free(
            field,
            (#[trigger] after.positions()[i]).plus(Offset::zero()),
        ) by {
            assert(is_free(field, after.position(i)));
        }
    }
}

/// The span of the first `n` coordinates is at most `last`: no two of them
/// are further apart.
pub open spec fn spans_at_most(coords: Seq<int>, last: int, n: int) -> bool {
    forall|i: int, j: int| 0 <= i < n && 0 <= j < n ==> #[trigger] coords[i] - #[trigger] coords[j] <= last
}

/// The correction is the least push that helps: zero if no coordinate sticks
/// out, else what brings the one that sticks out furthest to the edge.
proof fn lemma_correction_cases(coords: Seq<int>, last: int, n: int)
    requires
        0 <= n <= coords.len(),
        0 <= last,
        spans_at_most(coords, last, n),
    ensures
        (forall|i: int| 0 <= i < n ==> 0 <= #[trigger] coords[i] <= last) ==> correction(coords, last, n) == 0,
        (exists|i: int| 0 <= i < n && #[trigger] coords[i] < 0) ==> {
            &&& correction(coords, last, n) > 0
            &&& forall|i: int| 0 <= i < n ==> #[trigger] coords[i] + correction(coords, last, n) >= 0
            &&& exists|i: int| 0 <= i < n && #[trigger] coords[i] + correction(coords, last, n) == 0
        },
        (exists|i: int| 0 <= i < n && #[trigger] coords[i] > last) ==> {
            &&& correction(coords, last, n) < 0
            &&& forall|i: int| 0 <= i < n ==> #[trigger] coords[i] + correction(coords, last, n) <= last
            &&& exists|i: int| 0 <= i < n && #[trigger] coords[i] + correction(coords, last, n) == last
        },
    decreases n,
{
    if n > 0 {
        let x = coords[n - 1];
        let before = correction(coords, last, n - 1);
        lemma_correction_cases(coords, last, n - 1);
        assert(x - x <= last);
        if exists|i: int| 0 <= i < n - 1 && #[trigger] coords[i] < 0 {
            let low = choose|i: int| 0 <= i < n - 1 && #[trigger] coords[i] < 0;
            let edge = choose|i: int| 0 <= i < n - 1 && #[trigger] coords[i] + before == 0;
            assert(x - coords[low] <= last);
            assert(x - coords[edge] <= last);
            if before >= -x {
                assert(coords[edge] + correction(coords, last, n) == 0);
            } else {
                assert(coords[n - 1] + correction(coords, last, n) == 0);
            }
            assert forall|i: int| 0 <= i < n implies !(#[trigger] coords[i] > last) by {
                assert(coords[i] - coords[low] <= last);
            }
        } else if exists|i: int| 0 <= i < n - 1 && #[trigger] coords[i] > last {
            let high = choose|i: int| 0 <= i < n - 1 && #[trigger] coords[i] > last;
            let edge = choose|i: int| 0 <= i < n - 1 && #[trigger] coords[i] + before == last;
            assert(coords[high] - x <= last);
            assert(coords[edge] - x <= last);
            if before <= last - x {
                assert(coords[edge] + correction(coords, last, n) == last);
            } else {
                assert(coords[n - 1] + correction(coords, last, n) == last);
            }
            assert forall|i: int| 0 <= i < n implies !(#[trigger] coords[i] < 0) by {
                assert(coords[high] - coords[i] <= last);
            }
        } else {
            assert(before == 0);
            if x < 0 {
                assert(coords[n - 1] + correction(coords, last, n) == 0);
                assert forall|i: int| 0 <= i < n implies !(#[trigger] coords[i] > last) by {
                    assert(coords[i] - coords[n - 1] <= last);
                }
            } else if x > last {
                assert(coords[n - 1] + correction(coords, last, n) == last);
                assert forall|i: int| 0 <= i < n implies !(#[trigger] coords[i] < 0) by {
                    assert(coords[n - 1] - coords[i] <= last);
                }
            }
        }
    }
}

/// Coordinates that span no more than the axis all lie on it once the
/// correction is added; and if one of them lay before the axis, the
/// correction is at least one.
pub proof fn lemma_correction_brings_inside(coords: Seq<int>, last: int)
    requires
        0 <= last,
        spans_at_most(coords, last, coords.len() as int),
    ensures
        forall|i: int|
            0 <= i < coords.len() ==> 0 <= #[trigger] coords[i] + correction(coords, last, coords.len() as int)
                <= last,
        (exists|i: int| 0 <= i < coords.len() && #[trigger] coords[i] < 0) ==> correction(
            coords,
            last,
            coords.len() as int,
        ) >= 1,
{
    let n = coords.len() as int;
    let c = correction(coords, last, n);
    lemma_correction_cases(coords, last, n);
    assert forall|i: int| 0 <= i < n implies 0 <= #[trigger] coords[i] + c <= last by {
        if exists|k: int| 0 <= k < n && #[trigger] coords[k] < 0 {
            let edge = choose|k: int| 0 <= k < n && #[trigger] coords[k] + c == 0;
            assert(coords[i] - coords[edge] <= last);
        } else if exists|k: int| 0 <= k < n && #[trigger] coords[k] > last {
            let edge = choose|k: int| 0 <= k < n && #[trigger] coords[k] + c == last;
            assert(coords[edge] - coords[i] <= last);
        }
    }
}

/// On an empty playfield a piece whose turned silhouette is no taller and no
/// wider than the board always turns: the bounds correction alone brings it
/// onto the board, so the first kick, which adds nothing, wins. A candidate
/// that lay left of the board is moved right by at least one column.
pub proof fn lemma_rotation_on_empty_field(field: Seq<Seq<usize>>, piece: PieceView, turn: int)
    requires
        piece.wf(),
        is_playfield(field),
        forall|r: int, c: int| 0 <= r < ROWS && 0 <= c < COLS ==> field[r][c] == EMPTY,
        turn == 1 || turn == -1,
        spans_at_most(rows_of(candidates(piece, turn)), ROWS - 1, piece.tiles.len() as int),
        spans_at_most(cols_of(candidates(piece, turn)), COLS - 1, piece.tiles.len() as int),
    ensures
        rotation_succeeds(field, piece, turn),
        winning_kick(field, piece, turn) == 0,
        rotated(field, piece, turn) == piece.with_spin(next_spin(piece.spin, turn)).shifted(
            bounds_correction(candidates(piece, turn)),
        ),
        (exists|i: int| 0 <= i < piece.tiles.len() && #[trigger] candidates(piece, turn)[i].col < 0)
            ==> bounds_correction(candidates(piece, turn)).col >= 1,
{
    let tiles = candidates(piece, turn);
    let base = bounds_correction(tiles);
    lemma_correction_brings_inside(rows_of(tiles), ROWS - 1);
    lemma_correction_brings_inside(cols_of(tiles), COLS - 1);
    assert(base.plus(kick(0)) == base);
    assert forall|i: int| 0 <= i < tiles.len() implies is_free(field, (#[trigger] tiles[i]).plus(base)) by {
        assert(rows_of(tiles)[i] == tiles[i].row);
        assert(cols_of(tiles)[i] == tiles[i].col);
        assert(0 <= rows_of(tiles)[i] + base.row <= ROWS - 1);
        assert(0 <= cols_of(tiles)[i] + base.col <= COLS - 1);
    }
    assert(base.plus(Offset::zero()) == base);
    if exists|i: int| 0 <= i < piece.tiles.len() && #[trigger] candidates(piece, turn)[i].col < 0 {
        let i = choose|i: int| 0 <= i < piece.tiles.len() && #[trigger] candidates(piece, turn)[i].col < 0;
        assert(cols_of(tiles)[i] < 0);
    }
}

} // verus!
