//! The rules of translation: what one step does to a piece, and where a piece
//! comes to rest when it is dropped.

use vstd::prelude::*;
use crate::field::{height, is_matrix, occupied, width};
use crate::geometry::{Offset, PieceView};

verus! {

/// What the playfield answers to one tile that wants to move.
pub enum Verdict {
    /// The tile may move.
    Clear,
    /// The move is swallowed: the piece stays where it is and is not settled.
    Absorbed,
    /// The piece has reached its resting place.
    Landed,
}

/// The answer for a tile at `from` that wants to move by `by`. A target column
/// off the board swallows the move; a target row off the board settles the
/// piece; so does a settled cell in the target row under the tile's present
/// column; a settled target cell swallows the move.
pub open spec fn tile_verdict(field: Seq<Seq<usize>>, from: Offset, by: Offset) -> Verdict {
    let to = from.plus(by);
    if to.col < 0 || to.col >= width(field) {
        Verdict::Absorbed
    } else if to.row < 0 || to.row >= height(field) {
        Verdict::Landed
    } else if occupied(field, to.row, from.col) {
        Verdict::Landed
    } else if occupied(field, to.row, to.col) {
        Verdict::Absorbed
    } else {
        Verdict::Clear
    }
}

/// The answer for the tiles from index `start` on: that of the first tile
/// whose answer is not `Clear`, and `Clear` if there is none.
pub open spec fn verdict_from(field: Seq<Seq<usize>>, tiles: Seq<Offset>, by: Offset, start: int) -> Verdict
    decreases tiles.len() - start,
{
    if start < 0 || start >= tiles.len() {
        Verdict::Clear
    } else {
        match tile_verdict(field, tiles[start], by) {
            Verdict::Clear => verdict_from(field, tiles, by, start + 1),
            verdict => verdict,
        }
    }
}

/// The answer for a whole piece.
pub open spec fn verdict(field: Seq<Seq<usize>>, piece: PieceView, by: Offset) -> Verdict {
    verdict_from(field, piece.positions(), by, 0)
}

/// A translation can be attempted when it is the empty move, or else when the
/// field is a matrix and every tile stands in one of its columns.
pub open spec fn can_attempt(field: Seq<Seq<usize>>, piece: PieceView, by: Offset) -> bool {
    by != Offset::zero() ==> is_matrix(field) && piece.in_columns(width(field))
}

/// Whether a translation reports success: the empty move always does, and any
/// other unless the piece has landed.
pub open spec fn translation_succeeds(field: Seq<Seq<usize>>, piece: PieceView, by: Offset) -> bool {
    by == Offset::zero() || !(verdict(field, piece, by) is Landed)
}

/// The piece after a translation: moved by `by` if every tile is clear to
/// move, and as it was otherwise.
pub open spec fn translated(field: Seq<Seq<usize>>, piece: PieceView, by: Offset) -> PieceView {
    if by != Offset::zero() && verdict(field, piece, by) is Clear {
        piece.shifted(by)
    } else {
        piece
    }
}

/// One row down.
pub open spec fn down() -> Offset {
    Offset { row: 1, col: 0 }
}

/// The piece can fall one row.
pub open spec fn can_fall(field: Seq<Seq<usize>>, piece: PieceView) -> bool {
    verdict(field, piece, down()) is Clear
}

/// The piece `rows` rows further down.
pub open spec fn lowered(piece: PieceView, rows: nat) -> PieceView {
    piece.shifted(Offset { row: rows as int, col: 0 })
}

/// The piece can fall through each of the next `rows` rows and no further.
pub open spec fn lands_after(field: Seq<Seq<usize>>, piece: PieceView, rows: nat) -> bool {
    &&& forall|k: nat| k < rows ==> can_fall(field, #[trigger] lowered(piece, k))
    &&& !can_fall(field, lowered(piece, rows))
}

/// The number of rows that a dropped piece falls.
pub open spec fn drop_rows(field: Seq<Seq<usize>>, piece: PieceView) -> nat {
    choose|rows: nat| lands_after(field, piece, rows)
}

/// The piece where it comes to rest when dropped.
pub open spec fn dropped(field: Seq<Seq<usize>>, piece: PieceView) -> PieceView {
    lowered(piece, drop_rows(field, piece))
}

/// A verdict of `Clear` from `start` on means that every tile from there on is
/// clear to move.
pub proof fn lemma_clear_from(field: Seq<Seq<usize>>, tiles: Seq<Offset>, by: Offset, start: int)
    requires
        0 <= start,
    ensures
        verdict_from(field, tiles, by, start) is Clear <==> forall|i: int|
            start <= i < tiles.len() ==> #[trigger] tile_verdict(field, tiles[i], by) is Clear,
    decreases tiles.len() - start,
{
    if start < tiles.len() {
        lemma_clear_from(field, tiles, by, start + 1);
    }
}

/// Moving a piece moves each of its tiles.
pub proof fn lemma_shifted_position(piece: PieceView, by: Offset, i: int)
    ensures
        piece.shifted(by).position(i) == piece.position(i).plus(by),
{
}

/// A clear verdict puts every tile on the field, so the moved piece is well
/// formed and still stands in the field's columns.
pub proof fn lemma_clear_keeps_wf(field: Seq<Seq<usize>>, piece: PieceView, by: Offset)
    requires
        piece.wf(),
        is_matrix(field),
        verdict(field, piece, by) is Clear,
    ensures
        piece.shifted(by).wf(),
        piece.shifted(by).on_board(height(field), width(field)),
{
    lemma_clear_from(field, piece.positions(), by, 0);
    assert forall|i: int| 0 <= i < piece.tiles.len() implies (#[trigger] piece.shifted(by).position(i)).within(
        height(field),
        width(field),
    ) by {
        assert(tile_verdict(field, piece.positions()[i], by) is Clear);
        lemma_shifted_position(piece, by, i);
    }
}

/// The result of a translation that can be attempted is well formed.
pub proof fn lemma_translated_wf(field: Seq<Seq<usize>>, piece: PieceView, by: Offset)
    requires
        piece.wf(),
        can_attempt(field, piece, by),
    ensures
        translated(field, piece, by).wf(),
        by != Offset::zero() ==> translated(field, piece, by).in_columns(width(field)),
        piece.on_board(height(field), width(field)) ==> translated(field, piece, by).on_board(
            height(field),
            width(field),
        ),
{
    if by != Offset::zero() && verdict(field, piece, by) is Clear {
        lemma_clear_keeps_wf(field, piece, by);
    }
}

/// A step straight down is never swallowed by a piece that stands in the
/// field's columns: it is clear or the piece has landed.
pub proof fn lemma_fall_is_never_absorbed(field: Seq<Seq<usize>>, tiles: Seq<Offset>, cols: int, start: int)
    requires
        0 <= start,
        cols == width(field),
        forall|i: int| 0 <= i < tiles.len() ==> 0 <= (#[trigger] tiles[i]).col < cols,
    ensures
        !(verdict_from(field, tiles, down(), start) is Absorbed),
    decreases tiles.len() - start,
{
    if start < tiles.len() {
        assert(0 <= tiles[start].col < cols);
        lemma_fall_is_never_absorbed(field, tiles, cols, start + 1);
    }
}

/// Lowering a piece by one row and then by `rows` rows lowers it by
/// `rows + 1`.
pub proof fn lemma_lowered_again(piece: PieceView, rows: nat)
    ensures
        lowered(lowered(piece, 1), rows) == lowered(piece, rows + 1),
        lowered(piece, 0) == piece,
        lowered(piece, 1) == piece.shifted(down()),
{
}

/// A piece comes to rest after one number of rows only.
pub proof fn lemma_landing_is_unique(field: Seq<Seq<usize>>, piece: PieceView, a: nat, b: nat)
    requires
        lands_after(field, piece, a),
        lands_after(field, piece, b),
    ensures
        a == b,
{
    if a < b {
        assert(can_fall(field, lowered(piece, a)));
    } else if b < a {
        assert(can_fall(field, lowered(piece, b)));
    }
}

/// A well-formed piece in the columns of a matrix comes to rest, and it
/// falls through fewer rows than the matrix has.
pub proof fn lemma_landing_exists(field: Seq<Seq<usize>>, piece: PieceView)
    requires
        piece.wf(),
        is_matrix(field),
        piece.in_columns(width(field)),
    ensures
        lands_after(field, piece, drop_rows(field, piece)),
        drop_rows(field, piece) < height(field),
        drop_rows(field, piece) > 0 ==> piece.position(0).row + drop_rows(field, piece) < height(field),
        dropped(field, piece).wf(),
        dropped(field, piece).in_columns(width(field)),
        piece.on_board(height(field), width(field)) ==> dropped(field, piece).on_board(height(field), width(field)),
        !can_fall(field, dropped(field, piece)),
    decreases height(field) - piece.position(0).row,
{
    lemma_lowered_again(piece, 0);
    if can_fall(field, piece) {
        let next = lowered(piece, 1);
        lemma_clear_keeps_wf(field, piece, down());
        lemma_shifted_position(piece, down(), 0);
        assert(next.position(0).within(height(field), width(field)));
        assert forall|i: int| 0 <= i < next.tiles.len() implies 0 <= (#[trigger] next.position(i)).col < width(
            field,
        ) by {
            assert(next.position(i).within(height(field), width(field)));
        }
        lemma_landing_exists(field, next);
        let rest = drop_rows(field, next);
        assert forall|k: nat| k < rest + 1 implies can_fall(field, #[trigger] lowered(piece, k)) by {
            if k > 0 {
                lemma_lowered_again(piece, (k - 1) as nat);
                assert(can_fall(field, lowered(next, (k - 1) as nat)));
            }
        }
        lemma_lowered_again(piece, rest);
        assert(lands_after(field, piece, rest + 1));
        lemma_landing_is_unique(field, piece, rest + 1, drop_rows(field, piece));
    } else {
        assert(lands_after(field, piece, 0));
        lemma_landing_is_unique(field, piece, 0, drop_rows(field, piece));
    }
}

/// A piece that can fall comes to rest where the piece one row lower does.
pub proof fn lemma_dropped_step(field: Seq<Seq<usize>>, piece: PieceView)
    requires
        piece.wf(),
        is_matrix(field),
        piece.in_columns(width(field)),
        can_fall(field, piece),
    ensures
        dropped(field, piece) == dropped(field, piece.shifted(down())),
{
    let next = lowered(piece, 1);
    lemma_lowered_again(piece, 0);
    lemma_translated_wf(field, piece, down());
    lemma_landing_exists(field, piece);
    lemma_landing_exists(field, next);
    let rest = drop_rows(field, next);
    assert forall|k: nat| k < rest + 1 implies can_fall(field, #[trigger] lowered(piece, k)) by {
        if k > 0 {
            lemma_lowered_again(piece, (k - 1) as nat);
            assert(can_fall(field, lowered(next, (k - 1) as nat)));
        }
    }
    lemma_lowered_again(piece, rest);
    lemma_landing_is_unique(field, piece, rest + 1, drop_rows(field, piece));
}

/// A piece that cannot fall rests where it is.
pub proof fn lemma_dropped_at_rest(field: Seq<Seq<usize>>, piece: PieceView)
    requires
        !can_fall(field, piece),
    ensures
        dropped(field, piece) == piece,
{
    lemma_lowered_again(piece, 0);
    assert(lands_after(field, piece, 0));
    lemma_landing_is_unique(field, piece, 0, drop_rows(field, piece));
}

/// Dropping is idempotent: a piece that has been dropped stays where it is
/// when it is dropped again.
pub proof fn lemma_drop_is_idempotent(field: Seq<Seq<usize>>, piece: PieceView)
    requires
        piece.wf(),
        is_matrix(field),
        piece.in_columns(width(field)),
    ensures
        dropped(field, dropped(field, piece)) == dropped(field, piece),
{
    lemma_landing_exists(field, piece);
    lemma_dropped_at_rest(field, dropped(field, piece));
}

/// The empty move always succeeds and leaves the piece as it is.
pub proof fn lemma_empty_move(field: Seq<Seq<usize>>, piece: PieceView)
    ensures
        can_attempt(field, piece, Offset::zero()),
        translation_succeeds(field, piece, Offset::zero()),
        translated(field, piece, Offset::zero()) == piece,
{
}

} // verus!
