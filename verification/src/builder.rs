//! The factory of pieces: the catalogue of shapes, and the constructors that
//! spawn a piece of each.

use rand::Rng;
use vstd::prelude::*;
use crate::field::{COLS, ROWS};
use crate::geometry::{Offset, PieceView, COORD_MAX};
use crate::models::tetris::{offsets_of, RowCol, Tetris};

verus! {

/// The five shapes of the catalogue.
#[derive(Clone, Copy, Debug, PartialEq, Eq, Structural)]
pub enum Shape {
    Square,
    Tee,
    Zaa,
    Zee,
    Long,
}

/// The number of the last shape of the catalogue, counting from zero.
pub const LAST_SHAPE: i32 = 4;

/// The shape with a given number: the catalogue in the order square, tee,
/// zaa, zee, long, and the zee for every other number.
pub open spec fn shape_numbered(number: int) -> Shape {
    if number == 0 {
        Shape::Square
    } else if number == 1 {
        Shape::Tee
    } else if number == 2 {
        Shape::Zaa
    } else if number == 4 {
        Shape::Long
    } else {
        Shape::Zee
    }
}

/// The tiles of a shape, counted from the top left corner of its box. The
/// square lists its corner twice.
pub open spec fn shape_tiles(shape: Shape) -> Seq<Offset> {
    match shape {
        Shape::Square => seq![
            Offset::at(0, 0),
            Offset::at(0, 0),
            Offset::at(1, 0),
            Offset::at(0, 1),
            Offset::at(1, 1),
        ],
        Shape::Tee => seq![Offset::at(0, 1), Offset::at(1, 0), Offset::at(1, 1), Offset::at(1, 2)],
        Shape::Zee => seq![Offset::at(0, 1), Offset::at(0, 2), Offset::at(1, 0), Offset::at(1, 1)],
        Shape::Zaa => seq![Offset::at(0, 0), Offset::at(0, 1), Offset::at(1, 1), Offset::at(1, 2)],
        Shape::Long => seq![Offset::at(0, 0), Offset::at(0, 1), Offset::at(0, 2), Offset::at(0, 3)],
    }
}

/// The centre about which a shape turns.
pub open spec fn shape_centre(shape: Shape) -> Offset {
    match shape {
        Shape::Square => Offset::at(0, 0),
        Shape::Tee => Offset::at(1, 1),
        Shape::Zee => Offset::at(1, 1),
        Shape::Zaa => Offset::at(0, 1),
        Shape::Long => Offset::at(0, 1),
    }
}

/// The colour of a shape.
pub open spec fn shape_color(shape: Shape) -> usize {
    match shape {
        Shape::Square => 1,
        Shape::Tee => 2,
        Shape::Zaa => 4,
        Shape::Zee => 5,
        Shape::Long => 6,
    }
}

/// A freshly spawned piece: the tiles of the shape with the origin added to
/// each, the centre of the shape, no turn and no shift.
pub open spec fn spawned(shape: Shape, origin: Offset) -> PieceView {
    PieceView {
        tiles: Seq::new(shape_tiles(shape).len(), |i: int| shape_tiles(shape)[i].plus(origin)),
        centre: shape_centre(shape),
        spin: 0,
        shift: Offset::zero(),
        color: shape_color(shape),
    }
}

/// The last row and the last column of the box of a shape.
pub open spec fn shape_extent(shape: Shape) -> Offset {
    match shape {
        Shape::Square => Offset::at(1, 1),
        Shape::Tee => Offset::at(1, 2),
        Shape::Zee => Offset::at(1, 2),
        Shape::Zaa => Offset::at(1, 2),
        Shape::Long => Offset::at(0, 3),
    }
}

/// The shape can be spawned at the origin: its box fits among the
/// coordinates.
pub open spec fn can_spawn(shape: Shape, origin: Offset) -> bool {
    &&& 0 <= origin.row
    &&& 0 <= origin.col
    &&& origin.row + shape_extent(shape).row <= COORD_MAX
    &&& origin.col + shape_extent(shape).col <= COORD_MAX
}

/// A piece that has just been spawned is well formed, and each tile stands
/// where the shape puts it.
pub proof fn lemma_spawned_wf(shape: Shape, origin: Offset)
    requires
        can_spawn(shape, origin),
    ensures
        spawned(shape, origin).wf(),
        forall|i: int|
            0 <= i < shape_tiles(shape).len() ==> #[trigger] spawned(shape, origin).position(i) == shape_tiles(
                shape,
            )[i].plus(origin),
{
    let piece = spawned(shape, origin);
    assert forall|i: int| 0 <= i < piece.tiles.len() implies #[trigger] piece.position(i) == shape_tiles(
        shape,
    )[i].plus(origin) by {
        assert(piece.tiles[i].minus(piece.centre).turned(0) == piece.tiles[i].minus(piece.centre));
    }
}

/// A piece spawned at the top left corner of the board stands on the board,
/// and lies in its canonical pose.
pub proof fn lemma_spawned_on_board(shape: Shape)
    ensures
        spawned(shape, Offset::zero()).wf(),
        spawned(shape, Offset::zero()).on_board(ROWS as int, COLS as int),
        spawned(shape, Offset::zero()).at_rest() == spawned(shape, Offset::zero()),
{
    lemma_spawned_wf(shape, Offset::zero());
}

/// The generator of random numbers that `rand` keeps for each thread.
#[verifier::external_type_specification]
#[verifier::external_body]
pub struct ExThreadRng(rand::rngs::ThreadRng);

/// `rand::thread_rng` hands out the generator of the calling thread, which
/// `rand` seeds from the system when the thread first asks for it, and gives
/// up with a panic if the system has no randomness to offer. Nothing is
/// claimed of the generator.
pub assume_specification[ rand::thread_rng ]() -> (rng: rand::rngs::ThreadRng)
;

/// `rand::Rng::gen_range` on the inclusive range from `low` to `high`. The
/// range must not be empty, or the call panics; the value drawn lies in the
/// range, and nothing more is claimed of it: two calls may differ.
#[verifier::external_body]
fn gen_range_inclusive(rng: &mut rand::rngs::ThreadRng, low: i32, high: i32) -> (value: i32)
    requires
        low <= high,
    ensures
        low <= value <= high,
{
    rng.gen_range(low..=high)
}

/// The shape with a given number.
pub fn shape_of_number(number: i32) -> (shape: Shape)
    ensures
        shape == shape_numbered(number as int),
{
    match number {
        0 => Shape::Square,
        1 => Shape::Tee,
        2 => Shape::Zaa,
        3 => Shape::Zee,
        4 => Shape::Long,
        _ => Shape::Zee,
    }
}

/// Spawns a square, its corner listed twice, that turns about its top left
/// tile.
///
/// ```text
/// [X][X]
/// [X][X]
/// ```
pub fn build_square_tetris(origin_row: usize, origin_col: usize) -> (piece: Tetris)
    requires
        origin_row + 1 <= COORD_MAX,
        origin_col + 1 <= COORD_MAX,
    ensures
        piece@ == spawned(Shape::Square, Offset::at(origin_row as int, origin_col as int)),
        piece@.wf(),
{
    let poses = vec![
        RowCol { row: origin_row, col: origin_col },
        RowCol { row: origin_row, col: origin_col },
        RowCol { row: origin_row + 1, col: origin_col },
        RowCol { row: origin_row, col: origin_col + 1 },
        RowCol { row: origin_row + 1, col: origin_col + 1 },
    ];
    proof {
        let origin = Offset::at(origin_row as int, origin_col as int);
        assert(offsets_of(poses@) =~= spawned(Shape::Square, origin).tiles);
        lemma_spawned_wf(Shape::Square, origin);
    }
    Tetris::new(poses, RowCol { row: 0, col: 0 }, RowCol { row: 0, col: 0 }, 0, 1)
}

/// Spawns a tee, that turns about the middle of its bar.
///
/// ```text
/// [ ][X][ ]
/// [X][X][X]
/// ```
pub fn build_tee_tetris(origin_row: usize, origin_col: usize) -> (piece: Tetris)
    requires
        origin_row + 1 <= COORD_MAX,
        origin_col + 2 <= COORD_MAX,
    ensures
        piece@ == spawned(Shape::Tee, Offset::at(origin_row as int, origin_col as int)),
        piece@.wf(),
{
    let poses = vec![
        RowCol { row: origin_row, col: origin_col + 1 },
        RowCol { row: origin_row + 1, col: origin_col },
        RowCol { row: origin_row + 1, col: origin_col + 1 },
        RowCol { row: origin_row + 1, col: origin_col + 2 },
    ];
    proof {
        let origin = Offset::at(origin_row as int, origin_col as int);
        assert(offsets_of(poses@) =~= spawned(Shape::Tee, origin).tiles);
        lemma_spawned_wf(Shape::Tee, origin);
    }
    Tetris::new(poses, RowCol { row: 1, col: 1 }, RowCol { row: 0, col: 0 }, 0, 2)
}

/// Spawns a zee, that turns about the right tile of its lower bar.
///
/// ```text
/// [ ][X][X]
/// [X][X][ ]
/// ```
pub fn build_zee_tetris(origin_row: usize, origin_col: usize) -> (piece: Tetris)
    requires
        origin_row + 1 <= COORD_MAX,
        origin_col + 2 <= COORD_MAX,
    ensures
        piece@ == spawned(Shape::Zee, Offset::at(origin_row as int, origin_col as int)),
        piece@.wf(),
{
    let poses = vec![
        RowCol { row: origin_row, col: origin_col + 1 },
        RowCol { row: origin_row, col: origin_col + 2 },
        RowCol { row: origin_row + 1, col: origin_col },
        RowCol { row: origin_row + 1, col: origin_col + 1 },
    ];
    proof {
        let origin = Offset::at(origin_row as int, origin_col as int);
        assert(offsets_of(poses@) =~= spawned(Shape::Zee, origin).tiles);
        lemma_spawned_wf(Shape::Zee, origin);
    }
    Tetris::new(poses, RowCol { row: 1, col: 1 }, RowCol { row: 0, col: 0 }, 0, 5)
}

/// Spawns a zaa, that turns about the right tile of its upper bar.
///
/// ```text
/// [X][X][ ]
/// [ ][X][X]
/// ```
pub fn build_zaa_tetris(origin_row: usize, origin_col: usize) -> (piece: Tetris)
    requires
        origin_row + 1 <= COORD_MAX,
        origin_col + 2 <= COORD_MAX,
    ensures
        piece@ == spawned(Shape::Zaa, Offset::at(origin_row as int, origin_col as int)),
        piece@.wf(),
{
    let poses = vec![
        RowCol { row: origin_row, col: origin_col },
        RowCol { row: origin_row, col: origin_col + 1 },
        RowCol { row: origin_row + 1, col: origin_col + 1 },
        RowCol { row: origin_row + 1, col: origin_col + 2 },
    ];
    proof {
        let origin = Offset::at(origin_row as int, origin_col as int);
        assert(offsets_of(poses@) =~= spawned(Shape::Zaa, origin).tiles);
        lemma_spawned_wf(Shape::Zaa, origin);
    }
    Tetris::new(poses, RowCol { row: 0, col: 1 }, RowCol { row: 0, col: 0 }, 0, 4)
}

/// Spawns a long piece, that turns about its second tile.
///
/// ```text
/// [X][X][X][X]
/// ```
pub fn build_long_tetris(origin_row: usize, origin_col: usize) -> (piece: Tetris)
    requires
        origin_row <= COORD_MAX,
        origin_col + 3 <= COORD_MAX,
    ensures
        piece@ == spawned(Shape::Long, Offset::at(origin_row as int, origin_col as int)),
        piece@.wf(),
{
    let poses = vec![
        RowCol { row: origin_row, col: origin_col },
        RowCol { row: origin_row, col: origin_col + 1 },
        RowCol { row: origin_row, col: origin_col + 2 },
        RowCol { row: origin_row, col: origin_col + 3 },
    ];
    proof {
        let origin = Offset::at(origin_row as int, origin_col as int);
        assert(offsets_of(poses@) =~= spawned(Shape::Long, origin).tiles);
        lemma_spawned_wf(Shape::Long, origin);
    }
    Tetris::new(poses, RowCol { row: 0, col: 1 }, RowCol { row: 0, col: 0 }, 0, 6)
}

/// Spawns a piece of the given shape.
pub fn build_tetris(shape: Shape, origin_row: usize, origin_col: usize) -> (piece: Tetris)
    requires
        can_spawn(shape, Offset::at(origin_row as int, origin_col as int)),
    ensures
        piece@ == spawned(shape, Offset::at(origin_row as int, origin_col as int)),
        piece@.wf(),
{
    match shape {
        Shape::Square => build_square_tetris(origin_row, origin_col),
        Shape::Tee => build_tee_tetris(origin_row, origin_col),
        Shape::Zaa => build_zaa_tetris(origin_row, origin_col),
        Shape::Zee => build_zee_tetris(origin_row, origin_col),
        Shape::Long => build_long_tetris(origin_row, origin_col),
    }
}

/// Spawns a piece of a shape drawn at random from the catalogue. Whatever is
/// drawn, the piece is one of the five, freshly spawned at the origin.
pub fn build_random_tetris(origin_row: usize, origin_col: usize) -> (piece: Tetris)
    requires
        origin_row + 1 <= COORD_MAX,
        origin_col + 3 <= COORD_MAX,
    ensures
        exists|number: int|
            0 <= number <= LAST_SHAPE && piece@ == spawned(
                #[trigger] shape_numbered(number),
                Offset::at(origin_row as int, origin_col as int),
            ),
        piece@.wf(),
{
    let mut rng = rand::thread_rng();
    let rand_num = gen_range_inclusive(&mut rng, 0, LAST_SHAPE);
    build_tetris(shape_of_number(rand_num), origin_row, origin_col)
}

} // verus!
