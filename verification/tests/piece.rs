use tetris::builder::{build_tetris, Shape};
use tetris::models::grid::Grid;
use tetris::models::tetris::{RowCol, Tetris};

fn cell(row: usize, col: usize) -> RowCol {
    RowCol { row, col }
}

fn tee_tiles() -> Vec<RowCol> {
    vec![cell(0, 1), cell(1, 0), cell(1, 1), cell(1, 2)]
}

fn tee(shift: RowCol, spin: i32) -> Tetris {
    Tetris::new(tee_tiles(), cell(1, 1), shift, spin, 2)
}

fn all_shapes() -> Vec<Shape> {
    vec![Shape::Square, Shape::Tee, Shape::Zaa, Shape::Zee, Shape::Long]
}

#[test]
fn new_keeps_tiles_and_color() {
    let piece = tee(cell(5, 4), 0);
    assert_eq!(piece.get_tiles(), &tee_tiles());
    assert_eq!(piece.color, 2);
    assert_eq!(piece.get_color(), 2);
}

#[test]
fn get_poses_without_spin_adds_the_shift() {
    let piece = tee(cell(5, 4), 0);
    assert_eq!(piece.get_poses(), vec![cell(5, 5), cell(6, 4), cell(6, 5), cell(6, 6)]);
}

#[test]
fn get_poses_one_quarter_turn() {
    let piece = tee(cell(5, 4), 1);
    assert_eq!(piece.get_poses(), vec![cell(6, 4), cell(7, 5), cell(6, 5), cell(5, 5)]);
}

#[test]
fn get_poses_two_quarter_turns() {
    let piece = tee(cell(5, 4), 2);
    assert_eq!(piece.get_poses(), vec![cell(7, 5), cell(6, 6), cell(6, 5), cell(6, 4)]);
}

#[test]
fn get_poses_three_quarter_turns() {
    let piece = tee(cell(5, 4), 3);
    assert_eq!(piece.get_poses(), vec![cell(6, 6), cell(5, 5), cell(6, 5), cell(7, 5)]);
}

#[test]
fn get_poses_keeps_the_order_and_number_of_tiles() {
    let tiles = vec![cell(3, 3), cell(0, 0), cell(3, 3), cell(2, 1), cell(1, 1)];
    let piece = Tetris::new(tiles.clone(), cell(0, 0), cell(1, 2), 0, 9);
    assert_eq!(piece.get_poses(), vec![cell(4, 5), cell(1, 2), cell(4, 5), cell(3, 3), cell(2, 3)]);
    assert_eq!(piece.get_poses().len(), tiles.len());
}

#[test]
fn get_poses_is_computed_anew_after_each_change() {
    let grid = Grid::new();
    let mut piece = tee(cell(5, 4), 0);
    let before = piece.get_poses();
    assert!(piece.try_move_or_set_tetris(&grid.grid_vec, &(1, 0)));
    let moved = piece.get_poses();
    assert_ne!(before, moved);
    assert!(piece.try_spin_tetris(1, &grid));
    assert_ne!(moved, piece.get_poses());
}

#[test]
fn each_quarter_turn_maps_row_col_to_minus_col_row() {
    let shift = cell(8, 4);
    let pivot = (1 + 8i64, 1 + 4i64);
    for spin in 0..4 {
        let here = tee(shift, spin).get_poses();
        let there = tee(shift, (spin + 1) % 4).get_poses();
        for (a, b) in here.iter().zip(there.iter()) {
            let (r, c) = (a.row as i64 - pivot.0, a.col as i64 - pivot.1);
            assert_eq!((b.row as i64 - pivot.0, b.col as i64 - pivot.1), (-c, r));
        }
    }
}

#[test]
fn four_quarter_turns_return_every_shape_to_its_positions() {
    let grid = Grid::new();
    for shape in all_shapes() {
        for start in 0..4 {
            let mut piece = build_tetris(shape, 0, 0);
            for _ in 0..8 {
                assert!(piece.try_move_or_set_tetris(&grid.grid_vec, &(1, 0)));
            }
            for _ in 0..3 {
                assert!(piece.try_move_or_set_tetris(&grid.grid_vec, &(0, 1)));
            }
            for _ in 0..start {
                assert!(piece.try_spin_tetris(1, &grid));
            }
            let first = piece.get_poses();
            for _ in 0..4 {
                assert!(piece.try_spin_tetris(1, &grid));
            }
            assert_eq!(piece.get_poses(), first);
        }
    }
}

#[test]
fn four_quarter_turns_back_return_every_shape_to_its_positions() {
    let grid = Grid::new();
    for shape in all_shapes() {
        let mut piece = build_tetris(shape, 0, 0);
        for _ in 0..8 {
            assert!(piece.try_move_or_set_tetris(&grid.grid_vec, &(1, 0)));
        }
        for _ in 0..3 {
            assert!(piece.try_move_or_set_tetris(&grid.grid_vec, &(0, 1)));
        }
        let first = piece.get_poses();
        for _ in 0..4 {
            assert!(piece.try_spin_tetris(-1, &grid));
        }
        assert_eq!(piece.get_poses(), first);
    }
}

#[test]
fn a_turn_on_and_a_turn_back_cancel() {
    let grid = Grid::new();
    let mut piece = tee(cell(8, 4), 0);
    let first = piece.get_poses();
    assert!(piece.try_spin_tetris(1, &grid));
    assert!(piece.try_spin_tetris(-1, &grid));
    assert_eq!(piece.get_poses(), first);
}

#[test]
fn reset_returns_to_the_canonical_pose() {
    let grid = Grid::new();
    let mut piece = tee(cell(0, 0), 0);
    for _ in 0..6 {
        assert!(piece.try_move_or_set_tetris(&grid.grid_vec, &(1, 1)));
    }
    assert!(piece.try_spin_tetris(1, &grid));
    assert_ne!(piece.get_poses(), tee_tiles());
    piece.reset_tetris();
    assert_eq!(piece.get_poses(), tee_tiles());
    assert_eq!(piece.get_tiles(), &tee_tiles());
    assert_eq!(piece.color, 2);
}

#[test]
fn reset_of_a_fresh_piece_changes_nothing() {
    let mut piece = tee(cell(0, 0), 0);
    piece.reset_tetris();
    assert_eq!(piece.get_poses(), tee_tiles());
}

#[test]
fn clone_is_an_equal_and_separate_piece() {
    let grid = Grid::new();
    let mut piece = tee(cell(3, 2), 1);
    let copy = piece.clone();
    assert_eq!(copy.get_poses(), piece.get_poses());
    assert_eq!(copy.get_tiles(), piece.get_tiles());
    assert_eq!(copy.color, piece.color);
    assert!(piece.try_move_or_set_tetris(&grid.grid_vec, &(1, 0)));
    assert_eq!(copy.get_poses(), vec![cell(4, 2), cell(5, 3), cell(4, 3), cell(3, 3)]);
    assert_eq!(piece.get_poses(), vec![cell(5, 2), cell(6, 3), cell(5, 3), cell(4, 3)]);
}

#[test]
fn a_piece_of_one_tile_is_a_piece() {
    let piece = Tetris::new(vec![cell(19, 5)], cell(0, 0), cell(0, 0), 0, 3);
    assert_eq!(piece.get_poses(), vec![cell(19, 5)]);
}
