use tetris::builder::{build_long_tetris, build_square_tetris, build_tee_tetris, build_zee_tetris};
use tetris::models::grid::Grid;
use tetris::models::tetris::RowCol;

fn rc(row: usize, col: usize) -> RowCol {
    RowCol { row, col }
}

fn full_grid_but(free: &[RowCol]) -> Grid {
    let mut grid = Grid { grid_vec: vec![vec![8; 10]; 20] };
    for cell in free {
        grid.grid_vec[cell.row][cell.col] = 0;
    }
    grid
}

#[test]
fn tee_at_the_left_wall_turns_by_bounds_correction() {
    let grid = Grid::new();
    let mut piece = build_tee_tetris(0, 0);
    for _ in 0..5 {
        assert!(piece.try_move_or_set_tetris(&grid.grid_vec, &(1, 0)));
    }
    assert!(piece.try_spin_tetris(-1, &grid));
    assert_eq!(piece.get_poses(), vec![rc(6, 2), rc(5, 1), rc(6, 1), rc(7, 1)]);
    assert!(piece.try_move_or_set_tetris(&grid.grid_vec, &(0, -1)));
    assert_eq!(piece.get_poses(), vec![rc(6, 1), rc(5, 0), rc(6, 0), rc(7, 0)]);
    assert!(piece.try_spin_tetris(1, &grid));
    assert_eq!(piece.get_poses(), vec![rc(5, 1), rc(6, 0), rc(6, 1), rc(6, 2)]);
    for tile in piece.get_poses() {
        assert!(tile.col <= 9);
    }
}

#[test]
fn long_at_the_floor_is_pushed_up() {
    let grid = Grid::new();
    let mut piece = build_long_tetris(0, 0);
    piece.drop_tetris(&grid.grid_vec);
    assert_eq!(piece.get_poses(), vec![rc(19, 0), rc(19, 1), rc(19, 2), rc(19, 3)]);
    assert!(piece.try_spin_tetris(1, &grid));
    assert_eq!(piece.get_poses(), vec![rc(19, 1), rc(18, 1), rc(17, 1), rc(16, 1)]);
}

#[test]
fn long_at_the_top_is_pushed_down_by_the_furthest_tile() {
    let grid = Grid::new();
    let mut piece = build_long_tetris(0, 0);
    assert!(piece.try_spin_tetris(1, &grid));
    assert_eq!(piece.get_poses(), vec![rc(3, 1), rc(2, 1), rc(1, 1), rc(0, 1)]);
}

#[test]
fn long_at_the_right_wall_is_pushed_left() {
    let grid = Grid::new();
    let mut piece = build_long_tetris(0, 0);
    for _ in 0..5 {
        assert!(piece.try_move_or_set_tetris(&grid.grid_vec, &(1, 0)));
    }
    assert!(piece.try_spin_tetris(-1, &grid));
    assert_eq!(piece.get_poses(), vec![rc(4, 1), rc(5, 1), rc(6, 1), rc(7, 1)]);
    for _ in 0..8 {
        assert!(piece.try_move_or_set_tetris(&grid.grid_vec, &(0, 1)));
    }
    assert_eq!(piece.get_poses(), vec![rc(4, 9), rc(5, 9), rc(6, 9), rc(7, 9)]);
    assert!(piece.try_spin_tetris(-1, &grid));
    assert_eq!(piece.get_poses(), vec![rc(5, 9), rc(5, 8), rc(5, 7), rc(5, 6)]);
}

#[test]
fn a_turn_in_the_open_needs_no_kick() {
    let grid = Grid::new();
    let mut piece = build_tee_tetris(0, 0);
    assert!(piece.try_move_or_set_tetris(&grid.grid_vec, &(5, 3)));
    assert_eq!(piece.get_poses(), vec![rc(5, 4), rc(6, 3), rc(6, 4), rc(6, 5)]);
    assert!(piece.try_spin_tetris(1, &grid));
    assert_eq!(piece.get_poses(), vec![rc(6, 3), rc(7, 4), rc(6, 4), rc(5, 4)]);
}

#[test]
fn a_turn_back_from_the_canonical_pose_is_the_fourth_orientation() {
    let grid = Grid::new();
    let mut piece = build_tee_tetris(0, 0);
    assert!(piece.try_move_or_set_tetris(&grid.grid_vec, &(5, 3)));
    assert!(piece.try_spin_tetris(-1, &grid));
    assert_eq!(piece.get_poses(), vec![rc(6, 5), rc(5, 4), rc(6, 4), rc(7, 4)]);
}

#[test]
fn the_second_kick_is_one_column_right() {
    let mut grid = Grid::new();
    grid.grid_vec[7][4] = 9;
    let mut piece = build_tee_tetris(0, 0);
    assert!(piece.try_move_or_set_tetris(&grid.grid_vec, &(5, 3)));
    assert!(piece.try_spin_tetris(1, &grid));
    assert_eq!(piece.get_poses(), vec![rc(6, 4), rc(7, 5), rc(6, 5), rc(5, 5)]);
}

#[test]
fn the_third_kick_is_one_down_and_one_right() {
    let mut grid = Grid::new();
    grid.grid_vec[5][4] = 9;
    grid.grid_vec[5][5] = 9;
    let mut piece = build_tee_tetris(0, 0);
    assert!(piece.try_move_or_set_tetris(&Grid::new().grid_vec, &(5, 3)));
    assert_eq!(piece.get_poses(), vec![rc(5, 4), rc(6, 3), rc(6, 4), rc(6, 5)]);
    assert!(piece.try_spin_tetris(1, &grid));
    assert_eq!(piece.get_poses(), vec![rc(7, 4), rc(8, 5), rc(7, 5), rc(6, 5)]);
}

#[test]
fn each_kick_wins_where_only_it_fits() {
    let kicks: [(i64, i64); 9] = [(0, 0), (0, 1), (1, 1), (1, 0), (1, -1), (0, -1), (-1, -1), (-1, 0), (-1, 1)];
    let turned: [(i64, i64); 4] = [(6, 3), (7, 4), (6, 4), (5, 4)];
    for kick in kicks {
        let target: Vec<RowCol> =
            turned.iter().map(|t| rc((t.0 + kick.0) as usize, (t.1 + kick.1) as usize)).collect();
        let grid = full_grid_but(&target);
        let mut piece = build_tee_tetris(0, 0);
        assert!(piece.try_move_or_set_tetris(&Grid::new().grid_vec, &(5, 3)));
        assert!(piece.try_spin_tetris(1, &grid));
        assert_eq!(piece.get_poses(), target);
    }
}

#[test]
fn the_kicks_are_tried_in_their_order() {
    let kicks: [(i64, i64); 9] = [(0, 0), (0, 1), (1, 1), (1, 0), (1, -1), (0, -1), (-1, -1), (-1, 0), (-1, 1)];
    let turned: [(i64, i64); 4] = [(6, 3), (7, 4), (6, 4), (5, 4)];
    for first in 0..9 {
        let mut grid = Grid::new();
        for kick in &kicks[..first] {
            let blocked = (turned[1].0 + kick.0, turned[1].1 + kick.1);
            grid.grid_vec[blocked.0 as usize][blocked.1 as usize] = 9;
        }
        let mut wanted = None;
        for kick in kicks {
            let cells: Vec<RowCol> =
                turned.iter().map(|t| rc((t.0 + kick.0) as usize, (t.1 + kick.1) as usize)).collect();
            if cells.iter().all(|c| grid.grid_vec[c.row][c.col] == 0) {
                wanted = Some(cells);
                break;
            }
        }
        let mut piece = build_tee_tetris(0, 0);
        assert!(piece.try_move_or_set_tetris(&Grid::new().grid_vec, &(5, 3)));
        let before = piece.get_poses();
        match wanted {
            Some(cells) => {
                assert!(piece.try_spin_tetris(1, &grid));
                assert_eq!(piece.get_poses(), cells);
            }
            None => {
                assert!(!piece.try_spin_tetris(1, &grid));
                assert_eq!(piece.get_poses(), before);
            }
        }
    }
}

#[test]
fn a_turn_that_fits_nowhere_fails_and_changes_nothing() {
    let open = vec![rc(5, 4), rc(6, 3), rc(6, 4), rc(6, 5)];
    let grid = full_grid_but(&open);
    let mut piece = build_tee_tetris(0, 0);
    assert!(piece.try_move_or_set_tetris(&Grid::new().grid_vec, &(5, 3)));
    assert_eq!(piece.get_poses(), open);
    assert!(!piece.try_spin_tetris(1, &grid));
    assert_eq!(piece.get_poses(), open);
    assert!(!piece.try_spin_tetris(-1, &grid));
    assert_eq!(piece.get_poses(), open);
    assert!(piece.try_spin_tetris(1, &Grid::new()));
    assert_eq!(piece.get_poses(), vec![rc(6, 3), rc(7, 4), rc(6, 4), rc(5, 4)]);
}

#[test]
fn a_failed_turn_leaves_the_piece_to_be_played() {
    let open = vec![rc(5, 4), rc(6, 3), rc(6, 4), rc(6, 5), rc(7, 3), rc(7, 4), rc(7, 5)];
    let grid = full_grid_but(&open[..4]);
    let lower = full_grid_but(&open);
    let mut piece = build_tee_tetris(0, 0);
    assert!(piece.try_move_or_set_tetris(&Grid::new().grid_vec, &(5, 3)));
    assert!(!piece.try_spin_tetris(1, &grid));
    assert!(piece.try_move_or_set_tetris(&lower.grid_vec, &(1, 0)));
    assert_eq!(piece.get_poses(), vec![rc(6, 4), rc(7, 3), rc(7, 4), rc(7, 5)]);
}

#[test]
fn a_kick_that_leaves_the_board_is_passed_over() {
    let open = Grid::new();
    let mut grid = Grid::new();
    grid.grid_vec[6][2] = 9;
    grid.grid_vec[7][1] = 9;
    let mut piece = build_tee_tetris(0, 0);
    assert!(piece.try_move_or_set_tetris(&open.grid_vec, &(5, 0)));
    assert!(piece.try_spin_tetris(-1, &open));
    assert!(piece.try_move_or_set_tetris(&open.grid_vec, &(0, -1)));
    assert_eq!(piece.get_poses(), vec![rc(6, 1), rc(5, 0), rc(6, 0), rc(7, 0)]);
    assert!(piece.try_spin_tetris(1, &grid));
    assert_eq!(piece.get_poses(), vec![rc(4, 1), rc(5, 0), rc(5, 1), rc(5, 2)]);
}

#[test]
fn the_kick_comes_on_top_of_the_bounds_correction() {
    let mut grid = Grid::new();
    grid.grid_vec[1][0] = 9;
    let mut piece = build_square_tetris(0, 0);
    assert!(piece.try_spin_tetris(1, &grid));
    assert_eq!(piece.get_poses(), vec![rc(1, 1), rc(1, 1), rc(1, 2), rc(0, 1), rc(0, 2)]);
}

#[test]
fn a_turn_near_the_stack_is_kicked_off_it() {
    let mut grid = Grid::new();
    for col in 0..10 {
        grid.grid_vec[19][col] = 3;
    }
    grid.grid_vec[19][9] = 0;
    let mut piece = build_zee_tetris(0, 0);
    piece.drop_tetris(&grid.grid_vec);
    assert_eq!(piece.get_poses(), vec![rc(17, 1), rc(17, 2), rc(18, 0), rc(18, 1)]);
    assert!(piece.try_spin_tetris(1, &grid));
    assert_eq!(piece.get_poses(), vec![rc(17, 0), rc(16, 0), rc(18, 1), rc(17, 1)]);
}
