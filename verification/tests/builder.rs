use tetris::builder::{
    build_long_tetris, build_random_tetris, build_square_tetris, build_tee_tetris, build_tetris, build_zaa_tetris,
    build_zee_tetris, shape_of_number, Shape, LAST_SHAPE,
};
use tetris::models::tetris::{RowCol, Tetris};

fn p(row: usize, col: usize) -> RowCol {
    RowCol { row, col }
}

fn catalogue() -> Vec<(Shape, Vec<RowCol>, usize)> {
    vec![
        (Shape::Square, vec![p(0, 0), p(0, 0), p(1, 0), p(0, 1), p(1, 1)], 1),
        (Shape::Tee, vec![p(0, 1), p(1, 0), p(1, 1), p(1, 2)], 2),
        (Shape::Zaa, vec![p(0, 0), p(0, 1), p(1, 1), p(1, 2)], 4),
        (Shape::Zee, vec![p(0, 1), p(0, 2), p(1, 0), p(1, 1)], 5),
        (Shape::Long, vec![p(0, 0), p(0, 1), p(0, 2), p(0, 3)], 6),
    ]
}

fn is_fresh(piece: &Tetris, tiles: &Vec<RowCol>, color: usize) {
    assert_eq!(piece.get_tiles(), tiles);
    assert_eq!(&piece.get_poses(), tiles);
    assert_eq!(piece.color, color);
}

#[test]
fn square_at_the_corner() {
    is_fresh(&build_square_tetris(0, 0), &vec![p(0, 0), p(0, 0), p(1, 0), p(0, 1), p(1, 1)], 1);
}

#[test]
fn tee_at_the_corner() {
    is_fresh(&build_tee_tetris(0, 0), &vec![p(0, 1), p(1, 0), p(1, 1), p(1, 2)], 2);
}

#[test]
fn zee_at_the_corner() {
    is_fresh(&build_zee_tetris(0, 0), &vec![p(0, 1), p(0, 2), p(1, 0), p(1, 1)], 5);
}

#[test]
fn zaa_at_the_corner() {
    is_fresh(&build_zaa_tetris(0, 0), &vec![p(0, 0), p(0, 1), p(1, 1), p(1, 2)], 4);
}

#[test]
fn long_at_the_corner() {
    is_fresh(&build_long_tetris(0, 0), &vec![p(0, 0), p(0, 1), p(0, 2), p(0, 3)], 6);
}

#[test]
fn the_origin_is_added_to_every_tile() {
    is_fresh(&build_square_tetris(2, 3), &vec![p(2, 3), p(2, 3), p(3, 3), p(2, 4), p(3, 4)], 1);
    is_fresh(&build_tee_tetris(2, 3), &vec![p(2, 4), p(3, 3), p(3, 4), p(3, 5)], 2);
    is_fresh(&build_zee_tetris(2, 3), &vec![p(2, 4), p(2, 5), p(3, 3), p(3, 4)], 5);
    is_fresh(&build_zaa_tetris(2, 3), &vec![p(2, 3), p(2, 4), p(3, 4), p(3, 5)], 4);
    is_fresh(&build_long_tetris(2, 3), &vec![p(2, 3), p(2, 4), p(2, 5), p(2, 6)], 6);
}

#[test]
fn a_fresh_piece_is_in_its_canonical_pose() {
    for (shape, _, _) in catalogue() {
        let mut piece = build_tetris(shape, 0, 0);
        let fresh = piece.get_poses();
        piece.reset_tetris();
        assert_eq!(piece.get_poses(), fresh);
    }
}

#[test]
fn each_shape_turns_about_its_centre() {
    let grid = tetris::models::grid::Grid::new();
    let centres = vec![(0i64, 0i64), (1, 1), (0, 1), (1, 1), (0, 1)];
    for ((shape, tiles, _), centre) in catalogue().into_iter().zip(centres) {
        let mut piece = build_tetris(shape, 0, 0);
        assert!(piece.try_move_or_set_tetris(&grid.grid_vec, &(8, 4)));
        assert!(piece.try_spin_tetris(1, &grid));
        let wanted: Vec<RowCol> = tiles
            .iter()
            .map(|t| {
                let (r, c) = (t.row as i64 - centre.0, t.col as i64 - centre.1);
                p((-c + centre.0 + 8) as usize, (r + centre.1 + 4) as usize)
            })
            .collect();
        assert_eq!(piece.get_poses(), wanted);
    }
}

#[test]
fn build_tetris_spawns_the_shape_asked_for() {
    for (shape, tiles, color) in catalogue() {
        is_fresh(&build_tetris(shape, 0, 0), &tiles, color);
    }
}

#[test]
fn the_shapes_are_numbered_in_the_order_of_the_catalogue() {
    assert_eq!(shape_of_number(0), Shape::Square);
    assert_eq!(shape_of_number(1), Shape::Tee);
    assert_eq!(shape_of_number(2), Shape::Zaa);
    assert_eq!(shape_of_number(3), Shape::Zee);
    assert_eq!(shape_of_number(4), Shape::Long);
    assert_eq!(LAST_SHAPE, 4);
}

#[test]
fn any_other_number_is_the_zee() {
    assert_eq!(shape_of_number(5), Shape::Zee);
    assert_eq!(shape_of_number(-1), Shape::Zee);
    assert_eq!(shape_of_number(i32::MAX), Shape::Zee);
    assert_eq!(shape_of_number(i32::MIN), Shape::Zee);
}

#[test]
fn a_random_piece_is_a_fresh_piece_of_the_catalogue() {
    for _ in 0..200 {
        let piece = build_random_tetris(0, 0);
        let known = catalogue()
            .into_iter()
            .any(|(_, tiles, color)| piece.get_tiles() == &tiles && piece.color == color && piece.get_poses() == tiles);
        assert!(known);
    }
}

#[test]
fn a_random_piece_at_an_origin_is_a_fresh_piece_there() {
    for _ in 0..50 {
        let piece = build_random_tetris(5, 2);
        let known = catalogue().into_iter().any(|(shape, _, color)| {
            let there = build_tetris(shape, 5, 2);
            piece.get_tiles() == there.get_tiles() && piece.color == color && piece.get_poses() == there.get_poses()
        });
        assert!(known);
    }
}

#[test]
fn random_pieces_are_not_all_of_one_shape() {
    let mut seen = vec![false; 7];
    for _ in 0..600 {
        seen[build_random_tetris(0, 0).color] = true;
    }
    assert!(seen[1] && seen[2] && seen[4] && seen[5] && seen[6]);
    assert!(!seen[0] && !seen[3]);
}
