use tetris::score::{get_score, BASE_SCORE, BONUS_LINES, MAX_LINES};

#[test]
fn one_line_is_the_base_score() {
    assert_eq!(get_score(1), 1000);
    assert_eq!(get_score(1), BASE_SCORE);
}

#[test]
fn four_lines_are_worth_half_as_much_again() {
    assert_eq!(get_score(4), 6000);
    assert_eq!(get_score(4), 4 * BASE_SCORE * 3 / 2);
    assert_eq!(get_score(4) as f64, 4.0 * 1000.0 * 1.5);
}

#[test]
fn no_line_is_worth_nothing() {
    assert_eq!(get_score(0), 0);
}

#[test]
fn two_and_three_lines_are_paid_plainly() {
    assert_eq!(get_score(2), 2000);
    assert_eq!(get_score(3), 3000);
}

#[test]
fn the_bonus_is_paid_from_four_lines_on() {
    assert_eq!(BONUS_LINES, 4);
    assert_eq!(get_score(5), 7500);
    assert_eq!(get_score(20), 30000);
}

#[test]
fn the_raised_score_agrees_with_the_multiplier_cut_to_an_integer() {
    for lines in 4..=200 {
        assert_eq!(get_score(lines), ((lines * 1000) as f64 * 1.5) as i32);
    }
    for lines in -50..4 {
        assert_eq!(get_score(lines), (lines * 1000) as f64 as i32);
    }
}

#[test]
fn a_negative_count_is_paid_plainly() {
    assert_eq!(get_score(-1), -1000);
    assert_eq!(get_score(-MAX_LINES), -2_147_483_000);
}

#[test]
fn the_score_stops_at_the_largest_there_is() {
    assert_eq!(get_score(1_431_655), 2_147_482_500);
    assert_eq!(get_score(1_431_656), i32::MAX);
    assert_eq!(get_score(MAX_LINES), i32::MAX);
    assert_eq!(get_score(MAX_LINES), ((MAX_LINES * 1000) as f64 * 1.5) as i32);
}
