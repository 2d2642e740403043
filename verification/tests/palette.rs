use tetris::palette::{get_cell, get_text, Lettering, Tint, SHADOW};

#[test]
fn each_cell_value_has_its_tint() {
    assert_eq!(get_cell(0), Tint::White);
    assert_eq!(get_cell(1), Tint::Red);
    assert_eq!(get_cell(2), Tint::Green);
    assert_eq!(get_cell(3), Tint::Blue);
    assert_eq!(get_cell(4), Tint::Purple);
    assert_eq!(get_cell(5), Tint::Cyan);
    assert_eq!(get_cell(6), Tint::BrightBlue);
    assert_eq!(get_cell(7), Tint::DarkGrey);
    assert_eq!(get_cell(SHADOW), Tint::DarkGrey);
}

#[test]
fn an_unknown_cell_value_is_white() {
    assert_eq!(get_cell(8), Tint::White);
    assert_eq!(get_cell(usize::MAX), Tint::White);
}

#[test]
fn each_caption_has_its_lettering() {
    assert_eq!(get_text(0), Lettering::WhiteOnBlue);
    assert_eq!(get_text(1), Lettering::BlackOnWhite);
    assert_eq!(get_text(2), Lettering::BoldWhiteOnBlue);
    assert_eq!(get_text(3), Lettering::White);
    assert_eq!(get_text(usize::MAX), Lettering::White);
}
