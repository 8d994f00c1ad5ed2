use protoboards::base11::{parse_base11, Base11Error};
use protoboards::grid::{count_filled, fill_board, tile_value};
use protoboards::render::{render_board, render_board_with_values};

fn chars(s: &str) -> Vec<char> {
    s.chars().collect()
}

fn grid(rows: &[&str]) -> Vec<Vec<char>> {
    rows.iter().map(|s| chars(s)).collect()
}

#[test]
fn count_filled_matches_x_characters() {
    assert_eq!(count_filled(&grid(&["X.X.", "....", "XXXX", "...X"])), 7);
    assert_eq!(count_filled(&grid(&["....", "....", "....", "...."])), 0);
    assert_eq!(count_filled(&grid(&["XXXX", "XXXX", "XXXX", "XXXX"])), 16);
    assert_eq!(count_filled(&grid(&[])), 0);
    assert_eq!(count_filled(&grid(&["X.", ".X"])), 2);
}

#[test]
fn decode_single_digits() {
    assert_eq!(parse_base11(&chars("1")), Ok(vec![1]));
    assert_eq!(parse_base11(&chars("A")), Ok(vec![10]));
    assert_eq!(parse_base11(&chars("B")), Ok(vec![11]));
    assert_eq!(parse_base11(&chars("9")), Ok(vec![9]));
}

#[test]
fn decode_rejects_duplicate_b() {
    assert_eq!(parse_base11(&chars("BB")), Err(Base11Error::DuplicateB));
    assert_eq!(parse_base11(&chars("1B2B")), Err(Base11Error::DuplicateB));
}

#[test]
fn decode_rejects_invalid_digit() {
    assert_eq!(parse_base11(&chars("C")), Err(Base11Error::InvalidDigit));
    assert_eq!(parse_base11(&chars("0")), Err(Base11Error::InvalidDigit));
    assert_eq!(parse_base11(&chars("1a")), Err(Base11Error::InvalidDigit));
    assert_eq!(parse_base11(&chars("12 3")), Err(Base11Error::InvalidDigit));
}

#[test]
fn duplicate_b_is_reported_before_invalid_digit() {
    assert_eq!(parse_base11(&chars("B?B")), Err(Base11Error::DuplicateB));
}

#[test]
fn decode_empty_string() {
    assert_eq!(parse_base11(&chars("")), Ok(Vec::new()));
}

#[test]
fn decode_whole_alphabet() {
    assert_eq!(
        parse_base11(&chars("123456789AB")),
        Ok(vec![1, 2, 3, 4, 5, 6, 7, 8, 9, 10, 11])
    );
}

#[test]
fn tile_values_are_powers_of_two() {
    assert_eq!(tile_value(1), 2);
    assert_eq!(tile_value(2), 4);
    assert_eq!(tile_value(9), 512);
    assert_eq!(tile_value(10), 1024);
    assert_eq!(tile_value(11), 2048);
}

#[test]
fn fill_order_is_row_major() {
    let proto = grid(&["X.", ".X"]);
    let board = fill_board(&proto, &vec![1, 2]);
    assert_eq!(board, vec![vec![2, 0], vec![0, 4]]);
}

#[test]
fn fill_full_grid() {
    let proto = grid(&["XX..", "....", "..X.", "...X"]);
    let board = fill_board(&proto, &vec![1, 10, 11, 5]);
    assert_eq!(
        board,
        vec![
            vec![2, 1024, 0, 0],
            vec![0, 0, 0, 0],
            vec![0, 0, 2048, 0],
            vec![0, 0, 0, 32],
        ]
    );
}

#[test]
fn render_protoboard_rows() {
    let lines = render_board(&grid(&["X.", ".X"]));
    let text: Vec<String> = lines.iter().map(|l| l.iter().collect()).collect();
    assert_eq!(text, vec!["X . ".to_string(), ". X ".to_string()]);
}

#[test]
fn render_filled_board_rows() {
    let board = vec![vec![2, 0], vec![0, 2048]];
    let lines = render_board_with_values(&board);
    let text: Vec<String> = lines.iter().map(|l| l.iter().collect()).collect();
    assert_eq!(text, vec!["2 . ".to_string(), ". 2048 ".to_string()]);
}

#[test]
fn count_filled_equals_x_characters_of_source_lines() {
    // Rows reach the catalog with every character but 'X' and '.' removed;
    // the filled-cell count still equals the 'X' count of the source text.
    let source = ["Boards with t = 2", "Board #1", " X x . X|", "X..X."];
    let catalog =
        protoboards::loader::parse_protoboards(&source.iter().map(|s| chars(s)).collect());
    let board = &catalog.groups[0].boards[0].rows;
    let x_in_source: usize = source[2..].iter().map(|l| l.matches('X').count()).sum();
    assert_eq!(count_filled(board), x_in_source);
    assert_eq!(count_filled(board), 4);
}
