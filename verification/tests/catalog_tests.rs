use protoboards::catalog::Catalog;
use protoboards::loader::parse_protoboards;

fn chars(s: &str) -> Vec<char> {
    s.chars().collect()
}

fn lines(src: &[&str]) -> Vec<Vec<char>> {
    src.iter().map(|s| chars(s)).collect()
}

fn grid(rows: &[&str]) -> Vec<Vec<char>> {
    rows.iter().map(|s| chars(s)).collect()
}

fn parse(src: &[&str]) -> Catalog {
    parse_protoboards(&lines(src))
}

#[test]
fn round_trip_grouping_two_groups_two_boards() {
    let catalog = parse(&[
        "Boards with t = 2",
        "Board #1",
        "XX..",
        "....",
        "Board #2",
        "X.X.",
        "....",
        "Boards with t = 3",
        "Board #1",
        "XXX.",
        "....",
        "Board #4",
        "..XX",
        "X...",
    ]);
    assert_eq!(catalog.groups.len(), 2);
    assert_eq!(catalog.groups[0].t, 2);
    assert_eq!(catalog.groups[1].t, 3);
    assert_eq!(catalog.groups[0].boards.len(), 2);
    assert_eq!(catalog.groups[1].boards.len(), 2);
    assert_eq!(catalog.groups[0].boards[0].id, 1);
    assert_eq!(catalog.groups[0].boards[0].rows, grid(&["XX..", "...."]));
    assert_eq!(catalog.groups[0].boards[1].id, 2);
    assert_eq!(catalog.groups[0].boards[1].rows, grid(&["X.X.", "...."]));
    assert_eq!(catalog.groups[1].boards[0].id, 1);
    assert_eq!(catalog.groups[1].boards[0].rows, grid(&["XXX.", "...."]));
    assert_eq!(catalog.groups[1].boards[1].id, 4);
    assert_eq!(catalog.groups[1].boards[1].rows, grid(&["..XX", "X..."]));
}

#[test]
fn t_values_sorted_ascending() {
    let catalog = parse(&[
        "Boards with t = 7",
        "Board #1",
        "X",
        "Boards with t = 2",
        "Board #1",
        "XX",
        "Boards with t = 5",
        "Board #1",
        "XXX",
    ]);
    assert_eq!(catalog.t_values(), vec![2, 5, 7]);
}

#[test]
fn id_ranges_are_contiguous_from_one() {
    let catalog = parse(&[
        "Boards with t = 1",
        "Board #1",
        "X",
        "Board #2",
        "X",
        "Boards with t = 2",
        "Board #1",
        "X",
        "Board #2",
        "X",
        "Board #3",
        "X",
        "Boards with t = 4",
        "Board #1",
        "X",
    ]);
    assert_eq!(catalog.id_range(1), Some((1, 2)));
    assert_eq!(catalog.id_range(2), Some((3, 5)));
    assert_eq!(catalog.id_range(4), Some((6, 6)));
    assert_eq!(catalog.id_range(3), None);
}

#[test]
fn lookup_matches_local_id_not_global_range() {
    // Local template IDs 5 and 7: the displayed global range is [1..=2],
    // yet only the local IDs resolve to a board.
    let catalog = parse(&[
        "Boards with t = 2",
        "Board #5",
        "X.",
        "Board #7",
        ".X",
    ]);
    assert_eq!(catalog.id_range(2), Some((1, 2)));
    assert_eq!(catalog.find_board(0, 5), Some(0));
    assert_eq!(catalog.find_board(0, 7), Some(1));
    assert_eq!(catalog.find_board(0, 1), None);
    assert_eq!(catalog.find_board(0, 2), None);
}

#[test]
fn duplicate_local_ids_resolve_to_first() {
    let catalog = parse(&[
        "Boards with t = 2",
        "Board #9",
        "X.",
        "Board #9",
        ".X",
    ]);
    assert_eq!(catalog.groups[0].boards.len(), 2);
    assert_eq!(catalog.find_board(0, 9), Some(0));
}

#[test]
fn unparsable_t_header_keeps_previous_t() {
    let catalog = parse(&[
        "Boards with t = 2",
        "Board #1",
        "X.",
        "Boards with t = oops",
        "Board #2",
        ".X",
    ]);
    assert_eq!(catalog.groups.len(), 1);
    assert_eq!(catalog.groups[0].t, 2);
    assert_eq!(catalog.groups[0].boards.len(), 2);
    assert_eq!(catalog.groups[0].boards[1].id, 2);
}

#[test]
fn unparsable_board_header_keeps_previous_id() {
    let catalog = parse(&[
        "Boards with t = 2",
        "Board #3",
        "X.",
        "Board #nope",
        ".X",
    ]);
    assert_eq!(catalog.groups[0].boards.len(), 2);
    assert_eq!(catalog.groups[0].boards[1].id, 3);
}

#[test]
fn rows_keep_only_cell_characters() {
    let catalog = parse(&[
        "Boards with t = 2",
        "Board #1",
        "| X . X |",
        "  note: no cells here  ",
        "...X",
    ]);
    assert_eq!(catalog.groups[0].boards[0].rows, grid(&["X.X", "...X"]));
}

#[test]
fn board_without_header_lines_goes_under_t_zero() {
    let catalog = parse(&["XX..", "..XX"]);
    assert_eq!(catalog.groups.len(), 1);
    assert_eq!(catalog.groups[0].t, 0);
    assert_eq!(catalog.groups[0].boards[0].id, 0);
    assert_eq!(catalog.groups[0].boards[0].rows, grid(&["XX..", "..XX"]));
}

#[test]
fn later_group_with_same_t_appends() {
    let catalog = parse(&[
        "Boards with t = 2",
        "Board #1",
        "X.",
        "Boards with t = 3",
        "Board #1",
        ".X",
        "Boards with t = 2",
        "Board #2",
        "XX",
    ]);
    assert_eq!(catalog.t_values(), vec![2, 3]);
    assert_eq!(catalog.groups[0].boards.len(), 2);
    assert_eq!(catalog.groups[0].boards[1].id, 2);
    assert_eq!(catalog.groups[1].boards.len(), 1);
}

#[test]
fn empty_input_gives_empty_catalog() {
    let catalog = parse(&[]);
    assert_eq!(catalog.groups.len(), 0);
    assert_eq!(catalog.t_values(), Vec::<u32>::new());
    assert_eq!(catalog.id_range(1), None);
}

#[test]
fn blank_lines_do_not_flush_a_board() {
    let catalog = parse(&[
        "Boards with t = 2",
        "Board #1",
        "X.",
        "",
        "   ",
        ".X",
    ]);
    assert_eq!(catalog.groups[0].boards.len(), 1);
    assert_eq!(catalog.groups[0].boards[0].rows, grid(&["X.", ".X"]));
}

#[test]
fn header_with_extra_text_after_number() {
    let catalog = parse(&[
        "Boards with t = 12 (large)",
        "Board #34 of many",
        "X.",
    ]);
    assert_eq!(catalog.groups[0].t, 12);
    assert_eq!(catalog.groups[0].boards[0].id, 34);
}
