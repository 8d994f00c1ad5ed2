use protoboards::catalog::Catalog;
use protoboards::loader::parse_protoboards;
use protoboards::wizard::{run_wizard, WizardError};

fn chars(s: &str) -> Vec<char> {
    s.chars().collect()
}

fn lines(src: &[&str]) -> Vec<Vec<char>> {
    src.iter().map(|s| chars(s)).collect()
}

fn sample_catalog() -> Catalog {
    parse_protoboards(&lines(&[
        "Boards with t = 2",
        "Board #1",
        "XX..",
        "....",
        "..X.",
        "...X",
        "Board #2",
        "X...",
        ".X..",
        "..X.",
        "...X",
        "Boards with t = 3",
        "Board #1",
        "XXXX",
        "....",
        "....",
        "X..X",
    ]))
}

fn run(catalog: &Catalog, t: &str, id: &str, digits: &str) -> Result<Vec<Vec<u32>>, WizardError> {
    run_wizard(catalog, &chars(t), &chars(id), &chars(digits))
}

#[test]
fn full_run_fills_the_selected_board() {
    let catalog = sample_catalog();
    let board = run(&catalog, "2", "1", "1A2B").unwrap();
    assert_eq!(
        board,
        vec![
            vec![2, 1024, 0, 0],
            vec![0, 0, 0, 0],
            vec![0, 0, 4, 0],
            vec![0, 0, 0, 2048],
        ]
    );
}

#[test]
fn full_run_on_second_group() {
    let catalog = sample_catalog();
    let board = run(&catalog, "3", "1", "123456").unwrap();
    assert_eq!(
        board,
        vec![
            vec![2, 4, 8, 16],
            vec![0, 0, 0, 0],
            vec![0, 0, 0, 0],
            vec![32, 0, 0, 64],
        ]
    );
}

#[test]
fn length_mismatch_renders_no_board() {
    // The t=2 template with 5 filled cells, given only 4 digits.
    let catalog = parse_protoboards(&lines(&[
        "Boards with t = 2",
        "Board #1",
        "XXXX",
        "X...",
        "....",
        "....",
    ]));
    let r = run(&catalog, "2", "1", "1234");
    assert_eq!(r, Err(WizardError::LengthMismatch));
    assert_eq!(
        WizardError::LengthMismatch.message(),
        "Invalid base-11 ID length."
    );
}

#[test]
fn unparsable_t_fails() {
    let catalog = sample_catalog();
    assert_eq!(run(&catalog, "two", "1", "1"), Err(WizardError::InvalidTInput));
    assert_eq!(run(&catalog, "", "1", "1"), Err(WizardError::InvalidTInput));
    assert_eq!(run(&catalog, "-2", "1", "1"), Err(WizardError::InvalidTInput));
}

#[test]
fn unknown_t_fails() {
    let catalog = sample_catalog();
    assert_eq!(run(&catalog, "9", "1", "1"), Err(WizardError::UnknownT));
}

#[test]
fn unparsable_id_fails() {
    let catalog = sample_catalog();
    assert_eq!(run(&catalog, "2", "first", "1"), Err(WizardError::InvalidIdInput));
}

#[test]
fn unknown_id_fails() {
    let catalog = sample_catalog();
    assert_eq!(run(&catalog, "2", "99", "1"), Err(WizardError::UnknownId));
}

#[test]
fn duplicate_b_fails() {
    let catalog = sample_catalog();
    assert_eq!(run(&catalog, "2", "1", "B1B2"), Err(WizardError::DuplicateB));
}

#[test]
fn invalid_digit_fails() {
    let catalog = sample_catalog();
    assert_eq!(run(&catalog, "2", "1", "12C4"), Err(WizardError::InvalidDigit));
}

#[test]
fn plus_sign_is_accepted_by_number_parsing() {
    let catalog = sample_catalog();
    assert!(run(&catalog, "+2", "+1", "1111").is_ok());
}

#[test]
fn error_messages_match_the_diagnostics() {
    assert_eq!(WizardError::InvalidTInput.message(), "Invalid t value");
    assert_eq!(WizardError::UnknownT.message(), "Invalid t selected");
    assert_eq!(WizardError::InvalidIdInput.message(), "Invalid global ID");
    assert_eq!(WizardError::UnknownId.message(), "Invalid global ID.");
    assert_eq!(
        WizardError::DuplicateB.message(),
        "Invalid base-11 ID: more than one 'B'"
    );
    assert_eq!(WizardError::InvalidDigit.message(), "Invalid base-11 digit");
}
