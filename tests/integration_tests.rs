use buscaminas::board::Board;
use buscaminas::input_error::InputError;

const BASIC: &str = ".*.*.\n..*..\n..*..\n.....\n";

#[test]
fn valid_board_displays_correctly() {
    let mine_counter = Board::from_file(BASIC).unwrap();

    assert_eq!(".*.*.\n..*..\n..*..\n.....\n", mine_counter.to_string())
}

#[test]
fn valid_board_counts_mines_correctly() {
    let mut mine_counter = Board::from_file(BASIC).unwrap();
    mine_counter.count_mines();
    assert_eq!("1*3*1\n13*31\n.2*2.\n.111.\n", mine_counter.to_string())
}

#[test]
fn loading_board_with_invalid_character_returns_corresponding_error() {
    let mine_counter = Board::from_file(".*.*.\n..*..\n..A..\n.....\n");
    assert!(matches!(
        mine_counter,
        Err(InputError::InvalidCharacter('A'))
    ));
}

#[test]
fn loading_board_with_invalid_board_returns_corresponding_error() {
    let mine_counter = Board::from_file("*..\n*.\n");
    assert!(matches!(mine_counter, Err(InputError::InvalidBoard)));
}

#[test]
fn loading_empty_board_returns_corresponding_error() {
    let mine_counter = Board::from_file("");
    assert!(matches!(mine_counter, Err(InputError::EmptyBoard)));
}

#[test]
fn first_invalid_character_in_row_major_order_is_reported() {
    let result = Board::from_file("..b\nA..\n");
    assert!(matches!(result, Err(InputError::InvalidCharacter('b'))));
    let result = Board::from_file("...\n.AB\n");
    assert!(matches!(result, Err(InputError::InvalidCharacter('A'))));
}

#[test]
fn invalid_character_anywhere_wins_over_uneven_rows() {
    let result = Board::from_file("..\n.\n..A\n");
    assert!(matches!(result, Err(InputError::InvalidCharacter('A'))));
}

#[test]
fn non_ascii_character_is_reported_whole() {
    let result = Board::from_file(".é\n..\n");
    assert!(matches!(result, Err(InputError::InvalidCharacter('é'))));
}

#[test]
fn reading_and_counting_is_deterministic() {
    let text = ".*.*.\n..*..\n..*..\n.....\n";
    let mut first = Board::from_file(text).unwrap();
    first.count_mines();
    let mut second = Board::from_file(text).unwrap();
    second.count_mines();
    assert_eq!(first.to_string(), second.to_string());
}
