use buscaminas::input_error::InputError;
use buscaminas::mine_counter::MineCounter;

const BASIC: &str = ".*.*.\n..*..\n..*..\n.....\n";

#[test]
fn mine_counter_to_matrix_returns_correcly_with_square_board() {
    let matrix = MineCounter::to_matrix(".*\n*.\n");

    assert_eq!('.', matrix[0][0]);
    assert_eq!('*', matrix[0][1]);
    assert_eq!('*', matrix[1][0]);
    assert_eq!('.', matrix[1][1]);
}

#[test]
fn mine_counter_to_matrix_returns_correcly_with_rectangular_board() {
    let matrix = MineCounter::to_matrix(".*\n*.\n.*\n");

    assert_eq!('.', matrix[0][0]);
    assert_eq!('*', matrix[0][1]);
    assert_eq!('*', matrix[1][0]);
    assert_eq!('.', matrix[1][1]);
    assert_eq!('.', matrix[2][0]);
    assert_eq!('*', matrix[2][1]);
}

#[test]
fn mine_counter_adyacent_mines_returns_adyacent_mines_to_position_correctly() {
    let mine_counter = MineCounter::new_from_file(BASIC).unwrap();

    assert_eq!(0, mine_counter.adyacents_mines_to(3, 0));
    assert_eq!(1, mine_counter.adyacents_mines_to(0, 0));
    assert_eq!(2, mine_counter.adyacents_mines_to(2, 1));
    assert_eq!(3, mine_counter.adyacents_mines_to(0, 2));
}

#[test]
fn mine_counter_count_updates_board_with_adyacent_mines_count_for_empty_positons() {
    let mut mine_counter = MineCounter::new_from_file(BASIC).unwrap();
    mine_counter.count();

    assert_eq!('.', mine_counter.cell(3, 0));
    assert_eq!('*', mine_counter.cell(0, 1));
    assert_eq!('1', mine_counter.cell(0, 0));
    assert_eq!('2', mine_counter.cell(2, 1));
    assert_eq!('3', mine_counter.cell(0, 2));
}

#[test]
fn assert_is_valid_with_invalid_character_returns_error() {
    let board = vec![vec!['a', '.'], vec!['.', '*']];
    assert!(matches!(
        MineCounter::assert_is_valid_board(&board),
        Err(InputError::InvalidCharacter('a'))
    ));
}

#[test]
fn assert_is_valid_with_invalid_board_returns_error() {
    let board = vec![vec!['*', '.', '.'], vec!['*', '.']];
    assert!(matches!(
        MineCounter::assert_is_valid_board(&board),
        Err(InputError::InvalidBoard)
    ));
}

#[test]
fn assert_is_valid_with_empty_board_returns_errror() {
    let board: Vec<Vec<char>> = vec![];
    assert!(matches!(
        MineCounter::assert_is_valid_board(&board),
        Err(InputError::EmptyBoard)
    ));
}

#[test]
fn mine_counter_from_file_counts_mines() {
    let mine_counter = MineCounter::from_file(BASIC).unwrap();
    assert_eq!("1*3*1\n13*31\n.2*2.\n.111.\n", mine_counter.to_file());
    assert_eq!(5, mine_counter.width());
    assert_eq!(4, mine_counter.height());
}

#[test]
fn mine_counter_from_file_reports_errors() {
    assert!(matches!(MineCounter::from_file(""), Err(InputError::EmptyBoard)));
    assert!(matches!(MineCounter::from_file("*..\n*.\n"), Err(InputError::InvalidBoard)));
    assert!(matches!(
        MineCounter::from_file(".A\n.."),
        Err(InputError::InvalidCharacter('A'))
    ));
}

#[test]
fn mine_counter_new_from_file_leaves_board_unannotated() {
    let mine_counter = MineCounter::new_from_file(BASIC).unwrap();
    assert_eq!(BASIC, mine_counter.to_file());
}

#[test]
fn mine_counter_single_cells() {
    assert_eq!(".\n", MineCounter::from_file(".").unwrap().to_file());
    assert_eq!("*\n", MineCounter::from_file("*").unwrap().to_file());
}
