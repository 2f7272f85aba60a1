use tictactoe::board::Board;
use tictactoe::enums::Cell;
use tictactoe::input::{
    chars_of, is_whitespace, parse_number, player_move, select_cell, trim, InputError,
};

const X: Cell = Cell::X;
const O: Cell = Cell::O;
const E: Cell = Cell::Empty;

#[test]
fn a_digit_names_the_cell_before_it() {
    let board: Board = [E; 9];
    assert_eq!(player_move(&board, "1"), Ok(0));
    assert_eq!(player_move(&board, "5"), Ok(4));
    assert_eq!(player_move(&board, "9"), Ok(8));
}

#[test]
fn white_space_around_the_number_is_ignored() {
    let board: Board = [E; 9];
    assert_eq!(player_move(&board, "5\n"), Ok(4));
    assert_eq!(player_move(&board, "  5 \r\n"), Ok(4));
    assert_eq!(player_move(&board, "\t7\u{a0}\u{3000}"), Ok(6));
}

#[test]
fn a_plus_sign_and_leading_zeros_are_accepted() {
    let board: Board = [E; 9];
    assert_eq!(player_move(&board, "+5"), Ok(4));
    assert_eq!(player_move(&board, "005"), Ok(4));
    assert_eq!(player_move(&board, "+0009\n"), Ok(8));
}

#[test]
fn text_that_is_no_number_is_turned_down() {
    let board: Board = [E; 9];
    for text in ["", "\n", "   ", "abc", "5a", "a5", "5 5", "-1", "-0", "+", "++5", "+ 5", "5.0", "1_0", "٥"] {
        assert_eq!(player_move(&board, text), Err(InputError::NotANumber), "{:?}", text);
    }
}

#[test]
fn a_number_too_large_for_the_machine_is_no_number() {
    let board: Board = [E; 9];
    let largest = format!("{}", usize::MAX);
    assert_eq!(parse_number(&largest), Some(usize::MAX));
    assert_eq!(player_move(&board, &largest), Err(InputError::Unavailable));
    let beyond = format!("{}0", usize::MAX);
    assert_eq!(parse_number(&beyond), None);
    assert_eq!(player_move(&board, &beyond), Err(InputError::NotANumber));
    let next = format!("{}", usize::MAX as u128 + 1);
    assert_eq!(player_move(&board, &next), Err(InputError::NotANumber));
    assert_eq!(player_move(&board, "99999999999999999999999999999999"), Err(InputError::NotANumber));
}

#[test]
fn a_number_off_the_board_is_unavailable() {
    let board: Board = [E; 9];
    assert_eq!(player_move(&board, "0"), Err(InputError::Unavailable));
    assert_eq!(player_move(&board, "10"), Err(InputError::Unavailable));
    assert_eq!(player_move(&board, "12345"), Err(InputError::Unavailable));
}

#[test]
fn a_taken_cell_is_unavailable() {
    let board: Board = [X, E, E, E, O, E, E, E, E];
    assert_eq!(player_move(&board, "1"), Err(InputError::Unavailable));
    assert_eq!(player_move(&board, "5"), Err(InputError::Unavailable));
    assert_eq!(player_move(&board, "2"), Ok(1));
}

#[test]
fn select_cell_checks_range_and_emptiness() {
    let board: Board = [X, E, E, E, O, E, E, E, E];
    assert_eq!(select_cell(&board, 0), Err(InputError::Unavailable));
    assert_eq!(select_cell(&board, 1), Err(InputError::Unavailable));
    assert_eq!(select_cell(&board, 2), Ok(1));
    assert_eq!(select_cell(&board, 9), Ok(8));
    assert_eq!(select_cell(&board, 10), Err(InputError::Unavailable));
    assert_eq!(select_cell(&board, usize::MAX), Err(InputError::Unavailable));
}

#[test]
fn parse_number_reads_like_the_standard_library() {
    let samples = [
        "", " ", "0", "1", "9", "10", "007", "+3", "-3", "+", "-", "+-3", "3+", " 42 ", "\n42\n",
        "4 2", "42x", "x42", "4294967295", "4294967296", "18446744073709551615",
        "18446744073709551616", "184467440737095516150", "\u{2003}8\u{2003}", "\u{200b}8", "８",
        "1e3", "0x10", "٣", " +08 ", "+ 8", "\u{85}6\u{1680}", "000000000000000000000000000001",
    ];
    for text in samples {
        assert_eq!(parse_number(text), text.trim().parse::<usize>().ok(), "{:?}", text);
    }
}

#[test]
fn white_space_is_what_the_standard_library_calls_so() {
    for code in 0..=0x10FFFFu32 {
        if let Some(c) = char::from_u32(code) {
            assert_eq!(is_whitespace(c), c.is_whitespace(), "U+{:04X}", code);
        }
    }
}

#[test]
fn trim_finds_the_inner_span() {
    assert_eq!(trim(&chars_of("  ab c \n")), (2, 6));
    assert_eq!(trim(&chars_of("abc")), (0, 3));
    assert_eq!(trim(&chars_of("")), (0, 0));
    let (start, end) = trim(&chars_of(" \t\n"));
    assert_eq!(start, end);
}

#[test]
fn trim_agrees_with_the_standard_library() {
    for text in ["", " ", "a", " a", "a ", " a b ", "\u{3000}x\u{2028}", "\n\n", "é \u{a0}"] {
        let chars = chars_of(text);
        let (start, end) = trim(&chars);
        let inner: String = chars[start..end].iter().collect();
        assert_eq!(inner, text.trim(), "{:?}", text);
    }
}

#[test]
fn chars_of_lists_the_characters() {
    assert_eq!(chars_of("a é\n"), vec!['a', ' ', 'é', '\n']);
    assert!(chars_of("").is_empty());
}
