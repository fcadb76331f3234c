use tetris_core::board::{Board, BoardType};
use tetris_core::mino::{Mino, MinoType};

#[test]
fn main_test_board_initial_len() {
    let board = Board::new(10, 20);
    assert_eq!(board.board.len(), 21);
    assert_eq!(board.board[0].len(), 12);
}

#[test]
fn main_test_board_initial_content() {
    let board = Board::new(10, 20);
    assert_eq!(board.board[0][0], BoardType::Wall);
    assert_eq!(board.board[0][1], BoardType::Empty);
    assert_eq!(board.board[0][11], BoardType::Wall);
    assert_eq!(board.board[20][0], BoardType::Wall);
    assert_eq!(board.board[20][1], BoardType::Wall);
    assert_eq!(board.board[20][11], BoardType::Wall);
}

#[test]
fn main_test_board_put_mino() {
    let mut board = Board::new(10, 20);
    let mino = Mino { type_: MinoType::I, pos: (1, 1), rotation: 0 };
    board = board.put_mino(&mino).unwrap();
    assert_eq!(board.board[0][1], BoardType::Block);
    assert_eq!(board.board[1][1], BoardType::Block);
    assert_eq!(board.board[2][1], BoardType::Block);
    assert_eq!(board.board[3][1], BoardType::Block);
}

#[test]
fn main_test_board_eralse_fill_lines() {
    let mut board = Board::new(4, 4);

    let mino = Mino { type_: MinoType::I, pos: (2, 3), rotation: 1 };
    board = board.put_mino(&mino).unwrap();

    board.erase_fill_lines();
    assert_eq!(board.board[3][0], BoardType::Wall);
    assert_eq!(board.board[3][1], BoardType::Empty);
    assert_eq!(board.board[3][2], BoardType::Empty);
    assert_eq!(board.board[3][3], BoardType::Empty);
    assert_eq!(board.board[3][4], BoardType::Empty);
    assert_eq!(board.board[3][5], BoardType::Wall);
}
