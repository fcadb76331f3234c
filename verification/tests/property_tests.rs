use tetris_core::board::{Board, BoardType};
use tetris_core::engine::{step, GameEvent};
use tetris_core::mino::{Mino, MinoType};
use tetris_core::move_command::MoveCommand;

fn all_shapes() -> Vec<MinoType> {
    vec![
        MinoType::I,
        MinoType::O,
        MinoType::S,
        MinoType::Z,
        MinoType::J,
        MinoType::L,
        MinoType::T,
    ]
}

#[test]
fn new_board_rows_and_walls() {
    for (w, h) in [(1usize, 1usize), (4, 4), (10, 20), (7, 3)] {
        let board = Board::new(w, h);
        assert_eq!(board.board.len(), h + 1);
        for row in &board.board {
            assert_eq!(row.len(), w + 2);
        }
        for y in 0..=h {
            assert_eq!(board.board[y][0], BoardType::Wall);
            assert_eq!(board.board[y][w + 1], BoardType::Wall);
        }
        for x in 0..w + 2 {
            assert_eq!(board.board[h][x], BoardType::Wall);
        }
        for y in 0..h {
            for x in 1..=w {
                assert_eq!(board.board[y][x], BoardType::Empty);
            }
        }
    }
}

#[test]
fn put_mino_leaves_receiver_unchanged() {
    let board = Board::new(10, 20);
    let before = board.board.clone();
    let mino = Mino { type_: MinoType::T, pos: (5, 5), rotation: 0 };
    let placed = board.put_mino(&mino).unwrap();
    assert_eq!(board.board, before);

    let mut changed = 0;
    for y in 0..board.board.len() {
        for x in 0..board.board[y].len() {
            if placed.board[y][x] != board.board[y][x] {
                assert_eq!(board.board[y][x], BoardType::Empty);
                assert_eq!(placed.board[y][x], BoardType::Block);
                changed += 1;
            }
        }
    }
    assert_eq!(changed, 4);
}

#[test]
fn put_mino_twice_fails() {
    for t in all_shapes() {
        for rotation in 0..4 {
            let board = Board::new(10, 20);
            let mino = Mino { type_: t, pos: (5, 5), rotation };
            let placed = board.put_mino(&mino).unwrap();
            assert!(placed.put_mino(&mino).is_none());
        }
    }
}

#[test]
fn put_mino_rejects_out_of_bounds_and_walls() {
    let board = Board::new(10, 20);
    // A vertical I at the very top reaches y = -1.
    let above = Mino { type_: MinoType::I, pos: (5, 0), rotation: 0 };
    assert!(board.put_mino(&above).is_none());
    // Anchored on the left wall column.
    let on_wall = Mino { type_: MinoType::O, pos: (0, 5), rotation: 0 };
    assert!(board.put_mino(&on_wall).is_none());
    // Anchored on the bottom wall row.
    let on_floor = Mino { type_: MinoType::O, pos: (5, 20), rotation: 0 };
    assert!(board.put_mino(&on_floor).is_none());
}

#[test]
fn erase_fill_lines_no_full_rows_is_noop() {
    let mut board = Board::new(10, 20);
    let mino = Mino { type_: MinoType::S, pos: (4, 10), rotation: 1 };
    board = board.put_mino(&mino).unwrap();
    let before = board.board.clone();
    board.erase_fill_lines();
    assert_eq!(board.board, before);
}

#[test]
fn erase_fill_lines_full_row_scenario() {
    // A 6x5 grid; a horizontal I fills the whole interior of row 3.
    let mut board = Board::new(4, 4);
    let mino = Mino { type_: MinoType::I, pos: (2, 3), rotation: 1 };
    board = board.put_mino(&mino).unwrap();
    for x in 1..=4 {
        assert_eq!(board.board[3][x], BoardType::Block);
    }
    board.erase_fill_lines();
    assert_eq!(board.board.len(), 5);
    assert_eq!(board.board[3][0], BoardType::Wall);
    for x in 1..=4 {
        assert_eq!(board.board[3][x], BoardType::Empty);
    }
    assert_eq!(board.board[3][5], BoardType::Wall);
    for x in 0..6 {
        assert_eq!(board.board[4][x], BoardType::Wall);
    }
}

#[test]
fn positions_are_four_distinct_cells() {
    for t in all_shapes() {
        for rotation in 0..8 {
            let mino = Mino { type_: t, pos: (7, 9), rotation };
            let cells = mino.positions();
            assert_eq!(cells.len(), 4);
            for i in 0..4 {
                for j in 0..4 {
                    if i != j {
                        assert_ne!(cells[i], cells[j]);
                    }
                }
            }
        }
    }
}

#[test]
fn rotation_index_wraps() {
    for t in all_shapes() {
        let states = t.pattern().len();
        for r in 0..4 {
            let a = Mino { type_: t, pos: (5, 6), rotation: r };
            let b = Mino { type_: t, pos: (5, 6), rotation: r + states };
            assert_eq!(a.positions(), b.positions());
        }
    }
}

#[test]
fn rotate_t_piece_four_times_cycles() {
    let start = Mino { type_: MinoType::T, pos: (5, 5), rotation: 0 };
    let mut m = start;
    for _ in 0..4 {
        m = m.moved(MoveCommand::Rotate);
    }
    assert_eq!(m.rotation, 4);
    assert_eq!(m.positions(), start.positions());
}

#[test]
fn pattern_tables_have_expected_sizes() {
    for t in all_shapes() {
        let pat = t.pattern();
        let expected = match t {
            MinoType::I | MinoType::S | MinoType::Z => 2,
            MinoType::O => 1,
            MinoType::J | MinoType::L | MinoType::T => 4,
        };
        assert_eq!(pat.len(), expected);
        for state in &pat {
            assert_eq!(state.len(), 4);
            assert_eq!(state[0], (0, 0));
        }
    }
}

#[test]
fn pattern_of_i_piece_is_exact() {
    let pat = MinoType::I.pattern();
    assert_eq!(
        pat,
        vec![
            vec![(0, 0), (0, -1), (0, 1), (0, 2)],
            vec![(0, 0), (-1, 0), (1, 0), (2, 0)],
        ]
    );
}

#[test]
fn moved_applies_each_command() {
    let m = Mino { type_: MinoType::J, pos: (5, 5), rotation: 2 };
    let l = m.moved(MoveCommand::Left);
    assert_eq!((l.pos, l.rotation), ((4, 5), 2));
    let r = m.moved(MoveCommand::Right);
    assert_eq!((r.pos, r.rotation), ((6, 5), 2));
    let d = m.moved(MoveCommand::Down);
    assert_eq!((d.pos, d.rotation), ((5, 6), 2));
    let rot = m.moved(MoveCommand::Rotate);
    assert_eq!((rot.pos, rot.rotation), ((5, 5), 3));
}

#[test]
fn spawned_pieces_cover_all_shapes() {
    let mut seen = [false; 7];
    for _ in 0..1000 {
        let m = Mino::random();
        assert_eq!(m.pos, (5, 1));
        assert_eq!(m.rotation, 0);
        let idx = match m.type_ {
            MinoType::I => 0,
            MinoType::O => 1,
            MinoType::S => 2,
            MinoType::Z => 3,
            MinoType::J => 4,
            MinoType::L => 5,
            MinoType::T => 6,
        };
        seen[idx] = true;
    }
    assert!(seen.iter().all(|&s| s));
}

#[test]
fn step_applies_an_accepted_command() {
    let mut board = Board::new(10, 20);
    let mut mino = Mino { type_: MinoType::T, pos: (5, 5), rotation: 0 };
    let before = board.board.clone();
    let locked = step(&mut board, &mut mino, GameEvent::Command(MoveCommand::Left));
    assert!(!locked);
    assert_eq!(mino.pos, (4, 5));
    assert_eq!(mino.rotation, 0);
    assert_eq!(board.board, before);
}

#[test]
fn step_silently_rejects_an_illegal_command() {
    let mut board = Board::new(10, 20);
    // The O piece occupies its anchor column and the one to the right,
    // so x = 1 is as far left as it can stand.
    let mut mino = Mino { type_: MinoType::O, pos: (1, 5), rotation: 0 };
    let before = board.board.clone();
    let locked = step(&mut board, &mut mino, GameEvent::Command(MoveCommand::Left));
    assert!(!locked);
    assert_eq!(mino.pos, (1, 5));
    assert_eq!(board.board, before);
}

#[test]
fn step_tick_moves_the_piece_down() {
    let mut board = Board::new(10, 20);
    let mut mino = Mino { type_: MinoType::T, pos: (5, 5), rotation: 0 };
    let locked = step(&mut board, &mut mino, GameEvent::Tick);
    assert!(!locked);
    assert_eq!(mino.pos, (5, 6));
}

#[test]
fn step_tick_locks_a_resting_piece() {
    let mut board = Board::new(10, 20);
    // A horizontal I resting on the bottom wall row.
    let mut mino = Mino { type_: MinoType::I, pos: (2, 19), rotation: 1 };
    let locked = step(&mut board, &mut mino, GameEvent::Tick);
    assert!(locked);
    for x in 1..=4 {
        assert_eq!(board.board[19][x], BoardType::Block);
    }
    assert_eq!(mino.pos, (5, 1));
    assert_eq!(mino.rotation, 0);
}

#[test]
fn step_tick_lock_clears_a_full_row() {
    let mut board = Board::new(4, 4);
    // Locking this horizontal I fills row 3 completely.
    let mut mino = Mino { type_: MinoType::I, pos: (2, 3), rotation: 1 };
    let locked = step(&mut board, &mut mino, GameEvent::Tick);
    assert!(locked);
    assert_eq!(board.board.len(), 5);
    for y in 0..4 {
        for x in 1..=4 {
            assert_eq!(board.board[y][x], BoardType::Empty);
        }
    }
    assert_eq!(mino.pos, (5, 1));
    assert_eq!(mino.rotation, 0);
}
