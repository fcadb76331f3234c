//! The per-iteration decision of the game loop: apply one event (a
//! player command or a gravity tick) to the board and the active
//! piece. A rejected command is a silent no-op; a tick whose move down
//! is rejected locks the piece into the board, clears the full rows
//! and spawns a fresh piece. The loop around this — timers, input,
//! drawing — performs no game decision of its own.

use vstd::prelude::*;
use crate::board::{Board, clear_grid, place_grid};
use crate::mino::{Mino, lemma_first_offset_zero, lemma_offset_bounds};
use crate::move_command::MoveCommand;

verus! {

/// One iteration's worth of outside world: a parsed player command,
/// or a gravity tick.
#[derive(Clone, Copy, Debug)]
pub enum GameEvent {
    Command(MoveCommand),
    Tick,
}

/// The move that an event asks for: a tick is a forced move down.
pub open spec fn event_command(e: GameEvent) -> MoveCommand {
    match e {
        GameEvent::Command(c) => c,
        GameEvent::Tick => MoveCommand::Down,
    }
}

/// Applies one event to the board and the active piece.
///
/// The moved piece is tried against the board. If it fits, it becomes
/// the active piece and the board is untouched. If it does not and
/// the event was a player command, nothing changes. If it does not
/// and the event was a tick, the current piece is locked into the
/// board, full rows are cleared, and a fresh piece spawns; only then
/// is `true` returned. Whether the freshly spawned piece can be
/// placed at all — the game-over test — is the caller's next
/// placement attempt, not this function's business.
pub fn step(board: &mut Board, mino: &mut Mino, event: GameEvent) -> (locked: bool)
    requires
        old(board).wf(),
        old(board).width() <= 125,
        old(board).height() <= 125,
        old(mino).fits(),
        old(board).can_place(*old(mino)),
        old(mino).rotation < usize::MAX,
    ensures
        final(board).wf(),
        final(mino).fits(),
        final(board).width() == old(board).width(),
        final(board).height() == old(board).height(),
        ({
            let m2 = old(mino).moved_spec(event_command(event));
            if old(board).can_place(m2) {
                !locked && final(board).grid() == old(board).grid() && *final(mino) == m2
            } else if event is Command {
                !locked && final(board).grid() == old(board).grid() && *final(mino) == *old(mino)
            } else {
                locked && final(board).grid() == clear_grid(
                    place_grid(old(board).grid(), *old(mino)),
                ) && final(mino).pos.0 == 5 && final(mino).pos.1 == 1 && final(mino).rotation == 0
            }
        }),
{
    let cmd = match event {
        GameEvent::Command(c) => c,
        GameEvent::Tick => MoveCommand::Down,
    };
    proof {
        lemma_first_offset_zero(mino.type_, mino.rot_index());
        assert(mino.abs_pos(0) == (mino.pos.0 as int, mino.pos.1 as int));
        assert(0 <= mino.pos.0 < board.width() && 0 <= mino.pos.1 < board.height());
    }
    let tmp = mino.moved(cmd);
    proof {
        assert(-1 <= tmp.pos.0 <= 125 && 0 <= tmp.pos.1 <= 125);
        assert forall|i: int| 0 <= i < 4 implies {
            let p = #[trigger] tmp.abs_pos(i);
            i8::MIN <= p.0 <= i8::MAX && i8::MIN <= p.1 <= i8::MAX
        } by {
            lemma_offset_bounds(tmp.type_, tmp.rot_index(), i);
        }
    }
    match board.put_mino(&tmp) {
        Some(_) => {
            *mino = tmp;
            false
        },
        None => {
            match event {
                GameEvent::Command(_) => false,
                GameEvent::Tick => {
                    let locked_board = board.put_mino(mino).unwrap();
                    *board = locked_board;
                    board.erase_fill_lines();
                    *mino = Mino::random();
                    true
                },
            }
        },
    }
}

} // verus!
