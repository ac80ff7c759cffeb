use crate::board::{
    board_ok, cascade, idx, lemma_cascade_keeps_board, lemma_total_update, total, Board, N,
};
use crate::piece::{spawn, FallingPiece};
use vstd::prelude::*;

verus! {

/// A player command, decoded from a key press.
#[derive(Clone, Copy, Debug, PartialEq, Eq, Structural)]
pub enum Command {
    MoveDown,
    MoveLeft,
    MoveRight,
    Quit,
}

/// What a tick ended in.
#[derive(Clone, Copy, Debug, PartialEq, Eq, Structural)]
pub enum Outcome {
    /// The game goes on.
    Running,
    /// The player asked to stop; nothing else was done this tick.
    Quit,
    /// A piece settled and left no column with an empty top cell, so no new
    /// piece can be spawned.
    BoardFull,
}

/// Gravity moves the piece on every tick whose counter is a multiple of this.
pub const GRAVITY_CADENCE: u64 = 50;

/// The piece after a movement command: moved one cell if the destination is
/// on the board and empty, otherwise where it was.
pub open spec fn moved(board: &Board, p: FallingPiece, cmd: Command) -> FallingPiece {
    match cmd {
        Command::MoveDown => if p.row + 1 < 8 && board.cell(p.column as int, p.row + 1) == 0 {
            FallingPiece { value: p.value, column: p.column, row: (p.row + 1) as usize }
        } else {
            p
        },
        Command::MoveLeft => if p.column > 0 && board.cell(p.column - 1, p.row as int) == 0 {
            FallingPiece { value: p.value, column: (p.column - 1) as usize, row: p.row }
        } else {
            p
        },
        Command::MoveRight => if p.column + 1 < 8 && board.cell(p.column + 1, p.row as int) == 0 {
            FallingPiece { value: p.value, column: (p.column + 1) as usize, row: p.row }
        } else {
            p
        },
        Command::Quit => p,
    }
}

/// True iff gravity can move the piece one row down.
pub open spec fn can_fall(board: &Board, p: FallingPiece) -> bool {
    p.row + 1 < 8 && board.cell(p.column as int, p.row + 1) == 0
}

/// The cells once the piece has settled where it is.
pub open spec fn settled(board: &Board, p: FallingPiece) -> Seq<u64> {
    cascade(board@, p.value as int, p.column as int, p.row as int)
}

/// Settling a piece on a well-formed board leaves a well-formed board (every
/// non-empty cell a power of two of at least 2) whose score has grown by
/// exactly the piece's value: the merges of the cascade create no value.
pub proof fn lemma_settle_adds_piece_value(board: Board, p: FallingPiece)
    requires
        board.wf(),
        p.placed_on(&board),
        total(board@) + p.value <= u64::MAX,
    ensures
        board_ok(settled(&board, p)),
        total(settled(&board, p)) == total(board@) + p.value,
{
    let i = idx(p.column as int, p.row as int);
    lemma_total_update(board@, i, p.value);
    lemma_cascade_keeps_board(board@, p.value as int, p.column as int, p.row as int);
}

/// The tick counter after one more tick; it wraps at the top of `u64`.
pub open spec fn next_tick(t: u64) -> u64 {
    if t == u64::MAX {
        0
    } else {
        (t + 1) as u64
    }
}

/// The whole game state: the board, the falling piece and the tick counter.
pub struct Game {
    pub board: Board,
    pub piece: FallingPiece,
    pub ticks: u64,
}

impl Game {
    /// A playable state: a well-formed board and a piece on an empty cell.
    pub open spec fn wf(&self) -> bool {
        self.board.wf() && self.piece.placed_on(&self.board)
    }

    /// Settling the piece where it is cannot overflow the score.
    pub open spec fn can_settle(&self) -> bool {
        total(self.board@) + self.piece.value <= u64::MAX
    }

    /// A new game: an empty board, a freshly spawned piece, the counter at 0.
    pub fn new() -> (g: Game)
        ensures
            g.wf(),
            g.ticks == 0,
            g.piece.row == 0,
            g.piece.value <= 64,
            total(g.board@) == 0,
            forall|i: int| 0 <= i < 64 ==> #[trigger] g.board@[i] == 0,
    {
        let board = Board::new();
        assert(board.cell(0, 0) == 0);
        let piece = spawn(&board);
        Game { board, piece, ticks: 0 }
    }

    /// The value shown at (`column`, `row`): the falling piece's value where
    /// it is, the board's cell elsewhere.
    pub fn shown(&self, column: usize, row: usize) -> (r: u64)
        requires
            self.wf(),
            column < N,
            row < N,
        ensures
            r == if self.piece.column == column && self.piece.row == row {
                self.piece.value
            } else {
                self.board.cell(column as int, row as int)
            },
    {
        if self.piece.column == column && self.piece.row == row {
            self.piece.value
        } else {
            self.board.get(column, row)
        }
    }

    /// Applies a movement command to the piece; a move off the board or
    /// onto an occupied cell is ignored. `Quit` changes nothing.
    pub fn apply_move(&mut self, cmd: Command)
        requires
            old(self).wf(),
        ensures
            final(self).wf(),
            final(self).piece == moved(&old(self).board, old(self).piece, cmd),
            final(self).board == old(self).board,
            final(self).ticks == old(self).ticks,
    {
        let p = self.piece;
        match cmd {
            Command::MoveDown => {
                if p.row + 1 < N && self.board.can_accept(p.column, p.row + 1) {
                    self.piece.row = p.row + 1;
                }
            },
            Command::MoveLeft => {
                if p.column > 0 && self.board.can_accept(p.column - 1, p.row) {
                    self.piece.column = p.column - 1;
                }
            },
            Command::MoveRight => {
                if p.column + 1 < N && self.board.can_accept(p.column + 1, p.row) {
                    self.piece.column = p.column + 1;
                }
            },
            Command::Quit => {},
        }
    }

    /// One gravity step: the piece moves down a row if it can; otherwise it
    /// settles (is placed with its cascade) and a new piece is spawned,
    /// unless the board is then full.
    pub fn gravity(&mut self) -> (r: Outcome)
        requires
            old(self).wf(),
            old(self).can_settle(),
        ensures
            ({
                let (g0, g1) = (*old(self), *final(self));
                &&& g1.board.wf()
                &&& g1.ticks == g0.ticks
                &&& r != Outcome::Quit
                &&& r == Outcome::Running ==> g1.wf()
                &&& fell_or_settled(g0.board, g0.piece, g1.board, g1.piece, r)
            }),
    {
        let p = self.piece;
        if p.row + 1 < N && self.board.can_accept(p.column, p.row + 1) {
            self.piece.row = p.row + 1;
            Outcome::Running
        } else {
            proof {
                lemma_total_update(self.board@, idx(p.column as int, p.row as int), p.value);
            }
            self.board.place_and_cascade(p.value, p.column, p.row);
            if self.board.is_full() {
                Outcome::BoardFull
            } else {
                self.piece = spawn(&self.board);
                Outcome::Running
            }
        }
    }

    /// One tick of the game: `Quit` stops at once; any other command is
    /// applied as a move; then, on every tick whose counter is a multiple
    /// of `GRAVITY_CADENCE`, gravity acts; finally the counter advances.
    pub fn tick(&mut self, cmd: Option<Command>) -> (r: Outcome)
        requires
            old(self).wf(),
            old(self).can_settle(),
        ensures
            ({
                let (g0, g1) = (*old(self), *final(self));
                let p1 = match cmd {
                    Some(c) => moved(&g0.board, g0.piece, c),
                    None => g0.piece,
                };
                &&& g1.board.wf()
                &&& r == Outcome::Running ==> g1.wf()
                &&& cmd == Some(Command::Quit) ==> r == Outcome::Quit && g1 == g0
                &&& cmd != Some(Command::Quit) ==> {
                    &&& r != Outcome::Quit
                    &&& g1.ticks == next_tick(g0.ticks)
                    &&& g0.ticks % 50 != 0 ==> r == Outcome::Running && g1.board == g0.board
                        && g1.piece == p1
                    &&& g0.ticks % 50 == 0 ==> fell_or_settled(g0.board, p1, g1.board, g1.piece, r)
                }
            }),
    {
        match cmd {
            Some(Command::Quit) => {
                return Outcome::Quit;
            },
            Some(c) => self.apply_move(c),
            None => {},
        }
        let mut r = Outcome::Running;
        if self.ticks % GRAVITY_CADENCE == 0 {
            r = self.gravity();
        }
        self.ticks = if self.ticks == u64::MAX {
            0
        } else {
            self.ticks + 1
        };
        r
    }
}

/// How gravity takes the board and piece (`b0`, `p0`) to (`b1`, `p1`) with
/// outcome `r`: the piece falls one row if the cell below is on the board and
/// empty; otherwise the board becomes the settled board, the outcome is
/// `BoardFull` exactly when that board is full, and on `Running` the new
/// piece starts at the top row holding at most 64.
pub open spec fn fell_or_settled(
    b0: Board,
    p0: FallingPiece,
    b1: Board,
    p1: FallingPiece,
    r: Outcome,
) -> bool {
    if can_fall(&b0, p0) {
        &&& r == Outcome::Running
        &&& b1 == b0
        &&& p1 == (FallingPiece { value: p0.value, column: p0.column, row: (p0.row + 1) as usize })
    } else {
        &&& b1@ == settled(&b0, p0)
        &&& (r == Outcome::BoardFull) == b1.full()
        &&& r == Outcome::Running ==> p1.row == 0 && p1.value <= 64
    }
}

} // verus!
