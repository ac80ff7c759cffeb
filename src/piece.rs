use crate::board::{idx, is_tile, lemma_power_of_two_is_tile, pow2, Board, N};
use vstd::prelude::*;

verus! {

/// The tile that is falling and under the player's control. It is not part
/// of the board until it settles.
#[derive(Clone, Copy, Debug, PartialEq, Eq, Structural)]
pub struct FallingPiece {
    pub value: u64,
    pub column: usize,
    pub row: usize,
}

/// The columns below `n` whose top cell is empty in `s`, in increasing order.
pub open spec fn open_columns(s: Seq<u64>, n: int) -> Seq<int>
    decreases n,
{
    if n <= 0 {
        Seq::<int>::empty()
    } else {
        open_columns(s, n - 1) + if s[idx(n - 1, 0)] == 0 {
            seq![n - 1]
        } else {
            Seq::<int>::empty()
        }
    }
}

impl FallingPiece {
    /// The piece lies on the board, on an empty cell, and holds a tile that
    /// spawning can produce or a merge can reach.
    pub open spec fn placed_on(&self, board: &Board) -> bool {
        &&& self.column < 8
        &&& self.row < 8
        &&& is_tile(self.value as int)
        &&& board.cell(self.column as int, self.row as int) == 0
    }
}

/// Every column listed by `open_columns` is a column of the board whose top
/// cell is empty, and every such column is listed.
pub proof fn lemma_open_columns(s: Seq<u64>, n: int)
    requires
        0 <= n <= 8,
        s.len() == 64,
    ensures
        forall|i: int|
            0 <= i < open_columns(s, n).len() ==> 0 <= #[trigger] open_columns(s, n)[i] < n
                && s[idx(open_columns(s, n)[i], 0)] == 0,
        forall|c: int|
            0 <= c < n && s[idx(c, 0)] == 0 ==> open_columns(s, n).contains(c),
    decreases n,
{
    if n > 0 {
        lemma_open_columns(s, n - 1);
        let prev = open_columns(s, n - 1);
        let cur = open_columns(s, n);
        let tail = if s[idx(n - 1, 0)] == 0 {
            seq![n - 1]
        } else {
            Seq::<int>::empty()
        };
        assert(cur == prev + tail);
        assert forall|c: int| 0 <= c < n && s[idx(c, 0)] == 0 implies cur.contains(c) by {
            if c < n - 1 {
                assert(prev.contains(c));
                let j = choose|j: int| 0 <= j < prev.len() && prev[j] == c;
                assert(cur[j] == c);
            } else {
                assert(cur[prev.len() as int] == c);
            }
        }
    }
}

proof fn lemma_pow2_tile(k: nat)
    requires
        1 <= k <= 6,
    ensures
        is_tile(pow2(k)),
        pow2(k) <= 64,
    decreases k,
{
    reveal_with_fuel(pow2, 7);
    lemma_power_of_two_is_tile(k);
    if k > 1 {
        lemma_pow2_tile((k - 1) as nat);
    }
}

/// Relies on rand's `Rng::gen_range` on the thread-local generator: for the
/// non-empty range `0..n` it returns a value inside it (it panics on an empty
/// range, which `requires` rules out).
#[verifier::external_body]
fn random_below(n: usize) -> (r: usize)
    requires
        n > 0,
    ensures
        r < n,
{
    rand::Rng::gen_range(&mut rand::thread_rng(), 0..n)
}

impl Board {
    /// The columns whose top cell is empty, in increasing order.
    pub fn open_columns(&self) -> (r: Vec<usize>)
        requires
            self.wf(),
        ensures
            r@.len() == open_columns(self@, 8).len(),
            forall|i: int| 0 <= i < r@.len() ==> r@[i] == #[trigger] open_columns(self@, 8)[i],
    {
        let mut cols: Vec<usize> = Vec::new();
        let mut c: usize = 0;
        while c < N
            invariant
                self.wf(),
                c <= 8,
                cols@.len() == open_columns(self@, c as int).len(),
                forall|i: int|
                    0 <= i < cols@.len() ==> cols@[i] == #[trigger] open_columns(self@, c as int)[i],
            decreases 8 - c,
        {
            if self.get(c, 0) == 0 {
                cols.push(c);
            }
            c = c + 1;
        }
        cols
    }
}

/// The piece that spawning makes from its two draws: the `column_pick`-th
/// column with an empty top cell, at the top row, holding `2` raised to
/// `exponent_pick + 1`.
pub fn spawn_with(board: &Board, column_pick: usize, exponent_pick: usize) -> (p: FallingPiece)
    requires
        board.wf(),
        column_pick < open_columns(board@, 8).len(),
        exponent_pick < 6,
    ensures
        p.column == open_columns(board@, 8)[column_pick as int],
        p.row == 0,
        p.value == pow2((exponent_pick + 1) as nat),
        p.placed_on(board),
        p.value <= 64,
{
    let cols = board.open_columns();
    let column = cols[column_pick];
    let mut value: u64 = 2;
    let mut k: usize = 0;
    proof {
        reveal_with_fuel(pow2, 2);
    }
    while k < exponent_pick
        invariant
            k <= exponent_pick < 6,
            value == pow2((k + 1) as nat),
        decreases exponent_pick - k,
    {
        proof {
            lemma_pow2_tile((k + 1) as nat);
        }
        value = value * 2;
        k = k + 1;
    }
    proof {
        lemma_pow2_tile((exponent_pick + 1) as nat);
        lemma_open_columns(board@, 8);
        assert(column as int == open_columns(board@, 8)[column_pick as int]);
    }
    FallingPiece { value, column, row: 0 }
}

/// A new piece for `board`: a column drawn uniformly among those whose top
/// cell is empty, at the top row, holding a tile drawn uniformly from
/// 2, 4, 8, 16, 32 and 64. The board must not be full.
pub fn spawn(board: &Board) -> (p: FallingPiece)
    requires
        board.wf(),
        !board.full(),
    ensures
        p.placed_on(board),
        p.row == 0,
        p.value <= 64,
{
    proof {
        lemma_open_columns(board@, 8);
        let c = choose|c: int| 0 <= c < 8 && board.cell(c, 0) != 0 == false;
        assert(open_columns(board@, 8).contains(c));
    }
    let free = board.open_columns();
    let column_pick = random_below(free.len());
    let exponent_pick = random_below(6);
    spawn_with(board, column_pick, exponent_pick)
}

} // verus!
