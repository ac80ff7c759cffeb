use vstd::prelude::*;

verus! {

/// Width and height of the square board.
pub const N: usize = 8;

/// Number of cells on the board.
pub const CELLS: usize = 64;

/// Position of cell (`column`, `row`) in the flat, column-major cell sequence.
pub open spec fn idx(column: int, row: int) -> int {
    column * 8 + row
}

pub open spec fn in_bounds(column: int, row: int) -> bool {
    0 <= column < 8 && 0 <= row < 8
}

/// A tile value: a power of two that is at least 2.
pub open spec fn is_tile(v: int) -> bool
    decreases v,
{
    v >= 2 && (v == 2 || (v % 2 == 0 && is_tile(v / 2)))
}

/// `2` raised to `k`.
pub open spec fn pow2(k: nat) -> int
    decreases k,
{
    if k == 0 {
        1
    } else {
        2 * pow2((k - 1) as nat)
    }
}

/// Every tile value is a power of two with an exponent of at least 1.
pub proof fn lemma_tile_is_power_of_two(v: int)
    requires
        is_tile(v),
    ensures
        exists|k: nat| k >= 1 && pow2(k) == v,
    decreases v,
{
    reveal_with_fuel(pow2, 2);
    if v == 2 {
        assert(pow2(1) == 2);
    } else {
        lemma_tile_is_power_of_two(v / 2);
        let k = choose|k: nat| k >= 1 && pow2(k) == v / 2;
        assert(pow2((k + 1) as nat) == v);
    }
}

/// Every power of two with an exponent of at least 1 is a tile value.
pub proof fn lemma_power_of_two_is_tile(k: nat)
    requires
        k >= 1,
    ensures
        is_tile(pow2(k)),
    decreases k,
{
    reveal_with_fuel(pow2, 2);
    if k == 1 {
        reveal_with_fuel(is_tile, 2);
    } else {
        lemma_power_of_two_is_tile((k - 1) as nat);
        lemma_double_tile(pow2((k - 1) as nat));
    }
}

/// Sum of all values in `s`.
pub open spec fn total(s: Seq<u64>) -> int
    decreases s.len(),
{
    if s.len() == 0 {
        0
    } else {
        total(s.drop_last()) + s.last()
    }
}

/// Number of non-empty cells in `s`.
pub open spec fn occupied(s: Seq<u64>) -> nat
    decreases s.len(),
{
    if s.len() == 0 {
        0
    } else {
        occupied(s.drop_last()) + if s.last() != 0 { 1nat } else { 0nat }
    }
}

/// A well-formed board: 64 cells, each empty or holding a tile, with a sum
/// that fits in a `u64`.
pub open spec fn board_ok(s: Seq<u64>) -> bool {
    &&& s.len() == 64
    &&& forall|i: int| 0 <= i < 64 ==> (#[trigger] s[i] == 0 || is_tile(s[i] as int))
    &&& total(s) <= u64::MAX
}

/// The neighbour of (`column`, `row`) that a tile of value `v` placed there
/// merges into: the first neighbour holding `v`, looked at downward, upward,
/// rightward, then leftward.
pub open spec fn merge_target(s: Seq<u64>, v: int, column: int, row: int) -> Option<(int, int)> {
    if row + 1 < 8 && s[idx(column, row + 1)] == v {
        Some((column, row + 1))
    } else if row > 0 && s[idx(column, row - 1)] == v {
        Some((column, row - 1))
    } else if column + 1 < 8 && s[idx(column + 1, row)] == v {
        Some((column + 1, row))
    } else if column > 0 && s[idx(column - 1, row)] == v {
        Some((column - 1, row))
    } else {
        None
    }
}

/// The cells after a tile of value `v` is placed at (`column`, `row`) and
/// every merge it sets off has been resolved. A merge empties the cell and
/// places a tile of twice the value at the neighbour it merged into.
pub open spec fn cascade(s: Seq<u64>, v: int, column: int, row: int) -> Seq<u64>
    decreases occupied(s.update(idx(column, row), 0)),
{
    if 0 < v <= u64::MAX && in_bounds(column, row) && s.len() == 64 {
        match merge_target(s, v, column, row) {
            Some(t) => {
                proof {
                    lemma_cascade_step_decreases(s, v, column, row);
                }
                cascade(s.update(idx(column, row), 0), 2 * v, t.0, t.1)
            },
            None => s.update(idx(column, row), v as u64),
        }
    } else {
        s
    }
}

/// Writing `w` into cell `i` changes the sum by the difference between `w`
/// and what the cell held.
pub proof fn lemma_total_update(s: Seq<u64>, i: int, w: u64)
    requires
        0 <= i < s.len(),
    ensures
        total(s.update(i, w)) == total(s) - s[i] + w,
    decreases s.len(),
{
    let t = s.update(i, w);
    if i == s.len() - 1 {
        assert(t.drop_last() =~= s.drop_last());
    } else {
        assert(t.drop_last() =~= s.drop_last().update(i, w));
        lemma_total_update(s.drop_last(), i, w);
    }
}

proof fn lemma_occupied_update(s: Seq<u64>, i: int, w: u64)
    requires
        0 <= i < s.len(),
    ensures
        occupied(s.update(i, w)) == occupied(s) - (if s[i] != 0 { 1int } else { 0int }) + (if w
            != 0 { 1int } else { 0int }),
    decreases s.len(),
{
    let t = s.update(i, w);
    if i == s.len() - 1 {
        assert(t.drop_last() =~= s.drop_last());
    } else {
        assert(t.drop_last() =~= s.drop_last().update(i, w));
        lemma_occupied_update(s.drop_last(), i, w);
    }
}

proof fn lemma_total_nonneg(s: Seq<u64>)
    ensures
        total(s) >= 0,
    decreases s.len(),
{
    if s.len() > 0 {
        lemma_total_nonneg(s.drop_last());
    }
}

/// Two distinct cells together never hold more than the whole sum.
proof fn lemma_total_two(s: Seq<u64>, i: int, j: int)
    requires
        0 <= i < s.len(),
        0 <= j < s.len(),
        i != j,
    ensures
        s[i] + s[j] <= total(s),
{
    lemma_total_update(s, i, 0);
    lemma_total_update(s.update(i, 0), j, 0);
    lemma_total_nonneg(s.update(i, 0).update(j, 0));
}

proof fn lemma_merge_target_neighbour(s: Seq<u64>, v: int, column: int, row: int)
    requires
        in_bounds(column, row),
        s.len() == 64,
        merge_target(s, v, column, row) is Some,
    ensures
        ({
            let t = merge_target(s, v, column, row)->0;
            &&& in_bounds(t.0, t.1)
            &&& idx(t.0, t.1) != idx(column, row)
            &&& 0 <= idx(t.0, t.1) < 64
            &&& s[idx(t.0, t.1)] == v
        }),
{
}

/// Each merge of a cascade empties one cell for good: the count of occupied
/// cells other than the one being placed into drops by one, so every cascade
/// ends after fewer merges than there are cells.
pub proof fn lemma_cascade_step_decreases(s: Seq<u64>, v: int, column: int, row: int)
    requires
        0 < v,
        in_bounds(column, row),
        s.len() == 64,
        merge_target(s, v, column, row) is Some,
    ensures
        ({
            let t = merge_target(s, v, column, row)->0;
            let s2 = s.update(idx(column, row), 0);
            occupied(s2.update(idx(t.0, t.1), 0)) < occupied(s.update(idx(column, row), 0))
        }),
{
    let t = merge_target(s, v, column, row)->0;
    lemma_merge_target_neighbour(s, v, column, row);
    let s2 = s.update(idx(column, row), 0);
    lemma_occupied_update(s2, idx(t.0, t.1), 0);
}

proof fn lemma_total_prefix(s: Seq<u64>, i: int)
    requires
        0 <= i <= s.len(),
    ensures
        total(s.subrange(0, i)) <= total(s),
    decreases s.len() - i,
{
    if i < s.len() {
        assert(s.subrange(0, i + 1).drop_last() =~= s.subrange(0, i));
        lemma_total_prefix(s, i + 1);
    } else {
        assert(s.subrange(0, i) =~= s);
    }
}

/// Twice a tile is a tile.
pub proof fn lemma_double_tile(v: int)
    requires
        is_tile(v),
    ensures
        is_tile(2 * v),
{
    assert((2 * v) / 2 == v);
    assert((2 * v) % 2 == 0);
    reveal_with_fuel(is_tile, 2);
}

/// A cascade keeps a well-formed board well formed: every non-empty cell
/// still holds a power of two that is at least 2. It also conserves value:
/// each merge takes `v` from one cell and adds `v` to its neighbour, so the
/// sum afterwards is the sum with the placed tile written in.
pub proof fn lemma_cascade_keeps_board(s: Seq<u64>, v: int, column: int, row: int)
    requires
        board_ok(s),
        is_tile(v),
        v <= u64::MAX,
        in_bounds(column, row),
        total(s.update(idx(column, row), v as u64)) <= u64::MAX,
    ensures
        board_ok(cascade(s, v, column, row)),
        total(cascade(s, v, column, row)) == total(s.update(idx(column, row), v as u64)),
    decreases occupied(s.update(idx(column, row), 0)),
{
    let p = idx(column, row);
    let s1 = s.update(p, v as u64);
    lemma_total_update(s, p, v as u64);
    match merge_target(s, v, column, row) {
        Some(t) => {
            let q = idx(t.0, t.1);
            lemma_merge_target_neighbour(s, v, column, row);
            lemma_total_two(s1, p, q);
            lemma_double_tile(v);
            let s2 = s.update(p, 0);
            lemma_total_update(s1, p, 0);
            assert(s1.update(p, 0) =~= s2);
            lemma_total_update(s2, q, (2 * v) as u64);
            lemma_cascade_step_decreases(s, v, column, row);
            lemma_cascade_keeps_board(s2, 2 * v, t.0, t.1);
        },
        None => {},
    }
}

/// Merges follow a fixed order and only the first match fires: a tile placed
/// with an equal tile below it merges downward, whatever its other
/// neighbours hold.
pub proof fn lemma_downward_merge_first(s: Seq<u64>, v: int, column: int, row: int)
    requires
        s.len() == 64,
        0 < v <= u64::MAX,
        in_bounds(column, row),
        row + 1 < 8,
        s[idx(column, row + 1)] == v,
    ensures
        cascade(s, v, column, row) == cascade(s.update(idx(column, row), 0), 2 * v, column, row + 1),
{
}

/// The playing field: an 8 by 8 grid of cells, each empty (0) or holding a
/// tile. Cells are kept column by column in one flat vector.
pub struct Board {
    cells: Vec<u64>,
}

impl View for Board {
    type V = Seq<u64>;

    closed spec fn view(&self) -> Seq<u64> {
        self.cells@
    }
}

impl Board {
    pub open spec fn wf(&self) -> bool {
        board_ok(self@)
    }

    pub open spec fn cell(&self, column: int, row: int) -> u64 {
        self@[idx(column, row)]
    }

    /// True iff every column's top cell is occupied.
    pub open spec fn full(&self) -> bool {
        forall|c: int| 0 <= c < 8 ==> #[trigger] self.cell(c, 0) != 0
    }

    /// An empty board.
    pub fn new() -> (b: Board)
        ensures
            b.wf(),
            total(b@) == 0,
            forall|i: int| 0 <= i < 64 ==> #[trigger] b@[i] == 0,
    {
        let mut cells: Vec<u64> = Vec::new();
        while cells.len() < CELLS
            invariant
                cells@.len() <= 64,
                forall|i: int| 0 <= i < cells@.len() ==> #[trigger] cells@[i] == 0,
                total(cells@) == 0,
            decreases 64 - cells@.len(),
        {
            let ghost prev = cells@;
            cells.push(0);
            assert(cells@.drop_last() =~= prev);
        }
        Board { cells }
    }

    /// The value held at (`column`, `row`), 0 when empty.
    pub fn get(&self, column: usize, row: usize) -> (r: u64)
        requires
            self.wf(),
            column < N,
            row < N,
        ensures
            r == self.cell(column as int, row as int),
    {
        self.cells[column * N + row]
    }

    /// True iff the top cell of every column is occupied.
    pub fn is_full(&self) -> (r: bool)
        requires
            self.wf(),
        ensures
            r == self.full(),
    {
        let mut c: usize = 0;
        while c < N
            invariant
                self.wf(),
                c <= 8,
                forall|k: int| 0 <= k < c ==> #[trigger] self.cell(k, 0) != 0,
            decreases 8 - c,
        {
            if self.cells[c * N] == 0 {
                assert(self.cell(c as int, 0) == 0);
                return false;
            }
            c = c + 1;
        }
        true
    }

    /// True iff the cell at (`column`, `row`) is empty.
    pub fn can_accept(&self, column: usize, row: usize) -> (r: bool)
        requires
            self.wf(),
            column < N,
            row < N,
        ensures
            r == (self.cell(column as int, row as int) == 0),
    {
        self.cells[column * N + row] == 0
    }

    /// The sum of all cell values.
    pub fn score(&self) -> (r: u64)
        requires
            self.wf(),
        ensures
            r == total(self@),
    {
        let mut sum: u64 = 0;
        let mut i: usize = 0;
        while i < CELLS
            invariant
                self.wf(),
                i <= 64,
                sum == total(self@.subrange(0, i as int)),
            decreases 64 - i,
        {
            proof {
                assert(self@.subrange(0, i + 1).drop_last() =~= self@.subrange(0, i as int));
                lemma_total_prefix(self@, i + 1);
            }
            sum = sum + self.cells[i];
            i = i + 1;
        }
        assert(self@.subrange(0, 64) =~= self@);
        sum
    }

    /// Writes `value` at (`column`, `row`), then resolves merges: while the
    /// placed tile has a neighbour of equal value (looked for downward,
    /// upward, rightward, then leftward; only the first match counts), its
    /// cell is emptied and a tile of twice the value is placed at that
    /// neighbour in the same way.
    pub fn place_and_cascade(&mut self, value: u64, column: usize, row: usize)
        requires
            old(self).wf(),
            is_tile(value as int),
            column < N,
            row < N,
            total(old(self)@.update(idx(column as int, row as int), value)) <= u64::MAX,
        ensures
            final(self).wf(),
            final(self)@ == cascade(old(self)@, value as int, column as int, row as int),
            total(final(self)@) == total(old(self)@.update(idx(column as int, row as int), value)),
        decreases occupied(old(self)@.update(idx(column as int, row as int), 0)),
    {
        let ghost s0 = self@;
        proof {
            lemma_cascade_keeps_board(s0, value as int, column as int, row as int);
        }
        let p = column * N + row;
        self.cells.set(p, value);
        let ghost s1 = self@;
        let target: Option<(usize, usize)> = if row + 1 < N && self.cells[p + 1] == value {
            Some((column, row + 1))
        } else if row > 0 && self.cells[p - 1] == value {
            Some((column, row - 1))
        } else if column + 1 < N && self.cells[p + N] == value {
            Some((column + 1, row))
        } else if column > 0 && self.cells[p - N] == value {
            Some((column - 1, row))
        } else {
            None
        };
        proof {
            lemma_total_update(s0, p as int, value);
        }
        match target {
            Some((c2, r2)) => {
                let ghost q = idx(c2 as int, r2 as int);
                assert(merge_target(s0, value as int, column as int, row as int) == Some(
                    (c2 as int, r2 as int),
                ));
                proof {
                    lemma_merge_target_neighbour(s0, value as int, column as int, row as int);
                    lemma_total_two(s1, p as int, q);
                    lemma_double_tile(value as int);
                }
                self.cells.set(p, 0);
                proof {
                    assert(self@ =~= s0.update(p as int, 0));
                    lemma_total_update(s1, p as int, 0);
                    lemma_total_update(self@, q, (2 * value) as u64);
                    lemma_cascade_step_decreases(s0, value as int, column as int, row as int);
                }
                self.place_and_cascade(value * 2, c2, r2);
            },
            None => {
                assert(merge_target(s0, value as int, column as int, row as int) is None);
            },
        }
    }
}

} // verus!
