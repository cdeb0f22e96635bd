use vstd::prelude::*;
use crate::lcg::{lcg_modulus, lcg_next, lcg_step};

verus! {

/// Draws are reduced modulo this scale before they are compared with the
/// density threshold: a draw `r` keeps its cell when `r % DENSITY_SCALE < keep_below`.
pub const DENSITY_SCALE: u64 = 10000;

/// Offset added (wrapping) to the seed of a reservoir for its input weights.
pub const INPUT_SEED_OFFSET: u64 = 12345;

/// The sign that a draw stands for: +1 for an even draw, -1 for an odd one.
pub open spec fn sign_of(r: u64) -> i8 {
    if r % 2 == 0 {
        1i8
    } else {
        -1i8
    }
}

/// One cell of a random sign matrix, drawn from the generator in `state`.
/// Returns the generator's state afterwards and the cell's sign, if the cell holds one.
///
/// With `keep_below == None` every cell is kept and one draw gives its sign.
/// With `Some(t)` a first draw `r` keeps the cell iff `r % DENSITY_SCALE < t`;
/// a kept cell takes its sign from a second draw.
pub open spec fn draw_cell(state: u64, keep_below: Option<u64>) -> (u64, Option<i8>) {
    let r = lcg_step(state);
    match keep_below {
        None => (r, Some(sign_of(r))),
        Some(t) => if r % DENSITY_SCALE < t {
            let s = lcg_step(r);
            (s, Some(sign_of(s)))
        } else {
            (r, None)
        },
    }
}

/// The first `n` cells of a row, drawn in column order from `state`: the state
/// afterwards and the row's entries `(column, sign)`.
pub open spec fn draw_row(state: u64, n: nat, keep_below: Option<u64>) -> (u64, Seq<(usize, i8)>)
    decreases n,
{
    if n == 0 {
        (state, Seq::empty())
    } else {
        let prev = draw_row(state, (n - 1) as nat, keep_below);
        let cell = draw_cell(prev.0, keep_below);
        match cell.1 {
            Some(v) => (cell.0, prev.1.push(((n - 1) as usize, v))),
            None => (cell.0, prev.1),
        }
    }
}

/// The first `m` rows of `cols` cells each, drawn row by row from `state`.
pub open spec fn draw_rows(state: u64, m: nat, cols: nat, keep_below: Option<u64>) -> (
    u64,
    Seq<Seq<(usize, i8)>>,
)
    decreases m,
{
    if m == 0 {
        (state, Seq::empty())
    } else {
        let prev = draw_rows(state, (m - 1) as nat, cols, keep_below);
        let row = draw_row(prev.0, cols, keep_below);
        (row.0, prev.1.push(row.1))
    }
}

/// The seed of a reservoir's input weights: `seed + INPUT_SEED_OFFSET` modulo 2^64.
pub open spec fn input_seed(seed: u64) -> u64 {
    ((seed as nat + INPUT_SEED_OFFSET as nat) % lcg_modulus()) as u64
}

/// A row is well formed when its columns are below `cols` and strictly
/// increasing, and every sign is +1 or -1.
pub open spec fn row_well_formed(row: Seq<(usize, i8)>, cols: nat) -> bool {
    &&& forall|k: int| 0 <= k < row.len() ==> #[trigger] row[k].0 < cols
    &&& forall|k: int| 0 <= k < row.len() ==> (#[trigger] row[k].1 == 1 || row[k].1 == -1)
    &&& forall|k: int, l: int| 0 <= k < l < row.len() ==> #[trigger] row[k].0 < #[trigger] row[l].0
}

/// The rows of a nested vector, each by its view.
pub open spec fn row_views<T>(data: Seq<Vec<T>>) -> Seq<Seq<T>> {
    data.map_values(|r: Vec<T>| r@)
}

/// The number of items in all rows together.
pub open spec fn total_len<T>(rows: Seq<Seq<T>>) -> nat
    decreases rows.len(),
{
    if rows.len() == 0 {
        0
    } else {
        total_len(rows.drop_last()) + rows.last().len()
    }
}

/// A sparse matrix of signs: the structure of a reservoir's weight matrix
/// before it is scaled. Row `i` lists its non-zero cells as `(column, sign)`.
pub struct SignMatrix {
    pub rows: usize,
    pub cols: usize,
    pub data: Vec<Vec<(usize, i8)>>,
}

impl SignMatrix {
    /// The rows of the matrix, each as a sequence of `(column, sign)`.
    pub open spec fn entries(&self) -> Seq<Seq<(usize, i8)>> {
        row_views(self.data@)
    }

    /// One row per matrix row, each well formed.
    pub open spec fn well_formed(&self) -> bool {
        &&& self.data@.len() == self.rows
        &&& forall|i: int| 0 <= i < self.rows ==> row_well_formed(#[trigger] self.entries()[i], self.cols as nat)
    }

    /// The number of non-zero cells.
    pub open spec fn nnz_spec(&self) -> nat {
        total_len(self.entries())
    }
}

/// The rows drawn by `draw_row` are well formed.
pub proof fn lemma_draw_row_well_formed(state: u64, n: nat, keep_below: Option<u64>)
    requires
        n <= usize::MAX,
    ensures
        row_well_formed(draw_row(state, n, keep_below).1, n),
        draw_row(state, n, keep_below).1.len() <= n,
    decreases n,
{
    if n > 0 {
        let prev = draw_row(state, (n - 1) as nat, keep_below);
        lemma_draw_row_well_formed(state, (n - 1) as nat, keep_below);
        let cell = draw_cell(prev.0, keep_below);
        if let Some(v) = cell.1 {
            let row = prev.1.push(((n - 1) as usize, v));
            assert(v == 1 || v == -1);
            assert forall|k: int| 0 <= k < row.len() implies #[trigger] row[k].0 < n && (row[k].1 == 1
                || row[k].1 == -1) by {
                if k < prev.1.len() {
                    assert(row[k] == prev.1[k]);
                }
            }
            assert forall|k: int, l: int| 0 <= k < l < row.len() implies #[trigger] row[k].0
                < #[trigger] row[l].0 by {
                assert(row[k] == prev.1[k]);
                if l < prev.1.len() {
                    assert(row[l] == prev.1[l]);
                }
            }
        } else {
            let row = prev.1;
            assert forall|k: int| 0 <= k < row.len() implies #[trigger] row[k].0 < n by {}
        }
    }
}

/// `draw_rows` draws exactly `m` rows.
pub proof fn lemma_draw_rows_len(state: u64, m: nat, cols: nat, keep_below: Option<u64>)
    ensures
        draw_rows(state, m, cols, keep_below).1.len() == m,
    decreases m,
{
    if m > 0 {
        lemma_draw_rows_len(state, (m - 1) as nat, cols, keep_below);
    }
}

/// Every row drawn by `draw_rows` is well formed, and there are `m` of them.
pub proof fn lemma_draw_rows_well_formed(state: u64, m: nat, cols: nat, keep_below: Option<u64>)
    requires
        cols <= usize::MAX,
    ensures
        draw_rows(state, m, cols, keep_below).1.len() == m,
        forall|i: int|
            0 <= i < m ==> row_well_formed(#[trigger] draw_rows(state, m, cols, keep_below).1[i], cols),
    decreases m,
{
    if m > 0 {
        let prev = draw_rows(state, (m - 1) as nat, cols, keep_below);
        lemma_draw_rows_well_formed(state, (m - 1) as nat, cols, keep_below);
        lemma_draw_row_well_formed(prev.0, cols, keep_below);
    }
}

/// The sign of a draw, as an `i8`.
fn sign_from(r: u64) -> (s: i8)
    ensures
        s == sign_of(r),
{
    if r % 2 == 0 {
        1
    } else {
        -1
    }
}

/// Draws one cell from the generator in `state`.
fn next_cell(state: &mut u64, keep_below: Option<u64>) -> (c: Option<i8>)
    ensures
        *final(state) == draw_cell(*old(state), keep_below).0,
        c == draw_cell(*old(state), keep_below).1,
{
    let r = lcg_next(state);
    match keep_below {
        None => Some(sign_from(r)),
        Some(t) => {
            if r % DENSITY_SCALE < t {
                let s = lcg_next(state);
                Some(sign_from(s))
            } else {
                None
            }
        },
    }
}

/// Draws one row of `cols` cells from the generator in `state`.
fn next_row(state: &mut u64, cols: usize, keep_below: Option<u64>) -> (row: Vec<(usize, i8)>)
    ensures
        *final(state) == draw_row(*old(state), cols as nat, keep_below).0,
        row@ == draw_row(*old(state), cols as nat, keep_below).1,
{
    let ghost s0: u64 = *state;
    let mut row: Vec<(usize, i8)> = Vec::new();
    let mut j: usize = 0;
    while j < cols
        invariant
            j <= cols,
            *state == draw_row(s0, j as nat, keep_below).0,
            row@ == draw_row(s0, j as nat, keep_below).1,
        decreases cols - j,
    {
        let c = next_cell(state, keep_below);
        match c {
            Some(v) => row.push((j, v)),
            None => {},
        }
        j = j + 1;
    }
    row
}

impl SignMatrix {
    /// Draws a `rows` x `cols` matrix from the generator seeded with `seed`,
    /// cell by cell in row-major order.
    fn draw(rows: usize, cols: usize, keep_below: Option<u64>, seed: u64) -> (m: SignMatrix)
        ensures
            m.rows == rows,
            m.cols == cols,
            m.entries() == draw_rows(seed, rows as nat, cols as nat, keep_below).1,
            m.well_formed(),
    {
        let mut state: u64 = seed;
        let mut data: Vec<Vec<(usize, i8)>> = Vec::new();
        let mut i: usize = 0;
        while i < rows
            invariant
                i <= rows,
                state == draw_rows(seed, i as nat, cols as nat, keep_below).0,
                row_views(data@) == draw_rows(seed, i as nat, cols as nat, keep_below).1,
            decreases rows - i,
        {
            let row = next_row(&mut state, cols, keep_below);
            let ghost before = data@;
            data.push(row);
            assert(row_views(data@) =~= row_views(before).push(row@));
            i = i + 1;
        }
        let m = SignMatrix { rows, cols, data };
        proof {
            lemma_draw_rows_well_formed(seed, rows as nat, cols as nat, keep_below);
        }
        m
    }

    /// A random sparse sign matrix, as the reservoir's weights before scaling.
    ///
    /// The generator is seeded with `seed`. For each cell in row-major order a
    /// draw `r` keeps the cell iff `r % DENSITY_SCALE < keep_below`; a kept cell
    /// takes its sign from the next draw. A density `d` in [0, 1] corresponds to
    /// `keep_below` = the number of `k` in `0..DENSITY_SCALE` with
    /// `k / DENSITY_SCALE < d`.
    pub fn random_sparse(rows: usize, cols: usize, keep_below: u64, seed: u64) -> (m: SignMatrix)
        ensures
            m.rows == rows,
            m.cols == cols,
            m.entries() == draw_rows(seed, rows as nat, cols as nat, Some(keep_below)).1,
            m.well_formed(),
    {
        Self::draw(rows, cols, Some(keep_below), seed)
    }

    /// The dense sign matrix of a reservoir's input weights: `size` rows of
    /// `input_dim` cells, each taking its sign from one draw of the generator
    /// seeded with `seed + INPUT_SEED_OFFSET` (wrapping).
    pub fn input_weights(size: usize, input_dim: usize, seed: u64) -> (m: SignMatrix)
        ensures
            m.rows == size,
            m.cols == input_dim,
            m.entries() == draw_rows(input_seed(seed), size as nat, input_dim as nat, None).1,
            m.well_formed(),
    {
        let s = seed.wrapping_add(INPUT_SEED_OFFSET);
        assert(s == input_seed(seed));
        Self::draw(size, input_dim, None, s)
    }
}

/// Adding one more row to a prefix adds that row's length.
proof fn lemma_total_len_step<T>(rows: Seq<Seq<T>>, i: int)
    requires
        0 <= i < rows.len(),
    ensures
        total_len(rows.take(i + 1)) == total_len(rows.take(i)) + rows[i].len(),
{
    assert(rows.take(i + 1).drop_last() =~= rows.take(i));
}

/// A prefix of the rows holds no more items than all of them.
proof fn lemma_total_len_prefix<T>(rows: Seq<Seq<T>>, i: int)
    requires
        0 <= i <= rows.len(),
    ensures
        total_len(rows.take(i)) <= total_len(rows),
    decreases rows.len() - i,
{
    if i < rows.len() {
        lemma_total_len_step(rows, i);
        lemma_total_len_prefix(rows, i + 1);
    } else {
        assert(rows.take(i) =~= rows);
    }
}

/// A row whose columns are strictly increasing and below `cols` has at most
/// `cols` entries.
proof fn lemma_row_len_bounded(row: Seq<(usize, i8)>, cols: nat)
    requires
        row_well_formed(row, cols),
    ensures
        row.len() <= cols,
    decreases row.len(),
{
    if row.len() > 0 {
        let last = row.last().0;
        let front = row.drop_last();
        assert forall|k: int| 0 <= k < front.len() implies #[trigger] front[k].0 < last as nat by {
            assert(front[k] == row[k]);
            assert(row[k].0 < row[row.len() - 1].0);
        }
        assert forall|k: int| 0 <= k < front.len() implies (#[trigger] front[k].1 == 1 || front[k].1
            == -1) by {
            assert(front[k] == row[k]);
        }
        assert forall|k: int, l: int| 0 <= k < l < front.len() implies #[trigger] front[k].0
            < #[trigger] front[l].0 by {
            assert(front[k] == row[k]);
            assert(front[l] == row[l]);
        }
        lemma_row_len_bounded(front, last as nat);
        assert(row[row.len() - 1].0 < cols);
    }
}

/// Rows that are each well formed for `cols` columns hold at most
/// `rows.len() * cols` entries together.
proof fn lemma_total_len_bounded(rows: Seq<Seq<(usize, i8)>>, cols: nat)
    requires
        forall|i: int| 0 <= i < rows.len() ==> row_well_formed(#[trigger] rows[i], cols),
    ensures
        total_len(rows) <= rows.len() * cols,
    decreases rows.len(),
{
    if rows.len() > 0 {
        let front = rows.drop_last();
        assert forall|i: int| 0 <= i < front.len() implies row_well_formed(#[trigger] front[i], cols) by {
            assert(front[i] == rows[i]);
        }
        lemma_total_len_bounded(front, cols);
        lemma_row_len_bounded(rows.last(), cols);
        let m = rows.len();
        assert((m - 1) * cols + cols == m * cols) by (nonlinear_arith);
    }
}

/// Counts the items in all rows of a nested vector; `None` when the count
/// does not fit in `usize`.
pub fn count_entries<T>(data: &Vec<Vec<T>>) -> (n: Option<usize>)
    ensures
        match n {
            Some(c) => c == total_len(row_views(data@)),
            None => total_len(row_views(data@)) > usize::MAX,
        },
{
    let ghost rows = row_views(data@);
    let mut total: usize = 0;
    let mut i: usize = 0;
    while i < data.len()
        invariant
            i <= data.len(),
            rows == row_views(data@),
            total == total_len(rows.take(i as int)),
        decreases data.len() - i,
    {
        let l = data[i].len();
        proof {
            lemma_total_len_step(rows, i as int);
            assert(rows[i as int] == data@[i as int]@);
        }
        if total > usize::MAX - l {
            proof {
                lemma_total_len_prefix(rows, i + 1);
            }
            return None;
        }
        total = total + l;
        i = i + 1;
    }
    assert(rows.take(data.len() as int) =~= rows);
    Some(total)
}

/// The number of non-zero cells of a well-formed sign matrix is at most
/// `rows * cols`.
pub proof fn law_nnz_at_most_cells(m: SignMatrix)
    requires
        m.well_formed(),
    ensures
        m.nnz_spec() <= m.rows * m.cols,
{
    lemma_total_len_bounded(m.entries(), m.cols as nat);
}

impl SignMatrix {
    /// The identity pattern of size `n`: row `i` holds `+1` in column `i`.
    pub fn identity(n: usize) -> (m: SignMatrix)
        ensures
            m.rows == n,
            m.cols == n,
            m.entries().len() == n,
            forall|i: int| 0 <= i < n ==> #[trigger] m.entries()[i] == seq![(i as usize, 1i8)],
            m.well_formed(),
    {
        let mut data: Vec<Vec<(usize, i8)>> = Vec::new();
        let mut i: usize = 0;
        while i < n
            invariant
                i <= n,
                data@.len() == i,
                forall|k: int| 0 <= k < i ==> #[trigger] data@[k]@ == seq![(k as usize, 1i8)],
            decreases n - i,
        {
            let mut row: Vec<(usize, i8)> = Vec::new();
            row.push((i, 1));
            assert(row@ =~= seq![(i, 1i8)]);
            data.push(row);
            i = i + 1;
        }
        let m = SignMatrix { rows: n, cols: n, data };
        assert forall|k: int| 0 <= k < n implies row_well_formed(#[trigger] m.entries()[k], n as nat) by {
            assert(m.entries()[k] == m.data@[k]@);
        }
        m
    }

    /// The number of non-zero cells.
    pub fn nnz(&self) -> (n: usize)
        requires
            self.nnz_spec() <= usize::MAX,
        ensures
            n == self.nnz_spec(),
    {
        match count_entries(&self.data) {
            Some(c) => c,
            None => 0,
        }
    }
}

/// With `keep_below == Some(0)` no cell of a row is kept.
proof fn lemma_row_empty(state: u64, n: nat)
    ensures
        draw_row(state, n, Some(0u64)).1.len() == 0,
    decreases n,
{
    if n > 0 {
        lemma_row_empty(state, (n - 1) as nat);
    }
}

/// Without a threshold, or with one at or above `DENSITY_SCALE`, every cell of
/// a row is kept: entry `k` sits in column `k`.
proof fn lemma_row_full(state: u64, n: nat, keep_below: Option<u64>)
    requires
        n <= usize::MAX,
        keep_below matches Some(t) ==> t >= DENSITY_SCALE,
    ensures
        draw_row(state, n, keep_below).1.len() == n,
        forall|k: int| 0 <= k < n ==> #[trigger] draw_row(state, n, keep_below).1[k].0 == k,
    decreases n,
{
    if n > 0 {
        let prev = draw_row(state, (n - 1) as nat, keep_below);
        lemma_row_full(state, (n - 1) as nat, keep_below);
        let r = lcg_step(prev.0);
        assert(r % DENSITY_SCALE < DENSITY_SCALE);
        let row = draw_row(state, n, keep_below).1;
        assert forall|k: int| 0 <= k < n implies #[trigger] row[k].0 == k by {
            if k < n - 1 {
                assert(row[k] == prev.1[k]);
            }
        }
    }
}

/// The rows that `draw_rows` produced, each of the given length and with entry
/// `k` in column `k`.
pub open spec fn rows_full(rows: Seq<Seq<(usize, i8)>>, m: nat, cols: nat) -> bool {
    &&& rows.len() == m
    &&& forall|i: int| 0 <= i < m ==> (#[trigger] rows[i]).len() == cols
    &&& forall|i: int, k: int| 0 <= i < m && 0 <= k < cols ==> (#[trigger] rows[i][k]).0 == k
}

proof fn lemma_rows_full(state: u64, m: nat, cols: nat, keep_below: Option<u64>)
    requires
        cols <= usize::MAX,
        keep_below matches Some(t) ==> t >= DENSITY_SCALE,
    ensures
        rows_full(draw_rows(state, m, cols, keep_below).1, m, cols),
    decreases m,
{
    if m > 0 {
        let prev = draw_rows(state, (m - 1) as nat, cols, keep_below);
        lemma_rows_full(state, (m - 1) as nat, cols, keep_below);
        lemma_row_full(prev.0, cols, keep_below);
        let rows = draw_rows(state, m, cols, keep_below).1;
        assert forall|i: int, k: int| 0 <= i < m && 0 <= k < cols implies (#[trigger] rows[i][k]).0
            == k by {
            if i < m - 1 {
                assert(rows[i] == prev.1[i]);
            }
        }
    }
}

/// Density zero: with `keep_below == 0` a random sparse matrix has no
/// non-zero cell, whatever the seed and shape.
pub proof fn law_random_sparse_keep_none(seed: u64, rows: nat, cols: nat)
    ensures
        draw_rows(seed, rows, cols, Some(0u64)).1.len() == rows,
        forall|i: int| 0 <= i < rows ==> (#[trigger] draw_rows(seed, rows, cols, Some(0u64)).1[i]).len() == 0,
    decreases rows,
{
    if rows > 0 {
        let prev = draw_rows(seed, (rows - 1) as nat, cols, Some(0u64));
        law_random_sparse_keep_none(seed, (rows - 1) as nat, cols);
        lemma_row_empty(prev.0, cols);
        let all = draw_rows(seed, rows, cols, Some(0u64)).1;
        assert forall|i: int| 0 <= i < rows implies (#[trigger] all[i]).len() == 0 by {
            if i < rows - 1 {
                assert(all[i] == prev.1[i]);
            }
        }
    }
}

/// Full density: with `keep_below >= DENSITY_SCALE` every cell of a random
/// sparse matrix is non-zero, whatever the seed.
pub proof fn law_random_sparse_keep_all(seed: u64, rows: nat, cols: nat, keep_below: u64)
    requires
        cols <= usize::MAX,
        keep_below >= DENSITY_SCALE,
    ensures
        rows_full(draw_rows(seed, rows, cols, Some(keep_below)).1, rows, cols),
{
    lemma_rows_full(seed, rows, cols, Some(keep_below));
}

/// Input weights are dense: every cell of every row holds a sign.
pub proof fn law_input_weights_dense(seed: u64, size: nat, input_dim: nat)
    requires
        input_dim <= usize::MAX,
    ensures
        rows_full(draw_rows(input_seed(seed), size, input_dim, None).1, size, input_dim),
{
    lemma_rows_full(input_seed(seed), size, input_dim, None);
}

/// Full rows hold `m * cols` entries together.
proof fn lemma_full_total(rows: Seq<Seq<(usize, i8)>>, m: nat, cols: nat)
    requires
        rows.len() == m,
        forall|i: int| 0 <= i < m ==> (#[trigger] rows[i]).len() == cols,
    ensures
        total_len(rows) == m * cols,
    decreases m,
{
    if m > 0 {
        let front = rows.drop_last();
        assert forall|i: int| 0 <= i < m - 1 implies (#[trigger] front[i]).len() == cols by {
            assert(front[i] == rows[i]);
        }
        lemma_full_total(front, (m - 1) as nat, cols);
        assert((m - 1) * cols + cols == m * cols) by (nonlinear_arith);
    }
}

/// Empty rows hold no entries.
proof fn lemma_empty_total(rows: Seq<Seq<(usize, i8)>>)
    requires
        forall|i: int| 0 <= i < rows.len() ==> (#[trigger] rows[i]).len() == 0,
    ensures
        total_len(rows) == 0,
    decreases rows.len(),
{
    if rows.len() > 0 {
        let front = rows.drop_last();
        assert forall|i: int| 0 <= i < front.len() implies (#[trigger] front[i]).len() == 0 by {
            assert(front[i] == rows[i]);
        }
        lemma_empty_total(front);
    }
}

/// The number of non-zero cells at the two ends of the density scale: none
/// with `keep_below == 0`, all `rows * cols` with `keep_below >= DENSITY_SCALE`;
/// a dense input weight matrix has `size * input_dim` of them.
pub proof fn law_nnz_at_density_ends(seed: u64, rows: nat, cols: nat, keep_below: u64)
    requires
        cols <= usize::MAX,
    ensures
        total_len(draw_rows(seed, rows, cols, Some(0u64)).1) == 0,
        keep_below >= DENSITY_SCALE ==> total_len(draw_rows(seed, rows, cols, Some(keep_below)).1)
            == rows * cols,
        total_len(draw_rows(input_seed(seed), rows, cols, None).1) == rows * cols,
{
    law_random_sparse_keep_none(seed, rows, cols);
    lemma_empty_total(draw_rows(seed, rows, cols, Some(0u64)).1);
    if keep_below >= DENSITY_SCALE {
        lemma_rows_full(seed, rows, cols, Some(keep_below));
        lemma_full_total(draw_rows(seed, rows, cols, Some(keep_below)).1, rows, cols);
    }
    lemma_rows_full(input_seed(seed), rows, cols, None);
    lemma_full_total(draw_rows(input_seed(seed), rows, cols, None).1, rows, cols);
}

} // verus!
