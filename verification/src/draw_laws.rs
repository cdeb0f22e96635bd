//! Laws that tie the sign matrices to the generator's draws, stated with the
//! generator's arithmetic written out.

use vstd::prelude::*;
use crate::lcg::{lcg_iter, lcg_step, lemma_lcg_iter_add};
use crate::sign_matrix::{draw_row, draw_rows, input_seed, total_len};

verus! {

proof fn lemma_dense_row(s: u64, n: nat)
    requires
        n <= usize::MAX,
    ensures
        draw_row(s, n, None).0 == lcg_iter(s, n),
        draw_row(s, n, None).1.len() == n,
        forall|k: int|
            0 <= k < n ==> #[trigger] draw_row(s, n, None).1[k] == (k as usize, if lcg_iter(
                s,
                (k + 1) as nat,
            ) % 2 == 0 {
                1i8
            } else {
                -1i8
            }),
    decreases n,
{
    if n > 0 {
        lemma_dense_row(s, (n - 1) as nat);
        let prev = draw_row(s, (n - 1) as nat, None);
        let row = draw_row(s, n, None).1;
        assert forall|k: int| 0 <= k < n implies #[trigger] row[k] == (k as usize, if lcg_iter(
            s,
            (k + 1) as nat,
        ) % 2 == 0 {
            1i8
        } else {
            -1i8
        }) by {
            if k < n - 1 {
                assert(row[k] == prev.1[k]);
            }
        }
    }
}

proof fn lemma_dense_rows(s: u64, m: nat, c: nat)
    requires
        c <= usize::MAX,
    ensures
        draw_rows(s, m, c, None).0 == lcg_iter(s, m * c),
        draw_rows(s, m, c, None).1.len() == m,
        forall|i: int, k: int|
            0 <= i < m && 0 <= k < c ==> #[trigger] draw_rows(s, m, c, None).1[i][k] == (
            k as usize,
            if lcg_iter(s, (i * c + k + 1) as nat) % 2 == 0 {
                1i8
            } else {
                -1i8
            },
        ),
    decreases m,
{
    if m > 0 {
        lemma_dense_rows(s, (m - 1) as nat, c);
        let prev = draw_rows(s, (m - 1) as nat, c, None);
        let start = (m - 1) * c;
        assert(start >= 0) by (nonlinear_arith)
            requires
                m >= 1,
                c >= 0,
                start == (m - 1) * c,
        ;
        lemma_dense_row(prev.0, c);
        lemma_lcg_iter_add(s, start as nat, c);
        assert(start + c == m * c) by (nonlinear_arith)
            requires
                start == (m - 1) * c,
        ;
        let rows = draw_rows(s, m, c, None).1;
        assert forall|i: int, k: int| 0 <= i < m && 0 <= k < c implies #[trigger] rows[i][k] == (
            k as usize,
            if lcg_iter(s, (i * c + k + 1) as nat) % 2 == 0 {
                1i8
            } else {
                -1i8
            },
        ) by {
            if i < m - 1 {
                assert(rows[i] == prev.1[i]);
            } else {
                assert(rows[i] == draw_row(prev.0, c, None).1);
                lemma_lcg_iter_add(s, start as nat, (k + 1) as nat);
            }
        }
    }
}

/// Every input weight is the parity sign of its own draw: cell `k` of row `i`
/// takes draw number `i * input_dim + k + 1` of the generator seeded with
/// `seed + 12345` modulo 2^64 (+1 for an even draw, -1 for an odd one).
pub proof fn law_input_weights_cells(seed: u64, size: nat, input_dim: nat)
    requires
        input_dim <= usize::MAX,
    ensures
        forall|i: int, k: int|
            0 <= i < size && 0 <= k < input_dim ==> #[trigger] draw_rows(
                input_seed(seed),
                size,
                input_dim,
                None,
            ).1[i][k] == (k as usize, if lcg_iter(
                ((seed as nat + 12345) % 0x1_0000_0000_0000_0000) as u64,
                (i * input_dim + k + 1) as nat,
            ) % 2 == 0 {
                1i8
            } else {
                -1i8
            }),
{
    lemma_dense_rows(input_seed(seed), size, input_dim);
}

/// The first input weight, with the generator's arithmetic written out: the
/// sign of `((seed + 12345) * 6364136223846793005 + 1442695040888963407)`
/// modulo 2^64, +1 when even and -1 when odd.
pub proof fn law_input_weights_first(seed: u64, size: nat, input_dim: nat)
    requires
        size >= 1,
        1 <= input_dim <= usize::MAX,
    ensures
        draw_rows(input_seed(seed), size, input_dim, None).1[0][0] == (0usize, if (((seed as nat
            + 12345) % 0x1_0000_0000_0000_0000) * 6364136223846793005 + 1442695040888963407)
            % 0x1_0000_0000_0000_0000 % 2 == 0 {
            1i8
        } else {
            -1i8
        }),
{
    law_input_weights_cells(seed, size, input_dim);
    let s0 = ((seed as nat + 12345) % 0x1_0000_0000_0000_0000) as u64;
    assert(draw_rows(input_seed(seed), size, input_dim, None).1[0][0] == (0usize, if lcg_iter(
        s0,
        1,
    ) % 2 == 0 {
        1i8
    } else {
        -1i8
    }));
    assert(lcg_iter(s0, 0) == s0);
    assert(lcg_iter(s0, 1) == lcg_step(s0));
    reveal(lcg_step);
}

/// One step of a 64-bit linear congruential generator with multiplier
/// 6364136223846793005 and increment 1442695040888963407, on natural numbers.
pub open spec fn lcg_formula(x: nat) -> nat {
    (x * 6364136223846793005 + 1442695040888963407) % 0x1_0000_0000_0000_0000
}

proof fn lemma_rows_first(s: u64, m: nat, c: nat, keep_below: Option<u64>)
    requires
        m >= 1,
    ensures
        draw_rows(s, m, c, keep_below).1[0] == draw_row(s, c, keep_below).1,
    decreases m,
{
    if m > 1 {
        lemma_rows_first(s, (m - 1) as nat, c, keep_below);
        crate::sign_matrix::lemma_draw_rows_len(s, (m - 1) as nat, c, keep_below);
    } else {
        assert(draw_rows(s, 0, c, keep_below).0 == s);
    }
}

proof fn lemma_row_extends(s: u64, p: nat, n: nat, keep_below: Option<u64>)
    requires
        p <= n <= usize::MAX,
    ensures
        draw_row(s, n, keep_below).1.len() >= draw_row(s, p, keep_below).1.len(),
        forall|k: int|
            0 <= k < draw_row(s, p, keep_below).1.len() ==> #[trigger] draw_row(s, n, keep_below).1[k]
                == draw_row(s, p, keep_below).1[k],
        forall|k: int|
            draw_row(s, p, keep_below).1.len() <= k < draw_row(s, n, keep_below).1.len()
                ==> #[trigger] draw_row(s, n, keep_below).1[k].0 >= p,
    decreases n,
{
    if n > p {
        lemma_row_extends(s, p, (n - 1) as nat, keep_below);
    }
}

/// The first cell of a random sparse matrix, with the generator's arithmetic
/// written out: the first draw `r1` from `seed` keeps cell (0, 0) iff
/// `r1 % 10000 < keep_below`, and a kept cell is +1 iff the next draw is even.
pub proof fn law_random_sparse_first_cell(seed: u64, rows: nat, cols: nat, keep_below: u64)
    requires
        rows >= 1,
        1 <= cols <= usize::MAX,
    ensures
        lcg_formula(seed as nat) % 10000 < keep_below ==> {
            &&& draw_rows(seed, rows, cols, Some(keep_below)).1[0].len() >= 1
            &&& draw_rows(seed, rows, cols, Some(keep_below)).1[0][0] == (0usize, if lcg_formula(
                lcg_formula(seed as nat),
            ) % 2 == 0 {
                1i8
            } else {
                -1i8
            })
        },
        lcg_formula(seed as nat) % 10000 >= keep_below ==> forall|k: int|
            0 <= k < draw_rows(seed, rows, cols, Some(keep_below)).1[0].len() ==> #[trigger] draw_rows(
                seed,
                rows,
                cols,
                Some(keep_below),
            ).1[0][k].0 != 0,
{
    let kb = Some(keep_below);
    lemma_rows_first(seed, rows, cols, kb);
    lemma_row_extends(seed, 1, cols, kb);
    let first = draw_row(seed, 1, kb);
    assert(draw_row(seed, 0, kb).0 == seed);
    let r1 = lcg_step(seed);
    let r2 = lcg_step(r1);
    reveal(lcg_step);
    assert(r1 as nat == lcg_formula(seed as nat));
    assert(r2 as nat == lcg_formula(lcg_formula(seed as nat)));
    if r1 % 10000 < keep_below {
        assert(first.1 =~= seq![(0usize, if r2 % 2 == 0 { 1i8 } else { -1i8 })]);
    } else {
        assert(first.1.len() == 0);
    }
}

/// Draw number `base + j + g + 1` of the generator seeded with `seed`: in a
/// row whose draws start after draw `base`, the draw that decides column `j`
/// when `g` cells of the row before it were kept.
pub open spec fn draw_at(seed: u64, base: nat, j: nat, g: nat) -> u64 {
    lcg_iter(seed, base + j + g + 1)
}

/// A row of `n` cells of a random sparse matrix, whose draws follow draw
/// `base` of the generator seeded with `seed`, in closed form. Each cell
/// takes one draw that decides it; a kept cell takes one more for its sign.
/// So column `j`, with `g` kept cells before it, is decided by draw
/// `base + j + g + 1`:
/// - the row's `k`-th entry sits in a column `c < n` whose deciding draw is
///   below the threshold (modulo 10000), and its sign is +1 iff the draw after
///   that one is even;
/// - every column between two consecutive entries (or before the first, or
///   after the last) has a deciding draw at or above the threshold;
/// - the columns increase along the row.
pub open spec fn row_follows_draws(seed: u64, base: nat, row: Seq<(usize, i8)>, n: nat, keep_below: u64) -> bool {
    &&& forall|k: int|
        0 <= k < row.len() ==> {
            &&& (#[trigger] row[k]).0 < n
            &&& draw_at(seed, base, row[k].0 as nat, k as nat) % 10000 < keep_below
            &&& row[k].1 == if lcg_iter(seed, (base + row[k].0 + k + 2) as nat) % 2 == 0 {
                1i8
            } else {
                -1i8
            }
        }
    &&& forall|k: int, l: int| 0 <= k < l < row.len() ==> (#[trigger] row[k]).0 < (#[trigger] row[l]).0
    &&& forall|g: int, j: nat|
        0 <= g <= row.len() && j < n && (g == 0 || row[g - 1].0 < j) && (g == row.len() || j
            < row[g].0) ==> #[trigger] draw_at(seed, base, j, g as nat) % 10000 >= keep_below
}

proof fn lemma_row_draws(seed: u64, base: nat, n: nat, keep_below: u64)
    requires
        n <= usize::MAX,
    ensures
        draw_row(lcg_iter(seed, base), n, Some(keep_below)).0 == lcg_iter(
            seed,
            base + n + draw_row(lcg_iter(seed, base), n, Some(keep_below)).1.len(),
        ),
        row_follows_draws(seed, base, draw_row(lcg_iter(seed, base), n, Some(keep_below)).1, n, keep_below),
    decreases n,
{
    let start = lcg_iter(seed, base);
    if n == 0 {
        let row = draw_row(start, 0, Some(keep_below)).1;
        assert(row.len() == 0);
    } else {
        lemma_row_draws(seed, base, (n - 1) as nat, keep_below);
        let prev = draw_row(start, (n - 1) as nat, Some(keep_below));
        let p = prev.1;
        let len = p.len();
        let row = draw_row(start, n, Some(keep_below)).1;
        let r = lcg_step(prev.0);
        assert(r == lcg_iter(seed, base + n + len));
        assert(r == draw_at(seed, base, (n - 1) as nat, len));
        if r % 10000 < keep_below {
            let s = lcg_step(r);
            assert(s == lcg_iter(seed, base + n + len + 1));
            assert(row == p.push(((n - 1) as usize, sign_of_draw(s))));
            assert forall|k: int| 0 <= k < row.len() implies {
                &&& (#[trigger] row[k]).0 < n
                &&& draw_at(seed, base, row[k].0 as nat, k as nat) % 10000 < keep_below
                &&& row[k].1 == if lcg_iter(seed, (base + row[k].0 + k + 2) as nat) % 2 == 0 {
                    1i8
                } else {
                    -1i8
                }
            } by {
                if k < len {
                    assert(row[k] == p[k]);
                }
            }
            assert forall|k: int, l: int| 0 <= k < l < row.len() implies (#[trigger] row[k]).0
                < (#[trigger] row[l]).0 by {
                assert(row[k] == p[k]);
                if l < len {
                    assert(row[l] == p[l]);
                }
            }
            assert forall|g: int, j: nat|
                0 <= g <= row.len() && j < n && (g == 0 || row[g - 1].0 < j) && (g == row.len() || j
                    < row[g].0) implies #[trigger] draw_at(seed, base, j, g as nat) % 10000
                >= keep_below by {
                if g <= len {
                    if g > 0 {
                        assert(row[g - 1] == p[g - 1]);
                    }
                    if g < len {
                        assert(row[g] == p[g]);
                        assert(p[g].0 < n - 1);
                    } else {
                        assert(row[g].0 == n - 1);
                    }
                } else {
                    assert(row[g - 1].0 == n - 1);
                }
            }
        } else {
            assert(row == p);
            assert forall|g: int, j: nat|
                0 <= g <= row.len() && j < n && (g == 0 || row[g - 1].0 < j) && (g == row.len() || j
                    < row[g].0) implies #[trigger] draw_at(seed, base, j, g as nat) % 10000
                >= keep_below by {
                if g < len {
                    assert(p[g].0 < n - 1);
                } else if j < n - 1 {
                } else {
                    assert(j == n - 1);
                }
            }
        }
    }
}

/// The parity sign of a draw: +1 when it is even, -1 when it is odd.
spec fn sign_of_draw(r: u64) -> i8 {
    if r % 2 == 0 {
        1i8
    } else {
        -1i8
    }
}

proof fn lemma_rows_draws(seed: u64, m: nat, c: nat, keep_below: u64)
    requires
        c <= usize::MAX,
    ensures
        draw_rows(seed, m, c, Some(keep_below)).1.len() == m,
        draw_rows(seed, m, c, Some(keep_below)).0 == lcg_iter(
            seed,
            m * c + total_len(draw_rows(seed, m, c, Some(keep_below)).1),
        ),
        forall|i: int|
            0 <= i < m ==> row_follows_draws(
                seed,
                (i * c + total_len(draw_rows(seed, m, c, Some(keep_below)).1.take(i))) as nat,
                #[trigger] draw_rows(seed, m, c, Some(keep_below)).1[i],
                c,
                keep_below,
            ),
    decreases m,
{
    let rows = draw_rows(seed, m, c, Some(keep_below)).1;
    if m == 0 {
        assert(rows.len() == 0);
        assert(lcg_iter(seed, 0) == seed);
    } else {
        lemma_rows_draws(seed, (m - 1) as nat, c, keep_below);
        let prev = draw_rows(seed, (m - 1) as nat, c, Some(keep_below));
        let p = prev.1;
        let t = total_len(p);
        let base = ((m - 1) * c + t) as nat;
        assert((m - 1) * c >= 0) by (nonlinear_arith)
            requires
                m >= 1,
                c >= 0,
        ;
        lemma_row_draws(seed, base, c, keep_below);
        let row = draw_row(prev.0, c, Some(keep_below)).1;
        assert(rows == p.push(row));
        assert(rows.drop_last() =~= p);
        assert(total_len(rows) == t + row.len());
        assert(m * c == (m - 1) * c + c) by (nonlinear_arith);
        assert forall|i: int| 0 <= i < m implies row_follows_draws(
            seed,
            (i * c + total_len(rows.take(i))) as nat,
            #[trigger] rows[i],
            c,
            keep_below,
        ) by {
            if i < m - 1 {
                assert(rows[i] == p[i]);
                assert(rows.take(i) =~= p.take(i));
            } else {
                assert(rows.take(i) =~= p);
                assert(rows[i] == row);
            }
        }
    }
}

/// Random sparse matrices in closed form: row `i` of a matrix drawn from
/// `seed` follows the generator's draws after draw
/// `i * cols + (number of entries in rows 0..i)`, as `row_follows_draws` says;
/// together with the first-cell law this fixes every cell from the draws of
/// the 64-bit generator.
pub proof fn law_random_sparse_draws(seed: u64, rows: nat, cols: nat, keep_below: u64)
    requires
        cols <= usize::MAX,
    ensures
        forall|i: int|
            0 <= i < rows ==> row_follows_draws(
                seed,
                (i * cols + total_len(draw_rows(seed, rows, cols, Some(keep_below)).1.take(i))) as nat,
                #[trigger] draw_rows(seed, rows, cols, Some(keep_below)).1[i],
                cols,
                keep_below,
            ),
{
    lemma_rows_draws(seed, rows, cols, keep_below);
}

} // verus!
