//! The potential solver: for every air cell, the superposed potential
//! contributed by every metal cell.
//!
//! Precision policy: each contribution `voltage / distance` is truncated to an
//! integer before summation — the divisor is the integer square root of the
//! squared distance, and the division truncates toward zero. The cumulative
//! per-term rounding this introduces is deliberate; it is not the same as
//! summing exactly and truncating once at the end.

use vstd::prelude::*;
use vstd::arithmetic::div_mod::lemma_div_pos_is_pos;
use vstd::arithmetic::div_mod::lemma_div_nonincreasing;
use crate::cell::Cell;
use crate::grid::Grid;
use crate::grid::lemma_idx_bound;
use crate::grid::lemma_size_sq_bound;

verus! {

/// The integer square root: the largest `r` with `r * r <= n`.
pub open spec fn isqrt_spec(n: int) -> int
    decreases n,
{
    if n <= 0 {
        0
    } else {
        let r = isqrt_spec(n - 1);
        if (r + 1) * (r + 1) <= n {
            r + 1
        } else {
            r
        }
    }
}

/// `isqrt_spec(n)` is the unique `r` with `0 <= r` and
/// `r * r <= n < (r + 1) * (r + 1)`.
pub proof fn lemma_isqrt_bounds(n: int)
    requires
        n >= 0,
    ensures
        0 <= isqrt_spec(n),
        isqrt_spec(n) * isqrt_spec(n) <= n,
        n < (isqrt_spec(n) + 1) * (isqrt_spec(n) + 1),
    decreases n,
{
    if n > 0 {
        lemma_isqrt_bounds(n - 1);
        let r = isqrt_spec(n - 1);
        if (r + 1) * (r + 1) <= n {
            assert(n < ((r + 1) + 1) * ((r + 1) + 1)) by (nonlinear_arith)
                requires
                    n <= (r + 1) * (r + 1),
                    r >= 0,
            ;
        }
    }
}

/// No other value satisfies the integer-square-root bounds.
pub proof fn lemma_isqrt_unique(n: int, r: int)
    requires
        0 <= r,
        r * r <= n,
        n < (r + 1) * (r + 1),
    ensures
        r == isqrt_spec(n),
{
    lemma_isqrt_bounds(n);
    let s = isqrt_spec(n);
    assert(r == s) by (nonlinear_arith)
        requires
            r * r <= n,
            n < (r + 1) * (r + 1),
            s * s <= n,
            n < (s + 1) * (s + 1),
            r >= 0,
            s >= 0,
    ;
}

/// A positive number has a positive integer square root.
pub proof fn lemma_isqrt_pos(n: int)
    requires
        n >= 1,
    ensures
        isqrt_spec(n) >= 1,
{
    lemma_isqrt_bounds(n);
    if isqrt_spec(n) == 0 {
        assert((isqrt_spec(n) + 1) * (isqrt_spec(n) + 1) == 1) by (nonlinear_arith)
            requires
                isqrt_spec(n) == 0,
        ;
    }
}

/// The integer square root, by binary search.
pub fn isqrt(n: u32) -> (r: u32)
    ensures
        r == isqrt_spec(n as int),
{
    let n64 = n as u64;
    let mut lo: u64 = 0;
    let mut hi: u64 = 65536;
    while lo + 1 < hi
        invariant
            lo < hi <= 65536,
            lo * lo <= n64,
            (n64 as int) < hi * hi,
        decreases hi - lo,
    {
        let mid = lo + (hi - lo) / 2;
        proof {
            vstd::arithmetic::div_mod::lemma_fundamental_div_mod((hi - lo) as int, 2);
            vstd::arithmetic::div_mod::lemma_mod_division_less_than_divisor((hi - lo) as int, 2);
            assert(lo < mid < hi);
            assert((mid as int) * (mid as int) <= 4294967296) by (nonlinear_arith)
                requires
                    0 <= mid as int <= 65536,
            ;
        }
        if mid * mid <= n64 {
            lo = mid;
        } else {
            hi = mid;
        }
    }
    proof {
        lemma_isqrt_unique(n as int, lo as int);
    }
    lo as u32
}

/// Division truncating toward zero, for a positive divisor.
pub open spec fn tdiv(v: int, d: int) -> int {
    if v >= 0 {
        v / d
    } else {
        -((-v) / d)
    }
}

/// Truncating toward zero makes division odd in its dividend.
pub proof fn lemma_tdiv_odd(v: int, d: int)
    requires
        d >= 1,
    ensures
        tdiv(-v, d) == -tdiv(v, d),
{
}

/// The quotient's magnitude never exceeds the dividend's.
pub proof fn lemma_tdiv_bound(v: int, d: int)
    requires
        d >= 1,
    ensures
        v >= 0 ==> 0 <= tdiv(v, d) <= v,
        v < 0 ==> v <= tdiv(v, d) <= 0,
{
    if v >= 0 {
        lemma_div_pos_is_pos(v, d);
        lemma_div_nonincreasing(v, d);
    } else {
        lemma_div_pos_is_pos(-v, d);
        lemma_div_nonincreasing(-v, d);
    }
}

/// The squared Euclidean distance between `(x, y)` and `(i, j)`.
pub open spec fn dist2(x: int, y: int, i: int, j: int) -> int {
    (x - i) * (x - i) + (y - j) * (y - j)
}

/// One conductor cell's contribution to the potential: its voltage divided by
/// the (integer) distance, truncated toward zero.
pub open spec fn term(v: int, d2: int) -> int {
    tdiv(v, isqrt_spec(d2))
}

/// The contribution of grid cell `(i, j)` to the potential at `(x, y)`: zero
/// for air cells and for the cell at `(x, y)` itself (no self-contribution),
/// else the truncated inverse-distance term of the metal cell's voltage.
pub open spec fn cell_contribution(cells: Seq<Cell>, size: int, x: int, y: int, i: int, j: int) -> int {
    match cells[i * size + j] {
        Cell::Metal { voltage, .. } => if dist2(x, y, i, j) != 0 {
            term(voltage as int, dist2(x, y, i, j))
        } else {
            0
        },
        Cell::Air { .. } => 0,
    }
}

/// Sum of the contributions of row `i`'s cells `(i, 0) .. (i, jmax - 1)`.
pub open spec fn row_sum(cells: Seq<Cell>, size: int, x: int, y: int, i: int, jmax: int) -> int
    decreases jmax,
{
    if jmax <= 0 {
        0
    } else {
        row_sum(cells, size, x, y, i, jmax - 1) + cell_contribution(cells, size, x, y, i, jmax - 1)
    }
}

/// Sum of the contributions of all cells in rows `0 .. imax`, each row taken
/// over columns `0 .. jmax`: a row-major scan of the grid.
pub open spec fn rows_sum(cells: Seq<Cell>, size: int, x: int, y: int, imax: int, jmax: int) -> int
    decreases imax,
{
    if imax <= 0 {
        0
    } else {
        rows_sum(cells, size, x, y, imax - 1, jmax) + row_sum(cells, size, x, y, imax - 1, jmax)
    }
}

/// Sum of the contributions of column `j`'s cells `(0, j) .. (imax - 1, j)`.
pub open spec fn col_sum(cells: Seq<Cell>, size: int, x: int, y: int, j: int, imax: int) -> int
    decreases imax,
{
    if imax <= 0 {
        0
    } else {
        col_sum(cells, size, x, y, j, imax - 1) + cell_contribution(cells, size, x, y, imax - 1, j)
    }
}

/// The same total as [`rows_sum`], scanned column-major instead.
pub open spec fn cols_sum(cells: Seq<Cell>, size: int, x: int, y: int, jmax: int, imax: int) -> int
    decreases jmax,
{
    if jmax <= 0 {
        0
    } else {
        cols_sum(cells, size, x, y, jmax - 1, imax) + col_sum(cells, size, x, y, jmax - 1, imax)
    }
}

/// The potential at `(x, y)`: the superposition of every cell's contribution.
pub open spec fn potential_at(cells: Seq<Cell>, size: int, x: int, y: int) -> int {
    rows_sum(cells, size, x, y, size, size)
}

/// Peeling the last row off a column-major scan.
proof fn lemma_cols_sum_peel_row(
    cells: Seq<Cell>,
    size: int,
    x: int,
    y: int,
    jmax: int,
    imax: int,
)
    requires
        imax >= 1,
    ensures
        cols_sum(cells, size, x, y, jmax, imax) == cols_sum(cells, size, x, y, jmax, imax - 1)
            + row_sum(cells, size, x, y, imax - 1, jmax),
    decreases jmax,
{
    if jmax > 0 {
        lemma_cols_sum_peel_row(cells, size, x, y, jmax - 1, imax);
    }
}

/// An empty column-major scan sums to zero.
proof fn lemma_cols_sum_zero(cells: Seq<Cell>, size: int, x: int, y: int, jmax: int)
    ensures
        cols_sum(cells, size, x, y, jmax, 0) == 0,
    decreases jmax,
{
    if jmax > 0 {
        lemma_cols_sum_zero(cells, size, x, y, jmax - 1);
    }
}

/// Law: the superposition is independent of scan order — summing the grid
/// row-major and column-major gives the same total, so any implementation
/// visiting each cell once computes the same potential.
pub proof fn lemma_scan_order_independent(
    cells: Seq<Cell>,
    size: int,
    x: int,
    y: int,
    imax: int,
    jmax: int,
)
    ensures
        rows_sum(cells, size, x, y, imax, jmax) == cols_sum(cells, size, x, y, jmax, imax),
    decreases imax,
{
    if imax <= 0 {
        lemma_cols_sum_zero(cells, size, x, y, jmax);
        if imax < 0 {
            assert(cols_sum(cells, size, x, y, jmax, imax) == cols_sum(cells, size, x, y, jmax, 0))
                by {
                lemma_cols_sum_neg(cells, size, x, y, jmax, imax);
            }
        }
    } else {
        lemma_scan_order_independent(cells, size, x, y, imax - 1, jmax);
        lemma_cols_sum_peel_row(cells, size, x, y, jmax, imax);
    }
}

/// A column-major scan over a non-positive number of rows sums to zero.
proof fn lemma_cols_sum_neg(cells: Seq<Cell>, size: int, x: int, y: int, jmax: int, imax: int)
    requires
        imax <= 0,
    ensures
        cols_sum(cells, size, x, y, jmax, imax) == 0,
    decreases jmax,
{
    if jmax > 0 {
        lemma_cols_sum_neg(cells, size, x, y, jmax - 1, imax);
    }
}

/// Cell `n` is cell `c` with its voltage negated: air stays air, metal keeps
/// its pin and carries the opposite voltage.
pub open spec fn negated_cell(c: Cell, n: Cell) -> bool {
    match c {
        Cell::Air { .. } => n is Air,
        Cell::Metal { voltage, pin } => n matches Cell::Metal { voltage: nv, pin: np }
            && nv as int == -(voltage as int) && np == pin,
    }
}

/// Negating a voltage negates its contribution exactly: truncation toward
/// zero is symmetric about zero.
proof fn lemma_contribution_negation(
    cells: Seq<Cell>,
    neg: Seq<Cell>,
    size: int,
    x: int,
    y: int,
    i: int,
    j: int,
)
    requires
        neg.len() == cells.len(),
        forall|k: int| 0 <= k < cells.len() ==> negated_cell(cells[k], neg[k]),
        0 <= i * size + j < cells.len(),
    ensures
        cell_contribution(neg, size, x, y, i, j) == -cell_contribution(cells, size, x, y, i, j),
{
    let m = i * size + j;
    assert(negated_cell(cells[m], neg[m]));
    match cells[m] {
        Cell::Metal { voltage, pin } => {
            let d2 = dist2(x, y, i, j);
            if d2 != 0 {
                assert(d2 >= 1) by (nonlinear_arith)
                    requires
                        d2 == (x - i) * (x - i) + (y - j) * (y - j),
                        d2 != 0,
                ;
                lemma_isqrt_pos(d2);
                lemma_tdiv_odd(voltage as int, isqrt_spec(d2));
            }
        },
        Cell::Air { .. } => {},
    }
}

/// Negation, lifted over one row's partial sums.
proof fn lemma_row_sum_negation(
    cells: Seq<Cell>,
    neg: Seq<Cell>,
    size: int,
    x: int,
    y: int,
    i: int,
    jmax: int,
)
    requires
        neg.len() == cells.len(),
        forall|k: int| 0 <= k < cells.len() ==> negated_cell(cells[k], neg[k]),
        0 <= i,
        0 <= jmax <= size,
        0 <= i * size,
        i * size + size <= cells.len(),
    ensures
        row_sum(neg, size, x, y, i, jmax) == -row_sum(cells, size, x, y, i, jmax),
    decreases jmax,
{
    if jmax > 0 {
        lemma_row_sum_negation(cells, neg, size, x, y, i, jmax - 1);
        lemma_contribution_negation(cells, neg, size, x, y, i, jmax - 1);
    }
}

/// Negation, lifted over whole-grid partial sums.
proof fn lemma_rows_sum_negation(
    cells: Seq<Cell>,
    neg: Seq<Cell>,
    size: int,
    x: int,
    y: int,
    imax: int,
    jmax: int,
)
    requires
        neg.len() == cells.len(),
        forall|k: int| 0 <= k < cells.len() ==> negated_cell(cells[k], neg[k]),
        0 <= imax,
        0 <= jmax <= size,
        imax * size <= cells.len(),
    ensures
        rows_sum(neg, size, x, y, imax, jmax) == -rows_sum(cells, size, x, y, imax, jmax),
    decreases imax,
{
    if imax > 0 {
        let i = imax - 1;
        assert(0 <= i * size && i * size + size == imax * size) by (nonlinear_arith)
            requires
                0 <= i,
                0 <= size,
                imax == i + 1,
        ;
        lemma_rows_sum_negation(cells, neg, size, x, y, imax - 1, jmax);
        lemma_row_sum_negation(cells, neg, size, x, y, i, jmax);
    }
}

/// Law: superposition is linear under negation. If every metal cell's voltage
/// is negated (air untouched), the potential at every point is negated
/// exactly; per-term truncation toward zero preserves this.
pub proof fn lemma_potential_negation(cells: Seq<Cell>, neg: Seq<Cell>, size: int, x: int, y: int)
    requires
        0 <= size,
        cells.len() == size * size,
        neg.len() == cells.len(),
        forall|k: int| 0 <= k < cells.len() ==> negated_cell(cells[k], neg[k]),
    ensures
        potential_at(neg, size, x, y) == -potential_at(cells, size, x, y),
{
    lemma_rows_sum_negation(cells, neg, size, x, y, size, size);
}

/// Largest magnitude of one contribution: a voltage's magnitude is below
/// `2^31`, and division by a distance of at least 1 cannot grow it.
proof fn lemma_contrib_bound(cells: Seq<Cell>, size: int, x: int, y: int, i: int, j: int)
    ensures
        -0x80000000 <= cell_contribution(cells, size, x, y, i, j) <= 0x80000000,
{
    match cells[i * size + j] {
        Cell::Metal { voltage, .. } => {
            let d2 = dist2(x, y, i, j);
            if d2 != 0 {
                assert(d2 >= 1) by (nonlinear_arith)
                    requires
                        d2 == (x - i) * (x - i) + (y - j) * (y - j),
                        d2 != 0,
                ;
                lemma_isqrt_pos(d2 as int);
                lemma_tdiv_bound(voltage as int, isqrt_spec(d2 as int));
            }
        },
        Cell::Air { .. } => {},
    }
}

/// A partial row sum of `jmax` terms is bounded by `jmax` times the largest
/// term magnitude.
proof fn lemma_row_sum_bound(cells: Seq<Cell>, size: int, x: int, y: int, i: int, jmax: int)
    requires
        jmax >= 0,
    ensures
        -jmax * 0x80000000 <= row_sum(cells, size, x, y, i, jmax) <= jmax * 0x80000000,
    decreases jmax,
{
    if jmax > 0 {
        lemma_row_sum_bound(cells, size, x, y, i, jmax - 1);
        lemma_contrib_bound(cells, size, x, y, i, jmax - 1);
        assert((jmax - 1) * 0x80000000 + 0x80000000 == jmax * 0x80000000) by (nonlinear_arith);
    }
}

/// A partial grid sum of `imax` rows is bounded by the cell count times the
/// largest term magnitude.
proof fn lemma_rows_sum_bound(cells: Seq<Cell>, size: int, x: int, y: int, imax: int, jmax: int)
    requires
        imax >= 0,
        jmax >= 0,
    ensures
        -(imax * jmax) * 0x80000000 <= rows_sum(cells, size, x, y, imax, jmax) <= (imax * jmax)
            * 0x80000000,
    decreases imax,
{
    if imax > 0 {
        lemma_rows_sum_bound(cells, size, x, y, imax - 1, jmax);
        lemma_row_sum_bound(cells, size, x, y, imax - 1, jmax);
        assert(((imax - 1) * jmax) * 0x80000000 + jmax * 0x80000000 == (imax * jmax) * 0x80000000)
            by (nonlinear_arith);
    } else {
        assert((imax * jmax) * 0x80000000 == 0) by (nonlinear_arith)
            requires
                imax == 0,
        ;
    }
}

/// One truncated inverse-distance contribution, as executable code.
fn contribution(voltage: i32, d2: u32) -> (r: i64)
    requires
        d2 >= 1,
    ensures
        r == term(voltage as int, d2 as int),
        -0x80000000 <= r <= 0x80000000,
{
    proof {
        lemma_isqrt_pos(d2 as int);
        lemma_isqrt_bounds(d2 as int);
        assert(isqrt_spec(d2 as int) <= 65536) by (nonlinear_arith)
            requires
                0 <= isqrt_spec(d2 as int),
                isqrt_spec(d2 as int) * isqrt_spec(d2 as int) <= d2,
                d2 < 0x100000000,
        ;
        lemma_tdiv_bound(voltage as int, isqrt_spec(d2 as int));
    }
    let d = isqrt(d2) as u64;
    let v64 = voltage as i64;
    let m: u64 = if v64 >= 0 {
        v64 as u64
    } else {
        (-v64) as u64
    };
    let q = m / d;
    proof {
        lemma_div_pos_is_pos(m as int, d as int);
        lemma_div_nonincreasing(m as int, d as int);
    }
    if v64 >= 0 {
        q as i64
    } else {
        -(q as i64)
    }
}

/// What the solver makes of one cell: an air cell takes the superposed
/// potential of the whole (pre-pass) grid; a metal cell is untouched.
pub open spec fn solved_cell(cells: Seq<Cell>, size: int, x: int, y: int) -> Cell {
    match cells[x * size + y] {
        Cell::Air { .. } => Cell::Air {
            potential: potential_at(cells, size, x, y) as i64,
        },
        Cell::Metal { voltage, pin } => Cell::Metal { voltage, pin },
    }
}

/// Computes, for every air cell, the superposition of every metal cell's
/// truncated inverse-distance contribution, per [`potential_at`]. All
/// potentials are computed from a frozen snapshot of the grid as it stood at
/// the start of the call, so the result does not depend on scan order. Metal
/// cells, the conductor count and the conductor list are untouched.
pub fn calculate_electric_potential(input: &mut Grid)
    requires
        old(input).wf(),
    ensures
        final(input).wf(),
        final(input).size == old(input).size,
        final(input).conductor_count == old(input).conductor_count,
        final(input).conductors == old(input).conductors,
        forall|x: int, y: int|
            old(input).in_range(x, y) ==> final(input).spec_cell(x, y) == solved_cell(
                old(input).cells@,
                old(input).size as int,
                x,
                y,
            ),
{
    let size = input.size;
    let ghost cells0 = input.cells@;
    let ghost sz = size as int;
    let mut new_cells: Vec<Cell> = Vec::new();
    let mut x: usize = 0;
    proof {
        lemma_size_sq_bound(sz);
    }
    while x < size
        invariant
            old(input).wf(),
            *input == *old(input),
            size == input.size,
            cells0 == input.cells@,
            sz == size as int,
            x <= size,
            new_cells@.len() == x * size,
            forall|x2: int, y2: int|
                0 <= x2 < x && 0 <= y2 < sz ==> new_cells@[x2 * sz + y2] == solved_cell(
                    cells0,
                    sz,
                    x2,
                    y2,
                ),
        decreases size - x,
    {
        let mut y: usize = 0;
        proof {
            assert(x * sz + 0 == x * sz);
        }
        while y < size
            invariant
                old(input).wf(),
                *input == *old(input),
                size == input.size,
                cells0 == input.cells@,
                sz == size as int,
                x < size,
                y <= size,
                new_cells@.len() == x * sz + y,
                forall|x2: int, y2: int|
                    0 <= x2 < x && 0 <= y2 < sz ==> new_cells@[x2 * sz + y2] == solved_cell(
                        cells0,
                        sz,
                        x2,
                        y2,
                    ),
                forall|y2: int|
                    0 <= y2 < y ==> new_cells@[x * sz + y2] == solved_cell(cells0, sz, x as int, y2),
            decreases size - y,
        {
            proof {
                lemma_idx_bound(sz, x as int, y as int);
                lemma_size_sq_bound(sz);
            }
            let c = input.cells[x * size + y];
            let nc = match c {
                Cell::Air { potential: _ } => {
                    let p = potential_of(input, x, y);
                    Cell::Air { potential: p }
                },
                Cell::Metal { voltage, pin } => Cell::Metal { voltage, pin },
            };
            new_cells.push(nc);
            proof {
                assert(new_cells@[x * sz + y as int] == solved_cell(cells0, sz, x as int, y as int));
                assert forall|x2: int, y2: int| 0 <= x2 < x && 0 <= y2 < sz implies new_cells@[x2
                    * sz + y2] == solved_cell(cells0, sz, x2, y2) by {
                    assert(x2 * sz + y2 < x * sz + y) by (nonlinear_arith)
                        requires
                            0 <= x2 < x,
                            0 <= y2 < sz,
                            0 <= y,
                    ;
                }
            }
            y = y + 1;
        }
        x = x + 1;
        proof {
            assert((x - 1) * sz + sz == x * sz) by (nonlinear_arith);
        }
    }
    proof {
        assert(x * sz == sz * sz) by (nonlinear_arith)
            requires
                x == sz,
        ;
    }
    input.cells = new_cells;
    proof {
        assert forall|xq: int, yq: int| old(input).in_range(xq, yq) implies input.spec_cell(xq, yq)
            == solved_cell(cells0, sz, xq, yq) by {
            lemma_idx_bound(sz, xq, yq);
        }
    }
}

/// The superposed potential at air cell `(x, y)`, from the grid as given.
fn potential_of(input: &Grid, x: usize, y: usize) -> (r: i64)
    requires
        input.wf(),
        x < input.size,
        y < input.size,
    ensures
        r == potential_at(input.cells@, input.size as int, x as int, y as int),
{
    let size = input.size;
    let ghost cells0 = input.cells@;
    let ghost sz = size as int;
    let ghost xs = x as int;
    let ghost ys = y as int;
    let mut acc: i64 = 0;
    let mut i: usize = 0;
    proof {
        lemma_size_sq_bound(sz);
    }
    while i < size
        invariant
            input.wf(),
            size == input.size,
            cells0 == input.cells@,
            sz == size as int,
            xs == x as int,
            ys == y as int,
            x < size,
            y < size,
            i <= size,
            acc == rows_sum(cells0, sz, xs, ys, i as int, sz),
            sz <= 10000,
        decreases size - i,
    {
        let mut j: usize = 0;
        while j < size
            invariant
                input.wf(),
                size == input.size,
                cells0 == input.cells@,
                sz == size as int,
                xs == x as int,
                ys == y as int,
                x < size,
                y < size,
                i < size,
                j <= size,
                acc == rows_sum(cells0, sz, xs, ys, i as int, sz) + row_sum(
                    cells0,
                    sz,
                    xs,
                    ys,
                    i as int,
                    j as int,
                ),
                sz <= 10000,
            decreases size - j,
        {
            proof {
                lemma_idx_bound(sz, i as int, j as int);
                lemma_size_sq_bound(sz);
                lemma_rows_sum_bound(cells0, sz, xs, ys, i as int, sz);
                lemma_row_sum_bound(cells0, sz, xs, ys, i as int, j as int);
                lemma_contrib_bound(cells0, sz, xs, ys, i as int, j as int);
                assert((i as int) * sz <= 10000 * 10000) by (nonlinear_arith)
                    requires
                        0 <= i as int <= 10000,
                        0 <= sz <= 10000,
                ;
                assert((i as int * sz) * 0x80000000 + (j as int) * 0x80000000 + 0x80000000 <= (
                10000 * 10000 + 10000 + 1) * 0x80000000) by (nonlinear_arith)
                    requires
                        0 <= i as int * sz <= 10000 * 10000,
                        0 <= j as int <= 10000,
                ;
            }
            let c = input.cells[i * size + j];
            match c {
                Cell::Metal { voltage, pin: _ } => {
                    let dxu = if x >= i {
                        x - i
                    } else {
                        i - x
                    };
                    let dyu = if y >= j {
                        y - j
                    } else {
                        j - y
                    };
                    proof {
                        assert(dxu * dxu <= 100000000 && (xs - i as int) * (xs - i as int) == dxu
                            * dxu) by (nonlinear_arith)
                            requires
                                0 <= dxu <= 10000,
                                dxu == xs - i as int || dxu == i as int - xs,
                        ;
                        assert(dyu * dyu <= 100000000 && (ys - j as int) * (ys - j as int) == dyu
                            * dyu) by (nonlinear_arith)
                            requires
                                0 <= dyu <= 10000,
                                dyu == ys - j as int || dyu == j as int - ys,
                        ;
                    }
                    let d2 = dxu * dxu + dyu * dyu;
                    if d2 != 0 {
                        let t = contribution(voltage, d2 as u32);
                        acc = acc + t;
                    }
                },
                Cell::Air { potential: _ } => {},
            }
            j = j + 1;
        }
        i = i + 1;
    }
    acc
}

} // verus!
