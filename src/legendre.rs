use vstd::prelude::*;

verus! {

broadcast use vstd::seq_lib::group_seq_properties;

/// Which recurrence produces a cell of the normalized associated Legendre table.
#[derive(Clone, Copy, Debug, PartialEq, Eq, Structural)]
pub enum Recurrence {
    /// `n == m`: from `P[n-1][n-1]`.
    Sectoral,
    /// `m == 0`: from `P[n-1][0]` and `P[n-2][0]`; with a scale factor.
    Zonal,
    /// otherwise: from `P[n-1][m]` and `P[n-2][m]`; with a scale factor.
    Tesseral,
}

/// The values that stand in rows 0 and 1 before the recurrence starts, and the
/// value of every cell it leaves alone.
#[derive(Clone, Copy)]
pub struct LegendreSeeds<T> {
    pub zero: T,
    /// `P[0][0]`
    pub p00: T,
    /// `P[1][0]`
    pub p10: T,
    /// `P[1][1]`
    pub p11: T,
    /// `scale[1][0]`
    pub scale10: T,
}

pub open spec fn recurrence_of(n: int, m: int) -> Recurrence {
    if n == m {
        Recurrence::Sectoral
    } else if m == 0 {
        Recurrence::Zonal
    } else {
        Recurrence::Tesseral
    }
}

/// The recurrence computes the cells from row 2 to row `max_order + 2`, up to
/// column `max_deg`, on or below the diagonal; the cells above it stay zero.
pub open spec fn computed(n: int, m: int, max_deg: int, max_order: int) -> bool {
    2 <= n < max_order + 3 && 0 <= m <= max_deg && m <= n
}

/// The two earlier cells a computed cell is made from: `P[n-1][n-1]` for a
/// sectoral one, else `P[n-1][m]` and `P[n-2][m]`.
pub open spec fn inputs<T>(p: Seq<Vec<T>>, zero: T, n: int, m: int) -> (T, T) {
    if n == m {
        (p[n - 1]@[n - 1], zero)
    } else {
        (p[n - 1]@[m], p[n - 2]@[m])
    }
}

/// Cell `(n, m)` of `p` and `scale` is what `cell` returns for its recurrence,
/// its indices and its inputs.
pub open spec fn cell_follows<T, F: Fn(Recurrence, usize, usize, T, T) -> (T, T)>(
    cell: F,
    p: Seq<Vec<T>>,
    scale: Seq<Vec<T>>,
    zero: T,
    n: int,
    m: int,
) -> bool {
    cell.ensures(
        (recurrence_of(n, m), n as usize, m as usize, inputs(p, zero, n, m).0, inputs(p, zero, n, m).1),
        (p[n]@[m], scale[n]@[m]),
    )
}

/// The value of a cell that is a seed or that the recurrence leaves alone.
pub open spec fn fixed_cell<T>(seeds: LegendreSeeds<T>, is_scale: bool, n: int, m: int) -> T {
    if !is_scale && n == 0 && m == 0 {
        seeds.p00
    } else if !is_scale && n == 1 && m == 0 {
        seeds.p10
    } else if !is_scale && n == 1 && m == 1 {
        seeds.p11
    } else if is_scale && n == 1 && m == 0 {
        seeds.scale10
    } else {
        seeds.zero
    }
}

/// Fills the normalized associated Legendre table `P` and its scale factors, both
/// `(max_order + 3) x (max_deg + 3)`. Rows 0 and 1 hold the seeds; every other
/// cell on or below the diagonal up to column `max_deg` is `cell(recurrence, n, m,
/// a, b)` of the earlier cells it depends on, computed row by row; the rest is zero.
pub fn norm_legendre<T: Copy, F: Fn(Recurrence, usize, usize, T, T) -> (T, T)>(
    seeds: LegendreSeeds<T>,
    max_deg: usize,
    max_order: usize,
    cell: F,
) -> (r: (Vec<Vec<T>>, Vec<Vec<T>>))
    requires
        max_deg <= usize::MAX - 3,
        max_order <= usize::MAX - 3,
        forall|k: Recurrence, n: usize, m: usize, a: T, b: T| #[trigger] cell.requires((k, n, m, a, b)),
    ensures
        r.0@.len() == max_order + 3,
        r.1@.len() == max_order + 3,
        forall|n: int| 0 <= n < max_order + 3 ==> #[trigger] r.0@[n]@.len() == max_deg + 3,
        forall|n: int| 0 <= n < max_order + 3 ==> #[trigger] r.1@[n]@.len() == max_deg + 3,
        r.0@[0]@[0] == seeds.p00,
        forall|n: int, m: int|
            0 <= n < max_order + 3 && 0 <= m < max_deg + 3 && computed(n, m, max_deg as int, max_order as int)
                ==> #[trigger] cell_follows(cell, r.0@, r.1@, seeds.zero, n, m),
        forall|n: int, m: int|
            0 <= n < max_order + 3 && 0 <= m < max_deg + 3 && !computed(n, m, max_deg as int, max_order as int)
                ==> #[trigger] r.0@[n]@[m] == fixed_cell(seeds, false, n, m)
                && r.1@[n]@[m] == fixed_cell(seeds, true, n, m),
{
    let rows = max_order + 3;
    let cols = max_deg + 3;
    let mut p: Vec<Vec<T>> = Vec::new();
    let mut scale: Vec<Vec<T>> = Vec::new();
    let mut n: usize = 0;
    while n < rows
        invariant
            rows == max_order + 3,
            cols == max_deg + 3,
            n <= rows,
            p@.len() == n,
            scale@.len() == n,
            forall|k: Recurrence, n: usize, m: usize, a: T, b: T| #[trigger] cell.requires((k, n, m, a, b)),
            forall|i: int| 0 <= i < n ==> #[trigger] p@[i]@.len() == cols,
            forall|i: int| 0 <= i < n ==> #[trigger] scale@[i]@.len() == cols,
            forall|i: int, m: int|
                0 <= i < n && 0 <= m < cols && computed(i, m, max_deg as int, max_order as int)
                    ==> #[trigger] cell_follows(cell, p@, scale@, seeds.zero, i, m),
            forall|i: int, m: int|
                0 <= i < n && 0 <= m < cols && !computed(i, m, max_deg as int, max_order as int)
                    ==> #[trigger] p@[i]@[m] == fixed_cell(seeds, false, i, m)
                    && scale@[i]@[m] == fixed_cell(seeds, true, i, m),
        decreases rows - n,
    {
        let mut prow: Vec<T> = Vec::new();
        let mut srow: Vec<T> = Vec::new();
        let mut m: usize = 0;
        while m < cols
            invariant
                rows == max_order + 3,
                cols == max_deg + 3,
                n < rows,
                m <= cols,
                p@.len() == n,
                scale@.len() == n,
                prow@.len() == m,
                srow@.len() == m,
                forall|k: Recurrence, n: usize, m: usize, a: T, b: T| #[trigger] cell.requires((k, n, m, a, b)),
                forall|i: int| 0 <= i < n ==> #[trigger] p@[i]@.len() == cols,
                forall|j: int|
                    0 <= j < m && computed(n as int, j, max_deg as int, max_order as int)
                        ==> #[trigger] cell.ensures(
                        (
                            recurrence_of(n as int, j),
                            n,
                            j as usize,
                            inputs(p@, seeds.zero, n as int, j).0,
                            inputs(p@, seeds.zero, n as int, j).1,
                        ),
                        (prow@[j], srow@[j]),
                    ),
                forall|j: int|
                    0 <= j < m && !computed(n as int, j, max_deg as int, max_order as int)
                        ==> #[trigger] prow@[j] == fixed_cell(seeds, false, n as int, j)
                        && srow@[j] == fixed_cell(seeds, true, n as int, j),
            decreases cols - m,
        {
            let ghost old_prow = prow@;
            if n >= 2 && m <= max_deg && m <= n {
                let (a, b) = if n == m {
                    (p[n - 1][n - 1], seeds.zero)
                } else {
                    (p[n - 1][m], p[n - 2][m])
                };
                let kind = if n == m {
                    Recurrence::Sectoral
                } else if m == 0 {
                    Recurrence::Zonal
                } else {
                    Recurrence::Tesseral
                };
                let (x, y) = cell(kind, n, m, a, b);
                prow.push(x);
                srow.push(y);
            } else {
                let x = if n == 0 && m == 0 {
                    seeds.p00
                } else if n == 1 && m == 0 {
                    seeds.p10
                } else if n == 1 && m == 1 {
                    seeds.p11
                } else {
                    seeds.zero
                };
                let y = if n == 1 && m == 0 {
                    seeds.scale10
                } else {
                    seeds.zero
                };
                assert(x == fixed_cell(seeds, false, n as int, m as int));
                assert(y == fixed_cell(seeds, true, n as int, m as int));
                prow.push(x);
                srow.push(y);
            }
            proof {
                assert forall|j: int|
                    0 <= j < m + 1 && !computed(n as int, j, max_deg as int, max_order as int)
                        implies #[trigger] prow@[j] == fixed_cell(seeds, false, n as int, j)
                        && srow@[j] == fixed_cell(seeds, true, n as int, j) by {
                    if j < m {
                        assert(prow@[j] == old_prow[j]);
                    }
                }
            }
            m += 1;
        }
        let ghost p_before = p@;
        let ghost scale_before = scale@;
        p.push(prow);
        scale.push(srow);
        proof {
            assert forall|i: int, j: int|
                0 <= i < n + 1 && 0 <= j < cols && !computed(i, j, max_deg as int, max_order as int)
                    implies #[trigger] p@[i]@[j] == fixed_cell(seeds, false, i, j)
                    && scale@[i]@[j] == fixed_cell(seeds, true, i, j) by {
                if i < n {
                    assert(p@[i] == p_before[i]);
                    assert(scale@[i] == scale_before[i]);
                    assert(p_before[i]@[j] == fixed_cell(seeds, false, i, j));
                } else {
                    assert(p@[i] == prow);
                    assert(scale@[i] == srow);
                }
            }
            assert forall|i: int, j: int|
                0 <= i < n + 1 && 0 <= j < cols && computed(i, j, max_deg as int, max_order as int)
                    implies #[trigger] cell_follows(cell, p@, scale@, seeds.zero, i, j) by {
                if i < n {
                    assert(cell_follows(cell, p_before, scale_before, seeds.zero, i, j));
                    assert(p@[i] == p_before[i]);
                    assert(p@[i - 1] == p_before[i - 1]);
                    assert(p@[i - 2] == p_before[i - 2]);
                    assert(scale@[i] == scale_before[i]);
                } else {
                    assert(p@[i - 1] == p_before[i - 1]);
                    assert(p@[i - 2] == p_before[i - 2]);
                }
            }
        }
        n += 1;
    }
    proof {
        assert(!computed(0, 0, max_deg as int, max_order as int));
        assert(p@[0]@[0] == fixed_cell(seeds, false, 0, 0));
    }
    (p, scale)
}

} // verus!
