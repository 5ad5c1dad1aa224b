//! The discrete core of the dipolar-interaction and stability-matrix
//! builders: which neighbors a site's truncated dipole-dipole sum ranges
//! over, with which occupation weights and displacement vectors, and which
//! columns of a stability-matrix row hold the nearest-neighbor coupling.
//!
//! The real-valued coupling `(1 - 3 (r.d / |r|)^2) / |r|^3` attached to each
//! displacement, and the determinants built from it, are floating-point work
//! that consumes these enumerations outside the verified library.

use vstd::prelude::*;

verus! {

use vstd::arithmetic::div_mod::{lemma_fundamental_div_mod_converse, lemma_small_mod};
use crate::lattice::{idx_to_x, idx_to_y, pos_to_idx, LattPos, PeriodicLattice, SpinIdx};
use crate::patterns::OccupationMatrix;

/// The occupation patterns a simulation can start from.
#[derive(Clone, Copy, Debug, PartialEq, Eq, Structural)]
pub enum Pattern {
    Filled,
    CB,
    HStripe,
}

/// Whether the neighbor displaced by `(dx, dy)` from the site `(x, y)`
/// contributes to that site's interaction sum: its unwrapped Euclidean
/// distance must stay within `range`, and its periodic image must not be the
/// site itself.
pub open spec fn neighbor_included(size: int, x: int, y: int, range: int, dx: int, dy: int) -> bool {
    &&& dx * dx + dy * dy <= range * range
    &&& !((x - dx) % size == x && (y - dy) % size == y)
}

/// Every candidate of the `(2 range + 1)^2` neighbor window around `(x, y)`,
/// in the search order (columns of the window first, rows within a column):
/// the displacement `(dx, dy)` back to the site and the occupation of the
/// candidate's periodic image.
pub open spec fn candidate_terms(
    occ: OccupationMatrix,
    x: int,
    y: int,
    range: int,
) -> Seq<(isize, isize, u8)> {
    let w = 2 * range + 1;
    let size = occ.size as int;
    Seq::new(
        (w * w) as nat,
        |k: int|
            {
                let dx = range - k / w;
                let dy = range - k % w;
                ((dx as isize), (dy as isize), occ.at((y - dy) % size, (x - dx) % size))
            },
    )
}

/// The inclusion test of `neighbor_included`, phrased on a candidate term.
pub open spec fn term_included(
    occ: OccupationMatrix,
    x: int,
    y: int,
    range: int,
) -> spec_fn((isize, isize, u8)) -> bool {
    |t: (isize, isize, u8)| neighbor_included(occ.size as int, x, y, range, t.0 as int, t.1 as int)
}

/// The terms of the truncated dipole-dipole sum at `(x, y)`: the candidates
/// of the neighbor window that pass the inclusion test, in search order.
pub open spec fn interaction_terms(
    occ: OccupationMatrix,
    x: int,
    y: int,
    range: int,
) -> Seq<(isize, isize, u8)> {
    candidate_terms(occ, x, y, range).filter(term_included(occ, x, y, range))
}

/// Filtering one more element either appends it or leaves the result alone.
proof fn lemma_filter_one_more(
    s: Seq<(isize, isize, u8)>,
    pred: spec_fn((isize, isize, u8)) -> bool,
    k: int,
)
    requires
        0 <= k < s.len(),
    ensures
        pred(s[k]) ==> s.subrange(0, k + 1).filter(pred) == s.subrange(0, k).filter(pred).push(
            s[k],
        ),
        !pred(s[k]) ==> s.subrange(0, k + 1).filter(pred) == s.subrange(0, k).filter(pred),
{
    let a = s.subrange(0, k);
    let b = seq![s[k]];
    assert(s.subrange(0, k + 1) =~= a + b);
    Seq::filter_distributes_over_add(a, b, pred);
    reveal_with_fuel(Seq::filter, 3);
    assert(b.drop_last() =~= Seq::<(isize, isize, u8)>::empty());
    if pred(s[k]) {
        assert(b.filter(pred) =~= seq![s[k]]);
        assert(a.filter(pred) + seq![s[k]] =~= a.filter(pred).push(s[k]));
    } else {
        assert(b.filter(pred) =~= Seq::<(isize, isize, u8)>::empty());
        assert(a.filter(pred) + b.filter(pred) =~= a.filter(pred));
    }
}

/// Position of the window candidate with column offset `a` and row offset
/// `b` in the flattened window order.
proof fn lemma_window_index(range: int, a: int, b: int)
    requires
        0 <= range,
        0 <= a < 2 * range + 1,
        0 <= b < 2 * range + 1,
    ensures
        (a * (2 * range + 1) + b) / (2 * range + 1) == a,
        (a * (2 * range + 1) + b) % (2 * range + 1) == b,
        0 <= a * (2 * range + 1) + b < (2 * range + 1) * (2 * range + 1),
{
    let w = 2 * range + 1;
    lemma_fundamental_div_mod_converse(a * w + b, w, a, b);
    assert(0 <= a * w + b && a * w + b < w * w) by (nonlinear_arith)
        requires
            0 <= a < w,
            0 <= b < w,
            1 <= w,
    ;
}

/// Enumerate the neighbors that contribute to the dipole-dipole interaction
/// a particle added at `(x, y)` would feel: for every candidate of the
/// square window of half-width `int_range` around the site, in search order,
/// the displacement `(dx, dy)` from the candidate back to the site and the
/// occupation of the candidate's periodic image, kept exactly when the
/// candidate passes the inclusion test of `neighbor_included`.
#[verifier::loop_isolation(false)]
#[verifier::rlimit(50)]
pub fn site_interaction_terms(
    x: usize,
    y: usize,
    int_range: usize,
    latt: &PeriodicLattice,
    occupation: &OccupationMatrix,
) -> (terms: Vec<(isize, isize, u8)>)
    requires
        latt.wf(),
        occupation.wf(),
        occupation.size == latt.system_size,
        x < latt.system_size,
        y < latt.system_size,
        latt.system_size + int_range <= isize::MAX,
    ensures
        terms@ == interaction_terms(*occupation, x as int, y as int, int_range as int),
{
    let ghost occ = *occupation;
    let ghost xg = x as int;
    let ghost yg = y as int;
    let ghost rg = int_range as int;
    let ghost w = 2 * rg + 1;
    let ghost full = candidate_terms(occ, xg, yg, rg);
    let ghost pred = term_included(occ, xg, yg, rg);

    let r = int_range as isize;
    let xi = x as isize;
    let yi = y as isize;

    let mut terms: Vec<(isize, isize, u8)> = Vec::new();
    proof {
        reveal_with_fuel(Seq::filter, 2);
        assert(full.subrange(0, 0) =~= Seq::<(isize, isize, u8)>::empty());
        assert(full.subrange(0, 0).filter(pred) =~= Seq::<(isize, isize, u8)>::empty());
        assert(0 <= w * w) by (nonlinear_arith)
            requires 1 <= w;
    }
    let mut x_n: isize = xi - r;
    while x_n <= xi + r
        invariant
            xi - r <= x_n <= xi + r + 1,
            0 <= (x_n - (xi - r)) * w <= w * w,
            terms@ == full.subrange(0, (x_n - (xi - r)) * w).filter(pred),
        decreases xi + r + 1 - x_n,
    {
        let ghost a = x_n as int - (xi - r);
        let ghost base = a * w;
        proof {
            assert(0 <= base && base + w <= w * w) by (nonlinear_arith)
                requires
                    base == a * w,
                    0 <= a,
                    a < w,
                    1 <= w,
            ;
        }
        let mut y_n: isize = yi - r;
        while y_n <= yi + r
            invariant
                yi - r <= y_n <= yi + r + 1,
                terms@ == full.subrange(0, base + (y_n - (yi - r))).filter(pred),
            decreases yi + r + 1 - y_n,
        {
            let ghost b = y_n as int - (yi - r);
            let ghost k = base + b;
            proof {
                lemma_window_index(rg, a, b);
            }
            let x_n_p = latt.get_idx_periodic(x_n);
            let y_n_p = latt.get_idx_periodic(y_n);
            let occ_val = occupation.get(y_n_p, x_n_p);
            let dx = xi - x_n;
            let dy = yi - y_n;
            proof {
                assert(0 <= (dx as int) * (dx as int) <= 0x7fffffffffffffff * 0x7fffffffffffffff
                    && 0 <= (dy as int) * (dy as int) <= 0x7fffffffffffffff * 0x7fffffffffffffff
                    && 0 <= rg * rg <= 0x7fffffffffffffff * 0x7fffffffffffffff)
                    by (nonlinear_arith)
                    requires
                        -rg <= dx as int <= rg,
                        -rg <= dy as int <= rg,
                        0 <= rg <= 0x7fffffffffffffff,
                ;
            }
            let dist2 = (dx as i128) * (dx as i128) + (dy as i128) * (dy as i128);
            let range2 = (r as i128) * (r as i128);
            if !(x_n_p == x && y_n_p == y) && dist2 <= range2 {
                terms.push((dx, dy, occ_val));
            }
            proof {
                assert(full[k] == (dx, dy, occ_val));
                assert(pred(full[k]) == (!(x_n_p == x && y_n_p == y) && dist2 <= range2));
                lemma_filter_one_more(full, pred, k);
                assert(terms@ == full.subrange(0, k + 1).filter(pred));
            }
            y_n = y_n + 1;
        }
        proof {
            assert((a + 1) * w == base + w) by (nonlinear_arith)
                requires base == a * w;
            assert(0 <= (a + 1) * w <= w * w) by (nonlinear_arith)
                requires
                    0 <= a + 1 <= w,
                    1 <= w,
            ;
        }
        x_n = x_n + 1;
    }
    proof {
        assert((xi + r + 1 - (xi - r)) * w == w * w) by (nonlinear_arith)
            requires w == 2 * rg + 1 && rg == r as int;
        assert(full.subrange(0, w * w) =~= full);
    }
    terms
}

/// The four periodic nearest-neighbor columns of the stability-matrix row
/// belonging to a flattened site index: the sites below, above, left and
/// right of the position, in that order, wrapped around the lattice edge and
/// flattened again.
pub fn neighbor_spin_indices(sp: &SpinIdx) -> (cols: Vec<usize>)
    requires
        sp.wf(),
    ensures
        cols@.len() == 4,
        ({
            let size = sp.latt.system_size as int;
            let x = idx_to_x(sp.latt, sp.idx as int);
            let y = idx_to_y(sp.latt, sp.idx as int);
            &&& cols@[0] == pos_to_idx(sp.latt, x, (y - 1) % size)
            &&& cols@[1] == pos_to_idx(sp.latt, x, (y + 1) % size)
            &&& cols@[2] == pos_to_idx(sp.latt, (x - 1) % size, y)
            &&& cols@[3] == pos_to_idx(sp.latt, (x + 1) % size, y)
        }),
        forall|i: int|
            0 <= i < 4 ==> cols@[i] < sp.latt.system_size * sp.latt.system_size,
{
    let latt = sp.latt;
    let pos = LattPos::from(*sp);
    let x = pos.x as isize;
    let y = pos.y as isize;

    let mut cols: Vec<usize> = Vec::new();
    let n0 = SpinIdx::from(LattPos::new(latt.get_idx_periodic(x), latt.get_idx_periodic(y - 1), &latt));
    cols.push(n0.idx);
    let n1 = SpinIdx::from(LattPos::new(latt.get_idx_periodic(x), latt.get_idx_periodic(y + 1), &latt));
    cols.push(n1.idx);
    let n2 = SpinIdx::from(LattPos::new(latt.get_idx_periodic(x - 1), latt.get_idx_periodic(y), &latt));
    cols.push(n2.idx);
    let n3 = SpinIdx::from(LattPos::new(latt.get_idx_periodic(x + 1), latt.get_idx_periodic(y), &latt));
    cols.push(n3.idx);
    proof {
        lemma_small_mod(pos.x as nat, latt.system_size as nat);
        lemma_small_mod(pos.y as nat, latt.system_size as nat);
    }
    cols
}

/// Whether column `c` of the stability-matrix row of the flattened site `s`
/// is one of the four periodic nearest-neighbor columns.
pub open spec fn is_neighbor_col(latt: PeriodicLattice, s: int, c: int) -> bool {
    let size = latt.system_size as int;
    let x = idx_to_x(latt, s);
    let y = idx_to_y(latt, s);
    ||| c == pos_to_idx(latt, x, (y - 1) % size)
    ||| c == pos_to_idx(latt, x, (y + 1) % size)
    ||| c == pos_to_idx(latt, (x - 1) % size, y)
    ||| c == pos_to_idx(latt, (x + 1) % size, y)
}

/// Role of column `c` in the stability-matrix row of the flattened site `s`:
/// `2` for a nearest-neighbor coupling column, else `1` on the diagonal,
/// else `0`. A coupling overwrites the diagonal where the two coincide,
/// which happens on a single-site lattice.
pub open spec fn m_row_code(latt: PeriodicLattice, s: int, c: int) -> u8 {
    if is_neighbor_col(latt, s, c) {
        2u8
    } else if c == s {
        1u8
    } else {
        0u8
    }
}

/// Lay out one row of the mean-field stability matrix: the identity entry on
/// the diagonal, then the coupling written over the four periodic
/// nearest-neighbor columns. The result assigns every column its role as
/// `m_row_code` states it.
pub fn m_row_structure(sp: &SpinIdx) -> (codes: Vec<u8>)
    requires
        sp.wf(),
    ensures
        codes@.len() == sp.latt.system_size * sp.latt.system_size,
        forall|c: int|
            0 <= c < codes@.len() ==> codes@[c] == m_row_code(sp.latt, sp.idx as int, c),
{
    let size = sp.latt.system_size;
    let total = size * size;
    let mut codes: Vec<u8> = Vec::new();
    let mut k: usize = 0;
    while k < total
        invariant
            k <= total,
            codes.len() == k,
            forall|m: int| 0 <= m < k ==> codes[m] == 0u8,
        decreases total - k,
    {
        codes.push(0);
        k = k + 1;
    }
    codes[sp.idx] = 1;
    let cols = neighbor_spin_indices(sp);
    codes[cols[0]] = 2;
    codes[cols[1]] = 2;
    codes[cols[2]] = 2;
    codes[cols[3]] = 2;
    codes
}

/// The system sizes the sweep walks for one interaction range: from
/// `system_sizes.0` stepping by two, strictly below `system_sizes.1`.
pub open spec fn sweep_sizes(system_sizes: (usize, usize)) -> Seq<usize> {
    let c = system_sizes.0 as int;
    let d = system_sizes.1 as int;
    if c < d {
        Seq::new(((d - c - 1) / 2 + 1) as nat, |j: int| (c + 2 * j) as usize)
    } else {
        Seq::empty()
    }
}

/// The (interaction range, system size) pairs the sweep walks: every
/// interaction range from `int_ranges.0` up to but excluding `int_ranges.1`,
/// and under each, every size of `sweep_sizes`, ranges outermost.
pub open spec fn sweep_grid_spec(
    int_ranges: (usize, usize),
    system_sizes: (usize, usize),
) -> Seq<(usize, usize)> {
    let a = int_ranges.0 as int;
    let b = int_ranges.1 as int;
    let sizes = sweep_sizes(system_sizes);
    let n = sizes.len() as int;
    if a < b && n > 0 {
        Seq::new(
            ((b - a) * n) as nat,
            |k: int| (((a + k / n) as usize), sizes[k % n]),
        )
    } else {
        Seq::empty()
    }
}

/// Enumerate the points of the parameter sweep, in sweep order.
#[verifier::loop_isolation(false)]
pub fn sweep_grid(int_ranges: (usize, usize), system_sizes: (usize, usize)) -> (grid: Vec<
    (usize, usize),
>)
    ensures
        grid@ == sweep_grid_spec(int_ranges, system_sizes),
{
    let ghost spec_grid = sweep_grid_spec(int_ranges, system_sizes);
    let ghost sizes = sweep_sizes(system_sizes);

    let a = int_ranges.0;
    let b = int_ranges.1;
    let c = system_sizes.0;
    let d = system_sizes.1;

    let mut grid: Vec<(usize, usize)> = Vec::new();
    if a >= b || c >= d {
        proof {
            assert(spec_grid =~= Seq::<(usize, usize)>::empty());
        }
        return grid;
    }
    let n = (d - c - 1) / 2 + 1;
    proof {
        assert(sizes.len() == n);
        assert(spec_grid.subrange(0, 0) =~= Seq::<(usize, usize)>::empty());
    }

    let mut i: usize = a;
    while i < b
        invariant
            a <= i <= b,
            0 <= (i - a) * n <= (b - a) * n,
            grid@ == spec_grid.subrange(0, (i - a) * n),
        decreases b - i,
    {
        let ghost row = i as int - a;
        let mut j: usize = 0;
        while j < n
            invariant
                j <= n,
                grid@ == spec_grid.subrange(0, row * n + j),
            decreases n - j,
        {
            let ghost k = row * n + j;
            proof {
                lemma_fundamental_div_mod_converse(k, n as int, row, j as int);
                assert(0 <= k && k + 1 <= (b - a) * n) by (nonlinear_arith)
                    requires
                        k == row * n + j,
                        0 <= row,
                        row <= b - a - 1,
                        0 <= j < n,
                        1 <= n,
                ;
                assert(spec_grid.subrange(0, k + 1) =~= spec_grid.subrange(0, k).push(
                    spec_grid[k],
                ));
            }
            grid.push((i, c + 2 * j));
            j = j + 1;
        }
        proof {
            assert((row + 1) * n == row * n + n && 0 <= (row + 1) * n <= (b - a) * n)
                by (nonlinear_arith)
                requires
                    0 <= row,
                    row + 1 <= b - a,
                    1 <= n,
            ;
        }
        i = i + 1;
    }
    proof {
        assert(spec_grid.subrange(0, (b - a) * n) =~= spec_grid);
    }
    grid
}

} // verus!
