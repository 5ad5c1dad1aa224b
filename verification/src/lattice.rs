//! Periodic lattice geometry: index wrapping and the bijection between
//! two-dimensional positions and flattened site ("spin") indices.

use vstd::prelude::*;

verus! {

use vstd::arithmetic::div_mod::{
    lemma_fundamental_div_mod,
    lemma_fundamental_div_mod_converse,
    lemma_mod_bound,
};

/// A square two-dimensional lattice with periodic boundary conditions,
/// described by its side length: the grid has `system_size * system_size`
/// sites.
#[derive(Clone, Copy, Debug)]
pub struct PeriodicLattice {
    pub system_size: usize,
}

/// Flattened site index of the position `(x, y)`: `y * size + x`.
pub open spec fn pos_to_idx(latt: PeriodicLattice, x: int, y: int) -> int {
    y * latt.system_size + x
}

/// Column coordinate of the flattened site index `idx`.
pub open spec fn idx_to_x(latt: PeriodicLattice, idx: int) -> int {
    idx % (latt.system_size as int)
}

/// Row coordinate of the flattened site index `idx`.
pub open spec fn idx_to_y(latt: PeriodicLattice, idx: int) -> int {
    idx / (latt.system_size as int)
}

impl PeriodicLattice {
    /// A usable lattice has at least one site per row, a side length small
    /// enough for signed coordinate arithmetic, and a site count that fits
    /// the flattened index range.
    pub open spec fn wf(&self) -> bool {
        &&& 1 <= self.system_size
        &&& self.system_size <= isize::MAX as usize
        &&& self.system_size * self.system_size <= usize::MAX
    }

    pub fn new(system_size: usize) -> (latt: Self)
        requires
            1 <= system_size,
            system_size <= isize::MAX as usize,
            system_size * system_size <= usize::MAX,
        ensures
            latt.wf(),
            latt.system_size == system_size,
    {
        PeriodicLattice { system_size }
    }

    /// Reduce an arbitrary (possibly negative) coordinate to the lattice by
    /// the Euclidean remainder, which is always in `[0, system_size)`.
    pub fn get_idx_periodic(&self, idx: isize) -> (r: usize)
        requires
            self.wf(),
        ensures
            r == idx as int % self.system_size as int,
            r < self.system_size,
    {
        proof {
            lemma_mod_bound(idx as int, self.system_size as int);
        }
        let m = self.system_size as isize;
        let r = idx.checked_rem_euclid(m).unwrap();
        r as usize
    }
}

/// A position on the lattice: a coordinate pair `(x, y)` with each component
/// in `[0, system_size)`.
#[derive(Clone, Copy, Debug)]
pub struct LattPos {
    pub x: usize,
    pub y: usize,
    pub latt: PeriodicLattice,
}

impl LattPos {
    pub open spec fn wf(&self) -> bool {
        &&& self.latt.wf()
        &&& self.x < self.latt.system_size
        &&& self.y < self.latt.system_size
    }

    pub fn new(x: usize, y: usize, latt: &PeriodicLattice) -> (pos: Self)
        requires
            latt.wf(),
            x < latt.system_size,
            y < latt.system_size,
        ensures
            pos.wf(),
            pos.x == x,
            pos.y == y,
            pos.latt == *latt,
    {
        LattPos { x, y, latt: *latt }
    }

    /// The position addressed by a flattened site index:
    /// `x = idx mod size`, `y = idx div size`.
    pub fn from(sp: SpinIdx) -> (pos: LattPos)
        requires
            sp.wf(),
        ensures
            pos.wf(),
            pos.latt == sp.latt,
            pos.x as int == idx_to_x(sp.latt, sp.idx as int),
            pos.y as int == idx_to_y(sp.latt, sp.idx as int),
    {
        let size = sp.latt.system_size;
        proof {
            lemma_mod_bound(sp.idx as int, size as int);
            lemma_div_below_square(sp.idx as int, size as int);
        }
        LattPos { x: sp.idx % size, y: sp.idx / size, latt: sp.latt }
    }
}

/// A flattened ("spin") index of a lattice site, in `[0, system_size^2)`.
#[derive(Clone, Copy, Debug)]
pub struct SpinIdx {
    pub idx: usize,
    pub latt: PeriodicLattice,
}

impl SpinIdx {
    pub open spec fn wf(&self) -> bool {
        &&& self.latt.wf()
        &&& (self.idx as int) < self.latt.system_size * self.latt.system_size
    }

    pub fn new(idx: usize, latt: &PeriodicLattice) -> (sp: Self)
        requires
            latt.wf(),
            idx < latt.system_size * latt.system_size,
        ensures
            sp.wf(),
            sp.idx == idx,
            sp.latt == *latt,
    {
        SpinIdx { idx, latt: *latt }
    }

    /// The flattened site index of a position: `idx = y * size + x`.
    pub fn from(pos: LattPos) -> (sp: SpinIdx)
        requires
            pos.wf(),
        ensures
            sp.wf(),
            sp.latt == pos.latt,
            sp.idx as int == pos_to_idx(pos.latt, pos.x as int, pos.y as int),
    {
        let size = pos.latt.system_size;
        proof {
            lemma_flat_index_in_range(size as int, pos.x as int, pos.y as int);
        }
        SpinIdx { idx: pos.y * size + pos.x, latt: pos.latt }
    }
}

/// For coordinates inside the lattice, the flattened index stays strictly
/// below the site count.
pub(crate) proof fn lemma_flat_index_in_range(size: int, x: int, y: int)
    requires
        1 <= size,
        0 <= x < size,
        0 <= y < size,
    ensures
        0 <= y * size + x < size * size,
{
    assert(y * size <= (size - 1) * size) by (nonlinear_arith)
        requires 0 <= y <= size - 1, 1 <= size;
    assert((size - 1) * size + size == size * size) by (nonlinear_arith);
}

/// Dividing an index below `size * size` by `size` lands below `size`.
pub(crate) proof fn lemma_div_below_square(idx: int, size: int)
    requires
        1 <= size,
        0 <= idx < size * size,
    ensures
        0 <= idx / size < size,
{
    lemma_fundamental_div_mod(idx, size);
    lemma_mod_bound(idx, size);
    assert(idx / size < size) by (nonlinear_arith)
        requires
            1 <= size,
            idx < size * size,
            idx == size * (idx / size) + idx % size,
            0 <= idx % size,
    ;
    assert(0 <= idx / size) by (nonlinear_arith)
        requires
            1 <= size,
            0 <= idx,
            idx == size * (idx / size) + idx % size,
            idx % size < size,
    ;
}

/// Converting a valid position to its flattened index and back yields the
/// same position.
pub proof fn lemma_pos_idx_roundtrip(latt: PeriodicLattice, x: int, y: int)
    requires
        latt.wf(),
        0 <= x < latt.system_size,
        0 <= y < latt.system_size,
    ensures
        idx_to_x(latt, pos_to_idx(latt, x, y)) == x,
        idx_to_y(latt, pos_to_idx(latt, x, y)) == y,
{
    let size = latt.system_size as int;
    lemma_fundamental_div_mod_converse(y * size + x, size, y, x);
}

/// Converting a valid flattened index to its position and back yields the
/// same index.
pub proof fn lemma_idx_pos_roundtrip(latt: PeriodicLattice, idx: int)
    requires
        latt.wf(),
        0 <= idx < latt.system_size * latt.system_size,
    ensures
        pos_to_idx(latt, idx_to_x(latt, idx), idx_to_y(latt, idx)) == idx,
{
    let size = latt.system_size as int;
    let q = idx / size;
    let r = idx % size;
    lemma_fundamental_div_mod(idx, size);
    assert(q * size + r == idx) by (nonlinear_arith)
        requires idx == size * q + r;
}

} // verus!
