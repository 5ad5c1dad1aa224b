//! Occupation matrices and the generators of the initial site-occupation
//! patterns: filled, checkerboard, and horizontal stripe.

use vstd::prelude::*;

verus! {

use vstd::arithmetic::div_mod::lemma_mod_bound;

use crate::dipolar::Pattern;
use crate::lattice::{
    lemma_div_below_square,
    lemma_flat_index_in_range,
    lemma_pos_idx_roundtrip,
    PeriodicLattice,
};

/// A dense square matrix of per-site particle counts, stored row by row:
/// the entry for the site `(x, y)` sits at `y * size + x`.
pub struct OccupationMatrix {
    pub size: usize,
    pub data: Vec<u8>,
}

impl OccupationMatrix {
    pub open spec fn wf(&self) -> bool {
        &&& 1 <= self.size
        &&& self.size * self.size <= usize::MAX
        &&& self.data.len() == self.size * self.size
    }

    /// The particle count at row `y`, column `x`.
    pub open spec fn at(&self, y: int, x: int) -> u8 {
        self.data[y * self.size + x]
    }

    /// An all-zero occupation of the given side length.
    pub fn zeros(size: usize) -> (occ: Self)
        requires
            1 <= size,
            size * size <= usize::MAX,
        ensures
            occ.wf(),
            occ.size == size,
            forall|y: int, x: int|
                0 <= y < size && 0 <= x < size ==> occ.at(y, x) == 0u8,
    {
        let total = size * size;
        let mut data: Vec<u8> = Vec::new();
        let mut k: usize = 0;
        while k < total
            invariant
                k <= total,
                data.len() == k,
                forall|m: int| 0 <= m < k ==> data[m] == 0u8,
            decreases total - k,
        {
            data.push(0);
            k = k + 1;
        }
        let occ = OccupationMatrix { size, data };
        proof {
            assert forall|y: int, x: int|
                0 <= y < size && 0 <= x < size implies occ.at(y, x) == 0u8 by {
                lemma_flat_index_in_range(size as int, x, y);
            }
        }
        occ
    }

    /// Read the particle count at row `y`, column `x`.
    pub fn get(&self, y: usize, x: usize) -> (n: u8)
        requires
            self.wf(),
            y < self.size,
            x < self.size,
        ensures
            n == self.at(y as int, x as int),
    {
        proof {
            lemma_flat_index_in_range(self.size as int, x as int, y as int);
        }
        self.data[y * self.size + x]
    }
}

/// Every site holds exactly one particle.
pub fn get_filled(latt: &PeriodicLattice) -> (occ: OccupationMatrix)
    requires
        latt.wf(),
    ensures
        occ.wf(),
        occ.size == latt.system_size,
        forall|y: int, x: int|
            0 <= y < occ.size && 0 <= x < occ.size ==> occ.at(y, x) == 1u8,
{
    let size = latt.system_size;
    let total = size * size;
    let mut data: Vec<u8> = Vec::new();
    let mut k: usize = 0;
    while k < total
        invariant
            k <= total,
            data.len() == k,
            forall|m: int| 0 <= m < k ==> data[m] == 1u8,
        decreases total - k,
    {
        data.push(1);
        k = k + 1;
    }
    let occ = OccupationMatrix { size, data };
    proof {
        assert forall|y: int, x: int|
            0 <= y < size && 0 <= x < size implies occ.at(y, x) == 1u8 by {
            lemma_flat_index_in_range(size as int, x, y);
        }
    }
    occ
}

/// Checkerboard occupation: the site `(x, y)` holds `(x + y) mod 2`
/// particles.
pub fn get_checkerboard(latt: &PeriodicLattice) -> (occ: OccupationMatrix)
    requires
        latt.wf(),
    ensures
        occ.wf(),
        occ.size == latt.system_size,
        forall|y: int, x: int|
            0 <= y < occ.size && 0 <= x < occ.size
                ==> occ.at(y, x) == ((x + y) % 2) as u8,
{
    let size = latt.system_size;
    let total = size * size;
    let mut data: Vec<u8> = Vec::new();
    let mut k: usize = 0;
    while k < total
        invariant
            1 <= size,
            size * size <= usize::MAX,
            total == size * size,
            k <= total,
            data.len() == k,
            forall|m: int|
                0 <= m < k ==> data[m] == ((m % (size as int) + m / (size as int)) % 2) as u8,
        decreases total - k,
    {
        proof {
            lemma_div_below_square(k as int, size as int);
            lemma_mod_bound(k as int, size as int);
            assert(2 * (size as int) - 2 <= size * size) by (nonlinear_arith)
                requires 1 <= size;
        }
        let x = k % size;
        let y = k / size;
        data.push(((x + y) % 2) as u8);
        k = k + 1;
    }
    let occ = OccupationMatrix { size, data };
    proof {
        assert forall|y: int, x: int|
            0 <= y < size && 0 <= x < size
                implies occ.at(y, x) == ((x + y) % 2) as u8 by {
            lemma_flat_index_in_range(size as int, x, y);
            lemma_pos_idx_roundtrip(*latt, x, y);
        }
    }
    occ
}

/// Horizontal-stripe occupation: the site `(x, y)` holds `y mod 2`
/// particles, so whole rows alternate between empty and filled.
pub fn get_horizontal_stripe(latt: &PeriodicLattice) -> (occ: OccupationMatrix)
    requires
        latt.wf(),
    ensures
        occ.wf(),
        occ.size == latt.system_size,
        forall|y: int, x: int|
            0 <= y < occ.size && 0 <= x < occ.size ==> occ.at(y, x) == (y % 2) as u8,
{
    let size = latt.system_size;
    let total = size * size;
    let mut data: Vec<u8> = Vec::new();
    let mut k: usize = 0;
    while k < total
        invariant
            1 <= size,
            size * size <= usize::MAX,
            total == size * size,
            k <= total,
            data.len() == k,
            forall|m: int|
                0 <= m < k ==> data[m] == ((m / (size as int)) % 2) as u8,
        decreases total - k,
    {
        let y = k / size;
        data.push((y % 2) as u8);
        k = k + 1;
    }
    let occ = OccupationMatrix { size, data };
    proof {
        assert forall|y: int, x: int|
            0 <= y < size && 0 <= x < size
                implies occ.at(y, x) == (y % 2) as u8 by {
            lemma_flat_index_in_range(size as int, x, y);
            lemma_pos_idx_roundtrip(*latt, x, y);
        }
    }
    occ
}

/// The particle count a pattern assigns to the site `(x, y)`.
pub open spec fn pattern_site_occupation(patt: Pattern, x: int, y: int) -> u8 {
    match patt {
        Pattern::Filled => 1u8,
        Pattern::CB => ((x + y) % 2) as u8,
        Pattern::HStripe => (y % 2) as u8,
    }
}

/// Generate the occupation matrix a pattern selects for the given lattice.
pub fn generate_pattern_occupation(patt: Pattern, latt: &PeriodicLattice) -> (occ:
    OccupationMatrix)
    requires
        latt.wf(),
    ensures
        occ.wf(),
        occ.size == latt.system_size,
        forall|y: int, x: int|
            0 <= y < occ.size && 0 <= x < occ.size
                ==> occ.at(y, x) == pattern_site_occupation(patt, x, y),
{
    match patt {
        Pattern::Filled => get_filled(latt),
        Pattern::CB => get_checkerboard(latt),
        Pattern::HStripe => get_horizontal_stripe(latt),
    }
}

} // verus!
