use mean_field_dipolar::lattice::PeriodicLattice;
use mean_field_dipolar::patterns::{
    get_checkerboard, get_filled, get_horizontal_stripe, OccupationMatrix,
};

#[test]
fn checkerboard_entries() {
    let latt = PeriodicLattice::new(4);
    let occ = get_checkerboard(&latt);
    assert_eq!(occ.size, 4);
    for y in 0..4 {
        for x in 0..4 {
            assert_eq!(occ.get(y, x), ((x + y) % 2) as u8);
        }
    }
}

#[test]
fn checkerboard_half_filled() {
    let latt = PeriodicLattice::new(4);
    let occ = get_checkerboard(&latt);
    let mut total: u32 = 0;
    for y in 0..4 {
        for x in 0..4 {
            total += occ.get(y, x) as u32;
        }
    }
    assert_eq!(total, 8);
}

#[test]
fn filled_entries() {
    let latt = PeriodicLattice::new(3);
    let occ = get_filled(&latt);
    assert_eq!(occ.size, 3);
    for y in 0..3 {
        for x in 0..3 {
            assert_eq!(occ.get(y, x), 1);
        }
    }
}

#[test]
fn horizontal_stripe_entries() {
    let latt = PeriodicLattice::new(4);
    let occ = get_horizontal_stripe(&latt);
    for y in 0..4 {
        for x in 0..4 {
            assert_eq!(occ.get(y, x), (y % 2) as u8);
        }
    }
}

#[test]
fn zeros_entries() {
    let occ = OccupationMatrix::zeros(5);
    assert_eq!(occ.size, 5);
    for y in 0..5 {
        for x in 0..5 {
            assert_eq!(occ.get(y, x), 0);
        }
    }
}
