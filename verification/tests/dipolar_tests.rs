use mean_field_dipolar::dipolar::{
    m_row_structure, neighbor_spin_indices, site_interaction_terms, sweep_grid, Pattern,
};
use mean_field_dipolar::lattice::PeriodicLattice;
use mean_field_dipolar::lattice::SpinIdx;
use mean_field_dipolar::patterns::{
    generate_pattern_occupation, get_checkerboard, OccupationMatrix,
};
use mean_field_dipolar::util::parse_pattern_str;

#[test]
fn checkerboard_unit_range_terms() {
    // Size-4 checkerboard, truncation radius 1, site (0, 0): exactly the four
    // unit-distance neighbors contribute, each carrying one particle.
    let latt = PeriodicLattice::new(4);
    let occ = get_checkerboard(&latt);
    let terms = site_interaction_terms(0, 0, 1, &latt, &occ);
    assert_eq!(terms, vec![(1, 0, 1), (0, 1, 1), (0, -1, 1), (-1, 0, 1)]);
}

#[test]
fn zero_range_terms_are_empty() {
    let latt = PeriodicLattice::new(4);
    let occ = get_checkerboard(&latt);
    let terms = site_interaction_terms(2, 3, 0, &latt, &occ);
    assert_eq!(terms, vec![]);
}

#[test]
fn wrapped_self_image_is_excluded() {
    // On a single-site lattice every candidate wraps back onto the site
    // itself, so nothing contributes whatever the radius.
    let latt = PeriodicLattice::new(1);
    let occ = OccupationMatrix::zeros(1);
    let terms = site_interaction_terms(0, 0, 2, &latt, &occ);
    assert_eq!(terms, vec![]);
}

#[test]
fn small_lattice_neighbors_double_counted() {
    // Size-2 lattice with radius 1: the neighbor window wraps, so the site
    // keeps four terms even though only two distinct sites surround it.
    let latt = PeriodicLattice::new(2);
    let occ = get_checkerboard(&latt);
    let terms = site_interaction_terms(0, 0, 1, &latt, &occ);
    assert_eq!(terms, vec![(1, 0, 1), (0, 1, 1), (0, -1, 1), (-1, 0, 1)]);
}

#[test]
fn wider_window_keeps_search_order() {
    // Size-5 filled-diagonal check: radius 2 around (2, 2) on a checkerboard;
    // the offsets with dx^2 + dy^2 <= 4 survive, columns of the window first.
    let latt = PeriodicLattice::new(5);
    let occ = get_checkerboard(&latt);
    let terms = site_interaction_terms(2, 2, 2, &latt, &occ);
    let expected: Vec<(isize, isize, u8)> = vec![
        (2, 0, 0),
        (1, 1, 0),
        (1, 0, 1),
        (1, -1, 0),
        (0, 2, 0),
        (0, 1, 1),
        (0, -1, 1),
        (0, -2, 0),
        (-1, 1, 0),
        (-1, 0, 1),
        (-1, -1, 0),
        (-2, 0, 0),
    ];
    assert_eq!(terms, expected);
}

#[test]
fn neighbor_columns_size_two() {
    let latt = PeriodicLattice::new(2);
    let sp = SpinIdx::new(0, &latt);
    let cols = neighbor_spin_indices(&sp);
    assert_eq!(cols, vec![2, 2, 1, 1]);
}

#[test]
fn neighbor_columns_size_four() {
    let latt = PeriodicLattice::new(4);
    let sp = SpinIdx::new(7, &latt);
    let cols = neighbor_spin_indices(&sp);
    assert_eq!(cols, vec![3, 11, 6, 4]);
}

#[test]
fn row_structure_size_two() {
    let latt = PeriodicLattice::new(2);
    let sp = SpinIdx::new(0, &latt);
    let codes = m_row_structure(&sp);
    assert_eq!(codes, vec![1, 2, 2, 0]);
}

#[test]
fn row_structure_size_four() {
    let latt = PeriodicLattice::new(4);
    let sp = SpinIdx::new(7, &latt);
    let codes = m_row_structure(&sp);
    let mut expected = vec![0u8; 16];
    expected[7] = 1;
    for col in [3, 11, 6, 4] {
        expected[col] = 2;
    }
    assert_eq!(codes, expected);
}

#[test]
fn row_structure_single_site() {
    // On a single-site lattice every neighbor wraps back onto the site, so
    // the coupling overwrites the identity entry.
    let latt = PeriodicLattice::new(1);
    let sp = SpinIdx::new(0, &latt);
    let codes = m_row_structure(&sp);
    assert_eq!(codes, vec![2]);
}

#[test]
fn terms_rebuild_identical() {
    // The enumeration is a pure function of the occupation, site and radius:
    // two builds agree entry for entry.
    let latt = PeriodicLattice::new(4);
    let occ = get_checkerboard(&latt);
    let first = site_interaction_terms(1, 2, 2, &latt, &occ);
    let second = site_interaction_terms(1, 2, 2, &latt, &occ);
    assert_eq!(first, second);
}

#[test]
fn sweep_grid_order() {
    let grid = sweep_grid((1, 3), (4, 9));
    assert_eq!(
        grid,
        vec![(1, 4), (1, 6), (1, 8), (2, 4), (2, 6), (2, 8)]
    );
}

#[test]
fn sweep_grid_empty_bounds() {
    assert_eq!(sweep_grid((3, 3), (4, 9)), vec![]);
    assert_eq!(sweep_grid((1, 3), (9, 4)), vec![]);
    assert_eq!(sweep_grid((1, 3), (4, 4)), vec![]);
}

#[test]
fn sweep_grid_single_size() {
    assert_eq!(sweep_grid((0, 1), (2, 3)), vec![(0, 2)]);
}

#[test]
fn pattern_occupation_dispatch() {
    let latt = PeriodicLattice::new(4);
    let filled = generate_pattern_occupation(Pattern::Filled, &latt);
    let cb = generate_pattern_occupation(Pattern::CB, &latt);
    let stripe = generate_pattern_occupation(Pattern::HStripe, &latt);
    for y in 0..4 {
        for x in 0..4 {
            assert_eq!(filled.get(y, x), 1);
            assert_eq!(cb.get(y, x), ((x + y) % 2) as u8);
            assert_eq!(stripe.get(y, x), (y % 2) as u8);
        }
    }
}

#[test]
fn parse_pattern_names() {
    assert_eq!(parse_pattern_str(String::from("filled")), Pattern::Filled);
    assert_eq!(parse_pattern_str(String::from("cb")), Pattern::CB);
    assert_eq!(parse_pattern_str(String::from("hstripe")), Pattern::HStripe);
}

#[test]
fn parse_pattern_ignores_case() {
    assert_eq!(parse_pattern_str(String::from("FILLED")), Pattern::Filled);
    assert_eq!(parse_pattern_str(String::from("Cb")), Pattern::CB);
    assert_eq!(parse_pattern_str(String::from("HStripe")), Pattern::HStripe);
}

#[test]
fn parse_pattern_default() {
    assert_eq!(parse_pattern_str(String::from("")), Pattern::Filled);
    assert_eq!(parse_pattern_str(String::from("diagonal")), Pattern::Filled);
    assert_eq!(parse_pattern_str(String::from("cbx")), Pattern::Filled);
}
