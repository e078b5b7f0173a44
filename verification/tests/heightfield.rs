//! Bilinear sampling on a wrapping grid.

use animations::{Heightfield, FX_ONE};

const HALF: i64 = 32768;
const QUARTER: i64 = 16384;

fn two_by_two() -> Heightfield {
    // Row 0: 0 and 1; row 1: 2 and 3 (in whole units).
    Heightfield::new(2, 2, vec![0, FX_ONE, 2 * FX_ONE, 3 * FX_ONE]).unwrap()
}

#[test]
fn sampling_a_cell_corner_returns_its_value() {
    let h = two_by_two();
    assert_eq!(h.sample(0, 0), 0);
    assert_eq!(h.sample(HALF, 0), FX_ONE);
    assert_eq!(h.sample(0, HALF), 2 * FX_ONE);
    assert_eq!(h.sample(HALF, HALF), 3 * FX_ONE);
}

#[test]
fn sampling_between_columns_interpolates() {
    let h = two_by_two();
    assert_eq!(h.sample(QUARTER, 0), HALF);
    assert_eq!(h.sample(0, QUARTER), FX_ONE);
}

#[test]
fn coordinates_wrap_at_one() {
    let h = two_by_two();
    assert_eq!(h.sample(FX_ONE, 0), h.sample(0, 0));
    assert_eq!(h.sample(3 * FX_ONE + HALF, 2 * FX_ONE), h.sample(HALF, 0));
    // Past the last column the lookup wraps back to the first.
    assert_eq!(h.sample(HALF + QUARTER, 0), HALF);
}

#[test]
fn dimension_checks_reject_bad_grids() {
    assert!(Heightfield::new(0, 2, vec![]).is_none());
    assert!(Heightfield::new(2, 2, vec![0, 0, 0]).is_none());
    assert!(Heightfield::new(1, 1, vec![7]).is_some());
}

#[test]
fn single_cell_grids_are_constant() {
    let h = Heightfield::new(1, 1, vec![42]).unwrap();
    assert_eq!(h.sample(0, 0), 42);
    assert_eq!(h.sample(HALF, QUARTER), 42);
    assert_eq!(h.cell(0, 0), 42);
}
