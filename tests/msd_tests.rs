use water_analysis::error::ConfigurationError;
use water_analysis::geometry::UNITS_PER_ANGSTROM;
use water_analysis::model::{Atom, Frame, Species};
use water_analysis::msd::{msd, parse_direction, unwrap, MsdError};

const A: i64 = UNITS_PER_ANGSTROM;

fn trajectory(cell: i64, positions: &[Vec<(Species, [i64; 3])>]) -> Vec<Frame> {
    positions
        .iter()
        .enumerate()
        .map(|(k, atoms)| Frame {
            frame_index: k as i32 + 1,
            cell: [cell, cell, cell],
            species_list: vec![Species::Oxygen, Species::Hydrogen],
            species_count: vec![
                atoms.iter().filter(|a| a.0 == Species::Oxygen).count(),
                atoms.iter().filter(|a| a.0 == Species::Hydrogen).count(),
            ],
            atom_count: atoms.len(),
            atoms: atoms
                .iter()
                .enumerate()
                .map(|(i, a)| Atom { index: i as i32 + 1, species: a.0, position: a.1 })
                .collect(),
        })
        .collect()
}

#[test]
fn single_crossing_is_unwrapped_by_one_edge() {
    let l = 10 * A;
    let frames = trajectory(
        l,
        &[
            vec![(Species::Oxygen, [9_500_000, 5 * A, 500_000])],
            vec![(Species::Oxygen, [500_000, 5 * A, 9_800_000])],
        ],
    );
    let u = unwrap(&frames);
    assert_eq!(u[0][0], [9_500_000, 5_000_000, 500_000]);
    assert_eq!(u[1][0], [10_500_000, 5_000_000, -200_000]);
    assert_eq!(u[1][0][0] - frames[1].atoms[0].position[0] as i128, l as i128);
    assert_eq!(u[1][0][2] - frames[1].atoms[0].position[2] as i128, -(l as i128));
    let s = msd(&frames, Species::Oxygen, [true, true, true], 1, 2, 1).unwrap();
    assert_eq!(s.atoms, 1);
    assert_eq!(s.points.len(), 1);
    assert_eq!(s.points[0].lag, 1);
    assert_eq!(s.points[0].windows, 1);
    assert_eq!(s.points[0].total, (A as u128).pow(2) + (700_000u128).pow(2));
}

#[test]
fn unwrapping_keeps_counting_across_repeated_crossings() {
    let l = 10 * A;
    let frames = trajectory(
        l,
        &[
            vec![(Species::Oxygen, [8 * A, 0, 0])],
            vec![(Species::Oxygen, [2 * A, 0, 0])],
            vec![(Species::Oxygen, [6 * A, 0, 0])],
            vec![(Species::Oxygen, [0, 0, 0])],
        ],
    );
    let u = unwrap(&frames);
    let xs: Vec<i128> = u.iter().map(|row| row[0][0]).collect();
    assert_eq!(xs, vec![8 * A as i128, 12 * A as i128, 16 * A as i128, 20 * A as i128]);
}

fn wandering() -> Vec<Frame> {
    let l = 10 * A;
    let mut frames = Vec::new();
    let mut p = [[1 * A, 2 * A, 3 * A], [7 * A, 8 * A, 9 * A], [5 * A, 5 * A, 5 * A]];
    let steps = [[1_300_000, -2_100_000, 700_000], [-900_000, 400_000, 3_300_000], [200_000, 200_000, -4_100_000]];
    for _ in 0..6 {
        frames.push(vec![
            (Species::Oxygen, p[0]),
            (Species::Hydrogen, p[1]),
            (Species::Oxygen, p[2]),
        ]);
        for i in 0..3 {
            for j in 0..3 {
                p[i][j] = (p[i][j] + steps[i][j]).rem_euclid(l);
            }
        }
    }
    trajectory(l, &frames)
}

#[test]
fn msd_over_xyz_is_the_sum_over_single_axes() {
    let frames = wandering();
    let all = msd(&frames, Species::Oxygen, [true, true, true], 1, 6, 1).unwrap();
    let x = msd(&frames, Species::Oxygen, [true, false, false], 1, 6, 1).unwrap();
    let y = msd(&frames, Species::Oxygen, [false, true, false], 1, 6, 1).unwrap();
    let z = msd(&frames, Species::Oxygen, [false, false, true], 1, 6, 1).unwrap();
    assert_eq!(all.points.len(), 5);
    for m in 0..5 {
        assert_eq!(all.points[m].total, x.points[m].total + y.points[m].total + z.points[m].total);
    }
    assert_eq!(all.atoms, 2);
}

#[test]
fn msd_of_steady_drift_grows_with_the_square_of_the_lag() {
    let frames = wandering();
    let s = msd(&frames, Species::Hydrogen, [true, true, true], 1, 6, 2).unwrap();
    let step2: u128 = 900_000u128.pow(2) + 400_000u128.pow(2) + 3_300_000u128.pow(2);
    assert_eq!(s.points.iter().map(|p| p.lag).collect::<Vec<_>>(), vec![1, 3, 5]);
    assert_eq!(s.points.iter().map(|p| p.windows).collect::<Vec<_>>(), vec![5, 3, 1]);
    assert_eq!(s.points[0].total, 5 * step2);
    assert_eq!(s.points[1].total, 3 * 9 * step2);
    assert_eq!(s.points[2].total, 25 * step2);
    assert_eq!(s.atoms, 1);
}

#[test]
fn lags_beyond_the_trajectory_have_no_window() {
    let frames = wandering();
    let s = msd(&frames, Species::Oxygen, [true, true, true], 6, 8, 1).unwrap();
    assert_eq!(s.points.len(), 2);
    assert_eq!(s.points[0].windows, 0);
    assert_eq!(s.points[0].total, 0);
    let none = msd(&frames, Species::Oxygen, [true, true, true], 4, 4, 1).unwrap();
    assert!(none.points.is_empty());
}

#[test]
fn zero_lag_stride_is_rejected() {
    let frames = wandering();
    assert_eq!(
        msd(&frames, Species::Oxygen, [true, true, true], 1, 5, 0).unwrap_err(),
        MsdError::Configuration(ConfigurationError::LagStride)
    );
}

#[test]
fn direction_tokens() {
    assert_eq!(parse_direction("xyz"), Ok([true, true, true]));
    assert_eq!(parse_direction("xy"), Ok([true, true, false]));
    assert_eq!(parse_direction("xz"), Ok([true, false, true]));
    assert_eq!(parse_direction("yz"), Ok([false, true, true]));
    assert_eq!(parse_direction("x"), Ok([true, false, false]));
    assert_eq!(parse_direction("y"), Ok([false, true, false]));
    assert_eq!(parse_direction("z"), Ok([false, false, true]));
    assert_eq!(parse_direction("zyx"), Err(ConfigurationError::Direction));
    assert_eq!(parse_direction(""), Err(ConfigurationError::Direction));
    assert_eq!(parse_direction("xyzz"), Err(ConfigurationError::Direction));
}
