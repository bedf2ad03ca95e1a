use water_analysis::geometry::{
    angle_below_thirty_degrees, angle_cosine_terms, get_distance_pbc_sq, minimum_image_delta,
    MAX_LENGTH, UNITS_PER_ANGSTROM,
};
use water_analysis::model::{select_species, species_total, Atom, Frame, Species};

const A: i64 = UNITS_PER_ANGSTROM;

fn atom(index: i32, species: Species, position: [i64; 3]) -> Atom {
    Atom { index, species, position }
}

fn frame(cell: [i64; 3], atoms: Vec<Atom>) -> Frame {
    Frame {
        frame_index: 1,
        cell,
        species_list: vec![Species::Oxygen, Species::Hydrogen],
        species_count: vec![
            atoms.iter().filter(|a| a.species == Species::Oxygen).count(),
            atoms.iter().filter(|a| a.species == Species::Hydrogen).count(),
        ],
        atom_count: atoms.len(),
        atoms,
    }
}

#[test]
fn it_works() {
    let mut i = 0;
    let mut a = 0;
    while i < 10 {
        if i == 5 {
            a = 5;
            i += 1;
        } else {
            i += 1;
        }
    }
    assert_eq!(a, 5);
}

#[test]
fn minimum_image_wraps_across_the_cell() {
    let cell = [10 * A, 10 * A, 10 * A];
    let d = minimum_image_delta([0, 0, 0], [9 * A, 3 * A, -8 * A], cell);
    assert_eq!(d, [-A, 3 * A, 2 * A]);
    assert_eq!(get_distance_pbc_sq([0, 0, 0], [9 * A, 3 * A, -8 * A], cell), (A * A * 14) as u64);
}

#[test]
fn minimum_image_rounds_halves_away_from_zero() {
    let cell = [10, 10, 10];
    assert_eq!(minimum_image_delta([0, 0, 0], [5, -5, 15], cell), [-5, 5, -5]);
    assert_eq!(minimum_image_delta([0, 0, 0], [4, -4, 26], cell), [4, -4, -4]);
}

#[test]
fn minimum_image_distance_is_symmetric() {
    let cell = [7 * A, 11 * A, 13 * A];
    let a = [1_234_567, -9_876_543, 25_000_001];
    let b = [8_765_432, 3_141_592, -2_718_281];
    assert_eq!(get_distance_pbc_sq(a, b, cell), get_distance_pbc_sq(b, a, cell));
    let half = [7 * A / 2, 11 * A / 2, 13 * A / 2];
    assert_eq!(get_distance_pbc_sq([0, 0, 0], half, cell), get_distance_pbc_sq(half, [0, 0, 0], cell));
}

#[test]
fn minimum_image_distance_is_bounded_by_half_diagonal() {
    let l = 10 * A;
    let cell = [l, l, l];
    let mut worst: u64 = 0;
    for x in 0..20 {
        for y in 0..20 {
            for z in 0..20 {
                let b = [x * l / 7 - l, y * l / 9, z * l / 4 - 2 * l];
                worst = worst.max(get_distance_pbc_sq([0, 0, 0], b, cell));
            }
        }
    }
    assert!(4 * (worst as u128) <= 3 * (l as u128) * (l as u128));
    let corner = get_distance_pbc_sq([0, 0, 0], [l / 2, l / 2, l / 2], cell);
    assert_eq!(4 * (corner as u128), 3 * (l as u128) * (l as u128));
}

#[test]
fn angle_terms_follow_the_law_of_cosines() {
    let cell = [10 * A, 10 * A, 10 * A];
    let t = angle_cosine_terms([A, 0, 0], [0, 0, 0], [0, 2 * A, 0], cell).unwrap();
    assert_eq!(t.va, (A * A) as u64);
    assert_eq!(t.vb, (4 * A * A) as u64);
    assert_eq!(t.ab, (5 * A * A) as u64);
}

#[test]
fn coincident_ends_give_a_zero_angle() {
    let cell = [10 * A, 10 * A, 10 * A];
    let a = [3 * A, A, 0];
    let t = angle_cosine_terms(a, [0, 0, 0], a, cell).unwrap();
    let num = t.va as i128 + t.vb as i128 - t.ab as i128;
    assert!(num > 0);
    assert_eq!(num * num, 4 * (t.va as i128) * (t.vb as i128));
    assert!(angle_below_thirty_degrees(a, [0, 0, 0], a, cell));
}

#[test]
fn collinear_points_with_vertex_between_give_a_straight_angle() {
    let cell = [10 * A, 10 * A, 10 * A];
    let t = angle_cosine_terms([-A, 0, 0], [0, 0, 0], [2 * A, 0, 0], cell).unwrap();
    let num = t.va as i128 + t.vb as i128 - t.ab as i128;
    assert!(num < 0);
    assert_eq!(num * num, 4 * (t.va as i128) * (t.vb as i128));
    assert!(!angle_below_thirty_degrees([-A, 0, 0], [0, 0, 0], [2 * A, 0, 0], cell));
}

#[test]
fn thirty_degree_threshold_is_exact() {
    let cell = [100 * A, 100 * A, 100 * A];
    // 29 degrees and 31 degrees away from the x axis, radius 2 Angstrom.
    let r = 2.0 * A as f64;
    let p29 = [(r * 29f64.to_radians().cos()) as i64, (r * 29f64.to_radians().sin()) as i64, 0];
    let p31 = [(r * 31f64.to_radians().cos()) as i64, (r * 31f64.to_radians().sin()) as i64, 0];
    assert!(angle_below_thirty_degrees([3 * A, 0, 0], [0, 0, 0], p29, cell));
    assert!(!angle_below_thirty_degrees([3 * A, 0, 0], [0, 0, 0], p31, cell));
    // a side of zero length leaves the angle undefined
    assert!(!angle_below_thirty_degrees([0, 0, 0], [0, 0, 0], p29, cell));
}

#[test]
fn species_selection_keeps_order_and_counts() {
    let f = frame(
        [10 * A, 10 * A, 10 * A],
        vec![
            atom(1, Species::Hydrogen, [1, 0, 0]),
            atom(2, Species::Oxygen, [2, 0, 0]),
            atom(3, Species::Other(7), [3, 0, 0]),
            atom(4, Species::Oxygen, [4, 0, 0]),
        ],
    );
    let os = select_species(&f.atoms, Species::Oxygen);
    assert_eq!(os.iter().map(|a| a.index).collect::<Vec<_>>(), vec![2, 4]);
    assert_eq!(species_total(&f, Species::Oxygen), 2);
    assert_eq!(species_total(&f, Species::Hydrogen), 1);
    assert_eq!(species_total(&f, Species::Other(7)), 0);
}

#[test]
fn largest_cell_does_not_overflow() {
    let l = MAX_LENGTH;
    let cell = [l, l, l];
    let far = [i64::MAX, i64::MIN, l / 2];
    let d = get_distance_pbc_sq([0, 0, 0], far, cell);
    assert!(4 * (d as u128) <= 3 * (l as u128) * (l as u128));
    let corner = get_distance_pbc_sq([0, 0, 0], [l / 2, l / 2, l / 2], cell);
    assert_eq!(corner as u128, 3 * (l as u128 / 2) * (l as u128 / 2));
    assert!(angle_below_thirty_degrees([l / 2, 0, 0], [0, 0, 0], [l / 2, 1, 0], cell));
}

#[test]
fn angle_with_an_end_on_the_vertex_is_undefined() {
    let cell = [10 * A, 10 * A, 10 * A];
    assert_eq!(angle_cosine_terms([0, 0, 0], [0, 0, 0], [A, 0, 0], cell), None);
    assert_eq!(angle_cosine_terms([0, 0, 0], [10 * A, 0, 0], [0, A, 0], cell), None);
    assert!(angle_cosine_terms([A, 0, 0], [0, 0, 0], [A, 0, 0], cell).is_some());
}
