use water_analysis::cov::{cov, cov_oneframe, find_cov_oneatom};
use water_analysis::distance::compute_distance;
use water_analysis::error::{ConfigurationError, GeometryError};
use water_analysis::geometry::{CosineTerms, UNITS_PER_ANGSTROM};
use water_analysis::hb::{compute_HBs, compute_HBs_oneframe};
use water_analysis::model::{Atom, Frame, Species};
use water_analysis::q::{find_neighbour, q, q_oneframe};
use water_analysis::rdf::{rdf, rdf_oneframe};

const A: i64 = UNITS_PER_ANGSTROM;

fn atom(index: i32, species: Species, position: [i64; 3]) -> Atom {
    Atom { index, species, position }
}

fn frame(cell: [i64; 3], atoms: Vec<Atom>) -> Frame {
    Frame {
        frame_index: 1,
        cell,
        species_list: vec![Species::Oxygen, Species::Hydrogen],
        species_count: vec![
            atoms.iter().filter(|a| a.species == Species::Oxygen).count(),
            atoms.iter().filter(|a| a.species == Species::Hydrogen).count(),
        ],
        atom_count: atoms.len(),
        atoms,
    }
}

fn cube(l: i64) -> [i64; 3] {
    [l, l, l]
}

/// q = 1 - 3/8 * sum (cos + 1/3)^2 from the six law-of-cosines terms.
fn q_of(terms: &[CosineTerms; 6]) -> f64 {
    let mut q = 1.0;
    for t in terms {
        let num = t.va as f64 + t.vb as f64 - t.ab as f64;
        let c = (num / (2.0 * (t.va as f64).sqrt() * (t.vb as f64).sqrt())).clamp(-1.0, 1.0);
        q -= 0.375 * (c + 1.0 / 3.0).powi(2);
    }
    q
}

#[test]
fn resolver_returns_the_two_bonded_hydrogens_in_input_order() {
    let cell = cube(10 * A);
    let o = atom(1, Species::Oxygen, [0, 0, 0]);
    let hs = vec![
        atom(2, Species::Hydrogen, [3 * A, 0, 0]),
        atom(3, Species::Hydrogen, [0, 960_000, 0]),
        atom(4, Species::Hydrogen, [4 * A, 4 * A, 0]),
        atom(5, Species::Hydrogen, [-960_000, 0, 0]),
    ];
    assert_eq!(find_cov_oneatom(&o, &hs, cell), Ok((1, 3)));
}

#[test]
fn resolver_takes_the_first_two_of_three_close_hydrogens() {
    let cell = cube(10 * A);
    let o = atom(1, Species::Oxygen, [0, 0, 0]);
    let hs = vec![
        atom(2, Species::Hydrogen, [0, 0, 1_400_000]),
        atom(3, Species::Hydrogen, [0, 900_000, 0]),
        atom(4, Species::Hydrogen, [800_000, 0, 0]),
    ];
    assert_eq!(find_cov_oneatom(&o, &hs, cell), Ok((0, 1)));
}

#[test]
fn resolver_accepts_exactly_the_cutoff_and_sees_through_the_boundary() {
    let cell = cube(10 * A);
    let o = atom(1, Species::Oxygen, [0, 0, 0]);
    let hs = vec![
        atom(2, Species::Hydrogen, [1_500_000, 0, 0]),
        atom(3, Species::Hydrogen, [0, 10 * A - 1_000_000, 0]),
    ];
    assert_eq!(find_cov_oneatom(&o, &hs, cell), Ok((0, 1)));
}

#[test]
fn resolver_fails_with_one_bonded_hydrogen() {
    let cell = cube(10 * A);
    let o = atom(7, Species::Oxygen, [0, 0, 0]);
    let hs = vec![
        atom(2, Species::Hydrogen, [0, 960_000, 0]),
        atom(3, Species::Hydrogen, [1_500_001, 0, 0]),
    ];
    assert_eq!(find_cov_oneatom(&o, &hs, cell), Err(GeometryError::BondedHydrogens { oxygen: 7 }));
}

fn single_water() -> Frame {
    frame(
        cube(10 * A),
        vec![
            atom(1, Species::Oxygen, [0, 0, 0]),
            atom(2, Species::Hydrogen, [960_000, 0, 0]),
            atom(3, Species::Hydrogen, [0, 960_000, 0]),
        ],
    )
}

#[test]
fn covalent_angle_of_a_right_angled_water() {
    let t = cov_oneframe(&single_water()).unwrap();
    assert_eq!(t.len(), 1);
    let h2 = (960_000u64) * 960_000;
    assert_eq!(t[0], CosineTerms { va: h2, vb: h2, ab: 2 * h2 });
    let all = cov(&vec![single_water(), single_water()]).unwrap();
    assert_eq!(all.len(), 2);
}

#[test]
fn covalent_kernel_fails_on_a_bare_oxygen() {
    let mut f = single_water();
    f.atoms.push(atom(4, Species::Oxygen, [5 * A, 5 * A, 5 * A]));
    assert_eq!(cov_oneframe(&f), Err(GeometryError::BondedHydrogens { oxygen: 4 }));
}

/// Two waters along x, 2.8 Angstrom apart; the second points one hydrogen at the first.
fn water_dimer() -> Frame {
    frame(
        cube(20 * A),
        vec![
            atom(1, Species::Oxygen, [0, 0, 0]),
            atom(2, Species::Hydrogen, [-960_000, 0, 0]),
            atom(3, Species::Hydrogen, [0, 0, 960_000]),
            atom(4, Species::Oxygen, [2_800_000, 0, 0]),
            atom(5, Species::Hydrogen, [1_840_000, 0, 0]),
            atom(6, Species::Hydrogen, [2_800_000, 960_000, 0]),
        ],
    )
}

#[test]
fn dimer_holds_one_hydrogen_bond_counted_from_both_sides() {
    let c = compute_HBs_oneframe(&water_dimer()).unwrap();
    assert_eq!(c.oxygens, 2);
    assert_eq!(c.bonds, 2);
    assert_eq!(c.bonds as f64 / c.oxygens as f64, 1.0);
}

#[test]
fn distant_waters_share_no_hydrogen_bond() {
    let mut f = water_dimer();
    for a in f.atoms.iter_mut().skip(3) {
        a.position[0] += 1_000_000;
    }
    let c = compute_HBs_oneframe(&f).unwrap();
    assert_eq!(c.bonds, 0);
    let all = compute_HBs(&vec![water_dimer(), f]).unwrap();
    assert_eq!(all.iter().map(|c| c.bonds).collect::<Vec<_>>(), vec![2, 0]);
}

#[test]
fn hydrogen_bond_kernel_fails_when_a_close_oxygen_lacks_hydrogens() {
    let mut f = water_dimer();
    f.atoms.push(atom(7, Species::Oxygen, [0, 3 * A, 0]));
    assert!(matches!(compute_HBs_oneframe(&f), Err(GeometryError::BondedHydrogens { .. })));
}

/// A centre oxygen with four neighbours at the corners of a regular tetrahedron, 2.8 Angstrom away.
fn tetrahedron() -> Frame {
    let c = 10 * A;
    let s = 1_616_581;
    frame(
        cube(20 * A),
        vec![
            atom(1, Species::Oxygen, [c, c, c]),
            atom(2, Species::Oxygen, [c + s, c + s, c + s]),
            atom(3, Species::Oxygen, [c + s, c - s, c - s]),
            atom(4, Species::Oxygen, [c - s, c + s, c - s]),
            atom(5, Species::Oxygen, [c - s, c - s, c + s]),
        ],
    )
}

#[test]
fn perfect_tetrahedron_has_unit_order() {
    let f = tetrahedron();
    let nb = find_neighbour(&f.atoms[0], &f.atoms, f.cell).unwrap();
    assert_eq!(nb, [1, 2, 3, 4]);
    let v = q_oneframe(&f).unwrap();
    assert_eq!(v.len(), 5);
    for t in v[0].iter() {
        let num = t.va as i128 + t.vb as i128 - t.ab as i128;
        assert_eq!(t.va, t.vb);
        assert_eq!(3 * num, -2 * t.va as i128);
    }
    assert!((q_of(&v[0]) - 1.0).abs() < 1e-9);
    assert!(q_of(&v[1]) < 1.0);
}

#[test]
fn neighbours_come_nearest_first_with_ties_in_order() {
    let cell = cube(30 * A);
    let os = vec![
        atom(1, Species::Oxygen, [0, 0, 0]),
        atom(2, Species::Oxygen, [3 * A, 0, 0]),
        atom(3, Species::Oxygen, [0, 2 * A, 0]),
        atom(4, Species::Oxygen, [0, 0, 3 * A]),
        atom(5, Species::Oxygen, [4 * A, 0, 0]),
        atom(6, Species::Oxygen, [50_000, 0, 0]),
        atom(7, Species::Oxygen, [0, 0, 6 * A]),
        atom(8, Species::Oxygen, [0, 5 * A, 0]),
    ];
    assert_eq!(find_neighbour(&os[0], &os, cell), Ok([2, 1, 3, 4]));
}

#[test]
fn too_few_neighbours_is_an_error() {
    let cell = cube(30 * A);
    let os = vec![
        atom(1, Species::Oxygen, [0, 0, 0]),
        atom(2, Species::Oxygen, [3 * A, 0, 0]),
        atom(3, Species::Oxygen, [0, 2 * A, 0]),
        atom(4, Species::Oxygen, [0, 0, 5_000_001]),
        atom(5, Species::Oxygen, [4 * A, 0, 0]),
    ];
    assert_eq!(
        find_neighbour(&os[0], &os, cell),
        Err(GeometryError::TetrahedralNeighbours { oxygen: 1 })
    );
    let f = frame(cell, os);
    assert!(matches!(q_oneframe(&f), Err(GeometryError::TetrahedralNeighbours { .. })));
    assert!(q(&vec![tetrahedron(), f]).is_err());
    assert_eq!(q(&vec![tetrahedron()]).unwrap().len(), 1);
}

#[test]
fn rdf_histogram_bins_pair_distances() {
    let f = frame(
        cube(10 * A),
        vec![
            atom(1, Species::Oxygen, [0, 0, 0]),
            atom(2, Species::Hydrogen, [A, 0, 0]),
            atom(3, Species::Hydrogen, [0, 1_600_000, 0]),
            atom(4, Species::Hydrogen, [0, 0, 9 * A]),
            atom(5, Species::Hydrogen, [3 * A, 0, 0]),
        ],
    );
    let h = rdf_oneframe(&f, Species::Oxygen, Species::Hydrogen, 2 * A, 4).unwrap();
    assert_eq!(h.counts, vec![0, 0, 2, 1]);
    assert_eq!(h.numb_a, 1);
    assert_eq!(h.numb_b, 4);
    assert_eq!(h.volume, 1_000u128 * (A as u128).pow(3));
}

#[test]
fn rdf_of_one_species_counts_each_pair_twice_and_self_pairs_in_bin_zero() {
    let f = frame(
        cube(10 * A),
        vec![atom(1, Species::Oxygen, [0, 0, 0]), atom(2, Species::Oxygen, [0, 0, 2_500_000])],
    );
    let h = rdf_oneframe(&f, Species::Oxygen, Species::Oxygen, 3 * A, 3).unwrap();
    assert_eq!(h.counts, vec![2, 0, 2]);
    let all = rdf(&vec![f.clone(), f], Species::Oxygen, Species::Oxygen, 3 * A, 3).unwrap();
    assert_eq!(all.len(), 2);
}

#[test]
fn rdf_rejects_unusable_histograms() {
    let f = single_water();
    assert!(matches!(
        rdf_oneframe(&f, Species::Oxygen, Species::Hydrogen, 2 * A, 0),
        Err(ConfigurationError::Histogram)
    ));
    assert!(matches!(
        rdf_oneframe(&f, Species::Oxygen, Species::Hydrogen, 0, 10),
        Err(ConfigurationError::Histogram)
    ));
}

#[test]
fn distance_between_chosen_atoms_per_frame() {
    let f = single_water();
    let d = compute_distance(&vec![f.clone(), f.clone()], 2, 3).unwrap();
    assert_eq!(d, vec![2 * 960_000u64 * 960_000; 2]);
    assert_eq!(compute_distance(&vec![f.clone()], 0, 1), Err(ConfigurationError::AtomIndex));
    assert_eq!(compute_distance(&vec![f], 1, 4), Err(ConfigurationError::AtomIndex));
}

#[test]
fn frames_without_oxygen_or_partners_give_empty_results() {
    let cell = cube(10 * A);
    let only_h = frame(cell, vec![atom(1, Species::Hydrogen, [0, 0, 0])]);
    assert_eq!(cov_oneframe(&only_h), Ok(vec![]));
    let c = compute_HBs_oneframe(&single_water()).unwrap();
    assert_eq!((c.bonds, c.oxygens), (0, 1));
    let h = rdf_oneframe(&only_h, Species::Oxygen, Species::Hydrogen, A, 2).unwrap();
    assert_eq!(h.counts, vec![0, 0]);
    assert_eq!(h.numb_a, 0);
}

#[test]
fn hydrogen_on_its_oxygen_leaves_the_covalent_angle_undefined() {
    let f = frame(
        cube(10 * A),
        vec![
            atom(1, Species::Oxygen, [A, A, A]),
            atom(2, Species::Hydrogen, [A, A, A]),
            atom(3, Species::Hydrogen, [A, 1_960_000, A]),
        ],
    );
    assert_eq!(cov_oneframe(&f), Err(GeometryError::UndefinedAngle { oxygen: 1 }));
}

#[test]
fn kernel_errors_name_the_first_failing_oxygen_and_frame() {
    let mut f = single_water();
    f.atoms.push(atom(8, Species::Oxygen, [5 * A, 5 * A, 5 * A]));
    f.atoms.push(atom(9, Species::Oxygen, [7 * A, 5 * A, 5 * A]));
    assert_eq!(cov_oneframe(&f), Err(GeometryError::BondedHydrogens { oxygen: 8 }));
    let mut g = single_water();
    g.atoms.push(atom(6, Species::Oxygen, [5 * A, 5 * A, 5 * A]));
    assert_eq!(
        cov(&vec![single_water(), g, f.clone()]),
        Err(GeometryError::BondedHydrogens { oxygen: 6 })
    );

    // The pair (water, 8) is out of range; (8, 9) is the first in range, and
    // its second oxygen is resolved first.
    assert_eq!(compute_HBs_oneframe(&f), Err(GeometryError::BondedHydrogens { oxygen: 9 }));
    assert_eq!(
        compute_HBs(&vec![water_dimer(), f]),
        Err(GeometryError::BondedHydrogens { oxygen: 9 })
    );

    let mut t = tetrahedron();
    t.atoms.push(atom(11, Species::Oxygen, [0, 0, 0]));
    assert_eq!(q_oneframe(&t), Err(GeometryError::TetrahedralNeighbours { oxygen: 11 }));
    assert_eq!(
        q(&vec![tetrahedron(), t]),
        Err(GeometryError::TetrahedralNeighbours { oxygen: 11 })
    );
}
