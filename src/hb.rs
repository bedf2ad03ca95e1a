//! Hydrogen bonds between water molecules.

use vstd::prelude::*;

use crate::cov::{bonded_pair, find_cov_oneatom, hydrogens, oxygens};
use crate::error::{first_error, GeometryError};
use crate::geometry::{
    angle_below_thirty_degrees, below_thirty_degrees, cell_ok, cosine_terms_of,
    get_distance_pbc_sq, image_sq, sq,
};
use crate::model::{frames_ok, lemma_of_species_len, select_species, Atom, Frame, Species, MAX_ATOMS};

verus! {

/// Largest O-O distance of a hydrogen bond: 3.5 Angstrom in length units.
pub const HB_CUTOFF: i64 = 3_500_000;

pub open spec fn count(b: bool) -> int {
    if b {
        1
    } else {
        0
    }
}

/// Hydrogen bonds that the donor oxygen at `donor` gives to the acceptor at
/// `acceptor`: those of its two bonded hydrogens whose angle at the donor,
/// between acceptor and hydrogen, is below 30 degrees.
pub open spec fn donated(acceptor: [i64; 3], donor: [i64; 3], hs: Seq<Atom>, cell: [i64; 3]) -> int {
    match bonded_pair(donor, hs, cell) {
        Some((i, j)) => count(below_thirty_degrees(cosine_terms_of(acceptor, donor, hs[i].position, cell)))
            + count(below_thirty_degrees(cosine_terms_of(acceptor, donor, hs[j].position, cell))),
        None => 0,
    }
}

/// Two distinct oxygens closer than `HB_CUTOFF`.
pub open spec fn in_range(o1: Atom, o2: Atom, cell: [i64; 3]) -> bool {
    o1.index != o2.index && image_sq(o1.position, o2.position, cell) < sq(HB_CUTOFF as int)
}

/// Hydrogen bonds counted for the ordered pair `(o1, o2)`: those that `o2`
/// donates to `o1` and those that `o1` donates to `o2`.
pub open spec fn pair_bonds(o1: Atom, o2: Atom, hs: Seq<Atom>, cell: [i64; 3]) -> int {
    if in_range(o1, o2, cell) {
        donated(o1.position, o2.position, hs, cell) + donated(o2.position, o1.position, hs, cell)
    } else {
        0
    }
}

/// What resolving the pair `(o1, o2)` gives: `None` where it is out of
/// range or both oxygens have two bonded hydrogens; otherwise the error of
/// the oxygen resolved first, `o2` before `o1`.
pub open spec fn pair_error(o1: Atom, o2: Atom, hs: Seq<Atom>, cell: [i64; 3]) -> Option<GeometryError> {
    if !in_range(o1, o2, cell) {
        None
    } else if bonded_pair(o2.position, hs, cell) is None {
        Some(GeometryError::BondedHydrogens { oxygen: o2.index })
    } else if bonded_pair(o1.position, hs, cell) is None {
        Some(GeometryError::BondedHydrogens { oxygen: o1.index })
    } else {
        None
    }
}

/// The first error among the pairs `(o1, os[b])`, in the order of `os`.
pub open spec fn row_error(o1: Atom, os: Seq<Atom>, hs: Seq<Atom>, cell: [i64; 3]) -> Option<GeometryError> {
    first_error(Seq::new(os.len(), |b: int| pair_error(o1, os[b], hs, cell)), 0)
}

/// The first error among all ordered pairs of `os`, row by row.
pub open spec fn hb_error(os: Seq<Atom>, hs: Seq<Atom>, cell: [i64; 3]) -> Option<GeometryError> {
    first_error(Seq::new(os.len(), |a: int| row_error(os[a], os, hs, cell)), 0)
}

/// The first error of the hydrogen-bond count of a frame.
pub open spec fn hb_frame_error(frame: Frame) -> Option<GeometryError> {
    hb_error(oxygens(frame.atoms@), hydrogens(frame.atoms@), frame.cell)
}

/// The error of the first frame whose hydrogen bonds cannot be counted.
pub open spec fn hb_traj_error(frames: Seq<Frame>) -> Option<GeometryError> {
    first_error(Seq::new(frames.len(), |k: int| hb_frame_error(frames[k])), 0)
}

/// Bonds of the pairs `(o1, os[b])` for `b < n`.
pub open spec fn row_bonds(o1: Atom, os: Seq<Atom>, hs: Seq<Atom>, cell: [i64; 3], n: int) -> int
    decreases n,
{
    if n <= 0 {
        0
    } else {
        row_bonds(o1, os, hs, cell, n - 1) + pair_bonds(o1, os[n - 1], hs, cell)
    }
}

/// Bonds of the pairs `(os[a], os[b])` for `a < n` and every `b`.
pub open spec fn total_bonds(os: Seq<Atom>, hs: Seq<Atom>, cell: [i64; 3], n: int) -> int
    decreases n,
{
    if n <= 0 {
        0
    } else {
        total_bonds(os, hs, cell, n - 1) + row_bonds(os[n - 1], os, hs, cell, os.len() as int)
    }
}

/// The hydrogen bonds of one frame, with the number of oxygens that shares them.
#[derive(Clone, Copy, Debug, PartialEq, Eq)]
pub struct HbCount {
    /// Hydrogen bonds summed over all ordered pairs of oxygens.
    pub bonds: u64,
    /// Number of oxygens in the frame.
    pub oxygens: usize,
}

fn donated_count(acceptor: [i64; 3], donor: [i64; 3], h1: [i64; 3], h2: [i64; 3], cell: [i64; 3]) -> (r: u64)
    requires
        cell_ok(cell),
    ensures
        r == count(below_thirty_degrees(cosine_terms_of(acceptor, donor, h1, cell)))
            + count(below_thirty_degrees(cosine_terms_of(acceptor, donor, h2, cell))),
{
    let mut r: u64 = 0;
    if angle_below_thirty_degrees(acceptor, donor, h1, cell) {
        r += 1;
    }
    if angle_below_thirty_degrees(acceptor, donor, h2, cell) {
        r += 1;
    }
    r
}

proof fn lemma_row_bound(o1: Atom, os: Seq<Atom>, hs: Seq<Atom>, cell: [i64; 3], n: int)
    requires
        0 <= n,
    ensures
        0 <= row_bonds(o1, os, hs, cell, n) <= 4 * n,
    decreases n,
{
    if n > 0 {
        lemma_row_bound(o1, os, hs, cell, n - 1);
    }
}

/// The hydrogen bonds of one frame. For every ordered pair of distinct
/// oxygens (by identifier) closer than `HB_CUTOFF`, each bonded hydrogen of
/// the second oxygen whose angle at it, between the first oxygen and that
/// hydrogen, is below 30 degrees counts one bond, and so does each bonded
/// hydrogen of the first oxygen seen the other way round. An angle with a
/// side of zero length is not below 30 degrees. Pairs are taken row by row
/// in the order of the oxygens; the count stops at the first pair in range
/// with an oxygen that lacks two bonded hydrogens, with the error that
/// names that oxygen (the second of the pair checked first).
#[allow(non_snake_case)]
pub fn compute_HBs_oneframe(frame: &Frame) -> (r: Result<HbCount, GeometryError>)
    requires
        cell_ok(frame.cell),
        frame.atoms.len() <= MAX_ATOMS,
    ensures
        r.is_ok() <==> hb_frame_error(*frame) is None,
        r matches Ok(c) ==> {
            let os = oxygens(frame.atoms@);
            &&& c.oxygens == os.len()
            &&& c.bonds == total_bonds(os, hydrogens(frame.atoms@), frame.cell, os.len() as int)
        },
        r matches Err(e) ==> hb_frame_error(*frame) == Some(e),
{
    let cell = frame.cell;
    let os = select_species(&frame.atoms, Species::Oxygen);
    let hs = select_species(&frame.atoms, Species::Hydrogen);
    let ghost hsv = hs@;
    let ghost osv = os@;
    let ghost rows = Seq::new(osv.len(), |a: int| row_error(osv[a], osv, hsv, cell));
    proof {
        lemma_of_species_len(frame.atoms@, Species::Oxygen);
    }
    let n = os.len();
    let limit: u64 = (HB_CUTOFF as u64) * (HB_CUTOFF as u64);
    let mut total: u64 = 0;
    let mut a: usize = 0;
    while a < n
        invariant
            a <= n,
            n == os.len(),
            n <= MAX_ATOMS,
            cell == frame.cell,
            cell_ok(cell),
            os@ == osv,
            hs@ == hsv,
            osv == oxygens(frame.atoms@),
            hsv == hydrogens(frame.atoms@),
            limit == sq(HB_CUTOFF as int),
            total == total_bonds(osv, hsv, cell, a as int),
            total <= 4 * n * a,
            rows == Seq::new(osv.len(), |a: int| row_error(osv[a], osv, hsv, cell)),
            hb_error(osv, hsv, cell) == first_error(rows, a as int),
        decreases n - a,
    {
        let ghost pairs = Seq::new(osv.len(), |b: int| pair_error(osv[a as int], osv[b], hsv, cell));
        assert(rows[a as int] == row_error(osv[a as int], osv, hsv, cell));
        let mut row: u64 = 0;
        let mut b: usize = 0;
        while b < n
            invariant
                a < n,
                b <= n,
                n == os.len(),
                n <= MAX_ATOMS,
                cell == frame.cell,
                cell_ok(cell),
                os@ == osv,
                hs@ == hsv,
                osv == oxygens(frame.atoms@),
                hsv == hydrogens(frame.atoms@),
                limit == sq(HB_CUTOFF as int),
                row == row_bonds(osv[a as int], osv, hsv, cell, b as int),
                row <= 4 * b,
                rows == Seq::new(osv.len(), |a: int| row_error(osv[a], osv, hsv, cell)),
                hb_error(osv, hsv, cell) == first_error(rows, a as int),
                rows[a as int] == row_error(osv[a as int], osv, hsv, cell),
                pairs == Seq::new(osv.len(), |b: int| pair_error(osv[a as int], osv[b], hsv, cell)),
                row_error(osv[a as int], osv, hsv, cell) == first_error(pairs, b as int),
            decreases n - b,
        {
            assert(pairs[b as int] == pair_error(osv[a as int], osv[b as int], hsv, cell));
            let o1 = os[a];
            let o2 = os[b];
            if o1.index != o2.index && get_distance_pbc_sq(o1.position, o2.position, cell) < limit {
                let (i2, j2) = match find_cov_oneatom(&o2, &hs, cell) {
                    Err(e) => {
                        return Err(e);
                    },
                    Ok(p) => p,
                };
                let (i1, j1) = match find_cov_oneatom(&o1, &hs, cell) {
                    Err(e) => {
                        return Err(e);
                    },
                    Ok(p) => p,
                };
                proof {
                    crate::cov::lemma_bonded_pair_in_bounds(o2.position, hsv, cell);
                    crate::cov::lemma_bonded_pair_in_bounds(o1.position, hsv, cell);
                }
                let accept = donated_count(
                    o1.position,
                    o2.position,
                    hs[i2].position,
                    hs[j2].position,
                    cell,
                );
                let give = donated_count(
                    o2.position,
                    o1.position,
                    hs[i1].position,
                    hs[j1].position,
                    cell,
                );
                row = row + accept + give;
            }
            b += 1;
        }
        proof {
            lemma_row_bound(osv[a as int], osv, hsv, cell, n as int);
            assert(4 * n * a + 4 * n == 4 * n * (a + 1)) by (nonlinear_arith);
            assert(4 * n * (a + 1) <= 4 * n * n) by (nonlinear_arith)
                requires
                    a < n,
            ;
            assert(4 * n * n <= 4 * MAX_ATOMS * MAX_ATOMS) by (nonlinear_arith)
                requires
                    n <= MAX_ATOMS,
            ;
        }
        total = total + row;
        a += 1;
    }
    Ok(HbCount { bonds: total, oxygens: n })
}

/// The hydrogen-bond count of every frame (see `compute_HBs_oneframe`),
/// frame by frame. Stops at the first frame that fails, with that frame's error.
#[allow(non_snake_case)]
pub fn compute_HBs(system: &Vec<Frame>) -> (r: Result<Vec<HbCount>, GeometryError>)
    requires
        frames_ok(system@),
    ensures
        r.is_ok() <==> hb_traj_error(system@) is None,
        r matches Ok(v) ==> v.len() == system.len() && forall|k: int|
            0 <= k < system.len() ==> {
                let os = oxygens(system@[k].atoms@);
                &&& (#[trigger] v@[k]).oxygens == os.len()
                &&& v@[k].bonds == total_bonds(
                    os,
                    hydrogens(system@[k].atoms@),
                    system@[k].cell,
                    os.len() as int,
                )
            },
        r matches Err(e) ==> hb_traj_error(system@) == Some(e),
{
    let ghost outcomes = Seq::new(system@.len(), |k: int| hb_frame_error(system@[k]));
    let mut v: Vec<HbCount> = Vec::new();
    let mut k: usize = 0;
    while k < system.len()
        invariant
            frames_ok(system@),
            k <= system.len(),
            v.len() == k,
            outcomes == Seq::new(system@.len(), |k: int| hb_frame_error(system@[k])),
            hb_traj_error(system@) == first_error(outcomes, k as int),
            forall|k2: int|
                0 <= k2 < k ==> {
                    let os = oxygens(system@[k2].atoms@);
                    &&& (#[trigger] v@[k2]).oxygens == os.len()
                    &&& v@[k2].bonds == total_bonds(
                        os,
                        hydrogens(system@[k2].atoms@),
                        system@[k2].cell,
                        os.len() as int,
                    )
                },
        decreases system.len() - k,
    {
        assert(cell_ok(system@[k as int].cell));
        assert(outcomes[k as int] == hb_frame_error(system@[k as int]));
        match compute_HBs_oneframe(&system[k]) {
            Err(e) => {
                return Err(e);
            },
            Ok(c) => {
                v.push(c);
            },
        }
        k += 1;
    }
    Ok(v)
}

} // verus!
