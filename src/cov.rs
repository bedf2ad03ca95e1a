//! Covalent O-H bonds: the two hydrogens bonded to each oxygen.

use vstd::prelude::*;

use crate::error::{first_error, GeometryError};
use crate::geometry::{
    angle_cosine_terms, angle_defined, cell_ok, cosine_terms_of, get_distance_pbc_sq, image_sq, sq, CosineTerms,
};
use crate::model::{frames_ok, of_species, select_species, Atom, Frame, Species};

verus! {

/// Largest O-H distance of a covalent bond: 1.5 Angstrom in length units.
pub const COVALENT_CUTOFF: i64 = 1_500_000;

/// The hydrogen at `h` lies within the covalent cutoff of the oxygen at `o`.
pub open spec fn bonded(o: [i64; 3], h: [i64; 3], cell: [i64; 3]) -> bool {
    image_sq(o, h, cell) <= sq(COVALENT_CUTOFF as int)
}

/// The positions in `hs`, among its first `n`, of the hydrogens bonded to `o`, in order.
pub open spec fn bonded_upto(o: [i64; 3], hs: Seq<Atom>, cell: [i64; 3], n: int) -> Seq<int>
    decreases n,
{
    if n <= 0 {
        Seq::empty()
    } else {
        let p = bonded_upto(o, hs, cell, n - 1);
        if bonded(o, hs[n - 1].position, cell) {
            p.push(n - 1)
        } else {
            p
        }
    }
}

/// The first two hydrogens of `hs` bonded to `o`, by position, or `None`
/// where fewer than two are.
pub open spec fn bonded_pair(o: [i64; 3], hs: Seq<Atom>, cell: [i64; 3]) -> Option<(int, int)> {
    let s = bonded_upto(o, hs, cell, hs.len() as int);
    if s.len() >= 2 {
        Some((s[0], s[1]))
    } else {
        None
    }
}

proof fn lemma_bonded_upto_grows(o: [i64; 3], hs: Seq<Atom>, cell: [i64; 3], n: int, m: int)
    requires
        0 <= n <= m,
    ensures
        bonded_upto(o, hs, cell, m).len() >= bonded_upto(o, hs, cell, n).len(),
        forall|k: int|
            0 <= k < bonded_upto(o, hs, cell, n).len() ==> bonded_upto(o, hs, cell, m)[k]
                == #[trigger] bonded_upto(o, hs, cell, n)[k],
    decreases m - n,
{
    if n < m {
        lemma_bonded_upto_grows(o, hs, cell, n, m - 1);
    }
}

proof fn lemma_bonded_upto_facts(o: [i64; 3], hs: Seq<Atom>, cell: [i64; 3], n: int)
    requires
        0 <= n,
    ensures
        forall|k: int|
            0 <= k < bonded_upto(o, hs, cell, n).len() ==> {
                let i = #[trigger] bonded_upto(o, hs, cell, n)[k];
                &&& 0 <= i < n
                &&& bonded(o, hs[i].position, cell)
            },
        forall|k: int, l: int|
            0 <= k < l < bonded_upto(o, hs, cell, n).len() ==> #[trigger] bonded_upto(
                o,
                hs,
                cell,
                n,
            )[k] < #[trigger] bonded_upto(o, hs, cell, n)[l],
        bonded_upto(o, hs, cell, n).len() <= n,
    decreases n,
{
    if n > 0 {
        lemma_bonded_upto_facts(o, hs, cell, n - 1);
    }
}

proof fn lemma_bonded_upto_complete(o: [i64; 3], hs: Seq<Atom>, cell: [i64; 3], n: int, m: int)
    requires
        0 <= m < n,
        bonded(o, hs[m].position, cell),
    ensures
        exists|k: int|
            0 <= k < bonded_upto(o, hs, cell, n).len() && #[trigger] bonded_upto(o, hs, cell, n)[k] == m,
    decreases n,
{
    if m < n - 1 {
        lemma_bonded_upto_complete(o, hs, cell, n - 1, m);
        let k = choose|k: int|
            0 <= k < bonded_upto(o, hs, cell, n - 1).len() && #[trigger] bonded_upto(o, hs, cell, n - 1)[k]
                == m;
        lemma_bonded_upto_grows(o, hs, cell, n - 1, n);
        assert(bonded_upto(o, hs, cell, n)[k] == bonded_upto(o, hs, cell, n - 1)[k]);
    } else {
        let p = bonded_upto(o, hs, cell, n - 1);
        assert(bonded_upto(o, hs, cell, n)[p.len() as int] == m);
    }
}

/// Where exactly two hydrogens of `hs`, at positions `i < j`, lie within the
/// covalent cutoff of `o`, the resolver returns exactly those two, in the
/// order of `hs`.
pub proof fn lemma_two_bonded_hydrogens(o: [i64; 3], hs: Seq<Atom>, cell: [i64; 3], i: int, j: int)
    requires
        0 <= i < j < hs.len(),
        bonded(o, hs[i].position, cell),
        bonded(o, hs[j].position, cell),
        forall|m: int|
            0 <= m < hs.len() && m != i && m != j ==> !bonded(o, #[trigger] hs[m].position, cell),
    ensures
        bonded_pair(o, hs, cell) == Some((i, j)),
{
    let n = hs.len() as int;
    let s = bonded_upto(o, hs, cell, n);
    lemma_bonded_upto_facts(o, hs, cell, n);
    lemma_bonded_upto_complete(o, hs, cell, n, i);
    lemma_bonded_upto_complete(o, hs, cell, n, j);
    let ki = choose|k: int| 0 <= k < s.len() && #[trigger] s[k] == i;
    let kj = choose|k: int| 0 <= k < s.len() && #[trigger] s[k] == j;
    assert forall|k: int| 0 <= k < s.len() implies s[k] == i || s[k] == j by {
        assert(bonded(o, hs[s[k]].position, cell));
    }
    if s.len() > 2 {
        assert(s[0] < s[1] && s[1] < s[2]);
    }
    assert(ki < kj) by {
        if kj <= ki {
            if kj < ki {
                assert(s[kj] < s[ki]);
            }
        }
    }
    assert(s.len() == 2);
    assert(ki == 0 && kj == 1);
}

/// The two positions of a bonded pair are valid positions of `hs`.
pub proof fn lemma_bonded_pair_in_bounds(o: [i64; 3], hs: Seq<Atom>, cell: [i64; 3])
    ensures
        bonded_pair(o, hs, cell) matches Some((i, j)) ==> 0 <= i < j < hs.len(),
{
    lemma_bonded_upto_facts(o, hs, cell, hs.len() as int);
}

/// Positions in `coord_h` of the two hydrogens covalently bonded to `atom_o`:
/// the first two, in the order of `coord_h`, that lie within `COVALENT_CUTOFF`
/// of it. Fails where fewer than two do.
pub fn find_cov_oneatom(atom_o: &Atom, coord_h: &Vec<Atom>, cell: [i64; 3]) -> (r: Result<
    (usize, usize),
    GeometryError,
>)
    requires
        cell_ok(cell),
    ensures
        match r {
            Ok((i, j)) => bonded_pair(atom_o.position, coord_h@, cell) == Some((i as int, j as int)),
            Err(e) => {
                &&& bonded_pair(atom_o.position, coord_h@, cell).is_none()
                &&& e == GeometryError::BondedHydrogens { oxygen: atom_o.index }
            },
        },
{
    let ghost o = atom_o.position;
    let limit: u64 = (COVALENT_CUTOFF as u64) * (COVALENT_CUTOFF as u64);
    let mut first: usize = 0;
    let mut found: usize = 0;
    let mut k: usize = 0;
    while k < coord_h.len()
        invariant
            k <= coord_h.len(),
            cell_ok(cell),
            o == atom_o.position,
            limit == sq(COVALENT_CUTOFF as int),
            found == bonded_upto(o, coord_h@, cell, k as int).len(),
            found <= 1,
            found == 1 ==> bonded_upto(o, coord_h@, cell, k as int)[0] == first,
        decreases coord_h.len() - k,
    {
        let d = get_distance_pbc_sq(atom_o.position, coord_h[k].position, cell);
        if d <= limit {
            if found == 1 {
                proof {
                    let n = coord_h.len() as int;
                    lemma_bonded_upto_grows(o, coord_h@, cell, k + 1, n);
                    assert(bonded_upto(o, coord_h@, cell, k + 1)[1] == k);
                    assert(bonded_upto(o, coord_h@, cell, k + 1)[0] == first);
                }
                return Ok((first, k));
            }
            first = k;
            found = 1;
        }
        k += 1;
    }
    Err(GeometryError::BondedHydrogens { oxygen: atom_o.index })
}


/// The oxygens of `atoms`, in order.
pub open spec fn oxygens(atoms: Seq<Atom>) -> Seq<Atom> {
    of_species(atoms, Species::Oxygen)
}

/// The hydrogens of `atoms`, in order.
pub open spec fn hydrogens(atoms: Seq<Atom>) -> Seq<Atom> {
    of_species(atoms, Species::Hydrogen)
}

/// What resolving oxygen `c` of the frame gives: `None` where it has two
/// bonded hydrogens, neither lying on it; otherwise the error it raises.
pub open spec fn cov_outcome(frame: Frame, c: int) -> Option<GeometryError> {
    let os = oxygens(frame.atoms@);
    let hs = hydrogens(frame.atoms@);
    let o = os[c];
    match bonded_pair(o.position, hs, frame.cell) {
        None => Some(GeometryError::BondedHydrogens { oxygen: o.index }),
        Some((i, j)) => if angle_defined(hs[i].position, o.position, hs[j].position, frame.cell) {
            None
        } else {
            Some(GeometryError::UndefinedAngle { oxygen: o.index })
        },
    }
}

/// The error of the first oxygen of the frame, in the order of the atoms,
/// whose H-O-H angle cannot be formed; `None` where every one can.
pub open spec fn cov_error(frame: Frame) -> Option<GeometryError> {
    first_error(Seq::new(oxygens(frame.atoms@).len(), |c: int| cov_outcome(frame, c)), 0)
}

/// The error of the first frame whose H-O-H angles cannot all be formed.
pub open spec fn cov_traj_error(frames: Seq<Frame>) -> Option<GeometryError> {
    first_error(Seq::new(frames.len(), |k: int| cov_error(frames[k])), 0)
}

/// `v` holds, for each oxygen of the frame in order, the terms of the angle
/// at it between its two bonded hydrogens.
pub open spec fn cov_terms(frame: Frame, v: Seq<CosineTerms>) -> bool {
    let os = oxygens(frame.atoms@);
    let hs = hydrogens(frame.atoms@);
    &&& v.len() == os.len()
    &&& forall|c: int|
        0 <= c < os.len() ==> {
            let p = bonded_pair(os[c].position, hs, frame.cell).unwrap();
            #[trigger] v[c] == cosine_terms_of(hs[p.0].position, os[c].position, hs[p.1].position, frame.cell)
        }
}

/// The H-O-H angle of each water molecule of the frame, as the law-of-cosines
/// terms of the angle at the oxygen between its two bonded hydrogens: one
/// entry per oxygen, in the order of the atoms. Stops at the first oxygen
/// that has fewer than two bonded hydrogens, or a bonded hydrogen lying on
/// it, with the error that names it.
pub fn cov_oneframe(frame: &Frame) -> (r: Result<Vec<CosineTerms>, GeometryError>)
    requires
        cell_ok(frame.cell),
    ensures
        r.is_ok() <==> cov_error(*frame) is None,
        r matches Ok(v) ==> cov_terms(*frame, v@),
        r matches Err(e) ==> cov_error(*frame) == Some(e),
{
    let cell = frame.cell;
    let os = select_species(&frame.atoms, Species::Oxygen);
    let hs = select_species(&frame.atoms, Species::Hydrogen);
    let ghost outcomes = Seq::new(os@.len(), |c: int| cov_outcome(*frame, c));
    let mut v: Vec<CosineTerms> = Vec::new();
    let mut c: usize = 0;
    while c < os.len()
        invariant
            c <= os.len(),
            cell == frame.cell,
            cell_ok(cell),
            os@ == oxygens(frame.atoms@),
            hs@ == hydrogens(frame.atoms@),
            outcomes == Seq::new(os@.len(), |c: int| cov_outcome(*frame, c)),
            cov_error(*frame) == first_error(outcomes, c as int),
            v.len() == c,
            forall|c2: int|
                0 <= c2 < c ==> {
                    let p = bonded_pair(os@[c2].position, hs@, cell).unwrap();
                    #[trigger] v@[c2] == cosine_terms_of(
                        hs@[p.0].position,
                        os@[c2].position,
                        hs@[p.1].position,
                        cell,
                    )
                },
        decreases os.len() - c,
    {
        assert(outcomes[c as int] == cov_outcome(*frame, c as int));
        match find_cov_oneatom(&os[c], &hs, cell) {
            Err(e) => {
                return Err(e);
            },
            Ok((i, j)) => {
                proof {
                    lemma_bonded_upto_facts(os@[c as int].position, hs@, cell, hs.len() as int);
                }
                match angle_cosine_terms(hs[i].position, os[c].position, hs[j].position, cell) {
                    None => {
                        return Err(GeometryError::UndefinedAngle { oxygen: os[c].index });
                    },
                    Some(t) => {
                        v.push(t);
                    },
                }
            },
        }
        c += 1;
    }
    Ok(v)
}

/// The H-O-H angle terms of every frame (see `cov_oneframe`), frame by
/// frame. Stops at the first frame that fails, with that frame's error.
pub fn cov(system: &Vec<Frame>) -> (r: Result<Vec<Vec<CosineTerms>>, GeometryError>)
    requires
        frames_ok(system@),
    ensures
        r.is_ok() <==> cov_traj_error(system@) is None,
        r matches Ok(v) ==> v.len() == system.len() && forall|k: int|
            0 <= k < system.len() ==> cov_terms(system@[k], #[trigger] v@[k]@),
        r matches Err(e) ==> cov_traj_error(system@) == Some(e),
{
    let ghost outcomes = Seq::new(system@.len(), |k: int| cov_error(system@[k]));
    let mut v: Vec<Vec<CosineTerms>> = Vec::new();
    let mut k: usize = 0;
    while k < system.len()
        invariant
            frames_ok(system@),
            k <= system.len(),
            v.len() == k,
            outcomes == Seq::new(system@.len(), |k: int| cov_error(system@[k])),
            cov_traj_error(system@) == first_error(outcomes, k as int),
            forall|k2: int| 0 <= k2 < k ==> cov_terms(system@[k2], #[trigger] v@[k2]@),
        decreases system.len() - k,
    {
        assert(cell_ok(system@[k as int].cell));
        assert(outcomes[k as int] == cov_error(system@[k as int]));
        match cov_oneframe(&system[k]) {
            Err(e) => {
                return Err(e);
            },
            Ok(t) => {
                v.push(t);
            },
        }
        k += 1;
    }
    Ok(v)
}

} // verus!
