//! Tetrahedral order parameter: the four nearest oxygen neighbours of each oxygen.

use vstd::prelude::*;

use crate::cov::oxygens;
use crate::error::{first_error, GeometryError};
use crate::geometry::{
    angle_cosine_terms, cell_ok, cosine_terms_of, get_distance_pbc_sq, image_sq, sq, CosineTerms,
};
use crate::model::{frames_ok, select_species, Atom, Frame, Species};

verus! {

/// Lower bound, excluded, of the neighbour shell: 0.1 Angstrom in length units.
pub const SHELL_INNER: i64 = 100_000;

/// Upper bound, included, of the neighbour shell: 5.0 Angstrom in length units.
pub const SHELL_OUTER: i64 = 5_000_000;

/// Squared distance from the centre `oc` to the oxygen at position `m` of `os`.
pub open spec fn dist2(oc: [i64; 3], os: Seq<Atom>, cell: [i64; 3], m: int) -> int {
    image_sq(oc, os[m].position, cell)
}

/// Oxygen `m` lies in the neighbour shell of `oc`.
pub open spec fn candidate(oc: [i64; 3], os: Seq<Atom>, cell: [i64; 3], m: int) -> bool {
    &&& 0 <= m < os.len()
    &&& sq(SHELL_INNER as int) < dist2(oc, os, cell, m) <= sq(SHELL_OUTER as int)
}

/// `m1` comes before `m2` when sorted by distance from `oc`, ties kept in order.
pub open spec fn precedes(oc: [i64; 3], os: Seq<Atom>, cell: [i64; 3], m1: int, m2: int) -> bool {
    dist2(oc, os, cell, m1) < dist2(oc, os, cell, m2) || (dist2(oc, os, cell, m1) == dist2(
        oc,
        os,
        cell,
        m2,
    ) && m1 < m2)
}

/// `m` comes after `prev` in that order; every position comes after `-1`.
pub open spec fn after(oc: [i64; 3], os: Seq<Atom>, cell: [i64; 3], prev: int, m: int) -> bool {
    prev < 0 || precedes(oc, os, cell, prev, m)
}

/// `m` is the first candidate after `prev` in that order.
pub open spec fn is_next(oc: [i64; 3], os: Seq<Atom>, cell: [i64; 3], prev: int, m: int) -> bool {
    &&& candidate(oc, os, cell, m)
    &&& after(oc, os, cell, prev, m)
    &&& forall|m2: int|
        #![trigger candidate(oc, os, cell, m2)]
        candidate(oc, os, cell, m2) && after(oc, os, cell, prev, m2) ==> m2 == m || precedes(
            oc,
            os,
            cell,
            m,
            m2,
        )
}

/// The first candidate after `prev`, or `-1` where none is.
pub open spec fn next_neighbour(oc: [i64; 3], os: Seq<Atom>, cell: [i64; 3], prev: int) -> int {
    if exists|m: int| is_next(oc, os, cell, prev, m) {
        choose|m: int| is_next(oc, os, cell, prev, m)
    } else {
        -1
    }
}

/// The first four candidates in order of distance from `oc`, or `None` where
/// there are fewer than four.
#[verifier::opaque]
pub open spec fn nearest_four(oc: [i64; 3], os: Seq<Atom>, cell: [i64; 3]) -> Option<Seq<int>> {
    let n0 = next_neighbour(oc, os, cell, -1);
    if n0 < 0 {
        None
    } else {
        let n1 = next_neighbour(oc, os, cell, n0);
        if n1 < 0 {
            None
        } else {
            let n2 = next_neighbour(oc, os, cell, n1);
            if n2 < 0 {
                None
            } else {
                let n3 = next_neighbour(oc, os, cell, n2);
                if n3 < 0 {
                    None
                } else {
                    Some(seq![n0, n1, n2, n3])
                }
            }
        }
    }
}

proof fn lemma_next_unique(oc: [i64; 3], os: Seq<Atom>, cell: [i64; 3], prev: int, m: int)
    requires
        is_next(oc, os, cell, prev, m),
    ensures
        next_neighbour(oc, os, cell, prev) == m,
{
    let c = choose|m2: int| is_next(oc, os, cell, prev, m2);
    assert(is_next(oc, os, cell, prev, c));
    assert(candidate(oc, os, cell, m));
    assert(candidate(oc, os, cell, c));
}

fn next_after(oc: [i64; 3], os: &Vec<Atom>, cell: [i64; 3], prev: Option<usize>) -> (r: Option<usize>)
    requires
        cell_ok(cell),
        prev matches Some(p) ==> p < os.len(),
    ensures
        ({
            let p = match prev {
                Some(p) => p as int,
                None => -1,
            };
            match r {
                Some(m) => m < os.len() && next_neighbour(oc, os@, cell, p) == m && is_next(
                    oc,
                    os@,
                    cell,
                    p,
                    m as int,
                ),
                None => next_neighbour(oc, os@, cell, p) == -1 && forall|m: int|
                    0 <= m < os.len() ==> !(#[trigger] candidate(oc, os@, cell, m) && after(
                        oc,
                        os@,
                        cell,
                        p,
                        m,
                    )),
            }
        }),
{
    let ghost p = match prev {
        Some(p) => p as int,
        None => -1,
    };
    let inner: u64 = (SHELL_INNER as u64) * (SHELL_INNER as u64);
    let outer: u64 = (SHELL_OUTER as u64) * (SHELL_OUTER as u64);
    let pd: u64 = match prev {
        Some(q) => get_distance_pbc_sq(oc, os[q].position, cell),
        None => 0,
    };
    let mut best: Option<usize> = None;
    let mut best_d: u64 = 0;
    let mut m: usize = 0;
    while m < os.len()
        invariant
            cell_ok(cell),
            m <= os.len(),
            p == (match prev {
                Some(q) => q as int,
                None => -1,
            }),
            prev matches Some(q) ==> q < os.len() && pd == dist2(oc, os@, cell, q as int),
            inner == sq(SHELL_INNER as int),
            outer == sq(SHELL_OUTER as int),
            best matches Some(b) ==> {
                &&& b < m
                &&& best_d == dist2(oc, os@, cell, b as int)
                &&& candidate(oc, os@, cell, b as int)
                &&& after(oc, os@, cell, p, b as int)
                &&& forall|m2: int|
                    0 <= m2 < m && #[trigger] candidate(oc, os@, cell, m2) && after(oc, os@, cell, p, m2)
                        ==> m2 == b || precedes(oc, os@, cell, b as int, m2)
            },
            best is None ==> forall|m2: int|
                0 <= m2 < m ==> !(#[trigger] candidate(oc, os@, cell, m2) && after(oc, os@, cell, p, m2)),
        decreases os.len() - m,
    {
        let d = get_distance_pbc_sq(oc, os[m].position, cell);
        let qualifies = inner < d && d <= outer;
        let is_after = match prev {
            Some(q) => pd < d || (pd == d && q < m),
            None => true,
        };
        if qualifies && is_after {
            match best {
                None => {
                    best = Some(m);
                    best_d = d;
                },
                Some(_) => {
                    if d < best_d {
                        best = Some(m);
                        best_d = d;
                    }
                },
            }
        }
        m += 1;
    }
    match best {
        Some(b) => {
            proof {
                lemma_next_unique(oc, os@, cell, p, b as int);
            }
        },
        None => {
        },
    }
    best
}

/// At least four distinct oxygens lie in the neighbour shell of `oc`.
pub open spec fn four_candidates(oc: [i64; 3], os: Seq<Atom>, cell: [i64; 3]) -> bool {
    exists|i: int, j: int, k: int, l: int|
        i != j && i != k && i != l && j != k && j != l && k != l && #[trigger] candidate(
            oc,
            os,
            cell,
            i,
        ) && #[trigger] candidate(oc, os, cell, j) && #[trigger] candidate(oc, os, cell, k)
            && #[trigger] candidate(oc, os, cell, l)
}

/// `ns` lists the first `ns.len()` candidates, each the next after the one before.
pub open spec fn chain(oc: [i64; 3], os: Seq<Atom>, cell: [i64; 3], ns: Seq<int>) -> bool {
    &&& ns.len() >= 1
    &&& is_next(oc, os, cell, -1, ns[0])
    &&& forall|k: int| 1 <= k < ns.len() ==> #[trigger] is_next(oc, os, cell, ns[k - 1], ns[k])
}

/// A candidate that does not come after the `k`-th entry of a chain is one
/// of its first `k + 1` entries.
proof fn lemma_chain_covers(oc: [i64; 3], os: Seq<Atom>, cell: [i64; 3], ns: Seq<int>, k: int, m: int)
    requires
        chain(oc, os, cell, ns),
        0 <= k < ns.len(),
        candidate(oc, os, cell, m),
        !after(oc, os, cell, ns[k], m),
    ensures
        exists|j: int| 0 <= j <= k && ns[j] == m,
    decreases k,
{
    if m == ns[k] {
        assert(ns[k] == m);
    } else if k == 0 {
        assert(is_next(oc, os, cell, -1, ns[0]));
        assert(after(oc, os, cell, -1, m));
    } else {
        assert(is_next(oc, os, cell, ns[k - 1], ns[k]));
        if after(oc, os, cell, ns[k - 1], m) {
            assert(m == ns[k] || precedes(oc, os, cell, ns[k], m));
        }
        lemma_chain_covers(oc, os, cell, ns, k - 1, m);
        let j = choose|j: int| 0 <= j <= k - 1 && ns[j] == m;
        assert(0 <= j <= k && ns[j] == m);
    }
}

/// Where no candidate comes after the last entry of a chain of at most three,
/// fewer than four candidates exist.
proof fn lemma_short_chain(oc: [i64; 3], os: Seq<Atom>, cell: [i64; 3], ns: Seq<int>)
    requires
        chain(oc, os, cell, ns),
        ns.len() <= 3,
        forall|m: int|
            0 <= m < os.len() ==> !(#[trigger] candidate(oc, os, cell, m) && after(
                oc,
                os,
                cell,
                ns[ns.len() - 1],
                m,
            )),
    ensures
        !four_candidates(oc, os, cell),
{
    let t = ns.len() - 1;
    assert forall|m: int| #[trigger] candidate(oc, os, cell, m) implies exists|j: int|
        0 <= j <= t && ns[j] == m by {
        lemma_chain_covers(oc, os, cell, ns, t, m);
    }
    if four_candidates(oc, os, cell) {
        let (i, j, k, l) = choose|i: int, j: int, k: int, l: int|
            i != j && i != k && i != l && j != k && j != l && k != l && #[trigger] candidate(
                oc,
                os,
                cell,
                i,
            ) && #[trigger] candidate(oc, os, cell, j) && #[trigger] candidate(oc, os, cell, k)
                && #[trigger] candidate(oc, os, cell, l);
        let ji = choose|x: int| 0 <= x <= t && ns[x] == i;
        let jj = choose|x: int| 0 <= x <= t && ns[x] == j;
        let jk = choose|x: int| 0 <= x <= t && ns[x] == k;
        let jl = choose|x: int| 0 <= x <= t && ns[x] == l;
        assert(ji != jj && ji != jk && ji != jl && jj != jk && jj != jl && jk != jl);
    }
}

/// The four oxygens of `coord_o` nearest to `atom_oc` within the neighbour
/// shell (more than `SHELL_INNER`, at most `SHELL_OUTER` away), as positions
/// in `coord_o`, nearest first; of two at the same distance the earlier comes
/// first. Fails where fewer than four lie in the shell.
pub fn find_neighbour(atom_oc: &Atom, coord_o: &Vec<Atom>, cell: [i64; 3]) -> (r: Result<
    [usize; 4],
    GeometryError,
>)
    requires
        cell_ok(cell),
    ensures
        r.is_ok() <==> four_candidates(atom_oc.position, coord_o@, cell),
        match r {
            Ok(nb) => {
                let oc = atom_oc.position;
                let os = coord_o@;
                &&& nearest_four(oc, os, cell) == Some(
                    seq![nb[0] as int, nb[1] as int, nb[2] as int, nb[3] as int],
                )
                &&& forall|k: int| 0 <= k < 4 ==> candidate(oc, os, cell, #[trigger] nb[k] as int)
                &&& forall|k: int| 0 <= k < 3 ==> precedes(oc, os, cell, #[trigger] nb[k] as int, nb[k + 1] as int)
                &&& forall|m: int|
                    #![trigger candidate(oc, os, cell, m)]
                    candidate(oc, os, cell, m) && m != nb[0] && m != nb[1] && m != nb[2] && m != nb[3]
                        ==> precedes(oc, os, cell, nb[3] as int, m)
            },
            Err(e) => {
                &&& nearest_four(atom_oc.position, coord_o@, cell) is None
                &&& e == GeometryError::TetrahedralNeighbours { oxygen: atom_oc.index }
            },
        },
{
    let oc = atom_oc.position;
    let err = GeometryError::TetrahedralNeighbours { oxygen: atom_oc.index };
    let ghost os = coord_o@;
    reveal(nearest_four);
    let n0 = match next_after(oc, coord_o, cell, None) {
        None => {
            proof {
                if four_candidates(oc, os, cell) {
                    let (i, j, k, l) = choose|i: int, j: int, k: int, l: int|
                        i != j && i != k && i != l && j != k && j != l && k != l
                            && #[trigger] candidate(oc, os, cell, i) && #[trigger] candidate(
                            oc,
                            os,
                            cell,
                            j,
                        ) && #[trigger] candidate(oc, os, cell, k) && #[trigger] candidate(
                            oc,
                            os,
                            cell,
                            l,
                        );
                    assert(after(oc, os, cell, -1, i));
                }
            }
            return Err(err);
        },
        Some(m) => m,
    };
    let n1 = match next_after(oc, coord_o, cell, Some(n0)) {
        None => {
            proof {
                lemma_short_chain(oc, os, cell, seq![n0 as int]);
            }
            return Err(err);
        },
        Some(m) => m,
    };
    let n2 = match next_after(oc, coord_o, cell, Some(n1)) {
        None => {
            proof {
                let ns = seq![n0 as int, n1 as int];
                assert(is_next(oc, os, cell, ns[0], ns[1]));
                lemma_short_chain(oc, os, cell, ns);
            }
            return Err(err);
        },
        Some(m) => m,
    };
    let n3 = match next_after(oc, coord_o, cell, Some(n2)) {
        None => {
            proof {
                let ns = seq![n0 as int, n1 as int, n2 as int];
                assert(is_next(oc, os, cell, ns[0], ns[1]));
                assert(is_next(oc, os, cell, ns[1], ns[2]));
                lemma_short_chain(oc, os, cell, ns);
            }
            return Err(err);
        },
        Some(m) => m,
    };
    proof {
        let ns = seq![n0 as int, n1 as int, n2 as int];
        assert(is_next(oc, os, cell, ns[0], ns[1]));
        assert(is_next(oc, os, cell, ns[1], ns[2]));
        assert(chain(oc, os, cell, ns));
        assert forall|m: int|
            #![trigger candidate(oc, os, cell, m)]
            candidate(oc, os, cell, m) && m != n0 && m != n1 && m != n2 && m != n3 implies precedes(
            oc,
            os,
            cell,
            n3 as int,
            m,
        ) by {
            if !after(oc, os, cell, n2 as int, m) {
                lemma_chain_covers(oc, os, cell, ns, 2, m);
            }
        }
        assert(candidate(oc, os, cell, n0 as int));
        assert(candidate(oc, os, cell, n1 as int));
        assert(candidate(oc, os, cell, n2 as int));
        assert(candidate(oc, os, cell, n3 as int));
        assert(four_candidates(oc, os, cell));
    }
    let nb = [n0, n1, n2, n3];
    assert(seq![nb[0] as int, nb[1] as int, nb[2] as int, nb[3] as int] =~= seq![
        n0 as int,
        n1 as int,
        n2 as int,
        n3 as int,
    ]);
    Ok(nb)
}

/// Law-of-cosines terms of the angle at oxygen `c` between its neighbours `nb[i]` and `nb[j]`.
pub open spec fn neighbour_terms(os: Seq<Atom>, cell: [i64; 3], c: int, nb: Seq<int>, i: int, j: int) -> CosineTerms {
    cosine_terms_of(os[nb[i]].position, os[c].position, os[nb[j]].position, cell)
}

/// The six angles of oxygen `c` with its four neighbours, pairs in the order
/// (0, 1), (0, 2), (0, 3), (1, 2), (1, 3), (2, 3).
pub open spec fn six_terms(os: Seq<Atom>, cell: [i64; 3], c: int, nb: Seq<int>) -> Seq<CosineTerms> {
    seq![
        neighbour_terms(os, cell, c, nb, 0, 1),
        neighbour_terms(os, cell, c, nb, 0, 2),
        neighbour_terms(os, cell, c, nb, 0, 3),
        neighbour_terms(os, cell, c, nb, 1, 2),
        neighbour_terms(os, cell, c, nb, 1, 3),
        neighbour_terms(os, cell, c, nb, 2, 3),
    ]
}

/// What finding the neighbours of oxygen `c` of the frame gives: `None`
/// where it has four in its shell, otherwise the error that names it.
pub open spec fn q_outcome(frame: Frame, c: int) -> Option<GeometryError> {
    let os = oxygens(frame.atoms@);
    if nearest_four(os[c].position, os, frame.cell) is Some {
        None
    } else {
        Some(GeometryError::TetrahedralNeighbours { oxygen: os[c].index })
    }
}

/// The error of the first oxygen of the frame, in the order of the atoms,
/// with fewer than four neighbours in its shell; `None` where there is none.
pub open spec fn q_error(frame: Frame) -> Option<GeometryError> {
    first_error(Seq::new(oxygens(frame.atoms@).len(), |c: int| q_outcome(frame, c)), 0)
}

/// The error of the first frame in which some oxygen lacks four neighbours.
pub open spec fn q_traj_error(frames: Seq<Frame>) -> Option<GeometryError> {
    first_error(Seq::new(frames.len(), |k: int| q_error(frames[k])), 0)
}

fn defined_terms(a: [i64; 3], vertex: [i64; 3], b: [i64; 3], cell: [i64; 3]) -> (r: CosineTerms)
    requires
        cell_ok(cell),
        image_sq(vertex, a, cell) > 0,
        image_sq(vertex, b, cell) > 0,
    ensures
        r == cosine_terms_of(a, vertex, b, cell),
{
    match angle_cosine_terms(a, vertex, b, cell) {
        Some(t) => t,
        None => {
            proof {
                assert(false);
            }
            CosineTerms { va: 0, vb: 0, ab: 0 }
        },
    }
}

/// `v` holds, for each oxygen of the frame in order, the six angle terms
/// with its four nearest neighbours.
pub open spec fn q_terms(frame: Frame, v: Seq<[CosineTerms; 6]>) -> bool {
    let os = oxygens(frame.atoms@);
    &&& v.len() == os.len()
    &&& forall|c: int|
        0 <= c < os.len() ==> (#[trigger] v[c])@ == six_terms(
            os,
            frame.cell,
            c,
            nearest_four(os[c].position, os, frame.cell).unwrap(),
        )
}

/// The angles that fix the tetrahedral order of each oxygen of the frame:
/// for each oxygen, in the order of the atoms, the law-of-cosines terms of
/// the six angles at it between pairs of its four nearest neighbours (see
/// `find_neighbour`). With `cos` each angle's cosine clamped to `[-1, 1]`,
/// the oxygen's order parameter is `q = 1 - 3/8 * sum (cos + 1/3)^2` and the
/// frame's is the mean over its oxygens. Stops at the first oxygen with
/// fewer than four neighbours in its shell, with the error that names it.
pub fn q_oneframe(frame: &Frame) -> (r: Result<Vec<[CosineTerms; 6]>, GeometryError>)
    requires
        cell_ok(frame.cell),
    ensures
        r.is_ok() <==> q_error(*frame) is None,
        r matches Ok(v) ==> q_terms(*frame, v@),
        r matches Err(e) ==> q_error(*frame) == Some(e),
{
    let cell = frame.cell;
    let os = select_species(&frame.atoms, Species::Oxygen);
    let ghost osv = os@;
    let ghost outcomes = Seq::new(osv.len(), |c: int| q_outcome(*frame, c));
    let mut v: Vec<[CosineTerms; 6]> = Vec::new();
    let mut c: usize = 0;
    while c < os.len()
        invariant
            cell == frame.cell,
            cell_ok(cell),
            os@ == osv,
            osv == oxygens(frame.atoms@),
            c <= os.len(),
            v.len() == c,
            outcomes == Seq::new(osv.len(), |c: int| q_outcome(*frame, c)),
            q_error(*frame) == first_error(outcomes, c as int),
            forall|c2: int|
                0 <= c2 < c ==> (#[trigger] nearest_four(osv[c2].position, osv, cell)) is Some,
            forall|c2: int|
                0 <= c2 < c ==> (#[trigger] v@[c2])@ == six_terms(
                    osv,
                    cell,
                    c2,
                    nearest_four(osv[c2].position, osv, cell).unwrap(),
                ),
        decreases os.len() - c,
    {
        assert(outcomes[c as int] == q_outcome(*frame, c as int));
        let nb = match find_neighbour(&os[c], &os, cell) {
            Err(e) => {
                return Err(e);
            },
            Ok(nb) => nb,
        };
        let ghost nbs = seq![nb[0] as int, nb[1] as int, nb[2] as int, nb[3] as int];
        assert(nb[0] < os.len() && nb[1] < os.len() && nb[2] < os.len() && nb[3] < os.len());
        proof {
            let oc = osv[c as int].position;
            assert(candidate(oc, osv, cell, nb[0] as int));
            assert(candidate(oc, osv, cell, nb[1] as int));
            assert(candidate(oc, osv, cell, nb[2] as int));
            assert(candidate(oc, osv, cell, nb[3] as int));
        }
        let centre = os[c].position;
        let first = os[nb[0]].position;
        let second = os[nb[1]].position;
        let third = os[nb[2]].position;
        let fourth = os[nb[3]].position;
        let t = [
            defined_terms(first, centre, second, cell),
            defined_terms(first, centre, third, cell),
            defined_terms(first, centre, fourth, cell),
            defined_terms(second, centre, third, cell),
            defined_terms(second, centre, fourth, cell),
            defined_terms(third, centre, fourth, cell),
        ];
        assert(t@ =~= six_terms(osv, cell, c as int, nbs));
        v.push(t);
        c += 1;
    }
    Ok(v)
}

/// The tetrahedral angle terms of every frame (see `q_oneframe`), frame by
/// frame. Stops at the first frame that fails, with that frame's error.
pub fn q(system: &Vec<Frame>) -> (r: Result<Vec<Vec<[CosineTerms; 6]>>, GeometryError>)
    requires
        frames_ok(system@),
    ensures
        r.is_ok() <==> q_traj_error(system@) is None,
        r matches Ok(v) ==> v.len() == system.len() && forall|k: int|
            0 <= k < system.len() ==> q_terms(system@[k], #[trigger] v@[k]@),
        r matches Err(e) ==> q_traj_error(system@) == Some(e),
{
    let ghost outcomes = Seq::new(system@.len(), |k: int| q_error(system@[k]));
    let mut v: Vec<Vec<[CosineTerms; 6]>> = Vec::new();
    let mut k: usize = 0;
    while k < system.len()
        invariant
            frames_ok(system@),
            k <= system.len(),
            v.len() == k,
            outcomes == Seq::new(system@.len(), |k: int| q_error(system@[k])),
            q_traj_error(system@) == first_error(outcomes, k as int),
            forall|k2: int| 0 <= k2 < k ==> q_terms(system@[k2], #[trigger] v@[k2]@),
        decreases system.len() - k,
    {
        assert(cell_ok(system@[k as int].cell));
        assert(outcomes[k as int] == q_error(system@[k as int]));
        match q_oneframe(&system[k]) {
            Err(e) => {
                return Err(e);
            },
            Ok(t) => {
                v.push(t);
            },
        }
        k += 1;
    }
    Ok(v)
}

} // verus!
