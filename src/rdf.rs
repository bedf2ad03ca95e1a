//! Radial distribution function: pair-distance histograms.

use vstd::prelude::*;

use crate::error::ConfigurationError;
use crate::geometry::{cell_ok, get_distance_pbc_sq, image_sq, MAX_LENGTH};
use crate::model::{
    count_of, frames_ok, lemma_of_species_len, of_species, select_species, species_total, Atom, Frame,
    Species, MAX_ATOMS,
};

verus! {

/// Largest number of histogram bins accepted.
pub const MAX_BINS: usize = 1_000_000_000;

/// Distance `sqrt(d2)` falls in bin `k` of `n` bins of width `rcut / n`:
/// `k <= sqrt(d2) * n / rcut < k + 1`.
pub open spec fn in_bin(k: int, d2: int, rcut: int, n: int) -> bool {
    k * k * (rcut * rcut) <= d2 * (n * n) < (k + 1) * (k + 1) * (rcut * rcut)
}

/// The pair `p`, `q` lies closer than `rcut` and in bin `k`.
pub open spec fn pair_hit(p: [i64; 3], q: [i64; 3], cell: [i64; 3], rcut: int, n: int, k: int) -> bool {
    let d2 = image_sq(p, q, cell);
    d2 < rcut * rcut && in_bin(k, d2, rcut, n)
}

/// Pairs of `p` with the first `m` atoms of `bs` that fall in bin `k`.
pub open spec fn row_hits(p: [i64; 3], bs: Seq<Atom>, cell: [i64; 3], rcut: int, n: int, k: int, m: int) -> int
    decreases m,
{
    if m <= 0 {
        0
    } else {
        row_hits(p, bs, cell, rcut, n, k, m - 1) + if pair_hit(p, bs[m - 1].position, cell, rcut, n, k) {
            1int
        } else {
            0int
        }
    }
}

/// Ordered pairs of the first `m` atoms of `as_` with all of `bs` that fall in bin `k`.
pub open spec fn hist(as_: Seq<Atom>, bs: Seq<Atom>, cell: [i64; 3], rcut: int, n: int, k: int, m: int) -> int
    decreases m,
{
    if m <= 0 {
        0
    } else {
        hist(as_, bs, cell, rcut, n, k, m - 1) + row_hits(as_[m - 1].position, bs, cell, rcut, n, k, bs.len() as int)
    }
}

proof fn lemma_bin_unique(k1: int, k2: int, d2: int, rcut: int, n: int)
    requires
        0 <= k1,
        0 <= k2,
        0 < rcut,
        in_bin(k1, d2, rcut, n),
        in_bin(k2, d2, rcut, n),
    ensures
        k1 == k2,
{
    if k1 < k2 {
        assert((k1 + 1) * (k1 + 1) * (rcut * rcut) <= k2 * k2 * (rcut * rcut)) by (nonlinear_arith)
            requires
                0 <= k1 < k2,
        ;
    } else if k2 < k1 {
        assert((k2 + 1) * (k2 + 1) * (rcut * rcut) <= k1 * k1 * (rcut * rcut)) by (nonlinear_arith)
            requires
                0 <= k2 < k1,
        ;
    }
}

proof fn lemma_row_hits_bound(p: [i64; 3], bs: Seq<Atom>, cell: [i64; 3], rcut: int, n: int, k: int, m: int)
    requires
        0 <= m,
    ensures
        0 <= row_hits(p, bs, cell, rcut, n, k, m) <= m,
    decreases m,
{
    if m > 0 {
        lemma_row_hits_bound(p, bs, cell, rcut, n, k, m - 1);
    }
}

proof fn lemma_hist_bound(as_: Seq<Atom>, bs: Seq<Atom>, cell: [i64; 3], rcut: int, n: int, k: int, m: int)
    requires
        0 <= m,
    ensures
        0 <= hist(as_, bs, cell, rcut, n, k, m) <= m * bs.len(),
    decreases m,
{
    if m > 0 {
        lemma_hist_bound(as_, bs, cell, rcut, n, k, m - 1);
        lemma_row_hits_bound(as_[m - 1].position, bs, cell, rcut, n, k, bs.len() as int);
        assert((m - 1) * bs.len() + bs.len() == m * bs.len()) by (nonlinear_arith);
    }
}

/// The bin of a squared distance `d2 < rcut * rcut`: `floor(sqrt(d2) * n / rcut)`.
fn bin_index(d2: u64, rcut: i64, n: usize) -> (k: usize)
    requires
        0 < rcut <= MAX_LENGTH,
        0 < n <= MAX_BINS,
        d2 < rcut * rcut,
    ensures
        k < n,
        in_bin(k as int, d2 as int, rcut as int, n as int),
{
    assert(rcut * rcut <= MAX_LENGTH * MAX_LENGTH && n * n <= MAX_BINS * MAX_BINS) by (nonlinear_arith)
        requires
            0 < rcut <= MAX_LENGTH,
            0 < n <= MAX_BINS,
    ;
    let r2: u128 = (rcut as u128) * (rcut as u128);
    let nn: u128 = (n as u128) * (n as u128);
    assert(d2 * nn < r2 * nn <= 4_000_000_000_000_000_000 * 1_000_000_000_000_000_000) by (nonlinear_arith)
        requires
            d2 < r2,
            r2 == rcut * rcut,
            nn == n * n,
            0 < rcut <= MAX_LENGTH,
            0 < n <= MAX_BINS,
    ;
    let target: u128 = (d2 as u128) * nn;
    let mut lo: usize = 0;
    let mut hi: usize = n;
    assert(0 * 0 * r2 == 0);
    assert(0 <= target) by (nonlinear_arith)
        requires
            target == d2 * nn,
            0 <= d2,
            0 <= nn,
    ;
    assert(n * n * (rcut * rcut) == r2 * nn) by (nonlinear_arith)
        requires
            r2 == rcut * rcut,
            nn == n * n,
    ;
    while hi - lo > 1
        invariant
            0 <= lo < hi <= n,
            n <= MAX_BINS,
            r2 == rcut * rcut,
            0 < rcut <= MAX_LENGTH,
            target == d2 * (n * n),
            lo * lo * r2 <= target,
            target < hi * hi * r2,
        decreases hi - lo,
    {
        let mid: usize = lo + (hi - lo) / 2;
        assert(mid * mid <= MAX_BINS * MAX_BINS && mid * mid * r2 <= 1_000_000_000_000_000_000 * 4_000_000_000_000_000_000) by (nonlinear_arith)
            requires
                0 <= mid < n <= MAX_BINS,
                r2 == rcut * rcut,
                0 < rcut <= MAX_LENGTH,
        ;
        let mm: u128 = (mid as u128) * (mid as u128);
        if mm * r2 <= target {
            lo = mid;
        } else {
            hi = mid;
        }
    }
    assert(hi == lo + 1);
    lo
}

/// The pair-distance histogram of one frame, with the terms that normalise it.
#[derive(Clone, Debug)]
pub struct RdfFrame {
    /// Ordered pairs counted in each bin.
    pub counts: Vec<u64>,
    /// The number of atoms that the frame records for the first species.
    pub numb_a: usize,
    /// The number of atoms that the frame records for the second species.
    pub numb_b: usize,
    /// Volume of the cell, in cubed length units.
    pub volume: u128,
}

/// The histogram options are usable: a positive cutoff within `MAX_LENGTH`
/// and between one and `MAX_BINS` bins.
pub open spec fn rdf_options_ok(rcut: i64, numb_bins: usize) -> bool {
    0 < rcut <= MAX_LENGTH && 0 < numb_bins <= MAX_BINS
}

/// The pair-distance histogram of one frame for species `a` and `b`. Every
/// ordered pair of an atom of species `a` with an atom of species `b` (an
/// atom paired with itself included when `a == b`) whose minimum-image
/// distance `d` is below `rcut` counts once in bin `floor(d / (rcut / numb_bins))`.
/// With the counts come the recorded numbers of atoms of `a` and `b` and the
/// cell volume: `g` in bin `i > 0` is
/// `counts[i] * volume / (numb_a * numb_b * 4 * pi * (i * dr)^2 * dr)`, and zero in bin 0.
pub fn rdf_oneframe(frame: &Frame, a: Species, b: Species, rcut: i64, numb_bins: usize) -> (r: Result<
    RdfFrame,
    ConfigurationError,
>)
    requires
        cell_ok(frame.cell),
        frame.atoms.len() <= MAX_ATOMS,
        frame.species_list.len() == frame.species_count.len(),
    ensures
        r.is_ok() <==> rdf_options_ok(rcut, numb_bins),
        r matches Err(e) ==> e == ConfigurationError::Histogram,
        r matches Ok(h) ==> {
            let as_ = of_species(frame.atoms@, a);
            let bs = of_species(frame.atoms@, b);
            &&& h.counts.len() == numb_bins
            &&& forall|k: int|
                0 <= k < numb_bins ==> #[trigger] h.counts@[k] == hist(
                    as_,
                    bs,
                    frame.cell,
                    rcut as int,
                    numb_bins as int,
                    k,
                    as_.len() as int,
                )
            &&& h.numb_a == count_of(frame.species_list@, frame.species_count@, a, frame.species_list.len() as int)
            &&& h.numb_b == count_of(frame.species_list@, frame.species_count@, b, frame.species_list.len() as int)
            &&& h.volume == frame.cell[0] * frame.cell[1] * frame.cell[2]
        },
{
    if rcut <= 0 || rcut > MAX_LENGTH || numb_bins == 0 || numb_bins > MAX_BINS {
        return Err(ConfigurationError::Histogram);
    }
    let cell = frame.cell;
    let as_ = select_species(&frame.atoms, a);
    let bs = select_species(&frame.atoms, b);
    proof {
        lemma_of_species_len(frame.atoms@, a);
        lemma_of_species_len(frame.atoms@, b);
    }
    let ghost asv = as_@;
    let ghost bsv = bs@;
    let ghost rc = rcut as int;
    let ghost nb = numb_bins as int;
    assert(rcut * rcut <= MAX_LENGTH * MAX_LENGTH) by (nonlinear_arith)
        requires
            0 < rcut <= MAX_LENGTH,
    ;
    let limit: u64 = (rcut as u64) * (rcut as u64);
    let mut counts: Vec<u64> = Vec::new();
    let mut k: usize = 0;
    while k < numb_bins
        invariant
            k <= numb_bins,
            counts.len() == k,
            forall|k2: int| 0 <= k2 < k ==> #[trigger] counts@[k2] == 0,
        decreases numb_bins - k,
    {
        counts.push(0);
        k += 1;
    }
    let mut i: usize = 0;
    while i < as_.len()
        invariant
            cell == frame.cell,
            cell_ok(cell),
            rdf_options_ok(rcut, numb_bins),
            rc == rcut,
            nb == numb_bins,
            limit == rc * rc,
            as_@ == asv,
            bs@ == bsv,
            asv.len() <= MAX_ATOMS,
            bsv.len() <= MAX_ATOMS,
            i <= asv.len(),
            counts.len() == numb_bins,
            forall|k2: int|
                0 <= k2 < nb ==> #[trigger] counts@[k2] == hist(asv, bsv, cell, rc, nb, k2, i as int),
        decreases asv.len() - i,
    {
        let p = as_[i].position;
        let mut j: usize = 0;
        while j < bs.len()
            invariant
                cell == frame.cell,
                cell_ok(cell),
                rdf_options_ok(rcut, numb_bins),
                rc == rcut,
                nb == numb_bins,
                limit == rc * rc,
                as_@ == asv,
                bs@ == bsv,
                asv.len() <= MAX_ATOMS,
                bsv.len() <= MAX_ATOMS,
                i < asv.len(),
                p == asv[i as int].position,
                j <= bsv.len(),
                counts.len() == numb_bins,
                forall|k2: int|
                    0 <= k2 < nb ==> #[trigger] counts@[k2] == hist(asv, bsv, cell, rc, nb, k2, i as int)
                        + row_hits(p, bsv, cell, rc, nb, k2, j as int),
            decreases bsv.len() - j,
        {
            let d2 = get_distance_pbc_sq(p, bs[j].position, cell);
            if d2 < limit {
                let bin = bin_index(d2, rcut, numb_bins);
                proof {
                    assert forall|k2: int| 0 <= k2 < nb && k2 != bin implies !pair_hit(
                        p,
                        bsv[j as int].position,
                        cell,
                        rc,
                        nb,
                        k2,
                    ) by {
                        if pair_hit(p, bsv[j as int].position, cell, rc, nb, k2) {
                            lemma_bin_unique(k2, bin as int, d2 as int, rc, nb);
                        }
                    }
                    lemma_hist_bound(asv, bsv, cell, rc, nb, bin as int, i as int);
                    lemma_row_hits_bound(p, bsv, cell, rc, nb, bin as int, j as int);
                    assert(i * bsv.len() + j < MAX_ATOMS * MAX_ATOMS) by (nonlinear_arith)
                        requires
                            i < asv.len() <= MAX_ATOMS,
                            j < bsv.len() <= MAX_ATOMS,
                    ;
                }
                let c = counts[bin];
                counts.set(bin, c + 1);
            }
            j += 1;
        }
        i += 1;
    }
    let numb_a = species_total(frame, a);
    let numb_b = species_total(frame, b);
    assert(cell[0] * cell[1] <= MAX_LENGTH * MAX_LENGTH && cell[0] * cell[1] * cell[2] <= MAX_LENGTH
        * MAX_LENGTH * MAX_LENGTH) by (nonlinear_arith)
        requires
            0 < cell[0] <= MAX_LENGTH,
            0 < cell[1] <= MAX_LENGTH,
            0 < cell[2] <= MAX_LENGTH,
    ;
    let volume = (cell[0] as u128) * (cell[1] as u128) * (cell[2] as u128);
    Ok(RdfFrame { counts, numb_a, numb_b, volume })
}

/// The pair-distance histogram of every frame (see `rdf_oneframe`), frame
/// by frame. The radial distribution function of the trajectory is the mean
/// over frames of each frame's normalised histogram.
pub fn rdf(system: &Vec<Frame>, a: Species, b: Species, rcut: i64, numb_bins: usize) -> (r: Result<
    Vec<RdfFrame>,
    ConfigurationError,
>)
    requires
        frames_ok(system@),
    ensures
        r.is_ok() <==> rdf_options_ok(rcut, numb_bins),
        r matches Err(e) ==> e == ConfigurationError::Histogram,
        r matches Ok(v) ==> v.len() == system.len() && forall|k: int|
            0 <= k < system.len() ==> {
                let frame = system@[k];
                let as_ = of_species(frame.atoms@, a);
                let bs = of_species(frame.atoms@, b);
                &&& (#[trigger] v@[k]).counts.len() == numb_bins
                &&& forall|bin: int|
                    0 <= bin < numb_bins ==> #[trigger] v@[k].counts@[bin] == hist(
                        as_,
                        bs,
                        frame.cell,
                        rcut as int,
                        numb_bins as int,
                        bin,
                        as_.len() as int,
                    )
                &&& v@[k].numb_a == count_of(frame.species_list@, frame.species_count@, a, frame.species_list.len() as int)
                &&& v@[k].numb_b == count_of(frame.species_list@, frame.species_count@, b, frame.species_list.len() as int)
                &&& v@[k].volume == frame.cell[0] * frame.cell[1] * frame.cell[2]
            },
{
    if !(0 < rcut && rcut <= MAX_LENGTH && 0 < numb_bins && numb_bins <= MAX_BINS) {
        return Err(ConfigurationError::Histogram);
    }
    let mut v: Vec<RdfFrame> = Vec::new();
    let mut k: usize = 0;
    while k < system.len()
        invariant
            frames_ok(system@),
            rdf_options_ok(rcut, numb_bins),
            k <= system.len(),
            v.len() == k,
            forall|k2: int|
                0 <= k2 < k ==> {
                    let frame = system@[k2];
                    let as_ = of_species(frame.atoms@, a);
                    let bs = of_species(frame.atoms@, b);
                    &&& (#[trigger] v@[k2]).counts.len() == numb_bins
                    &&& forall|bin: int|
                        0 <= bin < numb_bins ==> #[trigger] v@[k2].counts@[bin] == hist(
                            as_,
                            bs,
                            frame.cell,
                            rcut as int,
                            numb_bins as int,
                            bin,
                            as_.len() as int,
                        )
                    &&& v@[k2].numb_a == count_of(frame.species_list@, frame.species_count@, a, frame.species_list.len() as int)
                    &&& v@[k2].numb_b == count_of(frame.species_list@, frame.species_count@, b, frame.species_list.len() as int)
                    &&& v@[k2].volume == frame.cell[0] * frame.cell[1] * frame.cell[2]
                },
        decreases system.len() - k,
    {
        assert(cell_ok(system@[k as int].cell));
        match rdf_oneframe(&system[k], a, b, rcut, numb_bins) {
            Err(e) => {
                return Err(e);
            },
            Ok(h) => {
                v.push(h);
            },
        }
        k += 1;
    }
    Ok(v)
}

} // verus!
