//! Mean-squared displacement, after unwrapping the periodic trajectory.

use vstd::prelude::*;
use vstd::string::StringSliceAdditionalSpecFns;

use crate::error::ConfigurationError;
use crate::geometry::{cell_ok, sq, MAX_LENGTH};
use crate::model::{count_of, species_total, Frame, Species};

verus! {

/// A trajectory that the displacement kernel can read: at least one frame,
/// a valid cell in the first, one count per species there, and the same
/// number of atoms in every frame.
pub open spec fn traj_ok(frames: Seq<Frame>) -> bool {
    &&& frames.len() > 0
    &&& cell_ok(frames[0].cell)
    &&& frames[0].species_list.len() == frames[0].species_count.len()
    &&& forall|k: int|
        0 <= k < frames.len() ==> (#[trigger] frames[k]).atoms.len() == frames[0].atoms.len()
}

/// Stored coordinate `j` of atom `i` in frame `k`.
pub open spec fn wrapped(frames: Seq<Frame>, k: int, i: int, j: int) -> int {
    frames[k].atoms@[i].position[j] as int
}

/// Change of the box counter for a raw displacement `d` along an axis of
/// period `l`: a jump of more than half the period up means that the atom
/// left through the lower face, one of more than half down through the upper.
pub open spec fn box_step(d: int, l: int) -> int {
    if 2 * d > l {
        -1
    } else if 2 * d < -l {
        1
    } else {
        0
    }
}

/// Box counter of atom `i` along axis `j` at frame `k`: the steps of the
/// transitions up to frame `k`, on the first frame's cell.
pub open spec fn box_count(frames: Seq<Frame>, i: int, j: int, k: int) -> int
    decreases k,
{
    if k <= 0 {
        0
    } else {
        box_count(frames, i, j, k - 1) + box_step(
            wrapped(frames, k, i, j) - wrapped(frames, k - 1, i, j),
            frames[0].cell[j] as int,
        )
    }
}

/// The continuous coordinate of atom `i` along axis `j` at frame `k`.
pub open spec fn unwrapped(frames: Seq<Frame>, k: int, i: int, j: int) -> int {
    wrapped(frames, k, i, j) + box_count(frames, i, j, k) * frames[0].cell[j]
}

/// Bound on every unwrapped coordinate of a trajectory that fits in memory.
pub open spec fn unwrap_bound() -> int {
    0x1_0000_0000_0000_0000_0000_0000
}

proof fn lemma_box_count_bound(frames: Seq<Frame>, i: int, j: int, k: int)
    requires
        0 <= k,
    ensures
        -k <= box_count(frames, i, j, k) <= k,
    decreases k,
{
    if k > 0 {
        lemma_box_count_bound(frames, i, j, k - 1);
    }
}

proof fn lemma_unwrapped_bound(frames: Seq<Frame>, k: int, i: int, j: int)
    requires
        traj_ok(frames),
        0 <= k < 0x1_0000_0000_0000_0000,
        0 <= j < 3,
    ensures
        -unwrap_bound() <= unwrapped(frames, k, i, j) <= unwrap_bound(),
{
    lemma_box_count_bound(frames, i, j, k);
    let c = box_count(frames, i, j, k);
    let l = frames[0].cell[j] as int;
    assert(-0x1_0000_0000_0000_0000 * MAX_LENGTH <= c * l <= 0x1_0000_0000_0000_0000 * MAX_LENGTH)
        by (nonlinear_arith)
        requires
            -k <= c <= k,
            0 < l <= MAX_LENGTH,
            0 <= k < 0x1_0000_0000_0000_0000,
    ;
}

fn next_count(prev: i64, cur: i64, l: i64, c: i128) -> (r: i128)
    requires
        0 < l <= MAX_LENGTH,
        -0x1_0000_0000_0000_0000 <= c <= 0x1_0000_0000_0000_0000,
    ensures
        r == c + box_step(cur - prev, l as int),
{
    let d: i128 = cur as i128 - prev as i128;
    if 2 * d > l as i128 {
        c - 1
    } else if 2 * d < -(l as i128) {
        c + 1
    } else {
        c
    }
}

/// The rows of `r` before `k` hold the unwrapped coordinates of the first `k` frames.
pub open spec fn unwrapped_rows(frames: Seq<Frame>, r: Seq<Vec<[i128; 3]>>, k: int) -> bool {
    forall|k2: int, i: int, j: int|
        0 <= k2 < k && 0 <= i < frames[0].atoms.len() && 0 <= j < 3 ==> #[trigger] r[k2]@[i][j]
            == unwrapped(frames, k2, i, j)
}

/// The continuous (unwrapped) coordinates of every atom of every frame.
/// Atoms are matched across frames by position in the frame, and the first
/// frame's cell is used throughout. Between consecutive frames, a raw
/// displacement along an axis of more than half the cell edge moves the
/// atom's box counter on that axis down by one, one of less than minus half
/// the edge moves it up by one; the unwrapped coordinate is the stored one
/// plus counter times edge. The input is left as it is.
pub fn unwrap(frames: &Vec<Frame>) -> (r: Vec<Vec<[i128; 3]>>)
    requires
        traj_ok(frames@),
    ensures
        r.len() == frames.len(),
        forall|k: int| 0 <= k < r.len() ==> (#[trigger] r[k]).len() == frames[0].atoms.len(),
        unwrapped_rows(frames@, r@, r.len() as int),
{
    let cell = frames[0].cell;
    let n = frames[0].atoms.len();
    let nf = frames.len();
    let mut counts: Vec<[i128; 3]> = Vec::new();
    let mut i: usize = 0;
    while i < n
        invariant
            i <= n,
            counts.len() == i,
            forall|i2: int, j: int| 0 <= i2 < i && 0 <= j < 3 ==> #[trigger] counts[i2][j] == 0,
        decreases n - i,
    {
        counts.push([0, 0, 0]);
        i += 1;
    }
    let mut r: Vec<Vec<[i128; 3]>> = Vec::new();
    let mut k: usize = 0;
    while k < nf
        invariant
            traj_ok(frames@),
            nf == frames.len(),
            n == frames[0].atoms.len(),
            cell == frames[0].cell,
            k <= nf,
            counts.len() == n,
            forall|i2: int, j: int|
                0 <= i2 < n && 0 <= j < 3 ==> #[trigger] counts[i2][j] == box_count(
                    frames@,
                    i2,
                    j,
                    k - 1,
                ),
            r.len() == k,
            forall|k2: int| 0 <= k2 < k ==> (#[trigger] r[k2]).len() == n,
            unwrapped_rows(frames@, r@, k as int),
        decreases nf - k,
    {
        assert(frames@[k as int].atoms.len() == n);
        let mut row: Vec<[i128; 3]> = Vec::new();
        let mut i: usize = 0;
        while i < n
            invariant
                traj_ok(frames@),
                nf == frames.len(),
                n == frames[0].atoms.len(),
                cell == frames[0].cell,
                k < nf,
                frames@[k as int].atoms.len() == n,
                i <= n,
                counts.len() == n,
                forall|i2: int, j: int|
                    0 <= i2 < i && 0 <= j < 3 ==> #[trigger] counts[i2][j] == box_count(
                        frames@,
                        i2,
                        j,
                        k as int,
                    ),
                forall|i2: int, j: int|
                    i <= i2 < n && 0 <= j < 3 ==> #[trigger] counts[i2][j] == box_count(
                        frames@,
                        i2,
                        j,
                        k - 1,
                    ),
                row.len() == i,
                forall|i2: int, j: int|
                    0 <= i2 < i && 0 <= j < 3 ==> #[trigger] row[i2][j] == unwrapped(
                        frames@,
                        k as int,
                        i2,
                        j,
                    ),
            decreases n - i,
        {
            let cur = frames[k].atoms[i].position;
            let mut c = counts[i];
            proof {
                if k > 0 {
                    lemma_box_count_bound(frames@, i as int, 0, k - 1);
                    lemma_box_count_bound(frames@, i as int, 1, k - 1);
                    lemma_box_count_bound(frames@, i as int, 2, k - 1);
                }
            }
            if k > 0 {
                assert(frames@[k - 1].atoms.len() == n);
                let prev = frames[k - 1].atoms[i].position;
                c = [
                    next_count(prev[0], cur[0], cell[0], c[0]),
                    next_count(prev[1], cur[1], cell[1], c[1]),
                    next_count(prev[2], cur[2], cell[2], c[2]),
                ];
            }
            proof {
                lemma_unwrapped_bound(frames@, k as int, i as int, 0);
                lemma_unwrapped_bound(frames@, k as int, i as int, 1);
                lemma_unwrapped_bound(frames@, k as int, i as int, 2);
            }
            let u = [
                cur[0] as i128 + c[0] * (cell[0] as i128),
                cur[1] as i128 + c[1] * (cell[1] as i128),
                cur[2] as i128 + c[2] * (cell[2] as i128),
            ];
            counts.set(i, c);
            row.push(u);
            i += 1;
        }
        r.push(row);
        k += 1;
    }
    r
}

/// Sum of the squares of the displacement components selected by `axes`.
pub open spec fn masked_sq(dx: int, dy: int, dz: int, axes: [bool; 3]) -> int {
    (if axes[0] {
        sq(dx)
    } else {
        0
    }) + (if axes[1] {
        sq(dy)
    } else {
        0
    }) + (if axes[2] {
        sq(dz)
    } else {
        0
    })
}

/// Squared displacement of atom `i` over the window from frame `k` to frame
/// `k + dk`, on the selected axes; zero for an atom of another species.
pub open spec fn atom_sd(frames: Seq<Frame>, s: Species, axes: [bool; 3], k: int, dk: int, i: int) -> int {
    if frames[k].atoms@[i].species == s {
        masked_sq(
            unwrapped(frames, k + dk, i, 0) - unwrapped(frames, k, i, 0),
            unwrapped(frames, k + dk, i, 1) - unwrapped(frames, k, i, 1),
            unwrapped(frames, k + dk, i, 2) - unwrapped(frames, k, i, 2),
            axes,
        )
    } else {
        0
    }
}

/// Squared displacements of the first `n` atoms over the window starting at `k`.
pub open spec fn window_sum(frames: Seq<Frame>, s: Species, axes: [bool; 3], k: int, dk: int, n: int) -> int
    decreases n,
{
    if n <= 0 {
        0
    } else {
        window_sum(frames, s, axes, k, dk, n - 1) + atom_sd(frames, s, axes, k, dk, n - 1)
    }
}

/// Squared displacements over the first `m` windows of lag `dk`.
pub open spec fn lag_sum(frames: Seq<Frame>, s: Species, axes: [bool; 3], dk: int, m: int) -> int
    decreases m,
{
    if m <= 0 {
        0
    } else {
        lag_sum(frames, s, axes, dk, m - 1) + window_sum(
            frames,
            s,
            axes,
            m - 1,
            dk,
            frames[0].atoms.len() as int,
        )
    }
}

/// Number of windows of lag `dk` in a trajectory of `nf` frames.
pub open spec fn windows(nf: int, dk: int) -> int {
    if dk < nf {
        nf - dk
    } else {
        0
    }
}

/// Squared displacements of the atoms of species `s`, on the selected axes,
/// summed over every atom and every window of lag `dk`.
pub open spec fn msd_total(frames: Seq<Frame>, s: Species, axes: [bool; 3], dk: int) -> int {
    lag_sum(frames, s, axes, dk, windows(frames.len() as int, dk))
}

proof fn lemma_window_mono(frames: Seq<Frame>, s: Species, axes: [bool; 3], k: int, dk: int, n1: int, n2: int)
    requires
        0 <= n1 <= n2,
    ensures
        0 <= window_sum(frames, s, axes, k, dk, n1) <= window_sum(frames, s, axes, k, dk, n2),
    decreases n2,
{
    if n1 < n2 {
        lemma_window_mono(frames, s, axes, k, dk, n1, n2 - 1);
        lemma_masked_sq_nonneg(frames, s, axes, k, dk, n2 - 1);
    } else if n1 > 0 {
        lemma_window_mono(frames, s, axes, k, dk, n1 - 1, n1 - 1);
        lemma_masked_sq_nonneg(frames, s, axes, k, dk, n1 - 1);
    }
}

proof fn lemma_masked_sq_nonneg(frames: Seq<Frame>, s: Species, axes: [bool; 3], k: int, dk: int, i: int)
    ensures
        atom_sd(frames, s, axes, k, dk, i) >= 0,
{
    let dx = unwrapped(frames, k + dk, i, 0) - unwrapped(frames, k, i, 0);
    let dy = unwrapped(frames, k + dk, i, 1) - unwrapped(frames, k, i, 1);
    let dz = unwrapped(frames, k + dk, i, 2) - unwrapped(frames, k, i, 2);
    assert(dx * dx >= 0 && dy * dy >= 0 && dz * dz >= 0) by (nonlinear_arith);
}

proof fn lemma_lag_mono(frames: Seq<Frame>, s: Species, axes: [bool; 3], dk: int, m1: int, m2: int)
    requires
        0 <= m1 <= m2,
    ensures
        0 <= lag_sum(frames, s, axes, dk, m1) <= lag_sum(frames, s, axes, dk, m2),
    decreases m2,
{
    if m1 < m2 {
        lemma_lag_mono(frames, s, axes, dk, m1, m2 - 1);
        lemma_window_mono(frames, s, axes, m2 - 1, dk, 0, frames[0].atoms.len() as int);
    } else if m1 > 0 {
        lemma_lag_mono(frames, s, axes, dk, m1 - 1, m1 - 1);
        lemma_window_mono(frames, s, axes, m1 - 1, dk, 0, frames[0].atoms.len() as int);
    }
}

fn abs_diff(p: i128, q: i128) -> (r: u128)
    requires
        -unwrap_bound() <= p <= unwrap_bound(),
        -unwrap_bound() <= q <= unwrap_bound(),
    ensures
        r == (if p >= q { p - q } else { q - p }),
{
    let d = p - q;
    if d >= 0 {
        d as u128
    } else {
        (-d) as u128
    }
}

fn masked_sq_exec(p: [i128; 3], q: [i128; 3], axes: [bool; 3]) -> (r: Option<u128>)
    requires
        forall|j: int| 0 <= j < 3 ==> -unwrap_bound() <= #[trigger] p[j] <= unwrap_bound(),
        forall|j: int| 0 <= j < 3 ==> -unwrap_bound() <= #[trigger] q[j] <= unwrap_bound(),
    ensures
        ({
            let t = masked_sq(p[0] - q[0], p[1] - q[1], p[2] - q[2], axes);
            match r {
                Some(v) => v == t,
                None => t > u128::MAX,
            }
        }),
{
    let ghost t = masked_sq(p[0] - q[0], p[1] - q[1], p[2] - q[2], axes);
    proof {
        let a = p[0] - q[0];
        let b = p[1] - q[1];
        let c = p[2] - q[2];
        assert(sq(a) >= 0 && sq(b) >= 0 && sq(c) >= 0) by (nonlinear_arith);
    }
    let mut acc: u128 = 0;
    let mut j: usize = 0;
    while j < 3
        invariant
            j <= 3,
            forall|j2: int| 0 <= j2 < 3 ==> -unwrap_bound() <= #[trigger] p[j2] <= unwrap_bound(),
            forall|j2: int| 0 <= j2 < 3 ==> -unwrap_bound() <= #[trigger] q[j2] <= unwrap_bound(),
            t == masked_sq(p[0] - q[0], p[1] - q[1], p[2] - q[2], axes),
            acc == masked_sq(
                p[0] - q[0],
                if j >= 2 { p[1] - q[1] } else { 0 },
                if j >= 3 { p[2] - q[2] } else { 0 },
                [axes[0] && j >= 1, axes[1] && j >= 2, axes[2] && j >= 3],
            ),
            acc <= t,
        decreases 3 - j,
    {
        proof {
            let a = p[0] - q[0];
            let b = p[1] - q[1];
            let c = p[2] - q[2];
            assert(sq(a) >= 0 && sq(b) >= 0 && sq(c) >= 0) by (nonlinear_arith);
            assert(sq(-a) == sq(a) && sq(-b) == sq(b) && sq(-c) == sq(c)) by (nonlinear_arith);
        }
        if axes[j] {
            let e = abs_diff(p[j], q[j]);
            match e.checked_mul(e) {
                None => {
                    return None;
                },
                Some(e2) => match acc.checked_add(e2) {
                    None => {
                        return None;
                    },
                    Some(x) => {
                        acc = x;
                    },
                },
            }
        }
        j += 1;
    }
    Some(acc)
}

fn lag_total(
    u: &Vec<Vec<[i128; 3]>>,
    frames: &Vec<Frame>,
    s: Species,
    axes: [bool; 3],
    dk: usize,
) -> (r: Option<u128>)
    requires
        traj_ok(frames@),
        u.len() == frames.len(),
        forall|k: int| 0 <= k < u.len() ==> (#[trigger] u[k]).len() == frames[0].atoms.len(),
        unwrapped_rows(frames@, u@, u.len() as int),
    ensures
        match r {
            Some(v) => v == msd_total(frames@, s, axes, dk as int),
            None => msd_total(frames@, s, axes, dk as int) > u128::MAX,
        },
{
    let nf = frames.len();
    let n = frames[0].atoms.len();
    if dk >= nf {
        return Some(0);
    }
    let w = nf - dk;
    let mut acc: u128 = 0;
    let mut k: usize = 0;
    while k < w
        invariant
            traj_ok(frames@),
            nf == frames.len(),
            n == frames[0].atoms.len(),
            u.len() == nf,
            forall|k2: int| 0 <= k2 < u.len() ==> (#[trigger] u[k2]).len() == n,
            unwrapped_rows(frames@, u@, u.len() as int),
            w == nf - dk,
            windows(nf as int, dk as int) == w,
            k <= w,
            acc == lag_sum(frames@, s, axes, dk as int, k as int),
        decreases w - k,
    {
        assert(frames@[k as int].atoms.len() == n);
        let mut i: usize = 0;
        while i < n
            invariant
                traj_ok(frames@),
                nf == frames.len(),
                n == frames[0].atoms.len(),
                frames@[k as int].atoms.len() == n,
                u.len() == nf,
                forall|k2: int| 0 <= k2 < u.len() ==> (#[trigger] u[k2]).len() == n,
                unwrapped_rows(frames@, u@, u.len() as int),
                w == nf - dk,
                windows(nf as int, dk as int) == w,
                k < w,
                i <= n,
                acc == lag_sum(frames@, s, axes, dk as int, k as int) + window_sum(
                    frames@,
                    s,
                    axes,
                    k as int,
                    dk as int,
                    i as int,
                ),
            decreases n - i,
        {
            if frames[k].atoms[i].species == s {
                proof {
                    let kd = (k + dk) as int;
                    lemma_unwrapped_bound(frames@, kd, i as int, 0);
                    lemma_unwrapped_bound(frames@, kd, i as int, 1);
                    lemma_unwrapped_bound(frames@, kd, i as int, 2);
                    lemma_unwrapped_bound(frames@, k as int, i as int, 0);
                    lemma_unwrapped_bound(frames@, k as int, i as int, 1);
                    lemma_unwrapped_bound(frames@, k as int, i as int, 2);
                    assert(u@[kd]@[i as int][0] == unwrapped(frames@, kd, i as int, 0));
                    assert(u@[kd]@[i as int][1] == unwrapped(frames@, kd, i as int, 1));
                    assert(u@[kd]@[i as int][2] == unwrapped(frames@, kd, i as int, 2));
                    assert(u@[k as int]@[i as int][0] == unwrapped(frames@, k as int, i as int, 0));
                    assert(u@[k as int]@[i as int][1] == unwrapped(frames@, k as int, i as int, 1));
                    assert(u@[k as int]@[i as int][2] == unwrapped(frames@, k as int, i as int, 2));
                    lemma_lag_mono(frames@, s, axes, dk as int, k + 1, w as int);
                    lemma_window_mono(frames@, s, axes, k as int, dk as int, i + 1, n as int);
                }
                match masked_sq_exec(u[k + dk][i], u[k][i], axes) {
                    None => {
                        return None;
                    },
                    Some(t) => match acc.checked_add(t) {
                        None => {
                            return None;
                        },
                        Some(x) => {
                            acc = x;
                        },
                    },
                }
            }
            i += 1;
        }
        k += 1;
    }
    Some(acc)
}

/// One lag of the displacement series.
#[derive(Clone, Copy, Debug, PartialEq, Eq)]
pub struct MsdPoint {
    /// The lag, in frames.
    pub lag: usize,
    /// Squared displacements summed over the matching atoms and every window,
    /// in squared length units.
    pub total: u128,
    /// Number of windows of this lag.
    pub windows: usize,
}

/// The displacement series of one species. The mean-squared displacement at
/// a lag is its total divided by `atoms` and by its number of windows.
#[derive(Clone, Debug)]
pub struct MsdSeries {
    /// The number of atoms that the first frame records for the species.
    pub atoms: usize,
    pub points: Vec<MsdPoint>,
}

/// Why the displacement kernel stopped.
#[derive(Clone, Copy, Debug, PartialEq, Eq, Structural)]
pub enum MsdError {
    Configuration(ConfigurationError),
    /// A total does not fit in 128 bits.
    Overflow,
}

/// The `m`-th lag of the sequence that starts at `start` with stride `step`.
pub open spec fn lag_of(start: int, step: int, m: int) -> int {
    start + m * step
}

/// The mean-squared displacement of species `s` on the selected axes. The
/// trajectory is unwrapped first (see `unwrap`); then for each lag `dk` of
/// `stepstart, stepstart + dstep, ...` below `stepstop`, the squared
/// displacements of the matching atoms are summed over every window
/// `k -> k + dk` within the trajectory. An atom matches when its species in
/// the window's first frame is `s`; the others add zero.
pub fn msd(
    frames: &Vec<Frame>,
    s: Species,
    axes: [bool; 3],
    stepstart: usize,
    stepstop: usize,
    dstep: usize,
) -> (r: Result<MsdSeries, MsdError>)
    requires
        traj_ok(frames@),
    ensures
        dstep == 0 <==> r == Err::<MsdSeries, MsdError>(
            MsdError::Configuration(ConfigurationError::LagStride),
        ),
        r matches Err(e) ==> e == MsdError::Configuration(ConfigurationError::LagStride) || e
            == MsdError::Overflow,
        dstep > 0 ==> (r == Err::<MsdSeries, MsdError>(MsdError::Overflow) <==> exists|m: int|
            0 <= m && lag_of(stepstart as int, dstep as int, m) < stepstop && msd_total(
                frames@,
                s,
                axes,
                #[trigger] lag_of(stepstart as int, dstep as int, m),
            ) > u128::MAX),
        r matches Ok(series) ==> {
            let len = series.points.len() as int;
            &&& series.atoms == count_of(
                frames[0].species_list@,
                frames[0].species_count@,
                s,
                frames[0].species_list.len() as int,
            )
            &&& lag_of(stepstart as int, dstep as int, len) >= stepstop
            &&& forall|m: int|
                0 <= m < len ==> {
                    let dk = lag_of(stepstart as int, dstep as int, m);
                    &&& dk < stepstop
                    &&& (#[trigger] series.points@[m]).lag == dk
                    &&& series.points@[m].total == msd_total(frames@, s, axes, dk)
                    &&& series.points@[m].windows == windows(frames.len() as int, dk)
                }
        },
{
    if dstep == 0 {
        return Err(MsdError::Configuration(ConfigurationError::LagStride));
    }
    let u = unwrap(frames);
    let atoms = species_total(&frames[0], s);
    let nf = frames.len();
    let ghost start = stepstart as int;
    let ghost step = dstep as int;
    let mut points: Vec<MsdPoint> = Vec::new();
    let mut m: usize = 0;
    let mut dk: usize = stepstart;
    let mut more: bool = stepstart < stepstop;
    while more
        invariant
            traj_ok(frames@),
            nf == frames.len(),
            u.len() == nf,
            forall|k2: int| 0 <= k2 < u.len() ==> (#[trigger] u[k2]).len() == frames[0].atoms.len(),
            unwrapped_rows(frames@, u@, u.len() as int),
            step == dstep,
            start == stepstart,
            dstep > 0,
            atoms == count_of(
                frames[0].species_list@,
                frames[0].species_count@,
                s,
                frames[0].species_list.len() as int,
            ),
            more ==> dk == lag_of(start, step, m as int) && dk < stepstop,
            !more ==> lag_of(start, step, m as int) >= stepstop,
            points.len() == m,
            forall|m2: int|
                0 <= m2 < m ==> {
                    let d = lag_of(start, step, m2);
                    &&& d < stepstop
                    &&& (#[trigger] points@[m2]).lag == d
                    &&& points@[m2].total == msd_total(frames@, s, axes, d)
                    &&& points@[m2].windows == windows(nf as int, d)
                },
        decreases stepstop - dk + (if more {
            1int
        } else {
            0int
        }),
    {
        proof {
            assert(lag_of(start, step, m as int) >= m) by (nonlinear_arith)
                requires
                    step >= 1,
                    start >= 0,
                    m >= 0,
            ;
        }
        match lag_total(&u, frames, s, axes, dk) {
            None => {
                return Err(MsdError::Overflow);
            },
            Some(total) => {
                let w: usize = if dk < nf {
                    nf - dk
                } else {
                    0
                };
                let ghost old_points = points@;
                points.push(MsdPoint { lag: dk, total, windows: w });
                assert(points@[m as int].total == msd_total(frames@, s, axes, dk as int));
                assert(points@[m as int].lag == lag_of(start, step, m as int));
                assert(points@[m as int].windows == windows(nf as int, dk as int));
                assert(lag_of(start, step, m as int) < stepstop);
                assert forall|m2: int| 0 <= m2 < m implies lag_of(start, step, m2) < stepstop
                    && #[trigger] points@[m2] == old_points[m2] by {
                    assert(old_points[m2].lag == lag_of(start, step, m2));
                }
            },
        }
        proof {
            assert(lag_of(start, step, m + 1) == lag_of(start, step, m as int) + step) by (nonlinear_arith);
        }
        if stepstop - dk <= dstep {
            more = false;
        } else {
            dk = dk + dstep;
        }
        assert forall|m2: int| 0 <= m2 < m + 1 implies lag_of(start, step, m2) < stepstop by {
            if m2 < m {
                assert(points@[m2].lag == lag_of(start, step, m2));
            }
        }
        m = m + 1;
    }
    proof {
        assert forall|m2: int| 0 <= m2 < m implies lag_of(start, step, m2) < stepstop by {
            assert(points@[m2].lag == lag_of(start, step, m2));
        }
        assert forall|m2: int|
            0 <= m2 && lag_of(start, step, m2) < stepstop implies msd_total(
            frames@,
            s,
            axes,
            #[trigger] lag_of(start, step, m2),
        ) <= u128::MAX by {
            if m2 < m {
                assert(points@[m2].total == msd_total(frames@, s, axes, lag_of(start, step, m2)));
            } else {
                assert(lag_of(start, step, m2) >= lag_of(start, step, m as int)) by (nonlinear_arith)
                    requires
                        m2 >= m,
                        step >= 1,
                ;
            }
        }
    }
    Ok(MsdSeries { atoms, points })
}

/// The axes that a direction token selects: `xyz`, `xy`, `xz`, `yz`, `x`,
/// `y` or `z`, as ASCII bytes; `None` for any other token.
pub open spec fn direction_axes(b: Seq<u8>) -> Option<[bool; 3]> {
    if b == seq![120u8, 121u8, 122u8] {
        Some([true, true, true])
    } else if b == seq![120u8, 121u8] {
        Some([true, true, false])
    } else if b == seq![120u8, 122u8] {
        Some([true, false, true])
    } else if b == seq![121u8, 122u8] {
        Some([false, true, true])
    } else if b == seq![120u8] {
        Some([true, false, false])
    } else if b == seq![121u8] {
        Some([false, true, false])
    } else if b == seq![122u8] {
        Some([false, false, true])
    } else {
        None
    }
}

/// The axes selected by a direction token; fails on a token that is not one
/// of `xyz`, `xy`, `xz`, `yz`, `x`, `y`, `z`.
pub fn parse_direction(token: &str) -> (r: Result<[bool; 3], ConfigurationError>)
    ensures
        match direction_axes(token.spec_bytes()) {
            Some(axes) => r == Ok::<[bool; 3], ConfigurationError>(axes),
            None => r == Err::<[bool; 3], ConfigurationError>(ConfigurationError::Direction),
        },
{
    let b = token.as_bytes();
    let n = b.len();
    let x: u8 = 120;
    let y: u8 = 121;
    let z: u8 = 122;
    if n == 3 && b[0] == x && b[1] == y && b[2] == z {
        assert(b@ =~= seq![120u8, 121u8, 122u8]);
        return Ok([true, true, true]);
    }
    if n == 2 && b[0] == x && b[1] == y {
        assert(b@ =~= seq![120u8, 121u8]);
        return Ok([true, true, false]);
    }
    if n == 2 && b[0] == x && b[1] == z {
        assert(b@ =~= seq![120u8, 122u8]);
        return Ok([true, false, true]);
    }
    if n == 2 && b[0] == y && b[1] == z {
        assert(b@ =~= seq![121u8, 122u8]);
        return Ok([false, true, true]);
    }
    if n == 1 && b[0] == x {
        assert(b@ =~= seq![120u8]);
        return Ok([true, false, false]);
    }
    if n == 1 && b[0] == y {
        assert(b@ =~= seq![121u8]);
        return Ok([false, true, false]);
    }
    if n == 1 && b[0] == z {
        assert(b@ =~= seq![122u8]);
        return Ok([false, false, true]);
    }
    proof {
        let s = b@;
        if s.len() == 3 {
            assert(s != seq![120u8, 121u8, 122u8] ==> !(s[0] == 120u8 && s[1] == 121u8 && s[2] == 122u8));
        }
        assert(s == seq![120u8, 121u8, 122u8] ==> s.len() == 3 && s[0] == 120u8 && s[1] == 121u8 && s[2] == 122u8);
        assert(s == seq![120u8, 121u8] ==> s.len() == 2 && s[0] == 120u8 && s[1] == 121u8);
        assert(s == seq![120u8, 122u8] ==> s.len() == 2 && s[0] == 120u8 && s[1] == 122u8);
        assert(s == seq![121u8, 122u8] ==> s.len() == 2 && s[0] == 121u8 && s[1] == 122u8);
        assert(s == seq![120u8] ==> s.len() == 1 && s[0] == 120u8);
        assert(s == seq![121u8] ==> s.len() == 1 && s[0] == 121u8);
        assert(s == seq![122u8] ==> s.len() == 1 && s[0] == 122u8);
    }
    Err(ConfigurationError::Direction)
}

proof fn lemma_window_split(frames: Seq<Frame>, s: Species, k: int, dk: int, n: int)
    ensures
        window_sum(frames, s, [true, true, true], k, dk, n) == window_sum(
            frames,
            s,
            [true, false, false],
            k,
            dk,
            n,
        ) + window_sum(frames, s, [false, true, false], k, dk, n) + window_sum(
            frames,
            s,
            [false, false, true],
            k,
            dk,
            n,
        ),
    decreases n,
{
    if n > 0 {
        lemma_window_split(frames, s, k, dk, n - 1);
    }
}

proof fn lemma_lag_split(frames: Seq<Frame>, s: Species, dk: int, m: int)
    ensures
        lag_sum(frames, s, [true, true, true], dk, m) == lag_sum(frames, s, [true, false, false], dk, m)
            + lag_sum(frames, s, [false, true, false], dk, m) + lag_sum(
            frames,
            s,
            [false, false, true],
            dk,
            m,
        ),
    decreases m,
{
    if m > 0 {
        lemma_lag_split(frames, s, dk, m - 1);
        lemma_window_split(frames, s, m - 1, dk, frames[0].atoms.len() as int);
    }
}

/// The displacement total over all three axes is the sum of the totals over
/// `x`, `y` and `z` taken one at a time, for the same lag and species; so is
/// the mean-squared displacement, which divides each by the same numbers.
pub proof fn lemma_msd_axis_sum(frames: Seq<Frame>, s: Species, dk: int)
    ensures
        msd_total(frames, s, [true, true, true], dk) == msd_total(frames, s, [true, false, false], dk)
            + msd_total(frames, s, [false, true, false], dk) + msd_total(
            frames,
            s,
            [false, false, true],
            dk,
        ),
{
    lemma_lag_split(frames, s, dk, windows(frames.len() as int, dk));
}

/// One unwrapping step recovers a true displacement `t` of less than half the
/// edge: where the stored coordinates of an atom lie in `[0, l)` in frames
/// `k - 1` and `k`, and the later one is the earlier one moved by `t` and
/// folded back into the cell, the unwrapped coordinate moves by exactly `t`.
pub proof fn lemma_unwrap_step(frames: Seq<Frame>, k: int, i: int, j: int, t: int)
    requires
        1 <= k,
        0 <= j < 3,
        0 < frames[0].cell[j],
        0 <= wrapped(frames, k - 1, i, j) < frames[0].cell[j],
        0 <= wrapped(frames, k, i, j) < frames[0].cell[j],
        -frames[0].cell[j] < 2 * t < frames[0].cell[j],
        (wrapped(frames, k - 1, i, j) + t - wrapped(frames, k, i, j)) % (frames[0].cell[j] as int) == 0,
    ensures
        unwrapped(frames, k, i, j) - unwrapped(frames, k - 1, i, j) == t,
        wrapped(frames, k - 1, i, j) + t - wrapped(frames, k, i, j) == (box_count(frames, i, j, k)
            - box_count(frames, i, j, k - 1)) * frames[0].cell[j],
{
    let l = frames[0].cell[j] as int;
    let w0 = wrapped(frames, k - 1, i, j);
    let w1 = wrapped(frames, k, i, j);
    let e = w0 + t - w1;
    let q = e / l;
    assert(e == q * l) by (nonlinear_arith)
        requires
            0 < l,
            e % l == 0,
            q == e / l,
    ;
    assert(-1 <= q <= 1) by (nonlinear_arith)
        requires
            0 < l,
            e == q * l,
            -3 * l < 2 * e < 3 * l,
    ;
    let c0 = box_count(frames, i, j, k - 1);
    assert(c0 * l + q * l == (c0 + q) * l) by (nonlinear_arith);
    assert(c0 * l - l == (c0 - 1) * l) by (nonlinear_arith);
    assert(c0 * l + l == (c0 + 1) * l) by (nonlinear_arith);
}

/// The boundary shift that unwrapping adds in frame `k` is a whole number of
/// edges, and exactly one edge, up or down, when the true displacement `t`
/// carried the atom out of the cell.
proof fn lemma_crossing_shift(frames: Seq<Frame>, i: int, j: int, t: int)
    requires
        0 <= j < 3,
        0 < frames[0].cell[j],
        0 <= wrapped(frames, 0, i, j) < frames[0].cell[j],
        0 <= wrapped(frames, 1, i, j) < frames[0].cell[j],
        -frames[0].cell[j] < 2 * t < frames[0].cell[j],
        (wrapped(frames, 0, i, j) + t - wrapped(frames, 1, i, j)) % (frames[0].cell[j] as int) == 0,
    ensures
        unwrapped(frames, 1, i, j) - unwrapped(frames, 0, i, j) == t,
        ({
            let l = frames[0].cell[j] as int;
            let w0 = wrapped(frames, 0, i, j);
            let shift = unwrapped(frames, 1, i, j) - wrapped(frames, 1, i, j);
            &&& (0 <= w0 + t < l) ==> shift == 0
            &&& !(0 <= w0 + t < l) ==> (shift == l || shift == -l)
        }),
{
    lemma_unwrap_step(frames, 1, i, j, t);
    let l = frames[0].cell[j] as int;
    let c = box_count(frames, i, j, 1);
    assert(box_count(frames, i, j, 0) == 0);
    assert(-1 <= c <= 1) by {
        lemma_box_count_bound(frames, i, j, 1);
    }
    assert(c == 0 ==> c * l == 0);
    if c == 1 {
        assert(c * l == l) by (nonlinear_arith)
            requires
                c == 1,
        ;
    } else if c == -1 {
        assert(c * l == -l) by (nonlinear_arith)
            requires
                c == -1,
        ;
    }
}

/// A single atom of species `s`, saved in two frames, that moves by less
/// than half an edge on each axis: unwrapping shifts its second position by
/// exactly one edge, up or down, on each axis where it crossed the cell's
/// boundary (and by nothing elsewhere), and the displacement total at lag 1,
/// over one atom and one window, is the squared true displacement.
pub proof fn lemma_single_atom_crossing(frames: Seq<Frame>, s: Species, tx: int, ty: int, tz: int)
    requires
        traj_ok(frames),
        frames.len() == 2,
        frames[0].atoms.len() == 1,
        frames[0].atoms@[0].species == s,
        forall|j: int|
            0 <= j < 3 ==> {
                let l = frames[0].cell[j] as int;
                let t = if j == 0 {
                    tx
                } else if j == 1 {
                    ty
                } else {
                    tz
                };
                &&& 0 <= #[trigger] wrapped(frames, 0, 0, j) < l
                &&& 0 <= wrapped(frames, 1, 0, j) < l
                &&& -l < 2 * t < l
                &&& (wrapped(frames, 0, 0, j) + t - wrapped(frames, 1, 0, j)) % l == 0
            },
    ensures
        forall|j: int|
            0 <= j < 3 ==> {
                let l = frames[0].cell[j] as int;
                let t = if j == 0 {
                    tx
                } else if j == 1 {
                    ty
                } else {
                    tz
                };
                let shift = unwrapped(frames, 1, 0, j) - #[trigger] wrapped(frames, 1, 0, j);
                &&& (0 <= wrapped(frames, 0, 0, j) + t < l) ==> shift == 0
                &&& !(0 <= wrapped(frames, 0, 0, j) + t < l) ==> (shift == l || shift == -l)
            },
        msd_total(frames, s, [true, true, true], 1) == sq(tx) + sq(ty) + sq(tz),
{
    assert(wrapped(frames, 0, 0, 0) == wrapped(frames, 0, 0, 0));
    assert(wrapped(frames, 0, 0, 1) == wrapped(frames, 0, 0, 1));
    assert(wrapped(frames, 0, 0, 2) == wrapped(frames, 0, 0, 2));
    lemma_crossing_shift(frames, 0, 0, tx);
    lemma_crossing_shift(frames, 0, 1, ty);
    lemma_crossing_shift(frames, 0, 2, tz);
    assert(windows(2, 1) == 1);
    assert(window_sum(frames, s, [true, true, true], 0, 1, 0) == 0);
    assert(lag_sum(frames, s, [true, true, true], 1, 0) == 0);
    assert(window_sum(frames, s, [true, true, true], 0, 1, 1) == atom_sd(frames, s, [true, true, true], 0, 1, 0));
    assert(lag_sum(frames, s, [true, true, true], 1, 1) == window_sum(frames, s, [true, true, true], 0, 1, 1));
    assert forall|j: int|
        0 <= j < 3 implies {
            let l = frames[0].cell[j] as int;
            let t = if j == 0 {
                tx
            } else if j == 1 {
                ty
            } else {
                tz
            };
            let shift = unwrapped(frames, 1, 0, j) - #[trigger] wrapped(frames, 1, 0, j);
            &&& (0 <= wrapped(frames, 0, 0, j) + t < l) ==> shift == 0
            &&& !(0 <= wrapped(frames, 0, 0, j) + t < l) ==> (shift == l || shift == -l)
        } by {
        if j == 0 {
        } else if j == 1 {
        } else {
        }
    }
}

} // verus!
