//! Atoms, frames and trajectories as the analysis kernels read them.

use vstd::prelude::*;

use crate::geometry::cell_ok;

verus! {

/// Largest number of atoms in one frame that the kernels accept.
pub const MAX_ATOMS: usize = 1_073_741_824;

/// The element or type of an atom, resolved from its label when the frame is loaded.
#[derive(Clone, Copy, Debug, PartialEq, Eq, Structural)]
pub enum Species {
    /// Oxygen: labelled `O`, or `1` in dump formats without named types.
    Oxygen,
    /// Hydrogen: labelled `H`, or `2` in dump formats without named types.
    Hydrogen,
    /// Any other label, by a code that the loader assigns to each distinct label.
    Other(u32),
}

/// One particle of one frame.
#[derive(Clone, Copy, Debug)]
pub struct Atom {
    /// One-based identifier of the atom within its frame.
    pub index: i32,
    pub species: Species,
    /// Cartesian coordinates in length units.
    pub position: [i64; 3],
}

/// One configuration of the system.
#[derive(Clone, Debug)]
pub struct Frame {
    /// Label of the configuration in the source trajectory.
    pub frame_index: i32,
    /// Edges of the orthorhombic cell, in length units.
    pub cell: [i64; 3],
    /// The distinct species, in order.
    pub species_list: Vec<Species>,
    /// Number of atoms of each species of `species_list`.
    pub species_count: Vec<usize>,
    pub atom_count: usize,
    pub atoms: Vec<Atom>,
}

/// The atoms of `atoms` whose species is `s`, in order.
pub open spec fn of_species(atoms: Seq<Atom>, s: Species) -> Seq<Atom>
    decreases atoms.len(),
{
    if atoms.len() == 0 {
        Seq::empty()
    } else {
        let rest = of_species(atoms.drop_last(), s);
        if atoms.last().species == s {
            rest.push(atoms.last())
        } else {
            rest
        }
    }
}

pub proof fn lemma_of_species_len(atoms: Seq<Atom>, s: Species)
    ensures
        of_species(atoms, s).len() <= atoms.len(),
    decreases atoms.len(),
{
    if atoms.len() > 0 {
        lemma_of_species_len(atoms.drop_last(), s);
    }
}

/// The atoms of one species, in the order in which they stand in `atoms`.
pub fn select_species(atoms: &Vec<Atom>, s: Species) -> (r: Vec<Atom>)
    ensures
        r@ == of_species(atoms@, s),
{
    let mut r: Vec<Atom> = Vec::new();
    let mut k: usize = 0;
    while k < atoms.len()
        invariant
            k <= atoms.len(),
            r@ == of_species(atoms@.take(k as int), s),
        decreases atoms.len() - k,
    {
        let a = atoms[k];
        assert(atoms@.take(k + 1).drop_last() =~= atoms@.take(k as int));
        if a.species == s {
            r.push(a);
        }
        k += 1;
    }
    assert(atoms@.take(k as int) =~= atoms@);
    r
}

/// The count recorded for species `s`: the last entry of `list` equal to `s`
/// among the first `n`, or zero.
pub open spec fn count_of(list: Seq<Species>, counts: Seq<usize>, s: Species, n: int) -> int
    decreases n,
{
    if n <= 0 {
        0
    } else if list[n - 1] == s {
        counts[n - 1] as int
    } else {
        count_of(list, counts, s, n - 1)
    }
}

/// The number of atoms that the frame records for species `s` (zero where it has none).
pub fn species_total(frame: &Frame, s: Species) -> (r: usize)
    requires
        frame.species_list.len() == frame.species_count.len(),
    ensures
        r == count_of(frame.species_list@, frame.species_count@, s, frame.species_list.len() as int),
{
    let mut r: usize = 0;
    let mut k: usize = 0;
    while k < frame.species_list.len()
        invariant
            k <= frame.species_list.len(),
            frame.species_list.len() == frame.species_count.len(),
            r == count_of(frame.species_list@, frame.species_count@, s, k as int),
        decreases frame.species_list.len() - k,
    {
        if frame.species_list[k] == s {
            r = frame.species_count[k];
        }
        k += 1;
    }
    r
}

/// Every frame has a valid cell, at most `MAX_ATOMS` atoms and one count per species.
pub open spec fn frames_ok(frames: Seq<Frame>) -> bool {
    forall|k: int|
        0 <= k < frames.len() ==> {
            &&& cell_ok(#[trigger] frames[k].cell)
            &&& frames[k].atoms.len() <= MAX_ATOMS
            &&& frames[k].species_list.len() == frames[k].species_count.len()
        }
}

} // verus!
