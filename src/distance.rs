//! Distance between two chosen atoms along a trajectory.

use vstd::prelude::*;

use crate::error::ConfigurationError;
use crate::geometry::{get_distance_pbc_sq, image_sq};
use crate::model::{frames_ok, Frame};

verus! {

/// Both one-based atom identifiers name an atom of every frame.
pub open spec fn indices_ok(frames: Seq<Frame>, index1: usize, index2: usize) -> bool {
    &&& 1 <= index1
    &&& 1 <= index2
    &&& forall|k: int|
        0 <= k < frames.len() ==> index1 <= (#[trigger] frames[k]).atoms.len() && index2
            <= frames[k].atoms.len()
}

/// The squared minimum-image distance, frame by frame, between the atoms at
/// one-based positions `index1` and `index2`. Fails where either position is
/// zero or beyond the atoms of some frame.
pub fn compute_distance(system: &Vec<Frame>, index1: usize, index2: usize) -> (r: Result<
    Vec<u64>,
    ConfigurationError,
>)
    requires
        frames_ok(system@),
    ensures
        r.is_ok() <==> indices_ok(system@, index1, index2),
        r matches Err(e) ==> e == ConfigurationError::AtomIndex,
        r matches Ok(v) ==> v.len() == system.len() && forall|k: int|
            0 <= k < system.len() ==> #[trigger] v@[k] == image_sq(
                system@[k].atoms@[index1 - 1].position,
                system@[k].atoms@[index2 - 1].position,
                system@[k].cell,
            ),
{
    if index1 == 0 || index2 == 0 {
        return Err(ConfigurationError::AtomIndex);
    }
    let mut v: Vec<u64> = Vec::new();
    let mut k: usize = 0;
    while k < system.len()
        invariant
            frames_ok(system@),
            1 <= index1,
            1 <= index2,
            k <= system.len(),
            v.len() == k,
            forall|k2: int|
                0 <= k2 < k ==> index1 <= (#[trigger] system@[k2]).atoms.len() && index2
                    <= system@[k2].atoms.len(),
            forall|k2: int|
                0 <= k2 < k ==> #[trigger] v@[k2] == image_sq(
                    system@[k2].atoms@[index1 - 1].position,
                    system@[k2].atoms@[index2 - 1].position,
                    system@[k2].cell,
                ),
        decreases system.len() - k,
    {
        let frame = &system[k];
        if index1 > frame.atoms.len() || index2 > frame.atoms.len() {
            return Err(ConfigurationError::AtomIndex);
        }
        let d = get_distance_pbc_sq(
            frame.atoms[index1 - 1].position,
            frame.atoms[index2 - 1].position,
            frame.cell,
        );
        v.push(d);
        k += 1;
    }
    Ok(v)
}

} // verus!
