//! Detectors shared by the Bosch EDC15/EDC16 families, and the list
//! handling they have in common.
pub mod egr_temperature;
pub mod launch_control;
pub mod map_maf_switch;

use vstd::prelude::*;
use crate::model::DetectedMap;

verus! {

/// Whether `a` is one of `v`.
pub fn contains_address(v: &Vec<u32>, a: u32) -> (r: bool)
    ensures
        r == v@.contains(a),
{
    let mut i: usize = 0;
    while i < v.len()
        invariant
            i <= v@.len(),
            forall|j: int| 0 <= j < i ==> v@[j] != a,
        decreases v.len() - i,
    {
        if v[i] == a {
            assert(v@[i as int] == a);
            return true;
        }
        i += 1;
    }
    false
}

/// Removes the maps whose address is one of `addrs`, keeping the order of the others.
pub fn drop_addresses(maps: &mut Vec<DetectedMap>, addrs: &Vec<u32>)
    ensures
        final(maps)@ == old(maps)@.filter(|m: DetectedMap| !addrs@.contains(m.address)),
{
    let ghost pred = |m: DetectedMap| !addrs@.contains(m.address);
    let ghost all = maps@;
    let mut kept: Vec<DetectedMap> = Vec::new();
    proof {
        reveal(Seq::filter);
        assert(all.subrange(0, 0) =~= Seq::<DetectedMap>::empty());
    }
    while maps.len() > 0
        invariant
            maps@.len() <= all.len(),
            maps@ == all.subrange(all.len() - maps@.len(), all.len() as int),
            kept@ == all.subrange(0, all.len() - maps@.len()).filter(pred),
            pred == (|m: DetectedMap| !addrs@.contains(m.address)),
        decreases maps.len(),
    {
        let ghost j = all.len() - maps@.len();
        let m = maps.remove(0);
        assert(m == all[j]);
        let keep = !contains_address(addrs, m.address);
        proof {
            reveal(Seq::filter);
            assert(all.subrange(0, j + 1).drop_last() =~= all.subrange(0, j));
            assert(all.subrange(0, j + 1).last() == all[j]);
            assert(maps@ =~= all.subrange(j + 1, all.len() as int));
        }
        if keep {
            kept.push(m);
        }
    }
    proof {
        assert(all.subrange(0, all.len() as int) =~= all);
    }
    *maps = kept;
}

} // verus!
