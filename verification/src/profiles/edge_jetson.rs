use crate::capabilities::ot::ObjectTracking;
use crate::capabilities::pd::PeopleDetection;
use crate::capabilities::Offered;
use vstd::prelude::*;

verus! {

/// What a small edge device offers: people detection and object tracking.
pub fn get_capabilities() -> (caps: Vec<Offered>)
    ensures
        caps@ == seq![Offered::Pd(PeopleDetection), Offered::Ot(ObjectTracking)],
{
    let mut caps: Vec<Offered> = Vec::new();
    caps.push(Offered::Pd(PeopleDetection));
    caps.push(Offered::Ot(ObjectTracking));
    proof {
        assert(caps@ =~= seq![Offered::Pd(PeopleDetection), Offered::Ot(ObjectTracking)]);
    }
    caps
}

} // verus!
