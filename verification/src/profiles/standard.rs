use crate::capabilities::lp::LicensePlateRecognition;
use crate::capabilities::ot::ObjectTracking;
use crate::capabilities::pd::PeopleDetection;
use crate::capabilities::pr::PersonReId;
use crate::capabilities::vd::VehicleDetection;
use crate::capabilities::vs::VideoSearch;
use crate::capabilities::Offered;
use vstd::prelude::*;

verus! {

/// What an ordinary machine offers: every capability.
pub open spec fn standard_profile() -> Seq<Offered> {
    seq![
        Offered::Pd(PeopleDetection),
        Offered::Pr(PersonReId),
        Offered::Ot(ObjectTracking),
        Offered::Vd(VehicleDetection),
        Offered::Lp(LicensePlateRecognition),
        Offered::Vs(VideoSearch),
    ]
}

/// What an ordinary machine offers: every capability.
pub fn get_capabilities() -> (caps: Vec<Offered>)
    ensures
        caps@ == standard_profile(),
{
    let mut caps: Vec<Offered> = Vec::new();
    caps.push(Offered::Pd(PeopleDetection));
    caps.push(Offered::Pr(PersonReId));
    caps.push(Offered::Ot(ObjectTracking));
    caps.push(Offered::Vd(VehicleDetection));
    caps.push(Offered::Lp(LicensePlateRecognition));
    caps.push(Offered::Vs(VideoSearch));
    proof {
        assert(caps@ =~= standard_profile());
    }
    caps
}

} // verus!
