use crate::capabilities::pr::PersonReId;
use crate::capabilities::vs::VideoSearch;
use crate::capabilities::Offered;
use vstd::prelude::*;

verus! {

/// What a GPU server offers: video search and person re-identification.
pub fn get_capabilities() -> (caps: Vec<Offered>)
    ensures
        caps@ == seq![Offered::Vs(VideoSearch), Offered::Pr(PersonReId)],
{
    let mut caps: Vec<Offered> = Vec::new();
    caps.push(Offered::Vs(VideoSearch));
    caps.push(Offered::Pr(PersonReId));
    proof {
        assert(caps@ =~= seq![Offered::Vs(VideoSearch), Offered::Pr(PersonReId)]);
    }
    caps
}

} // verus!
