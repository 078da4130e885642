//! Sets of capabilities, one per kind of machine.

use crate::capabilities::Offered;
use vstd::prelude::*;

pub mod edge_jetson;
pub mod server_gpu;
pub mod standard;

verus! {

/// The capabilities of this worker: those of an ordinary machine.
pub fn get_active_profile() -> (caps: Vec<Offered>)
    ensures
        caps@ == standard::standard_profile(),
{
    standard::get_capabilities()
}

} // verus!
