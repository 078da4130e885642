use super::Capability;
use vstd::prelude::*;

verus! {

pub struct VehicleDetection;

impl Capability for VehicleDetection {
    open spec fn code_of(&self) -> Seq<char> {
        "Vd"@
    }

    open spec fn supported(&self) -> bool {
        true
    }

    open spec fn answers(&self, args: Seq<Seq<char>>, out: Result<Seq<char>, Seq<char>>) -> bool {
        out == Ok::<Seq<char>, Seq<char>>("Vehicle Detection executed"@)
    }

    fn code(&self) -> (c: &'static str) {
        "Vd"
    }

    fn is_supported(&self) -> (ok: bool) {
        true
    }

    fn execute(&self, _args: Vec<String>) -> (out: Result<String, String>) {
        Ok("Vehicle Detection executed".to_owned())
    }
}

} // verus!
