use super::Capability;
use vstd::prelude::*;

verus! {

pub struct ObjectTracking;

impl Capability for ObjectTracking {
    open spec fn code_of(&self) -> Seq<char> {
        "Ot"@
    }

    open spec fn supported(&self) -> bool {
        true
    }

    open spec fn answers(&self, args: Seq<Seq<char>>, out: Result<Seq<char>, Seq<char>>) -> bool {
        out == Ok::<Seq<char>, Seq<char>>("Object Tracking executed"@)
    }

    fn code(&self) -> (c: &'static str) {
        "Ot"
    }

    fn is_supported(&self) -> (ok: bool) {
        true
    }

    fn execute(&self, _args: Vec<String>) -> (out: Result<String, String>) {
        Ok("Object Tracking executed".to_owned())
    }
}

} // verus!
