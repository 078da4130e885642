use super::Capability;
use vstd::prelude::*;

verus! {

pub struct PeopleDetection;

impl Capability for PeopleDetection {
    open spec fn code_of(&self) -> Seq<char> {
        "Pd"@
    }

    open spec fn supported(&self) -> bool {
        true
    }

    open spec fn answers(&self, args: Seq<Seq<char>>, out: Result<Seq<char>, Seq<char>>) -> bool {
        out == Ok::<Seq<char>, Seq<char>>("People Detection executed"@)
    }

    fn code(&self) -> (c: &'static str) {
        "Pd"
    }

    fn is_supported(&self) -> (ok: bool) {
        true
    }

    fn execute(&self, _args: Vec<String>) -> (out: Result<String, String>) {
        Ok("People Detection executed".to_owned())
    }
}

} // verus!
