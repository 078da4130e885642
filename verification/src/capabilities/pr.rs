use super::Capability;
use vstd::prelude::*;

verus! {

pub struct PersonReId;

impl Capability for PersonReId {
    open spec fn code_of(&self) -> Seq<char> {
        "Pr"@
    }

    open spec fn supported(&self) -> bool {
        true
    }

    open spec fn answers(&self, args: Seq<Seq<char>>, out: Result<Seq<char>, Seq<char>>) -> bool {
        out == Ok::<Seq<char>, Seq<char>>("Person Re-ID executed"@)
    }

    fn code(&self) -> (c: &'static str) {
        "Pr"
    }

    fn is_supported(&self) -> (ok: bool) {
        true
    }

    fn execute(&self, _args: Vec<String>) -> (out: Result<String, String>) {
        Ok("Person Re-ID executed".to_owned())
    }
}

} // verus!
