use super::Capability;
use vstd::prelude::*;

verus! {

pub struct VideoSearch;

impl Capability for VideoSearch {
    open spec fn code_of(&self) -> Seq<char> {
        "Vs"@
    }

    open spec fn supported(&self) -> bool {
        true
    }

    open spec fn answers(&self, args: Seq<Seq<char>>, out: Result<Seq<char>, Seq<char>>) -> bool {
        out == Ok::<Seq<char>, Seq<char>>("Video Search executed"@)
    }

    fn code(&self) -> (c: &'static str) {
        "Vs"
    }

    fn is_supported(&self) -> (ok: bool) {
        true
    }

    fn execute(&self, _args: Vec<String>) -> (out: Result<String, String>) {
        Ok("Video Search executed".to_owned())
    }
}

} // verus!
