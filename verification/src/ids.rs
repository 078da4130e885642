//! Ids for jobs.

use vstd::prelude::*;

verus! {

/// `uuid::Uuid`: an id of 128 bits.
#[verifier::external_type_specification]
#[verifier::external_body]
pub struct ExUuid(uuid::Uuid);

/// `Uuid::new_v4`: a random id of 128 bits. Nothing is known of it before
/// it is there.
pub assume_specification[ uuid::Uuid::new_v4 ]() -> uuid::Uuid
;

/// Whether a character is a hexadecimal digit in lower case.
pub open spec fn hex_digit(c: char) -> bool {
    c == '0' || c == '1' || c == '2' || c == '3' || c == '4' || c == '5' || c == '6' || c == '7'
        || c == '8' || c == '9' || c == 'a' || c == 'b' || c == 'c' || c == 'd' || c == 'e' || c
        == 'f'
}

/// Whether a text is an id in its usual written form: thirty-two
/// hexadecimal digits in five groups of eight, four, four, four and twelve,
/// with hyphens between the groups.
pub open spec fn canonical(id: Seq<char>) -> bool {
    &&& id.len() == 36
    &&& forall|i: int|
        0 <= i < 36 ==> if i == 8 || i == 13 || i == 18 || i == 23 {
            #[trigger] id[i] == '-'
        } else {
            hex_digit(id[i])
        }
}

/// `Uuid`'s `Display`, through `to_string`: the id in its usual written
/// form.
#[verifier::external_body]
pub(crate) fn written(id: &uuid::Uuid) -> (out: String)
    ensures
        canonical(out@),
{
    id.to_string()
}

/// A fresh id for a job, in its usual written form.
pub fn fresh_id() -> (out: String)
    ensures
        canonical(out@),
{
    let id = uuid::Uuid::new_v4();
    written(&id)
}

} // verus!
