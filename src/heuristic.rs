use vstd::prelude::*;

use crate::bytes::{contains_bytes, contains_spec};

verus! {

/// The phrase `Not Found` in ASCII, which one upstream answers with
/// (status 200 and a JSON error) where another answers with status 404.
pub open spec fn not_found_phrase() -> Seq<u8> {
    seq![78u8, 111u8, 116u8, 32u8, 70u8, 111u8, 117u8, 110u8, 100u8]
}

/// The status whose text is `404`.
pub const NOT_FOUND_STATUS: u16 = 404;

/// An upstream answer is final unless its status text is `404` or its body
/// holds the phrase `Not Found` (case-sensitive). This is a heuristic: a
/// genuine payload that happens to hold the phrase is taken for a miss.
pub open spec fn is_final_spec(status: u16, body: Seq<u8>) -> bool {
    status != NOT_FOUND_STATUS && !contains_spec(body, not_found_phrase())
}

/// Whether an upstream answer is final, or the next candidate should be
/// tried instead.
pub fn is_final(status: u16, body: &[u8]) -> (r: bool)
    ensures
        r == is_final_spec(status, body@),
{
    if status == NOT_FOUND_STATUS {
        return false;
    }
    let phrase: Vec<u8> = vec![78u8, 111u8, 116u8, 32u8, 70u8, 111u8, 117u8, 110u8, 100u8];
    assert(phrase@ =~= not_found_phrase());
    !contains_bytes(body, phrase.as_slice())
}

} // verus!
