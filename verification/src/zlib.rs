use vstd::prelude::*;
use crate::error::CrxDecodeError;

verus! {

/// Whether `d` is a well-formed zlib stream that inflates in full.
pub uninterp spec fn zlib_ok(d: Seq<u8>) -> bool;

/// The bytes a well-formed zlib stream `d` inflates to.
pub uninterp spec fn zlib_inflated(d: Seq<u8>) -> Seq<u8>;

/// Relies on inflate::inflate_bytes_zlib: inflating a zlib stream in full is
/// a function of the input bytes alone. `zlib_ok` names the inputs that it
/// accepts and `zlib_inflated` the bytes that it produces for them.
#[verifier::external_body]
pub fn inflate_zlib(d: &[u8]) -> (r: Result<Vec<u8>, CrxDecodeError>)
    ensures
        r is Ok <==> zlib_ok(d@),
        r is Ok ==> r->Ok_0@ == zlib_inflated(d@),
        r is Err ==> r->Err_0 == CrxDecodeError::MalformedDeflate,
{
    match inflate::inflate_bytes_zlib(d) {
        Ok(v) => Ok(v),
        Err(_) => Err(CrxDecodeError::MalformedDeflate),
    }
}

} // verus!
