//! What the library asks of the host: text decoding and an error number.
//! Each function here makes one outside call; its contract is believed,
//! not proved.
use vstd::prelude::*;
use vstd::utf8::{decode_utf8, valid_utf8};

verus! {

/// `String::from_utf8`, on a copy of `b`. std documents that it succeeds
/// exactly when `b` is well-formed UTF-8, and then holds the decoded text;
/// the contract claims that, in terms of vstd's UTF-8 definitions.
#[verifier::external_body]
pub(crate) fn decode_text(b: &[u8]) -> (r: Option<String>)
    ensures
        r is Some <==> valid_utf8(b@),
        r matches Some(s) ==> s@ == decode_utf8(b@),
{
    String::from_utf8(b.to_vec()).ok()
}

/// `libc::ENOENT`, the error number of a missing file. In the `libc`
/// sources for Linux targets (`linux_l4re_shared.rs`) it is the constant 2,
/// which is what the contract claims.
#[verifier::external_body]
pub(crate) fn enoent() -> (r: i32)
    ensures
        r == 2,
{
    libc::ENOENT
}

} // verus!
