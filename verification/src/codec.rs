//! Codec: Base32 decoding of stored secrets, and the key-format check run
//! on secrets as they come in.

use vstd::prelude::*;

use crate::error::OtpError;

verus! {

/// What unpadded Base32 decoding yields for `s`: `None` exactly on inputs
/// that are not valid unpadded Base32. It depends on `s` alone.
pub uninterp spec fn b32_decode(s: Seq<char>) -> Option<Seq<u8>>;

/// Relies on `data_encoding::BASE32_NOPAD.decode`: success and output are a
/// function of the input alone, and Base32 decodes five bits per character,
/// so the output is never longer than the input.
#[verifier::external_body]
pub(crate) fn base32_decode(s: &str) -> (r: Option<Vec<u8>>)
    ensures
        r is Some <==> b32_decode(s@) is Some,
        r is Some ==> r->0@ == b32_decode(s@)->0,
        r is Some ==> r->0@.len() <= s@.len(),
{
    data_encoding::BASE32_NOPAD.decode(s.as_bytes()).ok()
}

/// The upper-case folding of `s`; it depends on the characters alone.
pub uninterp spec fn upper_of(s: Seq<char>) -> Seq<char>;

/// Relies on `str::to_uppercase`: the result depends on the characters
/// alone, and an empty input stays empty.
#[verifier::external_body]
fn to_upper(s: &str) -> (r: String)
    ensures
        r@ == upper_of(s@),
        s@.len() == 0 ==> r@.len() == 0,
{
    s.to_uppercase()
}

/// The key-format check applied to an incoming secret: fold it to upper
/// case, then accept it exactly when the folded text is valid unpadded
/// Base32, handing back the folded text.
pub fn is_base32_key(key: &str) -> (r: Result<String, OtpError>)
    ensures
        r is Ok <==> b32_decode(upper_of(key@)) is Some,
        r is Ok ==> r->Ok_0@ == upper_of(key@),
        r is Err ==> r->Err_0 is InvalidKey,
{
    let up = to_upper(key);
    match base32_decode(up.as_str()) {
        Some(_) => Ok(up),
        None => Err(OtpError::InvalidKey),
    }
}

} // verus!
