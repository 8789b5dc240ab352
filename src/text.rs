//! Text decoding taken from the standard library.
use vstd::prelude::*;
use vstd::string::StringSliceAdditionalSpecFns;
use vstd::utf8::{decode_utf8, encode_utf8_decode_utf8, valid_utf8};

verus! {

#[verifier::external_type_specification]
#[verifier::external_body]
pub struct ExUtf8Error(std::str::Utf8Error);

/// What `str::trim` leaves of a string: it without leading and trailing
/// white space.
pub uninterp spec fn trimmed(s: Seq<char>) -> Seq<char>;

/// Relies on `std::str::from_utf8`: `Ok` exactly when the bytes are valid
/// UTF-8, and then a string slice over those same bytes.
#[verifier::external_body]
fn from_utf8_std<'a>(b: &'a [u8]) -> (r: Result<&'a str, std::str::Utf8Error>)
    ensures
        valid_utf8(b@) <==> r is Ok,
        r is Ok ==> r->Ok_0.spec_bytes() == b@,
{
    std::str::from_utf8(b)
}

/// The text encoded in UTF-8 by `b`, or the decoding error.
pub fn decode<'a>(b: &'a [u8]) -> (r: Result<&'a str, std::str::Utf8Error>)
    ensures
        valid_utf8(b@) <==> r is Ok,
        r is Ok ==> r->Ok_0@ == decode_utf8(b@),
{
    let r = from_utf8_std(b);
    proof {
        if r is Ok {
            encode_utf8_decode_utf8(r->Ok_0@);
        }
    }
    r
}

/// Relies on `str::trim`: the result depends on the characters alone.
#[verifier::external_body]
pub(crate) fn trim_std<'a>(s: &'a str) -> (r: &'a str)
    ensures
        r@ == trimmed(s@),
{
    s.trim()
}

} // verus!
