//! The two places where the emulation touches the host: the wall clock and
//! the platform entropy source. Both are consulted only when a test has not
//! fixed the clock or seeded the generator, so nothing is promised about
//! their results beyond what the host documents.

use vstd::prelude::*;

verus! {

/// The error type of the platform entropy source.
#[verifier::external_type_specification]
#[verifier::external_body]
pub struct ExGetrandomError(getrandom::Error);

/// Relies on `std::time::SystemTime::now` and
/// `SystemTime::duration_since(UNIX_EPOCH)`: the wall clock, read as whole
/// milliseconds since the epoch, or zero for a clock set before the epoch.
/// Nothing can be promised of the clock's value.
#[verifier::external_body]
pub fn wall_clock_millis() -> u64 {
    match std::time::SystemTime::now().duration_since(std::time::SystemTime::UNIX_EPOCH) {
        Ok(d) => d.as_millis() as u64,
        Err(_) => 0,
    }
}

/// Relies on `getrandom::getrandom`: fills the whole buffer with bytes from
/// the platform entropy source, or reports the source's error. Nothing can
/// be promised of the bytes, only that the buffer keeps its length.
#[verifier::external_body]
pub fn os_random_fill(buf: &mut Vec<u8>) -> (r: Result<(), getrandom::Error>)
    ensures
        final(buf)@.len() == old(buf)@.len(),
{
    getrandom::getrandom(buf.as_mut_slice())
}

/// The replacement text `String::from_utf8_lossy` produces for a byte
/// sequence; on valid input it is the decoded text itself.
pub uninterp spec fn utf8_lossy(b: Seq<u8>) -> Seq<char>;

/// Relies on `String::from_utf8`: bytes decode to text exactly when they are
/// valid UTF-8, and the decoding is the standard one.
#[verifier::external_body]
pub fn utf8_to_string(v: Vec<u8>) -> (r: Option<String>)
    ensures
        r is Some <==> vstd::utf8::valid_utf8(v@),
        r matches Some(s) ==> s@ == vstd::utf8::decode_utf8(v@),
{
    match String::from_utf8(v) {
        Ok(s) => Some(s),
        Err(_) => None,
    }
}

/// Relies on `String::from_utf8_lossy`: invalid sequences are replaced with
/// the replacement character, and valid input passes through unchanged.
#[verifier::external_body]
pub fn utf8_to_string_lossy(v: Vec<u8>) -> (r: String)
    ensures
        r@ == utf8_lossy(v@),
        vstd::utf8::valid_utf8(v@) ==> r@ == vstd::utf8::decode_utf8(v@),
{
    String::from_utf8_lossy(&v).into_owned()
}

} // verus!
