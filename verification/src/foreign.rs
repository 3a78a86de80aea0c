//! The few places where the library leans on outside code: LZF
//! decompression, hex encoding, JSON string quoting and regular-expression
//! matching.  Each call sits behind one trusted wrapper whose contract
//! states what the outside source shows; everything around the calls is
//! verified against those contracts.

use vstd::prelude::*;
use crate::types::{RdbError, RdbResult};

verus! {

/// The bytes that LZF decompression yields for a compressed blob and a
/// declared output length, or `None` where the stream is corrupt or does
/// not fit the declared length.  The result is a function of the two
/// arguments alone.
pub uninterp spec fn lzf_unpack(data: Seq<u8>, declared_len: nat) -> Option<Seq<u8>>;

/// Relies on lzf::decompress: decompression is deterministic in the input
/// bytes and the declared output length, fails on corrupt data or when the
/// output does not fit, and never yields more than the declared length.
#[verifier::external_body]
pub(crate) fn lzf_decompress(data: &[u8], declared_len: usize) -> (r: RdbResult<Vec<u8>>)
    ensures
        r matches Ok(v) ==> lzf_unpack(data@, declared_len as nat) == Some(v@),
        r is Err <==> lzf_unpack(data@, declared_len as nat) is None,
        r matches Err(e) ==> e is MalformedInput,
        r matches Ok(v) ==> v@.len() <= declared_len,
{
    match lzf::decompress(data, declared_len) {
        Ok(v) => Ok(v),
        Err(_) => Err(RdbError::MalformedInput(0)),
    }
}

/// The lowercase hex digit for a value below 16.
pub open spec fn hex_digit(n: nat) -> u8 {
    if n < 10 {
        (48 + n) as u8
    } else {
        (87 + n) as u8
    }
}

/// Lowercase hex encoding: two digits per input byte, high nibble first.
pub open spec fn hex_bytes(s: Seq<u8>) -> Seq<u8>
    decreases s.len(),
{
    if s.len() == 0 {
        seq![]
    } else {
        seq![hex_digit(s[0] as nat / 16), hex_digit(s[0] as nat % 16)] + hex_bytes(s.skip(1))
    }
}

/// Relies on hex::encode: lowercase hex, two digits per byte, high nibble
/// first.
#[verifier::external_body]
pub(crate) fn hex_encode(data: &[u8]) -> (r: Vec<u8>)
    ensures
        r@ == hex_bytes(data@),
{
    hex::encode(data).into_bytes()
}

/// The characters that lossy UTF-8 decoding yields for a byte sequence: a
/// function of the bytes alone.
pub uninterp spec fn lossy_chars(bytes: Seq<u8>) -> Seq<char>;

/// Relies on String::from_utf8_lossy: the decoding depends on the input
/// bytes alone, and an empty input decodes to an empty string.
#[verifier::external_body]
pub(crate) fn utf8_lossy(bytes: &[u8]) -> (r: String)
    ensures
        r@ == lossy_chars(bytes@),
        bytes@.len() == 0 ==> r@.len() == 0,
{
    String::from_utf8_lossy(bytes).into_owned()
}

/// The JSON quoting of a string: the quoted, escaped UTF-8 bytes, a
/// function of the characters alone.
pub uninterp spec fn json_quoted(s: Seq<char>) -> Seq<u8>;

/// Relies on serde_json::to_string: serialising a string slice yields its
/// JSON quoting, a function of the characters alone.
#[verifier::external_body]
pub(crate) fn json_quote(s: &str) -> (r: RdbResult<Vec<u8>>)
    ensures
        r matches Ok(v) ==> v@ == json_quoted(s@),
        r matches Err(e) ==> e is EmitterFailure,
{
    match serde_json::to_string(s) {
        Ok(j) => Ok(j.into_bytes()),
        Err(_) => Err(RdbError::EmitterFailure),
    }
}

/// A compiled regular expression over bytes, used by the key filter.  The
/// value is opaque here; matching goes through [`regex_is_match`].
#[verifier::external_type_specification]
#[verifier::external_body]
pub struct ExRegex(regex::bytes::Regex);

/// Whether a compiled pattern matches a byte string: a function of the
/// pattern value and the bytes alone.
pub uninterp spec fn regex_match(re: regex::bytes::Regex, key: Seq<u8>) -> bool;

/// Relies on regex::bytes::Regex::is_match: matching is deterministic in
/// the compiled pattern and the haystack.
#[verifier::external_body]
pub(crate) fn regex_is_match(re: &regex::bytes::Regex, key: &[u8]) -> (r: bool)
    ensures
        r == regex_match(*re, key@),
{
    re.is_match(key)
}

} // verus!
