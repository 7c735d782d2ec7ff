//! The three transformations that lead from the opaque text of a compressed
//! page to its markup: base64, raw deflate, percent-encoding.

use vstd::prelude::*;

verus! {

/// The error of `base64::decode`.
#[verifier::external_type_specification]
#[verifier::external_body]
pub struct ExBase64Error(base64::DecodeError);

/// The error of reading from a `flate2` decoder.
#[verifier::external_type_specification]
#[verifier::external_body]
pub struct ExIoError(std::io::Error);

/// The error of `urlencoding::decode`.
#[verifier::external_type_specification]
#[verifier::external_body]
pub struct ExUtf8Error(std::string::FromUtf8Error);

/// The bytes that `base64::decode` gives for `text`, or `None` where it
/// rejects `text`.
pub uninterp spec fn base64_decoded(text: Seq<char>) -> Option<Seq<u8>>;

/// The text that a raw deflate stream `bytes` inflates to, or `None` where
/// the stream is corrupt or does not hold UTF-8.
pub uninterp spec fn inflated(bytes: Seq<u8>) -> Option<Seq<char>>;

/// The text that `urlencoding::decode` gives for `text`, or `None` where
/// the decoded bytes are not UTF-8.
pub uninterp spec fn percent_decoded(text: Seq<char>) -> Option<Seq<char>>;

/// Calls `base64::decode`, which decodes the standard alphabet with
/// padding. The result depends on `text` alone.
#[verifier::external_body]
pub(crate) fn base64_decode(text: &str) -> (r: Result<Vec<u8>, base64::DecodeError>)
    ensures
        r matches Ok(bytes) ==> base64_decoded(text@) == Some(bytes@),
        r is Err ==> base64_decoded(text@) is None,
{
    base64::decode(text)
}

/// Reads a `flate2::read::DeflateDecoder` over `bytes` to its end, as text.
/// The result depends on `bytes` alone.
#[verifier::external_body]
pub(crate) fn inflate(bytes: &Vec<u8>) -> (r: Result<String, std::io::Error>)
    ensures
        r matches Ok(text) ==> inflated(bytes@) == Some(text@),
        r is Err ==> inflated(bytes@) is None,
{
    let mut text = String::new();
    let mut decoder = flate2::read::DeflateDecoder::new(bytes.as_slice());
    std::io::Read::read_to_string(&mut decoder, &mut text)?;
    Ok(text)
}

/// Calls `urlencoding::decode`, which replaces each `%` followed by two
/// hexadecimal digits by the byte they write. The result depends on `text`
/// alone.
#[verifier::external_body]
pub(crate) fn percent_decode(text: &str) -> (r: Result<String, std::string::FromUtf8Error>)
    ensures
        r matches Ok(decoded) ==> percent_decoded(text@) == Some(decoded@),
        r is Err ==> percent_decoded(text@) is None,
{
    urlencoding::decode(text).map(|decoded| decoded.into_owned())
}

} // verus!
