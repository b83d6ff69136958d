//! Uploaded image data: a data URL whose payload, after the first comma, is
//! standard base64.

use crate::text::chars_of;
use vstd::prelude::*;
use vstd::string::*;

verus! {

#[verifier::external_type_specification]
#[verifier::external_body]
pub struct ExDecodeError(base64::DecodeError);

/// The bytes that a standard base64 text encodes, if it is one.
pub uninterp spec fn base64_decoded(text: Seq<char>) -> Option<Seq<u8>>;

/// Relies on base64's `Engine::decode` with the padded standard engine: the
/// bytes that the text encodes, or an error where it is no such encoding;
/// the outcome depends on the text alone.
#[verifier::external_body]
fn decode_base64(text: &str) -> (r: Result<Vec<u8>, base64::DecodeError>)
    ensures
        match r {
            Ok(b) => base64_decoded(text@) == Some(b@),
            Err(_) => base64_decoded(text@) is None,
        },
{
    base64::Engine::decode(&base64::engine::general_purpose::STANDARD, text)
}

/// Why uploaded image data was refused.
#[derive(Debug, Clone, Copy, PartialEq, Eq, Structural)]
pub enum ImageDataError {
    /// The data holds no comma, so no payload.
    MissingPayload,
    /// The payload is not standard base64.
    InvalidBase64,
}

/// First comma at or after `from`, or the end of `s`.
pub open spec fn next_comma(s: Seq<char>, from: int) -> int
    decreases s.len() - from,
{
    if from >= s.len() || s[from] == ',' {
        from
    } else {
        next_comma(s, from + 1)
    }
}

/// The text between the first comma and the next one (or the end).
pub open spec fn payload_of(s: Seq<char>) -> Option<Seq<char>> {
    let c = next_comma(s, 0);
    if c >= s.len() {
        None
    } else {
        Some(s.subrange(c + 1, next_comma(s, c + 1)))
    }
}

fn find_comma(cs: &Vec<char>, from: usize) -> (r: usize)
    requires
        from <= cs.len(),
    ensures
        r == next_comma(cs@, from as int),
        from <= r <= cs.len(),
{
    let mut k = from;
    while k < cs.len() && cs[k] != ','
        invariant
            from <= k <= cs.len(),
            next_comma(cs@, from as int) == next_comma(cs@, k as int),
        decreases cs.len() - k,
    {
        k = k + 1;
    }
    k
}

/// The bytes of an uploaded image, given as a data URL.
pub fn decode_image_data(data: &str) -> (r: Result<Vec<u8>, ImageDataError>)
    ensures
        match payload_of(data@) {
            None => r == Err::<Vec<u8>, ImageDataError>(ImageDataError::MissingPayload),
            Some(p) => match base64_decoded(p) {
                Some(b) => r matches Ok(v) && v@ == b,
                None => r == Err::<Vec<u8>, ImageDataError>(ImageDataError::InvalidBase64),
            },
        },
{
    let cs = chars_of(data);
    let c = find_comma(&cs, 0);
    if c >= cs.len() {
        return Err(ImageDataError::MissingPayload);
    }
    let end = find_comma(&cs, c + 1);
    let payload = data.substring_char(c + 1, end);
    match decode_base64(payload) {
        Ok(bytes) => Ok(bytes),
        Err(_) => Err(ImageDataError::InvalidBase64),
    }
}

} // verus!
