//! Decoding entry names stored as raw bytes.

use vstd::prelude::*;

use vstd::utf8::{decode_utf8, valid_utf8};

use crate::text::{chars_of, string_of, suffix_from};

verus! {

/// Relies on `std::str::from_utf8`: the text when the bytes are valid
/// UTF-8, none otherwise.
#[verifier::external_body]
fn utf8_text(raw: &Vec<u8>) -> (r: Option<String>)
    ensures
        r is Some <==> valid_utf8(raw@),
        r matches Some(s) ==> s@ == decode_utf8(raw@),
{
    std::str::from_utf8(raw.as_slice()).ok().map(|s| s.to_string())
}

pub uninterp spec fn nfc(s: Seq<char>) -> Seq<char>;

/// Relies on `unicode_normalization::UnicodeNormalization::nfc`: the
/// canonical composition (NFC) of the text.
#[verifier::external_body]
pub(crate) fn to_nfc(s: &str) -> (r: String)
    ensures
        r@ == nfc(s@),
{
    unicode_normalization::UnicodeNormalization::nfc(s).collect()
}

pub uninterp spec fn detected_text(raw: Seq<u8>) -> Seq<char>;

/// Relies on `chardetng::EncodingDetector` (ISO-2022-JP not considered, fed
/// the whole input, asked for its guess with no top-level domain and UTF-8
/// allowed) and on `encoding_rs::Encoding::decode` with the guessed
/// encoding: the result depends on the bytes alone.
#[verifier::external_body]
fn detect_and_decode(raw: &Vec<u8>) -> (r: String)
    ensures
        r@ == detected_text(raw@),
{
    let mut detector = chardetng::EncodingDetector::new(chardetng::Iso2022JpDetection::Deny);
    detector.feed(raw.as_slice(), true);
    let encoding = detector.guess(None, chardetng::Utf8Detection::Allow);
    encoding.decode(raw.as_slice()).0.into_owned()
}

/// The text that raw name bytes stand for, before normalisation: UTF-8 when
/// they are valid UTF-8, otherwise the guessed encoding.
pub open spec fn raw_text(raw: Seq<u8>) -> Seq<char> {
    if valid_utf8(raw) {
        decode_utf8(raw)
    } else {
        detected_text(raw)
    }
}

/// Decodes raw name bytes: as UTF-8 when they are valid UTF-8, otherwise
/// in the encoding that charset detection guesses; the text is then
/// NFC-normalised.
pub fn decode_string(raw: &Vec<u8>) -> (r: String)
    ensures
        r@ == nfc(raw_text(raw@)),
{
    match utf8_text(raw) {
        Some(s) => to_nfc(s.as_str()),
        None => {
            let d = detect_and_decode(raw);
            to_nfc(d.as_str())
        },
    }
}

/// `s` without a leading `./`.
pub open spec fn strip_dot_slash(s: Seq<char>) -> Seq<char> {
    if s.len() >= 2 && s[0] == '.' && s[1] == '/' {
        s.subrange(2, s.len() as int)
    } else {
        s
    }
}

/// The path of an archive entry from its raw bytes: decoded, normalised,
/// without a leading `./`.
pub fn decode_path(raw: &Vec<u8>) -> (r: String)
    ensures
        r@ == strip_dot_slash(nfc(raw_text(raw@))),
{
    let s = decode_string(raw);
    let c = chars_of(s.as_str());
    if c.len() >= 2 && c[0] == '.' && c[1] == '/' {
        string_of(&suffix_from(&c, 2))
    } else {
        s
    }
}

/// Whether a USTAR name may have been cut short: it fills the 100-byte
/// field or holds a NUL byte.
pub open spec fn name_unreliable(raw: Seq<u8>) -> bool {
    raw.len() >= 100 || exists|i: int| 0 <= i < raw.len() && raw[i] == 0
}

/// The bytes to take as a tar entry's path: the header's own name, or the
/// reader's full path when the name may have been cut short and that path
/// is known.
pub fn tar_path_bytes(raw: Vec<u8>, full: Option<Vec<u8>>) -> (r: Vec<u8>)
    ensures
        r@ == (if name_unreliable(raw@) && full is Some { full->Some_0@ } else { raw@ }),
{
    let mut unreliable = raw.len() >= 100;
    let mut i: usize = 0;
    while i < raw.len() && !unreliable
        invariant
            i <= raw@.len(),
            unreliable ==> name_unreliable(raw@),
            !unreliable ==> raw@.len() < 100 && forall|k: int| 0 <= k < i ==> raw@[k] != 0,
        decreases raw@.len() - i,
    {
        if raw[i] == 0 {
            unreliable = true;
        }
        i += 1;
    }
    if unreliable {
        match full {
            Some(f) => f,
            None => raw,
        }
    } else {
        raw
    }
}

} // verus!
