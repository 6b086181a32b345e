//! Texts packed with gzip and base64, and times written out.

use vstd::prelude::*;
use crate::text::opt_text;

verus! {

/// The gzip stream that `flate2::write::GzEncoder` makes of a text.
pub uninterp spec fn gzipped(s: Seq<char>) -> Option<Seq<u8>>;

/// The text that `flate2::read::GzDecoder` reads from a gzip stream; `None` where the bytes are no
/// such stream or hold no text.
pub uninterp spec fn gunzipped(bytes: Seq<u8>) -> Option<Seq<char>>;

/// Writes the bytes of a text to a `flate2::write::GzEncoder` with the default level and finishes
/// the stream: the same bytes for the same text every time. `flate2::read::GzDecoder` reads the
/// text back from them.
#[verifier::external_body]
fn gzip(s: &str) -> (r: Option<Vec<u8>>)
    ensures
        match r {
            Some(v) => gzipped(s@) == Some(v@) && gunzipped(v@) == Some(s@),
            None => gzipped(s@) is None,
        },
{
    let mut encoder = flate2::write::GzEncoder::new(Vec::new(), flate2::Compression::default());
    std::io::Write::write_all(&mut encoder, s.as_bytes()).ok()?;
    encoder.finish().ok()
}

/// Reads a text from a `flate2::read::GzDecoder` to its end: the same text for the same bytes every
/// time.
#[verifier::external_body]
fn gunzip(bytes: &[u8]) -> (r: Option<String>)
    ensures
        opt_text(r) == gunzipped(bytes@),
{
    let mut out = String::new();
    std::io::Read::read_to_string(&mut flate2::read::GzDecoder::new(bytes), &mut out).ok()?;
    Some(out)
}

/// What `base64`'s standard engine writes for bytes.
pub uninterp spec fn base64_text(bytes: Seq<u8>) -> Seq<char>;

/// The bytes that `base64`'s standard engine reads from a text, if it reads any.
pub uninterp spec fn base64_bytes(s: Seq<char>) -> Option<Seq<u8>>;

/// `encode` of `base64`'s standard engine, whose `decode` reads the bytes back.
#[verifier::external_body]
fn base64_encode(bytes: &[u8]) -> (r: String)
    ensures
        r@ == base64_text(bytes@),
        base64_bytes(r@) == Some(bytes@),
{
    base64::Engine::encode(&base64::engine::general_purpose::STANDARD, bytes)
}

/// `decode` of `base64`'s standard engine.
#[verifier::external_body]
fn base64_decode(s: &str) -> (r: Option<Vec<u8>>)
    ensures
        base64_bytes(s@) == match r {
            Some(v) => Some(v@),
            None => None,
        },
{
    base64::Engine::decode(&base64::engine::general_purpose::STANDARD, s).ok()
}

/// A text packed: its gzip stream in base64.
pub open spec fn packed(s: Seq<char>) -> Option<Seq<char>> {
    match gzipped(s) {
        Some(v) => Some(base64_text(v)),
        None => None,
    }
}

/// The text that a packed one holds, if it holds one.
pub open spec fn unpacked(s: Seq<char>) -> Option<Seq<char>> {
    match base64_bytes(s) {
        Some(v) => gunzipped(v),
        None => None,
    }
}

/// Packs a text. What comes out can be unpacked again.
pub fn pack(s: &str) -> (r: Option<String>)
    ensures
        opt_text(r) == packed(s@),
        r matches Some(t) ==> unpacked(t@) == Some(s@),
{
    match gzip(s) {
        Some(v) => Some(base64_encode(&v)),
        None => None,
    }
}

/// The text that a packed one holds, if it holds one.
pub fn decompress_b64(s: &str) -> (r: Option<String>)
    ensures
        opt_text(r) == unpacked(s@),
{
    match base64_decode(s) {
        Some(v) => gunzip(&v),
        None => None,
    }
}

/// What `chrono::DateTime::format` writes for a time in UTC, given in seconds since 1970; `None`
/// where `chrono::DateTime::from_timestamp` knows no such time.
pub uninterp spec fn utc_format(seconds: i64, format: Seq<char>) -> Option<Seq<char>>;

/// The format of the times in file names.
pub open spec fn name_format() -> Seq<char> {
    "%Y%m%dT%H%M%SZ"@
}

/// The format of the times in lists.
pub open spec fn list_format() -> Seq<char> {
    "%m-%d %H:%M:%S"@
}

/// Calls `chrono::DateTime::from_timestamp` and `format` with one of the formats used here: the
/// same text for the same time and format every time.
#[verifier::external_body]
fn format_utc(seconds: i64, format: &str) -> (r: Option<String>)
    requires
        format@ == name_format() || format@ == list_format(),
    ensures
        opt_text(r) == utc_format(seconds, format@),
{
    let time = chrono::DateTime::<chrono::Utc>::from_timestamp(seconds, 0)?;
    Some(time.format(format).to_string())
}

/// A time in UTC as it stands in file names.
pub fn name_stamp(seconds: i64) -> (r: Option<String>)
    ensures
        opt_text(r) == utc_format(seconds, name_format()),
{
    format_utc(seconds, "%Y%m%dT%H%M%SZ")
}

/// A time in UTC as it stands in lists.
pub fn list_stamp(seconds: i64) -> (r: Option<String>)
    ensures
        opt_text(r) == utc_format(seconds, list_format()),
{
    format_utc(seconds, "%m-%d %H:%M:%S")
}

} // verus!
