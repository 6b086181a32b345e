//! File URIs.

use vstd::prelude::*;
use crate::text::opt_text;

verus! {

/// The URI that `url::Url::from_file_path` makes of a path on Unix, if it makes one.
pub uninterp spec fn uri_of_path(path: Seq<char>) -> Option<Seq<char>>;

/// Calls `url::Url::from_file_path` and writes the URI out. The path is percent-encoded part by
/// part; a path that is not absolute has no URI.
#[verifier::external_body]
fn from_file_path(path: &str) -> (r: Option<String>)
    ensures
        opt_text(r) == uri_of_path(path@),
{
    url::Url::from_file_path(path).ok().map(|u| u.to_string())
}

/// The path that `url::Url::to_file_path` gives on Unix for the URI that `url::Url::parse` reads,
/// if both succeed.
pub uninterp spec fn path_of_uri(uri: Seq<char>) -> Option<Seq<char>>;

/// Calls `url::Url::parse` and then `url::Url::to_file_path`; bytes of the path that are no text
/// are replaced.
#[verifier::external_body]
fn to_file_path(uri: &str) -> (r: Option<String>)
    ensures
        opt_text(r) == path_of_uri(uri@),
{
    let url = url::Url::parse(uri).ok()?;
    url.to_file_path().ok().map(|p| p.to_string_lossy().into_owned())
}

/// The URI of an absolute path, or why there is none.
pub open spec fn uri_result(
    path: Seq<char>,
    uri: Option<Seq<char>>,
) -> Result<Seq<char>, Seq<char>> {
    match uri {
        Some(u) => Ok(u),
        None => Err("failed to convert path to URI: "@ + path),
    }
}

/// What a conversion of `path` that gave `uri` comes to.
pub fn checked_uri(path: &str, uri: Option<String>) -> (r: Result<String, String>)
    ensures
        match r {
            Ok(u) => uri_result(path@, opt_text(uri)) == Ok::<Seq<char>, Seq<char>>(u@),
            Err(e) => uri_result(path@, opt_text(uri)) == Err::<Seq<char>, Seq<char>>(e@),
        },
{
    match uri {
        Some(u) => Ok(u),
        None => {
            let mut e: String = "failed to convert path to URI: ".to_owned();
            e.append(path);
            Err(e)
        },
    }
}

/// The URI of an absolute path, or why there is none.
pub fn path_to_uri(path: &str) -> (r: Result<String, String>)
    ensures
        match r {
            Ok(u) => uri_result(path@, uri_of_path(path@)) == Ok::<Seq<char>, Seq<char>>(u@),
            Err(e) => uri_result(path@, uri_of_path(path@)) == Err::<Seq<char>, Seq<char>>(e@),
        },
{
    checked_uri(path, from_file_path(path))
}

/// The path that a URI names, if it is one of a file.
pub fn uri_to_path(uri: &str) -> (r: Option<String>)
    ensures
        opt_text(r) == path_of_uri(uri@),
{
    to_file_path(uri)
}

} // verus!
