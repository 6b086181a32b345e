//! Searching files, packed ones too.

use vstd::prelude::*;
use crate::path::{extension, path_extension};
use crate::text::{contains, dec, decimal, ends_with, occurs, opt_text, same};

verus! {

/// How a file is packed.
#[derive(Debug, Clone, Copy, PartialEq, Eq, Structural)]
pub enum Codec {
    Lz4,
    Gzip,
    Plain,
}

/// How a file is packed, by its extension.
pub open spec fn codec(path: Seq<char>) -> Codec {
    if path_extension(path) == Some("lz4"@) {
        Codec::Lz4
    } else if path_extension(path) == Some("gz"@) {
        Codec::Gzip
    } else {
        Codec::Plain
    }
}

/// How a file is packed, by its extension.
pub fn codec_of(path: &str) -> (r: Codec)
    ensures
        r == codec(path@),
{
    match extension(path) {
        Some(e) => if same(e.as_str(), "lz4") {
            Codec::Lz4
        } else if same(e.as_str(), "gz") {
            Codec::Gzip
        } else {
            Codec::Plain
        },
        None => Codec::Plain,
    }
}

/// What is printed of a line: where it stands and the line, on a line of its own.
pub open spec fn match_text(path: Seq<char>, line_no: nat, line: Seq<char>) -> Seq<char> {
    path + ":"@ + dec(line_no) + ":"@ + line + if "\n"@.is_suffix_of(line) {
        Seq::empty()
    } else {
        "\n"@
    }
}

/// What is printed of a line, which may end in a line feed: where it stands and the line, if it
/// holds the text that is looked for.
pub fn search_line(path: &str, line_no: u64, line: &str, needle: &str) -> (r: Option<String>)
    ensures
        opt_text(r) == if occurs(line@, needle@) {
            Some(match_text(path@, line_no as nat, line@))
        } else {
            None
        },
{
    if !contains(line, needle) {
        return None;
    }
    let mut end: String = String::new();
    if !ends_with(line, "\n") {
        end = "\n".to_owned();
    }
    let mut out: String = path.to_owned();
    out.append(":");
    out.append(decimal(line_no).as_str());
    out.append(":");
    out.append(line);
    out.append(end.as_str());
    Some(out)
}

} // verus!
