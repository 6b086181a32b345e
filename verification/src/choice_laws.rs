//! How tools choose between ways of doing something, said of what they are given.

use vstd::prelude::*;
use crate::path::path_extension;
use crate::ranges::{Position, SourceRange};
use crate::text::{lines, occurs, trimmed, without_char};
use crate::wcc::{cargo_words, chosen, for_release};
use crate::wcgv::{
    position_of, range_of, symbol_ranges, visibility_of, PositionModel, RangeModel, SymbolError, SymbolModel,
};
use crate::wcgv_edges::{closest, encloses};
use crate::wcl::{function_on, keeps_function};
use crate::wcl_laws::law_function_has_its_lines;
use crate::wcm::{codec, Codec};
use crate::wcu::settled;
use crate::wcz::absolute;

verus! {

/// A function is listed where it goes on behind its first line and has as many lines as asked for;
/// what is listed when more lines are asked for is listed when fewer are.
pub proof fn law_which_functions_are_listed(
    ls: Seq<Seq<char>>,
    i: int,
    ext: Seq<char>,
    name: Seq<char>,
    min_lines: nat,
    fewer: nat,
)
    requires
        0 <= i < ls.len(),
        without_char(ls, '\n'),
        fewer <= min_lines,
    ensures
        ({
            let f = function_on(ls, i, ext, name);
            keeps_function(ls, i, ext, min_lines) <==> f.end_line > f.start_line && f.end_line - f.start_line
                >= min_lines
        }),
        keeps_function(ls, i, ext, min_lines) ==> keeps_function(ls, i, ext, fewer),
{
    law_function_has_its_lines(ls, i, ext, name);
}

/// What encloses a position stands in its file.
pub proof fn law_closest_is_of_the_file(
    nodes: Seq<crate::wcgv::SymbolNode>,
    path: Seq<char>,
    line: int,
    col: int,
    k: int,
)
    requires
        encloses(nodes, path, line, col, k),
    ensures
        nodes[k].path@ == path,
        nodes[k].full_range.start.line <= line <= nodes[k].full_range.end.line,
        closest(nodes, path, line, col) is Some,
{
}

/// A build is for release where that is asked for, and where nothing is asked for and release is
/// configured; never where debugging is asked for alone.
pub proof fn law_which_build(debug: bool, mode: Seq<char>)
    ensures
        for_release(true, debug, mode),
        !for_release(false, true, mode),
        for_release(false, false, mode) <==> mode == "release"@,
{
}

/// The arguments of `cargo` begin with what it does and end with those that were given; `--release`
/// stands between them for a release and nothing does otherwise.
pub proof fn law_cargo_words(verb: Seq<char>, args: Seq<Seq<char>>)
    ensures
        ({
            let plain = cargo_words(verb, false, args);
            let release = cargo_words(verb, true, args);
            &&& plain.len() == args.len() + 1
            &&& release.len() == args.len() + 2
            &&& plain[0] == verb
            &&& release[0] == verb
            &&& release[1] == "--release"@
            &&& plain.skip(1) == args
            &&& release.skip(2) == args
        }),
{
    assert(cargo_words(verb, false, args).skip(1) =~= args);
    assert(cargo_words(verb, true, args).skip(2) =~= args);
}

/// What is chosen is the last line that was printed, without the white space around it; nothing is
/// chosen where that is blank or the choice was broken off.
pub proof fn law_last_line_is_chosen(code: Option<i32>, printed: Seq<char>)
    ensures
        chosen(Some(130i32), printed) is None,
        lines(printed).len() == 0 ==> chosen(code, printed) is None,
        lines(printed).len() > 0 && trimmed(lines(printed).last()).len() == 0 ==> chosen(code, printed) is None,
        lines(printed).len() > 0 && trimmed(lines(printed).last()).len() > 0 && code != Some(130i32) ==> chosen(
            code,
            printed,
        ) == Some(trimmed(lines(printed).last())),
{
}

/// An absolute path stays as it is; any other one stands behind the current directory.
pub proof fn law_absolute(path: Seq<char>, current: Seq<char>)
    requires
        current.len() > 0,
        current.last() != '/',
    ensures
        "/"@.is_prefix_of(path) ==> absolute(path, current) == path,
        !"/"@.is_prefix_of(path) ==> absolute(path, current) == current + "/"@ + path,
        !"/"@.is_prefix_of(path) ==> absolute(path, current + "/"@) == current + "/"@ + path,
{
    reveal_strlit("/");
    assert((current + "/"@).last() == '/');
}

/// How a file is packed depends on its extension alone.
pub proof fn law_codec(a: Seq<char>, b: Seq<char>)
    ensures
        path_extension(a) == path_extension(b) ==> codec(a) == codec(b),
        path_extension(a) == Some("gz"@) <==> codec(a) == Codec::Gzip,
        path_extension(a) == Some("lz4"@) <==> codec(a) == Codec::Lz4,
        path_extension(a) is None ==> codec(a) == Codec::Plain,
{
    reveal_strlit("gz");
    reveal_strlit("lz4");
    assert("gz"@.len() == 2 && "lz4"@.len() == 3);
}

/// A selection stays where it is as long as the list reaches it, and is else the last entry.
pub proof fn law_settled(selected: usize, len: usize)
    ensures
        selected < len ==> settled(selected, len) == selected,
        0 < len <= selected ==> settled(selected, len) + 1 == len,
        len == 0 ==> settled(selected, len) == 0,
{
}

/// A reported position is one line further on, counted from one, in the same column; what is not
/// reported counts as zero.
pub proof fn law_position(line: u64, column: u64)
    requires
        line < u64::MAX,
    ensures
        position_of(PositionModel { line: Some(line), character: Some(column) }).line == line + 1,
        position_of(PositionModel { line: Some(line), character: Some(column) }).column == column,
        position_of(PositionModel { line: None, character: None }) == (Position { line: 1, column: 0 }),
{
}

/// A range has the positions of its ends; it is refused where one of them is missing.
pub proof fn law_range(a: PositionModel, b: PositionModel)
    ensures
        range_of(RangeModel { start: Some(a), end: Some(b) }) matches Ok(r) && r.start == position_of(a) && r.end
            == position_of(b),
        range_of(RangeModel { start: None, end: Some(b) }) == Err::<SourceRange, SymbolError>(SymbolError::RangeStart),
        range_of(RangeModel { start: Some(a), end: None }) == Err::<SourceRange, SymbolError>(SymbolError::RangeEnd),
{
}

/// A symbol without a range for its name has its whole range for it; one without a whole range is
/// refused.
pub proof fn law_symbol_ranges(sym: SymbolModel, whole: RangeModel, name: RangeModel)
    ensures
        sym.range is None ==> symbol_ranges(sym) is Err,
        sym.range == Some(whole) && range_of(whole) is Ok && sym.selection_range is None ==> symbol_ranges(sym)
            == Ok::<(SourceRange, SourceRange), SymbolError>((range_of(whole)->Ok_0, range_of(whole)->Ok_0)),
        sym.range == Some(whole) && range_of(whole) is Ok && sym.selection_range == Some(name) && range_of(name) is Ok
            ==> symbol_ranges(sym) == Ok::<(SourceRange, SourceRange), SymbolError>(
            (range_of(whole)->Ok_0, range_of(name)->Ok_0),
        ),
        sym.range == Some(whole) && range_of(whole) is Err ==> symbol_ranges(sym) is Err,
        sym.range is Some && sym.selection_range == Some(name) && range_of(name) is Err ==> symbol_ranges(sym) is Err,
{
}

/// A symbol is public where its signature says `pub`, and private in all other cases.
pub proof fn law_visibility(sig: Seq<char>)
    ensures
        visibility_of(None) == "private"@,
        occurs(sig, "pub"@) ==> visibility_of(Some(sig)) == "public"@,
        !occurs(sig, "pub"@) ==> visibility_of(Some(sig)) == "private"@,
{
}

} // verus!
