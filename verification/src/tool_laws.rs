//! What the tools show and choose, said of what they are given.

use vstd::prelude::*;
use crate::common::{hue_color, Palette};
use crate::path::{name_of, path_extension};
use crate::sieve::{is_sieved, lemma_sieve_more, lemma_sieve_nothing};
use crate::text::{dec, padded_left, padded_right, without_start};
use crate::told::{are_told, lemma_told_more, lemma_told_nothing};
use crate::unicode::lowercase;
use crate::wcg::{CodeGraph, FunctionInfo, ImplInfo, StructInfo, TraitInfo};
use crate::wcg_report::{function_paths, impl_paths, imports_part, lost_count, struct_paths, trait_paths};
use crate::wcgv::SymbolNode;
use crate::wcgv_impls::{all_impl_edges, impl_edges, impl_symbol, ImplNode};
use crate::wcgv_laws::{lemma_stands_further, lemma_stands_last, stands_in};
use crate::wcm::match_text;
use crate::wcs::is_processed;
use crate::wff::{listed, CodeBlockInfo};

verus! {

/// Colours whose hues lie a third of the circle apart have the same components, one place further.
pub proof fn law_hues_go_round(palette: Palette, hue: int)
    requires
        palette != Palette::Function,
        0 <= hue < 240,
    ensures
        hue_color(palette, hue + 120) == (
            hue_color(palette, hue).2,
            hue_color(palette, hue).0,
            hue_color(palette, hue).1,
        ),
{
    assert((hue + 120) % 120 == hue % 120);
}

/// A pattern chooses the files whose names end as it says behind its asterisks; without one a file is
/// chosen by its extension in small letters.
pub proof fn law_what_is_processed(
    path: Seq<char>,
    name: Seq<char>,
    extensions: Seq<Seq<char>>,
    end: Seq<char>,
    e: Seq<char>,
)
    requires
        name_of(path) == Some(name),
        end.len() == 0 || end[0] != '*',
    ensures
        is_processed(path, extensions, Some(seq!['*'] + end)) <==> end.is_suffix_of(name),
        is_processed(path, extensions, Some(end)) <==> end.is_suffix_of(name),
        path_extension(path) == Some(e) ==> (is_processed(path, extensions, None) <==> extensions.contains(
            lowercase(e),
        )),
        path_extension(path) is None ==> (is_processed(path, extensions, None) <==> exists|i: int|
            0 <= i < extensions.len() && (lowercase(name) == lowercase(#[trigger] extensions[i]) || "."@ + lowercase(
                name,
            ) == lowercase(extensions[i]))),
{
    let p = seq!['*'] + end;
    assert(p.drop_first() =~= end);
    reveal_with_fuel(without_start, 3);
    assert(without_start(p, '*') == end);
    if path_extension(path) is None && is_processed(path, extensions, None) {
        let i = choose|i: int|
            0 <= i < extensions.len() && crate::wcs::names_entry(name, #[trigger] extensions[i]);
        assert(lowercase(name) == lowercase(extensions[i]) || "."@ + lowercase(name) == lowercase(extensions[i]));
    }
    if path_extension(path) is None && exists|i: int|
        0 <= i < extensions.len() && (lowercase(name) == lowercase(#[trigger] extensions[i]) || "."@ + lowercase(
            name,
        ) == lowercase(extensions[i])) {
        let i = choose|i: int|
            0 <= i < extensions.len() && (lowercase(name) == lowercase(#[trigger] extensions[i]) || "."@ + lowercase(
                name,
            ) == lowercase(extensions[i]));
        assert(crate::wcs::names_entry(name, extensions[i]));
    }
}

/// A line that holds what is looked for is printed behind its file and number, on a line of its own.
pub proof fn law_match_is_printed(path: Seq<char>, line_no: nat, line: Seq<char>)
    ensures
        (path + ":"@ + dec(line_no) + ":"@ + line).is_prefix_of(match_text(path, line_no, line)),
        match_text(path, line_no, line).last() == '\n',
        match_text(path, line_no, line).len() <= path.len() + dec(line_no).len() + line.len() + 3,
{
    reveal_strlit("\n");
    reveal_strlit(":");
    let head = path + ":"@ + dec(line_no) + ":"@ + line;
    let t = match_text(path, line_no, line);
    assert(head =~= t.subrange(0, head.len() as int));
    if "\n"@.is_suffix_of(line) {
        assert(line.subrange(line.len() - 1, line.len() as int)[0] == '\n');
    }
}

/// A text that is padded is as wide as was asked for, or as it was; it stays in front, or behind, of
/// blanks alone.
pub proof fn law_padded(s: Seq<char>, width: nat)
    ensures
        padded_right(s, width).len() == (if s.len() < width {
            width
        } else {
            s.len()
        }),
        padded_left(s, width).len() == padded_right(s, width).len(),
        s.is_prefix_of(padded_right(s, width)),
        s.is_suffix_of(padded_left(s, width)),
        forall|i: int| s.len() <= i < padded_right(s, width).len() ==> #[trigger] padded_right(s, width)[i] == ' ',
        forall|i: int|
            0 <= i < padded_left(s, width).len() - s.len() ==> #[trigger] padded_left(s, width)[i] == ' ',
{
    let l = padded_left(s, width);
    let r = padded_right(s, width);
    assert(s =~= r.subrange(0, s.len() as int));
    assert(s =~= l.subrange(l.len() - s.len(), l.len() as int));
}

/// The blocks that are listed stand one on a line, in order.
pub proof fn law_blocks_are_listed(v: Seq<CodeBlockInfo>)
    ensures
        are_told(v, listed(v), |b: CodeBlockInfo| "  • "@ + b.display() + "\n"@),
    decreases v.len(),
{
    let row = |b: CodeBlockInfo| "  • "@ + b.display() + "\n"@;
    if v.len() == 0 {
        lemma_told_nothing(v, listed(v), row);
    } else {
        let d = v.drop_last();
        law_blocks_are_listed(d);
        assert(listed(v) =~= listed(d) + row(v.last()));
        lemma_told_more(v, listed(d), listed(v), row);
    }
}

/// The calls that cannot be resolved are counted over all functions.
pub proof fn law_lost_calls_add_up(a: Seq<Vec<String>>, b: Seq<Vec<String>>)
    ensures
        lost_count(a + b) == lost_count(a) + lost_count(b),
        b.len() == 1 ==> lost_count(b) == b[0]@.len(),
    decreases b.len(),
{
    if b.len() == 0 {
        assert(a + b =~= a);
    } else {
        let d = b.drop_last();
        law_lost_calls_add_up(a, d);
        assert((a + b).drop_last() =~= a + d);
        assert((a + b).last() == b.last());
        if b.len() == 1 {
            assert(lost_count(d) == 0);
        }
    }
}

/// The imports of a file are shown once: before the first item of it, and not again.
pub proof fn law_imports_are_shown_once(g: CodeGraph, root: Seq<char>, seen: Seq<Seq<char>>, path: Seq<char>)
    ensures
        seen.contains(path) ==> imports_part(g, root, seen, path).len() == 0,
        !seen.contains(path) ==> imports_part(g, root, seen, path) == g.imports_text(path, root),
{
}

/// The files of the structs are those of all of them, in order.
pub proof fn law_struct_paths(v: Seq<StructInfo>)
    ensures
        struct_paths(v).len() == v.len(),
        forall|i: int| 0 <= i < v.len() ==> #[trigger] struct_paths(v)[i] == v[i].path@,
    decreases v.len(),
{
    if v.len() > 0 {
        law_struct_paths(v.drop_last());
        assert forall|i: int| 0 <= i < v.len() implies #[trigger] struct_paths(v)[i] == v[i].path@ by {
            if i < v.len() - 1 {
                assert(struct_paths(v)[i] == struct_paths(v.drop_last())[i]);
            }
        }
    }
}

/// The files of the traits are those of all of them, in order.
pub proof fn law_trait_paths(v: Seq<TraitInfo>)
    ensures
        trait_paths(v).len() == v.len(),
        forall|i: int| 0 <= i < v.len() ==> #[trigger] trait_paths(v)[i] == v[i].path@,
    decreases v.len(),
{
    if v.len() > 0 {
        law_trait_paths(v.drop_last());
        assert forall|i: int| 0 <= i < v.len() implies #[trigger] trait_paths(v)[i] == v[i].path@ by {
            if i < v.len() - 1 {
                assert(trait_paths(v)[i] == trait_paths(v.drop_last())[i]);
            }
        }
    }
}

/// The files of the functions are those of all that stand outside any implementation, in order.
pub proof fn law_function_paths(v: Seq<FunctionInfo>)
    ensures
        is_sieved(v, function_paths(v), |f: FunctionInfo| f.in_impl is None, |f: FunctionInfo| f.path@),
    decreases v.len(),
{
    let keep = |f: FunctionInfo| f.in_impl is None;
    let give = |f: FunctionInfo| f.path@;
    if v.len() == 0 {
        lemma_sieve_nothing(v, function_paths(v), keep, give);
    } else {
        let d = v.drop_last();
        law_function_paths(d);
        lemma_sieve_more(v, function_paths(d), function_paths(v), keep, give);
    }
}

/// The files of the implementations are those of all of them, in order.
pub proof fn law_impl_paths(v: Seq<ImplInfo>)
    ensures
        impl_paths(v).len() == v.len(),
        forall|i: int| 0 <= i < v.len() ==> #[trigger] impl_paths(v)[i] == v[i].path@,
    decreases v.len(),
{
    if v.len() > 0 {
        law_impl_paths(v.drop_last());
        assert forall|i: int| 0 <= i < v.len() implies #[trigger] impl_paths(v)[i] == v[i].path@ by {
            if i < v.len() - 1 {
                assert(impl_paths(v)[i] == impl_paths(v.drop_last())[i]);
            }
        }
    }
}

/// Each implementation adds its own edges, to its type and to its methods.
pub proof fn law_every_impl_adds_its_edges(nodes: Seq<SymbolNode>, impls: Seq<ImplNode>, n: int, i: int)
    requires
        0 <= i < n <= impls.len(),
    ensures
        stands_in(impl_edges(nodes, impls[i]), all_impl_edges(nodes, impls, n)),
    decreases n,
{
    let earlier = all_impl_edges(nodes, impls, n - 1);
    let last = impl_edges(nodes, impls[n - 1]);
    if i == n - 1 {
        lemma_stands_last(earlier, last);
    } else {
        law_every_impl_adds_its_edges(nodes, impls, n - 1, i);
        lemma_stands_further(impl_edges(nodes, impls[i]), earlier, last);
    }
}

/// The symbol that an implementation becomes has its key, file and ranges, and is named after its
/// type, and its trait where it has one.
pub proof fn law_impl_symbol(i: ImplNode)
    ensures
        ({
            let s = impl_symbol(i);
            &&& s.key == i.key@
            &&& s.path == i.path@
            &&& s.full_range == i.full_range
            &&& s.selection_range == i.selection_range
            &&& s.kind == "impl"@
            &&& "impl "@.is_prefix_of(s.label)
            &&& i.target_label@.is_suffix_of(s.label)
            &&& s.signature == Some(s.label)
            &&& i.trait_label is None ==> s.label == "impl "@ + i.target_label@
            &&& i.trait_label is Some ==> s.label == "impl "@ + i.trait_label->0@ + " for "@ + i.target_label@
        }),
{
    let l = impl_symbol(i).label;
    let t = i.target_label@;
    assert("impl "@ =~= l.subrange(0, "impl "@.len() as int));
    assert(t =~= l.subrange(l.len() - t.len(), l.len() as int));
}

} // verus!
