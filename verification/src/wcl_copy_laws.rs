//! What the analyser copies, said of the files.

use vstd::prelude::*;
use crate::path::relative;
use crate::text::{occurs, occurs_at};
use crate::wcl_copy::{
    bytes_of, can_copy, copied_file, copied_files, copied_text, copy_foot, copy_head, copy_mark, left_out,
    left_out_part, left_out_row, left_out_rows,
};
use crate::config::WclConfig;
use crate::wcl_report::{counted, totals, DirectoryStats, FileStats};
use crate::sieve::{is_sieved, lemma_sieve_more, lemma_sieve_nothing};

verus! {

/// A file that can be copied is left out exactly where it was not chosen; the files that are left
/// out come in their own order, each once.
pub proof fn law_rest_is_left_out(files: Seq<FileStats>, sel: Seq<int>, n: int)
    requires
        0 <= n <= files.len(),
    ensures
        ({
            let out = left_out(files, sel, n);
            &&& forall|i: int| #[trigger]
                out.contains(i) <==> 0 <= i < n && can_copy(files[i]) && !sel.contains(i)
            &&& forall|k: int, l: int| 0 <= k < l < out.len() ==> #[trigger] out[k] < #[trigger] out[l]
        }),
    decreases n,
{
    if n > 0 {
        law_rest_is_left_out(files, sel, n - 1);
        let out = left_out(files, sel, n);
        let earlier = left_out(files, sel, n - 1);
        let takes = can_copy(files[n - 1]) && !sel.contains(n - 1);
        assert forall|i: int| #[trigger] out.contains(i) <==> 0 <= i < n && can_copy(files[i]) && !sel.contains(
            i,
        ) by {
            if out.contains(i) {
                let k = choose|k: int| 0 <= k < out.len() && out[k] == i;
                if k < earlier.len() {
                    assert(earlier[k] == i);
                    assert(earlier.contains(i));
                }
            }
            if earlier.contains(i) {
                let k = choose|k: int| 0 <= k < earlier.len() && earlier[k] == i;
                assert(out[k] == i);
            }
            if takes && i == n - 1 {
                assert(out[earlier.len() as int] == i);
            }
        }
        assert forall|k: int, l: int| 0 <= k < l < out.len() implies #[trigger] out[k] < #[trigger] out[l] by {
            assert(out[k] == earlier[k]);
            assert(earlier.contains(earlier[k]));
            if l < earlier.len() {
                assert(out[l] == earlier[l]);
            }
        }
    } else {
        let out = left_out(files, sel, n);
        assert forall|i: int| !#[trigger] out.contains(i) by {}
    }
}

/// The chosen files are copied one after the other, those of two lists those of the first and then
/// those of the second.
pub proof fn law_chosen_files_are_copied(
    files: Seq<FileStats>,
    a: Seq<int>,
    b: Seq<int>,
    root: Seq<char>,
)
    ensures
        copied_files(files, a + b, root) == copied_files(files, a, root) + copied_files(files, b, root),
        bytes_of(files, a + b) == bytes_of(files, a) + bytes_of(files, b),
        b.len() == 1 ==> copied_files(files, b, root) == copied_file(files[b[0]], root) && bytes_of(files, b)
            == files[b[0]].bytes,
        b.len() == 0 ==> copied_files(files, b, root).len() == 0 && bytes_of(files, b) == 0,
    decreases b.len(),
{
    if b.len() == 0 {
        assert(a + b =~= a);
        assert(copied_files(files, a, root) + copied_files(files, b, root) =~= copied_files(files, a, root));
    } else {
        let d = b.drop_last();
        law_chosen_files_are_copied(files, a, d, root);
        assert((a + b).drop_last() =~= a + d);
        assert((a + b).last() == b.last());
        assert(copied_files(files, a + b, root) =~= copied_files(files, a, root) + copied_files(files, b, root));
        if b.len() == 1 {
            assert(copied_files(files, d, root) =~= Seq::<char>::empty());
            assert(copied_files(files, b, root) =~= copied_file(files[b[0]], root));
        }
    }
}

/// A copied file holds its whole content at its end, and begins with its path as seen from the
/// folder, behind the mark of a comment.
pub proof fn law_copied_file_is_whole(f: FileStats, root: Seq<char>, content: Seq<char>)
    requires
        f.content matches Some(c) && c@ == content,
    ensures
        (content + "\n\n"@).is_suffix_of(copied_file(f, root)),
        (copy_mark(f.path@) + " "@ + relative(f.path@, root) + "\n"@).is_prefix_of(copied_file(f, root)),
{
    let t = copied_file(f, root);
    let tail = content + "\n\n"@;
    let head = copy_mark(f.path@) + " "@ + relative(f.path@, root) + "\n"@;
    assert(tail =~= t.subrange(t.len() - tail.len(), t.len() as int));
    assert(head =~= t.subrange(0, head.len() as int));
}

/// Every row of the files that are left out is there, one after the other.
pub proof fn law_left_out_rows(
    files: Seq<FileStats>,
    a: Seq<int>,
    b: Seq<int>,
    root: Seq<char>,
    config: WclConfig,
)
    ensures
        left_out_rows(files, a + b, root, config) == left_out_rows(files, a, root, config) + left_out_rows(
            files,
            b,
            root,
            config,
        ),
        b.len() == 1 ==> left_out_rows(files, b, root, config) == left_out_row(files[b[0]], root, config),
    decreases b.len(),
{
    if b.len() == 0 {
        assert(a + b =~= a);
        assert(left_out_rows(files, a, root, config) + left_out_rows(files, b, root, config)
            =~= left_out_rows(files, a, root, config));
    } else {
        let d = b.drop_last();
        law_left_out_rows(files, a, d, root, config);
        assert((a + b).drop_last() =~= a + d);
        assert((a + b).last() == b.last());
        assert(left_out_rows(files, a + b, root, config) =~= left_out_rows(files, a, root, config)
            + left_out_rows(files, b, root, config));
        if b.len() == 1 {
            assert(left_out_rows(files, d, root, config) =~= Seq::<char>::empty());
            assert(left_out_rows(files, b, root, config) =~= left_out_row(files[b[0]], root, config));
        }
    }
}

/// What is copied holds the copied files before the list of those that are left out, between its
/// head and its end.
pub proof fn law_copied_text_holds_all(d: DirectoryStats, sel: Seq<int>, root: Seq<char>, config: WclConfig)
    requires
        sel.len() > 0,
    ensures
        occurs(copied_text(d, sel, root, config), copied_files(d.file_stats@, sel, root)),
{
    let files = d.file_stats@;
    let rest = left_out(files, sel, files.len() as int);
    let max = config.max_clipboard_bytes as nat;
    let t = copied_text(d, sel, root, config);
    let h = copy_head(d, max) + "// 📁 COPIED FILES (full content):\n// "@ + crate::text::repeated('-', 60) + "\n"@;
    let c = copied_files(files, sel, root);
    let foot = left_out_part(files, rest, root, config) + copy_foot(
        d,
        sel.len(),
        bytes_of(files, sel),
        max,
        rest.len(),
    );
    assert(t =~= h + c + foot);
    assert(t.subrange(h.len() as int, (h.len() + c.len()) as int) =~= c);
    assert(occurs_at(t, c, h.len() as int));
}

/// The files that count are all that were read and are not empty, or all that were read where empty
/// ones are asked for, in order.
pub proof fn law_files_that_count(files: Seq<FileStats>, show_empty: bool)
    ensures
        is_sieved(
            files,
            counted(files, show_empty),
            |f: FileStats| f.error is None && (f.lines > 0 || show_empty),
            |f: FileStats| f,
        ),
    decreases files.len(),
{
    let keep = |f: FileStats| f.error is None && (f.lines > 0 || show_empty);
    let give = |f: FileStats| f;
    let all = counted(files, show_empty);
    if files.len() == 0 {
        lemma_sieve_nothing(files, all, keep, give);
    } else {
        law_files_that_count(files.drop_last(), show_empty);
        lemma_sieve_more(files, counted(files.drop_last(), show_empty), all, keep, give);
    }
}

/// The sizes of files add up: those of two lists are those of both together.
pub proof fn law_totals_add_up(a: Seq<FileStats>, b: Seq<FileStats>)
    ensures
        ({
            let t = totals(a + b);
            let x = totals(a);
            let y = totals(b);
            &&& t.lines == x.lines + y.lines
            &&& t.words == x.words + y.words
            &&& t.chars == x.chars + y.chars
            &&& t.bytes == x.bytes + y.bytes
            &&& t.functions == x.functions + y.functions
            &&& t.classes == x.classes + y.classes
        }),
        b.len() == 1 ==> totals(b).lines == b[0].lines && totals(b).words == b[0].words && totals(b).chars
            == b[0].chars && totals(b).bytes == b[0].bytes && totals(b).functions == b[0].functions@.len()
            && totals(b).classes == b[0].classes@.len(),
    decreases b.len(),
{
    if b.len() == 0 {
        assert(a + b =~= a);
    } else {
        let d = b.drop_last();
        law_totals_add_up(a, d);
        assert((a + b).drop_last() =~= a + d);
        assert((a + b).last() == b.last());
    }
}

} // verus!
