//! Which files the analyser copies, and how.

use vstd::prelude::*;
use crate::config::WclConfig;
use crate::path::{extension, path_extension, relative, relative_to};
use crate::text::{dec, decimal, join, joined, repeat, repeated, same, texts};
use crate::wcl::{ClassInfo, FunctionInfo};
use crate::wcl_report::{first_of, rest_line, DirectoryStats, FileStats};

verus! {

/// Whether a file can be copied.
pub open spec fn can_copy(f: FileStats) -> bool {
    f.content is Some && f.error is None
}

/// Whether file `i` is copied before file `j`: it is smaller, or as large and earlier.
pub open spec fn precedes(files: Seq<FileStats>, i: int, j: int) -> bool {
    files[i].bytes < files[j].bytes || (files[i].bytes == files[j].bytes && i < j)
}

/// The sizes of some files, all together.
pub open spec fn bytes_of(files: Seq<FileStats>, sel: Seq<int>) -> nat
    decreases sel.len(),
{
    if sel.len() == 0 {
        0
    } else {
        bytes_of(files, sel.drop_last()) + files[sel.last()].bytes as nat
    }
}

/// Whether a file can be copied and has at most `words` words.
pub open spec fn is_small(f: FileStats, words: nat) -> bool {
    can_copy(f) && f.words <= words
}

/// Whether `sel` is a beginning of the files that can be copied, the smallest first.
pub open spec fn is_beginning(files: Seq<FileStats>, words: nat, sel: Seq<int>) -> bool {
    &&& forall|k: int|
        0 <= k < sel.len() ==> 0 <= #[trigger] sel[k] < files.len() && is_small(files[sel[k]], words)
    &&& forall|k: int, l: int|
        0 <= k < l < sel.len() ==> precedes(files, #[trigger] sel[k], #[trigger] sel[l])
    &&& forall|j: int, k: int|
        #![trigger sel[k], files[j]]
        0 <= j < files.len() && is_small(files[j], words) && !sel.contains(j) && 0 <= k < sel.len()
            ==> precedes(files, sel[k], j)
}

/// Whether `sel` are the files to copy: of those with at most `words` words the smallest ones, as
/// many as fit into `max` bytes.
pub open spec fn is_selection(
    files: Seq<FileStats>,
    words: nat,
    max: nat,
    sel: Seq<int>,
) -> bool {
    &&& is_beginning(files, words, sel)
    &&& bytes_of(files, sel) <= max
    &&& forall|j: int|
        #![trigger files[j]]
        0 <= j < files.len() && is_small(files[j], words) && !sel.contains(j) ==> bytes_of(files, sel)
            + files[j].bytes > max
}

proof fn lemma_bytes_grow(files: Seq<FileStats>, sel: Seq<int>, n: int)
    requires
        0 <= n <= sel.len(),
    ensures
        bytes_of(files, sel.take(n)) <= bytes_of(files, sel),
    decreases sel.len() - n,
{
    if n < sel.len() {
        assert(sel.take(n + 1).drop_last() =~= sel.take(n));
        lemma_bytes_grow(files, sel, n + 1);
    } else {
        assert(sel.take(n) =~= sel);
    }
}

proof fn lemma_same_beginning(
    files: Seq<FileStats>,
    words: nat,
    a: Seq<int>,
    b: Seq<int>,
    k: int,
)
    requires
        is_beginning(files, words, a),
        is_beginning(files, words, b),
        0 <= k <= a.len(),
        k <= b.len(),
    ensures
        forall|i: int| 0 <= i < k ==> a[i] == b[i],
    decreases k,
{
    if k > 0 {
        lemma_same_beginning(files, words, a, b, k - 1);
        let x = a[k - 1];
        let y = b[k - 1];
        if x != y {
            if precedes(files, x, y) {
                assert(!b.contains(x)) by {
                    if b.contains(x) {
                        let p = choose|p: int| 0 <= p < b.len() && b[p] == x;
                        if p < k - 1 {
                            assert(a[p] == x);
                            assert(precedes(files, a[p], a[k - 1]));
                        } else {
                            assert(p > k - 1);
                            assert(precedes(files, b[k - 1], b[p]));
                        }
                    }
                }
                assert(is_small(files[x], words));
                assert(precedes(files, b[k - 1], x));
            } else {
                assert(precedes(files, y, x));
                assert(!a.contains(y)) by {
                    if a.contains(y) {
                        let p = choose|p: int| 0 <= p < a.len() && a[p] == y;
                        if p < k - 1 {
                            assert(b[p] == y);
                            assert(precedes(files, b[p], b[k - 1]));
                        } else {
                            assert(p > k - 1);
                            assert(precedes(files, a[k - 1], a[p]));
                        }
                    }
                }
                assert(is_small(files[y], words));
                assert(precedes(files, a[k - 1], y));
            }
        }
    }
}

proof fn lemma_not_longer(
    files: Seq<FileStats>,
    words: nat,
    max: nat,
    a: Seq<int>,
    b: Seq<int>,
)
    requires
        is_selection(files, words, max, a),
        is_selection(files, words, max, b),
    ensures
        a.len() >= b.len(),
{
    if a.len() < b.len() {
        let n = a.len() as int;
        lemma_same_beginning(files, words, a, b, n);
        assert(b.take(n) =~= a);
        let j = b[n];
        assert(!a.contains(j)) by {
            if a.contains(j) {
                let p = choose|p: int| 0 <= p < a.len() && a[p] == j;
                assert(b[p] == j);
                assert(precedes(files, b[p], b[n]));
            }
        }
        assert(is_small(files[j], words));
        assert(b.take(n + 1).drop_last() =~= b.take(n));
        assert(b.take(n + 1).last() == j);
        lemma_bytes_grow(files, b, n + 1);
    }
}

/// There is one way only to choose the files to copy.
pub proof fn law_selection_is_unique(
    files: Seq<FileStats>,
    words: nat,
    max: nat,
    a: Seq<int>,
    b: Seq<int>,
)
    requires
        is_selection(files, words, max, a),
        is_selection(files, words, max, b),
    ensures
        a == b,
{
    lemma_not_longer(files, words, max, a, b);
    lemma_not_longer(files, words, max, b, a);
    lemma_same_beginning(files, words, a, b, a.len() as int);
    assert(a =~= b);
}

/// Places in a list.
pub open spec fn places(v: Seq<usize>) -> Seq<int> {
    v.map_values(|i: usize| i as int)
}

fn copyable(f: &FileStats) -> (r: bool)
    ensures
        r == can_copy(*f),
{
    f.content.is_some() && f.error.is_none()
}

fn is_chosen(sel: &[usize], j: usize) -> (r: bool)
    ensures
        r == places(sel@).contains(j as int),
{
    let mut k: usize = 0;
    while k < sel.len()
        invariant
            k <= sel@.len(),
            forall|p: int| 0 <= p < k ==> sel@[p] != j,
        decreases sel@.len() - k,
    {
        if sel[k] == j {
            assert(places(sel@)[k as int] == j as int);
            return true;
        }
        k += 1;
    }
    assert forall|p: int| 0 <= p < places(sel@).len() implies places(sel@)[p] != j as int by {
        assert(places(sel@)[p] == sel@[p] as int);
    }
    false
}

/// The first, in the order of copying, of the files that can be copied and were not chosen.
fn next_file(files: &[FileStats], max_words: usize, sel: &[usize]) -> (r: Option<usize>)
    ensures
        match r {
            Some(j) => j < files@.len() && is_small(files@[j as int], max_words as nat) && !places(sel@).contains(
                j as int,
            ) && forall|i: int|
                #![trigger files@[i]]
                0 <= i < files@.len() && is_small(files@[i], max_words as nat) && !places(sel@).contains(i) && i != j
                    ==> precedes(files@, j as int, i),
            None => forall|i: int|
                #![trigger files@[i]]
                0 <= i < files@.len() && is_small(files@[i], max_words as nat) ==> places(sel@).contains(i),
        },
{
    let mut best: Option<usize> = None;
    let mut i: usize = 0;
    while i < files.len()
        invariant
            i <= files@.len(),
            match best {
                Some(j) => j < i && is_small(files@[j as int], max_words as nat) && !places(sel@).contains(j as int)
                    && forall|p: int|
                    #![trigger files@[p]]
                    0 <= p < i && is_small(files@[p], max_words as nat) && !places(sel@).contains(p) && p != j
                        ==> precedes(files@, j as int, p),
                None => forall|p: int|
                    #![trigger files@[p]]
                    0 <= p < i && is_small(files@[p], max_words as nat) ==> places(sel@).contains(p),
            },
        decreases files@.len() - i,
    {
        if copyable(&files[i]) && files[i].words <= max_words && !is_chosen(sel, i) {
            best = match best {
                Some(j) => if files[i].bytes < files[j].bytes {
                    Some(i)
                } else {
                    Some(j)
                },
                None => Some(i),
            };
        }
        i += 1;
    }
    best
}

/// The places of the files to copy: of those with at most `max_words` words the smallest ones
/// first, as many as fit into `max_bytes`.
pub fn select_files_for_clipboard(
    files: &[FileStats],
    max_words: usize,
    max_bytes: usize,
) -> (r: Vec<usize>)
    ensures
        is_selection(files@, max_words as nat, max_bytes as nat, places(r@)),
{
    let mut sel: Vec<usize> = Vec::new();
    let mut total: usize = 0;
    assert(places(sel@) =~= Seq::<int>::empty());
    loop
        invariant
            is_beginning(files@, max_words as nat, places(sel@)),
            total == bytes_of(files@, places(sel@)),
            total <= max_bytes,
            places(sel@).no_duplicates(),
            sel@.len() <= files@.len(),
        decreases files@.len() - sel@.len(),
    {
        let ghost now = places(sel@);
        match next_file(files, max_words, sel.as_slice()) {
            Some(j) => {
                if files[j].bytes > max_bytes - total {
                    assert forall|i: int|
                        #![trigger files@[i]]
                        0 <= i < files@.len() && is_small(files@[i], max_words as nat) && !now.contains(
                            i,
                        ) implies bytes_of(files@, now) + files@[i].bytes > max_bytes by {
                        if i != j {
                            assert(precedes(files@, j as int, i));
                        }
                    }
                    return sel;
                }
                proof {
                    lemma_room(files@, now, j as int);
                }
                total = total + files[j].bytes;
                sel.push(j);
                proof {
                    let next = now.push(j as int);
                    assert(places(sel@) =~= next);
                    assert(next.drop_last() =~= now);
                    assert forall|k: int, l: int| 0 <= k < l < next.len() implies precedes(
                        files@,
                        #[trigger] next[k],
                        #[trigger] next[l],
                    ) by {
                        if l == now.len() {
                            assert(next[k] == now[k]);
                            assert(is_small(files@[j as int], max_words as nat));
                            assert(precedes(files@, now[k], j as int));
                        } else {
                            assert(next[k] == now[k] && next[l] == now[l]);
                        }
                    }
                    assert forall|i: int, k: int|
                        #![trigger next[k], files@[i]]
                        0 <= i < files@.len() && is_small(files@[i], max_words as nat) && !next.contains(i) && 0 <= k
                            < next.len() implies precedes(files@, next[k], i) by {
                        assert(next[now.len() as int] == j as int);
                        assert(!now.contains(i)) by {
                            if now.contains(i) {
                                let p = choose|p: int| 0 <= p < now.len() && now[p] == i;
                                assert(next[p] == i);
                            }
                        }
                        if k == now.len() {
                            assert(i != j);
                            assert(precedes(files@, j as int, i));
                        } else {
                            assert(next[k] == now[k]);
                        }
                    }
                }
            },
            None => {
                return sel;
            },
        }
    }
}

proof fn lemma_room(files: Seq<FileStats>, sel: Seq<int>, j: int)
    requires
        sel.no_duplicates(),
        forall|k: int| 0 <= k < sel.len() ==> 0 <= #[trigger] sel[k] < files.len(),
        0 <= j < files.len(),
        !sel.contains(j),
    ensures
        sel.len() < files.len(),
        sel.push(j).no_duplicates(),
{
    let next = sel.push(j);
    assert forall|a: int, b: int| 0 <= a < b < next.len() implies next[a] != next[b] by {
        if b == sel.len() {
            assert(sel.contains(sel[a]));
        }
    }
    let all = vstd::set_lib::set_int_range(0, files.len() as int);
    vstd::set_lib::lemma_int_range(0, files.len() as int);
    next.unique_seq_to_set();
    assert(next.to_set().subset_of(all)) by {
        assert forall|x: int| next.to_set().contains(x) implies all.contains(x) by {
            let p = choose|p: int| 0 <= p < next.len() && next[p] == x;
            if p < sel.len() {
                assert(next[p] == sel[p]);
            }
        }
    }
    vstd::set_lib::lemma_len_subset(next.to_set(), all);
}


/// The files that can be copied and were not chosen, in their own order, among the first `n`.
pub open spec fn left_out(files: Seq<FileStats>, sel: Seq<int>, n: int) -> Seq<int>
    decreases n,
{
    if n <= 0 {
        Seq::empty()
    } else {
        let earlier = left_out(files, sel, n - 1);
        if can_copy(files[n - 1]) && !sel.contains(n - 1) {
            earlier.push(n - 1)
        } else {
            earlier
        }
    }
}

fn find_left_out(files: &[FileStats], sel: &[usize]) -> (r: Vec<usize>)
    ensures
        places(r@) == left_out(files@, places(sel@), files@.len() as int),
        forall|k: int| 0 <= k < r@.len() ==> #[trigger] r@[k] < files@.len(),
{
    let mut out: Vec<usize> = Vec::new();
    let mut i: usize = 0;
    assert(places(out@) =~= Seq::<int>::empty());
    while i < files.len()
        invariant
            i <= files@.len(),
            places(out@) == left_out(files@, places(sel@), i as int),
            forall|k: int| 0 <= k < out@.len() ==> #[trigger] out@[k] < files@.len(),
        decreases files@.len() - i,
    {
        let ghost earlier = places(out@);
        if copyable(&files[i]) && !is_chosen(sel, i) {
            out.push(i);
            assert(places(out@) =~= earlier.push(i as int));
        }
        i += 1;
    }
    out
}

/// Whether the extension is one of a language whose comments begin with two slashes.
pub open spec fn copies_with_slashes(ext: Seq<char>) -> bool {
    ||| ext == "rs"@
    ||| ext == "c"@
    ||| ext == "cc"@
    ||| ext == "cpp"@
    ||| ext == "h"@
    ||| ext == "hpp"@
    ||| ext == "js"@
    ||| ext == "ts"@
    ||| ext == "jsx"@
    ||| ext == "tsx"@
    ||| ext == "java"@
    ||| ext == "go"@
}

/// The mark that begins the comments above a copied file.
pub open spec fn copy_mark(path: Seq<char>) -> Seq<char> {
    if path_extension(path) matches Some(e) && copies_with_slashes(e) {
        "//"@
    } else {
        "#"@
    }
}

fn mark_for(path: &str) -> (r: &'static str)
    ensures
        r@ == copy_mark(path@),
{
    match extension(path) {
        Some(x) => {
            let e: &str = x.as_str();
            if same(e, "rs") || same(e, "c") || same(e, "cc") || same(e, "cpp") || same(e, "h")
                || same(e, "hpp") || same(e, "js") || same(e, "ts") || same(e, "jsx") || same(
                e,
                "tsx",
            ) || same(e, "java") || same(e, "go") {
                "//"
            } else {
                "#"
            }
        },
        None => "#",
    }
}

/// A file as it is copied: two lines of comment with its path as seen from `root` and its sizes, a
/// rule, its content.
pub open spec fn copied_file(f: FileStats, root: Seq<char>) -> Seq<char> {
    let m = copy_mark(f.path@);
    match f.content {
        Some(c) => m + " "@ + relative(f.path@, root) + "\n"@ + m + " Size: "@ + dec(f.bytes as nat)
            + " bytes | Lines: "@ + dec(f.lines as nat) + " | Words: "@ + dec(f.words as nat)
            + " | Functions: "@ + dec(f.functions@.len()) + " | Classes: "@ + dec(f.classes@.len())
            + "\n"@ + repeated('-', 80) + "\n"@ + c@ + "\n\n"@,
        None => Seq::empty(),
    }
}

fn copy_file(f: &FileStats, root: &str) -> (r: String)
    ensures
        r@ == copied_file(*f, root@),
{
    match &f.content {
        Some(c) => {
            let m: &str = mark_for(f.path.as_str());
            let mut out: String = m.to_owned();
            out.append(" ");
            out.append(relative_to(f.path.as_str(), root).as_str());
            out.append("\n");
            out.append(m);
            out.append(" Size: ");
            out.append(decimal(f.bytes as u64).as_str());
            out.append(" bytes | Lines: ");
            out.append(decimal(f.lines as u64).as_str());
            out.append(" | Words: ");
            out.append(decimal(f.words as u64).as_str());
            out.append(" | Functions: ");
            out.append(decimal(f.functions.len() as u64).as_str());
            out.append(" | Classes: ");
            out.append(decimal(f.classes.len() as u64).as_str());
            out.append("\n");
            out.append(repeat('-', 80).as_str());
            out.append("\n");
            out.append(c.as_str());
            out.append("\n\n");
            out
        },
        None => String::new(),
    }
}

pub open spec fn copied_files(files: Seq<FileStats>, sel: Seq<int>, root: Seq<char>) -> Seq<char>
    decreases sel.len(),
{
    if sel.len() == 0 {
        Seq::empty()
    } else {
        copied_files(files, sel.drop_last(), root) + copied_file(files[sel.last()], root)
    }
}

/// The part with the files that are copied.
pub open spec fn copied_part(files: Seq<FileStats>, sel: Seq<int>, root: Seq<char>) -> Seq<char> {
    if sel.len() == 0 {
        Seq::empty()
    } else {
        "// 📁 COPIED FILES (full content):\n// "@ + repeated('-', 60) + "\n"@ + copied_files(
            files,
            sel,
            root,
        )
    }
}

fn show_copied(files: &[FileStats], sel: &[usize], root: &str) -> (r: String)
    requires
        forall|k: int| 0 <= k < sel@.len() ==> #[trigger] sel@[k] < files@.len(),
    ensures
        r@ == copied_part(files@, places(sel@), root@),
{
    if sel.len() == 0 {
        return String::new();
    }
    let ghost all = places(sel@);
    let mut rows: String = String::new();
    let mut i: usize = 0;
    while i < sel.len()
        invariant
            i <= sel@.len(),
            forall|k: int| 0 <= k < sel@.len() ==> #[trigger] sel@[k] < files@.len(),
            rows@ == copied_files(files@, all.take(i as int), root@),
        decreases sel@.len() - i,
    {
        assert(all.take(i + 1).drop_last() =~= all.take(i as int));
        assert(all.take(i + 1).last() == sel@[i as int] as int);
        rows.append(copy_file(&files[sel[i]], root).as_str());
        i += 1;
    }
    assert(all.take(i as int) =~= all);
    let mut out: String = "// 📁 COPIED FILES (full content):\n// ".to_owned();
    out.append(repeat('-', 60).as_str());
    out.append("\n");
    out.append(rows.as_str());
    out
}

/// The names of the first `n` functions.
pub open spec fn function_names(fs: Seq<FunctionInfo>, n: int) -> Seq<Seq<char>> {
    first_of(fs, n).map_values(|f: FunctionInfo| f.name@)
}

/// The names of the first `n` types.
pub open spec fn class_names(cs: Seq<ClassInfo>, n: int) -> Seq<Seq<char>> {
    first_of(cs, n).map_values(|c: ClassInfo| c.name@)
}

fn list_function_names(fs: &[FunctionInfo], n: usize) -> (r: String)
    ensures
        r@ == joined(function_names(fs@, n as int), ", "@),
{
    let mut names: Vec<String> = Vec::new();
    let mut i: usize = 0;
    while i < fs.len() && i < n
        invariant
            i <= fs@.len(),
            i <= n,
            names@.len() == i,
            forall|k: int| 0 <= k < i ==> (#[trigger] names@[k])@ == fs@[k].name@,
        decreases fs@.len() - i,
    {
        names.push(fs[i].name.clone());
        i += 1;
    }
    assert(texts(names@) =~= function_names(fs@, n as int));
    join(names.as_slice(), ", ")
}

fn list_class_names(cs: &[ClassInfo], n: usize) -> (r: String)
    ensures
        r@ == joined(class_names(cs@, n as int), ", "@),
{
    let mut names: Vec<String> = Vec::new();
    let mut i: usize = 0;
    while i < cs.len() && i < n
        invariant
            i <= cs@.len(),
            i <= n,
            names@.len() == i,
            forall|k: int| 0 <= k < i ==> (#[trigger] names@[k])@ == cs@[k].name@,
        decreases cs@.len() - i,
    {
        names.push(cs[i].name.clone());
        i += 1;
    }
    assert(texts(names@) =~= class_names(cs@, n as int));
    join(names.as_slice(), ", ")
}

/// A file that is left out: its sizes, and the names of its first functions and types.
pub open spec fn left_out_row(f: FileStats, root: Seq<char>, config: WclConfig) -> Seq<char> {
    "//   "@ + relative(f.path@, root) + " ("@ + dec(f.bytes as nat) + " bytes, "@ + dec(f.lines as nat)
        + " lines, "@ + dec(f.words as nat) + " words, "@ + dec(f.functions@.len())
        + " functions, "@ + dec(f.classes@.len()) + " classes)\n"@ + (
    if config.show_function_details && f.functions@.len() > 0 {
        "//     Functions: "@ + joined(function_names(f.functions@, 5), ", "@) + "\n"@ + rest_line(
            f.functions@.len(),
            5,
            "//       ... and "@,
            " more\n"@,
        )
    } else {
        Seq::empty()
    }) + (if config.show_class_details && f.classes@.len() > 0 {
        "//     Classes: "@ + joined(class_names(f.classes@, 3), ", "@) + "\n"@ + rest_line(
            f.classes@.len(),
            3,
            "//       ... and "@,
            " more\n"@,
        )
    } else {
        Seq::empty()
    })
}

fn show_more(len: usize, n: usize, start: &str, end: &str) -> (r: String)
    ensures
        r@ == rest_line(len as nat, n as int, start@, end@),
{
    if len > n {
        let mut out: String = start.to_owned();
        out.append(decimal((len - n) as u64).as_str());
        out.append(end);
        out
    } else {
        String::new()
    }
}

fn show_left_out_row(f: &FileStats, root: &str, config: &WclConfig) -> (r: String)
    ensures
        r@ == left_out_row(*f, root@, *config),
{
    let mut out: String = "//   ".to_owned();
    out.append(relative_to(f.path.as_str(), root).as_str());
    out.append(" (");
    out.append(decimal(f.bytes as u64).as_str());
    out.append(" bytes, ");
    out.append(decimal(f.lines as u64).as_str());
    out.append(" lines, ");
    out.append(decimal(f.words as u64).as_str());
    out.append(" words, ");
    out.append(decimal(f.functions.len() as u64).as_str());
    out.append(" functions, ");
    out.append(decimal(f.classes.len() as u64).as_str());
    out.append(" classes)\n");
    let mut functions: String = String::new();
    if config.show_function_details && f.functions.len() > 0 {
        functions = "//     Functions: ".to_owned();
        functions.append(list_function_names(f.functions.as_slice(), 5).as_str());
        functions.append("\n");
        functions.append(
            show_more(f.functions.len(), 5, "//       ... and ", " more\n").as_str(),
        );
    }
    out.append(functions.as_str());
    let mut classes: String = String::new();
    if config.show_class_details && f.classes.len() > 0 {
        classes = "//     Classes: ".to_owned();
        classes.append(list_class_names(f.classes.as_slice(), 3).as_str());
        classes.append("\n");
        classes.append(show_more(f.classes.len(), 3, "//       ... and ", " more\n").as_str());
    }
    out.append(classes.as_str());
    out
}

pub open spec fn left_out_rows(
    files: Seq<FileStats>,
    out: Seq<int>,
    root: Seq<char>,
    config: WclConfig,
) -> Seq<char>
    decreases out.len(),
{
    if out.len() == 0 {
        Seq::empty()
    } else {
        left_out_rows(files, out.drop_last(), root, config) + left_out_row(
            files[out.last()],
            root,
            config,
        )
    }
}

/// The part with the files that are left out, a hundred at most.
pub open spec fn left_out_part(
    files: Seq<FileStats>,
    out: Seq<int>,
    root: Seq<char>,
    config: WclConfig,
) -> Seq<char> {
    if out.len() == 0 {
        Seq::empty()
    } else {
        "// 📊 FILES NOT COPIED (exceeded byte limit) - Statistics Only:\n// "@ + repeated('-', 60)
            + "\n"@ + left_out_rows(files, first_of(out, 100), root, config) + rest_line(
            out.len(),
            100,
            "//   ... and "@,
            " more files (statistics only)\n"@,
        )
    }
}

fn show_left_out(
    files: &[FileStats],
    out_files: &[usize],
    root: &str,
    config: &WclConfig,
) -> (r: String)
    requires
        forall|k: int| 0 <= k < out_files@.len() ==> #[trigger] out_files@[k] < files@.len(),
    ensures
        r@ == left_out_part(files@, places(out_files@), root@, *config),
{
    if out_files.len() == 0 {
        return String::new();
    }
    let ghost all = places(out_files@);
    let shown: usize = if 100 < out_files.len() {
        100
    } else {
        out_files.len()
    };
    let mut rows: String = String::new();
    let mut i: usize = 0;
    while i < shown
        invariant
            i <= shown <= out_files@.len(),
            forall|k: int| 0 <= k < out_files@.len() ==> #[trigger] out_files@[k] < files@.len(),
            rows@ == left_out_rows(files@, all.take(i as int), root@, *config),
        decreases shown - i,
    {
        assert(all.take(i + 1).drop_last() =~= all.take(i as int));
        assert(all.take(i + 1).last() == out_files@[i as int] as int);
        rows.append(show_left_out_row(&files[out_files[i]], root, config).as_str());
        i += 1;
    }
    assert(all.take(shown as int) =~= first_of(all, 100));
    let mut out: String =
        "// 📊 FILES NOT COPIED (exceeded byte limit) - Statistics Only:\n// ".to_owned();
    out.append(repeat('-', 60).as_str());
    out.append("\n");
    out.append(rows.as_str());
    out.append(
        show_more(
            out_files.len(),
            100,
            "//   ... and ",
            " more files (statistics only)\n",
        ).as_str(),
    );
    out
}

/// The head of what is copied.
pub open spec fn copy_head(d: DirectoryStats, max: nat) -> Seq<char> {
    "// wcl Analysis Report\n// ============================================================\n// Total files: "@
        + dec(d.files as nat) + " | Total size: "@ + dec(d.total_bytes as nat)
        + " bytes\n// Clipboard limit: "@ + dec(max) + " bytes ("@ + dec(max / 1024)
        + " KB)\n// ============================================================\n\n"@
}

/// The end of what is copied.
pub open spec fn copy_foot(
    d: DirectoryStats,
    copied: nat,
    bytes: nat,
    max: nat,
    rest: nat,
) -> Seq<char> {
    "\n// ============================================================\n// SUMMARY:\n//   Files copied: "@
        + dec(copied) + " ("@ + dec(bytes) + " bytes / "@ + dec(max)
        + " bytes limit)\n//   Files with statistics only: "@ + dec(rest)
        + "\n//   Total functions found: "@ + dec(d.total_functions as nat)
        + "\n//   Total classes found: "@ + dec(d.total_classes as nat)
        + "\n// ============================================================\n"@
}

fn show_head(d: &DirectoryStats, max: usize) -> (r: String)
    ensures
        r@ == copy_head(*d, max as nat),
{
    let mut out: String =
        "// wcl Analysis Report\n// ============================================================\n// Total files: ".to_owned();
    out.append(decimal(d.files as u64).as_str());
    out.append(" | Total size: ");
    out.append(decimal(d.total_bytes as u64).as_str());
    out.append(" bytes\n// Clipboard limit: ");
    out.append(decimal(max as u64).as_str());
    out.append(" bytes (");
    out.append(decimal((max / 1024) as u64).as_str());
    out.append(" KB)\n// ============================================================\n\n");
    out
}

fn show_foot(
    d: &DirectoryStats,
    copied: usize,
    bytes: usize,
    max: usize,
    rest: usize,
) -> (r: String)
    ensures
        r@ == copy_foot(*d, copied as nat, bytes as nat, max as nat, rest as nat),
{
    let mut out: String =
        "\n// ============================================================\n// SUMMARY:\n//   Files copied: ".to_owned();
    out.append(decimal(copied as u64).as_str());
    out.append(" (");
    out.append(decimal(bytes as u64).as_str());
    out.append(" bytes / ");
    out.append(decimal(max as u64).as_str());
    out.append(" bytes limit)\n//   Files with statistics only: ");
    out.append(decimal(rest as u64).as_str());
    out.append("\n//   Total functions found: ");
    out.append(decimal(d.total_functions as u64).as_str());
    out.append("\n//   Total classes found: ");
    out.append(decimal(d.total_classes as u64).as_str());
    out.append("\n// ============================================================\n");
    out
}

/// What is copied, given the files that are chosen.
pub open spec fn copied_text(
    d: DirectoryStats,
    sel: Seq<int>,
    root: Seq<char>,
    config: WclConfig,
) -> Seq<char> {
    let files = d.file_stats@;
    let rest = left_out(files, sel, files.len() as int);
    let max = config.max_clipboard_bytes as nat;
    copy_head(d, max) + copied_part(files, sel, root) + left_out_part(
        files,
        rest,
        root,
        config,
    ) + copy_foot(
        d,
        sel.len(),
        bytes_of(files, sel),
        max,
        rest.len(),
    )
}

fn count_bytes(files: &[FileStats], sel: &[usize], max: usize) -> (r: usize)
    requires
        forall|k: int| 0 <= k < sel@.len() ==> #[trigger] sel@[k] < files@.len(),
        bytes_of(files@, places(sel@)) <= max,
    ensures
        r == bytes_of(files@, places(sel@)),
{
    let ghost all = places(sel@);
    let mut total: usize = 0;
    let mut i: usize = 0;
    while i < sel.len()
        invariant
            i <= sel@.len(),
            total == bytes_of(files@, all.take(i as int)),
        decreases sel@.len() - i,
    {
        proof {
            let now = all.take(i + 1);
            assert(now.drop_last() =~= all.take(i as int));
            assert(now.last() == sel@[i as int] as int);
            assert(all[i as int] < files@.len());
            lemma_bytes_grow(files@, all, i + 1);
        }
        total = total + files[sel[i]].bytes;
        i += 1;
    }
    assert(all.take(i as int) =~= all);
    total
}

/// What is copied: the smallest files, as many as fit, and the statistics of the others.
pub fn format_file_contents_for_clipboard(
    stats: &DirectoryStats,
    root: &str,
    config: &WclConfig,
) -> (r: String)
    ensures
        exists|sel: Seq<int>|
            is_selection(
                stats.file_stats@,
                config.max_file_words_to_copy as nat,
                config.max_clipboard_bytes as nat,
                sel,
            ) && r@ == #[trigger] copied_text(*stats, sel, root@, *config),
{
    let files: &[FileStats] = stats.file_stats.as_slice();
    let max: usize = config.max_clipboard_bytes;
    let sel: Vec<usize> = select_files_for_clipboard(
        files,
        config.max_file_words_to_copy,
        max,
    );
    let ghost s = places(sel@);
    assert forall|k: int| 0 <= k < sel@.len() implies #[trigger] sel@[k] < files@.len() by {
        assert(s[k] == sel@[k] as int);
    }
    let rest: Vec<usize> = find_left_out(files, sel.as_slice());
    let bytes: usize = count_bytes(files, sel.as_slice(), max);
    assert(places(rest@).len() == rest@.len());
    assert(s.len() == sel@.len());
    let mut out: String = show_head(stats, max);
    out.append(show_copied(files, sel.as_slice(), root).as_str());
    out.append(show_left_out(files, rest.as_slice(), root, config).as_str());
    out.append(show_foot(stats, sel.len(), bytes, max, rest.len()).as_str());
    assert(out@ == copied_text(*stats, s, root@, *config));
    out
}

} // verus!
