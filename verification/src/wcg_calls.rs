//! The calls that code graphs leave out.

use vstd::prelude::*;
use crate::text::{chars_of, occurs, occurs_at, same, slice_at, string_of};

verus! {

/// The last position of `p` in `s` at `i` or earlier, or -1.
pub open spec fn rfind_from(s: Seq<char>, p: Seq<char>, i: int) -> int
    decreases i + 1,
{
    if i < 0 {
        -1
    } else if occurs_at(s, p, i) {
        i
    } else {
        rfind_from(s, p, i - 1)
    }
}

/// What stands in `s` behind the last `::`; all of it where there is none.
pub open spec fn last_part(s: Seq<char>) -> Seq<char> {
    let k = rfind_from(s, "::"@, s.len() as int);
    if k < 0 {
        s
    } else {
        s.skip(k + "::"@.len())
    }
}

/// What stands in a path behind the last `::`.
pub fn simple_name(s: &str) -> (r: String)
    ensures
        r@ == last_part(s@),
{
    let cs: Vec<char> = chars_of(s);
    let ps: Vec<char> = chars_of("::");
    let n: usize = cs.len();
    let mut i: usize = n;
    loop
        invariant
            i <= n == cs@.len(),
            rfind_from(cs@, ps@, i as int) == rfind_from(cs@, ps@, n as int),
        decreases i,
    {
        if slice_at(&cs, &ps, i) {
            return string_of(&cs, i + ps.len(), n);
        }
        if i == 0 {
            proof {
                assert(rfind_from(cs@, ps@, 0) == rfind_from(cs@, ps@, -1));
            }
            return s.to_owned();
        }
        i -= 1;
    }
}

/// Whether a name is one of the everyday calls that a function's own list leaves out.
pub open spec fn everyday_a(s: Seq<char>) -> bool {
    ||| s == "Ok"@
    ||| s == "Err"@
    ||| s == "Some"@
    ||| s == "None"@
    ||| s == "Self"@
    ||| s == "default"@
    ||| s == "new"@
    ||| s == "into"@
    ||| s == "from"@
    ||| s == "try_from"@
    ||| s == "try_into"@
    ||| s == "as_ref"@
    ||| s == "as_mut"@
    ||| s == "as_deref"@
    ||| s == "borrow"@
    ||| s == "to_owned"@
    ||| s == "to_string"@
    ||| s == "clone"@
    ||| s == "cloned"@
    ||| s == "copied"@
    ||| s == "iter"@
    ||| s == "iter_mut"@
    ||| s == "into_iter"@
    ||| s == "any"@
    ||| s == "all"@
    ||| s == "map"@
    ||| s == "filter"@
    ||| s == "filter_map"@
    ||| s == "find"@
    ||| s == "find_map"@
    ||| s == "flat_map"@
    ||| s == "fold"@
    ||| s == "for_each"@
    ||| s == "enumerate"@
    ||| s == "zip"@
}

fn is_everyday_a(s: &str) -> (r: bool)
    ensures
        r == everyday_a(s@),
{
    same(s, "Ok") || same(s, "Err") || same(s, "Some") || same(s, "None") || same(s, "Self")
        || same(s, "default") || same(s, "new") || same(s, "into") || same(s, "from")
        || same(s, "try_from") || same(s, "try_into") || same(s, "as_ref") || same(s, "as_mut")
        || same(s, "as_deref") || same(s, "borrow") || same(s, "to_owned") || same(s, "to_string")
        || same(s, "clone") || same(s, "cloned") || same(s, "copied") || same(s, "iter")
        || same(s, "iter_mut") || same(s, "into_iter") || same(s, "any") || same(s, "all")
        || same(s, "map") || same(s, "filter") || same(s, "filter_map") || same(s, "find")
        || same(s, "find_map") || same(s, "flat_map") || same(s, "fold") || same(s, "for_each")
        || same(s, "enumerate") || same(s, "zip")
}

/// Whether a name is one of the everyday calls that a function's own list leaves out.
pub open spec fn everyday_b(s: Seq<char>) -> bool {
    ||| s == "skip"@
    ||| s == "take"@
    ||| s == "collect"@
    ||| s == "collect::<Vec<_>>"@
    ||| s == "count"@
    ||| s == "len"@
    ||| s == "is_empty"@
    ||| s == "is_some"@
    ||| s == "is_none"@
    ||| s == "contains"@
    ||| s == "starts_with"@
    ||| s == "ends_with"@
    ||| s == "trim"@
    ||| s == "trim_start"@
    ||| s == "trim_end"@
    ||| s == "split"@
    ||| s == "split_whitespace"@
    ||| s == "join"@
    ||| s == "lines"@
    ||| s == "chars"@
    ||| s == "bytes"@
    ||| s == "push"@
    ||| s == "push_str"@
    ||| s == "insert"@
    ||| s == "remove"@
    ||| s == "get"@
    ||| s == "get_mut"@
    ||| s == "entry"@
    ||| s == "or_insert"@
    ||| s == "or_insert_with"@
    ||| s == "unwrap"@
    ||| s == "unwrap_or"@
    ||| s == "unwrap_or_else"@
    ||| s == "expect"@
}

fn is_everyday_b(s: &str) -> (r: bool)
    ensures
        r == everyday_b(s@),
{
    same(s, "skip") || same(s, "take") || same(s, "collect") || same(s, "collect::<Vec<_>>")
        || same(s, "count") || same(s, "len") || same(s, "is_empty") || same(s, "is_some")
        || same(s, "is_none") || same(s, "contains") || same(s, "starts_with")
        || same(s, "ends_with") || same(s, "trim") || same(s, "trim_start") || same(s, "trim_end")
        || same(s, "split") || same(s, "split_whitespace") || same(s, "join") || same(s, "lines")
        || same(s, "chars") || same(s, "bytes") || same(s, "push") || same(s, "push_str")
        || same(s, "insert") || same(s, "remove") || same(s, "get") || same(s, "get_mut")
        || same(s, "entry") || same(s, "or_insert") || same(s, "or_insert_with")
        || same(s, "unwrap") || same(s, "unwrap_or") || same(s, "unwrap_or_else")
        || same(s, "expect")
}

/// Whether a name is one of the everyday calls that a function's own list leaves out.
pub open spec fn everyday(s: Seq<char>) -> bool {
    ||| everyday_a(s)
    ||| everyday_b(s)
}

fn is_everyday(s: &str) -> (r: bool)
    ensures
        r == everyday(s@),
{
    is_everyday_a(s) || is_everyday_b(s)
}

/// Whether a call goes to a known function of another crate.
pub open spec fn outside_call(s: Seq<char>) -> bool {
    ||| s == "Local::now"@
    ||| s == "Utc::now"@
    ||| s == "Instant::now"@
    ||| s == "std::time::Instant::now"@
    ||| s == "fs::read_to_string"@
    ||| s == "fs::read_dir"@
    ||| s == "fs::metadata"@
    ||| s == "parse_file"@
    ||| s == "parse_str"@
    ||| s == "prettyplease::unparse"@
    ||| s == "serde_json::from_str"@
    ||| s == "dirs::home_dir"@
    ||| s == "mpsc::channel"@
    ||| s == "flag::register"@
    ||| s == "Stdio::piped"@
}

fn is_outside_call(s: &str) -> (r: bool)
    ensures
        r == outside_call(s@),
{
    same(s, "Local::now") || same(s, "Utc::now") || same(s, "Instant::now")
        || same(s, "std::time::Instant::now") || same(s, "fs::read_to_string")
        || same(s, "fs::read_dir") || same(s, "fs::metadata") || same(s, "parse_file")
        || same(s, "parse_str") || same(s, "prettyplease::unparse")
        || same(s, "serde_json::from_str") || same(s, "dirs::home_dir")
        || same(s, "mpsc::channel") || same(s, "flag::register") || same(s, "Stdio::piped")
}

/// Whether a name is one of those that graphs leave out.
pub open spec fn common_name_a(s: Seq<char>) -> bool {
    ||| s == "Ok"@
    ||| s == "Err"@
    ||| s == "Some"@
    ||| s == "None"@
    ||| s == "Self"@
    ||| s == "default"@
    ||| s == "new"@
    ||| s == "into"@
    ||| s == "from"@
    ||| s == "try_from"@
    ||| s == "try_into"@
    ||| s == "as_ref"@
    ||| s == "as_mut"@
    ||| s == "as_deref"@
    ||| s == "as_str"@
    ||| s == "borrow"@
    ||| s == "to_owned"@
    ||| s == "to_string"@
    ||| s == "to_string_lossy"@
    ||| s == "to_ascii_lowercase"@
    ||| s == "to_path_buf"@
    ||| s == "to_str"@
    ||| s == "clone"@
    ||| s == "cloned"@
    ||| s == "copied"@
    ||| s == "iter"@
    ||| s == "iter_mut"@
    ||| s == "into_iter"@
    ||| s == "any"@
    ||| s == "all"@
    ||| s == "map"@
    ||| s == "filter"@
    ||| s == "filter_map"@
    ||| s == "find"@
    ||| s == "find_map"@
}

fn is_common_name_a(s: &str) -> (r: bool)
    ensures
        r == common_name_a(s@),
{
    same(s, "Ok") || same(s, "Err") || same(s, "Some") || same(s, "None") || same(s, "Self")
        || same(s, "default") || same(s, "new") || same(s, "into") || same(s, "from")
        || same(s, "try_from") || same(s, "try_into") || same(s, "as_ref") || same(s, "as_mut")
        || same(s, "as_deref") || same(s, "as_str") || same(s, "borrow") || same(s, "to_owned")
        || same(s, "to_string") || same(s, "to_string_lossy") || same(s, "to_ascii_lowercase")
        || same(s, "to_path_buf") || same(s, "to_str") || same(s, "clone") || same(s, "cloned")
        || same(s, "copied") || same(s, "iter") || same(s, "iter_mut") || same(s, "into_iter")
        || same(s, "any") || same(s, "all") || same(s, "map") || same(s, "filter")
        || same(s, "filter_map") || same(s, "find") || same(s, "find_map")
}

/// Whether a name is one of those that graphs leave out.
pub open spec fn common_name_b(s: Seq<char>) -> bool {
    ||| s == "flat_map"@
    ||| s == "fold"@
    ||| s == "for_each"@
    ||| s == "enumerate"@
    ||| s == "zip"@
    ||| s == "skip"@
    ||| s == "take"@
    ||| s == "collect"@
    ||| s == "count"@
    ||| s == "sum"@
    ||| s == "len"@
    ||| s == "is_empty"@
    ||| s == "is_some"@
    ||| s == "is_none"@
    ||| s == "is_ok"@
    ||| s == "is_err"@
    ||| s == "contains"@
    ||| s == "starts_with"@
    ||| s == "ends_with"@
    ||| s == "trim"@
    ||| s == "trim_start"@
    ||| s == "trim_end"@
    ||| s == "split"@
    ||| s == "split_whitespace"@
    ||| s == "join"@
    ||| s == "lines"@
    ||| s == "chars"@
    ||| s == "bytes"@
    ||| s == "push"@
    ||| s == "push_str"@
    ||| s == "insert"@
    ||| s == "remove"@
    ||| s == "extend"@
    ||| s == "get"@
    ||| s == "get_mut"@
}

fn is_common_name_b(s: &str) -> (r: bool)
    ensures
        r == common_name_b(s@),
{
    same(s, "flat_map") || same(s, "fold") || same(s, "for_each") || same(s, "enumerate")
        || same(s, "zip") || same(s, "skip") || same(s, "take") || same(s, "collect")
        || same(s, "count") || same(s, "sum") || same(s, "len") || same(s, "is_empty")
        || same(s, "is_some") || same(s, "is_none") || same(s, "is_ok") || same(s, "is_err")
        || same(s, "contains") || same(s, "starts_with") || same(s, "ends_with")
        || same(s, "trim") || same(s, "trim_start") || same(s, "trim_end") || same(s, "split")
        || same(s, "split_whitespace") || same(s, "join") || same(s, "lines") || same(s, "chars")
        || same(s, "bytes") || same(s, "push") || same(s, "push_str") || same(s, "insert")
        || same(s, "remove") || same(s, "extend") || same(s, "get") || same(s, "get_mut")
}

/// Whether a name is one of those that graphs leave out.
pub open spec fn common_name_c(s: Seq<char>) -> bool {
    ||| s == "entry"@
    ||| s == "or_insert"@
    ||| s == "or_insert_with"@
    ||| s == "unwrap"@
    ||| s == "unwrap_or"@
    ||| s == "unwrap_or_default"@
    ||| s == "unwrap_or_else"@
    ||| s == "expect"@
    ||| s == "and_then"@
    ||| s == "path"@
    ||| s == "display"@
    ||| s == "extension"@
    ||| s == "file_name"@
    ||| s == "strip_prefix"@
    ||| s == "values"@
    ||| s == "sort"@
    ||| s == "min"@
    ||| s == "max"@
    ||| s == "last"@
    ||| s == "args"@
    ||| s == "stdin"@
    ||| s == "stdout"@
    ||| s == "stderr"@
    ||| s == "spawn"@
    ||| s == "wait"@
    ||| s == "wait_with_output"@
    ||| s == "output"@
    ||| s == "success"@
    ||| s == "code"@
    ||| s == "elapsed"@
    ||| s == "as_millis"@
    ||| s == "timestamp_millis"@
    ||| s == "load"@
    ||| s == "ok"@
    ||| s == "context"@
}

fn is_common_name_c(s: &str) -> (r: bool)
    ensures
        r == common_name_c(s@),
{
    same(s, "entry") || same(s, "or_insert") || same(s, "or_insert_with") || same(s, "unwrap")
        || same(s, "unwrap_or") || same(s, "unwrap_or_default") || same(s, "unwrap_or_else")
        || same(s, "expect") || same(s, "and_then") || same(s, "path") || same(s, "display")
        || same(s, "extension") || same(s, "file_name") || same(s, "strip_prefix")
        || same(s, "values") || same(s, "sort") || same(s, "min") || same(s, "max")
        || same(s, "last") || same(s, "args") || same(s, "stdin") || same(s, "stdout")
        || same(s, "stderr") || same(s, "spawn") || same(s, "wait") || same(s, "wait_with_output")
        || same(s, "output") || same(s, "success") || same(s, "code") || same(s, "elapsed")
        || same(s, "as_millis") || same(s, "timestamp_millis") || same(s, "load") || same(s, "ok")
        || same(s, "context")
}

/// Whether a name is one of those that graphs leave out.
pub open spec fn common_name_d(s: Seq<char>) -> bool {
    ||| s == "with_context"@
    ||| s == "exists"@
    ||| s == "next"@
    ||| s == "nth"@
    ||| s == "floor"@
    ||| s == "log10"@
    ||| s == "saturating_sub"@
    ||| s == "num_seconds"@
    ||| s == "signed_duration_since"@
}

fn is_common_name_d(s: &str) -> (r: bool)
    ensures
        r == common_name_d(s@),
{
    same(s, "with_context") || same(s, "exists") || same(s, "next") || same(s, "nth")
        || same(s, "floor") || same(s, "log10") || same(s, "saturating_sub")
        || same(s, "num_seconds") || same(s, "signed_duration_since")
}

/// Whether a name is one of those that graphs leave out.
pub open spec fn common_name(s: Seq<char>) -> bool {
    ||| common_name_a(s)
    ||| common_name_b(s)
    ||| common_name_c(s)
    ||| common_name_d(s)
}

fn is_common_name(s: &str) -> (r: bool)
    ensures
        r == common_name(s@),
{
    is_common_name_a(s) || is_common_name_b(s) || is_common_name_c(s) || is_common_name_d(s)
}

/// Whether a call is left out of a function's own list of calls.
pub open spec fn is_left_out(name: Seq<char>) -> bool {
    everyday(last_part(name))
}

/// Whether a call is left out of a function's own list of calls.
pub fn leaves_out(name: &str) -> (r: bool)
    ensures
        r == is_left_out(name@),
{
    is_everyday(simple_name(name).as_str())
}

/// Whether a call is left out of a graph: by its full name or by its last part.
pub open spec fn is_ignored(name: Seq<char>) -> bool {
    outside_call(name) || common_name(last_part(name))
}

/// Whether a call is left out of a graph.
pub fn is_ignored_call(name: &str) -> (r: bool)
    ensures
        r == is_ignored(name@),
{
    is_outside_call(name) || is_common_name(simple_name(name).as_str())
}

proof fn lemma_starts_a(s: Seq<char>)
    requires
        common_name_a(s),
    ensures
        s.len() > 0,
        s[0] != ':',
{
    reveal_strlit("Ok");
    reveal_strlit("Err");
    reveal_strlit("Some");
    reveal_strlit("None");
    reveal_strlit("Self");
    reveal_strlit("default");
    reveal_strlit("new");
    reveal_strlit("into");
    reveal_strlit("from");
    reveal_strlit("try_from");
    reveal_strlit("try_into");
    reveal_strlit("as_ref");
    reveal_strlit("as_mut");
    reveal_strlit("as_deref");
    reveal_strlit("as_str");
    reveal_strlit("borrow");
    reveal_strlit("to_owned");
    reveal_strlit("to_string");
    reveal_strlit("to_string_lossy");
    reveal_strlit("to_ascii_lowercase");
    reveal_strlit("to_path_buf");
    reveal_strlit("to_str");
    reveal_strlit("clone");
    reveal_strlit("cloned");
    reveal_strlit("copied");
    reveal_strlit("iter");
    reveal_strlit("iter_mut");
    reveal_strlit("into_iter");
    reveal_strlit("any");
    reveal_strlit("all");
    reveal_strlit("map");
    reveal_strlit("filter");
    reveal_strlit("filter_map");
    reveal_strlit("find");
    reveal_strlit("find_map");
}

proof fn lemma_starts_b(s: Seq<char>)
    requires
        common_name_b(s),
    ensures
        s.len() > 0,
        s[0] != ':',
{
    reveal_strlit("flat_map");
    reveal_strlit("fold");
    reveal_strlit("for_each");
    reveal_strlit("enumerate");
    reveal_strlit("zip");
    reveal_strlit("skip");
    reveal_strlit("take");
    reveal_strlit("collect");
    reveal_strlit("count");
    reveal_strlit("sum");
    reveal_strlit("len");
    reveal_strlit("is_empty");
    reveal_strlit("is_some");
    reveal_strlit("is_none");
    reveal_strlit("is_ok");
    reveal_strlit("is_err");
    reveal_strlit("contains");
    reveal_strlit("starts_with");
    reveal_strlit("ends_with");
    reveal_strlit("trim");
    reveal_strlit("trim_start");
    reveal_strlit("trim_end");
    reveal_strlit("split");
    reveal_strlit("split_whitespace");
    reveal_strlit("join");
    reveal_strlit("lines");
    reveal_strlit("chars");
    reveal_strlit("bytes");
    reveal_strlit("push");
    reveal_strlit("push_str");
    reveal_strlit("insert");
    reveal_strlit("remove");
    reveal_strlit("extend");
    reveal_strlit("get");
    reveal_strlit("get_mut");
}

proof fn lemma_starts_c(s: Seq<char>)
    requires
        common_name_c(s),
    ensures
        s.len() > 0,
        s[0] != ':',
{
    reveal_strlit("entry");
    reveal_strlit("or_insert");
    reveal_strlit("or_insert_with");
    reveal_strlit("unwrap");
    reveal_strlit("unwrap_or");
    reveal_strlit("unwrap_or_default");
    reveal_strlit("unwrap_or_else");
    reveal_strlit("expect");
    reveal_strlit("and_then");
    reveal_strlit("path");
    reveal_strlit("display");
    reveal_strlit("extension");
    reveal_strlit("file_name");
    reveal_strlit("strip_prefix");
    reveal_strlit("values");
    reveal_strlit("sort");
    reveal_strlit("min");
    reveal_strlit("max");
    reveal_strlit("last");
    reveal_strlit("args");
    reveal_strlit("stdin");
    reveal_strlit("stdout");
    reveal_strlit("stderr");
    reveal_strlit("spawn");
    reveal_strlit("wait");
    reveal_strlit("wait_with_output");
    reveal_strlit("output");
    reveal_strlit("success");
    reveal_strlit("code");
    reveal_strlit("elapsed");
    reveal_strlit("as_millis");
    reveal_strlit("timestamp_millis");
    reveal_strlit("load");
    reveal_strlit("ok");
    reveal_strlit("context");
}

proof fn lemma_starts_d(s: Seq<char>)
    requires
        common_name_d(s),
    ensures
        s.len() > 0,
        s[0] != ':',
{
    reveal_strlit("with_context");
    reveal_strlit("exists");
    reveal_strlit("next");
    reveal_strlit("nth");
    reveal_strlit("floor");
    reveal_strlit("log10");
    reveal_strlit("saturating_sub");
    reveal_strlit("num_seconds");
    reveal_strlit("signed_duration_since");
}

proof fn lemma_outside_calls_are_paths(s: Seq<char>)
    requires
        outside_call(s),
        s != "parse_file"@,
        s != "parse_str"@,
    ensures
        occurs(s, "::"@),
{
    reveal_strlit("::");
    reveal_strlit("Local::now");
    reveal_strlit("Utc::now");
    reveal_strlit("Instant::now");
    reveal_strlit("std::time::Instant::now");
    reveal_strlit("fs::read_to_string");
    reveal_strlit("fs::read_dir");
    reveal_strlit("fs::metadata");
    reveal_strlit("prettyplease::unparse");
    reveal_strlit("serde_json::from_str");
    reveal_strlit("dirs::home_dir");
    reveal_strlit("mpsc::channel");
    reveal_strlit("flag::register");
    reveal_strlit("Stdio::piped");
    if s == "fs::read_to_string"@ || s == "fs::read_dir"@ || s == "fs::metadata"@ {
        assert(s.subrange(2, 4) =~= "::"@);
        assert(occurs_at(s, "::"@, 2));
    }
    if s == "Utc::now"@ || s == "std::time::Instant::now"@ {
        assert(s.subrange(3, 5) =~= "::"@);
        assert(occurs_at(s, "::"@, 3));
    }
    if s == "dirs::home_dir"@ || s == "mpsc::channel"@ || s == "flag::register"@ {
        assert(s.subrange(4, 6) =~= "::"@);
        assert(occurs_at(s, "::"@, 4));
    }
    if s == "Local::now"@ || s == "Stdio::piped"@ {
        assert(s.subrange(5, 7) =~= "::"@);
        assert(occurs_at(s, "::"@, 5));
    }
    if s == "Instant::now"@ {
        assert(s.subrange(7, 9) =~= "::"@);
        assert(occurs_at(s, "::"@, 7));
    }
    if s == "serde_json::from_str"@ {
        assert(s.subrange(10, 12) =~= "::"@);
        assert(occurs_at(s, "::"@, 10));
    }
    if s == "prettyplease::unparse"@ {
        assert(s.subrange(12, 14) =~= "::"@);
        assert(occurs_at(s, "::"@, 12));
    }
}

proof fn lemma_rfind_none(s: Seq<char>, p: Seq<char>, i: int)
    requires
        forall|j: int| 0 <= j <= i ==> !occurs_at(s, p, j),
    ensures
        rfind_from(s, p, i) < 0,
    decreases i + 1,
{
    if i >= 0 {
        lemma_rfind_none(s, p, i - 1);
    }
}

proof fn lemma_rfind(s: Seq<char>, p: Seq<char>, k: int, i: int)
    requires
        0 <= k <= i,
        occurs_at(s, p, k),
        forall|j: int| k < j <= i ==> !occurs_at(s, p, j),
    ensures
        rfind_from(s, p, i) == k,
    decreases i - k,
{
    if i > k {
        lemma_rfind(s, p, k, i - 1);
    }
}

proof fn lemma_last_part(q: Seq<char>, s: Seq<char>)
    requires
        !occurs(s, "::"@),
        s.len() > 0,
        s[0] != ':',
    ensures
        last_part(s) == s,
        last_part(q + "::"@ + s) == s,
{
    reveal_strlit("::");
    let p = "::"@;
    let t = q + p + s;
    let k = q.len() as int;
    lemma_rfind_none(s, p, s.len() as int);
    assert(t.subrange(k, k + 2) =~= p);
    assert(occurs_at(t, p, k));
    assert forall|j: int| k < j <= t.len() implies !occurs_at(t, p, j) by {
        if occurs_at(t, p, j) {
            let x = t.subrange(j, j + 2);
            assert(x[0] == p[0] && x[1] == p[1]);
            assert(t[j] == ':' && t[j + 1] == ':');
            if j == k + 1 {
                assert(t[j + 1] == s[0]);
            } else {
                assert(s.subrange(j - k - 2, j - k) =~= p);
                assert(occurs_at(s, p, j - k - 2));
            }
        }
    }
    lemma_rfind(t, p, k, t.len() as int);
    assert(t.skip(k + 2) =~= s);
}

/// A simple name that is left out of a graph stays left out behind any path. `parse_file` and
/// `parse_str` are left out as whole names only.
pub proof fn law_ignored_behind_any_path(q: Seq<char>, s: Seq<char>)
    requires
        !occurs(s, "::"@),
        is_ignored(s),
        s != "parse_file"@,
        s != "parse_str"@,
    ensures
        is_ignored(q + "::"@ + s),
{
    reveal_strlit("::");
    if outside_call(s) {
        lemma_outside_calls_are_paths(s);
    }
    lemma_rfind_none(s, "::"@, s.len() as int);
    assert(last_part(s) == s);
    if common_name_a(s) {
        lemma_starts_a(s);
    } else if common_name_b(s) {
        lemma_starts_b(s);
    } else if common_name_c(s) {
        lemma_starts_c(s);
    } else {
        lemma_starts_d(s);
    }
    lemma_last_part(q, s);
}

} // verus!
