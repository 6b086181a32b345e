//! Putting a new block in the place of an old one, and what is shown on the way.

use vstd::prelude::*;
use crate::syntax::{
    fn_head, item_texts, parse_fn, parse_items, source_items, FnHead, FnHeadText, ItemKind,
    ItemText, SourceItem,
};
use crate::text::{
    capped, chars_of, clone_texts, contains, contains_text, count, count_of, dec, decimal,
    ends_with, find_at, find_from, join, joined, lines, lines_of, occurs, opt_text, same,
    slice_texts, string_of, texts, trim, trim_end_char, trimmed, without_end,
};
use crate::wcf::{CodeBlockMatch, MatchText};
use crate::wcf_functions::opt_head;
use crate::wcf_heads::{keep_head, kept_head};

verus! {

/// `content` with lines `start` to `end`, counted from zero, exchanged for `new`, whose line
/// feeds at the end are dropped. A line feed at the end of `content` stays.
pub open spec fn lines_replaced(content: Seq<char>, start: int, end: int, new: Seq<char>) -> Seq<
    char,
> {
    let ls = lines(content);
    joined(
        ls.take(start) + seq![without_end(new, '\n')] + ls.skip(end + 1),
        "\n"@,
    ) + if "\n"@.is_suffix_of(content) {
        "\n"@
    } else {
        Seq::empty()
    }
}

fn replace_lines(content: &str, start: usize, end: usize, new: &str) -> (r: String)
    requires
        start <= end < lines(content@).len(),
    ensures
        r@ == lines_replaced(content@, start as int, end as int, new@),
{
    let ls: Vec<String> = lines_of(content);
    let ghost all = texts(ls@);
    let n: usize = ls.len();
    let mut parts: Vec<String> = slice_texts(ls.as_slice(), 0, start);
    parts.push(trim_end_char(new, '\n'));
    let mut tail: Vec<String> = slice_texts(ls.as_slice(), end + 1, n);
    parts.append(&mut tail);
    assert(texts(parts@) =~= all.take(start as int) + seq![without_end(new@, '\n')] + all.skip(
        end + 1,
    ));
    let mut out: String = join(parts.as_slice(), "\n");
    let mut tail_end: String = String::new();
    if ends_with(content, "\n") {
        tail_end = "\n".to_owned();
    }
    out.append(tail_end.as_str());
    out
}

/// Whether lines `range`, counted from one, stand in `content` in this order. Line zero counts as
/// line one.
pub open spec fn range_fits(content: Seq<char>, range: (int, int)) -> bool {
    let start = if range.0 > 0 {
        range.0 - 1
    } else {
        0
    };
    let end = if range.1 > 0 {
        range.1 - 1
    } else {
        0
    };
    start <= end < lines(content).len()
}

pub open spec fn zero_based(line: int) -> int {
    if line > 0 {
        line - 1
    } else {
        0
    }
}

/// `content` with the lines `line_range`, counted from one, exchanged for `formatted_new`; an
/// error where it has no such lines.
pub fn replace_block_by_line_range(
    content: &str,
    line_range: (usize, usize),
    formatted_new: &str,
    file_path: &str,
) -> (r: Result<String, String>)
    ensures
        match r {
            Ok(s) => range_fits(content@, (line_range.0 as int, line_range.1 as int)) && s@
                == lines_replaced(
                content@,
                zero_based(line_range.0 as int),
                zero_based(line_range.1 as int),
                formatted_new@,
            ),
            Err(e) => !range_fits(content@, (line_range.0 as int, line_range.1 as int)) && e@
                == "Invalid line range "@ + dec(line_range.0 as nat) + "-"@ + dec(
                line_range.1 as nat,
            ) + " for "@ + file_path@,
        },
{
    let start: usize = line_range.0.saturating_sub(1);
    let end: usize = line_range.1.saturating_sub(1);
    let ls: Vec<String> = lines_of(content);
    assert(texts(ls@).len() == ls@.len());
    if start >= ls.len() || end >= ls.len() || start > end {
        let mut e: String = "Invalid line range ".to_owned();
        e.append(decimal(line_range.0 as u64).as_str());
        e.append("-");
        e.append(decimal(line_range.1 as u64).as_str());
        e.append(" for ");
        e.append(file_path);
        return Err(e);
    }
    Ok(replace_lines(content, start, end, formatted_new))
}

/// The error where a match has no lines.
pub open spec fn no_range_error(kind: Seq<char>, m: MatchText) -> Seq<char> {
    "No exact line range found for "@ + kind + " '"@ + m.block_name + "' in "@ + m.file_path
}

fn replace_by_match(content: &str, m: &CodeBlockMatch, formatted_new: &str, kind: &str) -> (r:
    Result<String, String>)
    ensures
        block_replaced(content@, m@, formatted_new@, kind@, r),
{
    match m.line_range {
        Some(range) => replace_block_by_line_range(
            content,
            range,
            formatted_new,
            m.file_path.as_str(),
        ),
        None => {
            let mut e: String = "No exact line range found for ".to_owned();
            e.append(kind);
            e.append(" '");
            e.append(m.block_name.as_str());
            e.append("' in ");
            e.append(m.file_path.as_str());
            Err(e)
        },
    }
}

/// What the replacement of a struct or enum returns.
pub open spec fn block_replaced(
    content: Seq<char>,
    m: MatchText,
    new: Seq<char>,
    kind: Seq<char>,
    r: Result<String, String>,
) -> bool {
    match m.line_range {
        Some(range) => match r {
            Ok(s) => range_fits(content, range) && s@ == lines_replaced(
                content,
                zero_based(range.0),
                zero_based(range.1),
                new,
            ),
            Err(e) => !range_fits(content, range) && e@ == "Invalid line range "@ + dec(
                range.0 as nat,
            ) + "-"@ + dec(range.1 as nat) + " for "@ + m.file_path,
        },
        None => r matches Err(e) && e@ == no_range_error(kind, m),
    }
}

/// `content` with a struct exchanged for `formatted_new`.
pub fn replace_struct_in_file(
    content: &str,
    struct_match: &CodeBlockMatch,
    formatted_new: &str,
) -> (r:
    Result<String, String>)
    ensures
        block_replaced(content@, struct_match@, formatted_new@, "struct"@, r),
{
    replace_by_match(content, struct_match, formatted_new, "struct")
}

/// `content` with an enum exchanged for `formatted_new`.
pub fn replace_enum_in_file(content: &str, enum_match: &CodeBlockMatch, formatted_new: &str) -> (r:
    Result<String, String>)
    ensures
        block_replaced(content@, enum_match@, formatted_new@, "enum"@, r),
{
    replace_by_match(content, enum_match, formatted_new, "enum")
}

/// The lines before and behind the replaced ones stay as they are, in their places.
pub proof fn law_other_lines_stay(ls: Seq<Seq<char>>, start: int, end: int, new: Seq<char>)
    requires
        0 <= start <= end < ls.len(),
    ensures
        ({
            let out = ls.take(start) + seq![new] + ls.skip(end + 1);
            &&& out.len() == ls.len() - (end - start)
            &&& forall|i: int| 0 <= i < start ==> out[i] == ls[i]
            &&& forall|i: int| end < i < ls.len() ==> out[i - (end - start)] == ls[i]
            &&& out[start] == new
        }),
{
}

/// How a function is put in place of another one.
#[derive(Debug, PartialEq, Eq)]
pub enum Replacement {
    /// The new content of the file.
    Content(String),
    /// The item at this place of the parsed file becomes the new function, with these attributes,
    /// this visibility and these markers before its `fn`; the file is then written out anew.
    Rebuild {
        index: usize,
        attrs: Vec<String>,
        vis: String,
        is_async: bool,
        is_unsafe: bool,
    },
}

/// What a `Replacement` holds.
pub enum ReplacementText {
    Content(Seq<char>),
    Rebuild {
        index: int,
        attrs: Seq<Seq<char>>,
        vis: Seq<char>,
        is_async: bool,
        is_unsafe: bool,
    },
}

impl View for Replacement {
    type V = ReplacementText;

    open spec fn view(&self) -> ReplacementText {
        match self {
            Replacement::Content(s) => ReplacementText::Content(s@),
            Replacement::Rebuild { index, attrs, vis, is_async, is_unsafe } => ReplacementText::Rebuild {
                index: *index as int,
                attrs: texts(attrs@),
                vis: vis@,
                is_async: *is_async,
                is_unsafe: *is_unsafe,
            },
        }
    }
}

/// Why a function cannot be replaced.
#[derive(Debug, PartialEq, Eq)]
pub enum ReplaceError {
    /// The file does not parse.
    Content,
    /// The new block is no function.
    Block,
    /// The function was not found; a message says which.
    NotFound(String),
}

/// What a `ReplaceError` holds.
pub enum ReplaceErrorText {
    Content,
    Block,
    NotFound(Seq<char>),
}

impl View for ReplaceError {
    type V = ReplaceErrorText;

    open spec fn view(&self) -> ReplaceErrorText {
        match self {
            ReplaceError::Content => ReplaceErrorText::Content,
            ReplaceError::Block => ReplaceErrorText::Block,
            ReplaceError::NotFound(m) => ReplaceErrorText::NotFound(m@),
        }
    }
}

/// `content` with the one place where `old_block` stands exchanged for `new`; nothing where it is
/// empty or stands not just once.
pub open spec fn once_replaced(content: Seq<char>, old_block: Seq<char>, new: Seq<char>) -> Option<
    Seq<char>,
> {
    if old_block.len() > 0 && count_of(content, old_block) == 1 && find_from(
        content,
        old_block,
        0,
    ) is Some {
        let p = find_from(content, old_block, 0)->0;
        Some(content.take(p) + new + content.skip(p + old_block.len()))
    } else {
        None
    }
}

fn replace_once(content: &str, old_block: &str, new: &str) -> (r: Option<String>)
    ensures
        opt_text(r) == once_replaced(content@, old_block@, new@),
{
    if old_block.is_empty() || count(content, old_block) != 1 {
        proof {
            assert(capped(count_of(content@, old_block@)) != 1 ==> count_of(content@, old_block@)
                != 1);
        }
        return None;
    }
    let cs: Vec<char> = chars_of(content);
    let os: Vec<char> = chars_of(old_block);
    match find_at(&cs, &os, 0) {
        Some(p) => {
            let n: usize = cs.len();
            let mut out: String = string_of(&cs, 0, p);
            out.append(new);
            let tail: String = string_of(&cs, p + os.len(), n);
            out.append(tail.as_str());
            assert(out@ =~= cs@.take(p as int) + new@ + cs@.skip(p + os@.len()));
            Some(out)
        },
        None => None,
    }
}

/// The first function called `name` among the items, from item `i` on.
pub open spec fn first_function(items: Seq<ItemText>, name: Seq<char>, i: int) -> Option<int>
    decreases items.len() - i,
{
    if i >= items.len() {
        None
    } else if items[i].kind == ItemKind::Function && items[i].name == name {
        Some(i)
    } else {
        first_function(items, name, i + 1)
    }
}

fn find_first_function(items: &[SourceItem], name: &str) -> (r: Option<usize>)
    ensures
        first_function(item_texts(items@), name@, 0) == match r {
            Some(i) => Some(i as int),
            None => None,
        },
{
    let ghost all = item_texts(items@);
    let mut i: usize = 0;
    while i < items.len()
        invariant
            i <= items@.len(),
            first_function(all, name@, i as int) == first_function(all, name@, 0),
        decreases items@.len() - i,
    {
        assert(all[i as int] == items@[i as int]@);
        if items[i].kind == ItemKind::Function && same(items[i].name.as_str(), name) {
            return Some(i);
        }
        i += 1;
    }
    None
}

/// The attributes of the old function, then those of the new one that it does not have.
pub open spec fn merged_attrs(
    old_attrs: Seq<Seq<char>>,
    new_attrs: Seq<Seq<char>>,
) -> Seq<Seq<char>>
    decreases new_attrs.len(),
{
    if new_attrs.len() == 0 {
        old_attrs
    } else {
        let earlier = merged_attrs(old_attrs, new_attrs.drop_last());
        if earlier.contains(new_attrs.last()) {
            earlier
        } else {
            earlier.push(new_attrs.last())
        }
    }
}

fn merge_attrs(old_attrs: &[String], new_attrs: &[String]) -> (r: Vec<String>)
    ensures
        texts(r@) == merged_attrs(texts(old_attrs@), texts(new_attrs@)),
{
    let ghost all = texts(new_attrs@);
    let mut out: Vec<String> = clone_texts(old_attrs);
    let mut i: usize = 0;
    assert(all.take(0) =~= Seq::<Seq<char>>::empty());
    while i < new_attrs.len()
        invariant
            i <= new_attrs@.len(),
            texts(out@) == merged_attrs(texts(old_attrs@), all.take(i as int)),
        decreases new_attrs@.len() - i,
    {
        let ghost now = all.take(i + 1);
        let ghost earlier = texts(out@);
        assert(now.drop_last() =~= all.take(i as int));
        assert(now.last() == new_attrs@[i as int]@);
        if !contains_text(out.as_slice(), new_attrs[i].as_str()) {
            out.push(new_attrs[i].clone());
            assert(texts(out@) =~= earlier.push(now.last()));
        }
        i += 1;
    }
    assert(all.take(i as int) =~= all);
    out
}

/// Merging attributes keeps all of either function, and none twice that the old one has not twice.
pub proof fn law_merge_keeps_attributes(old_attrs: Seq<Seq<char>>, new_attrs: Seq<Seq<char>>)
    ensures
        old_attrs.is_prefix_of(merged_attrs(old_attrs, new_attrs)),
        forall|a: Seq<char>| #[trigger]
            merged_attrs(old_attrs, new_attrs).contains(a) <==> old_attrs.contains(a)
                || new_attrs.contains(a),
    decreases new_attrs.len(),
{
    let out = merged_attrs(old_attrs, new_attrs);
    if new_attrs.len() > 0 {
        let last = new_attrs.last();
        let earlier = merged_attrs(old_attrs, new_attrs.drop_last());
        law_merge_keeps_attributes(old_attrs, new_attrs.drop_last());
        assert(new_attrs =~= new_attrs.drop_last().push(last));
        assert forall|a: Seq<char>| #[trigger] out.contains(a) <==> old_attrs.contains(a)
            || new_attrs.contains(a) by {
            assert(earlier.push(last).contains(a) <==> earlier.contains(a) || a == last) by {
                broadcast use vstd::seq_lib::group_seq_properties;

            }
            assert(new_attrs.drop_last().push(last).contains(a)
                <==> new_attrs.drop_last().contains(a) || a == last) by {
                broadcast use vstd::seq_lib::group_seq_properties;

            }
            assert(earlier.contains(a) <==> old_attrs.contains(a) || new_attrs.drop_last().contains(a));
        }
        if out != earlier {
            assert(old_attrs =~= out.subrange(0, old_attrs.len() as int));
        }
    } else {
        assert(old_attrs =~= out.subrange(0, old_attrs.len() as int));
    }
}

/// How the parsed file gets the new function: the old one's visibility where it is known, the
/// markers that either has.
pub open spec fn rebuilt(
    index: int,
    old_head: Option<FnHeadText>,
    new_head: FnHeadText,
) -> ReplacementText {
    match old_head {
        Some(h) => ReplacementText::Rebuild {
            index,
            attrs: merged_attrs(h.attrs, new_head.attrs),
            vis: h.vis,
            is_async: h.is_async || new_head.is_async,
            is_unsafe: h.is_unsafe || new_head.is_unsafe,
        },
        None => ReplacementText::Rebuild {
            index,
            attrs: merged_attrs(Seq::empty(), new_head.attrs),
            vis: new_head.vis,
            is_async: new_head.is_async,
            is_unsafe: new_head.is_unsafe,
        },
    }
}

/// A function that is rebuilt keeps how it was declared: its visibility, its attributes, and its
/// `async` and `unsafe` where it had them.
pub proof fn law_rebuilt_keeps_the_head(index: int, old_head: FnHeadText, new_head: FnHeadText)
    ensures
        rebuilt(index, Some(old_head), new_head) matches ReplacementText::Rebuild {
            index: i,
            attrs,
            vis,
            is_async,
            is_unsafe,
        } && i == index && vis == old_head.vis && old_head.attrs.is_prefix_of(attrs) && (
        old_head.is_async ==> is_async) && (old_head.is_unsafe ==> is_unsafe),
{
    law_merge_keeps_attributes(old_head.attrs, new_head.attrs);
}

fn rebuild(index: usize, old_head: &Option<FnHead>, new_head: FnHead) -> (r: Replacement)
    ensures
        r@ == rebuilt(index as int, opt_head(*old_head), new_head@),
{
    match old_head {
        Some(h) => Replacement::Rebuild {
            index,
            attrs: merge_attrs(h.attrs.as_slice(), new_head.attrs.as_slice()),
            vis: h.vis.clone(),
            is_async: h.is_async || new_head.is_async,
            is_unsafe: h.is_unsafe || new_head.is_unsafe,
        },
        None => {
            let none: Vec<String> = Vec::new();
            assert(texts(none@) =~= Seq::<Seq<char>>::empty());
            Replacement::Rebuild {
                index,
                attrs: merge_attrs(none.as_slice(), new_head.attrs.as_slice()),
                vis: new_head.vis.clone(),
                is_async: new_head.is_async,
                is_unsafe: new_head.is_unsafe,
            }
        },
    }
}

/// How a line range is written for the developer.
pub open spec fn range_debug(range: Option<(int, int)>) -> Seq<char> {
    match range {
        Some(r) => "Some(("@ + dec(r.0 as nat) + ", "@ + dec(r.1 as nat) + "))"@,
        None => "None"@,
    }
}

pub open spec fn not_found_error(m: MatchText) -> Seq<char> {
    "Could not determine exact location for selected function '"@ + m.block_name + "' in "@
        + m.file_path + ". line_range="@ + range_debug(m.line_range)
}

fn not_found(m: &CodeBlockMatch) -> (r: String)
    ensures
        r@ == not_found_error(m@),
{
    let mut out: String = "Could not determine exact location for selected function '".to_owned();
    out.append(m.block_name.as_str());
    out.append("' in ");
    out.append(m.file_path.as_str());
    out.append(". line_range=");
    match m.line_range {
        Some((a, b)) => {
            let mut range: String = "Some((".to_owned();
            range.append(decimal(a as u64).as_str());
            range.append(", ");
            range.append(decimal(b as u64).as_str());
            range.append("))");
            out.append(range.as_str());
        },
        None => {
            out.append("None");
        },
    }
    out
}

/// What replacing a function by its syntax gives, given the items of the file and the head of the
/// new function.
pub open spec fn syntax_replaced(
    m: MatchText,
    items: Option<Seq<ItemText>>,
    new_head: Option<FnHeadText>,
) -> Result<ReplacementText, ReplaceErrorText> {
    if occurs(m.block_name, " (in impl "@) {
        Err(ReplaceErrorText::NotFound(not_found_error(m)))
    } else if items is None {
        Err(ReplaceErrorText::Content)
    } else if new_head is None {
        Err(ReplaceErrorText::Block)
    } else {
        match first_function(items->0, m.block_name, 0) {
            Some(i) => Ok(rebuilt(i, m.head, new_head->0)),
            None => Err(ReplaceErrorText::NotFound(not_found_error(m))),
        }
    }
}

/// The new text of a function, with the modifiers that the old one had.
pub open spec fn new_text(m: MatchText, formatted_new: Seq<char>) -> Seq<char> {
    match m.head {
        Some(h) => kept_head(formatted_new, m.block_name, h),
        None => formatted_new,
    }
}

/// The text with which a match is replaced: that of a function with the modifiers that the old one
/// had.
pub fn text_for_match(m: &CodeBlockMatch, formatted_new: &str) -> (r: String)
    ensures
        r@ == new_text(m@, formatted_new@),
{
    match &m.head {
        Some(h) => keep_head(formatted_new, m.block_name.as_str(), h),
        None => formatted_new.to_owned(),
    }
}

/// What replacing a function by its text gives, where it can be done: by its lines, else at the
/// one place where its text stands, else at the one place where its text stands in the formatted
/// file. The new text has the modifiers that the old one had.
pub open spec fn text_replaced(
    content: Seq<char>,
    m: MatchText,
    formatted_new: Seq<char>,
    formatted_old: Seq<char>,
    formatted_content: Seq<char>,
) -> Option<Seq<char>> {
    let kept = new_text(m, formatted_new);
    let new = without_end(kept, '\n');
    let old_block = trimmed(m.old_full_block);
    if m.line_range matches Some(range) && range.0 <= range.1 <= lines(content).len() {
        Some(
            lines_replaced(
                content,
                (m.line_range->0).0 - 1,
                (m.line_range->0).1 - 1,
                kept,
            ),
        )
    } else if old_block.len() == 0 {
        None
    } else if once_replaced(content, old_block, new) is Some {
        once_replaced(content, old_block, new)
    } else {
        once_replaced(formatted_content, trimmed(formatted_old), new)
    }
}

pub open spec fn replaced_view(r: Result<Replacement, ReplaceError>) -> Result<
    ReplacementText,
    ReplaceErrorText,
> {
    match r {
        Ok(x) => Ok(x@),
        Err(e) => Err(e@),
    }
}

/// What replacing a function by its syntax gives.
pub fn replace_by_syntax(
    m: &CodeBlockMatch,
    items: Option<Vec<SourceItem>>,
    new_head: Option<FnHead>,
) -> (r: Result<Replacement, ReplaceError>)
    ensures
        replaced_view(r) == syntax_replaced(
            m@,
            match items {
                Some(v) => Some(item_texts(v@)),
                None => None,
            },
            opt_head(new_head),
        ),
{
    if contains(m.block_name.as_str(), " (in impl ") {
        return Err(ReplaceError::NotFound(not_found(m)));
    }
    let found: Option<usize> = match &items {
        Some(v) => find_first_function(v.as_slice(), m.block_name.as_str()),
        None => {
            return Err(ReplaceError::Content);
        },
    };
    match new_head {
        Some(h) => match found {
            Some(i) => Ok(rebuild(i, &m.head, h)),
            None => Err(ReplaceError::NotFound(not_found(m))),
        },
        None => Err(ReplaceError::Block),
    }
}

/// `content` with a function exchanged for `formatted_new`, which is `new_block_str` formatted;
/// `formatted_old` and `formatted_content` are the old function and `content` formatted.
pub fn replace_function_in_file(
    content: &str,
    func_match: &CodeBlockMatch,
    new_block_str: &str,
    formatted_new: &str,
    formatted_old: &str,
    formatted_content: &str,
) -> (r: Result<Replacement, ReplaceError>)
    requires
        func_match.line_range matches Some(range) ==> range.0 >= 1 && range.1 >= 1,
    ensures
        replaced_view(r) == match text_replaced(
            content@,
            func_match@,
            formatted_new@,
            formatted_old@,
            formatted_content@,
        ) {
            Some(s) => Ok(ReplacementText::Content(s)),
            None => syntax_replaced(func_match@, source_items(content@), fn_head(new_block_str@)),
        },
{
    let ls: Vec<String> = lines_of(content);
    assert(texts(ls@).len() == ls@.len());
    let kept: String = text_for_match(func_match, formatted_new);
    match func_match.line_range {
        Some((a, b)) => {
            if a <= b && b <= ls.len() {
                return Ok(
                    Replacement::Content(replace_lines(content, a - 1, b - 1, kept.as_str())),
                );
            }
        },
        None => {},
    }
    let new: String = trim_end_char(kept.as_str(), '\n');
    let old_block: String = trim(func_match.old_full_block.as_str());
    if !old_block.as_str().is_empty() {
        match replace_once(content, old_block.as_str(), new.as_str()) {
            Some(s) => {
                return Ok(Replacement::Content(s));
            },
            None => {},
        }
        let old_fmt: String = trim(formatted_old);
        match replace_once(formatted_content, old_fmt.as_str(), new.as_str()) {
            Some(s) => {
                return Ok(Replacement::Content(s));
            },
            None => {},
        }
    }
    replace_by_syntax(func_match, parse_items(content), parse_fn(new_block_str))
}

} // verus!
