//! Pasting the clipboard into a file.

use vstd::prelude::*;
use vstd::utf8::encode_utf8;
use crate::common::TextStats;
use crate::config::{is_yes, means_yes, truth, truth_text};
use crate::diff::{
    change_texts, diff_lines, is_on, is_one_line, line_changes, lines_end, side, ChangeTag, LineChange,
};
use crate::ordered::TextMap;
use crate::text::{
    before_char, chars_of, dec, decimal, ends_with, has_char, index_of, is_space, is_white,
    lemma_count_lines, lemma_newlines_join, lemma_no_newlines, lines, lines_of, newlines, string_of,
    strip_prefix, texts, trim, trimmed, words, words_of,
};
use crate::unicode::{alphanumeric, is_alphanumeric};

verus! {

/// How two texts differ.
#[derive(Clone, Copy, Debug, PartialEq, Eq, Structural)]
pub struct DiffStats {
    pub added_lines: usize,
    pub removed_lines: usize,
    pub changed: bool,
}

/// Where the backup of a file lies: beside it, under its name with `suffix` behind it.
pub fn backup_path(path: &str, suffix: &str) -> (r: String)
    ensures
        r@ == path@ + suffix@,
{
    let mut out: String = path.to_owned();
    out.append(suffix);
    out
}

/// How many lines of a difference have a tag.
pub open spec fn tagged(changes: Seq<(ChangeTag, Seq<char>)>, tag: ChangeTag) -> nat
    decreases changes.len(),
{
    if changes.len() == 0 {
        0
    } else {
        tagged(changes.drop_last(), tag) + if changes.last().0 == tag {
            1nat
        } else {
            0nat
        }
    }
}

/// The lines that a difference adds and removes, and whether there are any.
pub fn count_changes(changes: &[LineChange]) -> (r: DiffStats)
    ensures
        r.added_lines == tagged(change_texts(changes@), ChangeTag::Insert),
        r.removed_lines == tagged(change_texts(changes@), ChangeTag::Delete),
        r.changed == (r.added_lines > 0 || r.removed_lines > 0),
{
    let ghost all = change_texts(changes@);
    let mut added_lines: usize = 0;
    let mut removed_lines: usize = 0;
    let mut i: usize = 0;
    while i < changes.len()
        invariant
            i <= changes@.len(),
            added_lines <= i,
            removed_lines <= i,
            added_lines == tagged(all.take(i as int), ChangeTag::Insert),
            removed_lines == tagged(all.take(i as int), ChangeTag::Delete),
        decreases changes@.len() - i,
    {
        let ghost now = all.take(i + 1);
        assert(now.drop_last() =~= all.take(i as int));
        assert(now.last().0 == changes@[i as int].tag);
        match changes[i].tag {
            ChangeTag::Delete => {
                removed_lines += 1;
            },
            ChangeTag::Insert => {
                added_lines += 1;
            },
            ChangeTag::Equal => {},
        }
        i += 1;
    }
    assert(all.take(i as int) =~= all);
    DiffStats { added_lines, removed_lines, changed: added_lines > 0 || removed_lines > 0 }
}

/// A difference without added and removed lines has two equal sides.
pub proof fn law_unchanged_sides(changes: Seq<(ChangeTag, Seq<char>)>)
    requires
        tagged(changes, ChangeTag::Insert) == 0,
        tagged(changes, ChangeTag::Delete) == 0,
    ensures
        side(changes, ChangeTag::Delete) == side(changes, ChangeTag::Insert),
    decreases changes.len(),
{
    if changes.len() > 0 {
        law_unchanged_sides(changes.drop_last());
    }
}

proof fn lemma_none_tagged(changes: Seq<(ChangeTag, Seq<char>)>, tag: ChangeTag)
    requires
        forall|i: int| 0 <= i < changes.len() ==> (#[trigger] changes[i]).0 != tag,
    ensures
        tagged(changes, tag) == 0,
    decreases changes.len(),
{
    if changes.len() > 0 {
        lemma_none_tagged(changes.drop_last(), tag);
    }
}

proof fn lemma_side_lines(changes: Seq<(ChangeTag, Seq<char>)>, tag: ChangeTag)
    requires
        tag != ChangeTag::Equal,
        forall|i: int| 0 <= i < changes.len() ==> is_one_line((#[trigger] changes[i]).1),
        lines_end(changes, tag),
        !side(changes, tag).contains('\r'),
    ensures
        lines(side(changes, tag)).len() == tagged(changes, tag) + tagged(changes, ChangeTag::Equal),
        side(changes, tag).len() > 0 ==> exists|i: int|
            0 <= i < changes.len() && is_on(#[trigger] changes[i], tag) && changes[i].1.last() == side(
                changes,
                tag,
            ).last(),
    decreases changes.len(),
{
    let all = side(changes, tag);
    lemma_count_lines(all);
    if changes.len() > 0 {
        let earlier = changes.drop_last();
        let e = side(earlier, tag);
        let n = changes.len() - 1;
        let c = changes[n];
        assert forall|i: int, j: int|
            0 <= i < j < earlier.len() && is_on(#[trigger] earlier[i], tag) && is_on(
                #[trigger] earlier[j],
                tag,
            ) implies earlier[i].1.last() == '\n' || earlier[i].1.last() == '\r' by {
            assert(is_on(changes[i], tag) && is_on(changes[j], tag));
        }
        assert forall|i: int| 0 <= i < e.len() implies e[i] != '\r' by {
            assert(all[i] == e[i]);
        }
        lemma_side_lines(earlier, tag);
        lemma_count_lines(e);
        if is_on(c, tag) {
            assert(is_one_line(c.1));
            lemma_newlines_join(e, c.1);
            lemma_one_line(c.1);
            assert(all =~= e + c.1);
            assert(all.last() == c.1.last());
            if e.len() > 0 {
                let i = choose|i: int|
                    0 <= i < earlier.len() && is_on(#[trigger] earlier[i], tag) && earlier[i].1.last()
                        == e.last();
                assert(is_on(changes[i], tag) && is_on(changes[n], tag));
                assert(e[e.len() - 1] != '\r');
            }
        } else {
            assert(all =~= e);
            if e.len() > 0 {
                let i = choose|i: int|
                    0 <= i < earlier.len() && is_on(#[trigger] earlier[i], tag) && earlier[i].1.last()
                        == e.last();
                assert(is_on(changes[i], tag));
            }
        }
    }
}

proof fn lemma_one_line(s: Seq<char>)
    requires
        is_one_line(s),
    ensures
        newlines(s) == if s.last() == '\n' {
            1nat
        } else {
            0nat
        },
{
    let head = s.drop_last();
    assert forall|i: int| 0 <= i < head.len() implies head[i] != '\n' by {
        assert(s[i] != '\n');
    }
    lemma_no_newlines(head);
}

/// How two texts differ: the lines that the new one adds and those that it lacks. Something
/// changed exactly where the texts are not the same, and what is added and removed makes up for
/// how many lines they have.
pub fn diff_stats(old_text: &str, new_text: &str) -> (r: DiffStats)
    ensures
        r.added_lines == tagged(line_changes(old_text@, new_text@), ChangeTag::Insert),
        r.removed_lines == tagged(line_changes(old_text@, new_text@), ChangeTag::Delete),
        r.changed == (r.added_lines > 0 || r.removed_lines > 0),
        r.changed == (old_text@ != new_text@),
        !old_text@.contains('\r') && !new_text@.contains('\r') ==> r.added_lines + lines(
            old_text@,
        ).len() == r.removed_lines + lines(new_text@).len(),
{
    let changes: Vec<LineChange> = diff_lines(old_text, new_text);
    let r: DiffStats = count_changes(changes.as_slice());
    proof {
        let all = change_texts(changes@);
        assert forall|i: int| 0 <= i < all.len() implies is_one_line((#[trigger] all[i]).1) by {
            assert(all[i].1 == changes@[i].text@);
        }
        if !old_text@.contains('\r') && !new_text@.contains('\r') {
            lemma_side_lines(all, ChangeTag::Delete);
            lemma_side_lines(all, ChangeTag::Insert);
        }
        if !r.changed {
            law_unchanged_sides(all);
        }
        if old_text@ == new_text@ {
            assert forall|i: int| 0 <= i < all.len() implies (#[trigger] all[i]).0
                == ChangeTag::Equal by {
                assert(all[i].0 == changes@[i].tag);
            }
            lemma_none_tagged(all, ChangeTag::Insert);
            lemma_none_tagged(all, ChangeTag::Delete);
        }
    }
    r
}

/// Whether `c` can belong to a name.
pub open spec fn in_name(c: char) -> bool {
    alphanumeric(c) || c == '_' || c == ':' || c == '<' || c == '>'
}

/// The characters that begin `s` and can belong to a name.
pub open spec fn leading_name(s: Seq<char>) -> Seq<char>
    decreases s.len(),
{
    if s.len() > 0 && in_name(s[0]) {
        seq![s[0]] + leading_name(s.drop_first())
    } else {
        Seq::empty()
    }
}

fn take_name(s: &str) -> (r: String)
    ensures
        r@ == leading_name(s@),
{
    let cs: Vec<char> = chars_of(s);
    let mut out: String = String::new();
    let mut i: usize = 0;
    assert(cs@.skip(0) =~= cs@);
    assert(out@ + leading_name(cs@) =~= leading_name(cs@));
    while i < cs.len() && (is_alphanumeric(cs[i]) || cs[i] == '_' || cs[i] == ':' || cs[i] == '<'
        || cs[i] == '>')
        invariant
            i <= cs@.len(),
            out@ + leading_name(cs@.skip(i as int)) == leading_name(cs@),
        decreases cs@.len() - i,
    {
        let ghost now = out@;
        let ghost rest = cs@.skip(i as int);
        assert(rest.drop_first() =~= cs@.skip(i + 1));
        out.push(cs[i]);
        assert(out@ + leading_name(cs@.skip(i + 1)) =~= now + leading_name(rest));
        i += 1;
    }
    assert(out@ + leading_name(cs@.skip(i as int)) =~= out@);
    out
}

/// The label of a line that begins with `keyword` and a space: the keyword and the name behind
/// it, where there is one.
pub open spec fn keyword_label(line: Seq<char>, keyword: Seq<char>) -> Option<Seq<char>> {
    let k = keyword + " "@;
    if k.is_prefix_of(line) && leading_name(line.skip(k.len() as int)).len() > 0 {
        Some(keyword + leading_name(line.skip(k.len() as int)))
    } else {
        None
    }
}

fn label_by_keyword(line: &str, keyword: &str) -> (r: Option<String>)
    ensures
        (match r {
            Some(n) => Some(n@),
            None => None,
        }) == keyword_label(line@, keyword@),
{
    let mut k: String = keyword.to_owned();
    k.append(" ");
    match strip_prefix(line, k.as_str()) {
        Some(rest) => {
            let name: String = take_name(rest.as_str());
            if name.as_str().is_empty() {
                None
            } else {
                let mut out: String = keyword.to_owned();
                out.append(name.as_str());
                Some(out)
            }
        },
        None => None,
    }
}

/// The last run of `s` without white space, where it ends in one.
pub open spec fn final_word(s: Seq<char>) -> Seq<char>
    decreases s.len(),
{
    if s.len() == 0 || is_space(s.last()) {
        Seq::empty()
    } else {
        final_word(s.drop_last()).push(s.last())
    }
}

fn take_final_word(s: &str) -> (r: String)
    ensures
        r@ == final_word(s@),
{
    let cs: Vec<char> = chars_of(s);
    let mut i: usize = cs.len();
    assert(cs@.take(i as int) =~= cs@);
    assert(final_word(cs@) =~= final_word(cs@.take(i as int)) + cs@.skip(i as int));
    while i > 0 && !is_white(cs[i - 1])
        invariant
            i <= cs@.len(),
            final_word(cs@) == final_word(cs@.take(i as int)) + cs@.skip(i as int),
        decreases i,
    {
        assert(cs@.take(i as int).drop_last() =~= cs@.take(i - 1));
        assert(final_word(cs@.take(i as int)) + cs@.skip(i as int) =~= final_word(cs@.take(i - 1))
            + cs@.skip(i - 1));
        i -= 1;
    }
    assert(final_word(cs@) =~= cs@.skip(i as int));
    string_of(&cs, i, cs.len())
}

/// What names the function that a line begins, where it begins one: a keyword and the name behind
/// it, or the word before the parenthesis of a line that opens a block.
pub open spec fn function_label(line: Seq<char>) -> Option<Seq<char>> {
    let t = trimmed(line);
    if keyword_label(t, "fn"@) is Some {
        keyword_label(t, "fn"@)
    } else if keyword_label(t, "pub fn"@) is Some {
        keyword_label(t, "pub fn"@)
    } else if keyword_label(t, "pub(crate) fn"@) is Some {
        keyword_label(t, "pub(crate) fn"@)
    } else if keyword_label(t, "def"@) is Some {
        keyword_label(t, "def"@)
    } else if keyword_label(t, "function"@) is Some {
        keyword_label(t, "function"@)
    } else if keyword_label(t, "class"@) is Some {
        keyword_label(t, "class"@)
    } else if keyword_label(t, "impl"@) is Some {
        keyword_label(t, "impl"@)
    } else {
        let name = final_word(trimmed(t.take(index_of(t, '('))));
        if t.contains('(') && "{"@.is_suffix_of(t) && name.len() > 0 {
            Some(name)
        } else {
            None
        }
    }
}

/// What names the function that a line begins, where it begins one.
pub fn detect_function_name(line: &str) -> (r: Option<String>)
    ensures
        (match r {
            Some(n) => Some(n@),
            None => None,
        }) == function_label(line@),
{
    let t: String = trim(line);
    let s: &str = t.as_str();
    let by_keyword: Option<String> = match label_by_keyword(s, "fn") {
        Some(n) => Some(n),
        None => match label_by_keyword(s, "pub fn") {
            Some(n) => Some(n),
            None => match label_by_keyword(s, "pub(crate) fn") {
                Some(n) => Some(n),
                None => match label_by_keyword(s, "def") {
                    Some(n) => Some(n),
                    None => match label_by_keyword(s, "function") {
                        Some(n) => Some(n),
                        None => match label_by_keyword(s, "class") {
                            Some(n) => Some(n),
                            None => label_by_keyword(s, "impl"),
                        },
                    },
                },
            },
        },
    };
    if by_keyword.is_some() {
        return by_keyword;
    }
    if has_char(s, '(') && ends_with(s, "{") {
        let before: String = before_char(s, '(');
        let name: String = take_final_word(trim(before.as_str()).as_str());
        if !name.as_str().is_empty() {
            return Some(name);
        }
    }
    None
}

/// For each line, what names the function that it belongs to.
pub open spec fn line_owners(ls: Seq<Seq<char>>) -> Seq<Seq<char>>
    decreases ls.len(),
{
    if ls.len() == 0 {
        Seq::empty()
    } else {
        let earlier = line_owners(ls.drop_last());
        earlier.push(
            match function_label(ls.last()) {
                Some(n) => n,
                None => if earlier.len() > 0 {
                    earlier.last()
                } else {
                    "<global>"@
                },
            },
        )
    }
}

/// For each line of a source text, what names the function that it belongs to.
pub fn map_lines_to_function(src: &str) -> (r: Vec<String>)
    ensures
        texts(r@) == line_owners(lines(src@)),
{
    let ls: Vec<String> = lines_of(src);
    let ghost all = texts(ls@);
    let mut out: Vec<String> = Vec::new();
    let mut current: String = "<global>".to_owned();
    let mut i: usize = 0;
    while i < ls.len()
        invariant
            i <= ls@.len(),
            texts(out@) == line_owners(all.take(i as int)),
            current@ == if out@.len() > 0 {
                texts(out@).last()
            } else {
                "<global>"@
            },
        decreases ls@.len() - i,
    {
        let ghost now = all.take(i + 1);
        let ghost earlier = texts(out@);
        assert(now.drop_last() =~= all.take(i as int));
        assert(now.last() == ls@[i as int]@);
        match detect_function_name(ls[i].as_str()) {
            Some(name) => {
                current = name;
            },
            None => {},
        }
        out.push(current.clone());
        assert(texts(out@) =~= earlier.push(current@));
        i += 1;
    }
    assert(all.take(i as int) =~= all);
    out
}

/// How many lines of one side of a difference there are.
pub open spec fn side_lines(changes: Seq<(ChangeTag, Seq<char>)>, tag: ChangeTag) -> nat
    decreases changes.len(),
{
    if changes.len() == 0 {
        0
    } else {
        let t = changes.last().0;
        side_lines(changes.drop_last(), tag) + if t == tag || t == ChangeTag::Equal {
            1nat
        } else {
            0nat
        }
    }
}

/// What names the function that line `i` belongs to.
pub open spec fn owner_at(names: Seq<Seq<char>>, i: int) -> Seq<char> {
    if i < names.len() {
        names[i]
    } else {
        "<global>"@
    }
}

/// How many lines with a tag belong to the function `name`; `names` are the functions of the
/// lines on the tag's side.
pub open spec fn owned_changes(
    changes: Seq<(ChangeTag, Seq<char>)>,
    tag: ChangeTag,
    names: Seq<Seq<char>>,
    name: Seq<char>,
) -> nat
    decreases changes.len(),
{
    if changes.len() == 0 {
        0
    } else {
        let earlier = changes.drop_last();
        owned_changes(earlier, tag, names, name) + if changes.last().0 == tag && owner_at(
            names,
            side_lines(earlier, tag) as int,
        ) == name {
            1nat
        } else {
            0nat
        }
    }
}

/// Whether a map holds, for each function with changed lines and no other, how it changed.
pub open spec fn counts_by_owner(
    m: Map<Seq<char>, DiffStats>,
    changes: Seq<(ChangeTag, Seq<char>)>,
    old_names: Seq<Seq<char>>,
    new_names: Seq<Seq<char>>,
) -> bool {
    forall|name: Seq<char>|
        {
            let added = owned_changes(changes, ChangeTag::Insert, new_names, name);
            let removed = owned_changes(changes, ChangeTag::Delete, old_names, name);
            &&& #[trigger] m.dom().contains(name) <==> added + removed > 0
            &&& m.dom().contains(name) ==> m[name].added_lines == added && m[name].removed_lines
                == removed && m[name].changed
        }
}

/// The changed lines with a tag of some functions, all together.
pub open spec fn owned_by_all(
    changes: Seq<(ChangeTag, Seq<char>)>,
    tag: ChangeTag,
    names: Seq<Seq<char>>,
    functions: Seq<Seq<char>>,
) -> nat
    decreases functions.len(),
{
    if functions.len() == 0 {
        0
    } else {
        owned_by_all(changes, tag, names, functions.drop_last()) + owned_changes(
            changes,
            tag,
            names,
            functions.last(),
        )
    }
}

proof fn lemma_one_more(
    changes: Seq<(ChangeTag, Seq<char>)>,
    tag: ChangeTag,
    names: Seq<Seq<char>>,
    functions: Seq<Seq<char>>,
)
    requires
        changes.len() > 0,
        functions.no_duplicates(),
    ensures
        owned_by_all(changes, tag, names, functions) == owned_by_all(
            changes.drop_last(),
            tag,
            names,
            functions,
        ) + if changes.last().0 == tag && functions.contains(
            owner_at(names, side_lines(changes.drop_last(), tag) as int),
        ) {
            1nat
        } else {
            0nat
        },
    decreases functions.len(),
{
    let owner = owner_at(names, side_lines(changes.drop_last(), tag) as int);
    if functions.len() > 0 {
        let fewer = functions.drop_last();
        assert(fewer.no_duplicates());
        lemma_one_more(changes, tag, names, fewer);
        assert(functions.contains(owner) <==> fewer.contains(owner) || functions.last() == owner) by {
            if functions.contains(owner) {
                let k = choose|k: int| 0 <= k < functions.len() && functions[k] == owner;
                if k < fewer.len() {
                    assert(fewer[k] == owner);
                }
            }
            if fewer.contains(owner) {
                let k = choose|k: int| 0 <= k < fewer.len() && fewer[k] == owner;
                assert(functions[k] == owner);
            }
            if functions.last() == owner {
                assert(functions[functions.len() - 1] == owner);
            }
        }
        if functions.last() == owner && fewer.contains(owner) {
            let k = choose|k: int| 0 <= k < fewer.len() && fewer[k] == owner;
            assert(functions[k] == functions[functions.len() - 1]);
        }
    }
}

proof fn lemma_all_owned(
    changes: Seq<(ChangeTag, Seq<char>)>,
    tag: ChangeTag,
    names: Seq<Seq<char>>,
    functions: Seq<Seq<char>>,
)
    requires
        functions.no_duplicates(),
        forall|name: Seq<char>|
            #[trigger] owned_changes(changes, tag, names, name) > 0 ==> functions.contains(name),
    ensures
        owned_by_all(changes, tag, names, functions) == tagged(changes, tag),
    decreases changes.len(),
{
    if changes.len() > 0 {
        let earlier = changes.drop_last();
        assert forall|name: Seq<char>|
            #[trigger] owned_changes(earlier, tag, names, name) > 0 implies functions.contains(
            name,
        ) by {
            assert(owned_changes(changes, tag, names, name) > 0);
        }
        lemma_all_owned(earlier, tag, names, functions);
        lemma_one_more(changes, tag, names, functions);
        if changes.last().0 == tag {
            let owner = owner_at(names, side_lines(earlier, tag) as int);
            assert(owned_changes(changes, tag, names, owner) > 0);
        }
    } else {
        lemma_none_owned(changes, tag, names, functions);
    }
}

proof fn lemma_none_owned(
    changes: Seq<(ChangeTag, Seq<char>)>,
    tag: ChangeTag,
    names: Seq<Seq<char>>,
    functions: Seq<Seq<char>>,
)
    requires
        changes.len() == 0,
    ensures
        owned_by_all(changes, tag, names, functions) == 0,
    decreases functions.len(),
{
    if functions.len() > 0 {
        lemma_none_owned(changes, tag, names, functions.drop_last());
    }
}

/// The changes of the functions add up to the changes of the whole text: no added and no removed
/// line is left out or counted twice. `functions` are the functions that a map of changes names,
/// in any order.
pub proof fn law_changes_add_up(
    m: Map<Seq<char>, DiffStats>,
    changes: Seq<(ChangeTag, Seq<char>)>,
    old_names: Seq<Seq<char>>,
    new_names: Seq<Seq<char>>,
    functions: Seq<Seq<char>>,
)
    requires
        counts_by_owner(m, changes, old_names, new_names),
        functions.no_duplicates(),
        forall|name: Seq<char>| #[trigger] m.dom().contains(name) <==> functions.contains(name),
    ensures
        owned_by_all(changes, ChangeTag::Insert, new_names, functions) == tagged(
            changes,
            ChangeTag::Insert,
        ),
        owned_by_all(changes, ChangeTag::Delete, old_names, functions) == tagged(
            changes,
            ChangeTag::Delete,
        ),
        forall|i: int|
            #![trigger functions[i]]
            0 <= i < functions.len() ==> m[functions[i]].added_lines == owned_changes(
                changes,
                ChangeTag::Insert,
                new_names,
                functions[i],
            ) && m[functions[i]].removed_lines == owned_changes(
                changes,
                ChangeTag::Delete,
                old_names,
                functions[i],
            ),
{
    assert forall|name: Seq<char>|
        #[trigger] owned_changes(changes, ChangeTag::Insert, new_names, name)
            > 0 implies functions.contains(name) by {
        assert(m.dom().contains(name));
    }
    assert forall|name: Seq<char>|
        #[trigger] owned_changes(changes, ChangeTag::Delete, old_names, name)
            > 0 implies functions.contains(name) by {
        assert(m.dom().contains(name));
    }
    lemma_all_owned(changes, ChangeTag::Insert, new_names, functions);
    lemma_all_owned(changes, ChangeTag::Delete, old_names, functions);
    assert forall|i: int|
        #![trigger functions[i]]
        0 <= i < functions.len() implies m[functions[i]].added_lines == owned_changes(
        changes,
        ChangeTag::Insert,
        new_names,
        functions[i],
    ) && m[functions[i]].removed_lines == owned_changes(
        changes,
        ChangeTag::Delete,
        old_names,
        functions[i],
    ) by {
        assert(functions.contains(functions[i]));
        assert(m.dom().contains(functions[i]));
    }
}

fn owner_of(names: &[String], i: usize) -> (r: String)
    ensures
        r@ == owner_at(texts(names@), i as int),
{
    if i < names.len() {
        names[i].clone()
    } else {
        "<global>".to_owned()
    }
}

fn stats_of(stats: &TextMap<DiffStats>, name: &str) -> (r: DiffStats)
    requires
        stats.wf(),
    ensures
        r == if stats@.dom().contains(name@) {
            stats@[name@]
        } else {
            DiffStats { added_lines: 0, removed_lines: 0, changed: false }
        },
{
    match stats.get(name) {
        Some(s) => *s,
        None => DiffStats { added_lines: 0, removed_lines: 0, changed: false },
    }
}

proof fn lemma_owned_bound(
    changes: Seq<(ChangeTag, Seq<char>)>,
    tag: ChangeTag,
    names: Seq<Seq<char>>,
    name: Seq<char>,
)
    ensures
        owned_changes(changes, tag, names, name) <= changes.len(),
    decreases changes.len(),
{
    if changes.len() > 0 {
        lemma_owned_bound(changes.drop_last(), tag, names, name);
    }
}

/// How the functions with changed lines changed, given the functions of the lines of either text
/// and their difference.
pub fn changes_by_function(
    old_names: &[String],
    new_names: &[String],
    changes: &[LineChange],
) -> (r: TextMap<DiffStats>)
    ensures
        r.wf(),
        counts_by_owner(r@, change_texts(changes@), texts(old_names@), texts(new_names@)),
{
    let ghost all = change_texts(changes@);
    let ghost olds = texts(old_names@);
    let ghost news = texts(new_names@);
    let mut stats: TextMap<DiffStats> = TextMap::new();
    let mut old_line: usize = 0;
    let mut new_line: usize = 0;
    let mut i: usize = 0;
    assert(all.take(0) =~= Seq::<(ChangeTag, Seq<char>)>::empty());
    while i < changes.len()
        invariant
            i <= changes@.len(),
            stats.wf(),
            old_line <= i,
            new_line <= i,
            old_line == side_lines(all.take(i as int), ChangeTag::Delete),
            new_line == side_lines(all.take(i as int), ChangeTag::Insert),
            counts_by_owner(stats@, all.take(i as int), olds, news),
        decreases changes@.len() - i,
    {
        let ghost so_far = all.take(i as int);
        let ghost now = all.take(i + 1);
        let ghost was = stats@;
        assert(now.drop_last() =~= so_far);
        assert(now.last().0 == changes@[i as int].tag);
        match changes[i].tag {
            ChangeTag::Equal => {
                old_line += 1;
                new_line += 1;
            },
            ChangeTag::Delete => {
                let name: String = owner_of(old_names, old_line);
                let s: DiffStats = stats_of(&stats, name.as_str());
                proof {
                    lemma_owned_bound(so_far, ChangeTag::Delete, olds, name@);
                }
                stats.insert(
                    name.as_str(),
                    DiffStats {
                        added_lines: s.added_lines,
                        removed_lines: s.removed_lines + 1,
                        changed: true,
                    },
                );
                old_line += 1;
            },
            ChangeTag::Insert => {
                let name: String = owner_of(new_names, new_line);
                let s: DiffStats = stats_of(&stats, name.as_str());
                proof {
                    lemma_owned_bound(so_far, ChangeTag::Insert, news, name@);
                }
                stats.insert(
                    name.as_str(),
                    DiffStats {
                        added_lines: s.added_lines + 1,
                        removed_lines: s.removed_lines,
                        changed: true,
                    },
                );
                new_line += 1;
            },
        }
        proof {
            assert forall|name: Seq<char>|
                {
                    let added = owned_changes(now, ChangeTag::Insert, news, name);
                    let removed = owned_changes(now, ChangeTag::Delete, olds, name);
                    &&& #[trigger] stats@.dom().contains(name) <==> added + removed > 0
                    &&& stats@.dom().contains(name) ==> stats@[name].added_lines == added
                        && stats@[name].removed_lines == removed && stats@[name].changed
                } by {
                assert(was.dom().contains(name) <==> owned_changes(
                    so_far,
                    ChangeTag::Insert,
                    news,
                    name,
                ) + owned_changes(so_far, ChangeTag::Delete, olds, name) > 0);
            }
        }
        i += 1;
    }
    assert(all.take(i as int) =~= all);
    stats
}

/// How the functions with changed lines changed from one text to the other.
pub fn function_diff_stats(old_text: &str, new_text: &str) -> (r: TextMap<DiffStats>)
    ensures
        r.wf(),
        counts_by_owner(
            r@,
            line_changes(old_text@, new_text@),
            line_owners(lines(old_text@)),
            line_owners(lines(new_text@)),
        ),
{
    let old_names: Vec<String> = map_lines_to_function(old_text);
    let new_names: Vec<String> = map_lines_to_function(new_text);
    let changes: Vec<LineChange> = diff_lines(old_text, new_text);
    changes_by_function(old_names.as_slice(), new_names.as_slice(), changes.as_slice())
}

/// Whether a word looks like a file name: it has a dot, no slash and more than two bytes.
pub open spec fn looks_like_file(word: Seq<char>) -> bool {
    word.contains('.') && !word.contains('/') && encode_utf8(word).len() > 2
}

/// The first of the words, from word `i` on, that looks like a file name.
pub open spec fn first_file(ws: Seq<Seq<char>>, i: int) -> Option<Seq<char>>
    decreases ws.len() - i,
{
    if i >= ws.len() {
        None
    } else if looks_like_file(ws[i]) {
        Some(ws[i])
    } else {
        first_file(ws, i + 1)
    }
}

/// Whether `s` has no white space.
pub open spec fn unspaced(s: Seq<char>) -> bool {
    forall|i: int| 0 <= i < s.len() ==> !is_space(#[trigger] s[i])
}

/// What stands behind the comment mark, or its repetition, that begins a line.
pub open spec fn comment_body(line: Seq<char>, mark: Seq<char>) -> Seq<char> {
    let body = trimmed(line.skip(mark.len() as int));
    if mark.is_prefix_of(body) {
        body.skip(mark.len() as int)
    } else {
        body
    }
}

/// The file name that a comment holds: all of it where it has a dot and no white space, else the
/// first of its words that looks like one.
pub open spec fn comment_file(line: Seq<char>, mark: Seq<char>) -> Option<Seq<char>> {
    let body = comment_body(line, mark);
    if !mark.is_prefix_of(line) {
        None
    } else if body.contains('.') && unspaced(body) {
        Some(body)
    } else {
        first_file(words(body), 0)
    }
}

fn has_no_space(s: &str) -> (r: bool)
    ensures
        r == unspaced(s@),
{
    let cs: Vec<char> = chars_of(s);
    let mut i: usize = 0;
    while i < cs.len()
        invariant
            i <= cs@.len(),
            forall|j: int| 0 <= j < i ==> !is_space(#[trigger] cs@[j]),
        decreases cs@.len() - i,
    {
        if is_white(cs[i]) {
            return false;
        }
        i += 1;
    }
    true
}

fn file_in_comment(line: &str, mark: &str) -> (r: Option<String>)
    ensures
        (match r {
            Some(n) => Some(n@),
            None => None,
        }) == comment_file(line@, mark@),
{
    let after: String = match strip_prefix(line, mark) {
        Some(rest) => trim(rest.as_str()),
        None => {
            return None;
        },
    };
    let body: String = match strip_prefix(after.as_str(), mark) {
        Some(rest) => rest,
        None => after,
    };
    assert(body@ == comment_body(line@, mark@));
    if has_char(body.as_str(), '.') && has_no_space(body.as_str()) {
        return Some(body);
    }
    let ws: Vec<String> = words_of(body.as_str());
    let ghost all = texts(ws@);
    let mut i: usize = 0;
    while i < ws.len()
        invariant
            i <= ws@.len(),
            first_file(all, i as int) == first_file(all, 0),
        decreases ws@.len() - i,
    {
        assert(all[i as int] == ws@[i as int]@);
        let w: &str = ws[i].as_str();
        if has_char(w, '.') && !has_char(w, '/') && w.as_bytes().len() > 2 {
            return Some(ws[i].clone());
        }
        i += 1;
    }
    None
}

/// The file name that a line holds as a comment in one of the usual styles.
pub open spec fn line_file(line: Seq<char>) -> Option<Seq<char>> {
    let t = trimmed(line);
    if comment_file(t, "//"@) is Some {
        comment_file(t, "//"@)
    } else if comment_file(t, "#"@) is Some {
        comment_file(t, "#"@)
    } else if comment_file(t, "/*"@) is Some {
        comment_file(t, "/*"@)
    } else if comment_file(t, "<!--"@) is Some {
        comment_file(t, "<!--"@)
    } else if comment_file(t, ";"@) is Some {
        comment_file(t, ";"@)
    } else {
        comment_file(t, "--"@)
    }
}

fn file_in_line(line: &str) -> (r: Option<String>)
    ensures
        (match r {
            Some(n) => Some(n@),
            None => None,
        }) == line_file(line@),
{
    let t: String = trim(line);
    let s: &str = t.as_str();
    match file_in_comment(s, "//") {
        Some(n) => Some(n),
        None => match file_in_comment(s, "#") {
            Some(n) => Some(n),
            None => match file_in_comment(s, "/*") {
                Some(n) => Some(n),
                None => match file_in_comment(s, "<!--") {
                    Some(n) => Some(n),
                    None => match file_in_comment(s, ";") {
                        Some(n) => Some(n),
                        None => file_in_comment(s, "--"),
                    },
                },
            },
        },
    }
}

/// The file name that a comment on one of the first two lines gives.
pub open spec fn content_file(content: Seq<char>) -> Option<Seq<char>> {
    let ls = lines(content);
    if ls.len() > 0 && line_file(ls[0]) is Some {
        line_file(ls[0])
    } else if ls.len() > 1 {
        line_file(ls[1])
    } else {
        None
    }
}

/// The file name that a comment on one of the first two lines gives.
pub fn deduce_filename_from_content(content: &str) -> (r: Option<String>)
    ensures
        (match r {
            Some(n) => Some(n@),
            None => None,
        }) == content_file(content@),
{
    let ls: Vec<String> = lines_of(content);
    let ghost all = texts(ls@);
    if ls.len() > 0 {
        assert(all[0] == ls@[0]@);
        let first: Option<String> = file_in_line(ls[0].as_str());
        if first.is_some() {
            return first;
        }
    }
    if ls.len() > 1 {
        assert(all[1] == ls@[1]@);
        return file_in_line(ls[1].as_str());
    }
    None
}

/// What a file name that was typed in leads to.
#[derive(Debug, PartialEq, Eq)]
pub enum FilenameChoice {
    /// Nothing was typed.
    Missing,
    /// The name has a dot.
    Complete(String),
    /// The name has no dot: an extension is offered.
    Bare(String),
}

/// What a file name that was typed in leads to.
pub fn choose_filename(input: &str) -> (r: FilenameChoice)
    ensures
        match r {
            FilenameChoice::Missing => trimmed(input@).len() == 0,
            FilenameChoice::Complete(n) => n@ == trimmed(input@) && n@.len() > 0 && n@.contains(
                '.',
            ),
            FilenameChoice::Bare(n) => n@ == trimmed(input@) && n@.len() > 0 && !n@.contains('.'),
        },
{
    let name: String = trim(input);
    if name.as_str().is_empty() {
        FilenameChoice::Missing
    } else if has_char(name.as_str(), '.') {
        FilenameChoice::Complete(name)
    } else {
        FilenameChoice::Bare(name)
    }
}

/// A bare file name, with the extension `rs` where the answer to the offer is yes.
pub fn with_offered_extension(name: &str, response: &str) -> (r: String)
    ensures
        r@ == if means_yes(response@) {
            name@ + ".rs"@
        } else {
            name@
        },
{
    let mut out: String = name.to_owned();
    if is_yes(response) {
        out.append(".rs");
    }
    out
}

/// The line that shows what was written.
pub fn show_written(path: &str, stats: &TextStats) -> (r: String)
    ensures
        r@ == "\x1b[36mfile\x1b[0m "@ + path@ + "  \x1b[33mlines\x1b[0m "@ + dec(stats.lines as nat)
            + "  \x1b[33mwords\x1b[0m "@ + dec(stats.words as nat) + "  \x1b[33mchars\x1b[0m "@
            + dec(stats.chars as nat) + "  \x1b[33mbytes\x1b[0m "@ + dec(stats.bytes as nat)
            + "\n"@,
{
    let mut out: String = "\x1b[36mfile\x1b[0m ".to_owned();
    out.append(path);
    out.append("  \x1b[33mlines\x1b[0m ");
    out.append(decimal(stats.lines as u64).as_str());
    out.append("  \x1b[33mwords\x1b[0m ");
    out.append(decimal(stats.words as u64).as_str());
    out.append("  \x1b[33mchars\x1b[0m ");
    out.append(decimal(stats.chars as u64).as_str());
    out.append("  \x1b[33mbytes\x1b[0m ");
    out.append(decimal(stats.bytes as u64).as_str());
    out.append("\n");
    out
}

/// The line that shows how a file changed.
pub fn show_diff(d: &DiffStats) -> (r: String)
    ensures
        r@ == "\x1b[35mdiff\x1b[0m changed="@ + truth(d.changed) + "  \x1b[32m+"@ + dec(
            d.added_lines as nat,
        ) + "\x1b[0m  \x1b[31m-"@ + dec(d.removed_lines as nat) + "\x1b[0m\n"@,
{
    let mut out: String = "\x1b[35mdiff\x1b[0m changed=".to_owned();
    out.append(truth_text(d.changed));
    out.append("  \x1b[32m+");
    out.append(decimal(d.added_lines as u64).as_str());
    out.append("\x1b[0m  \x1b[31m-");
    out.append(decimal(d.removed_lines as u64).as_str());
    out.append("\x1b[0m\n");
    out
}

/// The lines that show how the functions changed, in the order of their names.
pub open spec fn function_rows(keys: Seq<Seq<char>>, values: Seq<DiffStats>) -> Seq<char>
    decreases keys.len(),
{
    if keys.len() == 0 {
        Seq::empty()
    } else {
        function_rows(keys.drop_last(), values.drop_last()) + "  "@ + keys.last() + "  \x1b[32m+"@
            + dec(values.last().added_lines as nat) + "\x1b[0m \x1b[31m-"@ + dec(
            values.last().removed_lines as nat,
        ) + "\x1b[0m changed="@ + truth(values.last().changed) + "\n"@
    }
}

/// What shows how the functions changed; nothing where none did.
pub fn show_function_diffs(stats: &TextMap<DiffStats>) -> (r: String)
    requires
        stats.wf(),
    ensures
        r@ == if stats.keys().len() == 0 {
            Seq::empty()
        } else {
            "\x1b[34mper-function diff\x1b[0m\n"@ + function_rows(stats.keys(), stats.values())
        },
{
    let n: usize = stats.len();
    if n == 0 {
        return String::new();
    }
    let mut rows: String = String::new();
    let mut i: usize = 0;
    while i < n
        invariant
            i <= n == stats.keys().len(),
            n == stats.values().len(),
            rows@ == function_rows(
                stats.keys().take(i as int),
                stats.values().take(i as int),
            ),
        decreases n - i,
    {
        assert(stats.keys().take(i + 1).drop_last() =~= stats.keys().take(i as int));
        assert(stats.values().take(i + 1).drop_last() =~= stats.values().take(i as int));
        let d: DiffStats = *stats.value_at(i);
        rows.append("  ");
        rows.append(stats.key_at(i).as_str());
        rows.append("  \x1b[32m+");
        rows.append(decimal(d.added_lines as u64).as_str());
        rows.append("\x1b[0m \x1b[31m-");
        rows.append(decimal(d.removed_lines as u64).as_str());
        rows.append("\x1b[0m changed=");
        rows.append(truth_text(d.changed));
        rows.append("\n");
        i += 1;
    }
    assert(stats.keys().take(i as int) =~= stats.keys());
    assert(stats.values().take(i as int) =~= stats.values());
    let mut out: String = "\x1b[34mper-function diff\x1b[0m\n".to_owned();
    out.append(rows.as_str());
    out
}

} // verus!
