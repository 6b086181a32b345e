//! Line by line differences of two texts.

use vstd::prelude::*;

verus! {

/// What a line is in a difference.
#[derive(Clone, Copy, Debug, PartialEq, Eq, Structural)]
pub enum ChangeTag {
    /// It stands in both texts.
    Equal,
    /// It stands in the old text alone.
    Delete,
    /// It stands in the new text alone.
    Insert,
}

/// A line of a difference, with its line end.
#[derive(Debug, PartialEq, Eq)]
pub struct LineChange {
    pub tag: ChangeTag,
    pub text: String,
}

/// What a difference holds.
pub open spec fn change_texts(v: Seq<LineChange>) -> Seq<(ChangeTag, Seq<char>)> {
    v.map_values(|c: LineChange| (c.tag, c.text@))
}

/// The lines of one side of a difference, one after the other: those that stand in both texts and
/// those that stand in this one alone.
pub open spec fn side(changes: Seq<(ChangeTag, Seq<char>)>, tag: ChangeTag) -> Seq<char>
    decreases changes.len(),
{
    if changes.len() == 0 {
        Seq::empty()
    } else {
        let c = changes.last();
        side(changes.drop_last(), tag) + if c.0 == tag || c.0 == ChangeTag::Equal {
            c.1
        } else {
            Seq::empty()
        }
    }
}

/// Whether a text is one line: not empty, and without a line feed before its end.
pub open spec fn is_one_line(s: Seq<char>) -> bool {
    s.len() > 0 && forall|i: int| 0 <= i < s.len() - 1 ==> #[trigger] s[i] != '\n'
}

/// Whether a line of a difference stands on the side of `tag`.
pub open spec fn is_on(c: (ChangeTag, Seq<char>), tag: ChangeTag) -> bool {
    c.0 == tag || c.0 == ChangeTag::Equal
}

/// Whether each line on the side of `tag` but its last one ends in a line end.
pub open spec fn lines_end(changes: Seq<(ChangeTag, Seq<char>)>, tag: ChangeTag) -> bool {
    forall|i: int, j: int|
        0 <= i < j < changes.len() && is_on(#[trigger] changes[i], tag) && is_on(
            #[trigger] changes[j],
            tag,
        ) ==> changes[i].1.last() == '\n' || changes[i].1.last() == '\r'
}

/// The difference of two texts that `similar` finds.
pub uninterp spec fn line_changes(old_text: Seq<char>, new_text: Seq<char>) -> Seq<
    (ChangeTag, Seq<char>),
>;

/// `similar::TextDiff::from_lines` and its `iter_all_changes`: the same difference for the same
/// texts every time. Each change is one line. The lines of its old side make up the old text,
/// those of its new side the new one, and on either side all but the last one end in a line end;
/// all are equal where the texts are.
#[verifier::external_body]
pub(crate) fn diff_lines(old_text: &str, new_text: &str) -> (r: Vec<LineChange>)
    ensures
        change_texts(r@) == line_changes(old_text@, new_text@),
        side(change_texts(r@), ChangeTag::Delete) == old_text@,
        side(change_texts(r@), ChangeTag::Insert) == new_text@,
        forall|i: int| 0 <= i < r@.len() ==> is_one_line((#[trigger] r@[i]).text@),
        lines_end(change_texts(r@), ChangeTag::Delete),
        lines_end(change_texts(r@), ChangeTag::Insert),
        old_text@ == new_text@ ==> forall|i: int|
            0 <= i < r@.len() ==> (#[trigger] r@[i]).tag == ChangeTag::Equal,
{
    let diff = similar::TextDiff::from_lines(old_text, new_text);
    diff.iter_all_changes().map(|c| LineChange {
        tag: match c.tag() {
            similar::ChangeTag::Equal => ChangeTag::Equal,
            similar::ChangeTag::Delete => ChangeTag::Delete,
            similar::ChangeTag::Insert => ChangeTag::Insert,
        },
        text: c.value().to_string(),
    }).collect()
}

} // verus!
