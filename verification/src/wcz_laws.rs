//! What goes into an archive, said of the paths.

use vstd::prelude::*;
use crate::path::{name_of, normalized, parts_of, pushed};
use crate::path_laws::law_pushed_parts;
use crate::pattern::regex_matches;
use crate::sieve::{is_sieved, lemma_sieve_more, lemma_sieve_nothing};
use crate::text::{joined, texts};
use crate::wcz::{
    any_match, base_name, count_kind, default_name, expanded, first_false, glob_body, glob_regex, glob_subjects,
    inner_path, is_special, output_path, plain_names, refusal, root_names, sanitized, verdict, zip_name, ArchiveEntry,
    FileKind, IgnoreError, IgnoreMatcher, Verdict,
};

verus! {

/// A glob is read character by character: an asterisk stands for any text, a question mark for any
/// character, and every other character for itself, behind a backslash where it would mean
/// something else. It is held against a whole text.
pub proof fn law_glob_is_read_by_characters(a: Seq<char>, b: Seq<char>, c: char)
    ensures
        glob_body(a + b) == glob_body(a) + glob_body(b),
        glob_body(seq!['*']) == seq!['.', '*'],
        glob_body(seq!['?']) == seq!['.'],
        is_special(c) ==> glob_body(seq![c]) == seq!['\\', c],
        c != '*' && c != '?' && !is_special(c) ==> glob_body(seq![c]) == seq![c],
        glob_regex(a) == seq!['^'] + glob_body(a) + seq!['$'],
    decreases b.len(),
{
    reveal_strlit(".*");
    reveal_strlit(".");
    reveal_strlit("^");
    reveal_strlit("$");
    assert("^"@ =~= seq!['^']);
    assert("$"@ =~= seq!['$']);
    let none = Seq::<char>::empty();
    assert(glob_body(none) =~= none);
    assert(seq!['*'].drop_last() =~= none);
    assert(seq!['?'].drop_last() =~= none);
    assert(seq![c].drop_last() =~= none);
    assert(glob_body(seq!['*']) =~= seq!['.', '*']);
    assert(glob_body(seq!['?']) =~= seq!['.']);
    assert(is_special(c) ==> glob_body(seq![c]) =~= seq!['\\', c]);
    assert(c != '*' && c != '?' && !is_special(c) ==> glob_body(seq![c]) =~= seq![c]);
    if b.len() == 0 {
        assert(a + b =~= a);
        assert(glob_body(a) + glob_body(b) =~= glob_body(a));
    } else {
        law_glob_is_read_by_characters(a, b.drop_last(), c);
        assert((a + b).drop_last() =~= a + b.drop_last());
        assert((a + b).last() == b.last());
        assert(glob_body(a + b) =~= glob_body(a) + glob_body(b));
    }
}

/// The characters that mean something else in a regular expression are these.
pub proof fn law_special_characters(c: char)
    ensures
        is_special(c) <==> seq!['.', '+', '(', ')', '|', '^', '$', '{', '}', '[', ']', '\\'].contains(c),
{
    let all = seq!['.', '+', '(', ')', '|', '^', '$', '{', '}', '[', ']', '\\'];
    assert(all[0] == '.' && all[1] == '+' && all[2] == '(' && all[3] == ')' && all[4] == '|' && all[5] == '^');
    assert(all[6] == '$' && all[7] == '{' && all[8] == '}' && all[9] == '[' && all[10] == ']' && all[11] == '\\');
}

proof fn lemma_first_false(v: Seq<bool>, i: int)
    requires
        0 <= i,
    ensures
        match first_false(v, i) {
            Some(k) => i <= k < v.len() && !v[k] && forall|j: int| i <= j < k ==> #[trigger] v[j],
            None => forall|j: int| i <= j < v.len() ==> #[trigger] v[j],
        },
    decreases v.len() - i,
{
    if i < v.len() && v[i] {
        lemma_first_false(v, i + 1);
    }
}

/// The first glob that is refused is told, or else the first regular expression; nothing is told
/// only where all are accepted.
pub proof fn law_first_refusal_is_told(globs: Seq<bool>, regexes: Seq<bool>)
    requires
        globs.len() <= usize::MAX,
        regexes.len() <= usize::MAX,
    ensures
        match refusal(globs, regexes) {
            Some(IgnoreError::Glob(i)) => i < globs.len() && !globs[i as int] && forall|j: int|
                0 <= j < i ==> #[trigger] globs[j],
            Some(IgnoreError::Regex(i)) => i < regexes.len() && !regexes[i as int] && (forall|j: int|
                0 <= j < i ==> #[trigger] regexes[j]) && forall|j: int| 0 <= j < globs.len() ==> #[trigger] globs[j],
            None => (forall|j: int| 0 <= j < globs.len() ==> #[trigger] globs[j]) && forall|j: int|
                0 <= j < regexes.len() ==> #[trigger] regexes[j],
        },
{
    lemma_first_false(globs, 0);
    lemma_first_false(regexes, 0);
}

/// The names on a path are its parts, but for `..`, in order.
pub proof fn law_names_on_a_path(parts: Seq<Seq<char>>)
    ensures
        is_sieved(parts, plain_names(parts), |p: Seq<char>| p != ".."@, |p: Seq<char>| p),
    decreases parts.len(),
{
    let keep = |p: Seq<char>| p != ".."@;
    let give = |p: Seq<char>| p;
    let all = plain_names(parts);
    if parts.len() == 0 {
        lemma_sieve_nothing(parts, all, keep, give);
    } else {
        law_names_on_a_path(parts.drop_last());
        lemma_sieve_more(parts, plain_names(parts.drop_last()), all, keep, give);
    }
}

proof fn lemma_plain(parts: Seq<Seq<char>>, p: Seq<char>)
    ensures
        plain_names(parts).contains(p) <==> parts.contains(p) && p != ".."@,
    decreases parts.len(),
{
    if parts.len() > 0 {
        let d = parts.drop_last();
        lemma_plain(d, p);
        crate::ordered::lemma_push_contains(d, parts.last(), p);
        crate::ordered::lemma_push_contains(plain_names(d), parts.last(), p);
        assert(d.push(parts.last()) =~= parts);
    }
}

/// A path is left out exactly where a glob matches it as a whole, its last name or one of the names
/// on it, or where a regular expression matches it as a whole.
pub proof fn law_what_is_left_out(m: IgnoreMatcher, rel: Seq<char>)
    ensures
        m.leaves_out(rel) <==> (exists|i: int, s: Seq<char>|
            0 <= i < texts(m.globs@).len() && #[trigger] regex_matches(texts(m.globs@)[i], s) && (s == normalized(
                rel,
            ) || s == base_name(rel) || (parts_of(rel).contains(s) && s != ".."@))) || (exists|i: int|
            0 <= i < texts(m.regexes@).len() && #[trigger] regex_matches(texts(m.regexes@)[i], normalized(rel))),
{
    let gs = texts(m.globs@);
    let rs = texts(m.regexes@);
    let subjects = glob_subjects(rel);
    let whole = seq![normalized(rel)];
    let names = plain_names(parts_of(rel));
    assert forall|s: Seq<char>| #[trigger] subjects.contains(s) <==> s == normalized(rel) || s == base_name(rel) || (
    parts_of(rel).contains(s) && s != ".."@) by {
        lemma_plain(parts_of(rel), s);
        if subjects.contains(s) {
            let k = choose|k: int| 0 <= k < subjects.len() && subjects[k] == s;
            if k >= 2 {
                assert(names[k - 2] == s);
            }
        }
        if s == normalized(rel) {
            assert(subjects[0] == s);
        }
        if s == base_name(rel) {
            assert(subjects[1] == s);
        }
        if names.contains(s) {
            let k = choose|k: int| 0 <= k < names.len() && names[k] == s;
            assert(subjects[k + 2] == s);
        }
    }
    if any_match(gs, subjects) {
        let (i, j) = choose|i: int, j: int|
            0 <= i < gs.len() && 0 <= j < subjects.len() && #[trigger] regex_matches(gs[i], subjects[j]);
        assert(subjects.contains(subjects[j]));
        assert(regex_matches(gs[i], subjects[j]));
    }
    if any_match(rs, whole) {
        let (i, j) = choose|i: int, j: int|
            0 <= i < rs.len() && 0 <= j < whole.len() && #[trigger] regex_matches(rs[i], whole[j]);
        assert(regex_matches(rs[i], normalized(rel)));
    }
    if exists|i: int, s: Seq<char>|
        0 <= i < gs.len() && #[trigger] regex_matches(gs[i], s) && (s == normalized(rel) || s == base_name(rel) || (
        parts_of(rel).contains(s) && s != ".."@)) {
        let (i, s) = choose|i: int, s: Seq<char>|
            0 <= i < gs.len() && #[trigger] regex_matches(gs[i], s) && (s == normalized(rel) || s == base_name(
                rel,
            ) || (parts_of(rel).contains(s) && s != ".."@));
        assert(subjects.contains(s));
        let j = choose|j: int| 0 <= j < subjects.len() && subjects[j] == s;
        assert(regex_matches(gs[i], subjects[j]));
    }
    if exists|i: int| 0 <= i < rs.len() && #[trigger] regex_matches(rs[i], normalized(rel)) {
        let i = choose|i: int| 0 <= i < rs.len() && #[trigger] regex_matches(rs[i], normalized(rel));
        assert(regex_matches(rs[i], whole[0]));
    }
}

/// Files and directories are archived, unless they are left out or are the archive itself; nothing
/// else is, and what is left out is told before anything else.
pub proof fn law_what_is_archived(ignored: bool, kind: FileKind, is_output: bool)
    ensures
        verdict(ignored, kind, is_output) == Verdict::Archived <==> !ignored && kind != FileKind::Symlink && kind
            != FileKind::Other && !is_output,
        verdict(ignored, kind, is_output) == Verdict::Ignored <==> ignored,
        verdict(ignored, kind, is_output) == Verdict::Symlink <==> !ignored && kind == FileKind::Symlink,
{
}

/// The paths of one root stand in an archive as they are seen from it; those of several roots below
/// the names of their roots.
pub proof fn law_paths_in_an_archive(root: Seq<char>, rel: Seq<char>, name: Seq<char>)
    requires
        !(rel.len() > 0 && rel[0] == '/'),
        name_of(root) == Some(name),
    ensures
        parts_of(inner_path(root, false, rel)) == parts_of(rel),
        parts_of(inner_path(root, true, rel)) == parts_of(name) + parts_of(rel),
{
    let none = Seq::<char>::empty();
    law_pushed_parts(none, rel);
    law_pushed_parts(name, rel);
    crate::path::law_normalized_once(pushed(none, rel));
    crate::path::law_normalized_once(pushed(name, rel));
    reveal_strlit("/");
    if "/"@.is_prefix_of(rel) {
        assert(rel.subrange(0, 1)[0] == rel[0]);
    }
    assert(pushed(none, rel) =~= rel);
}

/// The names of the roots, all that have one, in order, with an underscore for each sign that is
/// not safe.
pub proof fn law_root_names(roots: Seq<Seq<char>>)
    ensures
        is_sieved(
            roots,
            root_names(roots),
            |r: Seq<char>| name_of(r) is Some && name_of(r)->0.len() > 0,
            |r: Seq<char>| sanitized(name_of(r)->0),
        ),
    decreases roots.len(),
{
    let keep = |r: Seq<char>| name_of(r) is Some && name_of(r)->0.len() > 0;
    let give = |r: Seq<char>| sanitized(name_of(r)->0);
    let all = root_names(roots);
    if roots.len() == 0 {
        lemma_sieve_nothing(roots, all, keep, give);
    } else {
        law_root_names(roots.drop_last());
        lemma_sieve_more(roots, root_names(roots.drop_last()), all, keep, give);
    }
}

/// A safe name has in each place the character that was there, where that is an ASCII letter or
/// digit, a dash, an underscore or a dot, and an underscore everywhere else.
pub proof fn law_safe_names(value: Seq<char>, i: int)
    requires
        0 <= i < value.len(),
    ensures
        sanitized(value).len() == value.len(),
        ({
            let c = value[i];
            let safe = ('0' <= c <= '9') || ('A' <= c <= 'Z') || ('a' <= c <= 'z') || c == '-' || c == '_' || c
                == '.';
            sanitized(value)[i] == if safe {
                c
            } else {
                '_'
            }
        }),
{
}

/// An archive that is given no name and no place is named after its root and lies in the current
/// directory; a path that is asked for and is that of an archive is its path, and excludes a name;
/// any other path that is asked for is the directory that it lies in.
pub proof fn law_place_of_an_archive(
    output: Seq<char>,
    name: Option<Seq<char>>,
    folder: Option<Seq<char>>,
    roots: Seq<Seq<char>>,
    home: Option<Seq<char>>,
    current: Seq<char>,
)
    ensures
        output_path(None, None, None, roots, home, current) == Some(pushed(current, default_name(roots))),
        ({
            let place = expanded(output, home);
            let file = if name is Some {
                zip_name(name->0)
            } else {
                default_name(roots)
            };
            let r = output_path(Some(output), name, folder, roots, home, current);
            &&& crate::wcz::is_zip_path(place) && name is None ==> r == Some(place)
            &&& crate::wcz::is_zip_path(place) && name is Some ==> r is None
            &&& !crate::wcz::is_zip_path(place) ==> r == Some(pushed(place, file))
        }),
        roots.len() == 1 && (name_of(roots[0]) matches Some(n) && n.len() > 0) ==> default_name(roots) == zip_name(
            name_of(roots[0])->0,
        ),
        roots.len() != 1 && root_names(roots).len() > 0 ==> default_name(roots) == zip_name(
            joined(root_names(roots), "+"@),
        ),
{
}

/// A tilde at the start of a path, alone or before a slash, stands for the home directory; nothing
/// else changes.
pub proof fn law_tilde(path: Seq<char>, home: Seq<char>)
    ensures
        expanded(seq!['~'], Some(home)) == home,
        expanded(seq!['~', '/'] + path, Some(home)) == pushed(home, path),
        !(path.len() > 0 && path[0] == '~') ==> expanded(path, Some(home)) == path,
        expanded(path, None) == path,
{
    reveal_strlit("~");
    reveal_strlit("~/");
    assert("~"@ =~= seq!['~']);
    assert("~/"@ =~= seq!['~', '/']);
    let p = seq!['~', '/'] + path;
    assert("~/"@ =~= p.subrange(0, 2));
    assert(p.skip(2) =~= path);
    assert(p.len() >= 2);
    if "~/"@.is_prefix_of(path) {
        assert(path.subrange(0, 2)[0] == path[0]);
    }
}

/// What is counted of two lists of entries is counted of both together.
pub proof fn law_entries_are_counted(a: Seq<ArchiveEntry>, b: Seq<ArchiveEntry>, dirs: bool)
    ensures
        count_kind(a + b, dirs) == count_kind(a, dirs) + count_kind(b, dirs),
        b.len() == 1 ==> count_kind(b, dirs) == if b[0].is_dir == dirs {
            1nat
        } else {
            0nat
        },
        count_kind(b, true) + count_kind(b, false) == b.len(),
    decreases b.len(),
{
    if b.len() == 0 {
        assert(a + b =~= a);
    } else {
        let d = b.drop_last();
        law_entries_are_counted(a, d, dirs);
        assert((a + b).drop_last() =~= a + d);
        assert((a + b).last() == b.last());
    }
}

} // verus!
