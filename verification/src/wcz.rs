//! Archives of folders, and what they leave out.

use vstd::prelude::*;
use crate::ordered::{firsts, keep_firsts};
use crate::path::{
    extension, file_name, lemma_normalized_start, name_of, normalize_path, normalized, parts_of,
    path_extension, path_parts, push_part, pushed,
};
use crate::pattern::{compiles, is_match, is_regex, regex_matches};
use crate::text::{
    chars_of, clone_texts, ends_with, join, joined, opt_text, push_text, same, starts_with,
    strip_prefix, texts, trim, trim_end_char, trimmed, without_end,
};
use crate::unicode::{ascii_alphanumeric, ascii_lowered, to_ascii_lowercase};

verus! {

/// Whether a character means something of its own in a regular expression.
pub open spec fn is_special(c: char) -> bool {
    ||| c == '.'
    ||| c == '+'
    ||| c == '('
    ||| c == ')'
    ||| c == '|'
    ||| c == '^'
    ||| c == '$'
    ||| c == '{'
    ||| c == '}'
    ||| c == '['
    ||| c == ']'
    ||| c == '\\'
}

/// What stands for a character of a glob in a regular expression.
pub open spec fn glob_part(c: char) -> Seq<char> {
    if c == '*' {
        ".*"@
    } else if c == '?' {
        "."@
    } else if is_special(c) {
        seq!['\\', c]
    } else {
        seq![c]
    }
}

/// What stands for the characters of a glob in a regular expression.
pub open spec fn glob_body(pattern: Seq<char>) -> Seq<char>
    decreases pattern.len(),
{
    if pattern.len() == 0 {
        Seq::empty()
    } else {
        glob_body(pattern.drop_last()) + glob_part(pattern.last())
    }
}

/// The regular expression that matches what a glob matches.
pub open spec fn glob_regex(pattern: Seq<char>) -> Seq<char> {
    "^"@ + glob_body(pattern) + "$"@
}

/// The regular expression that matches what a glob matches.
pub fn glob_to_regex(pattern: &str) -> (r: String)
    ensures
        r@ == glob_regex(pattern@),
{
    let cs: Vec<char> = chars_of(pattern);
    let mut body: String = String::new();
    let mut i: usize = 0;
    while i < cs.len()
        invariant
            i <= cs@.len(),
            body@ == glob_body(cs@.take(i as int)),
        decreases cs@.len() - i,
    {
        let ghost now = body@;
        assert(cs@.take(i + 1).drop_last() =~= cs@.take(i as int));
        let c: char = cs[i];
        if c == '*' {
            body.append(".*");
        } else if c == '?' {
            body.append(".");
        } else if c == '.' || c == '+' || c == '(' || c == ')' || c == '|' || c == '^' || c == '$' || c
            == '{' || c == '}' || c == '[' || c == ']' || c == '\\' {
            body.push('\\');
            body.push(c);
            assert(body@ =~= now + seq!['\\', c]);
        } else {
            body.push(c);
            assert(body@ =~= now + seq![c]);
        }
        i += 1;
    }
    assert(cs@.take(i as int) =~= cs@);
    let mut out: String = "^".to_owned();
    out.append(body.as_str());
    out.append("$");
    out
}

/// What an archive leaves out, as regular expressions.
#[derive(Debug, PartialEq, Eq)]
pub struct IgnoreMatcher {
    pub globs: Vec<String>,
    pub regexes: Vec<String>,
}

/// A pattern that is none, by its place.
#[derive(Debug, Clone, Copy, PartialEq, Eq, Structural)]
pub enum IgnoreError {
    Glob(usize),
    Regex(usize),
}

/// The first place that is not true.
pub open spec fn first_false(v: Seq<bool>, i: int) -> Option<int>
    decreases v.len() - i,
{
    if i >= v.len() {
        None
    } else if !v[i] {
        Some(i)
    } else {
        first_false(v, i + 1)
    }
}

/// The first place that is not true.
pub fn find_false(v: &[bool]) -> (r: Option<usize>)
    ensures
        match r {
            Some(i) => first_false(v@, 0) == Some(i as int) && i < v@.len(),
            None => first_false(v@, 0) is None,
        },
{
    let n: usize = v.len();
    let mut i: usize = 0;
    while i < n
        invariant
            i <= n,
            n == v@.len(),
            first_false(v@, i as int) == first_false(v@, 0),
        decreases n - i,
    {
        if !v[i] {
            return Some(i);
        }
        i += 1;
    }
    None
}

/// Which of these are regular expressions.
pub open spec fn accepted(patterns: Seq<Seq<char>>) -> Seq<bool> {
    patterns.map_values(|p: Seq<char>| is_regex(p))
}

fn accept(patterns: &[String]) -> (r: Vec<bool>)
    ensures
        r@ == accepted(texts(patterns@)),
{
    let ghost all = accepted(texts(patterns@));
    let mut out: Vec<bool> = Vec::new();
    let mut i: usize = 0;
    while i < patterns.len()
        invariant
            i <= patterns@.len(),
            out@ == all.take(i as int),
        decreases patterns@.len() - i,
    {
        let ok: bool = compiles(patterns[i].as_str());
        out.push(ok);
        assert(out@ =~= all.take(i + 1));
        i += 1;
    }
    assert(all.take(i as int) =~= all);
    out
}

/// The regular expressions of globs.
pub open spec fn glob_regexes(globs: Seq<Seq<char>>) -> Seq<Seq<char>> {
    globs.map_values(|g: Seq<char>| glob_regex(g))
}

fn make_globs(globs: &[String]) -> (r: Vec<String>)
    ensures
        texts(r@) == glob_regexes(texts(globs@)),
{
    let ghost all = glob_regexes(texts(globs@));
    let mut out: Vec<String> = Vec::new();
    let mut i: usize = 0;
    while i < globs.len()
        invariant
            i <= globs@.len(),
            texts(out@) == all.take(i as int),
        decreases globs@.len() - i,
    {
        assert(all.take(i + 1) =~= all.take(i as int).push(all[i as int]));
        push_text(&mut out, glob_to_regex(globs[i].as_str()).as_str());
        i += 1;
    }
    assert(all.take(i as int) =~= all);
    out
}

/// What is wrong with patterns, given which of them were accepted: the first glob that was not, or
/// else the first regular expression.
pub open spec fn refusal(globs: Seq<bool>, regexes: Seq<bool>) -> Option<IgnoreError> {
    match first_false(globs, 0) {
        Some(i) => Some(IgnoreError::Glob(i as usize)),
        None => match first_false(regexes, 0) {
            Some(i) => Some(IgnoreError::Regex(i as usize)),
            None => None,
        },
    }
}

/// What is wrong with patterns, given which of them were accepted.
pub fn find_refusal(globs: &[bool], regexes: &[bool]) -> (r: Option<IgnoreError>)
    ensures
        r == refusal(globs@, regexes@),
{
    match find_false(globs) {
        Some(i) => Some(IgnoreError::Glob(i)),
        None => match find_false(regexes) {
            Some(i) => Some(IgnoreError::Regex(i)),
            None => None,
        },
    }
}

/// The parts of a path that are names, `..` aside.
pub open spec fn plain_names(parts: Seq<Seq<char>>) -> Seq<Seq<char>>
    decreases parts.len(),
{
    if parts.len() == 0 {
        Seq::empty()
    } else if parts.last() == ".."@ {
        plain_names(parts.drop_last())
    } else {
        plain_names(parts.drop_last()).push(parts.last())
    }
}

/// The last name of a path, or nothing.
pub open spec fn base_name(path: Seq<char>) -> Seq<char> {
    match name_of(path) {
        Some(n) => n,
        None => Seq::empty(),
    }
}

/// What a glob is held against: the whole path, its last name, and each of its names.
pub open spec fn glob_subjects(rel: Seq<char>) -> Seq<Seq<char>> {
    seq![normalized(rel), base_name(rel)] + plain_names(parts_of(rel))
}

/// What a glob is held against.
pub fn subjects_of(rel: &str) -> (r: Vec<String>)
    ensures
        texts(r@) == glob_subjects(rel@),
{
    let mut out: Vec<String> = Vec::new();
    push_text(&mut out, normalize_path(rel).as_str());
    let base: String = match file_name(rel) {
        Some(n) => n,
        None => String::new(),
    };
    assert(base@ =~= base_name(rel@));
    push_text(&mut out, base.as_str());
    let ghost head = seq![normalized(rel@), base_name(rel@)];
    let parts: Vec<String> = path_parts(rel);
    let ghost all = texts(parts@);
    let mut i: usize = 0;
    assert(texts(out@) =~= head + plain_names(all.take(0)));
    while i < parts.len()
        invariant
            i <= parts@.len(),
            texts(out@) == head + plain_names(all.take(i as int)),
        decreases parts@.len() - i,
    {
        assert(all.take(i + 1).drop_last() =~= all.take(i as int));
        assert(all.take(i + 1).last() == parts@[i as int]@);
        if !same(parts[i].as_str(), "..") {
            push_text(&mut out, parts[i].as_str());
            assert(texts(out@) =~= head + plain_names(all.take(i + 1)));
        }
        i += 1;
    }
    assert(all.take(i as int) =~= all);
    out
}

/// Whether one of the regular expressions matches one of the texts.
pub open spec fn any_match(patterns: Seq<Seq<char>>, subjects: Seq<Seq<char>>) -> bool {
    exists|i: int, j: int|
        0 <= i < patterns.len() && 0 <= j < subjects.len() && #[trigger] regex_matches(
            patterns[i],
            subjects[j],
        )
}

fn find_match(patterns: &[String], subjects: &[String]) -> (r: bool)
    ensures
        r == any_match(texts(patterns@), texts(subjects@)),
{
    let ghost ps = texts(patterns@);
    let ghost ss = texts(subjects@);
    let mut i: usize = 0;
    while i < patterns.len()
        invariant
            i <= patterns@.len(),
            forall|p: int, q: int|
                0 <= p < i && 0 <= q < ss.len() ==> !#[trigger] regex_matches(ps[p], ss[q]),
        decreases patterns@.len() - i,
    {
        let mut j: usize = 0;
        while j < subjects.len()
            invariant
                j <= subjects@.len(),
                i < patterns@.len(),
                forall|p: int, q: int|
                    0 <= p < i && 0 <= q < ss.len() ==> !#[trigger] regex_matches(ps[p], ss[q]),
                forall|q: int| 0 <= q < j ==> !#[trigger] regex_matches(ps[i as int], ss[q]),
            decreases subjects@.len() - j,
        {
            assert(ps[i as int] == patterns@[i as int]@ && ss[j as int] == subjects@[j as int]@);
            if is_match(patterns[i].as_str(), subjects[j].as_str()) {
                assert(regex_matches(ps[i as int], ss[j as int]));
                return true;
            }
            j += 1;
        }
        i += 1;
    }
    false
}

impl IgnoreMatcher {
    /// What these globs and regular expressions leave out; an error names the first that is none.
    pub fn new(
        ignore: &[String],
        ignore_regexes: &[String],
    ) -> (r: Result<IgnoreMatcher, IgnoreError>)
        ensures
            match r {
                Ok(m) => refusal(
                    accepted(glob_regexes(texts(ignore@))),
                    accepted(texts(ignore_regexes@)),
                ) is None && texts(m.globs@) == glob_regexes(texts(ignore@)) && texts(m.regexes@)
                    == texts(ignore_regexes@),
                Err(e) => refusal(
                    accepted(glob_regexes(texts(ignore@))),
                    accepted(texts(ignore_regexes@)),
                ) == Some(e),
            },
    {
        let globs: Vec<String> = make_globs(ignore);
        match find_refusal(&accept(&globs), &accept(ignore_regexes)) {
            Some(e) => Err(e),
            None => Ok(
                IgnoreMatcher { globs, regexes: clone_texts(ignore_regexes) },
            ),
        }
    }

    /// Whether the path below a root is left out.
    pub open spec fn leaves_out(&self, rel: Seq<char>) -> bool {
        any_match(texts(self.globs@), glob_subjects(rel)) || any_match(
            texts(self.regexes@),
            seq![normalized(rel)],
        )
    }

    /// Whether the path below a root is left out: by a glob that matches it, or by a regular
    /// expression that does.
    pub fn matches(&self, rel: &str) -> (r: bool)
        ensures
            r == self.leaves_out(rel@),
    {
        let subjects: Vec<String> = subjects_of(rel);
        if find_match(&self.globs, &subjects) {
            return true;
        }
        let mut whole: Vec<String> = Vec::new();
        push_text(&mut whole, normalize_path(rel).as_str());
        assert(texts(whole@) =~= seq![normalized(rel@)]);
        find_match(&self.regexes, &whole)
    }
}

/// A folder to be archived, and what the file system says of it.
#[derive(Debug, PartialEq, Eq)]
pub struct Folder {
    pub path: String,
    pub exists: bool,
    pub is_dir: bool,
    pub canonical: Option<String>,
}

/// What is wrong with a folder.
#[derive(Debug, PartialEq, Eq)]
pub enum RootError {
    Missing(String),
    NotAFolder(String),
    Unresolved(String),
}

/// What is said of a folder that cannot be archived.
pub open spec fn root_message(e: RootError) -> Seq<char> {
    match e {
        RootError::Missing(p) => "folder does not exist: "@ + p@,
        RootError::NotAFolder(p) => "not a folder: "@ + p@,
        RootError::Unresolved(p) => "resolving "@ + p@,
    }
}

impl RootError {
    /// The error in words.
    pub fn message(&self) -> (r: String)
        ensures
            r@ == root_message(*self),
    {
        match self {
            RootError::Missing(p) => {
                let mut out: String = "folder does not exist: ".to_owned();
                out.append(p.as_str());
                out
            },
            RootError::NotAFolder(p) => {
                let mut out: String = "not a folder: ".to_owned();
                out.append(p.as_str());
                out
            },
            RootError::Unresolved(p) => {
                let mut out: String = "resolving ".to_owned();
                out.append(p.as_str());
                out
            },
        }
    }
}

/// Whether a folder can be archived.
pub open spec fn usable(f: Folder) -> bool {
    f.exists && f.is_dir && f.canonical is Some
}

/// The resolved paths of folders that can be archived.
pub open spec fn resolved(folders: Seq<Folder>) -> Seq<Seq<char>> {
    folders.map_values(
        |f: Folder|
            match f.canonical {
                Some(c) => c@,
                None => Seq::empty(),
            },
    )
}

/// The roots of an archive: the resolved paths of its folders, each once. An error is about the
/// first folder that cannot be archived.
pub fn validate_roots(folders: &[Folder]) -> (r: Result<Vec<String>, RootError>)
    ensures
        match r {
            Ok(v) => (forall|i: int| 0 <= i < folders@.len() ==> usable(#[trigger] folders@[i]))
                && texts(v@) == firsts(resolved(folders@)),
            Err(e) => exists|i: int|
                0 <= i < folders@.len() && !usable(#[trigger] folders@[i]) && (forall|j: int|
                    0 <= j < i ==> usable(#[trigger] folders@[j])) && match e {
                    RootError::Missing(p) => !folders@[i].exists && p@ == folders@[i].path@,
                    RootError::NotAFolder(p) => folders@[i].exists && !folders@[i].is_dir && p@
                        == folders@[i].path@,
                    RootError::Unresolved(p) => folders@[i].exists && folders@[i].is_dir && p@
                        == folders@[i].path@,
                },
        },
{
    let ghost all = resolved(folders@);
    let mut out: Vec<String> = Vec::new();
    let mut i: usize = 0;
    while i < folders.len()
        invariant
            i <= folders@.len(),
            texts(out@) == all.take(i as int),
            forall|j: int| 0 <= j < i ==> usable(#[trigger] folders@[j]),
        decreases folders@.len() - i,
    {
        let f: &Folder = &folders[i];
        assert(all.take(i + 1) =~= all.take(i as int).push(all[i as int]));
        if !f.exists {
            assert(!usable(folders@[i as int]));
            return Err(RootError::Missing(f.path.clone()));
        }
        if !f.is_dir {
            assert(!usable(folders@[i as int]));
            return Err(RootError::NotAFolder(f.path.clone()));
        }
        match &f.canonical {
            Some(c) => {
                push_text(&mut out, c.as_str());
            },
            None => {
                assert(!usable(folders@[i as int]));
                return Err(RootError::Unresolved(f.path.clone()));
            },
        }
        i += 1;
    }
    assert(all.take(i as int) =~= all);
    Ok(keep_firsts(&out))
}

/// What stands for a character in the name of an archive.
pub open spec fn safe_char(c: char) -> char {
    if ascii_alphanumeric(c) || c == '-' || c == '_' || c == '.' {
        c
    } else {
        '_'
    }
}

/// A name with an underscore for each character that is no letter, digit, dash, underscore or dot.
pub open spec fn sanitized(value: Seq<char>) -> Seq<char> {
    value.map_values(|c: char| safe_char(c))
}

/// A name with an underscore for each character that is no letter, digit, dash, underscore or dot.
pub fn sanitize_filename_component(value: &str) -> (r: String)
    ensures
        r@ == sanitized(value@),
{
    let cs: Vec<char> = chars_of(value);
    let mut out: String = String::new();
    let mut i: usize = 0;
    while i < cs.len()
        invariant
            i <= cs@.len(),
            out@ == sanitized(cs@).take(i as int),
        decreases cs@.len() - i,
    {
        let c: char = cs[i];
        if ('0' <= c && c <= '9') || ('A' <= c && c <= 'Z') || ('a' <= c && c <= 'z') || c == '-' || c
            == '_' || c == '.' {
            out.push(c);
        } else {
            out.push('_');
        }
        assert(out@ =~= sanitized(cs@).take(i + 1));
        i += 1;
    }
    assert(sanitized(cs@).take(i as int) =~= sanitized(cs@));
    out
}

/// A name keeps its length, and one that needs no change stays as it is; so a changed one does.
pub proof fn law_sanitized_once(value: Seq<char>)
    ensures
        sanitized(value).len() == value.len(),
        sanitized(sanitized(value)) == sanitized(value),
{
    assert(sanitized(sanitized(value)) =~= sanitized(value));
}

/// Whether a name ends as those of archives do, in letters of any size.
pub open spec fn has_zip_end(name: Seq<char>) -> bool {
    ".zip"@.is_suffix_of(ascii_lowered(name))
}

/// A name with the ending of archives.
pub open spec fn zip_name(name: Seq<char>) -> Seq<char> {
    if has_zip_end(name) {
        name
    } else {
        name + ".zip"@
    }
}

/// A name with the ending of archives.
pub fn ensure_zip_extension(name: &str) -> (r: String)
    ensures
        r@ == zip_name(name@),
{
    let lower: String = to_ascii_lowercase(name);
    let mut out: String = name.to_owned();
    if !ends_with(lower.as_str(), ".zip") {
        out.append(".zip");
    }
    out
}

/// A name has the ending of archives once it was given it, and is given it only once.
pub proof fn law_zip_name_once(name: Seq<char>)
    ensures
        has_zip_end(zip_name(name)),
        zip_name(zip_name(name)) == zip_name(name),
{
    if !has_zip_end(name) {
        reveal_strlit(".zip");
        let lower = ascii_lowered(name + ".zip"@);
        assert(lower =~= ascii_lowered(name) + ascii_lowered(".zip"@));
        assert(ascii_lowered(".zip"@) =~= ".zip"@);
        assert(lower.subrange(lower.len() - 4, lower.len() as int) =~= ".zip"@);
    }
}

/// The last names of roots, made safe, those that have none aside.
pub open spec fn root_names(roots: Seq<Seq<char>>) -> Seq<Seq<char>>
    decreases roots.len(),
{
    if roots.len() == 0 {
        Seq::empty()
    } else {
        match name_of(roots.last()) {
            Some(n) if n.len() > 0 => root_names(roots.drop_last()).push(sanitized(n)),
            _ => root_names(roots.drop_last()),
        }
    }
}

/// The name of an archive that was given none: that of its one root, or the names of its roots.
pub open spec fn default_name(roots: Seq<Seq<char>>) -> Seq<char> {
    zip_name(
        if roots.len() == 1 {
            match name_of(roots[0]) {
                Some(n) if n.len() > 0 => n,
                _ => "archive"@,
            }
        } else if root_names(roots).len() == 0 {
            "archive"@
        } else {
            joined(root_names(roots), "+"@)
        },
    )
}

/// The name of an archive that was given none.
pub fn default_archive_name(roots: &[String]) -> (r: String)
    ensures
        r@ == default_name(texts(roots@)),
{
    let ghost all = texts(roots@);
    if roots.len() == 1 {
        assert(all[0] == roots@[0]@);
        match file_name(roots[0].as_str()) {
            Some(n) => if !n.as_str().is_empty() {
                return ensure_zip_extension(n.as_str());
            },
            None => {},
        }
        return ensure_zip_extension("archive");
    }
    let mut names: Vec<String> = Vec::new();
    let mut i: usize = 0;
    assert(texts(names@) =~= Seq::empty());
    while i < roots.len()
        invariant
            i <= roots@.len(),
            texts(names@) == root_names(all.take(i as int)),
        decreases roots@.len() - i,
    {
        assert(all.take(i + 1).drop_last() =~= all.take(i as int));
        assert(all.take(i + 1).last() == roots@[i as int]@);
        match file_name(roots[i].as_str()) {
            Some(n) => {
                if !n.as_str().is_empty() {
                    push_text(&mut names, sanitize_filename_component(n.as_str()).as_str());
                }
            },
            None => {},
        }
        i += 1;
    }
    assert(all.take(i as int) =~= all);
    if names.len() == 0 {
        ensure_zip_extension("archive")
    } else {
        ensure_zip_extension(join(&names, "+").as_str())
    }
}

/// Whether a path is that of an archive.
pub open spec fn is_zip_path(path: Seq<char>) -> bool {
    match path_extension(path) {
        Some(e) => ascii_lowered(e) == "zip"@,
        None => false,
    }
}

/// Whether a path is that of an archive.
pub fn looks_like_zip_file(path: &str) -> (r: bool)
    ensures
        r == is_zip_path(path@),
{
    match extension(path) {
        Some(e) => same(to_ascii_lowercase(e.as_str()).as_str(), "zip"),
        None => false,
    }
}

/// A path with the home directory in place of the tilde that it begins with.
pub open spec fn expanded(path: Seq<char>, home: Option<Seq<char>>) -> Seq<char> {
    match home {
        Some(h) => if path == "~"@ {
            h
        } else if "~/"@.is_prefix_of(path) {
            pushed(h, path.skip("~/"@.len() as int))
        } else {
            path
        },
        None => path,
    }
}

/// A path with the home directory, if there is one, in place of the tilde that it begins with.
pub fn expand_tilde_path(path: &str, home: &Option<String>) -> (r: String)
    ensures
        r@ == expanded(path@, opt_text(*home)),
{
    match home {
        Some(h) => if same(path, "~") {
            h.clone()
        } else {
            match strip_prefix(path, "~/") {
                Some(rest) => push_part(h.as_str(), rest.as_str()),
                None => path.to_owned(),
            }
        },
        None => path.to_owned(),
    }
}

/// The path of an archive: `output` is the path asked for, `name` the name, `folder` the folder in
/// the settings. `None` where both a name and the path of an archive are asked for.
pub open spec fn output_path(
    output: Option<Seq<char>>,
    name: Option<Seq<char>>,
    folder: Option<Seq<char>>,
    roots: Seq<Seq<char>>,
    home: Option<Seq<char>>,
    current: Seq<char>,
) -> Option<Seq<char>> {
    let file = match name {
        Some(n) => zip_name(n),
        None => default_name(roots),
    };
    match output {
        Some(o) => if is_zip_path(expanded(o, home)) {
            if name is Some {
                None
            } else {
                Some(expanded(o, home))
            }
        } else {
            Some(pushed(expanded(o, home), file))
        },
        None => match folder {
            Some(f) if trimmed(f).len() > 0 => Some(pushed(expanded(f, home), file)),
            _ => Some(pushed(current, file)),
        },
    }
}

/// The path of an archive. `None` where both a name and the path of an archive are asked for.
pub fn resolve_output_path(
    output: &Option<String>,
    name: &Option<String>,
    folder: &Option<String>,
    roots: &[String],
    home: &Option<String>,
    current: &str,
) -> (r: Option<String>)
    ensures
        opt_text(r) == output_path(
            opt_text(*output),
            opt_text(*name),
            opt_text(*folder),
            texts(roots@),
            opt_text(*home),
            current@,
        ),
{
    let file: String = match name {
        Some(n) => ensure_zip_extension(n.as_str()),
        None => default_archive_name(roots),
    };
    match output {
        Some(o) => {
            let path: String = expand_tilde_path(o.as_str(), home);
            if looks_like_zip_file(path.as_str()) {
                if name.is_some() {
                    None
                } else {
                    Some(path)
                }
            } else {
                Some(push_part(path.as_str(), file.as_str()))
            }
        },
        None => match folder {
            Some(f) => if trim(f.as_str()).as_str().is_empty() {
                Some(push_part(current, file.as_str()))
            } else {
                Some(push_part(expand_tilde_path(f.as_str(), home).as_str(), file.as_str()))
            },
            None => Some(push_part(current, file.as_str())),
        },
    }
}

/// A path from the root of the file system on.
pub open spec fn absolute(path: Seq<char>, current: Seq<char>) -> Seq<char> {
    if "/"@.is_prefix_of(path) {
        path
    } else {
        pushed(current, path)
    }
}

/// A path from the root of the file system on.
pub fn absolute_path(path: &str, current: &str) -> (r: String)
    ensures
        r@ == absolute(path@, current@),
{
    if starts_with(path, "/") {
        path.to_owned()
    } else {
        push_part(current, path)
    }
}

/// What the file system holds under a path.
#[derive(Debug, Clone, Copy, PartialEq, Eq, Structural)]
pub enum FileKind {
    Directory,
    File,
    Symlink,
    Other,
}

/// What becomes of something found below a root.
#[derive(Debug, Clone, Copy, PartialEq, Eq, Structural)]
pub enum Verdict {
    Ignored,
    Symlink,
    Passed,
    Archived,
}

/// What becomes of something found below a root: it is left out where a pattern says so, symbolic
/// links are, and so is what is neither a file nor a directory, and the archive itself.
pub open spec fn verdict(ignored: bool, kind: FileKind, is_output: bool) -> Verdict {
    if ignored {
        Verdict::Ignored
    } else if kind == FileKind::Symlink {
        Verdict::Symlink
    } else if kind == FileKind::Other || is_output {
        Verdict::Passed
    } else {
        Verdict::Archived
    }
}

/// What becomes of something found below a root.
pub fn judge(ignored: bool, kind: FileKind, is_output: bool) -> (r: Verdict)
    ensures
        r == verdict(ignored, kind, is_output),
{
    if ignored {
        return Verdict::Ignored;
    }
    match kind {
        FileKind::Symlink => Verdict::Symlink,
        FileKind::Other => Verdict::Passed,
        _ => if is_output {
            Verdict::Passed
        } else {
            Verdict::Archived
        },
    }
}

/// What stands before the paths of a root in an archive: its name, where there are several roots.
pub open spec fn root_prefix(root: Seq<char>, several: bool) -> Seq<char> {
    if several {
        match name_of(root) {
            Some(n) => n,
            None => "archive"@,
        }
    } else {
        Seq::empty()
    }
}

/// The path of something in an archive.
pub open spec fn inner_path(root: Seq<char>, several: bool, rel: Seq<char>) -> Seq<char> {
    normalized(pushed(root_prefix(root, several), rel))
}

/// The path in an archive of what is found under `rel` below a root.
pub fn archive_path(root: &str, several: bool, rel: &str) -> (r: String)
    ensures
        r@ == inner_path(root@, several, rel@),
{
    let prefix: String = if several {
        match file_name(root) {
            Some(n) => n,
            None => "archive".to_owned(),
        }
    } else {
        String::new()
    };
    assert(prefix@ =~= root_prefix(root@, several));
    normalize_path(push_part(prefix.as_str(), rel).as_str())
}

/// An archive does not hold itself.
pub proof fn law_archive_leaves_itself_out(ignored: bool, kind: FileKind)
    ensures
        verdict(ignored, kind, true) != Verdict::Archived,
{
}

/// The paths in an archive begin at no root.
pub proof fn law_archive_paths_are_relative(root: Seq<char>, several: bool, rel: Seq<char>)
    ensures
        ({
            let p = inner_path(root, several, rel);
            p.len() > 0 ==> p[0] != '/'
        }),
{
    lemma_normalized_start(pushed(root_prefix(root, several), rel));
}

/// Something in an archive.
#[derive(Debug, PartialEq, Eq)]
pub struct ArchiveEntry {
    pub source: String,
    pub archive_path: String,
    pub is_dir: bool,
}

/// How many of the entries are directories, or how many are not.
pub open spec fn count_kind(v: Seq<ArchiveEntry>, dirs: bool) -> nat
    decreases v.len(),
{
    if v.len() == 0 {
        0
    } else {
        count_kind(v.drop_last(), dirs) + if v.last().is_dir == dirs {
            1nat
        } else {
            0nat
        }
    }
}

/// How many of the entries are directories, and how many are files.
pub fn count_entries(v: &[ArchiveEntry]) -> (r: (usize, usize))
    ensures
        r.0 == count_kind(v@, true),
        r.1 == count_kind(v@, false),
        r.0 + r.1 == v@.len(),
{
    let mut dirs: usize = 0;
    let mut files: usize = 0;
    let mut i: usize = 0;
    while i < v.len()
        invariant
            i <= v@.len(),
            dirs == count_kind(v@.take(i as int), true),
            files == count_kind(v@.take(i as int), false),
            dirs + files == i,
        decreases v@.len() - i,
    {
        assert(v@.take(i + 1).drop_last() =~= v@.take(i as int));
        if v[i].is_dir {
            dirs += 1;
        } else {
            files += 1;
        }
        i += 1;
    }
    assert(v@.take(i as int) =~= v@);
    (dirs, files)
}

/// The name of a directory in an archive: its path with one slash behind it.
pub fn directory_name(path: &str) -> (r: String)
    ensures
        r@ == without_end(path@, '/') + "/"@,
{
    let mut out: String = trim_end_char(path, '/');
    out.append("/");
    out
}

} // verus!
