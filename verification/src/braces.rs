//! Counting braces over lines of source text.

use vstd::prelude::*;
use vstd::utf8::*;
use crate::text::{chars_of, is_space, texts, trim, trim_start, trimmed, trimmed_start};

verus! {

/// The brace depth after `line`, whether a brace has been opened by then, and whether the line
/// closes the outermost one. What follows the closing brace on the line is not read.
pub open spec fn scanned(line: Seq<char>, depth: int, opened: bool) -> (int, bool, bool)
    decreases line.len(),
{
    if line.len() == 0 {
        (depth, opened, false)
    } else if line[0] == '{' {
        scanned(line.drop_first(), depth + 1, true)
    } else if line[0] == '}' {
        if opened && depth == 1 {
            (0, true, true)
        } else {
            scanned(line.drop_first(), depth - 1, opened)
        }
    } else {
        scanned(line.drop_first(), depth, opened)
    }
}

/// The index of the line, from line `i` on, that closes the outermost brace. With `halt`, the
/// search also ends, without a result, after a line that leaves an opened block at depth zero.
pub open spec fn closing_line(
    lines: Seq<Seq<char>>,
    i: int,
    depth: int,
    opened: bool,
    halt: bool,
) -> Option<int>
    decreases lines.len() - i,
{
    if i >= lines.len() {
        None
    } else {
        let after = scanned(lines[i], depth, opened);
        if after.2 {
            Some(i)
        } else if halt && after.1 && after.0 == 0 {
            None
        } else {
            closing_line(lines, i + 1, after.0, after.1, halt)
        }
    }
}

/// The state of a count of braces over lines.
#[derive(Debug, PartialEq, Eq)]
pub struct Braces {
    opens: u128,
    closes: u128,
    opened: bool,
    lines: usize,
}

impl Braces {
    /// How many braces are open.
    pub closed spec fn depth(self) -> int {
        self.opens - self.closes
    }

    /// Whether a brace was ever opened.
    pub closed spec fn opened(self) -> bool {
        self.opened
    }

    /// How many lines were read.
    pub closed spec fn seen(self) -> int {
        self.lines as int
    }

    pub closed spec fn wf(self) -> bool {
        &&& self.opens <= self.lines * 0xffff_ffff_ffff_ffff
        &&& self.closes <= self.lines * 0xffff_ffff_ffff_ffff
    }

    pub fn new() -> (r: Braces)
        ensures
            r.wf(),
            r.depth() == 0,
            !r.opened(),
            r.seen() == 0,
    {
        Braces { opens: 0, closes: 0, opened: false, lines: 0 }
    }

    /// Whether an opened block stands at depth zero.
    pub fn is_level(&self) -> (r: bool)
        ensures
            r == (self.opened() && self.depth() == 0),
    {
        self.opened && self.opens == self.closes
    }

    /// Whether a brace was ever opened.
    pub fn has_opened(&self) -> (r: bool)
        ensures
            r == self.opened(),
    {
        self.opened
    }

    /// Reads one more line and says whether it closes the outermost brace.
    pub fn scan(&mut self, line: &str) -> (hit: bool)
        requires
            old(self).wf(),
            old(self).seen() < usize::MAX,
        ensures
            final(self).wf(),
            final(self).seen() == old(self).seen() + 1,
            (final(self).depth(), final(self).opened(), hit) == scanned(
                line@,
                old(self).depth(),
                old(self).opened(),
            ),
    {
        let cs: Vec<char> = chars_of(line);
        let n: usize = self.lines;
        let mut opens: u128 = self.opens;
        let mut closes: u128 = self.closes;
        let mut opened: bool = self.opened;
        let mut i: usize = 0;
        assert(cs@.skip(0) =~= cs@);
        assert((n + 1) * 0xffff_ffff_ffff_ffff <= 0xffff_ffff_ffff_ffff * 0xffff_ffff_ffff_ffff);
        while i < cs.len()
            invariant
                i <= cs@.len(),
                opens <= n * 0xffff_ffff_ffff_ffff + i,
                closes <= n * 0xffff_ffff_ffff_ffff + i,
                scanned(cs@.skip(i as int), opens - closes, opened) == scanned(
                    cs@,
                    old(self).depth(),
                    old(self).opened(),
                ),
            decreases cs@.len() - i,
        {
            assert(cs@.skip(i as int).drop_first() =~= cs@.skip(i + 1));
            let c: char = cs[i];
            i += 1;
            if c == '{' {
                opens += 1;
                opened = true;
            } else if c == '}' {
                closes += 1;
                if opened && opens == closes {
                    *self = Braces { opens, closes, opened, lines: n + 1 };
                    return true;
                }
            }
        }
        *self = Braces { opens, closes, opened, lines: n + 1 };
        false
    }
}

/// The index of the line, from line `start` on, that closes the first block opened there.
pub fn find_closing_line(lines: &[String], start: usize, halt: bool) -> (r: Option<usize>)
    ensures
        match r {
            Some(i) => closing_line(texts(lines@), start as int, 0, false, halt) == Some(i as int)
                && start <= i < lines@.len(),
            None => closing_line(texts(lines@), start as int, 0, false, halt) is None,
        },
{
    let mut braces: Braces = Braces::new();
    let mut i: usize = start;
    while i < lines.len()
        invariant
            start <= i,
            i <= lines@.len() || i == start,
            braces.wf(),
            braces.seen() == i - start,
            closing_line(texts(lines@), i as int, braces.depth(), braces.opened(), halt)
                == closing_line(texts(lines@), start as int, 0, false, halt),
        decreases lines@.len() - i,
    {
        if braces.scan(lines[i].as_str()) {
            return Some(i);
        }
        if halt && braces.is_level() {
            return None;
        }
        i += 1;
    }
    None
}

/// The line that closes a block lies among those that are searched.
pub proof fn lemma_closing_line(
    lines: Seq<Seq<char>>,
    i: int,
    depth: int,
    opened: bool,
    halt: bool,
)
    ensures
        closing_line(lines, i, depth, opened, halt) matches Some(j) ==> i <= j < lines.len(),
    decreases lines.len() - i,
{
    if i < lines.len() {
        let after = scanned(lines[i], depth, opened);
        lemma_closing_line(lines, i + 1, after.0, after.1, halt);
    }
}

/// Whether a brace is opened on the lines from `i` up to the end of the block, or on any line
/// where it has none.
pub open spec fn opens_block(lines: Seq<Seq<char>>, i: int, depth: int, opened: bool) -> bool
    decreases lines.len() - i,
{
    if i >= lines.len() {
        opened
    } else {
        let after = scanned(lines[i], depth, opened);
        if after.2 || (after.1 && after.0 == 0) {
            true
        } else {
            opens_block(lines, i + 1, after.0, after.1)
        }
    }
}

/// The index of the line, from line `start` on, that closes the first block opened there, and
/// whether one is opened. The search ends after a line that leaves an opened block at depth zero.
pub fn find_block(lines: &[String], start: usize) -> (r: (Option<usize>, bool))
    ensures
        match r.0 {
            Some(i) => closing_line(texts(lines@), start as int, 0, false, true) == Some(i as int)
                && start <= i < lines@.len(),
            None => closing_line(texts(lines@), start as int, 0, false, true) is None,
        },
        r.1 == opens_block(texts(lines@), start as int, 0, false),
{
    let mut braces: Braces = Braces::new();
    let mut i: usize = start;
    while i < lines.len()
        invariant
            start <= i,
            i <= lines@.len() || i == start,
            braces.wf(),
            braces.seen() == i - start,
            closing_line(texts(lines@), i as int, braces.depth(), braces.opened(), true)
                == closing_line(texts(lines@), start as int, 0, false, true),
            opens_block(texts(lines@), i as int, braces.depth(), braces.opened()) == opens_block(
                texts(lines@),
                start as int,
                0,
                false,
            ),
        decreases lines@.len() - i,
    {
        if braces.scan(lines[i].as_str()) {
            return (Some(i), true);
        }
        if braces.is_level() {
            return (None, true);
        }
        i += 1;
    }
    (None, braces.has_opened())
}

/// Open braces, open parentheses and whether a brace was ever opened, after `line`. A closing
/// bracket without its opening one is passed over.
pub open spec fn tallied(line: Seq<char>, braces: nat, parens: nat, opened: bool) -> (
    nat,
    nat,
    bool,
)
    decreases line.len(),
{
    if line.len() == 0 {
        (braces, parens, opened)
    } else {
        let rest = line.drop_first();
        if line[0] == '{' {
            tallied(rest, braces + 1, parens, true)
        } else if line[0] == '}' {
            tallied(rest, if braces > 0 { (braces - 1) as nat } else { 0 }, parens, opened)
        } else if line[0] == '(' {
            tallied(rest, braces, parens + 1, opened)
        } else if line[0] == ')' {
            tallied(rest, braces, if parens > 0 { (parens - 1) as nat } else { 0 }, opened)
        } else {
            tallied(rest, braces, parens, opened)
        }
    }
}

/// Counts of open braces and parentheses over lines.
#[derive(Debug, PartialEq, Eq)]
pub struct Tally {
    braces: u128,
    parens: u128,
    opened: bool,
    lines: usize,
}

impl Tally {
    /// Open braces, open parentheses, and whether a brace was ever opened.
    pub closed spec fn state(self) -> (nat, nat, bool) {
        (self.braces as nat, self.parens as nat, self.opened)
    }

    /// How many lines were read.
    pub closed spec fn seen(self) -> int {
        self.lines as int
    }

    pub closed spec fn wf(self) -> bool {
        &&& self.braces <= self.lines * 0xffff_ffff_ffff_ffff
        &&& self.parens <= self.lines * 0xffff_ffff_ffff_ffff
    }

    pub fn new() -> (r: Tally)
        ensures
            r.wf(),
            r.state() == (0nat, 0nat, false),
            r.seen() == 0,
    {
        Tally { braces: 0, parens: 0, opened: false, lines: 0 }
    }

    /// Whether a brace was opened and none and no parenthesis is open.
    pub fn is_level(&self) -> (r: bool)
        ensures
            r == (self.state() == (0nat, 0nat, true)),
    {
        self.opened && self.braces == 0 && self.parens == 0
    }

    /// Whether a brace was ever opened.
    pub fn has_opened(&self) -> (r: bool)
        ensures
            r == self.state().2,
    {
        self.opened
    }

    /// Reads one more line.
    pub fn add_line(&mut self, line: &str)
        requires
            old(self).wf(),
            old(self).seen() < usize::MAX,
        ensures
            final(self).wf(),
            final(self).seen() == old(self).seen() + 1,
            final(self).state() == tallied(
                line@,
                old(self).state().0,
                old(self).state().1,
                old(self).state().2,
            ),
    {
        let cs: Vec<char> = chars_of(line);
        let n: usize = self.lines;
        let mut braces: u128 = self.braces;
        let mut parens: u128 = self.parens;
        let mut opened: bool = self.opened;
        let mut i: usize = 0;
        assert(cs@.skip(0) =~= cs@);
        assert((n + 1) * 0xffff_ffff_ffff_ffff <= 0xffff_ffff_ffff_ffff * 0xffff_ffff_ffff_ffff);
        while i < cs.len()
            invariant
                i <= cs@.len(),
                braces <= n * 0xffff_ffff_ffff_ffff + i,
                parens <= n * 0xffff_ffff_ffff_ffff + i,
                tallied(cs@.skip(i as int), braces as nat, parens as nat, opened) == tallied(
                    cs@,
                    old(self).state().0,
                    old(self).state().1,
                    old(self).state().2,
                ),
            decreases cs@.len() - i,
        {
            assert(cs@.skip(i as int).drop_first() =~= cs@.skip(i + 1));
            let c: char = cs[i];
            i += 1;
            if c == '{' {
                braces += 1;
                opened = true;
            } else if c == '}' {
                if braces > 0 {
                    braces -= 1;
                }
            } else if c == '(' {
                parens += 1;
            } else if c == ')' {
                if parens > 0 {
                    parens -= 1;
                }
            }
        }
        *self = Tally { braces, parens, opened, lines: n + 1 };
    }
}

/// How many bytes of white space begin `line`.
pub open spec fn indent(line: Seq<char>) -> int {
    encode_utf8(line).len() - encode_utf8(trimmed_start(line)).len()
}

proof fn lemma_indent(line: Seq<char>)
    ensures
        indent(line) >= 0,
    decreases line.len(),
{
    if line.len() > 0 && is_space(line[0]) {
        lemma_indent(line.drop_first());
    }
}

/// How many bytes of white space begin `line`.
pub fn indent_of(line: &str) -> (r: usize)
    ensures
        r == indent(line@),
{
    let rest: String = trim_start(line);
    proof {
        lemma_indent(line@);
    }
    line.as_bytes().len() - rest.as_str().as_bytes().len()
}

/// Whether `line` holds nothing but white space.
pub fn is_blank(line: &str) -> (r: bool)
    ensures
        r == (trimmed(line@).len() == 0),
{
    let t: String = trim(line);
    t.as_str().is_empty()
}

} // verus!
