//! Running commands and keeping what they print.

use vstd::prelude::*;
use crate::config::{truth, truth_text, UnifiedConfig};
use crate::ordered::{firsts, keep_firsts};
use crate::pattern::{regex_replaced, replace_all};
use crate::text::{
    all_digits, chars_of, contains, dec, decimal, ends_with, index_of, is_digit, join, joined,
    law_decimal_reads_back, lemma_index_of, lines, lines_of, occurs, opt_text, push_text, same, slice_index, string_of, strip_prefix, texts, trim, trimmed,
};
use crate::unicode::{lowercase, to_lowercase};

verus! {

/// What a stream has printed.
#[derive(Debug, PartialEq, Eq)]
pub struct StreamTail {
    pub content: String,
}

impl StreamTail {
    /// Nothing yet.
    pub fn new() -> (r: StreamTail)
        ensures
            r.content@ == Seq::<char>::empty(),
    {
        StreamTail { content: String::new() }
    }

    /// Adds what the stream prints next.
    pub fn push(&mut self, chunk: &str)
        ensures
            final(self).content@ == old(self).content@ + chunk@,
    {
        self.content.append(chunk);
    }
}

/// A piece of what a command prints.
#[derive(Debug, PartialEq, Eq)]
pub enum Msg {
    Stdout(String),
    Stderr(String),
}

/// What a piece adds to the one stream or the other.
pub open spec fn part_of(m: Msg, err: bool) -> Seq<char> {
    match m {
        Msg::Stdout(s) => if err {
            Seq::empty()
        } else {
            s@
        },
        Msg::Stderr(s) => if err {
            s@
        } else {
            Seq::empty()
        },
    }
}

/// What the pieces add to the one stream or the other.
pub open spec fn gathered(v: Seq<Msg>, err: bool) -> Seq<char>
    decreases v.len(),
{
    if v.len() == 0 {
        Seq::empty()
    } else {
        gathered(v.drop_last(), err) + part_of(v.last(), err)
    }
}

/// Takes a piece up in the stream that printed it.
pub fn receive(out: &mut StreamTail, err: &mut StreamTail, m: &Msg)
    ensures
        final(out).content@ == old(out).content@ + part_of(*m, false),
        final(err).content@ == old(err).content@ + part_of(*m, true),
{
    match m {
        Msg::Stdout(s) => {
            out.push(s.as_str());
            assert(err.content@ =~= old(err).content@ + part_of(*m, true));
        },
        Msg::Stderr(s) => {
            err.push(s.as_str());
            assert(out.content@ =~= old(out).content@ + part_of(*m, false));
        },
    }
}

/// Both streams keep everything that was printed to them, in order: whatever they hold after some
/// pieces, one more piece is added behind it.
pub proof fn law_streams_keep_everything(v: Seq<Msg>, m: Msg, err: bool)
    ensures
        gathered(v.push(m), err) == gathered(v, err) + part_of(m, err),
        gathered(Seq::<Msg>::empty(), err) == Seq::<char>::empty(),
{
    assert(v.push(m).drop_last() =~= v);
}

/// What is copied of a command.
pub open spec fn payload(
    command: Seq<Seq<char>>,
    timestamp: Seq<char>,
    stdout: Seq<char>,
    stderr: Seq<char>,
) -> Seq<char> {
    "$ "@ + joined(command, " "@) + " # "@ + timestamp + "\n\n[stdout]\n"@ + stdout
        + "\n\n[stderr]\n"@ + stderr
}

/// What is copied of a command: the command, when it ran, and what it printed.
pub fn clipboard_payload(
    command: &[String],
    timestamp: &str,
    stdout: &str,
    stderr: &str,
) -> (r: String)
    ensures
        r@ == payload(texts(command@), timestamp@, stdout@, stderr@),
{
    let mut out: String = "$ ".to_owned();
    out.append(join(command, " ").as_str());
    out.append(" # ");
    out.append(timestamp);
    out.append("\n\n[stdout]\n");
    out.append(stdout);
    out.append("\n\n[stderr]\n");
    out.append(stderr);
    out
}

/// The pattern of the codes by which terminals colour text and clear lines.
pub open spec fn ansi_code() -> Seq<char> {
    "\\x1b\\[[0-9;]*[mK]"@
}

/// A text without the codes by which terminals colour text and clear lines.
pub fn strip_ansi_codes(s: &str) -> (r: String)
    ensures
        r@ == regex_replaced(ansi_code(), s@, ""@),
{
    replace_all("\\x1b\\[[0-9;]*[mK]", s, "")
}

/// What is copied of a command, with what it printed as text without a terminal's codes.
pub fn clean_payload(command: &[String], timestamp: &str, stdout: &str, stderr: &str) -> (r: String)
    ensures
        r@ == payload(
            texts(command@),
            timestamp@,
            regex_replaced(ansi_code(), stdout@, ""@),
            regex_replaced(ansi_code(), stderr@, ""@),
        ),
{
    let out: String = strip_ansi_codes(stdout);
    let err: String = strip_ansi_codes(stderr);
    clipboard_payload(command, timestamp, out.as_str(), err.as_str())
}

/// Whether a build is one for release: as asked for, or else as configured.
pub open spec fn for_release(release: bool, debug: bool, default_mode: Seq<char>) -> bool {
    release || (!debug && default_mode == "release"@)
}

/// Whether a build is one for release.
pub fn is_release(release: bool, debug: bool, default_mode: &str) -> (r: bool)
    ensures
        r == for_release(release, debug, default_mode@),
{
    release || (!debug && same(default_mode, "release"))
}

/// The arguments of `cargo`: what it does, whether for release, and the others.
pub open spec fn cargo_words(
    verb: Seq<char>,
    release: bool,
    args: Seq<Seq<char>>,
) -> Seq<Seq<char>> {
    let head = if release {
        seq![verb, "--release"@]
    } else {
        seq![verb]
    };
    head + args
}

/// The arguments of `cargo`.
pub fn cargo_args(verb: &str, release: bool, args: &[String]) -> (r: Vec<String>)
    ensures
        texts(r@) == cargo_words(verb@, release, texts(args@)),
{
    let mut out: Vec<String> = Vec::new();
    out.push(verb.to_owned());
    if release {
        out.push("--release".to_owned());
    }
    let ghost head = texts(out@);
    assert(head =~= if release {
        seq![verb@, "--release"@]
    } else {
        seq![verb@]
    });
    assert(texts(out@) =~= head + texts(args@).take(0));
    let mut i: usize = 0;
    while i < args.len()
        invariant
            i <= args@.len(),
            texts(out@) == head + texts(args@).take(i as int),
        decreases args@.len() - i,
    {
        push_text(&mut out, args[i].as_str());
        assert(texts(out@) =~= head + texts(args@).take(i + 1));
        i += 1;
    }
    assert(texts(args@).take(i as int) =~= texts(args@));
    out
}

/// The command that runs `cargo` with these arguments.
pub fn cargo_command(args: &[String]) -> (r: String)
    ensures
        r@ == "cargo "@ + joined(texts(args@), " "@),
{
    let mut out: String = "cargo ".to_owned();
    out.append(join(args, " ").as_str());
    out
}

/// Whether a command needs a shell.
pub open spec fn needs_shell(command: Seq<char>) -> bool {
    ||| occurs(command, "&&"@)
    ||| occurs(command, "||"@)
    ||| occurs(command, "|"@)
    ||| occurs(command, ">"@)
    ||| occurs(command, ">>"@)
    ||| occurs(command, "<"@)
    ||| occurs(command, ";"@)
    ||| occurs(command, "&"@)
    ||| occurs(command, "$"@)
    ||| occurs(command, "`"@)
    ||| occurs(command, "("@)
    ||| occurs(command, ")"@)
}

/// Whether a command needs a shell.
pub fn is_shell_builtin_or_alias(command: &str) -> (r: bool)
    ensures
        r == needs_shell(command@),
{
    contains(command, "&&") || contains(command, "||") || contains(command, "|") || contains(
        command,
        ">",
    ) || contains(command, ">>") || contains(command, "<") || contains(command, ";") || contains(
        command,
        "&",
    ) || contains(command, "$") || contains(command, "`") || contains(command, "(") || contains(
        command,
        ")",
    )
}

/// How a command is run: one is asked for, a shell runs it, or it runs by itself.
#[derive(Debug, PartialEq, Eq)]
pub enum Plan {
    Ask,
    Shell(String),
    Watch,
}

/// How a command is run.
pub fn plan(cmd: &[String]) -> (r: Plan)
    ensures
        match r {
            Plan::Ask => cmd@.len() == 0,
            Plan::Shell(s) => cmd@.len() > 0 && s@ == joined(texts(cmd@), " "@) && needs_shell(s@),
            Plan::Watch => cmd@.len() > 0 && !needs_shell(joined(texts(cmd@), " "@)),
        },
{
    if cmd.len() == 0 {
        return Plan::Ask;
    }
    let command: String = join(cmd, " ");
    if is_shell_builtin_or_alias(command.as_str()) {
        Plan::Shell(command)
    } else {
        Plan::Watch
    }
}

/// What comes next while a command runs.
#[derive(Debug, Clone, Copy, PartialEq, Eq, Structural)]
pub enum Step {
    Kill,
    Finish,
    Wait,
}

/// What comes next while a command runs: it is killed where a signal came, the last of its output
/// is read where it has ended, and else some time passes.
pub fn watch_step(signalled: bool, ended: bool) -> (r: Step)
    ensures
        r == (if signalled {
            Step::Kill
        } else if ended {
            Step::Finish
        } else {
            Step::Wait
        }),
{
    if signalled {
        Step::Kill
    } else if ended {
        Step::Finish
    } else {
        Step::Wait
    }
}

/// How the lines of a history file hold commands: behind a time stamp, where they have one, behind
/// a semicolon, behind a mark, or as they are.
#[derive(Debug, Clone, Copy, PartialEq, Eq, Structural)]
pub enum HistoryKind {
    Own,
    Zsh,
    Fish,
    Plain,
}

/// How the lines of a history file hold commands, by its name.
pub open spec fn kind_of(path: Seq<char>) -> HistoryKind {
    if ".zsh_history"@.is_suffix_of(path) {
        HistoryKind::Zsh
    } else if "fish_history"@.is_suffix_of(path) {
        HistoryKind::Fish
    } else {
        HistoryKind::Plain
    }
}

/// How the lines of a history file hold commands, by its name.
pub fn history_kind(path: &str) -> (r: HistoryKind)
    ensures
        r == kind_of(path@),
{
    if ends_with(path, ".zsh_history") {
        HistoryKind::Zsh
    } else if ends_with(path, "fish_history") {
        HistoryKind::Fish
    } else {
        HistoryKind::Plain
    }
}

/// What stands before a command in the tool's own history: the time of its run, in seconds since
/// 1970.
pub open spec fn time_stamp(seconds: nat) -> Seq<char> {
    ": "@ + dec(seconds) + ":0;"@
}

/// The line with which a command stands in the tool's own history.
pub fn history_line(command: &str, seconds: u64) -> (r: String)
    ensures
        r@ == time_stamp(seconds as nat) + command@,
{
    let mut out: String = ": ".to_owned();
    out.append(decimal(seconds).as_str());
    out.append(":0;");
    out.append(command);
    out
}

/// What a line of the tool's own history holds behind its time stamp; the line itself where it has
/// none.
pub open spec fn without_stamp(line: Seq<char>) -> Seq<char> {
    let rest = line.skip(2);
    let k = index_of(rest, ':');
    if ": "@.is_prefix_of(line) && all_digits(rest.take(k)) && ":0;"@.is_prefix_of(rest.skip(k)) {
        rest.skip(k + 3)
    } else {
        line
    }
}

fn drop_stamp(line: &str) -> (r: String)
    ensures
        r@ == without_stamp(line@),
{
    proof {
        reveal_strlit(": ");
        reveal_strlit(":0;");
    }
    let rest: String = match strip_prefix(line, ": ") {
        Some(rest) => rest,
        None => {
            return line.to_owned();
        },
    };
    assert(rest@ =~= line@.skip(2));
    let cs: Vec<char> = chars_of(rest.as_str());
    let n: usize = cs.len();
    let k: usize = slice_index(&cs, ':', 0);
    assert(cs@.skip(0) =~= cs@);
    let number: String = string_of(&cs, 0, k);
    assert(number@ =~= rest@.take(k as int));
    let tail: String = string_of(&cs, k, n);
    assert(tail@ =~= rest@.skip(k as int));
    if !is_number(number.as_str()) {
        return line.to_owned();
    }
    match strip_prefix(tail.as_str(), ":0;") {
        Some(command) => {
            assert(command@ =~= rest@.skip(k + 3));
            command
        },
        None => line.to_owned(),
    }
}

fn is_number(s: &str) -> (r: bool)
    ensures
        r == all_digits(s@),
{
    let cs: Vec<char> = chars_of(s);
    let mut i: usize = 0;
    while i < cs.len()
        invariant
            i <= cs@.len(),
            forall|j: int| 0 <= j < i ==> is_digit(#[trigger] cs@[j]),
        decreases cs@.len() - i,
    {
        if !('0' <= cs[i] && cs[i] <= '9') {
            assert(!is_digit(s@[i as int]));
            return false;
        }
        i += 1;
    }
    cs.len() > 0
}

/// A command is read back from the line with which it stands in the tool's own history, the white
/// space around it aside.
pub proof fn law_own_history_reads_back(command: Seq<char>, seconds: nat)
    ensures
        line_command(HistoryKind::Own, time_stamp(seconds) + command) == Some(trimmed(command)),
{
    reveal_strlit(": ");
    reveal_strlit(":0;");
    let line = time_stamp(seconds) + command;
    let rest = line.skip(2);
    let d = dec(seconds);
    law_decimal_reads_back(seconds);
    assert(rest =~= d + (":0;"@ + command));
    assert forall|j: int| 0 <= j < d.len() implies rest[j] != ':' by {
        assert(is_digit(d[j]));
    }
    lemma_index_of(rest, ':', d.len() as int);
    assert(rest.take(d.len() as int) =~= d);
    assert(line.subrange(0, 2) =~= ": "@);
    assert(rest.skip(d.len() as int).subrange(0, 3) =~= ":0;"@);
    assert(rest.skip(d.len() as int + 3) =~= command);
}

/// The command on a line, if it holds one; it may be empty.
pub open spec fn line_command(kind: HistoryKind, line: Seq<char>) -> Option<Seq<char>> {
    match kind {
        HistoryKind::Own => Some(trimmed(without_stamp(line))),
        HistoryKind::Zsh => if index_of(line, ';') < line.len() {
            Some(trimmed(line.skip(index_of(line, ';') + 1)))
        } else {
            None
        },
        HistoryKind::Fish => if "- cmd: "@.is_prefix_of(line) {
            Some(trimmed(line.skip("- cmd: "@.len() as int)))
        } else {
            None
        },
        HistoryKind::Plain => Some(trimmed(line)),
    }
}

fn read_command(kind: HistoryKind, line: &str) -> (r: Option<String>)
    ensures
        opt_text(r) == line_command(kind, line@),
{
    match kind {
        HistoryKind::Own => Some(trim(drop_stamp(line).as_str())),
        HistoryKind::Zsh => {
            let cs: Vec<char> = chars_of(line);
            let n: usize = cs.len();
            let k: usize = slice_index(&cs, ';', 0);
            assert(cs@.skip(0) =~= cs@);
            if k < n {
                assert(cs@.skip(k + 1) =~= cs@.subrange(k + 1, n as int));
                Some(trim(string_of(&cs, k + 1, n).as_str()))
            } else {
                None
            }
        },
        HistoryKind::Fish => match strip_prefix(line, "- cmd: ") {
            Some(rest) => Some(trim(rest.as_str())),
            None => None,
        },
        HistoryKind::Plain => Some(trim(line)),
    }
}

/// The commands on lines, empty ones aside.
pub open spec fn commands_of(kind: HistoryKind, lines: Seq<Seq<char>>) -> Seq<Seq<char>>
    decreases lines.len(),
{
    if lines.len() == 0 {
        Seq::empty()
    } else {
        let before = commands_of(kind, lines.drop_last());
        match line_command(kind, lines.last()) {
            Some(c) if c.len() > 0 => before.push(c),
            _ => before,
        }
    }
}

/// The commands in the text of a history file, empty ones aside.
pub fn read_commands(kind: HistoryKind, content: &str) -> (r: Vec<String>)
    ensures
        texts(r@) == commands_of(kind, lines(content@)),
{
    let all: Vec<String> = lines_of(content);
    let ghost ls = texts(all@);
    let mut out: Vec<String> = Vec::new();
    let mut i: usize = 0;
    assert(texts(out@) =~= Seq::empty());
    while i < all.len()
        invariant
            i <= all@.len(),
            texts(out@) == commands_of(kind, ls.take(i as int)),
        decreases all@.len() - i,
    {
        assert(ls.take(i + 1).drop_last() =~= ls.take(i as int));
        assert(ls.take(i + 1).last() == all@[i as int]@);
        match read_command(kind, all[i].as_str()) {
            Some(c) => {
                if !c.as_str().is_empty() {
                    push_text(&mut out, c.as_str());
                }
            },
            None => {},
        }
        i += 1;
    }
    assert(ls.take(i as int) =~= ls);
    out
}

/// A shell's history file.
#[derive(Debug, PartialEq, Eq)]
pub struct HistoryFile {
    pub path: String,
    pub content: String,
}

/// The commands of the tool's own history, and then those of the shells' files, the last one of
/// each file first.
pub open spec fn all_commands(own: Seq<Seq<char>>, files: Seq<HistoryFile>) -> Seq<Seq<char>>
    decreases files.len(),
{
    if files.len() == 0 {
        own
    } else {
        all_commands(own, files.drop_last()) + commands_of(
            kind_of(files.last().path@),
            lines(files.last().content@),
        ).reverse()
    }
}

fn push_reversed(out: &mut Vec<String>, v: &[String])
    ensures
        texts(final(out)@) == texts(old(out)@) + texts(v@).reverse(),
{
    let ghost start = texts(out@);
    let ghost back = texts(v@).reverse();
    let n: usize = v.len();
    let mut i: usize = n;
    assert(start + back.take(0) =~= start);
    while i > 0
        invariant
            i <= n,
            n == v@.len(),
            texts(out@) == start + back.take(n - i),
        decreases i,
    {
        i -= 1;
        push_text(out, v[i].as_str());
        assert(back[n - i - 1] == v@[i as int]@);
        assert(texts(out@) =~= start + back.take(n - i));
    }
    assert(back.take(n as int) =~= back);
}

/// The commands of the tool's own history and of the shells' files, each at its first place only;
/// `own` is the text of the tool's own history.
pub fn merge_history(own: &str, files: &[HistoryFile]) -> (r: Vec<String>)
    ensures
        texts(r@) == firsts(
            all_commands(commands_of(HistoryKind::Own, lines(own@)), files@),
        ),
{
    let mut out: Vec<String> = read_commands(HistoryKind::Own, own);
    let ghost start = texts(out@);
    let mut i: usize = 0;
    while i < files.len()
        invariant
            i <= files@.len(),
            texts(out@) == all_commands(start, files@.take(i as int)),
        decreases files@.len() - i,
    {
        assert(files@.take(i + 1).drop_last() =~= files@.take(i as int));
        let more: Vec<String> = read_commands(
            history_kind(files[i].path.as_str()),
            files[i].content.as_str(),
        );
        push_reversed(&mut out, &more);
        i += 1;
    }
    assert(files@.take(i as int) =~= files@);
    keep_firsts(&out)
}

/// The files that may hold a shell's history in a home directory.
pub fn history_candidates(home: &str) -> (r: Vec<String>)
    ensures
        texts(r@) == seq![
            home@ + "/.zsh_history"@,
            home@ + "/.bash_history"@,
            home@ + "/.local/share/fish/fish_history"@,
        ],
{
    let mut zsh: String = home.to_owned();
    zsh.append("/.zsh_history");
    let mut bash: String = home.to_owned();
    bash.append("/.bash_history");
    let mut fish: String = home.to_owned();
    fish.append("/.local/share/fish/fish_history");
    let mut out: Vec<String> = Vec::new();
    out.push(zsh);
    out.push(bash);
    out.push(fish);
    assert(texts(out@) =~= seq![
        home@ + "/.zsh_history"@,
        home@ + "/.bash_history"@,
        home@ + "/.local/share/fish/fish_history"@,
    ]);
    out
}

/// The command that was chosen: the last line of what the chooser printed, unless it is blank or
/// the choice was broken off.
pub open spec fn chosen(code: Option<i32>, printed: Seq<char>) -> Option<Seq<char>> {
    let ls = lines(printed);
    let last = if ls.len() > 0 {
        trimmed(ls.last())
    } else {
        Seq::empty()
    };
    if code == Some(130i32) || last.len() == 0 {
        None
    } else {
        Some(last)
    }
}

/// The command that was chosen, given the chooser's exit code and what it printed.
pub fn chosen_command(code: Option<i32>, printed: &str) -> (r: Option<String>)
    ensures
        opt_text(r) == chosen(code, printed@),
{
    match code {
        Some(c) => if c == 130 {
            return None;
        },
        None => {},
    }
    let all: Vec<String> = lines_of(printed);
    if all.len() == 0 {
        return None;
    }
    assert(texts(all@).last() == all@[all@.len() - 1]@);
    let last: String = trim(all[all.len() - 1].as_str());
    if last.as_str().is_empty() {
        None
    } else {
        Some(last)
    }
}

/// Whether a text in small letters is a mode of `cargo`.
pub open spec fn is_mode(mode: Seq<char>) -> bool {
    mode == "debug"@ || mode == "release"@
}

/// The mode that a text in small letters names, or what is said of one that names none.
pub fn mode_or_error(mode: &str, lower: &str) -> (r: Result<String, String>)
    ensures
        match r {
            Ok(m) => is_mode(lower@) && m@ == lower@,
            Err(e) => !is_mode(lower@) && e@ == "\x1b[31mError: Invalid mode '"@ + mode@
                + "'. Use 'debug' or 'release'.\x1b[0m"@,
        },
{
    if same(lower, "debug") || same(lower, "release") {
        Ok(lower.to_owned())
    } else {
        let mut e: String = "\x1b[31mError: Invalid mode '".to_owned();
        e.append(mode);
        e.append("'. Use 'debug' or 'release'.\x1b[0m");
        Err(e)
    }
}

/// The mode that a text names in letters of any size, or what is said of one that names none.
pub fn checked_mode(mode: &str) -> (r: Result<String, String>)
    ensures
        match r {
            Ok(m) => is_mode(lowercase(mode@)) && m@ == lowercase(mode@),
            Err(e) => !is_mode(lowercase(mode@)) && e@ == "\x1b[31mError: Invalid mode '"@ + mode@
                + "'. Use 'debug' or 'release'.\x1b[0m"@,
        },
{
    let lower: String = to_lowercase(mode);
    mode_or_error(mode, lower.as_str())
}

/// The settings that matter most.
pub open spec fn settings_text(c: UnifiedConfig) -> Seq<char> {
    "\x1b[36m📋 Current wcc configuration:\x1b[0m\n  [wcc]\n    default_cargo_mode: \x1b[33m"@
        + c.wcc.default_cargo_mode@ + "\x1b[0m\n  [wcn]\n    show_time_in_header: "@ + truth(
        c.wcn.show_time_in_header,
    ) + "\n  [wcp]\n    auto_backup: "@ + truth(c.wcp.auto_backup)
        + "\n  [wcl]\n    max_file_words_to_copy: "@ + dec(c.wcl.max_file_words_to_copy as nat)
        + "\n  [wcf]\n    auto_format: "@ + truth(c.wcf.auto_format)
        + "\n\n  Config file: \x1b[90m~/.config/wcc/config.toml\x1b[0m\n"@
}

/// The settings that matter most, to be printed.
pub fn show_settings(c: &UnifiedConfig) -> (r: String)
    ensures
        r@ == settings_text(*c),
{
    let mut out: String =
        "\x1b[36m📋 Current wcc configuration:\x1b[0m\n  [wcc]\n    default_cargo_mode: \x1b[33m".to_owned();
    out.append(c.wcc.default_cargo_mode.as_str());
    out.append("\x1b[0m\n  [wcn]\n    show_time_in_header: ");
    out.append(truth_text(c.wcn.show_time_in_header));
    out.append("\n  [wcp]\n    auto_backup: ");
    out.append(truth_text(c.wcp.auto_backup));
    out.append("\n  [wcl]\n    max_file_words_to_copy: ");
    out.append(decimal(c.wcl.max_file_words_to_copy as u64).as_str());
    out.append("\n  [wcf]\n    auto_format: ");
    out.append(truth_text(c.wcf.auto_format));
    out.append("\n\n  Config file: \x1b[90m~/.config/wcc/config.toml\x1b[0m\n");
    out
}

} // verus!
