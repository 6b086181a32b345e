//! What commands are remembered and how they run, said of the texts.

use vstd::prelude::*;
use crate::sieve::{is_sieved, lemma_sieve_more, lemma_sieve_nothing};
use crate::text::{joined, lemma_index_of, lines, occurs, occurs_at, trimmed};
use crate::wcc::{all_commands, commands_of, kind_of, line_command, needs_shell, payload, HistoryFile, HistoryKind};

verus! {

/// Whether a line holds a command that is not empty.
pub open spec fn holds_command(kind: HistoryKind, line: Seq<char>) -> bool {
    line_command(kind, line) matches Some(c) && c.len() > 0
}

/// Every line that holds a command gives it, in order, and no other line gives one.
pub proof fn law_every_command_is_read(kind: HistoryKind, ls: Seq<Seq<char>>)
    ensures
        is_sieved(
            ls,
            commands_of(kind, ls),
            |l: Seq<char>| holds_command(kind, l),
            |l: Seq<char>| line_command(kind, l)->0,
        ),
    decreases ls.len(),
{
    let keep = |l: Seq<char>| holds_command(kind, l);
    let give = |l: Seq<char>| line_command(kind, l)->0;
    let all = commands_of(kind, ls);
    if ls.len() == 0 {
        lemma_sieve_nothing(ls, all, keep, give);
    } else {
        law_every_command_is_read(kind, ls.drop_last());
        lemma_sieve_more(ls, commands_of(kind, ls.drop_last()), all, keep, give);
    }
}

/// A line of a shell's history gives its command: behind the first semicolon in that of zsh, behind
/// its mark in that of fish, and the whole line in any other.
pub proof fn law_command_on_a_line(pre: Seq<char>, command: Seq<char>)
    requires
        !pre.contains(';'),
    ensures
        line_command(HistoryKind::Zsh, pre + ";"@ + command) == Some(trimmed(command)),
        line_command(HistoryKind::Zsh, pre) is None,
        line_command(HistoryKind::Fish, "- cmd: "@ + command) == Some(trimmed(command)),
        line_command(HistoryKind::Plain, command) == Some(trimmed(command)),
{
    reveal_strlit(";");
    let line = pre + ";"@ + command;
    assert forall|j: int| 0 <= j < pre.len() implies line[j] != ';' by {
        assert(line[j] == pre[j]);
    }
    lemma_index_of(line, ';', pre.len() as int);
    assert(line.skip(pre.len() as int + 1) =~= command);
    lemma_index_of(pre, ';', pre.len() as int);
    let f = "- cmd: "@ + command;
    assert("- cmd: "@ =~= f.subrange(0, "- cmd: "@.len() as int));
    assert("- cmd: "@.is_prefix_of(f));
    assert(f.skip("- cmd: "@.len() as int) =~= command);
}

/// The commands of a file come behind those that are there already, the last one first; those of
/// some files, then, one file after the other.
pub proof fn law_all_commands_are_merged(own: Seq<Seq<char>>, a: Seq<HistoryFile>, b: Seq<HistoryFile>)
    ensures
        all_commands(own, a + b) == all_commands(all_commands(own, a), b),
        own.is_prefix_of(all_commands(own, b)),
        b.len() == 0 ==> all_commands(own, b) == own,
        b.len() == 1 ==> {
            let read = commands_of(kind_of(b[0].path@), lines(b[0].content@));
            let all = all_commands(own, b);
            &&& all.len() == own.len() + read.len()
            &&& forall|i: int| 0 <= i < read.len() ==> #[trigger] read[i] == all[all.len() - 1 - i]
        },
    decreases b.len(),
{
    if b.len() == 0 {
        assert(a + b =~= a);
    } else {
        let d = b.drop_last();
        law_all_commands_are_merged(own, a, d);
        assert((a + b).drop_last() =~= a + d);
        assert((a + b).last() == b.last());
        let more = commands_of(kind_of(b.last().path@), lines(b.last().content@)).reverse();
        assert(own =~= all_commands(own, b).subrange(0, own.len() as int)) by {
            assert(own == all_commands(own, d).subrange(0, own.len() as int));
        }
        if b.len() == 1 {
            assert(all_commands(own, d) == own);
        }
    }
}

/// Whether a character means something to a shell.
pub open spec fn is_shell_sign(c: char) -> bool {
    c == '&' || c == '|' || c == '>' || c == '<' || c == ';' || c == '$' || c == '`' || c == '(' || c == ')'
}

proof fn lemma_sign(command: Seq<char>, sign: Seq<char>, c: char)
    requires
        sign.len() > 0,
        sign[0] == c,
    ensures
        occurs(command, sign) ==> command.contains(c),
        sign.len() == 1 && command.contains(c) ==> occurs(command, sign),
{
    if occurs(command, sign) {
        let i = choose|i: int| occurs_at(command, sign, i);
        assert(command.subrange(i, i + sign.len())[0] == command[i]);
    }
    if sign.len() == 1 && command.contains(c) {
        let i = choose|i: int| 0 <= i < command.len() && command[i] == c;
        assert(command.subrange(i, i + 1) =~= sign);
        assert(occurs_at(command, sign, i));
    }
}

/// A command is handed to a shell exactly where it holds a character that means something to one.
pub proof fn law_shell_signs(command: Seq<char>)
    ensures
        needs_shell(command) <==> exists|i: int| 0 <= i < command.len() && is_shell_sign(#[trigger] command[i]),
{
    reveal_strlit("&&");
    reveal_strlit("||");
    reveal_strlit("|");
    reveal_strlit(">");
    reveal_strlit(">>");
    reveal_strlit("<");
    reveal_strlit(";");
    reveal_strlit("&");
    reveal_strlit("$");
    reveal_strlit("`");
    reveal_strlit("(");
    reveal_strlit(")");
    lemma_sign(command, "&&"@, '&');
    lemma_sign(command, "||"@, '|');
    lemma_sign(command, "|"@, '|');
    lemma_sign(command, ">"@, '>');
    lemma_sign(command, ">>"@, '>');
    lemma_sign(command, "<"@, '<');
    lemma_sign(command, ";"@, ';');
    lemma_sign(command, "&"@, '&');
    lemma_sign(command, "$"@, '$');
    lemma_sign(command, "`"@, '`');
    lemma_sign(command, "("@, '(');
    lemma_sign(command, ")"@, ')');
    if exists|i: int| 0 <= i < command.len() && is_shell_sign(#[trigger] command[i]) {
        let i = choose|i: int| 0 <= i < command.len() && is_shell_sign(#[trigger] command[i]);
        assert(command.contains(command[i]));
    }
}

/// What is copied of a command ends with all that it printed as errors, right behind all else that
/// it printed, and begins with the command.
pub proof fn law_payload_holds_both_streams(
    command: Seq<Seq<char>>,
    timestamp: Seq<char>,
    out: Seq<char>,
    err: Seq<char>,
)
    ensures
        (out + "\n\n[stderr]\n"@ + err).is_suffix_of(payload(command, timestamp, out, err)),
        ("$ "@ + joined(command, " "@)).is_prefix_of(payload(command, timestamp, out, err)),
        occurs(payload(command, timestamp, out, err), timestamp),
{
    let p = payload(command, timestamp, out, err);
    let tail = out + "\n\n[stderr]\n"@ + err;
    let head = "$ "@ + joined(command, " "@);
    assert(tail =~= p.subrange(p.len() - tail.len(), p.len() as int));
    assert(head =~= p.subrange(0, head.len() as int));
    let a = (head + " # "@).len() as int;
    assert(p.subrange(a, a + timestamp.len()) =~= timestamp);
    assert(occurs_at(p, timestamp, a));
}

} // verus!
