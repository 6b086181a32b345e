//! Watching commands, with a history of what they printed.

use vstd::prelude::*;
use crate::bytes::{
    byte_len, lemma_byte_order, lemma_byte_step, lemma_encode_concat, lemma_encode_split, width,
};
use crate::common::{calc_stats, word_count, TextStats};
use crate::config::{truth, truth_text};
use crate::ordered::{before, in_order, lemma_push_contains, same_members, sort_distinct};
use crate::packing::{decompress_b64, name_format, name_stamp, pack, packed, unpacked, utc_format};
use crate::path::{
    has_extension, lemma_extension, lemma_pushed_name, path_extension, push_part, pushed,
};
use crate::text::{
    capped, chars_of, dec, decimal, ends_with, is_word, join, joined, lemma_joined_lines,
    lemma_lines_without_feeds, lemma_newlines_join, lemma_words_are_words, lemma_words_joined, lines, lines_of, newlines,
    opt_text, push_text, repeat, repeated, slice_texts, string_of, texts, words, words_of,
};

verus! {

/// What a limit counts.
#[derive(Debug, Clone, Copy, PartialEq, Eq, Structural)]
pub enum RetainMode {
    Lines,
    Words,
    Chars,
    Bytes,
}

/// How much of a stream is kept.
#[derive(Debug, Clone, Copy, PartialEq, Eq, Structural)]
pub struct RetainPolicy {
    pub mode: RetainMode,
    pub limit: usize,
}

/// The settings.
#[derive(Debug, PartialEq, Eq)]
pub struct Config {
    pub history_dir: String,
    pub compress_above_bytes: usize,
    pub retain: RetainPolicy,
}

impl Config {
    /// The settings where there are none; `home` is the home directory, if there is one.
    pub fn default_for(home: &Option<String>) -> (r: Config)
        ensures
            r.history_dir@ == pushed(
                match opt_text(*home) {
                    Some(h) => h,
                    None => "."@,
                },
                ".local/state/wcc/history"@,
            ),
            r.compress_above_bytes == 16 * 1024,
            r.retain.mode == RetainMode::Bytes,
            r.retain.limit == 128 * 1024,
    {
        let history_dir: String = match home {
            Some(h) => push_part(h.as_str(), ".local/state/wcc/history"),
            None => push_part(".", ".local/state/wcc/history"),
        };
        Config {
            history_dir,
            compress_above_bytes: 16 * 1024,
            retain: RetainPolicy { mode: RetainMode::Bytes, limit: 128 * 1024 },
        }
    }
}

/// The first place of `s` from `k` on that stands behind at least `cut` bytes.
pub open spec fn cut_place(s: Seq<char>, cut: int, k: int) -> int
    decreases s.len() - k,
{
    if k >= s.len() || byte_len(s.take(k)) >= cut {
        k
    } else {
        cut_place(s, cut, k + 1)
    }
}

/// The last `limit` bytes of a text; the bytes of a character that is cut are replaced one by one.
pub open spec fn byte_tail(s: Seq<char>, limit: int) -> Seq<char> {
    let cut = byte_len(s) - limit;
    let k = cut_place(s, cut, 0);
    repeated('\u{fffd}', (byte_len(s.take(k)) - cut) as nat) + s.skip(k)
}

/// The last `limit` lines of a text.
pub open spec fn line_tail(s: Seq<char>, limit: int) -> Seq<char> {
    let all = lines(s);
    joined(all.skip(all.len() - limit), "\n"@) + if "\n"@.is_suffix_of(s) {
        "\n"@
    } else {
        Seq::empty()
    }
}

/// The last `limit` words of a text, with blanks between them.
pub open spec fn word_tail(s: Seq<char>, limit: int) -> Seq<char> {
    let all = words(s);
    joined(all.skip(all.len() - limit), " "@)
}

/// How much of what a limit counts a text has.
pub open spec fn amount(s: Seq<char>, mode: RetainMode) -> nat {
    match mode {
        RetainMode::Bytes => byte_len(s),
        RetainMode::Chars => s.len(),
        RetainMode::Lines => lines(s).len(),
        RetainMode::Words => words(s).len(),
    }
}

/// The end of a text that is kept: all of it where it is within the limit.
pub open spec fn tail(s: Seq<char>, retain: RetainPolicy) -> Seq<char> {
    if amount(s, retain.mode) <= retain.limit {
        s
    } else {
        match retain.mode {
            RetainMode::Bytes => byte_tail(s, retain.limit as int),
            RetainMode::Chars => s.skip(s.len() - retain.limit),
            RetainMode::Lines => line_tail(s, retain.limit as int),
            RetainMode::Words => word_tail(s, retain.limit as int),
        }
    }
}

proof fn lemma_cut_place(s: Seq<char>, cut: int, k: int)
    requires
        0 <= k <= s.len(),
        cut <= byte_len(s),
        k > 0 ==> byte_len(s.take(k - 1)) < cut,
    ensures
        k <= cut_place(s, cut, k) <= s.len(),
        cut <= byte_len(s.take(cut_place(s, cut, k))) <= cut + 3 || cut <= 0,
    decreases s.len() - k,
{
    assert(s.take(s.len() as int) =~= s);
    if k < s.len() && byte_len(s.take(k)) < cut {
        lemma_cut_place(s, cut, k + 1);
    } else if k > 0 {
        lemma_byte_step(s, k - 1);
    }
}

fn trim_bytes(s: &str, limit: usize) -> (r: String)
    requires
        byte_len(s@) > limit,
    ensures
        r@ == byte_tail(s@, limit as int),
{
    let cs: Vec<char> = chars_of(s);
    let size: usize = s.as_bytes().len();
    let cut: usize = size - limit;
    let n: usize = cs.len();
    let mut at: usize = 0;
    let mut k: usize = 0;
    assert(cs@.take(n as int) =~= cs@);
    while k < n && at < cut
        invariant
            k <= n,
            n == cs@.len(),
            at == byte_len(cs@.take(k as int)),
            cut_place(cs@, cut as int, k as int) == cut_place(cs@, cut as int, 0),
        decreases n - k,
    {
        proof {
            lemma_byte_step(cs@, k as int);
            lemma_byte_order(cs@, k + 1, n as int);
        }
        at += width(cs[k]);
        k += 1;
    }
    let mut out: String = repeat('\u{fffd}', at - cut);
    assert(cs@.skip(k as int) =~= cs@.subrange(k as int, n as int));
    out.append(string_of(&cs, k, n).as_str());
    out
}

/// The end of a text that is kept.
pub fn trim_tail(input: &str, retain: &RetainPolicy) -> (r: String)
    ensures
        r@ == tail(input@, *retain),
{
    let limit: usize = retain.limit;
    match retain.mode {
        RetainMode::Bytes => if input.as_bytes().len() <= limit {
            input.to_owned()
        } else {
            trim_bytes(input, limit)
        },
        RetainMode::Chars => {
            let cs: Vec<char> = chars_of(input);
            let n: usize = cs.len();
            if n <= limit {
                input.to_owned()
            } else {
                assert(cs@.skip(n - limit) =~= cs@.subrange(n - limit, n as int));
                string_of(&cs, n - limit, n)
            }
        },
        RetainMode::Lines => {
            let all: Vec<String> = lines_of(input);
            let n: usize = all.len();
            assert(texts(all@).len() == n);
            if n <= limit {
                input.to_owned()
            } else {
                let part: Vec<String> = slice_texts(&all, n - limit, n);
                assert(texts(part@) =~= texts(all@).skip(n - limit));
                let mut end: String = String::new();
                if ends_with(input, "\n") {
                    end = "\n".to_owned();
                }
                let mut out: String = join(&part, "\n");
                out.append(end.as_str());
                out
            }
        },
        RetainMode::Words => {
            let all: Vec<String> = words_of(input);
            let n: usize = all.len();
            assert(texts(all@).len() == n);
            if n <= limit {
                input.to_owned()
            } else {
                let part: Vec<String> = slice_texts(&all, n - limit, n);
                assert(texts(part@) =~= texts(all@).skip(n - limit));
                join(&part, " ")
            }
        },
    }
}

/// What is kept of a text by characters is its end, and no longer than the limit.
pub proof fn law_char_tail(s: Seq<char>, limit: usize)
    ensures
        tail(s, RetainPolicy { mode: RetainMode::Chars, limit }).len() <= limit,
        tail(s, RetainPolicy { mode: RetainMode::Chars, limit }).is_suffix_of(s),
{
    assert(s.skip(0) =~= s);
}

/// What is kept of a text by bytes is its end behind at most three characters that stand for bytes
/// of one that was cut. Where none was cut, it is no longer than the limit.
pub proof fn law_byte_tail(s: Seq<char>, limit: usize)
    ensures
        ({
            let t = tail(s, RetainPolicy { mode: RetainMode::Bytes, limit });
            exists|stray: nat, k: int|
                stray <= 3 && 0 <= k <= s.len() && t == #[trigger] repeated('\u{fffd}', stray)
                    + #[trigger] s.skip(k) && (stray == 0 ==> byte_len(t) <= limit)
        }),
{
    let t = tail(s, RetainPolicy { mode: RetainMode::Bytes, limit });
    if byte_len(s) <= limit {
        assert(s.skip(0) =~= s);
        assert(repeated('\u{fffd}', 0) + s.skip(0) =~= s);
    } else {
        let cut = byte_len(s) - limit;
        let k = cut_place(s, cut, 0);
        lemma_cut_place(s, cut, 0);
        let stray = (byte_len(s.take(k)) - cut) as nat;
        assert(t == repeated('\u{fffd}', stray) + s.skip(k));
        if stray == 0 {
            assert(t =~= s.skip(k));
            lemma_encode_split(s, k);
        }
    }
}

/// What is kept of a text by words has no more words than the limit, and they are its last ones.
pub proof fn law_word_tail(s: Seq<char>, limit: usize)
    ensures
        ({
            let t = tail(s, RetainPolicy { mode: RetainMode::Words, limit });
            words(t).len() <= limit && words(t).is_suffix_of(words(s))
        }),
{
    let all = words(s);
    if all.len() <= limit {
        assert(all.subrange(0, all.len() as int) =~= all);
    } else {
        let kept = all.skip(all.len() - limit);
        lemma_words_are_words(s);
        assert forall|i: int| 0 <= i < kept.len() implies is_word(#[trigger] kept[i]) by {
            assert(kept[i] == all[all.len() - limit + i]);
        }
        lemma_words_joined(kept);
    }
}

/// What is kept of a text by lines has no more lines than the limit, where that is not zero.
pub proof fn law_line_tail(s: Seq<char>, limit: usize)
    requires
        limit > 0,
    ensures
        lines(tail(s, RetainPolicy { mode: RetainMode::Lines, limit })).len() <= limit,
{
    let all = lines(s);
    if all.len() > limit {
        let kept = all.skip(all.len() - limit);
        lemma_lines_without_feeds(s);
        assert forall|i: int, j: int| 0 <= i < kept.len() && 0 <= j < kept[i].len() implies #[trigger] kept[i][j]
            != '\n' by {
            assert(all[all.len() - limit + i][j] != '\n');
        }
        reveal_strlit("\n");
        assert("\n"@ =~= seq!['\n']);
        let end = if "\n"@.is_suffix_of(s) {
            "\n"@
        } else {
            Seq::empty()
        };
        lemma_joined_lines(kept, end);
    }
}

/// What a stream has printed: its end, and how much it was.
#[derive(Debug, PartialEq, Eq)]
pub struct StreamTail {
    pub content: String,
    pub stats: TextStats,
}

/// The size of what a stream has printed after one more piece; a size that can no longer be
/// counted stays at the largest.
pub open spec fn grown(stats: TextStats, chunk: Seq<char>) -> TextStats {
    TextStats {
        lines: capped((stats.lines + newlines(chunk)) as nat) as usize,
        words: capped((stats.words + word_count(chunk)) as nat) as usize,
        chars: capped((stats.chars + chunk.len()) as nat) as usize,
        bytes: capped((stats.bytes + byte_len(chunk)) as nat) as usize,
    }
}

impl StreamTail {
    /// Nothing yet.
    pub fn new() -> (r: StreamTail)
        ensures
            r.content@ == Seq::<char>::empty(),
            r.stats == (TextStats { lines: 0, words: 0, chars: 0, bytes: 0 }),
    {
        StreamTail {
            content: String::new(),
            stats: TextStats { lines: 0, words: 0, chars: 0, bytes: 0 },
        }
    }

    /// Adds what the stream prints next, and keeps the end that the policy asks for.
    pub fn push(&mut self, chunk: &str, retain: &RetainPolicy)
        ensures
            final(self).content@ == tail(old(self).content@ + chunk@, *retain),
            final(self).stats == grown(old(self).stats, chunk@),
    {
        let more: TextStats = calc_stats(chunk);
        self.stats = TextStats {
            lines: self.stats.lines.saturating_add(more.lines),
            words: self.stats.words.saturating_add(more.words),
            chars: self.stats.chars.saturating_add(more.chars),
            bytes: self.stats.bytes.saturating_add(more.bytes),
        };
        self.content.append(chunk);
        self.content = trim_tail(self.content.as_str(), retain);
    }
}

/// What a stream has printed after these pieces, from nothing on: the end that was kept, and how
/// much it was.
pub open spec fn printed(chunks: Seq<Seq<char>>, retain: RetainPolicy) -> (Seq<char>, TextStats)
    decreases chunks.len(),
{
    if chunks.len() == 0 {
        (Seq::empty(), TextStats { lines: 0, words: 0, chars: 0, bytes: 0 })
    } else {
        let before = printed(chunks.drop_last(), retain);
        (tail(before.0 + chunks.last(), retain), grown(before.1, chunks.last()))
    }
}

/// The pieces one after the other.
pub open spec fn whole_stream(chunks: Seq<Seq<char>>) -> Seq<char>
    decreases chunks.len(),
{
    if chunks.len() == 0 {
        Seq::empty()
    } else {
        whole_stream(chunks.drop_last()) + chunks.last()
    }
}

/// The words of the pieces, each piece counted by itself.
pub open spec fn words_of_chunks(chunks: Seq<Seq<char>>) -> nat
    decreases chunks.len(),
{
    if chunks.len() == 0 {
        0
    } else {
        words_of_chunks(chunks.drop_last()) + word_count(chunks.last())
    }
}

proof fn lemma_count_bounds(s: Seq<char>)
    ensures
        newlines(s) <= s.len(),
        word_count(s) <= s.len(),
        s.len() <= byte_len(s),
    decreases s.len(),
{
    if s.len() > 0 {
        let n = s.len() - 1;
        lemma_count_bounds(s.drop_last());
        lemma_byte_step(s, n);
        assert(s.take(n) =~= s.drop_last());
        assert(s.take(n + 1) =~= s);
    }
}

/// The sizes that a stream is noted with are those of all it has printed, whatever the policy
/// keeps of it, as long as they can be counted; words are counted piece by piece.
pub proof fn law_stats_cover_the_stream(chunks: Seq<Seq<char>>, retain: RetainPolicy)
    requires
        byte_len(whole_stream(chunks)) <= usize::MAX,
    ensures
        ({
            let all = whole_stream(chunks);
            let stats = printed(chunks, retain).1;
            &&& stats.bytes == byte_len(all)
            &&& stats.chars == all.len()
            &&& stats.lines == newlines(all)
            &&& stats.words == words_of_chunks(chunks)
            &&& words_of_chunks(chunks) <= all.len()
        }),
    decreases chunks.len(),
{
    let all = whole_stream(chunks);
    lemma_count_bounds(all);
    if chunks.len() > 0 {
        let before = whole_stream(chunks.drop_last());
        let last = chunks.last();
        lemma_newlines_join(before, last);
        lemma_encode_concat(before, last);
        law_stats_cover_the_stream(chunks.drop_last(), retain);
        lemma_count_bounds(last);
    }
}

/// A text packed, where it has at least `threshold` bytes and can be packed. It can be unpacked
/// again.
pub fn compress_if_needed(s: &str, threshold: usize) -> (r: Result<Option<String>, ()>)
    ensures
        match r {
            Ok(None) => byte_len(s@) < threshold,
            Ok(Some(t)) => byte_len(s@) >= threshold && packed(s@) == Some(t@) && unpacked(t@)
                == Some(s@),
            Err(_) => byte_len(s@) >= threshold && packed(s@) is None,
        },
{
    if s.as_bytes().len() < threshold {
        return Ok(None);
    }
    match pack(s) {
        Some(t) => Ok(Some(t)),
        None => Err(()),
    }
}

/// The text of a stream in the history: what was unpacked, or else the end that was kept.
pub fn unpacked_or_tail(whole: Option<String>, tail: &str) -> (r: String)
    ensures
        r@ == match opt_text(whole) {
            Some(t) => t,
            None => tail@,
        },
{
    match whole {
        Some(t) => t,
        None => tail.to_owned(),
    }
}

/// The text of a stream in the history: what its packed form holds, or else the end that was kept.
pub fn stream_text(compressed: &Option<String>, tail: &str) -> (r: String)
    ensures
        r@ == match *compressed {
            Some(c) => match unpacked(c@) {
                Some(t) => t,
                None => tail@,
            },
            None => tail@,
        },
{
    match compressed {
        Some(c) => unpacked_or_tail(decompress_b64(c.as_str()), tail),
        None => tail.to_owned(),
    }
}

/// The paths with the extension of history files.
pub open spec fn history_paths(v: Seq<Seq<char>>) -> Seq<Seq<char>>
    decreases v.len(),
{
    if v.len() == 0 {
        Seq::empty()
    } else if path_extension(v.last()) == Some("json"@) {
        history_paths(v.drop_last()).push(v.last())
    } else {
        history_paths(v.drop_last())
    }
}

/// The history files among the paths in a directory, the latest first.
pub fn history_files(paths: &[String]) -> (r: Vec<String>)
    ensures
        texts(r@) == in_order(history_paths(texts(paths@))).reverse(),
        forall|i: int, j: int|
            0 <= i < j < r@.len() ==> before((#[trigger] r@[j])@, (#[trigger] r@[i])@),
        forall|p: Seq<char>| #[trigger]
            texts(r@).contains(p) <==> texts(paths@).contains(p) && path_extension(p) == Some("json"@),
{
    let ghost all = texts(paths@);
    let mut kept: Vec<String> = Vec::new();
    let mut i: usize = 0;
    assert(texts(kept@) =~= Seq::empty());
    while i < paths.len()
        invariant
            i <= paths@.len(),
            texts(kept@) == history_paths(all.take(i as int)),
        decreases paths@.len() - i,
    {
        assert(all.take(i + 1).drop_last() =~= all.take(i as int));
        assert(all.take(i + 1).last() == paths@[i as int]@);
        if has_extension(paths[i].as_str(), "json") {
            push_text(&mut kept, paths[i].as_str());
        }
        i += 1;
    }
    assert(all.take(i as int) =~= all);
    let sorted: Vec<String> = sort_distinct(&kept);
    let ghost back = texts(sorted@).reverse();
    let n: usize = sorted.len();
    let mut out: Vec<String> = Vec::new();
    let mut k: usize = n;
    assert(texts(out@) =~= back.take(0));
    while k > 0
        invariant
            k <= n,
            n == sorted@.len(),
            texts(out@) == back.take(n - k),
        decreases k,
    {
        k -= 1;
        push_text(&mut out, sorted[k].as_str());
        assert(back[n - k - 1] == sorted@[k as int]@);
        assert(texts(out@) =~= back.take(n - k));
    }
    assert(back.take(n as int) =~= back);
    proof {
        let ks = texts(sorted@);
        assert forall|i: int, j: int| 0 <= i < j < out@.len() implies before(
            (#[trigger] out@[j])@,
            (#[trigger] out@[i])@,
        ) by {
            assert(texts(out@)[i] == ks[n - 1 - i]);
            assert(texts(out@)[j] == ks[n - 1 - j]);
        }
        assert forall|p: Seq<char>| #[trigger] texts(out@).contains(p) <==> all.contains(p)
            && path_extension(p) == Some("json"@) by {
            lemma_history_paths(all, p);
            assert(same_members(ks, history_paths(all)));
            assert(ks.contains(p) <==> history_paths(all).contains(p));
            if ks.contains(p) {
                let i = choose|i: int| 0 <= i < ks.len() && ks[i] == p;
                assert(back[n - 1 - i] == p);
            }
            if back.contains(p) {
                let i = choose|i: int| 0 <= i < back.len() && back[i] == p;
                assert(ks[n - 1 - i] == p);
            }
        }
    }
    out
}

proof fn lemma_history_paths(v: Seq<Seq<char>>, p: Seq<char>)
    ensures
        history_paths(v).contains(p) <==> v.contains(p) && path_extension(p) == Some("json"@),
    decreases v.len(),
{
    if v.len() > 0 {
        let d = v.drop_last();
        lemma_history_paths(d, p);
        lemma_push_contains(d, v.last(), p);
        lemma_push_contains(history_paths(d), v.last(), p);
        assert(d.push(v.last()) =~= v);
    }
}

/// The file of a history entry: when it was made, and its id.
pub open spec fn entry_path(dir: Seq<char>, stamp: Seq<char>, id: Seq<char>) -> Seq<char> {
    pushed(dir, stamp + "-"@ + id + ".json"@)
}

/// The file of a history entry, given the text of the time at which it was made.
pub fn stamped_path(dir: &str, stamp: &str, id: &str) -> (r: String)
    ensures
        r@ == entry_path(dir@, stamp@, id@),
{
    let mut name: String = stamp.to_owned();
    name.append("-");
    name.append(id);
    name.append(".json");
    push_part(dir, name.as_str())
}

/// The file of a history entry; `None` where the time is none that can be written.
pub fn history_path_for(dir: &str, seconds: i64, id: &str) -> (r: Option<String>)
    ensures
        opt_text(r) == match utc_format(seconds, name_format()) {
            Some(stamp) => Some(entry_path(dir@, stamp, id@)),
            None => None,
        },
{
    match name_stamp(seconds) {
        Some(stamp) => Some(stamped_path(dir, stamp.as_str(), id)),
        None => None,
    }
}

/// A history file that was written is found among the files of its directory: its path has their
/// extension, where neither the time nor the id holds a slash.
pub proof fn law_saved_entries_are_found(dir: Seq<char>, stamp: Seq<char>, id: Seq<char>)
    requires
        forall|i: int| 0 <= i < stamp.len() ==> #[trigger] stamp[i] != '/',
        forall|i: int| 0 <= i < id.len() ==> #[trigger] id[i] != '/',
    ensures
        path_extension(entry_path(dir, stamp, id)) == Some("json"@),
        history_paths(seq![entry_path(dir, stamp, id)]) == seq![entry_path(dir, stamp, id)],
{
    reveal_strlit("-");
    reveal_strlit(".json");
    reveal_strlit("json");
    reveal_strlit(".");
    reveal_strlit("..");
    let stem = stamp + "-"@ + id;
    let name = stamp + "-"@ + id + ".json"@;
    assert(name =~= stem + seq!['.'] + "json"@);
    assert forall|j: int| 0 <= j < name.len() implies #[trigger] name[j] != '/' by {
        if j < stamp.len() {
            assert(name[j] == stamp[j]);
        } else if j == stamp.len() {
            assert(name[j] == '-');
        } else if j < stem.len() {
            assert(name[j] == id[j - stamp.len() - 1]);
        } else {
            assert(name[j] == ".json"@[j - stem.len()]);
        }
    }
    lemma_pushed_name(dir, name);
    lemma_extension(stem, "json"@);
    let path = entry_path(dir, stamp, id);
    assert(seq![path].drop_last() =~= Seq::empty());
    assert(history_paths(seq![path].drop_last()) =~= Seq::empty());
    assert(seq![path].last() == path);
    assert(history_paths(seq![path]) =~= seq![path]);
}

/// What is copied of a command.
pub fn clipboard_payload(command: &[String], stdout: &str, stderr: &str) -> (r: String)
    ensures
        r@ == "$ "@ + joined(texts(command@), " "@) + "\n\n[stdout]\n"@ + stdout@
            + "\n\n[stderr]\n"@ + stderr@,
{
    let mut out: String = "$ ".to_owned();
    out.append(join(command, " ").as_str());
    out.append("\n\n[stdout]\n");
    out.append(stdout);
    out.append("\n\n[stderr]\n");
    out.append(stderr);
    out
}

/// The size of a stream in short.
pub open spec fn stats_text(s: TextStats) -> Seq<char> {
    "L:"@ + dec(s.lines as nat) + " W:"@ + dec(s.words as nat) + " C:"@ + dec(s.chars as nat)
        + " B:"@ + dec(s.bytes as nat)
}

/// The size of a stream in short.
pub fn show_stats(s: &TextStats) -> (r: String)
    ensures
        r@ == stats_text(*s),
{
    let mut out: String = "L:".to_owned();
    out.append(decimal(s.lines as u64).as_str());
    out.append(" W:");
    out.append(decimal(s.words as u64).as_str());
    out.append(" C:");
    out.append(decimal(s.chars as u64).as_str());
    out.append(" B:");
    out.append(decimal(s.bytes as u64).as_str());
    out
}

/// The line printed at the end: how long the command took, and how much its streams printed.
pub fn final_stats(
    command: &[String],
    out: &TextStats,
    err: &TextStats,
    elapsed: &str,
) -> (r: String)
    ensures
        r@ == "time="@ + elapsed@ + " stdout "@ + stats_text(*out) + " stderr "@ + stats_text(*err)
            + " cmd="@ + joined(texts(command@), " "@),
{
    let mut line: String = "time=".to_owned();
    line.append(elapsed);
    line.append(" stdout ");
    line.append(show_stats(out).as_str());
    line.append(" stderr ");
    line.append(show_stats(err).as_str());
    line.append(" cmd=");
    line.append(join(command, " ").as_str());
    line
}

/// Whether a command was killed: a signal came, and it left no exit code.
pub fn was_killed(signalled: bool, code: Option<i32>) -> (r: bool)
    ensures
        r == (signalled && code is None),
{
    signalled && code.is_none()
}

/// Whether the size of the streams is shown while the command runs.
pub fn shows_live_stats(tui: bool, interactive: bool) -> (r: bool)
    ensures
        r == (!tui && !interactive),
{
    !tui && !interactive
}

/// A key that means something to the list of the history.
#[derive(Debug, Clone, Copy, PartialEq, Eq, Structural)]
pub enum Key {
    Quit,
    Down,
    Up,
    Delete,
    Copy,
    Other,
}

/// What a key asks for; an entry is named by its place.
#[derive(Debug, Clone, Copy, PartialEq, Eq, Structural)]
pub enum Action {
    Nothing,
    Quit,
    Delete(usize),
    Copy(usize),
}

/// The key that a character is.
pub fn key_of(c: char) -> (r: Key)
    ensures
        r == (if c == 'q' {
            Key::Quit
        } else if c == 'd' {
            Key::Delete
        } else if c == 'c' {
            Key::Copy
        } else {
            Key::Other
        }),
{
    if c == 'q' {
        Key::Quit
    } else if c == 'd' {
        Key::Delete
    } else if c == 'c' {
        Key::Copy
    } else {
        Key::Other
    }
}

/// The place that is selected in a list of `len` after a key, and what the key asks for.
pub open spec fn pressed(selected: usize, len: usize, key: Key) -> (usize, Action) {
    match key {
        Key::Quit => (selected, Action::Quit),
        Key::Down => if selected + 1 < len {
            ((selected + 1) as usize, Action::Nothing)
        } else {
            (selected, Action::Nothing)
        },
        Key::Up => if selected > 0 {
            ((selected - 1) as usize, Action::Nothing)
        } else {
            (selected, Action::Nothing)
        },
        Key::Delete => if selected < len {
            (selected, Action::Delete(selected))
        } else {
            (selected, Action::Nothing)
        },
        Key::Copy => if selected < len {
            (selected, Action::Copy(selected))
        } else {
            (selected, Action::Nothing)
        },
        Key::Other => (selected, Action::Nothing),
    }
}

/// The place that is selected in a list of `len` after a key, and what the key asks for.
pub fn press(selected: usize, len: usize, key: Key) -> (r: (usize, Action))
    ensures
        r == pressed(selected, len, key),
{
    match key {
        Key::Quit => (selected, Action::Quit),
        Key::Down => if len > 0 && selected < len - 1 {
            (selected + 1, Action::Nothing)
        } else {
            (selected, Action::Nothing)
        },
        Key::Up => if selected > 0 {
            (selected - 1, Action::Nothing)
        } else {
            (selected, Action::Nothing)
        },
        Key::Delete => if selected < len {
            (selected, Action::Delete(selected))
        } else {
            (selected, Action::Nothing)
        },
        Key::Copy => if selected < len {
            (selected, Action::Copy(selected))
        } else {
            (selected, Action::Nothing)
        },
        Key::Other => (selected, Action::Nothing),
    }
}

/// The place that is selected once the list was read again and has `len` entries.
pub open spec fn settled(selected: usize, len: usize) -> usize {
    if len == 0 {
        0
    } else if selected < len {
        selected
    } else {
        (len - 1) as usize
    }
}

/// The place that is selected once the list was read again and has `len` entries.
pub fn settle(selected: usize, len: usize) -> (r: usize)
    ensures
        r == settled(selected, len),
{
    if len == 0 {
        0
    } else if selected < len {
        selected
    } else {
        len - 1
    }
}

/// The selected place stays one of the list, or the first where the list is empty: after every key,
/// and after the list was read again.
pub proof fn law_selection_stays_in_list(selected: usize, len: usize, key: Key, new_len: usize)
    requires
        selected < len || (len == 0 && selected == 0),
    ensures
        ({
            let (next, action) = pressed(selected, len, key);
            &&& next < len || (len == 0 && next == 0)
            &&& action matches Action::Delete(i) ==> i < len
            &&& action matches Action::Copy(i) ==> i < len
        }),
        settled(selected, new_len) < new_len || (new_len == 0 && settled(selected, new_len) == 0),
{
}

/// A signed number in decimal.
pub open spec fn signed(n: int) -> Seq<char> {
    if n < 0 {
        "-"@ + dec((-n) as nat)
    } else {
        dec(n as nat)
    }
}

/// An exit code, where there is one.
pub open spec fn code_text(code: Option<i32>) -> Seq<char> {
    match code {
        Some(c) => "Some("@ + signed(c as int) + ")"@,
        None => "None"@,
    }
}

/// An exit code, where there is one.
pub fn show_code(code: Option<i32>) -> (r: String)
    ensures
        r@ == code_text(code),
{
    match code {
        Some(c) => {
            let mut out: String = "Some(".to_owned();
            let n: i64 = c as i64;
            if n < 0 {
                out.append("-");
                out.append(decimal((-n) as u64).as_str());
            } else {
                out.append(decimal(n as u64).as_str());
            }
            out.append(")");
            assert(out@ =~= code_text(code));
            out
        },
        None => "None".to_owned(),
    }
}

/// What is known of a command that ran.
#[derive(Debug, PartialEq, Eq)]
pub struct HistoryEntry {
    pub command: Vec<String>,
    pub exit_code: Option<i32>,
    pub killed: bool,
    pub stdout_stats: TextStats,
    pub stderr_stats: TextStats,
    pub stdout_tail: String,
    pub stderr_tail: String,
}

/// The size of a stream in words.
pub open spec fn size_text(s: TextStats) -> Seq<char> {
    " lines:"@ + dec(s.lines as nat) + " words:"@ + dec(s.words as nat) + " chars:"@ + dec(
        s.chars as nat,
    ) + " bytes:"@ + dec(s.bytes as nat)
}

fn show_size(s: &TextStats) -> (r: String)
    ensures
        r@ == size_text(*s),
{
    let mut out: String = " lines:".to_owned();
    out.append(decimal(s.lines as u64).as_str());
    out.append(" words:");
    out.append(decimal(s.words as u64).as_str());
    out.append(" chars:");
    out.append(decimal(s.chars as u64).as_str());
    out.append(" bytes:");
    out.append(decimal(s.bytes as u64).as_str());
    out
}

/// The details of an entry.
pub open spec fn details_text(h: HistoryEntry) -> Seq<char> {
    "command: "@ + joined(texts(h.command@), " "@) + "\nexit: "@ + code_text(h.exit_code)
        + " killed: "@ + truth(h.killed) + "\nstdout"@ + size_text(h.stdout_stats) + "\nstderr"@
        + size_text(h.stderr_stats) + "\n\nstdout tail:\n"@ + h.stdout_tail@
        + "\n\nstderr tail:\n"@ + h.stderr_tail@
}

/// The details of the selected entry.
pub fn show_details(history: &[HistoryEntry], selected: usize) -> (r: String)
    ensures
        r@ == (if selected < history@.len() {
            details_text(history@[selected as int])
        } else {
            "no history"@
        }),
{
    if selected >= history.len() {
        return "no history".to_owned();
    }
    let h: &HistoryEntry = &history[selected];
    let mut out: String = "command: ".to_owned();
    out.append(join(&h.command, " ").as_str());
    out.append("\nexit: ");
    out.append(show_code(h.exit_code).as_str());
    out.append(" killed: ");
    out.append(truth_text(h.killed));
    out.append("\nstdout");
    out.append(show_size(&h.stdout_stats).as_str());
    out.append("\nstderr");
    out.append(show_size(&h.stderr_stats).as_str());
    out.append("\n\nstdout tail:\n");
    out.append(h.stdout_tail.as_str());
    out.append("\n\nstderr tail:\n");
    out.append(h.stderr_tail.as_str());
    out
}

/// The command to be run: that of the mode, or else that of the program; `None` where neither
/// names one.
pub fn choose_command(mode: Vec<String>, program: Vec<String>) -> (r: Option<Vec<String>>)
    ensures
        match r {
            Some(v) => v == (if mode@.len() > 0 {
                mode
            } else {
                program
            }) && v@.len() > 0,
            None => mode@.len() == 0 && program@.len() == 0,
        },
{
    if mode.len() > 0 {
        Some(mode)
    } else if program.len() > 0 {
        Some(program)
    } else {
        None
    }
}

} // verus!
