//! What all the tools share: statistics of a text, colours, comment marks.

use vstd::prelude::*;
use vstd::utf8::encode_utf8;
use crate::text::{chars_of, dec, decimal, is_space, is_white, newlines, newlines_before, same};

verus! {

/// The size of a text.
#[derive(Clone, Copy, Debug, PartialEq, Eq, Structural)]
pub struct TextStats {
    pub lines: usize,
    pub words: usize,
    pub chars: usize,
    pub bytes: usize,
}

impl Default for TextStats {
    fn default() -> (r: TextStats)
        ensures
            r == (TextStats { lines: 0, words: 0, chars: 0, bytes: 0 }),
    {
        TextStats { lines: 0, words: 0, chars: 0, bytes: 0 }
    }
}

/// How many words, that is, runs without white space, a text has.
pub open spec fn word_count(s: Seq<char>) -> nat
    decreases s.len(),
{
    if s.len() == 0 {
        0
    } else {
        let begins = !is_space(s.last()) && (s.len() == 1 || is_space(s[s.len() - 2]));
        word_count(s.drop_last()) + if begins {
            1nat
        } else {
            0nat
        }
    }
}

fn count_words(cs: &[char]) -> (n: usize)
    ensures
        n == word_count(cs@),
{
    let mut n: usize = 0;
    let mut i: usize = 0;
    while i < cs.len()
        invariant
            i <= cs@.len(),
            n <= i,
            n == word_count(cs@.take(i as int)),
        decreases cs@.len() - i,
    {
        assert(cs@.take(i + 1).drop_last() =~= cs@.take(i as int));
        if !is_white(cs[i]) && (i == 0 || is_white(cs[i - 1])) {
            n += 1;
        }
        i += 1;
    }
    assert(cs@.take(i as int) =~= cs@);
    n
}

/// The size of a text: line feeds, words, characters and bytes.
pub fn calc_stats(s: &str) -> (r: TextStats)
    ensures
        r.lines == newlines(s@),
        r.words == word_count(s@),
        r.chars == s@.len(),
        r.bytes == encode_utf8(s@).len(),
{
    let cs: Vec<char> = chars_of(s);
    let lines: usize = newlines_before(&cs, cs.len());
    assert(cs@.take(cs@.len() as int) =~= cs@);
    TextStats { lines, words: count_words(&cs), chars: cs.len(), bytes: s.as_bytes().len() }
}

/// Whether files with this extension mark comments with two slashes.
pub open spec fn has_slash_comments(ext: Seq<char>) -> bool {
    ||| ext == "rs"@
    ||| ext == "c"@
    ||| ext == "cc"@
    ||| ext == "cpp"@
    ||| ext == "cxx"@
    ||| ext == "h"@
    ||| ext == "hpp"@
    ||| ext == "js"@
    ||| ext == "jsx"@
    ||| ext == "ts"@
    ||| ext == "tsx"@
    ||| ext == "java"@
    ||| ext == "kt"@
    ||| ext == "kts"@
    ||| ext == "go"@
    ||| ext == "swift"@
    ||| ext == "scala"@
    ||| ext == "cs"@
    ||| ext == "dart"@
}

/// The mark that begins a comment in a file with this path and extension: two slashes in the
/// languages that have them, a hash in every other file.
pub fn comment_prefix(path: &str, ext: &str) -> (r: &'static str)
    ensures
        r@ == if has_slash_comments(ext@) {
            "//"@
        } else {
            "#"@
        },
{
    if same(ext, "rs") || same(ext, "c") || same(ext, "cc") || same(ext, "cpp") || same(ext, "cxx")
        || same(ext, "h") || same(ext, "hpp") || same(ext, "js") || same(ext, "jsx") || same(
        ext,
        "ts",
    ) || same(ext, "tsx") || same(ext, "java") || same(ext, "kt") || same(ext, "kts") || same(
        ext,
        "go",
    ) || same(ext, "swift") || same(ext, "scala") || same(ext, "cs") || same(ext, "dart") {
        "//"
    } else {
        "#"
    }
}

/// Whether `c` has a meaning of its own in a regular expression.
pub open spec fn is_regex_mark(c: char) -> bool {
    ||| c == '.'
    ||| c == '*'
    ||| c == '+'
    ||| c == '?'
    ||| c == '^'
    ||| c == '$'
    ||| c == '{'
    ||| c == '}'
    ||| c == '('
    ||| c == ')'
    ||| c == '|'
    ||| c == '['
    ||| c == ']'
    ||| c == '\\'
}

/// `s` with a backslash before each character that has a meaning in a regular expression.
pub open spec fn escaped(s: Seq<char>) -> Seq<char>
    decreases s.len(),
{
    if s.len() == 0 {
        Seq::empty()
    } else if is_regex_mark(s.last()) {
        escaped(s.drop_last()).push('\\').push(s.last())
    } else {
        escaped(s.drop_last()).push(s.last())
    }
}

/// `s` with a backslash before each character that has a meaning in a regular expression.
pub fn regex_escape(s: &str) -> (r: String)
    ensures
        r@ == escaped(s@),
{
    let cs: Vec<char> = chars_of(s);
    let mut out: String = String::new();
    let mut i: usize = 0;
    while i < cs.len()
        invariant
            i <= cs@.len(),
            out@ == escaped(cs@.take(i as int)),
        decreases cs@.len() - i,
    {
        assert(cs@.take(i + 1).drop_last() =~= cs@.take(i as int));
        let c: char = cs[i];
        if c == '.' || c == '*' || c == '+' || c == '?' || c == '^' || c == '$' || c == '{' || c
            == '}' || c == '(' || c == ')' || c == '|' || c == '[' || c == ']' || c == '\\' {
            out.push('\\');
        }
        out.push(c);
        i += 1;
    }
    assert(cs@.take(i as int) =~= cs@);
    out
}

/// An escaped text read back: a backslash stands for the character behind it.
pub open spec fn unescaped(s: Seq<char>) -> Seq<char>
    decreases s.len(),
{
    if s.len() == 0 {
        Seq::empty()
    } else if s.len() >= 2 && s[s.len() - 2] == '\\' && is_regex_mark(s.last()) {
        unescaped(s.take(s.len() - 2)).push(s.last())
    } else {
        unescaped(s.drop_last()).push(s.last())
    }
}

/// Escaping loses nothing: the text can be read back from its escaped form.
pub proof fn law_escape_reads_back(s: Seq<char>)
    ensures
        unescaped(escaped(s)) == s,
    decreases s.len(),
{
    if s.len() > 0 {
        law_escape_reads_back(s.drop_last());
        let e = escaped(s.drop_last());
        if is_regex_mark(s.last()) {
            assert(escaped(s).take(escaped(s).len() - 2) =~= e);
        } else {
            assert(escaped(s).drop_last() =~= e);
        }
    }
}

/// A text in a colour, for a terminal.
pub open spec fn colored(rgb: (int, int, int), text: Seq<char>) -> Seq<char> {
    "\x1b[38;2;"@ + dec(rgb.0 as nat) + ";"@ + dec(rgb.1 as nat) + ";"@ + dec(rgb.2 as nat) + "m"@
        + text + "\x1b[0m"@
}

fn color_text(r: u8, g: u8, b: u8, text: &str) -> (s: String)
    ensures
        s@ == colored((r as int, g as int, b as int), text@),
{
    let mut out: String = "\x1b[38;2;".to_owned();
    out.append(decimal(r as u64).as_str());
    out.append(";");
    out.append(decimal(g as u64).as_str());
    out.append(";");
    out.append(decimal(b as u64).as_str());
    out.append("m");
    out.append(text);
    out.append("\x1b[0m");
    out
}

/// Whether the share `k / steps` of fifth `fifth` of the scale counts as the step below. A share
/// is a quotient of binary fractions; one that is a whole number of steps can fall short of it.
pub open spec fn falls_short(fifth: int, steps: int, k: int) -> bool {
    if fifth == 1 {
        2 <= k <= 14 || 18 <= k <= 29 || 41 <= k <= 58 || 72 <= k <= 91
    } else if fifth == 2 && steps == 100 {
        4 <= k <= 29 || 35 <= k <= 58 || 82 <= k <= 99
    } else if fifth == 2 {
        k == 31 || k == 62
    } else if fifth == 3 {
        44 <= k <= 58
    } else if fifth == 4 {
        k == 31 || k == 62 || k == 124 || k == 155
    } else {
        false
    }
}

/// How many of `steps` equal steps the value has gone through in fifth `fifth` of the scale up to
/// `max`.
pub open spec fn steps_in(value: int, max: int, fifth: int, steps: int) -> int {
    let n = steps * (5 * value - fifth * max);
    if n % max == 0 && falls_short(fifth, steps, n / max) {
        n / max - 1
    } else {
        n / max
    }
}

/// The colour of a value on a scale up to `max`: from cyan over green and yellow to red, in five
/// equal parts.
pub open spec fn bright_color(value: int, max: int) -> (int, int, int) {
    let v = if value < max {
        value
    } else {
        max
    };
    if value == 0 {
        (0, 200, 200)
    } else if 5 * v < max {
        (0, 150 + steps_in(v, max, 0, 105), 200)
    } else if 5 * v < 2 * max {
        (steps_in(v, max, 1, 100), 255, 200 - steps_in(v, max, 1, 100))
    } else if 5 * v < 3 * max {
        (100 + steps_in(v, max, 2, 155), 255, 100 - steps_in(v, max, 2, 100))
    } else if 5 * v < 4 * max {
        (255, 255 - steps_in(v, max, 3, 100), 0)
    } else {
        (255, 155 - steps_in(v, max, 4, 155), 0)
    }
}

fn count_steps(value: u64, max: u64, fifth: u64, steps: u64) -> (r: u8)
    requires
        1 <= max <= 1_000_000,
        fifth <= 4,
        1 <= steps <= 155,
        fifth * max <= 5 * value <= (fifth + 1) * max,
    ensures
        r == steps_in(value as int, max as int, fifth as int, steps as int),
        r <= steps,
{
    assert(fifth * max <= 4_000_000 && (fifth + 1) * max <= 5_000_000) by (nonlinear_arith)
        requires
            max <= 1_000_000,
            fifth <= 4,
    ;
    assert((fifth + 1) * max == fifth * max + max) by (nonlinear_arith);
    let d: u64 = 5 * value - fifth * max;
    assert(d <= max);
    assert(0 <= steps * d <= steps * max && steps * d <= 155_000_000) by (nonlinear_arith)
        requires
            d <= max <= 1_000_000,
            steps <= 155,
    ;
    let n: u64 = steps * d;
    let k: u64 = n / max;
    assert(k <= steps) by (nonlinear_arith)
        requires
            n <= steps * max,
            k == n / max,
            max >= 1,
    ;
    let short: bool = if fifth == 1 {
        (2 <= k && k <= 14) || (18 <= k && k <= 29) || (41 <= k && k <= 58) || (72 <= k && k <= 91)
    } else if fifth == 2 && steps == 100 {
        (4 <= k && k <= 29) || (35 <= k && k <= 58) || (82 <= k && k <= 99)
    } else if fifth == 2 {
        k == 31 || k == 62
    } else if fifth == 3 {
        44 <= k && k <= 58
    } else if fifth == 4 {
        k == 31 || k == 62 || k == 124 || k == 155
    } else {
        false
    };
    if n % max == 0 && short {
        (k - 1) as u8
    } else {
        k as u8
    }
}

/// The colour of a value on a scale up to `max`.
pub fn get_bright_color(value: usize, max: usize) -> (r: (u8, u8, u8))
    requires
        max == 2_000 || max == 50_000 || max == 200_000,
    ensures
        (r.0 as int, r.1 as int, r.2 as int) == bright_color(value as int, max as int),
{
    if value == 0 {
        return (0, 200, 200);
    }
    let m: u64 = max as u64;
    let v: u64 = if value < max {
        value as u64
    } else {
        m
    };
    if 5 * v < m {
        (0, 150 + count_steps(v, m, 0, 105), 200)
    } else if 5 * v < 2 * m {
        (count_steps(v, m, 1, 100), 255, 200 - count_steps(v, m, 1, 100))
    } else if 5 * v < 3 * m {
        (100 + count_steps(v, m, 2, 155), 255, 100 - count_steps(v, m, 2, 100))
    } else if 5 * v < 4 * m {
        (255, 255 - count_steps(v, m, 3, 100), 0)
    } else {
        (255, 155 - count_steps(v, m, 4, 155), 0)
    }
}

proof fn lemma_steps_grow(a: int, b: int, max: int, fifth: int, steps: int)
    requires
        max >= 1,
        0 <= fifth <= 4,
        1 <= steps <= 155,
        fifth * max <= 5 * a,
        a <= b,
        5 * b <= (fifth + 1) * max,
    ensures
        0 <= steps_in(a, max, fifth, steps) <= steps_in(b, max, fifth, steps) <= steps,
{
    let m = steps * (5 * a - fifth * max);
    let n = steps * (5 * b - fifth * max);
    assert(0 <= m <= n <= steps * max) by (nonlinear_arith)
        requires
            m == steps * (5 * a - fifth * max),
            n == steps * (5 * b - fifth * max),
            fifth * max <= 5 * a,
            a <= b,
            5 * b <= (fifth + 1) * max,
            1 <= steps,
    ;
    assert(m < n || a == b) by (nonlinear_arith)
        requires
            m == steps * (5 * a - fifth * max),
            n == steps * (5 * b - fifth * max),
            a <= b,
            1 <= steps,
    ;
    assert(0 <= m / max <= n / max <= steps && (m < n && n % max == 0 ==> m / max < n / max)) by (nonlinear_arith)
        requires
            0 <= m <= n <= steps * max,
            max >= 1,
    ;
}

/// The larger a value, the more red there is in its colour, or as much.
pub proof fn law_heat_reddens(a: int, b: int, max: int)
    requires
        0 <= a <= b,
        max >= 1,
    ensures
        bright_color(a, max).0 <= bright_color(b, max).0,
{
    let v = if a < max {
        a
    } else {
        max
    };
    let w = if b < max {
        b
    } else {
        max
    };
    if max <= 5 * w < 2 * max {
        lemma_steps_grow(w, w, max, 1, 100);
        if max <= 5 * v {
            lemma_steps_grow(v, w, max, 1, 100);
        }
    }
    if max <= 5 * v < 2 * max {
        lemma_steps_grow(v, v, max, 1, 100);
    }
    if 2 * max <= 5 * w < 3 * max {
        lemma_steps_grow(w, w, max, 2, 155);
        if 2 * max <= 5 * v {
            lemma_steps_grow(v, w, max, 2, 155);
        }
    }
    if 2 * max <= 5 * v < 3 * max {
        lemma_steps_grow(v, v, max, 2, 155);
    }
}

/// The larger a value, the less blue there is in its colour, or as much.
pub proof fn law_heat_loses_blue(a: int, b: int, max: int)
    requires
        0 <= a <= b,
        max >= 1,
    ensures
        bright_color(a, max).2 >= bright_color(b, max).2,
{
    let v = if a < max {
        a
    } else {
        max
    };
    let w = if b < max {
        b
    } else {
        max
    };
    if max <= 5 * w < 2 * max {
        lemma_steps_grow(w, w, max, 1, 100);
        if max <= 5 * v {
            lemma_steps_grow(v, w, max, 1, 100);
        }
    }
    if max <= 5 * v < 2 * max {
        lemma_steps_grow(v, v, max, 1, 100);
    }
    if 2 * max <= 5 * w < 3 * max {
        lemma_steps_grow(w, w, max, 2, 100);
        if 2 * max <= 5 * v {
            lemma_steps_grow(v, w, max, 2, 100);
        }
    }
    if 2 * max <= 5 * v < 3 * max {
        lemma_steps_grow(v, v, max, 2, 100);
    }
}

/// From the end of the scale on, all values have the same colour.
pub proof fn law_heat_ends_at_max(a: int, b: int, max: int)
    requires
        max >= 1,
        a >= max,
        b >= max,
    ensures
        bright_color(a, max) == bright_color(b, max),
{
}

/// A number in its colour on a scale up to `max`.
pub open spec fn heat(value: nat, max: int) -> Seq<char> {
    colored(bright_color(value as int, max), dec(value))
}

fn heatmap_color(value: usize, max: usize) -> (r: String)
    requires
        max == 2_000 || max == 50_000 || max == 200_000,
    ensures
        r@ == heat(value as nat, max as int),
{
    let c: (u8, u8, u8) = get_bright_color(value, max);
    color_text(c.0, c.1, c.2, decimal(value as u64).as_str())
}

/// A number of lines in its colour.
pub fn heatmap_color_lines(value: usize) -> (r: String)
    ensures
        r@ == heat(value as nat, 2_000),
{
    heatmap_color(value, 2_000)
}

/// A number of words in its colour.
pub fn heatmap_color_words(value: usize) -> (r: String)
    ensures
        r@ == heat(value as nat, 200_000),
{
    heatmap_color(value, 200_000)
}

/// A number of characters in its colour.
pub fn heatmap_color_chars(value: usize) -> (r: String)
    ensures
        r@ == heat(value as nat, 50_000),
{
    heatmap_color(value, 50_000)
}

/// A number of bytes in its colour.
pub fn heatmap_color_bytes(value: usize) -> (r: String)
    ensures
        r@ == heat(value as nat, 50_000),
{
    heatmap_color(value, 50_000)
}

/// A number that a name is spread over the colours by.
pub open spec fn name_hash(s: Seq<char>, factor: int) -> int
    decreases s.len(),
{
    if s.len() == 0 {
        0
    } else {
        ((name_hash(s.drop_last(), factor) + s.last() as u32) * factor)
            % 0x1_0000_0000_0000_0000
    }
}

pub(crate) fn hash_name(s: &str, factor: u64) -> (r: u64)
    requires
        1 <= factor <= 31,
    ensures
        r == name_hash(s@, factor as int),
{
    let cs: Vec<char> = chars_of(s);
    let mut h: u64 = 0;
    let mut i: usize = 0;
    while i < cs.len()
        invariant
            i <= cs@.len(),
            h == name_hash(cs@.take(i as int), factor as int),
        decreases cs@.len() - i,
    {
        assert(cs@.take(i + 1).drop_last() =~= cs@.take(i as int));
        let sum: u128 = h as u128 + cs[i] as u32 as u128;
        assert(0 <= sum * factor <= 0x2_0000_0000_0000_0000 * 31) by (nonlinear_arith)
            requires
                sum <= 0x2_0000_0000_0000_0000,
                1 <= factor <= 31,
        ;
        h = (sum * factor as u128 % 0x1_0000_0000_0000_0000) as u64;
        i += 1;
    }
    assert(cs@.take(i as int) =~= cs@);
    h
}

/// The sets of colours, by their saturation and lightness.
#[derive(Clone, Copy, Debug, PartialEq, Eq, Structural)]
pub enum Palette {
    /// Saturation 80%, lightness 70%.
    File,
    /// Saturation 60%, lightness 75%.
    Function,
    /// Saturation 70%, lightness 60%.
    Report,
}

/// The strongest, the weakest and the varying component of the colour with hue `hue`, which
/// rises and falls once in 120 degrees.
pub open spec fn shades(palette: Palette, hue: int) -> (int, int, int) {
    let p = hue % 120;
    let w = if p <= 60 {
        p
    } else {
        120 - p
    };
    match palette {
        Palette::File => (239, 117, (204 * w + 11_730) / 100),
        Palette::Function => (
            229,
            153,
            if hue == 40 || hue == 160 || hue == 200 {
                203
            } else {
                (153 * w + 18_360) / 120
            },
        ),
        Palette::Report => (224, 81, (119 * w + 4_080) / 50),
    }
}

/// The colour with hue `hue`, in degrees.
pub open spec fn hue_color(palette: Palette, hue: int) -> (int, int, int) {
    let (hi, lo, mid) = shades(palette, hue);
    if hue < 60 {
        (hi, mid, lo)
    } else if hue < 120 {
        (mid, hi, lo)
    } else if hue < 180 {
        (lo, hi, mid)
    } else if hue < 240 {
        (lo, mid, hi)
    } else if hue < 300 {
        (mid, lo, hi)
    } else {
        (hi, lo, mid)
    }
}

/// The colour with hue `hue`, in degrees.
pub fn hsl_to_rgb(palette: Palette, hue: u64) -> (r: (u8, u8, u8))
    requires
        hue < 360,
    ensures
        (r.0 as int, r.1 as int, r.2 as int) == hue_color(palette, hue as int),
{
    let p: u64 = hue % 120;
    let w: u64 = if p <= 60 {
        p
    } else {
        120 - p
    };
    let (hi, lo, mid): (u8, u8, u8) = match palette {
        Palette::File => (239, 117, ((204 * w + 11_730) / 100) as u8),
        Palette::Function => (
            229,
            153,
            if hue == 40 || hue == 160 || hue == 200 {
                203
            } else {
                ((153 * w + 18_360) / 120) as u8
            },
        ),
        Palette::Report => (224, 81, ((119 * w + 4_080) / 50) as u8),
    };
    if hue < 60 {
        (hi, mid, lo)
    } else if hue < 120 {
        (mid, hi, lo)
    } else if hue < 180 {
        (lo, hi, mid)
    } else if hue < 240 {
        (lo, mid, hi)
    } else if hue < 300 {
        (mid, lo, hi)
    } else {
        (hi, lo, mid)
    }
}

/// A file name in the colour that its characters give.
pub open spec fn file_colored(name: Seq<char>) -> Seq<char> {
    colored(hue_color(Palette::File, name_hash(name, 31) % 360), name)
}

/// A file name in its colour, the same every time.
pub fn color_filename(filename: &str) -> (r: String)
    ensures
        r@ == file_colored(filename@),
{
    let c: (u8, u8, u8) = hsl_to_rgb(Palette::File, hash_name(filename, 31) % 360);
    color_text(c.0, c.1, c.2, filename)
}

/// A function name in its colour, the same every time.
pub fn color_function_name(name: &str) -> (r: String)
    ensures
        r@ == colored(hue_color(Palette::Function, name_hash(name@, 17) % 360), name@),
{
    let c: (u8, u8, u8) = hsl_to_rgb(Palette::Function, hash_name(name, 17) % 360);
    color_text(c.0, c.1, c.2, name)
}

/// The line that shows the size of a text.
pub open spec fn stats_line(stats: TextStats, label: Seq<char>) -> Seq<char> {
    "  \x1b[33m"@ + label + ":\x1b[0m \x1b[36mlines\x1b[0m "@ + heat(stats.lines as nat, 2_000)
        + "  \x1b[36mwords\x1b[0m "@ + heat(stats.words as nat, 200_000)
        + "  \x1b[36mchars\x1b[0m "@ + heat(stats.chars as nat, 50_000)
        + "  \x1b[36mbytes\x1b[0m "@ + heat(stats.bytes as nat, 50_000) + "\n"@
}

/// The line that shows the size of a text.
pub fn print_colored_stats(stats: &TextStats, label: &str) -> (r: String)
    ensures
        r@ == stats_line(*stats, label@),
{
    let mut out: String = "  \x1b[33m".to_owned();
    out.append(label);
    out.append(":\x1b[0m \x1b[36mlines\x1b[0m ");
    out.append(heatmap_color_lines(stats.lines).as_str());
    out.append("  \x1b[36mwords\x1b[0m ");
    out.append(heatmap_color_words(stats.words).as_str());
    out.append("  \x1b[36mchars\x1b[0m ");
    out.append(heatmap_color_chars(stats.chars).as_str());
    out.append("  \x1b[36mbytes\x1b[0m ");
    out.append(heatmap_color_bytes(stats.bytes).as_str());
    out.append("\n");
    out
}

/// What is shown after a file was worked on.
pub fn print_summary(stats: &TextStats, filename: &str, operation: &str) -> (r: String)
    ensures
        r@ == "\n\x1b[1;32m✓ "@ + operation@ + "\x1b[0m\n"@ + "  \x1b[36mfile:\x1b[0m "@
            + file_colored(filename@) + "\n"@ + stats_line(*stats, "stats"@),
{
    let mut out: String = "\n\x1b[1;32m✓ ".to_owned();
    out.append(operation);
    out.append("\x1b[0m\n");
    out.append("  \x1b[36mfile:\x1b[0m ");
    out.append(color_filename(filename).as_str());
    out.append("\n");
    out.append(print_colored_stats(stats, "stats").as_str());
    out
}

} // verus!
