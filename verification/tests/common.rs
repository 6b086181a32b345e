use wcc::common::{
    calc_stats, color_filename, color_function_name, print_colored_stats, comment_prefix, get_bright_color,
    heatmap_color_bytes, heatmap_color_chars, heatmap_color_lines, heatmap_color_words, hsl_to_rgb, print_summary,
    regex_escape, Palette, TextStats,
};

fn float_color(value: usize, max: usize) -> (u8, u8, u8) {
    if value == 0 {
        return (0, 200, 200);
    }
    let ratio = (value as f64 / max as f64).min(1.0);
    if ratio < 0.2 {
        let t = ratio / 0.2;
        (0, 150 + (t * 105.0) as u8, 200)
    } else if ratio < 0.4 {
        let t = (ratio - 0.2) / 0.2;
        ((t * 100.0) as u8, 255, 200 - (t * 100.0) as u8)
    } else if ratio < 0.6 {
        let t = (ratio - 0.4) / 0.2;
        (100 + (t * 155.0) as u8, 255, 100 - (t * 100.0) as u8)
    } else if ratio < 0.8 {
        let t = (ratio - 0.6) / 0.2;
        (255, 255 - (t * 100.0) as u8, 0)
    } else {
        let t = (ratio - 0.8) / 0.2;
        (255, 155 - (t * 155.0) as u8, 0)
    }
}

fn float_rgb(h: f64, s: f64, l: f64) -> (u8, u8, u8) {
    let c = (1.0 - (2.0 * l - 1.0).abs()) * s;
    let h_prime = h / 60.0;
    let x = c * (1.0 - (h_prime % 2.0 - 1.0).abs());
    let (r1, g1, b1) = match h_prime as u32 {
        0 => (c, x, 0.0),
        1 => (x, c, 0.0),
        2 => (0.0, c, x),
        3 => (0.0, x, c),
        4 => (x, 0.0, c),
        _ => (c, 0.0, x),
    };
    let m = l - c / 2.0;
    (((r1 + m) * 255.0) as u8, ((g1 + m) * 255.0) as u8, ((b1 + m) * 255.0) as u8)
}

#[test]
fn bright_colors_are_those_of_the_float_formula() {
    for max in [2_000usize, 50_000, 200_000] {
        for value in 0..=max + 10 {
            assert_eq!(get_bright_color(value, max), float_color(value, max), "{value} of {max}");
        }
        assert_eq!(get_bright_color(usize::MAX, max), float_color(usize::MAX, max));
    }
}

#[test]
fn hue_colors_are_those_of_the_float_formula() {
    for hue in 0..360u64 {
        assert_eq!(hsl_to_rgb(Palette::File, hue), float_rgb(hue as f64, 0.8, 0.7), "{hue}");
        assert_eq!(hsl_to_rgb(Palette::Function, hue), float_rgb(hue as f64, 0.6, 0.75), "{hue}");
        assert_eq!(hsl_to_rgb(Palette::Report, hue), float_rgb(hue as f64, 0.7, 0.6), "{hue}");
    }
}

#[test]
fn red_grows_with_the_value() {
    let mut before = 0;
    for value in 1..2_100 {
        let now = get_bright_color(value, 2_000).0;
        assert!(before <= now);
        before = now;
    }
    assert_eq!(before, 255);
}

#[test]
fn blue_fades_with_the_value_and_the_scale_ends() {
    let mut before = 255;
    for value in 0..2_100 {
        let now = get_bright_color(value, 2_000).2;
        assert!(before >= now);
        before = now;
    }
    assert_eq!(before, 0);
    assert_eq!(get_bright_color(50_000, 50_000), get_bright_color(usize::MAX, 50_000));
}

#[test]
fn stats_count_feeds_words_chars_and_bytes() {
    let s = calc_stats("one two\nthrée \u{2003}four\n");
    assert_eq!((s.lines, s.words, s.chars, s.bytes), (2, 4, 20, 23));
    let none = calc_stats("");
    assert_eq!((none.lines, none.words, none.chars, none.bytes), (0, 0, 0, 0));
}

#[test]
fn comment_prefixes() {
    assert_eq!(comment_prefix("a.rs", "rs"), "//");
    assert_eq!(comment_prefix("a.dart", "dart"), "//");
    assert_eq!(comment_prefix("a.py", "py"), "#");
    assert_eq!(comment_prefix("Makefile", ""), "#");
}

#[test]
fn escapes_what_means_something_in_patterns() {
    assert_eq!(regex_escape("a.b*c+d?e"), "a\\.b\\*c\\+d\\?e");
    assert_eq!(regex_escape("^${}()|[]\\"), "\\^\\$\\{\\}\\(\\)\\|\\[\\]\\\\");
    assert_eq!(regex_escape("plain_name"), "plain_name");
}

#[test]
fn heat_of_numbers() {
    assert_eq!(heatmap_color_lines(0), "\x1b[38;2;0;200;200m0\x1b[0m");
    assert_eq!(heatmap_color_lines(2_000), "\x1b[38;2;255;0;0m2000\x1b[0m".replace("255;0;0", &{
        let (r, g, b) = float_color(2_000, 2_000);
        format!("{r};{g};{b}")
    }));
    assert_eq!(heatmap_color_words(1), "\x1b[38;2;0;150;200m1\x1b[0m");
    assert_eq!(heatmap_color_chars(10_000), {
        let (r, g, b) = float_color(10_000, 50_000);
        format!("\x1b[38;2;{r};{g};{b}m10000\x1b[0m")
    });
    assert_eq!(heatmap_color_bytes(25_000), heatmap_color_chars(25_000));
}

#[test]
fn colors_of_names() {
    let hash = |s: &str, by: u64| {
        s.chars().fold(0u64, |acc, c| acc.wrapping_add(c as u64).wrapping_mul(by)) % 360
    };
    for name in ["main.rs", "src/lib.rs", "größe", ""] {
        let (r, g, b) = float_rgb(hash(name, 31) as f64, 0.8, 0.7);
        assert_eq!(color_filename(name), format!("\x1b[38;2;{r};{g};{b}m{name}\x1b[0m"));
        let (r, g, b) = float_rgb(hash(name, 17) as f64, 0.6, 0.75);
        assert_eq!(color_function_name(name), format!("\x1b[38;2;{r};{g};{b}m{name}\x1b[0m"));
    }
}

#[test]
fn stats_in_colour_and_summary() {
    let stats = TextStats { lines: 1, words: 2, chars: 3, bytes: 4 };
    let line = format!(
        "  \x1b[33mstats:\x1b[0m \x1b[36mlines\x1b[0m {}  \x1b[36mwords\x1b[0m {}  \x1b[36mchars\x1b[0m {}  \x1b[36mbytes\x1b[0m {}\n",
        heatmap_color_lines(1),
        heatmap_color_words(2),
        heatmap_color_chars(3),
        heatmap_color_bytes(4)
    );
    assert_eq!(print_colored_stats(&stats, "stats"), line);
    assert_eq!(
        print_summary(&stats, "a.rs", "Copied"),
        format!("\n\x1b[1;32m✓ Copied\x1b[0m\n  \x1b[36mfile:\x1b[0m {}\n{}", color_filename("a.rs"), line)
    );
}
