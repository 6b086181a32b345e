//! What the arguments of a program ask for: each by itself, whatever stands before it.

use vstd::prelude::*;
use crate::text::number;
use crate::wcgv_lsp::{options_from, switched, OptionErrorText, OptionsText};
use crate::wcn::{args_from, count_in, ArgErrorText, ArgsText};

verus! {

/// Arguments are read one after the other: those in front make the same of what was there, whatever
/// stands behind them.
pub proof fn law_later_arguments_change_nothing_before(
    a: ArgsText,
    raw: Seq<Seq<char>>,
    more: Seq<Seq<char>>,
    i: int,
)
    requires
        0 <= i <= raw.len(),
        args_from(a, raw, i) is Ok,
    ensures
        args_from(a, raw + more, i) == args_from(args_from(a, raw, i)->Ok_0, raw + more, raw.len() as int),
    decreases raw.len() - i,
{
    if i < raw.len() {
        assert((raw + more)[i] == raw[i]);
        let word = raw[i];
        if word == "-h"@ || word == "--head"@ {
            assert((raw + more)[i + 1] == raw[i + 1]);
            law_later_arguments_change_nothing_before(
                ArgsText { head_lines: count_in(raw[i + 1]), ..a },
                raw,
                more,
                i + 2,
            );
        } else if word == "-t"@ || word == "--tail"@ {
            assert((raw + more)[i + 1] == raw[i + 1]);
            law_later_arguments_change_nothing_before(
                ArgsText { tail_lines: count_in(raw[i + 1]), ..a },
                raw,
                more,
                i + 2,
            );
        } else if word == "-f"@ || word == "--function"@ {
            assert((raw + more)[i + 1] == raw[i + 1]);
            law_later_arguments_change_nothing_before(ArgsText { function: Some(raw[i + 1]), ..a }, raw, more, i + 2);
        } else {
            law_later_arguments_change_nothing_before(ArgsText { file: Some(word), ..a }, raw, more, i + 1);
        }
    }
}

/// How many lines of the head, or of the tail, are asked for, and which function: what stands behind
/// the last argument that says so; the rest of what was asked for stays.
pub proof fn law_asked_for(a: ArgsText, raw: Seq<Seq<char>>, word: Seq<char>, value: Seq<char>)
    requires
        args_from(a, raw, 0) is Ok,
    ensures
        ({
            let b = args_from(a, raw, 0)->Ok_0;
            let all = args_from(a, raw + seq![word, value], 0);
            &&& word == "-h"@ || word == "--head"@ ==> match count_in(value) {
                Some(n) => all == Ok::<ArgsText, ArgErrorText>(ArgsText { head_lines: Some(n), ..b }),
                None => all == Err::<ArgsText, ArgErrorText>(ArgErrorText::BadHead),
            }
            &&& word == "-t"@ || word == "--tail"@ ==> match count_in(value) {
                Some(n) => all == Ok::<ArgsText, ArgErrorText>(ArgsText { tail_lines: Some(n), ..b }),
                None => all == Err::<ArgsText, ArgErrorText>(ArgErrorText::BadTail),
            }
            &&& word == "-f"@ || word == "--function"@ ==> all == Ok::<ArgsText, ArgErrorText>(
                ArgsText { function: Some(value), ..b },
            )
        }),
{
    let more = seq![word, value];
    let b = args_from(a, raw, 0)->Ok_0;
    let n = raw.len() as int;
    let all = raw + more;
    law_later_arguments_change_nothing_before(a, raw, more, 0);
    lemma_flags_differ();
    assert(all[n] == word && all[n + 1] == value);
    assert(all.len() == n + 2);
    reveal_with_fuel(args_from, 2);
}

/// A word that is no flag is the file, where none was named before; a second file is refused, and so
/// is a flag that is not known, and one that lacks its value.
pub proof fn law_file_and_refusals(a: ArgsText, raw: Seq<Seq<char>>, word: Seq<char>)
    requires
        args_from(a, raw, 0) is Ok,
    ensures
        ({
            let b = args_from(a, raw, 0)->Ok_0;
            let all = args_from(a, raw + seq![word], 0);
            &&& !"-"@.is_prefix_of(word) && b.file is None ==> all == Ok::<ArgsText, ArgErrorText>(
                ArgsText { file: Some(word), ..b },
            )
            &&& !"-"@.is_prefix_of(word) && b.file is Some ==> all == Err::<ArgsText, ArgErrorText>(
                ArgErrorText::TwoFiles,
            )
            &&& "-"@.is_prefix_of(word) ==> all is Err
            &&& "-"@.is_prefix_of(word) && word != "-h"@ && word != "--head"@ && word != "-t"@ && word
                != "--tail"@ && word != "-f"@ && word != "--function"@ ==> all == Err::<ArgsText, ArgErrorText>(
                ArgErrorText::UnknownFlag(word),
            )
            &&& word == "-h"@ || word == "--head"@ ==> all == Err::<ArgsText, ArgErrorText>(ArgErrorText::NoHead)
            &&& word == "-t"@ || word == "--tail"@ ==> all == Err::<ArgsText, ArgErrorText>(ArgErrorText::NoTail)
            &&& word == "-f"@ || word == "--function"@ ==> all == Err::<ArgsText, ArgErrorText>(
                ArgErrorText::NoFunction,
            )
        }),
{
    let more = seq![word];
    let n = raw.len() as int;
    let all = raw + more;
    law_later_arguments_change_nothing_before(a, raw, more, 0);
    lemma_flags_differ();
    assert(all[n] == word);
    assert(all.len() == n + 1);
    reveal_with_fuel(args_from, 2);
}

proof fn lemma_flags_differ()
    ensures
        "-h"@ != "-t"@,
        "-h"@ != "-f"@,
        "-t"@ != "-f"@,
        "--head"@ != "--tail"@,
        "--head"@ != "--function"@,
        "--tail"@ != "--function"@,
        "-h"@ != "--tail"@,
        "-h"@ != "--function"@,
        "-t"@ != "--head"@,
        "-t"@ != "--function"@,
        "-f"@ != "--head"@,
        "-f"@ != "--tail"@,
        "-"@.is_prefix_of("-h"@),
        "-"@.is_prefix_of("-t"@),
        "-"@.is_prefix_of("-f"@),
        "-"@.is_prefix_of("--head"@),
        "-"@.is_prefix_of("--tail"@),
        "-"@.is_prefix_of("--function"@),
{
    reveal_strlit("-");
    reveal_strlit("-h");
    reveal_strlit("-t");
    reveal_strlit("-f");
    reveal_strlit("--head");
    reveal_strlit("--tail");
    reveal_strlit("--function");
    assert("-h"@[1] == 'h' && "-t"@[1] == 't' && "-f"@[1] == 'f');
    assert("--head"@[2] == 'h' && "--tail"@[2] == 't' && "--function"@[2] == 'f');
    assert("--head"@.len() == 6 && "--tail"@.len() == 6 && "--function"@.len() == 10);
}

/// Options are read one after the other: those in front make the same of what was there, whatever
/// stands behind them.
pub proof fn law_later_options_change_nothing_before(
    o: OptionsText,
    args: Seq<Seq<char>>,
    more: Seq<Seq<char>>,
    i: int,
)
    requires
        0 <= i <= args.len(),
        options_from(o, args, i) is Ok,
    ensures
        options_from(o, args + more, i) == options_from(
            options_from(o, args, i)->Ok_0,
            args + more,
            args.len() as int,
        ),
    decreases args.len() - i,
{
    if i < args.len() {
        let all = args + more;
        assert(all[i] == args[i]);
        let word = args[i];
        if word == "-o"@ || word == "--output"@ {
            assert(all[i + 1] == args[i + 1]);
            law_later_options_change_nothing_before(OptionsText { output_path: args[i + 1], ..o }, args, more, i + 2);
        } else if word == "--rust-analyzer"@ {
            assert(all[i + 1] == args[i + 1]);
            law_later_options_change_nothing_before(
                OptionsText { rust_analyzer_bin: args[i + 1], ..o },
                args,
                more,
                i + 2,
            );
        } else if word == "--warmup-ms"@ {
            assert(all[i + 1] == args[i + 1]);
            law_later_options_change_nothing_before(
                OptionsText { warmup_ms: number(args[i + 1])->0 as u64, ..o },
                args,
                more,
                i + 2,
            );
        } else {
            match switched(o, word) {
                Some(p) => {
                    law_later_options_change_nothing_before(p, args, more, i + 1);
                },
                None => {
                    law_later_options_change_nothing_before(
                        OptionsText { target_dir: word, ..o },
                        args,
                        more,
                        i + 1,
                    );
                },
            }
        }
    }
}

/// The output, the analyser and the time that it is waited for are what stands behind the last
/// option that says so; the rest of what was asked for stays.
pub proof fn law_option_with_its_value(o: OptionsText, args: Seq<Seq<char>>, word: Seq<char>, value: Seq<char>)
    requires
        options_from(o, args, 0) is Ok,
    ensures
        ({
            let b = options_from(o, args, 0)->Ok_0;
            let all = options_from(o, args + seq![word, value], 0);
            &&& word == "-o"@ || word == "--output"@ ==> all == Ok::<OptionsText, OptionErrorText>(
                OptionsText { output_path: value, ..b },
            )
            &&& word == "--rust-analyzer"@ ==> all == Ok::<OptionsText, OptionErrorText>(
                OptionsText { rust_analyzer_bin: value, ..b },
            )
            &&& word == "--warmup-ms"@ ==> match number(value) {
                Some(n) => if n <= u64::MAX {
                    all == Ok::<OptionsText, OptionErrorText>(OptionsText { warmup_ms: n as u64, ..b })
                } else {
                    all == Err::<OptionsText, OptionErrorText>(OptionErrorText::BadWarmup)
                },
                None => all == Err::<OptionsText, OptionErrorText>(OptionErrorText::BadWarmup),
            }
        }),
{
    let more = seq![word, value];
    let n = args.len() as int;
    let all = args + more;
    law_later_options_change_nothing_before(o, args, more, 0);
    lemma_options_differ();
    assert(all[n] == word && all[n + 1] == value);
    assert(all.len() == n + 2);
    reveal_with_fuel(options_from, 2);
}

/// An option without a value says one thing and leaves the rest as it was; what is no option is the
/// directory; an option that lacks its value is refused.
pub proof fn law_option_without_a_value(o: OptionsText, args: Seq<Seq<char>>, word: Seq<char>)
    requires
        options_from(o, args, 0) is Ok,
    ensures
        ({
            let b = options_from(o, args, 0)->Ok_0;
            let all = options_from(o, args + seq![word], 0);
            &&& word == "-s"@ || word == "--sources"@ ==> all == Ok::<OptionsText, OptionErrorText>(
                OptionsText { include_sources: !b.include_sources, ..b },
            )
            &&& word == "--no-calls"@ ==> all == Ok::<OptionsText, OptionErrorText>(
                OptionsText { show_calls: false, ..b },
            )
            &&& word == "--no-fields"@ ==> all == Ok::<OptionsText, OptionErrorText>(
                OptionsText { show_fields: false, ..b },
            )
            &&& word == "--no-imports"@ ==> all == Ok::<OptionsText, OptionErrorText>(
                OptionsText { show_imports: false, ..b },
            )
            &&& word == "--fields-as-nodes"@ ==> all == Ok::<OptionsText, OptionErrorText>(
                OptionsText { include_field_nodes: true, ..b },
            )
            &&& word == "--no-fields-as-nodes"@ ==> all == Ok::<OptionsText, OptionErrorText>(
                OptionsText { include_field_nodes: false, ..b },
            )
            &&& word == "--no-impl-edges"@ ==> all == Ok::<OptionsText, OptionErrorText>(
                OptionsText { show_impl_edges: false, ..b },
            )
            &&& !"-"@.is_prefix_of(word) ==> all == Ok::<OptionsText, OptionErrorText>(
                OptionsText { target_dir: word, ..b },
            )
            &&& word == "-o"@ || word == "--output"@ ==> all == Err::<OptionsText, OptionErrorText>(
                OptionErrorText::MissingOutput,
            )
            &&& word == "--rust-analyzer"@ ==> all == Err::<OptionsText, OptionErrorText>(
                OptionErrorText::MissingAnalyzer,
            )
            &&& word == "--warmup-ms"@ ==> all == Err::<OptionsText, OptionErrorText>(
                OptionErrorText::MissingWarmup,
            )
        }),
{
    let more = seq![word];
    let n = args.len() as int;
    let all = args + more;
    law_later_options_change_nothing_before(o, args, more, 0);
    lemma_options_differ();
    assert(all[n] == word);
    assert(all.len() == n + 1);
    reveal_with_fuel(options_from, 2);
}

proof fn lemma_options_differ()
    ensures
        "-o"@.len() == 2 && "-s"@.len() == 2 && "-o"@ != "-s"@,
        "--output"@.len() == 8,
        "--sources"@.len() == 9,
        "--no-calls"@.len() == 10,
        "--no-fields"@.len() == 11 && "--warmup-ms"@.len() == 11 && "--no-fields"@ != "--warmup-ms"@,
        "--no-imports"@.len() == 12,
        "--fields-as-nodes"@.len() == 17,
        "--no-fields-as-nodes"@.len() == 20,
        "--no-impl-edges"@.len() == 15 && "--rust-analyzer"@.len() == 15 && "--no-impl-edges"@
            != "--rust-analyzer"@,
        "-"@.is_prefix_of("-o"@) && "-"@.is_prefix_of("-s"@) && "-"@.is_prefix_of("--output"@),
        "-"@.is_prefix_of("--sources"@) && "-"@.is_prefix_of("--no-calls"@) && "-"@.is_prefix_of(
            "--no-fields"@,
        ),
        "-"@.is_prefix_of("--warmup-ms"@) && "-"@.is_prefix_of("--no-imports"@) && "-"@.is_prefix_of(
            "--fields-as-nodes"@,
        ),
        "-"@.is_prefix_of("--no-fields-as-nodes"@) && "-"@.is_prefix_of("--no-impl-edges"@) && "-"@.is_prefix_of(
            "--rust-analyzer"@,
        ),
{
    reveal_strlit("-");
    reveal_strlit("-o");
    reveal_strlit("-s");
    reveal_strlit("--output");
    reveal_strlit("--sources");
    reveal_strlit("--no-calls");
    reveal_strlit("--no-fields");
    reveal_strlit("--warmup-ms");
    reveal_strlit("--no-imports");
    reveal_strlit("--fields-as-nodes");
    reveal_strlit("--no-fields-as-nodes");
    reveal_strlit("--no-impl-edges");
    reveal_strlit("--rust-analyzer");
    assert("-o"@[1] == 'o' && "-s"@[1] == 's');
    assert("--no-fields"@[2] == 'n' && "--warmup-ms"@[2] == 'w');
    assert("--no-impl-edges"@[2] == 'n' && "--rust-analyzer"@[2] == 'r');
}

} // verus!
