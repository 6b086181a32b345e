//! What reports tell of the lists that they are made from: every entry, in order.

use vstd::prelude::*;
use crate::config::WclConfig;
use crate::diff::ChangeTag;
use crate::text::dec;
use crate::told::{are_told, lemma_told_more, lemma_told_nothing};
use crate::{wcl, wcl_report};
use crate::wcf_session::{change_shown, changes_shown, marked_lines};
use crate::wcg::{comment_lines, FieldInfo, FunctionInfo};
use crate::wcg_report::{
    field_code, field_codes, field_line, field_lines, lost_comment, lost_report, member_code, member_codes, member_line,
    member_lines, method_code, method_codes, method_line, method_lines,
};
use crate::wcl_report::{
    class_row, class_rows, file_report, file_reports, function_row, function_rows, method_row, method_rows,
};
use crate::wcs::{detail_shown, details_shown, file_rows, DetailText, FileCount};

verus! {

/// The fields of a struct in the report are told one after the other, each by its line.
pub proof fn law_fields_are_told(v: Seq<FieldInfo>)
    ensures
        are_told(v, field_lines(v), |x: FieldInfo| field_line(x)),
    decreases v.len(),
{
    let row = |x: FieldInfo| field_line(x);
    if v.len() == 0 {
        lemma_told_nothing(v, field_lines(v), row);
    } else {
        let d = v.drop_last();
        law_fields_are_told(d);
        assert(field_lines(v) =~= field_lines(d) + row(v.last()));
        lemma_told_more(v, field_lines(d), field_lines(v), row);
    }
}

/// The methods of a trait in the report are told one after the other, each by its line.
pub proof fn law_trait_methods_are_told(v: Seq<FunctionInfo>)
    ensures
        are_told(v, method_lines(v), |x: FunctionInfo| method_line(x)),
    decreases v.len(),
{
    let row = |x: FunctionInfo| method_line(x);
    if v.len() == 0 {
        lemma_told_nothing(v, method_lines(v), row);
    } else {
        let d = v.drop_last();
        law_trait_methods_are_told(d);
        assert(method_lines(v) =~= method_lines(d) + row(v.last()));
        lemma_told_more(v, method_lines(d), method_lines(v), row);
    }
}

/// The methods of an implementation in the report are told one after the other.
pub proof fn law_impl_methods_are_told(v: Seq<FunctionInfo>, calls: bool)
    ensures
        are_told(v, member_lines(v, calls), |x: FunctionInfo| member_line(x, calls)),
    decreases v.len(),
{
    let row = |x: FunctionInfo| member_line(x, calls);
    if v.len() == 0 {
        lemma_told_nothing(v, member_lines(v, calls), row);
    } else {
        let d = v.drop_last();
        law_impl_methods_are_told(d, calls);
        assert(member_lines(v, calls) =~= member_lines(d, calls) + row(v.last()));
        lemma_told_more(v, member_lines(d, calls), member_lines(v, calls), row);
    }
}

/// The fields of a struct as code stand one after the other.
pub proof fn law_fields_are_coded(v: Seq<FieldInfo>)
    ensures
        are_told(v, field_codes(v), |x: FieldInfo| field_code(x)),
    decreases v.len(),
{
    let row = |x: FieldInfo| field_code(x);
    if v.len() == 0 {
        lemma_told_nothing(v, field_codes(v), row);
    } else {
        let d = v.drop_last();
        law_fields_are_coded(d);
        assert(field_codes(v) =~= field_codes(d) + row(v.last()));
        lemma_told_more(v, field_codes(d), field_codes(v), row);
    }
}

/// The methods of a trait as code stand one after the other.
pub proof fn law_trait_methods_are_coded(v: Seq<FunctionInfo>)
    ensures
        are_told(v, method_codes(v), |x: FunctionInfo| method_code(x)),
    decreases v.len(),
{
    let row = |x: FunctionInfo| method_code(x);
    if v.len() == 0 {
        lemma_told_nothing(v, method_codes(v), row);
    } else {
        let d = v.drop_last();
        law_trait_methods_are_coded(d);
        assert(method_codes(v) =~= method_codes(d) + row(v.last()));
        lemma_told_more(v, method_codes(d), method_codes(v), row);
    }
}

/// The methods of an implementation as code stand one after the other.
pub proof fn law_impl_methods_are_coded(v: Seq<FunctionInfo>, calls: bool)
    ensures
        are_told(v, member_codes(v, calls), |x: FunctionInfo| member_code(x, calls)),
    decreases v.len(),
{
    let row = |x: FunctionInfo| member_code(x, calls);
    if v.len() == 0 {
        lemma_told_nothing(v, member_codes(v, calls), row);
    } else {
        let d = v.drop_last();
        law_impl_methods_are_coded(d, calls);
        assert(member_codes(v, calls) =~= member_codes(d, calls) + row(v.last()));
        lemma_told_more(v, member_codes(d, calls), member_codes(v, calls), row);
    }
}

/// Every call of a function that cannot be resolved has a comment line of its own.
pub proof fn law_lost_calls_are_commented(v: Seq<Seq<char>>)
    ensures
        are_told(v, lost_comment(v), |x: Seq<char>| "//   - "@ + x + "\n"@),
    decreases v.len(),
{
    let row = |x: Seq<char>| "//   - "@ + x + "\n"@;
    if v.len() == 0 {
        lemma_told_nothing(v, lost_comment(v), row);
    } else {
        let d = v.drop_last();
        law_lost_calls_are_commented(d);
        assert(lost_comment(v) =~= lost_comment(d) + row(v.last()));
        lemma_told_more(v, lost_comment(d), lost_comment(v), row);
    }
}

/// Every text has a comment line of its own.
pub proof fn law_comments_are_told(v: Seq<Seq<char>>)
    ensures
        are_told(v, comment_lines(v), |x: Seq<char>| "//   "@ + x + "\n"@),
    decreases v.len(),
{
    let row = |x: Seq<char>| "//   "@ + x + "\n"@;
    if v.len() == 0 {
        lemma_told_nothing(v, comment_lines(v), row);
    } else {
        let d = v.drop_last();
        law_comments_are_told(d);
        assert(comment_lines(v) =~= comment_lines(d) + row(v.last()));
        lemma_told_more(v, comment_lines(d), comment_lines(v), row);
    }
}

/// The functions of a file are reported one after the other, each by its row.
pub proof fn law_functions_are_reported(v: Seq<wcl::FunctionInfo>)
    ensures
        are_told(v, function_rows(v), |x: wcl::FunctionInfo| function_row(x)),
    decreases v.len(),
{
    let row = |x: wcl::FunctionInfo| function_row(x);
    if v.len() == 0 {
        lemma_told_nothing(v, function_rows(v), row);
    } else {
        let d = v.drop_last();
        law_functions_are_reported(d);
        assert(function_rows(v) =~= function_rows(d) + row(v.last()));
        lemma_told_more(v, function_rows(d), function_rows(v), row);
    }
}

/// The methods of a type are reported one after the other, each by its row.
pub proof fn law_methods_are_reported(v: Seq<wcl::FunctionInfo>)
    ensures
        are_told(v, method_rows(v), |x: wcl::FunctionInfo| method_row(x)),
    decreases v.len(),
{
    let row = |x: wcl::FunctionInfo| method_row(x);
    if v.len() == 0 {
        lemma_told_nothing(v, method_rows(v), row);
    } else {
        let d = v.drop_last();
        law_methods_are_reported(d);
        assert(method_rows(v) =~= method_rows(d) + row(v.last()));
        lemma_told_more(v, method_rows(d), method_rows(v), row);
    }
}

/// The types of a file are reported one after the other, each by its row.
pub proof fn law_classes_are_reported(v: Seq<wcl::ClassInfo>)
    ensures
        are_told(v, class_rows(v), |x: wcl::ClassInfo| class_row(x)),
    decreases v.len(),
{
    let row = |x: wcl::ClassInfo| class_row(x);
    if v.len() == 0 {
        lemma_told_nothing(v, class_rows(v), row);
    } else {
        let d = v.drop_last();
        law_classes_are_reported(d);
        assert(class_rows(v) =~= class_rows(d) + row(v.last()));
        lemma_told_more(v, class_rows(d), class_rows(v), row);
    }
}

/// The files are reported one after the other, none left out.
pub proof fn law_files_are_reported(v: Seq<wcl_report::FileStats>, root: Seq<char>, config: WclConfig)
    ensures
        are_told(v, file_reports(v, root, config), |x: wcl_report::FileStats| file_report(x, root, config)),
    decreases v.len(),
{
    let row = |x: wcl_report::FileStats| file_report(x, root, config);
    if v.len() == 0 {
        lemma_told_nothing(v, file_reports(v, root, config), row);
    } else {
        let d = v.drop_last();
        law_files_are_reported(d, root, config);
        assert(file_reports(v, root, config) =~= file_reports(d, root, config) + row(v.last()));
        lemma_told_more(v, file_reports(d, root, config), file_reports(v, root, config), row);
    }
}

/// The lines that change are shown one after the other.
pub proof fn law_details_are_shown(v: Seq<DetailText>)
    ensures
        are_told(v, details_shown(v), |x: DetailText| detail_shown(x)),
    decreases v.len(),
{
    let row = |x: DetailText| detail_shown(x);
    if v.len() == 0 {
        lemma_told_nothing(v, details_shown(v), row);
    } else {
        let d = v.drop_last();
        law_details_are_shown(d);
        assert(details_shown(v) =~= details_shown(d) + row(v.last()));
        lemma_told_more(v, details_shown(d), details_shown(v), row);
    }
}

/// Every file is listed on a line with its name and the number of replacements in it.
pub proof fn law_changed_files_are_listed(v: Seq<FileCount>, mark: Seq<char>)
    ensures
        are_told(v, file_rows(v, mark), |x: FileCount| "  "@ + mark + " "@ + x.0@ + " ("@ + dec(x.1 as nat) + " replacements)\n"@),
    decreases v.len(),
{
    let row = |x: FileCount| "  "@ + mark + " "@ + x.0@ + " ("@ + dec(x.1 as nat) + " replacements)\n"@;
    if v.len() == 0 {
        lemma_told_nothing(v, file_rows(v, mark), row);
    } else {
        let d = v.drop_last();
        law_changed_files_are_listed(d, mark);
        assert(file_rows(v, mark) =~= file_rows(d, mark) + row(v.last()));
        lemma_told_more(v, file_rows(d, mark), file_rows(v, mark), row);
    }
}

/// Every line of a changed text is shown between its marks.
pub proof fn law_lines_are_marked(v: Seq<Seq<char>>, start: Seq<char>, end: Seq<char>)
    ensures
        are_told(v, marked_lines(v, start, end), |x: Seq<char>| start + x + end),
    decreases v.len(),
{
    let row = |x: Seq<char>| start + x + end;
    if v.len() == 0 {
        lemma_told_nothing(v, marked_lines(v, start, end), row);
    } else {
        let d = v.drop_last();
        law_lines_are_marked(d, start, end);
        assert(marked_lines(v, start, end) =~= marked_lines(d, start, end) + row(v.last()));
        lemma_told_more(v, marked_lines(d, start, end), marked_lines(v, start, end), row);
    }
}

/// The changes are shown one after the other.
pub proof fn law_changes_are_shown(v: Seq<(ChangeTag, Seq<char>)>)
    ensures
        are_told(v, changes_shown(v), |x: (ChangeTag, Seq<char>)| change_shown(x)),
    decreases v.len(),
{
    let row = |x: (ChangeTag, Seq<char>)| change_shown(x);
    if v.len() == 0 {
        lemma_told_nothing(v, changes_shown(v), row);
    } else {
        let d = v.drop_last();
        law_changes_are_shown(d);
        assert(changes_shown(v) =~= changes_shown(d) + row(v.last()));
        lemma_told_more(v, changes_shown(d), changes_shown(v), row);
    }
}

/// Every call of a function that cannot be resolved has a line of its own in the report.
pub proof fn law_lost_calls_are_told(v: Seq<Seq<char>>)
    ensures
        are_told(v, lost_report(v), |x: Seq<char>| "    • \x1b[31m"@ + x + "\x1b[0m\n"@),
    decreases v.len(),
{
    let row = |x: Seq<char>| "    • \x1b[31m"@ + x + "\x1b[0m\n"@;
    if v.len() == 0 {
        lemma_told_nothing(v, lost_report(v), row);
    } else {
        let d = v.drop_last();
        law_lost_calls_are_told(d);
        assert(lost_report(v) =~= lost_report(d) + row(v.last()));
        lemma_told_more(v, lost_report(d), lost_report(v), row);
    }
}

} // verus!
