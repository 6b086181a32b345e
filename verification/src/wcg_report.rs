//! What is shown of a code graph.

use vstd::prelude::*;
use crate::ordered::{in_order, sort_distinct, TextMap};
use crate::path::{relative, relative_to};
use crate::text::{
    capped, contains_text, dec, decimal, join, joined, push_text, repeat, repeated, same, texts,
};
use crate::wcg::{CodeGraph, FieldInfo, FunctionInfo, ImplInfo, StructInfo, TraitInfo};

verus! {

/// A line of eighty `c`s.
pub open spec fn rule(c: char) -> Seq<char> {
    repeated(c, 80) + "\n"@
}

fn show_rule(c: char) -> (r: String)
    ensures
        r@ == rule(c),
{
    let mut out: String = repeat(c, 80);
    out.append("\n");
    out
}

/// `pub ` for what is public to all.
pub open spec fn pub_word(visibility: Seq<char>) -> Seq<char> {
    if visibility == "pub"@ {
        "pub "@
    } else {
        Seq::empty()
    }
}

fn show_pub(visibility: &str) -> (r: String)
    ensures
        r@ == pub_word(visibility@),
{
    if same(visibility, "pub") {
        "pub ".to_owned()
    } else {
        String::new()
    }
}

/// Generics in angle brackets, if there are any.
pub open spec fn generics_text(generics: Seq<Seq<char>>) -> Seq<char> {
    if generics.len() == 0 {
        Seq::empty()
    } else {
        "<"@ + joined(generics, ", "@) + ">"@
    }
}

fn show_generics(generics: &[String]) -> (r: String)
    ensures
        r@ == generics_text(texts(generics@)),
{
    if generics.len() == 0 {
        String::new()
    } else {
        let mut out: String = "<".to_owned();
        out.append(join(generics, ", ").as_str());
        out.append(">");
        out
    }
}

/// `t` between `before` and `after`, if there is one.
pub open spec fn wrapped(t: Option<String>, before: Seq<char>, after: Seq<char>) -> Seq<char> {
    match t {
        Some(t) => before + t@ + after,
        None => Seq::empty(),
    }
}

fn wrap(t: &Option<String>, before: &str, after: &str) -> (r: String)
    ensures
        r@ == wrapped(*t, before@, after@),
{
    match t {
        Some(t) => {
            let mut out: String = before.to_owned();
            out.append(t.as_str());
            out.append(after);
            out
        },
        None => String::new(),
    }
}

/// The head of an implementation.
pub open spec fn impl_head(i: ImplInfo) -> Seq<char> {
    if i.traits@.len() > 0 {
        "impl"@ + generics_text(texts(i.generics@)) + " "@ + joined(texts(i.traits@), " + "@)
            + " for "@ + i.target_type@
    } else {
        "impl"@ + generics_text(texts(i.generics@)) + " "@ + i.target_type@
    }
}

fn show_impl_head(i: &ImplInfo) -> (r: String)
    ensures
        r@ == impl_head(*i),
{
    let mut out: String = "impl".to_owned();
    out.append(show_generics(&i.generics).as_str());
    out.append(" ");
    if i.traits.len() > 0 {
        out.append(join(&i.traits, " + ").as_str());
        out.append(" for ");
    }
    out.append(i.target_type.as_str());
    out
}

/// The supertraits of a trait behind a colon, if it has any.
pub open spec fn super_text(t: TraitInfo) -> Seq<char> {
    if t.super_traits@.len() == 0 {
        Seq::empty()
    } else {
        ": "@ + joined(texts(t.super_traits@), " + "@)
    }
}

fn show_super(t: &TraitInfo) -> (r: String)
    ensures
        r@ == super_text(*t),
{
    if t.super_traits.len() == 0 {
        String::new()
    } else {
        let mut out: String = ": ".to_owned();
        out.append(join(&t.super_traits, " + ").as_str());
        out
    }
}

/// A call in colour.
pub open spec fn call_mark(c: Seq<char>) -> Seq<char> {
    "\x1b[35m`"@ + c + "`\x1b[0m"@
}

fn mark_calls(calls: &[String]) -> (r: Vec<String>)
    ensures
        texts(r@) == texts(calls@).map_values(|c: Seq<char>| call_mark(c)),
{
    let ghost all = texts(calls@).map_values(|c: Seq<char>| call_mark(c));
    let mut out: Vec<String> = Vec::new();
    let mut i: usize = 0;
    while i < calls.len()
        invariant
            i <= calls@.len(),
            texts(out@) == all.take(i as int),
        decreases calls@.len() - i,
    {
        let ghost now = texts(out@);
        let mut t: String = "\x1b[35m`".to_owned();
        t.append(calls[i].as_str());
        t.append("`\x1b[0m");
        assert(t@ == all[i as int]);
        out.push(t);
        assert(texts(out@) =~= now.push(all[i as int]));
        assert(all.take(i + 1) =~= all.take(i as int).push(all[i as int]));
        i += 1;
    }
    assert(all.take(i as int) =~= all);
    out
}

/// The calls of a function in colour and in order, behind `indent`, if any are to be shown.
pub open spec fn calls_line(f: FunctionInfo, calls: bool, indent: Seq<char>) -> Seq<char> {
    if calls && f.calls@.len() > 0 {
        indent + "Calls: "@ + joined(
            in_order(texts(f.calls@)).map_values(|c: Seq<char>| call_mark(c)),
            ", "@,
        ) + "\n"@
    } else {
        Seq::empty()
    }
}

fn show_calls_line(f: &FunctionInfo, calls: bool, indent: &str) -> (r: String)
    ensures
        r@ == calls_line(*f, calls, indent@),
{
    if calls && f.calls.len() > 0 {
        let sorted: Vec<String> = sort_distinct(&f.calls);
        let marked: Vec<String> = mark_calls(&sorted);
        let mut out: String = indent.to_owned();
        out.append("Calls: ");
        out.append(join(&marked, ", ").as_str());
        out.append("\n");
        out
    } else {
        String::new()
    }
}

/// The calls of a function in order as a comment behind `indent`, if any are to be shown.
pub open spec fn calls_comment(f: FunctionInfo, calls: bool, indent: Seq<char>) -> Seq<char> {
    if calls && f.calls@.len() > 0 {
        indent + "// Calls: "@ + joined(in_order(texts(f.calls@)), ", "@) + "\n"@
    } else {
        Seq::empty()
    }
}

fn show_calls_comment(f: &FunctionInfo, calls: bool, indent: &str) -> (r: String)
    ensures
        r@ == calls_comment(*f, calls, indent@),
{
    if calls && f.calls.len() > 0 {
        let sorted: Vec<String> = sort_distinct(&f.calls);
        let mut out: String = indent.to_owned();
        out.append("// Calls: ");
        out.append(join(&sorted, ", ").as_str());
        out.append("\n");
        out
    } else {
        String::new()
    }
}

/// A field in the report.
pub open spec fn field_line(x: FieldInfo) -> Seq<char> {
    "      "@ + (if x.visibility@ == "pub"@ {
        "\x1b[32mpub \x1b[0m"@
    } else {
        Seq::empty()
    }) + x.name@ + ": \x1b[33m"@ + x.type_str@ + "\x1b[0m\n"@
}

fn show_field_line(x: &FieldInfo) -> (r: String)
    ensures
        r@ == field_line(*x),
{
    let mut word: String = String::new();
    if same(x.visibility.as_str(), "pub") {
        word = "\x1b[32mpub \x1b[0m".to_owned();
    }
    let mut out: String = "      ".to_owned();
    out.append(word.as_str());
    out.append(x.name.as_str());
    out.append(": \x1b[33m");
    out.append(x.type_str.as_str());
    out.append("\x1b[0m\n");
    out
}

/// The fields of a struct in the report.
pub open spec fn field_lines(v: Seq<FieldInfo>) -> Seq<char>
    decreases v.len(),
{
    if v.len() == 0 {
        Seq::empty()
    } else {
        field_lines(v.drop_last()) + field_line(v.last())
    }
}

fn show_field_lines(v: &[FieldInfo]) -> (r: String)
    ensures
        r@ == field_lines(v@),
{
    let mut out: String = String::new();
    let mut i: usize = 0;
    while i < v.len()
        invariant
            i <= v@.len(),
            out@ == field_lines(v@.take(i as int)),
        decreases v@.len() - i,
    {
        assert(v@.take(i + 1).drop_last() =~= v@.take(i as int));
        out.append(show_field_line(&v[i]).as_str());
        i += 1;
    }
    assert(v@.take(i as int) =~= v@);
    out
}

/// The fields of a struct under their title, if they are to be shown.
pub open spec fn field_part(x: StructInfo, fields: bool) -> Seq<char> {
    if fields && x.fields@.len() > 0 {
        "    \x1b[36mFields:\x1b[0m\n"@ + field_lines(x.fields@)
    } else {
        Seq::empty()
    }
}

fn show_field_part(x: &StructInfo, fields: bool) -> (r: String)
    ensures
        r@ == field_part(*x, fields),
{
    if fields && x.fields.len() > 0 {
        let mut out: String = "    \x1b[36mFields:\x1b[0m\n".to_owned();
        out.append(show_field_lines(&x.fields).as_str());
        out
    } else {
        String::new()
    }
}

/// A struct in the report.
pub open spec fn struct_entry(x: StructInfo, root: Seq<char>, fields: bool) -> Seq<char> {
    "\n  \x1b[32m"@ + pub_word(x.visibility@) + "struct "@ + x.name@
        + generics_text(texts(x.generics@)) + "\x1b[0m \x1b[90m("@ + relative(x.path@, root)
        + ")\x1b[0m\n"@ + field_part(x, fields) + wrapped(x.where_clause, "    where "@, "\n"@)
}

fn show_struct_entry(x: &StructInfo, root: &str, fields: bool) -> (r: String)
    ensures
        r@ == struct_entry(*x, root@, fields),
{
    let mut out: String = "\n  \x1b[32m".to_owned();
    out.append(show_pub(x.visibility.as_str()).as_str());
    out.append("struct ");
    out.append(x.name.as_str());
    out.append(show_generics(&x.generics).as_str());
    out.append("\x1b[0m \x1b[90m(");
    out.append(relative_to(x.path.as_str(), root).as_str());
    out.append(")\x1b[0m\n");
    out.append(show_field_part(x, fields).as_str());
    out.append(wrap(&x.where_clause, "    where ", "\n").as_str());
    out
}

/// The structs in the report.
pub open spec fn struct_entries(v: Seq<StructInfo>, root: Seq<char>, fields: bool) -> Seq<char>
    decreases v.len(),
{
    if v.len() == 0 {
        Seq::empty()
    } else {
        struct_entries(v.drop_last(), root, fields) + struct_entry(v.last(), root, fields)
    }
}

fn show_struct_entries(m: &TextMap<StructInfo>, root: &str, fields: bool) -> (r: String)
    requires
        m.wf(),
    ensures
        r@ == struct_entries(m.values(), root@, fields),
{
    let ghost v = m.values();
    let n: usize = m.len();
    let mut out: String = String::new();
    let mut i: usize = 0;
    while i < n
        invariant
            i <= n,
            n == v.len(),
            out@ == struct_entries(v.take(i as int), root@, fields),
        decreases n - i,
    {
        assert(v.take(i + 1).drop_last() =~= v.take(i as int));
        out.append(show_struct_entry(m.value_at(i), root, fields).as_str());
        i += 1;
    }
    assert(v.take(i as int) =~= v);
    out
}

/// A method of a trait in the report.
pub open spec fn method_line(x: FunctionInfo) -> Seq<char> {
    "      • \x1b[33m"@ + x.signature@ + "\x1b[0m\n"@
}

fn show_method_line(x: &FunctionInfo) -> (r: String)
    ensures
        r@ == method_line(*x),
{
    let mut out: String = "      • \x1b[33m".to_owned();
    out.append(x.signature.as_str());
    out.append("\x1b[0m\n");
    out
}

/// The methods of a trait in the report.
pub open spec fn method_lines(v: Seq<FunctionInfo>) -> Seq<char>
    decreases v.len(),
{
    if v.len() == 0 {
        Seq::empty()
    } else {
        method_lines(v.drop_last()) + method_line(v.last())
    }
}

fn show_method_lines(v: &[FunctionInfo]) -> (r: String)
    ensures
        r@ == method_lines(v@),
{
    let mut out: String = String::new();
    let mut i: usize = 0;
    while i < v.len()
        invariant
            i <= v@.len(),
            out@ == method_lines(v@.take(i as int)),
        decreases v@.len() - i,
    {
        assert(v@.take(i + 1).drop_last() =~= v@.take(i as int));
        out.append(show_method_line(&v[i]).as_str());
        i += 1;
    }
    assert(v@.take(i as int) =~= v@);
    out
}

/// The methods of a trait under their title, if it has any.
pub open spec fn method_part(x: TraitInfo) -> Seq<char> {
    if x.methods@.len() > 0 {
        "    \x1b[36mMethods:\x1b[0m\n"@ + method_lines(x.methods@)
    } else {
        Seq::empty()
    }
}

fn show_method_part(x: &TraitInfo) -> (r: String)
    ensures
        r@ == method_part(*x),
{
    if x.methods.len() > 0 {
        let mut out: String = "    \x1b[36mMethods:\x1b[0m\n".to_owned();
        out.append(show_method_lines(&x.methods).as_str());
        out
    } else {
        String::new()
    }
}

/// A trait in the report.
pub open spec fn trait_entry(x: TraitInfo, root: Seq<char>) -> Seq<char> {
    "\n  \x1b[32mtrait "@ + x.name@ + generics_text(texts(x.generics@)) + "\x1b[0m"@ + super_text(x)
        + " \x1b[90m("@ + relative(x.path@, root) + ")\x1b[0m\n"@ + method_part(x)
}

fn show_trait_entry(x: &TraitInfo, root: &str) -> (r: String)
    ensures
        r@ == trait_entry(*x, root@),
{
    let mut out: String = "\n  \x1b[32mtrait ".to_owned();
    out.append(x.name.as_str());
    out.append(show_generics(&x.generics).as_str());
    out.append("\x1b[0m");
    out.append(show_super(x).as_str());
    out.append(" \x1b[90m(");
    out.append(relative_to(x.path.as_str(), root).as_str());
    out.append(")\x1b[0m\n");
    out.append(show_method_part(x).as_str());
    out
}

/// The traits in the report.
pub open spec fn trait_entries(v: Seq<TraitInfo>, root: Seq<char>) -> Seq<char>
    decreases v.len(),
{
    if v.len() == 0 {
        Seq::empty()
    } else {
        trait_entries(v.drop_last(), root) + trait_entry(v.last(), root)
    }
}

fn show_trait_entries(m: &TextMap<TraitInfo>, root: &str) -> (r: String)
    requires
        m.wf(),
    ensures
        r@ == trait_entries(m.values(), root@),
{
    let ghost v = m.values();
    let n: usize = m.len();
    let mut out: String = String::new();
    let mut i: usize = 0;
    while i < n
        invariant
            i <= n,
            n == v.len(),
            out@ == trait_entries(v.take(i as int), root@),
        decreases n - i,
    {
        assert(v.take(i + 1).drop_last() =~= v.take(i as int));
        out.append(show_trait_entry(m.value_at(i), root).as_str());
        i += 1;
    }
    assert(v.take(i as int) =~= v);
    out
}

/// Whether a function stands outside any implementation.
pub open spec fn is_top(x: FunctionInfo) -> bool {
    x.in_impl is None
}

/// Whether any function stands outside any implementation.
pub open spec fn any_top(v: Seq<FunctionInfo>) -> bool {
    exists|i: int| 0 <= i < v.len() && is_top(#[trigger] v[i])
}

fn has_top(m: &TextMap<FunctionInfo>) -> (r: bool)
    requires
        m.wf(),
    ensures
        r == any_top(m.values()),
{
    let n: usize = m.len();
    let mut i: usize = 0;
    while i < n
        invariant
            i <= n,
            n == m.values().len(),
            forall|j: int| 0 <= j < i ==> !is_top(#[trigger] m.values()[j]),
        decreases n - i,
    {
        if m.value_at(i).in_impl.is_none() {
            assert(is_top(m.values()[i as int]));
            return true;
        }
        i += 1;
    }
    false
}

/// A function that stands outside any implementation, in the report.
pub open spec fn function_entry(x: FunctionInfo, root: Seq<char>, calls: bool) -> Seq<char> {
    if is_top(x) {
        "\n  \x1b[32m"@ + pub_word(x.visibility@) + x.signature@ + "\x1b[0m \x1b[90m("@
            + relative(x.path@, root) + ")\x1b[0m\n"@ + calls_line(x, calls, "    "@)
    } else {
        Seq::empty()
    }
}

fn show_function_entry(x: &FunctionInfo, root: &str, calls: bool) -> (r: String)
    ensures
        r@ == function_entry(*x, root@, calls),
{
    if x.in_impl.is_none() {
        let mut out: String = "\n  \x1b[32m".to_owned();
        out.append(show_pub(x.visibility.as_str()).as_str());
        out.append(x.signature.as_str());
        out.append("\x1b[0m \x1b[90m(");
        out.append(relative_to(x.path.as_str(), root).as_str());
        out.append(")\x1b[0m\n");
        out.append(show_calls_line(x, calls, "    ").as_str());
        out
    } else {
        String::new()
    }
}

/// The functions outside any implementation in the report.
pub open spec fn function_entries(v: Seq<FunctionInfo>, root: Seq<char>, calls: bool) -> Seq<char>
    decreases v.len(),
{
    if v.len() == 0 {
        Seq::empty()
    } else {
        function_entries(v.drop_last(), root, calls) + function_entry(v.last(), root, calls)
    }
}

fn show_function_entries(m: &TextMap<FunctionInfo>, root: &str, calls: bool) -> (r: String)
    requires
        m.wf(),
    ensures
        r@ == function_entries(m.values(), root@, calls),
{
    let ghost v = m.values();
    let n: usize = m.len();
    let mut out: String = String::new();
    let mut i: usize = 0;
    while i < n
        invariant
            i <= n,
            n == v.len(),
            out@ == function_entries(v.take(i as int), root@, calls),
        decreases n - i,
    {
        assert(v.take(i + 1).drop_last() =~= v.take(i as int));
        out.append(show_function_entry(m.value_at(i), root, calls).as_str());
        i += 1;
    }
    assert(v.take(i as int) =~= v);
    out
}

/// A method of an implementation in the report.
pub open spec fn member_line(x: FunctionInfo, calls: bool) -> Seq<char> {
    "      • \x1b[33m"@ + x.signature@ + "\x1b[0m\n"@ + calls_line(x, calls, "        "@)
}

fn show_member_line(x: &FunctionInfo, calls: bool) -> (r: String)
    ensures
        r@ == member_line(*x, calls),
{
    let mut out: String = "      • \x1b[33m".to_owned();
    out.append(x.signature.as_str());
    out.append("\x1b[0m\n");
    out.append(show_calls_line(x, calls, "        ").as_str());
    out
}

/// The methods of an implementation in the report.
pub open spec fn member_lines(v: Seq<FunctionInfo>, calls: bool) -> Seq<char>
    decreases v.len(),
{
    if v.len() == 0 {
        Seq::empty()
    } else {
        member_lines(v.drop_last(), calls) + member_line(v.last(), calls)
    }
}

fn show_member_lines(v: &[FunctionInfo], calls: bool) -> (r: String)
    ensures
        r@ == member_lines(v@, calls),
{
    let mut out: String = String::new();
    let mut i: usize = 0;
    while i < v.len()
        invariant
            i <= v@.len(),
            out@ == member_lines(v@.take(i as int), calls),
        decreases v@.len() - i,
    {
        assert(v@.take(i + 1).drop_last() =~= v@.take(i as int));
        out.append(show_member_line(&v[i], calls).as_str());
        i += 1;
    }
    assert(v@.take(i as int) =~= v@);
    out
}

/// The methods of an implementation under their title, if it has any.
pub open spec fn member_part(x: ImplInfo, calls: bool) -> Seq<char> {
    if x.methods@.len() > 0 {
        "    \x1b[36mMethods:\x1b[0m\n"@ + member_lines(x.methods@, calls)
    } else {
        Seq::empty()
    }
}

fn show_member_part(x: &ImplInfo, calls: bool) -> (r: String)
    ensures
        r@ == member_part(*x, calls),
{
    if x.methods.len() > 0 {
        let mut out: String = "    \x1b[36mMethods:\x1b[0m\n".to_owned();
        out.append(show_member_lines(&x.methods, calls).as_str());
        out
    } else {
        String::new()
    }
}

/// An implementation in the report.
pub open spec fn impl_entry(x: ImplInfo, root: Seq<char>, calls: bool) -> Seq<char> {
    "\n  \x1b[32m"@ + impl_head(x) + "\x1b[0m \x1b[90m("@ + relative(x.path@, root) + ")\x1b[0m\n"@
        + wrapped(x.where_clause, "    where "@, "\n"@) + member_part(x, calls)
}

fn show_impl_entry(x: &ImplInfo, root: &str, calls: bool) -> (r: String)
    ensures
        r@ == impl_entry(*x, root@, calls),
{
    let mut out: String = "\n  \x1b[32m".to_owned();
    out.append(show_impl_head(x).as_str());
    out.append("\x1b[0m \x1b[90m(");
    out.append(relative_to(x.path.as_str(), root).as_str());
    out.append(")\x1b[0m\n");
    out.append(wrap(&x.where_clause, "    where ", "\n").as_str());
    out.append(show_member_part(x, calls).as_str());
    out
}

/// The implementations in the report.
pub open spec fn impl_entries(v: Seq<ImplInfo>, root: Seq<char>, calls: bool) -> Seq<char>
    decreases v.len(),
{
    if v.len() == 0 {
        Seq::empty()
    } else {
        impl_entries(v.drop_last(), root, calls) + impl_entry(v.last(), root, calls)
    }
}

fn show_impl_entries(m: &TextMap<ImplInfo>, root: &str, calls: bool) -> (r: String)
    requires
        m.wf(),
    ensures
        r@ == impl_entries(m.values(), root@, calls),
{
    let ghost v = m.values();
    let n: usize = m.len();
    let mut out: String = String::new();
    let mut i: usize = 0;
    while i < n
        invariant
            i <= n,
            n == v.len(),
            out@ == impl_entries(v.take(i as int), root@, calls),
        decreases n - i,
    {
        assert(v.take(i + 1).drop_last() =~= v.take(i as int));
        out.append(show_impl_entry(m.value_at(i), root, calls).as_str());
        i += 1;
    }
    assert(v.take(i as int) =~= v);
    out
}

/// The calls of a function that cannot be resolved, in the report.
pub open spec fn lost_report(calls: Seq<Seq<char>>) -> Seq<char>
    decreases calls.len(),
{
    if calls.len() == 0 {
        Seq::empty()
    } else {
        lost_report(calls.drop_last()) + ("    • \x1b[31m"@ + calls.last() + "\x1b[0m\n"@)
    }
}

fn show_lost_report(calls: &[String]) -> (r: String)
    ensures
        r@ == lost_report(texts(calls@)),
{
    let ghost all = texts(calls@);
    let mut out: String = String::new();
    let mut i: usize = 0;
    while i < calls.len()
        invariant
            i <= calls@.len(),
            out@ == lost_report(all.take(i as int)),
        decreases calls@.len() - i,
    {
        assert(all.take(i + 1).drop_last() =~= all.take(i as int));
        assert(all.take(i + 1).last() == calls@[i as int]@);
        let mut line: String = "    • \x1b[31m".to_owned();
        line.append(calls[i].as_str());
        line.append("\x1b[0m\n");
        out.append(line.as_str());
        i += 1;
    }
    assert(all.take(i as int) =~= all);
    out
}

/// The functions with calls that cannot be resolved, in the report.
pub open spec fn lost_report_part(names: Seq<Seq<char>>, v: Seq<Vec<String>>) -> Seq<char>
    decreases v.len(),
{
    if v.len() == 0 {
        Seq::empty()
    } else if v.last()@.len() == 0 {
        lost_report_part(names.drop_last(), v.drop_last())
    } else {
        lost_report_part(names.drop_last(), v.drop_last()) + ("\n  \x1b[33m"@ + names.last()
            + "\x1b[0m calls:\n"@ + lost_report(in_order(texts(v.last()@))))
    }
}

fn show_lost_report_part(m: &TextMap<Vec<String>>) -> (r: String)
    requires
        m.wf(),
    ensures
        r@ == lost_report_part(m.keys(), m.values()),
{
    let ghost names = m.keys();
    let ghost v = m.values();
    let n: usize = m.len();
    let mut out: String = String::new();
    let mut i: usize = 0;
    while i < n
        invariant
            i <= n,
            n == v.len(),
            n == names.len(),
            out@ == lost_report_part(names.take(i as int), v.take(i as int)),
        decreases n - i,
    {
        assert(v.take(i + 1).drop_last() =~= v.take(i as int));
        assert(names.take(i + 1).drop_last() =~= names.take(i as int));
        if m.value_at(i).len() > 0 {
            let mut entry: String = "\n  \x1b[33m".to_owned();
            entry.append(m.key_at(i).as_str());
            entry.append("\x1b[0m calls:\n");
            let sorted: Vec<String> = sort_distinct(m.value_at(i));
            entry.append(show_lost_report(&sorted).as_str());
            out.append(entry.as_str());
        }
        i += 1;
    }
    assert(v.take(i as int) =~= v);
    assert(names.take(i as int) =~= names);
    out
}

/// The calls of a function that cannot be resolved, as comments.
pub open spec fn lost_comment(calls: Seq<Seq<char>>) -> Seq<char>
    decreases calls.len(),
{
    if calls.len() == 0 {
        Seq::empty()
    } else {
        lost_comment(calls.drop_last()) + ("//   - "@ + calls.last() + "\n"@)
    }
}

fn show_lost_comment(calls: &[String]) -> (r: String)
    ensures
        r@ == lost_comment(texts(calls@)),
{
    let ghost all = texts(calls@);
    let mut out: String = String::new();
    let mut i: usize = 0;
    while i < calls.len()
        invariant
            i <= calls@.len(),
            out@ == lost_comment(all.take(i as int)),
        decreases calls@.len() - i,
    {
        assert(all.take(i + 1).drop_last() =~= all.take(i as int));
        assert(all.take(i + 1).last() == calls@[i as int]@);
        let mut line: String = "//   - ".to_owned();
        line.append(calls[i].as_str());
        line.append("\n");
        out.append(line.as_str());
        i += 1;
    }
    assert(all.take(i as int) =~= all);
    out
}

/// The functions with calls that cannot be resolved, as comments.
pub open spec fn lost_comment_part(names: Seq<Seq<char>>, v: Seq<Vec<String>>) -> Seq<char>
    decreases v.len(),
{
    if v.len() == 0 {
        Seq::empty()
    } else if v.last()@.len() == 0 {
        lost_comment_part(names.drop_last(), v.drop_last())
    } else {
        lost_comment_part(names.drop_last(), v.drop_last()) + ("// "@ + names.last() + " calls:\n"@ + lost_comment(
            in_order(texts(v.last()@)),
        ) + "\n"@)
    }
}

fn show_lost_comment_part(m: &TextMap<Vec<String>>) -> (r: String)
    requires
        m.wf(),
    ensures
        r@ == lost_comment_part(m.keys(), m.values()),
{
    let ghost names = m.keys();
    let ghost v = m.values();
    let n: usize = m.len();
    let mut out: String = String::new();
    let mut i: usize = 0;
    while i < n
        invariant
            i <= n,
            n == v.len(),
            n == names.len(),
            out@ == lost_comment_part(names.take(i as int), v.take(i as int)),
        decreases n - i,
    {
        assert(v.take(i + 1).drop_last() =~= v.take(i as int));
        assert(names.take(i + 1).drop_last() =~= names.take(i as int));
        if m.value_at(i).len() > 0 {
            let mut entry: String = "// ".to_owned();
            entry.append(m.key_at(i).as_str());
            entry.append(" calls:\n");
            let sorted: Vec<String> = sort_distinct(m.value_at(i));
            entry.append(show_lost_comment(&sorted).as_str());
            entry.append("\n");
            out.append(entry.as_str());
        }
        i += 1;
    }
    assert(v.take(i as int) =~= v);
    assert(names.take(i as int) =~= names);
    out
}

/// How many calls cannot be resolved in all.
pub open spec fn lost_count(v: Seq<Vec<String>>) -> nat
    decreases v.len(),
{
    if v.len() == 0 {
        0
    } else {
        lost_count(v.drop_last()) + v.last()@.len()
    }
}

fn count_lost(m: &TextMap<Vec<String>>) -> (r: usize)
    requires
        m.wf(),
    ensures
        r == capped(lost_count(m.values())),
{
    let ghost v = m.values();
    let n: usize = m.len();
    let mut out: usize = 0;
    let mut i: usize = 0;
    while i < n
        invariant
            i <= n,
            n == v.len(),
            out == capped(lost_count(v.take(i as int))),
        decreases n - i,
    {
        assert(v.take(i + 1).drop_last() =~= v.take(i as int));
        out = out.saturating_add(m.value_at(i).len());
        i += 1;
    }
    assert(v.take(i as int) =~= v);
    out
}

/// How much a graph holds.
pub open spec fn counts_part(g: CodeGraph) -> Seq<char> {
    "  Structs: \x1b[33m"@ + dec(g.structs.keys().len()) + "\x1b[0m\n"@ + "  Functions: \x1b[33m"@
        + dec(g.functions.keys().len()) + "\x1b[0m\n"@ + "  Implementations: \x1b[33m"@ + dec(
        g.impls.keys().len(),
    ) + "\x1b[0m\n"@ + "  Traits: \x1b[33m"@ + dec(g.traits.keys().len()) + "\x1b[0m\n"@
}

fn show_counts_part(g: &CodeGraph) -> (r: String)
    requires
        g.wf(),
    ensures
        r@ == counts_part(*g),
{
    let mut out: String = "  Structs: \x1b[33m".to_owned();
    out.append(decimal(g.structs.len() as u64).as_str());
    out.append("\x1b[0m\n");
    out.append("  Functions: \x1b[33m");
    out.append(decimal(g.functions.len() as u64).as_str());
    out.append("\x1b[0m\n");
    out.append("  Implementations: \x1b[33m");
    out.append(decimal(g.impls.len() as u64).as_str());
    out.append("\x1b[0m\n");
    out.append("  Traits: \x1b[33m");
    out.append(decimal(g.traits.len() as u64).as_str());
    out.append("\x1b[0m\n");
    out
}

/// The title of the report and the numbers under it.
pub open spec fn report_head(g: CodeGraph, root: Seq<char>) -> Seq<char> {
    "\x1b[36m📊 Code Graph Analysis: "@ + root + "\x1b[0m\n"@ + rule('=')
        + "\n\x1b[36m📈 Summary:\x1b[0m\n"@ + counts_part(g) + (
    if g.unresolved_calls.keys().len() > 0 {
        "  Unresolved function calls: \x1b[33m"@ + dec(capped(lost_count(g.unresolved_calls.values())))
            + "\x1b[0m\n"@
    } else {
        Seq::empty()
    })
}

fn show_report_head(g: &CodeGraph, root: &str) -> (r: String)
    requires
        g.wf(),
    ensures
        r@ == report_head(*g, root@),
{
    let mut part: String = String::new();
    if g.unresolved_calls.len() > 0 {
        part = "  Unresolved function calls: \x1b[33m".to_owned();
        part.append(decimal(count_lost(&g.unresolved_calls) as u64).as_str());
        part.append("\x1b[0m\n");
    }
    let mut out: String = "\x1b[36m📊 Code Graph Analysis: ".to_owned();
    out.append(root);
    out.append("\x1b[0m\n");
    out.append(show_rule('=').as_str());
    out.append("\n\x1b[36m📈 Summary:\x1b[0m\n");
    out.append(show_counts_part(g).as_str());
    out.append(part.as_str());
    out
}

/// A section of the report: its title, a rule and its entries, if it is to be shown.
pub open spec fn section(on: bool, title: Seq<char>, body: Seq<char>) -> Seq<char> {
    if on {
        "\n\x1b[36m"@ + title + ":\x1b[0m\n"@ + rule('-') + body
    } else {
        Seq::empty()
    }
}

fn show_section(on: bool, title: &str, body: &str) -> (r: String)
    ensures
        r@ == section(on, title@, body@),
{
    if on {
        let mut out: String = "\n\x1b[36m".to_owned();
        out.append(title);
        out.append(":\x1b[0m\n");
        out.append(show_rule('-').as_str());
        out.append(body);
        out
    } else {
        String::new()
    }
}

/// The report on a graph: how much it holds, then its structs, traits, functions outside any
/// implementation, implementations and calls that cannot be resolved, each in order.
pub open spec fn report(g: CodeGraph, root: Seq<char>, calls: bool, fields: bool) -> Seq<char> {
    report_head(g, root) + section(
        g.structs.keys().len() > 0,
        "📦 Structs"@,
        struct_entries(g.structs.values(), root, fields),
    ) + section(
        g.traits.keys().len() > 0,
        "🔧 Traits"@,
        trait_entries(g.traits.values(), root),
    ) + section(
        any_top(g.functions.values()),
        "⚡ Functions"@,
        function_entries(g.functions.values(), root, calls),
    ) + section(
        g.impls.keys().len() > 0,
        "🏭 Implementations"@,
        impl_entries(g.impls.values(), root, calls),
    ) + section(
        g.unresolved_calls.keys().len() > 0 && calls,
        "❓ Unresolved Function Calls"@,
        lost_report_part(g.unresolved_calls.keys(), g.unresolved_calls.values()),
    ) + "\n"@ + rule('=')
}

/// The report on a graph.
pub fn format_report(g: &CodeGraph, root: &str, calls: bool, fields: bool) -> (r: String)
    requires
        g.wf(),
    ensures
        r@ == report(*g, root@, calls, fields),
{
    let mut out: String = show_report_head(g, root);
    let structs: String = show_struct_entries(&g.structs, root, fields);
    out.append(show_section(g.structs.len() > 0, "📦 Structs", structs.as_str()).as_str());
    let traits: String = show_trait_entries(&g.traits, root);
    out.append(show_section(g.traits.len() > 0, "🔧 Traits", traits.as_str()).as_str());
    let functions: String = show_function_entries(&g.functions, root, calls);
    out.append(show_section(has_top(&g.functions), "⚡ Functions", functions.as_str()).as_str());
    let impls: String = show_impl_entries(&g.impls, root, calls);
    out.append(show_section(g.impls.len() > 0, "🏭 Implementations", impls.as_str()).as_str());
    let lost: String = show_lost_report_part(&g.unresolved_calls);
    out.append(
        show_section(
            g.unresolved_calls.len() > 0 && calls,
            "❓ Unresolved Function Calls",
            lost.as_str(),
        ).as_str(),
    );
    out.append("\n");
    out.append(show_rule('=').as_str());
    out
}

/// A field as code.
pub open spec fn field_code(x: FieldInfo) -> Seq<char> {
    "    "@ + pub_word(x.visibility@) + x.name@ + ": "@ + x.type_str@ + ",\n"@
}

fn show_field_code(x: &FieldInfo) -> (r: String)
    ensures
        r@ == field_code(*x),
{
    let mut out: String = "    ".to_owned();
    out.append(show_pub(x.visibility.as_str()).as_str());
    out.append(x.name.as_str());
    out.append(": ");
    out.append(x.type_str.as_str());
    out.append(",\n");
    out
}

/// The fields of a struct as code.
pub open spec fn field_codes(v: Seq<FieldInfo>) -> Seq<char>
    decreases v.len(),
{
    if v.len() == 0 {
        Seq::empty()
    } else {
        field_codes(v.drop_last()) + field_code(v.last())
    }
}

fn show_field_codes(v: &[FieldInfo]) -> (r: String)
    ensures
        r@ == field_codes(v@),
{
    let mut out: String = String::new();
    let mut i: usize = 0;
    while i < v.len()
        invariant
            i <= v@.len(),
            out@ == field_codes(v@.take(i as int)),
        decreases v@.len() - i,
    {
        assert(v@.take(i + 1).drop_last() =~= v@.take(i as int));
        out.append(show_field_code(&v[i]).as_str());
        i += 1;
    }
    assert(v@.take(i as int) =~= v@);
    out
}

/// What follows the head of a struct or an implementation: its `where` clause, and the line's end.
pub open spec fn head_end(t: Option<String>) -> Seq<char> {
    match t {
        Some(t) => " "@ + t@ + "\n"@,
        None => "\n"@,
    }
}

fn show_head_end(t: &Option<String>) -> (r: String)
    ensures
        r@ == head_end(*t),
{
    match t {
        Some(t) => {
            let mut out: String = " ".to_owned();
            out.append(t.as_str());
            out.append("\n");
            out
        },
        None => "\n".to_owned(),
    }
}

/// The body of a struct as code.
pub open spec fn struct_body(x: StructInfo, fields: bool) -> Seq<char> {
    if fields && x.fields@.len() > 0 {
        field_codes(x.fields@)
    } else {
        "    // fields omitted\n"@
    }
}

fn show_struct_body(x: &StructInfo, fields: bool) -> (r: String)
    ensures
        r@ == struct_body(*x, fields),
{
    if fields && x.fields.len() > 0 {
        show_field_codes(&x.fields)
    } else {
        "    // fields omitted\n".to_owned()
    }
}

/// A struct as code.
pub open spec fn struct_code(x: StructInfo, root: Seq<char>, fields: bool) -> Seq<char> {
    "// "@ + relative(x.path@, root) + "\n"@ + pub_word(x.visibility@) + "struct "@ + x.name@
        + generics_text(texts(x.generics@)) + head_end(x.where_clause) + "{\n"@
        + struct_body(x, fields) + "}\n\n"@
}

fn show_struct_code(x: &StructInfo, root: &str, fields: bool) -> (r: String)
    ensures
        r@ == struct_code(*x, root@, fields),
{
    let mut out: String = "// ".to_owned();
    out.append(relative_to(x.path.as_str(), root).as_str());
    out.append("\n");
    out.append(show_pub(x.visibility.as_str()).as_str());
    out.append("struct ");
    out.append(x.name.as_str());
    out.append(show_generics(&x.generics).as_str());
    out.append(show_head_end(&x.where_clause).as_str());
    out.append("{\n");
    out.append(show_struct_body(x, fields).as_str());
    out.append("}\n\n");
    out
}

/// A method of a trait as code.
pub open spec fn method_code(x: FunctionInfo) -> Seq<char> {
    "    "@ + x.signature@ + ";\n"@
}

fn show_method_code(x: &FunctionInfo) -> (r: String)
    ensures
        r@ == method_code(*x),
{
    let mut out: String = "    ".to_owned();
    out.append(x.signature.as_str());
    out.append(";\n");
    out
}

/// The methods of a trait as code.
pub open spec fn method_codes(v: Seq<FunctionInfo>) -> Seq<char>
    decreases v.len(),
{
    if v.len() == 0 {
        Seq::empty()
    } else {
        method_codes(v.drop_last()) + method_code(v.last())
    }
}

fn show_method_codes(v: &[FunctionInfo]) -> (r: String)
    ensures
        r@ == method_codes(v@),
{
    let mut out: String = String::new();
    let mut i: usize = 0;
    while i < v.len()
        invariant
            i <= v@.len(),
            out@ == method_codes(v@.take(i as int)),
        decreases v@.len() - i,
    {
        assert(v@.take(i + 1).drop_last() =~= v@.take(i as int));
        out.append(show_method_code(&v[i]).as_str());
        i += 1;
    }
    assert(v@.take(i as int) =~= v@);
    out
}

/// A trait as code.
pub open spec fn trait_code(x: TraitInfo, root: Seq<char>) -> Seq<char> {
    "// "@ + relative(x.path@, root) + "\ntrait "@ + x.name@ + generics_text(texts(x.generics@))
        + super_text(x) + " {\n"@ + method_codes(x.methods@) + "}\n\n"@
}

fn show_trait_code(x: &TraitInfo, root: &str) -> (r: String)
    ensures
        r@ == trait_code(*x, root@),
{
    let mut out: String = "// ".to_owned();
    out.append(relative_to(x.path.as_str(), root).as_str());
    out.append("\ntrait ");
    out.append(x.name.as_str());
    out.append(show_generics(&x.generics).as_str());
    out.append(show_super(x).as_str());
    out.append(" {\n");
    out.append(show_method_codes(&x.methods).as_str());
    out.append("}\n\n");
    out
}

/// A function as code.
pub open spec fn function_code(x: FunctionInfo, root: Seq<char>, calls: bool) -> Seq<char> {
    "// "@ + relative(x.path@, root) + "\n"@ + pub_word(x.visibility@) + x.signature@ + " {\n"@
        + calls_comment(x, calls, "    "@) + "}\n\n"@
}

fn show_function_code(x: &FunctionInfo, root: &str, calls: bool) -> (r: String)
    ensures
        r@ == function_code(*x, root@, calls),
{
    let mut out: String = "// ".to_owned();
    out.append(relative_to(x.path.as_str(), root).as_str());
    out.append("\n");
    out.append(show_pub(x.visibility.as_str()).as_str());
    out.append(x.signature.as_str());
    out.append(" {\n");
    out.append(show_calls_comment(x, calls, "    ").as_str());
    out.append("}\n\n");
    out
}

/// A method of an implementation as code.
pub open spec fn member_code(x: FunctionInfo, calls: bool) -> Seq<char> {
    "    "@ + x.signature@ + ";\n"@ + calls_comment(x, calls, "        "@)
}

fn show_member_code(x: &FunctionInfo, calls: bool) -> (r: String)
    ensures
        r@ == member_code(*x, calls),
{
    let mut out: String = "    ".to_owned();
    out.append(x.signature.as_str());
    out.append(";\n");
    out.append(show_calls_comment(x, calls, "        ").as_str());
    out
}

/// The methods of an implementation as code.
pub open spec fn member_codes(v: Seq<FunctionInfo>, calls: bool) -> Seq<char>
    decreases v.len(),
{
    if v.len() == 0 {
        Seq::empty()
    } else {
        member_codes(v.drop_last(), calls) + member_code(v.last(), calls)
    }
}

fn show_member_codes(v: &[FunctionInfo], calls: bool) -> (r: String)
    ensures
        r@ == member_codes(v@, calls),
{
    let mut out: String = String::new();
    let mut i: usize = 0;
    while i < v.len()
        invariant
            i <= v@.len(),
            out@ == member_codes(v@.take(i as int), calls),
        decreases v@.len() - i,
    {
        assert(v@.take(i + 1).drop_last() =~= v@.take(i as int));
        out.append(show_member_code(&v[i], calls).as_str());
        i += 1;
    }
    assert(v@.take(i as int) =~= v@);
    out
}

/// An implementation as code.
pub open spec fn impl_code(x: ImplInfo, root: Seq<char>, calls: bool) -> Seq<char> {
    "// "@ + relative(x.path@, root) + "\n"@ + impl_head(x) + head_end(x.where_clause) + "{\n"@
        + member_codes(x.methods@, calls) + "}\n\n"@
}

fn show_impl_code(x: &ImplInfo, root: &str, calls: bool) -> (r: String)
    ensures
        r@ == impl_code(*x, root@, calls),
{
    let mut out: String = "// ".to_owned();
    out.append(relative_to(x.path.as_str(), root).as_str());
    out.append("\n");
    out.append(show_impl_head(x).as_str());
    out.append(show_head_end(&x.where_clause).as_str());
    out.append("{\n");
    out.append(show_member_codes(&x.methods, calls).as_str());
    out.append("}\n\n");
    out
}

/// The imports of a file, where they have not been shown yet.
pub open spec fn imports_part(
    g: CodeGraph,
    root: Seq<char>,
    seen: Seq<Seq<char>>,
    path: Seq<char>,
) -> Seq<char> {
    if seen.contains(path) {
        Seq::empty()
    } else {
        g.imports_text(path, root)
    }
}

fn show_imports_part(g: &CodeGraph, root: &str, seen: &[String], path: &str) -> (r: String)
    requires
        g.wf(),
    ensures
        r@ == imports_part(*g, root@, texts(seen@), path@),
{
    if contains_text(seen, path) {
        String::new()
    } else {
        g.render_file_imports(path, root)
    }
}

/// The files that the structs stand in.
pub open spec fn struct_paths(v: Seq<StructInfo>) -> Seq<Seq<char>>
    decreases v.len(),
{
    if v.len() == 0 {
        Seq::empty()
    } else {
        struct_paths(v.drop_last()).push(v.last().path@)
    }
}

/// The structs as code, each file's imports before its first one.
pub open spec fn struct_codes(
    g: CodeGraph,
    root: Seq<char>,
    seen: Seq<Seq<char>>,
    v: Seq<StructInfo>,
    fields: bool,
) -> Seq<char>
    decreases v.len(),
{
    if v.len() == 0 {
        Seq::empty()
    } else {
        struct_codes(g, root, seen, v.drop_last(), fields) + imports_part(
            g,
            root,
            seen + struct_paths(v.drop_last()),
            v.last().path@,
        ) + struct_code(v.last(), root, fields)
    }
}

fn show_struct_codes(
    g: &CodeGraph,
    root: &str,
    seen: Vec<String>,
    fields: bool,
) -> (r: (String, Vec<String>))
    requires
        g.wf(),
    ensures
        r.0@ == struct_codes(*g, root@, texts(seen@), g.structs.values(), fields),
        texts(r.1@) == texts(seen@) + struct_paths(g.structs.values()),
{
    let ghost old_seen = texts(seen@);
    let ghost v = g.structs.values();
    let n: usize = g.structs.len();
    let mut seen: Vec<String> = seen;
    let mut out: String = String::new();
    let mut i: usize = 0;
    assert(old_seen + struct_paths(v.take(0)) =~= old_seen);
    while i < n
        invariant
            i <= n,
            n == v.len(),
            texts(seen@) == old_seen + struct_paths(v.take(i as int)),
            out@ == struct_codes(*g, root@, old_seen, v.take(i as int), fields),
        decreases n - i,
    {
        assert(v.take(i + 1).drop_last() =~= v.take(i as int));
        assert(v.take(i + 1).last() == v[i as int]);
        let x: &StructInfo = g.structs.value_at(i);
        out.append(show_imports_part(g, root, &seen, x.path.as_str()).as_str());
        out.append(show_struct_code(x, root, fields).as_str());
        push_text(&mut seen, x.path.as_str());
        assert(texts(seen@) =~= old_seen + struct_paths(v.take(i + 1)));
        i += 1;
    }
    assert(v.take(i as int) =~= v);
    (out, seen)
}

/// The files that the traits stand in.
pub open spec fn trait_paths(v: Seq<TraitInfo>) -> Seq<Seq<char>>
    decreases v.len(),
{
    if v.len() == 0 {
        Seq::empty()
    } else {
        trait_paths(v.drop_last()).push(v.last().path@)
    }
}

/// The traits as code, each file's imports before its first one.
pub open spec fn trait_codes(
    g: CodeGraph,
    root: Seq<char>,
    seen: Seq<Seq<char>>,
    v: Seq<TraitInfo>,
) -> Seq<char>
    decreases v.len(),
{
    if v.len() == 0 {
        Seq::empty()
    } else {
        trait_codes(g, root, seen, v.drop_last()) + imports_part(
            g,
            root,
            seen + trait_paths(v.drop_last()),
            v.last().path@,
        ) + trait_code(v.last(), root)
    }
}

fn show_trait_codes(
    g: &CodeGraph,
    root: &str,
    seen: Vec<String>,
) -> (r: (String, Vec<String>))
    requires
        g.wf(),
    ensures
        r.0@ == trait_codes(*g, root@, texts(seen@), g.traits.values()),
        texts(r.1@) == texts(seen@) + trait_paths(g.traits.values()),
{
    let ghost old_seen = texts(seen@);
    let ghost v = g.traits.values();
    let n: usize = g.traits.len();
    let mut seen: Vec<String> = seen;
    let mut out: String = String::new();
    let mut i: usize = 0;
    assert(old_seen + trait_paths(v.take(0)) =~= old_seen);
    while i < n
        invariant
            i <= n,
            n == v.len(),
            texts(seen@) == old_seen + trait_paths(v.take(i as int)),
            out@ == trait_codes(*g, root@, old_seen, v.take(i as int)),
        decreases n - i,
    {
        assert(v.take(i + 1).drop_last() =~= v.take(i as int));
        assert(v.take(i + 1).last() == v[i as int]);
        let x: &TraitInfo = g.traits.value_at(i);
        out.append(show_imports_part(g, root, &seen, x.path.as_str()).as_str());
        out.append(show_trait_code(x, root).as_str());
        push_text(&mut seen, x.path.as_str());
        assert(texts(seen@) =~= old_seen + trait_paths(v.take(i + 1)));
        i += 1;
    }
    assert(v.take(i as int) =~= v);
    (out, seen)
}

/// The files that the functions outside any implementation stand in.
pub open spec fn function_paths(v: Seq<FunctionInfo>) -> Seq<Seq<char>>
    decreases v.len(),
{
    if v.len() == 0 {
        Seq::empty()
    } else if !is_top(v.last()) {
        function_paths(v.drop_last())
    } else {
        function_paths(v.drop_last()).push(v.last().path@)
    }
}

/// The functions outside any implementation as code, each file's imports before its first one.
pub open spec fn function_codes(
    g: CodeGraph,
    root: Seq<char>,
    seen: Seq<Seq<char>>,
    v: Seq<FunctionInfo>,
    calls: bool,
) -> Seq<char>
    decreases v.len(),
{
    if v.len() == 0 {
        Seq::empty()
    } else if !is_top(v.last()) {
        function_codes(g, root, seen, v.drop_last(), calls)
    } else {
        function_codes(g, root, seen, v.drop_last(), calls) + imports_part(
            g,
            root,
            seen + function_paths(v.drop_last()),
            v.last().path@,
        ) + function_code(v.last(), root, calls)
    }
}

fn show_function_codes(
    g: &CodeGraph,
    root: &str,
    seen: Vec<String>,
    calls: bool,
) -> (r: (String, Vec<String>))
    requires
        g.wf(),
    ensures
        r.0@ == function_codes(*g, root@, texts(seen@), g.functions.values(), calls),
        texts(r.1@) == texts(seen@) + function_paths(g.functions.values()),
{
    let ghost old_seen = texts(seen@);
    let ghost v = g.functions.values();
    let n: usize = g.functions.len();
    let mut seen: Vec<String> = seen;
    let mut out: String = String::new();
    let mut i: usize = 0;
    assert(old_seen + function_paths(v.take(0)) =~= old_seen);
    while i < n
        invariant
            i <= n,
            n == v.len(),
            texts(seen@) == old_seen + function_paths(v.take(i as int)),
            out@ == function_codes(*g, root@, old_seen, v.take(i as int), calls),
        decreases n - i,
    {
        assert(v.take(i + 1).drop_last() =~= v.take(i as int));
        assert(v.take(i + 1).last() == v[i as int]);
        let x: &FunctionInfo = g.functions.value_at(i);
        if x.in_impl.is_none() {
            out.append(show_imports_part(g, root, &seen, x.path.as_str()).as_str());
            out.append(show_function_code(x, root, calls).as_str());
            push_text(&mut seen, x.path.as_str());
            assert(texts(seen@) =~= old_seen + function_paths(v.take(i + 1)));
        }
        i += 1;
    }
    assert(v.take(i as int) =~= v);
    (out, seen)
}

/// The files that the implementations stand in.
pub open spec fn impl_paths(v: Seq<ImplInfo>) -> Seq<Seq<char>>
    decreases v.len(),
{
    if v.len() == 0 {
        Seq::empty()
    } else {
        impl_paths(v.drop_last()).push(v.last().path@)
    }
}

/// The implementations as code, each file's imports before its first one.
pub open spec fn impl_codes(
    g: CodeGraph,
    root: Seq<char>,
    seen: Seq<Seq<char>>,
    v: Seq<ImplInfo>,
    calls: bool,
) -> Seq<char>
    decreases v.len(),
{
    if v.len() == 0 {
        Seq::empty()
    } else {
        impl_codes(g, root, seen, v.drop_last(), calls) + imports_part(
            g,
            root,
            seen + impl_paths(v.drop_last()),
            v.last().path@,
        ) + impl_code(v.last(), root, calls)
    }
}

fn show_impl_codes(
    g: &CodeGraph,
    root: &str,
    seen: Vec<String>,
    calls: bool,
) -> (r: (String, Vec<String>))
    requires
        g.wf(),
    ensures
        r.0@ == impl_codes(*g, root@, texts(seen@), g.impls.values(), calls),
        texts(r.1@) == texts(seen@) + impl_paths(g.impls.values()),
{
    let ghost old_seen = texts(seen@);
    let ghost v = g.impls.values();
    let n: usize = g.impls.len();
    let mut seen: Vec<String> = seen;
    let mut out: String = String::new();
    let mut i: usize = 0;
    assert(old_seen + impl_paths(v.take(0)) =~= old_seen);
    while i < n
        invariant
            i <= n,
            n == v.len(),
            texts(seen@) == old_seen + impl_paths(v.take(i as int)),
            out@ == impl_codes(*g, root@, old_seen, v.take(i as int), calls),
        decreases n - i,
    {
        assert(v.take(i + 1).drop_last() =~= v.take(i as int));
        assert(v.take(i + 1).last() == v[i as int]);
        let x: &ImplInfo = g.impls.value_at(i);
        out.append(show_imports_part(g, root, &seen, x.path.as_str()).as_str());
        out.append(show_impl_code(x, root, calls).as_str());
        push_text(&mut seen, x.path.as_str());
        assert(texts(seen@) =~= old_seen + impl_paths(v.take(i + 1)));
        i += 1;
    }
    assert(v.take(i as int) =~= v);
    (out, seen)
}

/// A section of the code: its title, a rule and its entries, if it is to be shown.
pub open spec fn code_section(on: bool, title: Seq<char>, body: Seq<char>) -> Seq<char> {
    if on {
        "// "@ + title + "\n"@
            + "// ============================================================\n\n"@
            + body
    } else {
        Seq::empty()
    }
}

fn show_code_section(on: bool, title: &str, body: &str) -> (r: String)
    ensures
        r@ == code_section(on, title@, body@),
{
    if on {
        let mut out: String = "// ".to_owned();
        out.append(title);
        out.append("\n");
        out.append("// ============================================================\n\n");
        out.append(body);
        out
    } else {
        String::new()
    }
}

/// The head of the code: when and of what it was made.
pub open spec fn code_head(root: Seq<char>, generated: Seq<char>) -> Seq<char> {
    "// Code Graph Analysis\n// Generated: "@ + generated + "\n// Root: "@ + root + "\n"@
        + "// ============================================================\n\n"@
}

fn show_code_head(root: &str, generated: &str) -> (r: String)
    ensures
        r@ == code_head(root@, generated@),
{
    let mut out: String = "// Code Graph Analysis\n// Generated: ".to_owned();
    out.append(generated);
    out.append("\n// Root: ");
    out.append(root);
    out.append("\n");
    out.append("// ============================================================\n\n");
    out
}

/// A graph as code for the clipboard: its structs, traits, functions outside any implementation,
/// implementations and calls that cannot be resolved, each in order. The imports of a file stand
/// before the first item of it that is shown.
pub open spec fn clipboard_code(
    g: CodeGraph,
    root: Seq<char>,
    generated: Seq<char>,
    calls: bool,
    fields: bool,
) -> Seq<char> {
    let none: Seq<Seq<char>> = Seq::empty();
    let first = none + struct_paths(g.structs.values());
    let second = first + trait_paths(g.traits.values());
    let third = second + function_paths(g.functions.values());
    code_head(root, generated) + code_section(
        g.structs.keys().len() > 0,
        "📦 STRUCTS"@,
        struct_codes(g, root, none, g.structs.values(), fields),
    ) + code_section(
        g.traits.keys().len() > 0,
        "🔧 TRAITS"@,
        trait_codes(g, root, first, g.traits.values()),
    ) + code_section(
        any_top(g.functions.values()),
        "⚡ FUNCTIONS"@,
        function_codes(g, root, second, g.functions.values(), calls),
    ) + code_section(
        g.impls.keys().len() > 0,
        "🏭 IMPLEMENTATIONS"@,
        impl_codes(g, root, third, g.impls.values(), calls),
    ) + code_section(
        g.unresolved_calls.keys().len() > 0 && calls,
        "❓ UNRESOLVED FUNCTION CALLS"@,
        lost_comment_part(g.unresolved_calls.keys(), g.unresolved_calls.values()),
    )
}

/// A graph as code for the clipboard; `generated` says when it was made.
pub fn format_clipboard_content(
    g: &CodeGraph,
    root: &str,
    generated: &str,
    calls: bool,
    fields: bool,
) -> (r: String)
    requires
        g.wf(),
    ensures
        r@ == clipboard_code(*g, root@, generated@, calls, fields),
{
    let none: Vec<String> = Vec::new();
    assert(texts(none@) =~= Seq::empty());
    let (structs, first) = show_struct_codes(g, root, none, fields);
    let (traits, second) = show_trait_codes(g, root, first);
    let (functions, third) = show_function_codes(g, root, second, calls);
    let (impls, _) = show_impl_codes(g, root, third, calls);
    let lost: String = show_lost_comment_part(&g.unresolved_calls);
    let mut out: String = show_code_head(root, generated);
    out.append(show_code_section(g.structs.len() > 0, "📦 STRUCTS", structs.as_str()).as_str());
    out.append(show_code_section(g.traits.len() > 0, "🔧 TRAITS", traits.as_str()).as_str());
    out.append(show_code_section(has_top(&g.functions), "⚡ FUNCTIONS", functions.as_str()).as_str());
    out.append(show_code_section(g.impls.len() > 0, "🏭 IMPLEMENTATIONS", impls.as_str()).as_str());
    out.append(
        show_code_section(
            g.unresolved_calls.len() > 0 && calls,
            "❓ UNRESOLVED FUNCTION CALLS",
            lost.as_str(),
        ).as_str(),
    );
    out
}

} // verus!
