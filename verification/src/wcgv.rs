//! Symbols that a language server reports, as nodes of a graph.

use vstd::prelude::*;
use crate::bytes::{byte_len, bytes_text, is_boundary, slice_bytes};
use crate::edges::{append_edges, edge, edge_texts, push_edge, EdgeText, GraphEdge};
use crate::ranges::{
    byte_column_to_byte, bytes_on_boundaries, column_byte, ByteRange, Position, SourceRange, Span,
};
use crate::text::{
    chars_of, contains, dec, decimal, newlines, newlines_before, occurs, opt_text, same,
};

verus! {

/// A symbol of a file.
#[derive(Debug, PartialEq, Eq)]
pub struct SymbolNode {
    pub key: String,
    pub label: String,
    pub kind: String,
    pub path: String,
    pub visibility: String,
    pub signature: Option<String>,
    pub selection_range: SourceRange,
    pub full_range: SourceRange,
    pub source_snippet: Option<String>,
}

/// What a `SymbolNode` holds.
pub struct SymbolText {
    pub key: Seq<char>,
    pub label: Seq<char>,
    pub kind: Seq<char>,
    pub path: Seq<char>,
    pub visibility: Seq<char>,
    pub signature: Option<Seq<char>>,
    pub selection_range: SourceRange,
    pub full_range: SourceRange,
    pub source_snippet: Option<Seq<char>>,
}

impl View for SymbolNode {
    type V = SymbolText;

    open spec fn view(&self) -> SymbolText {
        SymbolText {
            key: self.key@,
            label: self.label@,
            kind: self.kind@,
            path: self.path@,
            visibility: self.visibility@,
            signature: opt_text(self.signature),
            selection_range: self.selection_range,
            full_range: self.full_range,
            source_snippet: opt_text(self.source_snippet),
        }
    }
}

pub open spec fn symbol_texts(v: Seq<SymbolNode>) -> Seq<SymbolText> {
    v.map_values(|n: SymbolNode| n@)
}

/// Adds a symbol.
pub fn push_symbol(v: &mut Vec<SymbolNode>, n: SymbolNode)
    ensures
        symbol_texts(final(v)@) == symbol_texts(old(v)@).push(n@),
{
    let ghost held = n@;
    v.push(n);
    assert(symbol_texts(v@) =~= symbol_texts(old(v)@).push(held));
}

/// Adds the symbols of `more`.
pub fn append_symbols(v: &mut Vec<SymbolNode>, more: Vec<SymbolNode>)
    ensures
        symbol_texts(final(v)@) == symbol_texts(old(v)@) + symbol_texts(more@),
{
    let ghost held = symbol_texts(more@);
    let mut more: Vec<SymbolNode> = more;
    v.append(&mut more);
    assert(symbol_texts(v@) =~= symbol_texts(old(v)@) + held);
}

/// A position as the server writes it, from line zero on.
#[derive(Debug, Clone, Copy, PartialEq, Eq)]
pub struct PositionModel {
    pub line: Option<u64>,
    pub character: Option<u64>,
}

/// A range as the server writes it.
#[derive(Debug, Clone, Copy, PartialEq, Eq)]
pub struct RangeModel {
    pub start: Option<PositionModel>,
    pub end: Option<PositionModel>,
}

/// A symbol as the server writes it.
#[derive(Debug, PartialEq, Eq)]
pub struct SymbolModel {
    pub name: Option<String>,
    pub kind: Option<u64>,
    pub range: Option<RangeModel>,
    pub selection_range: Option<RangeModel>,
    pub detail: Option<String>,
    pub children: Vec<SymbolModel>,
}

/// What a report of symbols lacks.
#[derive(Debug, Clone, Copy, PartialEq, Eq, Structural)]
pub enum SymbolError {
    FullRange,
    RangeStart,
    RangeEnd,
}

impl SymbolError {
    /// The error in words.
    pub open spec fn words(self) -> Seq<char> {
        match self {
            SymbolError::FullRange => "symbol missing full range"@,
            SymbolError::RangeStart => "range.start missing"@,
            SymbolError::RangeEnd => "range.end missing"@,
        }
    }

    /// The error in words.
    pub fn message(self) -> (r: String)
        ensures
            r@ == self.words(),
    {
        match self {
            SymbolError::FullRange => "symbol missing full range".to_owned(),
            SymbolError::RangeStart => "range.start missing".to_owned(),
            SymbolError::RangeEnd => "range.end missing".to_owned(),
        }
    }
}

/// A number that is there, or zero.
pub open spec fn or_zero(n: Option<u64>) -> u64 {
    match n {
        Some(n) => n,
        None => 0,
    }
}

/// A position from line one on; the last line that can be counted stands for any behind it.
pub open spec fn position_of(p: PositionModel) -> Position {
    Position {
        line: if or_zero(p.line) == u64::MAX {
            u64::MAX
        } else {
            (or_zero(p.line) + 1) as u64
        },
        column: or_zero(p.character),
    }
}

/// The range that a report means.
pub open spec fn range_of(r: RangeModel) -> Result<SourceRange, SymbolError> {
    match (r.start, r.end) {
        (None, _) => Err(SymbolError::RangeStart),
        (Some(_), None) => Err(SymbolError::RangeEnd),
        (Some(s), Some(e)) => Ok(
            SourceRange { start: position_of(s), end: position_of(e), bytes: None },
        ),
    }
}

fn make_position(p: PositionModel) -> (r: Position)
    ensures
        r == position_of(p),
{
    let line: u64 = match p.line {
        Some(n) => n,
        None => 0,
    };
    let column: u64 = match p.character {
        Some(n) => n,
        None => 0,
    };
    Position { line: line.saturating_add(1), column }
}

/// The range that a report means.
pub fn make_range(r: &RangeModel) -> (res: Result<SourceRange, SymbolError>)
    ensures
        res == range_of(*r),
{
    match (r.start, r.end) {
        (None, _) => Err(SymbolError::RangeStart),
        (Some(_), None) => Err(SymbolError::RangeEnd),
        (Some(s), Some(e)) => Ok(
            SourceRange { start: make_position(s), end: make_position(e), bytes: None },
        ),
    }
}

/// The name of a kind of symbol.
pub open spec fn kind_name(kind: u64) -> Seq<char> {
    if kind == 5 {
        "class"@
    } else if kind == 6 {
        "method"@
    } else if kind == 7 {
        "property"@
    } else if kind == 8 {
        "field"@
    } else if kind == 9 {
        "constructor"@
    } else if kind == 11 {
        "interface"@
    } else if kind == 12 {
        "function"@
    } else if kind == 13 {
        "variable"@
    } else if kind == 14 {
        "constant"@
    } else if kind == 23 {
        "struct"@
    } else if kind == 26 {
        "type_parameter"@
    } else {
        "symbol"@
    }
}

/// The name of a kind of symbol.
pub fn symbol_kind_name(kind: u64) -> (r: &'static str)
    ensures
        r@ == kind_name(kind),
{
    match kind {
        5 => "class",
        6 => "method",
        7 => "property",
        8 => "field",
        9 => "constructor",
        11 => "interface",
        12 => "function",
        13 => "variable",
        14 => "constant",
        23 => "struct",
        26 => "type_parameter",
        _ => "symbol",
    }
}

/// Whether symbols of a kind become nodes; fields only where asked for.
pub open spec fn is_interesting(kind: Seq<char>, include_field_nodes: bool) -> bool {
    ||| kind == "function"@
    ||| kind == "method"@
    ||| kind == "struct"@
    ||| kind == "class"@
    ||| kind == "interface"@
    ||| kind == "field"@ && include_field_nodes
}

proof fn lemma_field_is_its_own_kind()
    ensures
        "field"@ != "function"@,
        "field"@ != "method"@,
        "field"@ != "struct"@,
        "field"@ != "class"@,
        "field"@ != "interface"@,
{
    reveal_strlit("field");
    reveal_strlit("function");
    reveal_strlit("method");
    reveal_strlit("struct");
    reveal_strlit("class");
    reveal_strlit("interface");
    assert("field"@[0] == 'f' && "field"@.len() == 5);
    assert("class"@[0] == 'c');
}

/// Whether symbols of a kind become nodes.
pub fn is_interesting_symbol(kind: &str, include_field_nodes: bool) -> (r: bool)
    ensures
        r == is_interesting(kind@, include_field_nodes),
{
    proof {
        lemma_field_is_its_own_kind();
    }
    (same(kind, "function") || same(kind, "method") || same(kind, "struct") || same(kind, "field")
        || same(kind, "class") || same(kind, "interface")) && (!same(kind, "field")
        || include_field_nodes)
}

/// `public` for what has `pub` in its signature, `private` for all else.
pub open spec fn visibility_of(sig: Option<Seq<char>>) -> Seq<char> {
    match sig {
        Some(s) if occurs(s, "pub"@) => "public"@,
        _ => "private"@,
    }
}

/// `public` for what has `pub` in its signature, `private` for all else.
pub fn visibility_from_signature(sig: &Option<String>) -> (r: String)
    ensures
        r@ == visibility_of(opt_text(*sig)),
{
    match sig {
        Some(s) => if contains(s.as_str(), "pub") {
            "public".to_owned()
        } else {
            "private".to_owned()
        },
        None => "private".to_owned(),
    }
}

/// The key of a symbol: its kind, file, name and place.
pub open spec fn symbol_key(
    kind: Seq<char>,
    name: Seq<char>,
    rel_path: Seq<char>,
    at: Position,
) -> Seq<char> {
    kind + "::"@ + rel_path + "::"@ + name + ":"@ + dec(at.line as nat) + ":"@
        + dec(at.column as nat)
}

/// The key of a symbol.
pub fn make_symbol_key(kind: &str, name: &str, rel_path: &str, selection_range: &SourceRange) -> (r:
    String)
    ensures
        r@ == symbol_key(kind@, name@, rel_path@, selection_range.start),
{
    let mut out: String = kind.to_owned();
    out.append("::");
    out.append(rel_path);
    out.append("::");
    out.append(name);
    out.append(":");
    out.append(decimal(selection_range.start.line).as_str());
    out.append(":");
    out.append(decimal(selection_range.start.column).as_str());
    out
}

/// The key of an implementation: its file, trait, type and place.
pub open spec fn impl_key(
    rel_path: Seq<char>,
    target: Seq<char>,
    trait_label: Option<Seq<char>>,
    at: Position,
) -> Seq<char> {
    "impl::"@ + rel_path + "::"@ + (match trait_label {
        Some(t) => t + " for "@ + target,
        None => target,
    }) + ":"@ + dec(at.line as nat) + ":"@ + dec(at.column as nat)
}

/// The key of an implementation.
pub fn make_impl_key(
    rel_path: &str,
    target_label: &str,
    trait_label: &Option<String>,
    selection_range: &SourceRange,
) -> (r: String)
    ensures
        r@ == impl_key(rel_path@, target_label@, opt_text(*trait_label), selection_range.start),
{
    let name: String = match trait_label {
        Some(t) => {
            let mut name: String = t.clone();
            name.append(" for ");
            name.append(target_label);
            name
        },
        None => target_label.to_owned(),
    };
    let mut out: String = "impl::".to_owned();
    out.append(rel_path);
    out.append("::");
    out.append(name.as_str());
    out.append(":");
    out.append(decimal(selection_range.start.line).as_str());
    out.append(":");
    out.append(decimal(selection_range.start.column).as_str());
    out
}

/// The byte at which a line and a column in bytes lie. The start of the line behind the last one
/// counts as the end of the text.
pub open spec fn place_byte(s: Seq<char>, line: int, column: int) -> Option<int> {
    match column_byte(s, line, column) {
        Some(b) => Some(b),
        None => if s.len() > 0 && s.last() != '\n' && line == newlines(s) + 2 && column == 0 {
            Some(byte_len(s) as int)
        } else {
            None
        },
    }
}

/// The byte at which a line and a column in bytes lie.
pub fn line_col_to_byte_index(text: &str, line1: u64, col0: u64) -> (r: Option<usize>)
    ensures
        match r {
            Some(b) => place_byte(text@, line1 as int, col0 as int) == Some(b as int)
                && is_boundary(text@, b as int),
            None => place_byte(text@, line1 as int, col0 as int) is None,
        },
{
    let size: usize = text.as_bytes().len();
    assert(text@.take(text@.len() as int) =~= text@);
    match byte_column_to_byte(text, line1, col0) {
        Some(b) => Some(b),
        None => {
            let cs: Vec<char> = chars_of(text);
            let n: usize = cs.len();
            let feeds: usize = newlines_before(&cs, n);
            if n > 0 && cs[n - 1] != '\n' && line1 >= 2 && line1 - 2 == feeds as u64 && col0 == 0 {
                Some(size)
            } else {
                None
            }
        },
    }
}

/// The text of a range, where its start names a place that is not behind its end. An end that
/// names no place stands for the end of the text.
pub open spec fn symbol_snippet(content: Seq<char>, range: SourceRange) -> Option<Seq<char>> {
    match place_byte(content, range.start.line as int, range.start.column as int) {
        Some(a) => {
            let b = match place_byte(content, range.end.line as int, range.end.column as int) {
                Some(b) => b,
                None => byte_len(content) as int,
            };
            if a <= b {
                Some(bytes_text(content, a, b))
            } else {
                None
            }
        },
        None => None,
    }
}

/// The text of a range.
pub fn read_snippet(content: &str, range: &SourceRange) -> (r: Option<String>)
    ensures
        opt_text(r) == symbol_snippet(content@, *range),
{
    let size: usize = content.as_bytes().len();
    assert(content@.take(content@.len() as int) =~= content@);
    match line_col_to_byte_index(content, range.start.line, range.start.column) {
        Some(a) => {
            let b: usize = match line_col_to_byte_index(
                content,
                range.end.line,
                range.end.column,
            ) {
                Some(b) => b,
                None => size,
            };
            slice_bytes(content, a, b)
        },
        None => None,
    }
}

/// The range of a span: its ends, and its bytes; a start that names no place stands for the start
/// of the text, an end for its end.
pub open spec fn syn_range(source: Seq<char>, span: Span) -> SourceRange {
    SourceRange {
        start: span.start,
        end: span.end,
        bytes: Some(
            ByteRange {
                start: match place_byte(source, span.start.line as int, span.start.column as int) {
                    Some(b) => b as usize,
                    None => 0,
                },
                end: match place_byte(source, span.end.line as int, span.end.column as int) {
                    Some(b) => b as usize,
                    None => byte_len(source) as usize,
                },
            },
        ),
    }
}

/// The range of a span.
pub fn make_syn_range(source: &str, span: Span) -> (r: SourceRange)
    ensures
        r == syn_range(source@, span),
        bytes_on_boundaries(source@, r),
{
    let size: usize = source.as_bytes().len();
    assert(source@.take(source@.len() as int) =~= source@);
    assert(byte_len(source@.take(0)) == 0);
    let start: usize = match line_col_to_byte_index(source, span.start.line, span.start.column) {
        Some(b) => b,
        None => 0,
    };
    let end: usize = match line_col_to_byte_index(source, span.end.line, span.end.column) {
        Some(b) => b,
        None => size,
    };
    assert(is_boundary(source@, start as int));
    assert(is_boundary(source@, end as int));
    SourceRange { start: span.start, end: span.end, bytes: Some(ByteRange { start, end }) }
}

/// The whole range of a symbol, and that of its name, which may be missing.
pub open spec fn symbol_ranges(
    sym: SymbolModel,
) -> Result<(SourceRange, SourceRange), SymbolError> {
    match sym.range {
        None => Err(SymbolError::FullRange),
        Some(full) => match range_of(full) {
            Err(e) => Err(e),
            Ok(f) => match sym.selection_range {
                Some(sel) => match range_of(sel) {
                    Err(e) => Err(e),
                    Ok(s) => Ok((f, s)),
                },
                None => Ok((f, f)),
            },
        },
    }
}

fn read_ranges(sym: &SymbolModel) -> (r: Result<(SourceRange, SourceRange), SymbolError>)
    ensures
        r == symbol_ranges(*sym),
{
    match &sym.range {
        None => Err(SymbolError::FullRange),
        Some(full) => match make_range(full) {
            Err(e) => Err(e),
            Ok(f) => match &sym.selection_range {
                Some(sel) => match make_range(sel) {
                    Err(e) => Err(e),
                    Ok(s) => Ok((f, s)),
                },
                None => Ok((f, f)),
            },
        },
    }
}

/// The name of a symbol.
pub open spec fn symbol_name(sym: SymbolModel) -> Seq<char> {
    match sym.name {
        Some(n) => n@,
        None => "<unnamed>"@,
    }
}

/// The node of a symbol; `content` is the text of its file, where snippets are wanted.
pub open spec fn symbol_node(
    sym: SymbolModel,
    full: SourceRange,
    selection: SourceRange,
    rel_path: Seq<char>,
    content: Option<Seq<char>>,
) -> SymbolText {
    SymbolText {
        key: symbol_key(kind_name(or_zero(sym.kind)), symbol_name(sym), rel_path, selection.start),
        label: symbol_name(sym),
        kind: kind_name(or_zero(sym.kind)),
        path: rel_path,
        visibility: visibility_of(opt_text(sym.detail)),
        signature: opt_text(sym.detail),
        selection_range: selection,
        full_range: full,
        source_snippet: match content {
            Some(c) => symbol_snippet(c, full),
            None => None,
        },
    }
}

fn make_node(
    sym: &SymbolModel,
    full: SourceRange,
    selection: SourceRange,
    rel_path: &str,
    content: &Option<String>,
) -> (r: SymbolNode)
    ensures
        r@ == symbol_node(*sym, full, selection, rel_path@, opt_text(*content)),
{
    let name: String = match &sym.name {
        Some(n) => n.clone(),
        None => "<unnamed>".to_owned(),
    };
    let kind: &str = symbol_kind_name(
        match sym.kind {
            Some(k) => k,
            None => 0,
        },
    );
    let source_snippet: Option<String> = match content {
        Some(c) => read_snippet(c.as_str(), &full),
        None => None,
    };
    SymbolNode {
        key: make_symbol_key(kind, name.as_str(), rel_path, &selection),
        label: name,
        kind: kind.to_owned(),
        path: rel_path.to_owned(),
        visibility: visibility_from_signature(&sym.detail),
        signature: match &sym.detail {
            Some(d) => Some(d.clone()),
            None => None,
        },
        selection_range: selection,
        full_range: full,
        source_snippet,
    }
}

/// Symbols as nodes and the edges from those that contain others.
pub struct Walk {
    pub nodes: Seq<SymbolText>,
    pub edges: Seq<EdgeText>,
}

/// One walk behind another.
pub open spec fn both(a: Walk, b: Walk) -> Walk {
    Walk { nodes: a.nodes + b.nodes, edges: a.edges + b.edges }
}

/// What a walk found, with more of it behind.
pub open spec fn followed(a: Walk, b: Result<Walk, SymbolError>) -> Result<Walk, SymbolError> {
    match b {
        Ok(b) => Ok(both(a, b)),
        Err(e) => Err(e),
    }
}

/// What a symbol itself adds: its node where its kind becomes one, and the edge to it from the
/// node that contains it.
pub open spec fn own_part(node: SymbolText, keep: bool, parent: Option<Seq<char>>) -> Walk {
    Walk {
        nodes: if keep {
            seq![node]
        } else {
            Seq::empty()
        },
        edges: match parent {
            Some(p) if keep => seq![edge(p, node.key, "contains"@)],
            _ => Seq::empty(),
        },
    }
}

/// The nodes of symbols and of those inside them, in the order of the report, and the edges from
/// each node to those right inside it.
pub open spec fn walked(
    items: Seq<SymbolModel>,
    rel_path: Seq<char>,
    content: Option<Seq<char>>,
    fields: bool,
    parent: Option<Seq<char>>,
) -> Result<Walk, SymbolError>
    decreases items,
{
    if items.len() == 0 {
        Ok(Walk { nodes: Seq::empty(), edges: Seq::empty() })
    } else {
        match symbol_ranges(items[0]) {
            Err(e) => Err(e),
            Ok((full, selection)) => {
                let node = symbol_node(items[0], full, selection, rel_path, content);
                let keep = is_interesting(node.kind, fields);
                let inner = if keep {
                    Some(node.key)
                } else {
                    parent
                };
                match walked(items[0].children@, rel_path, content, fields, inner) {
                    Err(e) => Err(e),
                    Ok(w) => followed(
                        both(own_part(node, keep, parent), w),
                        walked(
                            items.subrange(1, items.len() as int),
                            rel_path,
                            content,
                            fields,
                            parent,
                        ),
                    ),
                }
            },
        }
    }
}

proof fn lemma_followed(a: Walk, b: Walk, rest: Result<Walk, SymbolError>)
    ensures
        followed(both(a, b), rest) == followed(a, followed(b, rest)),
{
    match rest {
        Ok(r) => {
            assert(a.nodes + b.nodes + r.nodes =~= a.nodes + (b.nodes + r.nodes));
            assert(a.edges + b.edges + r.edges =~= a.edges + (b.edges + r.edges));
        },
        Err(_) => {},
    }
}

/// Adds what a symbol itself adds, and gives the key of the node that contains what is inside it.
fn put_symbol(
    nodes: &mut Vec<SymbolNode>,
    edges: &mut Vec<GraphEdge>,
    node: SymbolNode,
    keep: bool,
    parent: &Option<String>,
) -> (r: Option<String>)
    ensures
        symbol_texts(final(nodes)@) == symbol_texts(old(nodes)@) + own_part(
            node@,
            keep,
            opt_text(*parent),
        ).nodes,
        edge_texts(final(edges)@) == edge_texts(old(edges)@) + own_part(
            node@,
            keep,
            opt_text(*parent),
        ).edges,
        opt_text(r) == if keep {
            Some(node@.key)
        } else {
            opt_text(*parent)
        },
{
    let ghost had_nodes = symbol_texts(nodes@);
    let ghost had_edges = edge_texts(edges@);
    let ghost own = own_part(node@, keep, opt_text(*parent));
    if !keep {
        assert(had_nodes + own.nodes =~= had_nodes);
        assert(had_edges + own.edges =~= had_edges);
        return match parent {
            Some(p) => Some(p.clone()),
            None => None,
        };
    }
    match parent {
        Some(p) => {
            push_edge(edges, p.as_str(), node.key.as_str(), "contains");
        },
        None => {},
    }
    let key: String = node.key.clone();
    push_symbol(nodes, node);
    assert(symbol_texts(nodes@) =~= had_nodes + own.nodes);
    assert(edge_texts(edges@) =~= had_edges + own.edges);
    Some(key)
}

/// The nodes of symbols and of those inside them, and the edges from each node to those right
/// inside it. `content` is the text of the file, where snippets are wanted; `parent` is the key of
/// the node that contains the symbols.
pub fn walk_document_symbols(
    items: &Vec<SymbolModel>,
    rel_path: &str,
    content: &Option<String>,
    include_field_nodes: bool,
    parent: &Option<String>,
) -> (r: Result<(Vec<SymbolNode>, Vec<GraphEdge>), SymbolError>)
    ensures
        match r {
            Ok((nodes, edges)) => walked(
                items@,
                rel_path@,
                opt_text(*content),
                include_field_nodes,
                opt_text(*parent),
            ) == Ok::<Walk, SymbolError>(
                Walk { nodes: symbol_texts(nodes@), edges: edge_texts(edges@) },
            ),
            Err(e) => walked(
                items@,
                rel_path@,
                opt_text(*content),
                include_field_nodes,
                opt_text(*parent),
            ) == Err::<Walk, SymbolError>(e),
        },
    decreases items,
{
    let ghost text = opt_text(*content);
    let ghost outer = opt_text(*parent);
    let ghost goal = walked(items@, rel_path@, text, include_field_nodes, outer);
    let mut nodes: Vec<SymbolNode> = Vec::new();
    let mut edges: Vec<GraphEdge> = Vec::new();
    let n: usize = items.len();
    let mut i: usize = 0;
    assert(items@.subrange(0, n as int) =~= items@);
    assert(symbol_texts(nodes@) =~= Seq::empty());
    assert(edge_texts(edges@) =~= Seq::empty());
    proof {
        match goal {
            Ok(w) => {
                assert(symbol_texts(nodes@) + w.nodes =~= w.nodes);
                assert(edge_texts(edges@) + w.edges =~= w.edges);
            },
            Err(_) => {},
        }
    }
    while i < n
        invariant
            i <= n,
            n == items@.len(),
            followed(
                Walk { nodes: symbol_texts(nodes@), edges: edge_texts(edges@) },
                walked(
                    items@.subrange(i as int, n as int),
                    rel_path@,
                    text,
                    include_field_nodes,
                    outer,
                ),
            ) == goal,
        decreases n - i,
    {
        let ghost rest = items@.subrange(i as int, n as int);
        let ghost had = Walk { nodes: symbol_texts(nodes@), edges: edge_texts(edges@) };
        assert(rest[0] == items@[i as int]);
        assert(rest.subrange(1, rest.len() as int) =~= items@.subrange(i + 1, n as int));
        let sym: &SymbolModel = &items[i];
        let (full, selection) = match read_ranges(sym) {
            Ok(p) => p,
            Err(e) => {
                return Err(e);
            },
        };
        let node: SymbolNode = make_node(sym, full, selection, rel_path, content);
        let ghost held = node@;
        let keep: bool = is_interesting_symbol(node.kind.as_str(), include_field_nodes);
        let ghost own = own_part(held, keep, outer);
        let inner: Option<String> = put_symbol(&mut nodes, &mut edges, node, keep, parent);
        match walk_document_symbols(&sym.children, rel_path, content, include_field_nodes, &inner) {
            Ok((more_nodes, more_edges)) => {
                let ghost w = Walk {
                    nodes: symbol_texts(more_nodes@),
                    edges: edge_texts(more_edges@),
                };
                append_symbols(&mut nodes, more_nodes);
                append_edges(&mut edges, more_edges);
                assert(symbol_texts(nodes@) =~= both(had, both(own, w)).nodes);
                assert(edge_texts(edges@) =~= both(had, both(own, w)).edges);
                proof {
                    lemma_followed(
                        had,
                        both(own, w),
                        walked(
                            items@.subrange(i + 1, n as int),
                            rel_path@,
                            text,
                            include_field_nodes,
                            outer,
                        ),
                    );
                }
            },
            Err(e) => {
                return Err(e);
            },
        }
        i += 1;
    }
    proof {
        let w = Walk { nodes: symbol_texts(nodes@), edges: edge_texts(edges@) };
        assert(w.nodes + Seq::<SymbolText>::empty() =~= w.nodes);
        assert(w.edges + Seq::<EdgeText>::empty() =~= w.edges);
        assert(items@.subrange(n as int, n as int).len() == 0);
    }
    Ok((nodes, edges))
}

/// Whether one of the nodes has this key.
pub open spec fn has_key(nodes: Seq<SymbolText>, key: Seq<char>) -> bool {
    exists|i: int| 0 <= i < nodes.len() && (#[trigger] nodes[i]).key == key
}

/// Whether an edge joins nodes: it leads to one of them, from one of them or from the parent.
pub open spec fn joins(nodes: Seq<SymbolText>, parent: Option<Seq<char>>, e: EdgeText) -> bool {
    has_key(nodes, e.target) && (parent == Some(e.source) || has_key(nodes, e.source))
}

proof fn lemma_key_kept(a: Seq<SymbolText>, b: Seq<SymbolText>, key: Seq<char>)
    requires
        has_key(a, key) || has_key(b, key),
    ensures
        has_key(a + b, key),
{
    if has_key(a, key) {
        let i = choose|i: int| 0 <= i < a.len() && (#[trigger] a[i]).key == key;
        assert((a + b)[i].key == key);
    } else {
        let i = choose|i: int| 0 <= i < b.len() && (#[trigger] b[i]).key == key;
        assert((a + b)[a.len() + i].key == key);
    }
}

/// Every edge of a walk joins nodes of it: the edges lead from the nodes, or from the parent that
/// was given, to nodes.
pub proof fn law_walk_joins_nodes(
    items: Seq<SymbolModel>,
    rel_path: Seq<char>,
    content: Option<Seq<char>>,
    fields: bool,
    parent: Option<Seq<char>>,
)
    ensures
        match walked(items, rel_path, content, fields, parent) {
            Ok(w) => forall|i: int|
                0 <= i < w.edges.len() ==> joins(w.nodes, parent, #[trigger] w.edges[i]),
            Err(_) => true,
        },
    decreases items,
{
    if items.len() > 0 {
        match (symbol_ranges(items[0]), walked(items, rel_path, content, fields, parent)) {
            (Ok((full, selection)), Ok(all)) => {
                let node = symbol_node(items[0], full, selection, rel_path, content);
                let keep = is_interesting(node.kind, fields);
                let inner = if keep {
                    Some(node.key)
                } else {
                    parent
                };
                let tail = items.subrange(1, items.len() as int);
                law_walk_joins_nodes(items[0].children@, rel_path, content, fields, inner);
                law_walk_joins_nodes(tail, rel_path, content, fields, parent);
                let own = own_part(node, keep, parent);
                let w = walked(items[0].children@, rel_path, content, fields, inner)->Ok_0;
                let r = walked(tail, rel_path, content, fields, parent)->Ok_0;
                assert(all.nodes == own.nodes + w.nodes + r.nodes);
                assert(all.edges == own.edges + w.edges + r.edges);
                assert forall|i: int| 0 <= i < all.edges.len() implies joins(
                    all.nodes,
                    parent,
                    #[trigger] all.edges[i],
                ) by {
                    let e = all.edges[i];
                    let a = own.edges.len();
                    let b = w.edges.len();
                    if keep {
                        assert(own.nodes[0].key == node.key);
                        lemma_key_kept(own.nodes, w.nodes, node.key);
                        lemma_key_kept(own.nodes + w.nodes, r.nodes, node.key);
                    }
                    if i < a {
                        assert(e == own.edges[i]);
                    } else if i < a + b {
                        assert(e == w.edges[i - a]);
                        assert(joins(w.nodes, inner, e));
                        lemma_key_kept(own.nodes, w.nodes, e.target);
                        lemma_key_kept(own.nodes + w.nodes, r.nodes, e.target);
                        if has_key(w.nodes, e.source) {
                            lemma_key_kept(own.nodes, w.nodes, e.source);
                            lemma_key_kept(own.nodes + w.nodes, r.nodes, e.source);
                        }
                    } else {
                        assert(e == r.edges[i - a - b]);
                        assert(joins(r.nodes, parent, e));
                        lemma_key_kept(own.nodes + w.nodes, r.nodes, e.target);
                        if has_key(r.nodes, e.source) {
                            lemma_key_kept(own.nodes + w.nodes, r.nodes, e.source);
                        }
                    }
                }
            },
            _ => {},
        }
    }
}

} // verus!
