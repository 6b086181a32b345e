//! What the Rust parser sees in a source text, as plain values.

use quote::ToTokens;
use syn::spanned::Spanned;
use syn::{parse_file, ImplItem, Item, Type, Visibility};
use vstd::prelude::*;
use crate::ranges::Span;
use crate::text::texts;

verus! {

/// The kinds of top-level items that the tools tell apart.
#[derive(Clone, Copy, Debug, PartialEq, Eq, Structural)]
pub enum ItemKind {
    Function,
    Struct,
    Enum,
    Impl,
    Other,
}

/// An item of a source text: its name, its tokens written out with spaces, the line on which it
/// begins, counted from one, and, of a function, whether it is public and whether it is `async`.
#[derive(Debug, PartialEq, Eq)]
pub struct SourceItem {
    pub kind: ItemKind,
    pub name: String,
    pub tokens: String,
    pub line: usize,
    pub is_pub: bool,
    pub is_async: bool,
}

/// What a `SourceItem` holds.
pub struct ItemText {
    pub kind: ItemKind,
    pub name: Seq<char>,
    pub tokens: Seq<char>,
    pub line: nat,
    pub is_pub: bool,
    pub is_async: bool,
}

impl View for SourceItem {
    type V = ItemText;

    open spec fn view(&self) -> ItemText {
        ItemText {
            kind: self.kind,
            name: self.name@,
            tokens: self.tokens@,
            line: self.line as nat,
            is_pub: self.is_pub,
            is_async: self.is_async,
        }
    }
}

impl SourceItem {
    fn named(kind: ItemKind, name: String, tokens: String, line: usize) -> (r: SourceItem)
        ensures
            r@ == (ItemText {
                kind,
                name: name@,
                tokens: tokens@,
                line: line as nat,
                is_pub: false,
                is_async: false,
            }),
    {
        SourceItem { kind, name, tokens, line, is_pub: false, is_async: false }
    }

    /// A function.
    pub fn function(name: String, tokens: String, line: usize, is_pub: bool, is_async: bool) -> (r:
        SourceItem)
        ensures
            r@ == (ItemText {
                kind: ItemKind::Function,
                name: name@,
                tokens: tokens@,
                line: line as nat,
                is_pub,
                is_async,
            }),
    {
        SourceItem { kind: ItemKind::Function, name, tokens, line, is_pub, is_async }
    }

    /// A struct.
    pub fn structure(name: String, tokens: String, line: usize) -> (r: SourceItem)
        ensures
            r@ == (ItemText {
                kind: ItemKind::Struct,
                name: name@,
                tokens: tokens@,
                line: line as nat,
                is_pub: false,
                is_async: false,
            }),
    {
        SourceItem::named(ItemKind::Struct, name, tokens, line)
    }

    /// An enum.
    pub fn enumeration(name: String, tokens: String, line: usize) -> (r: SourceItem)
        ensures
            r@ == (ItemText {
                kind: ItemKind::Enum,
                name: name@,
                tokens: tokens@,
                line: line as nat,
                is_pub: false,
                is_async: false,
            }),
    {
        SourceItem::named(ItemKind::Enum, name, tokens, line)
    }

    /// An `impl` block.
    pub fn block(tokens: String, line: usize) -> (r: SourceItem)
        ensures
            r@ == (ItemText {
                kind: ItemKind::Impl,
                name: Seq::empty(),
                tokens: tokens@,
                line: line as nat,
                is_pub: false,
                is_async: false,
            }),
    {
        SourceItem::named(ItemKind::Impl, String::new(), tokens, line)
    }

    /// Any other item.
    pub fn unnamed(tokens: String, line: usize) -> (r: SourceItem)
        ensures
            r@ == (ItemText {
                kind: ItemKind::Other,
                name: Seq::empty(),
                tokens: tokens@,
                line: line as nat,
                is_pub: false,
                is_async: false,
            }),
    {
        SourceItem::named(ItemKind::Other, String::new(), tokens, line)
    }

    /// An item that nothing is told of.
    pub fn other() -> (r: SourceItem)
        ensures
            r@ == (ItemText {
                kind: ItemKind::Other,
                name: Seq::empty(),
                tokens: Seq::empty(),
                line: 0,
                is_pub: false,
                is_async: false,
            }),
    {
        SourceItem::unnamed(String::new(), 0)
    }

    /// Another item that holds the same.
    pub fn copy(&self) -> (r: SourceItem)
        ensures
            r@ == self@,
    {
        SourceItem {
            kind: self.kind,
            name: self.name.clone(),
            tokens: self.tokens.clone(),
            line: self.line,
            is_pub: self.is_pub,
            is_async: self.is_async,
        }
    }
}

/// What a list of items holds.
pub open spec fn item_texts(v: Seq<SourceItem>) -> Seq<ItemText> {
    v.map_values(|i: SourceItem| i@)
}

/// Whether every function of a list begins on a line that counts from one.
pub open spec fn lines_counted(v: Seq<SourceItem>) -> bool {
    forall|i: int|
        0 <= i < v.len() && (#[trigger] v[i]).kind == ItemKind::Function ==> v[i].line >= 1
}

/// The top-level items that `syn::parse_file` finds in a text, in order, or `None` where it
/// does not parse.
pub uninterp spec fn source_items(content: Seq<char>) -> Option<Seq<ItemText>>;

/// Calls `syn::parse_file`, writes out the tokens of each item with `quote` and asks each for the
/// line of its span; lines count from one, as the parser counts them. The name of an item that is
/// neither a function, a struct nor an enum is empty.
#[verifier::external_body]
pub(crate) fn parse_items(content: &str) -> (r: Option<Vec<SourceItem>>)
    ensures
        source_items(content@) == match r {
            Some(v) => Some(item_texts(v@)),
            None => None,
        },
        r matches Some(v) ==> lines_counted(v@),
{
    Some(parse_file(content).ok()?.items.iter().map(|item| {
        let (tokens, line) = (item.to_token_stream().to_string(), item.span().start().line);
        match item {
            Item::Fn(f) => SourceItem::function(f.sig.ident.to_string(), tokens, line,
                matches!(f.vis, Visibility::Public(_)), f.sig.asyncness.is_some()),
            Item::Struct(s) => SourceItem::structure(s.ident.to_string(), tokens, line),
            Item::Enum(e) => SourceItem::enumeration(e.ident.to_string(), tokens, line),
            Item::Impl(_) => SourceItem::block(tokens, line),
            _ => SourceItem::unnamed(tokens, line),
        }
    }).collect())
}

/// An `impl` block: the identifiers on the path of its type, where the type is a path, and its
/// members.
#[derive(Debug, PartialEq, Eq)]
pub struct ImplBlock {
    pub type_path: Option<Vec<String>>,
    pub members: Vec<SourceItem>,
}

/// What an `ImplBlock` holds.
pub struct ImplText {
    pub type_path: Option<Seq<Seq<char>>>,
    pub members: Seq<ItemText>,
}

impl View for ImplBlock {
    type V = ImplText;

    open spec fn view(&self) -> ImplText {
        ImplText {
            type_path: match self.type_path {
                Some(p) => Some(texts(p@)),
                None => None,
            },
            members: item_texts(self.members@),
        }
    }
}

/// The `impl` block that `syn::parse_file` finds as item `index` of a text; `None` where the
/// text does not parse or that item is no `impl` block.
pub uninterp spec fn impl_block(content: Seq<char>, index: nat) -> Option<ImplText>;

/// Calls `syn::parse_file` and takes its item `index` apart. Of a member that is a function its
/// tokens, written out with `quote`, and the line of its span are read too; any other member is
/// `ItemKind::Other` and empty.
#[verifier::external_body]
pub(crate) fn parse_impl(content: &str, index: usize) -> (r: Option<ImplBlock>)
    ensures
        impl_block(content@, index as nat) == match r {
            Some(b) => Some(b@),
            None => None,
        },
        r matches Some(b) ==> lines_counted(b.members@),
{
    let file = parse_file(content).ok()?;
    let Item::Impl(block) = file.items.get(index)? else { return None };
    let type_path = match &*block.self_ty {
        Type::Path(p) => Some(p.path.segments.iter().map(|s| s.ident.to_string()).collect()),
        _ => None,
    };
    Some(ImplBlock { type_path, members: block.items.iter().map(|m| match m {
        ImplItem::Fn(f) => SourceItem::function(f.sig.ident.to_string(),
            f.to_token_stream().to_string(), f.span().start().line,
            matches!(f.vis, Visibility::Public(_)), f.sig.asyncness.is_some()),
        _ => SourceItem::other(),
    }).collect() })
}

/// What stands before a function's `fn`, and its name.
#[derive(Debug, PartialEq, Eq)]
pub struct FnHead {
    pub name: String,
    pub attrs: Vec<String>,
    pub vis: String,
    pub is_async: bool,
    pub is_unsafe: bool,
}

/// What a `FnHead` holds.
pub struct FnHeadText {
    pub name: Seq<char>,
    pub attrs: Seq<Seq<char>>,
    pub vis: Seq<char>,
    pub is_async: bool,
    pub is_unsafe: bool,
}

impl View for FnHead {
    type V = FnHeadText;

    open spec fn view(&self) -> FnHeadText {
        FnHeadText {
            name: self.name@,
            attrs: texts(self.attrs@),
            vis: self.vis@,
            is_async: self.is_async,
            is_unsafe: self.is_unsafe,
        }
    }
}

/// The head of the free function that a text is, as `syn::parse_str` reads it.
pub uninterp spec fn fn_head(block: Seq<char>) -> Option<FnHeadText>;

/// Calls `syn::parse_str::<syn::ItemFn>`; attributes and visibility are written out as tokens.
#[verifier::external_body]
pub(crate) fn parse_fn(block: &str) -> (r: Option<FnHead>)
    ensures
        fn_head(block@) == match r {
            Some(h) => Some(h@),
            None => None,
        },
{
    let f: syn::ItemFn = syn::parse_str(block).ok()?;
    Some(FnHead {
        name: f.sig.ident.to_string(),
        attrs: f.attrs.iter().map(|a| a.to_token_stream().to_string()).collect(),
        vis: f.vis.to_token_stream().to_string(),
        is_async: f.sig.asyncness.is_some(),
        is_unsafe: f.sig.unsafety.is_some(),
    })
}

/// The head of the method that a text is, as `syn::parse_str` reads it.
pub uninterp spec fn method_head(block: Seq<char>) -> Option<FnHeadText>;

/// Calls `syn::parse_str::<syn::ImplItemFn>`; attributes and visibility are written out as
/// tokens.
#[verifier::external_body]
pub(crate) fn parse_method(block: &str) -> (r: Option<FnHead>)
    ensures
        method_head(block@) == match r {
            Some(h) => Some(h@),
            None => None,
        },
{
    let f: syn::ImplItemFn = syn::parse_str(block).ok()?;
    Some(FnHead {
        name: f.sig.ident.to_string(),
        attrs: f.attrs.iter().map(|a| a.to_token_stream().to_string()).collect(),
        vis: f.vis.to_token_stream().to_string(),
        is_async: f.sig.asyncness.is_some(),
        is_unsafe: f.sig.unsafety.is_some(),
    })
}

/// The name of the struct that a text is, as `syn::parse_str` reads it.
pub uninterp spec fn struct_name(block: Seq<char>) -> Option<Seq<char>>;

/// Calls `syn::parse_str::<syn::ItemStruct>`.
#[verifier::external_body]
pub(crate) fn parse_struct(block: &str) -> (r: Option<String>)
    ensures
        struct_name(block@) == match r {
            Some(n) => Some(n@),
            None => None,
        },
{
    syn::parse_str::<syn::ItemStruct>(block).ok().map(|s| s.ident.to_string())
}

/// The name of the enum that a text is, as `syn::parse_str` reads it.
pub uninterp spec fn enum_name(block: Seq<char>) -> Option<Seq<char>>;

/// Calls `syn::parse_str::<syn::ItemEnum>`.
#[verifier::external_body]
pub(crate) fn parse_enum(block: &str) -> (r: Option<String>)
    ensures
        enum_name(block@) == match r {
            Some(n) => Some(n@),
            None => None,
        },
{
    syn::parse_str::<syn::ItemEnum>(block).ok().map(|e| e.ident.to_string())
}

/// A name and where it stands.
#[derive(Debug, PartialEq, Eq)]
pub struct PlacedName {
    pub name: String,
    pub span: Span,
}

/// The names of a path.
pub open spec fn path_names(v: Seq<PlacedName>) -> Seq<(Seq<char>, Span)> {
    v.map_values(|n: PlacedName| (n.name@, n.span))
}

/// Where an `impl` block stands: the names on its trait's path, if it has one, and the places of
/// the block and of its type.
#[derive(Debug, PartialEq, Eq)]
pub struct ImplSpan {
    pub trait_path: Option<Vec<PlacedName>>,
    pub block: Span,
    pub self_type: Span,
}

/// What an `ImplSpan` holds.
pub struct ImplSpanText {
    pub trait_path: Option<Seq<(Seq<char>, Span)>>,
    pub block: Span,
    pub self_type: Span,
}

impl View for ImplSpan {
    type V = ImplSpanText;

    open spec fn view(&self) -> ImplSpanText {
        ImplSpanText {
            trait_path: match self.trait_path {
                Some(p) => Some(path_names(p@)),
                None => None,
            },
            block: self.block,
            self_type: self.self_type,
        }
    }
}

/// Where the `impl` block stands that `syn::parse_file` finds as item `index` of a text; `None`
/// where the text does not parse or that item is no `impl` block.
pub uninterp spec fn impl_span(content: Seq<char>, index: nat) -> Option<ImplSpanText>;

/// Calls `syn::parse_file` and reads the spans of its item `index`. Lines count from one and
/// columns from zero, in characters, as the parser counts them.
#[verifier::external_body]
pub(crate) fn parse_impl_span(content: &str, index: usize) -> (r: Option<ImplSpan>)
    ensures
        impl_span(content@, index as nat) == match r {
            Some(b) => Some(b@),
            None => None,
        },
{
    let file = parse_file(content).ok()?;
    let Item::Impl(item) = file.items.get(index)? else { return None };
    let span = |s: proc_macro2::Span| {
        let (a, b) = (s.start(), s.end());
        Span::between(a.line, a.column, b.line, b.column)
    };
    let name = |s: &syn::PathSegment| PlacedName { name: s.ident.to_string(), span: span(s.ident.span()) };
    Some(ImplSpan {
        trait_path: item.trait_.as_ref().map(|t| t.1.segments.iter().map(name).collect()),
        block: span(item.span()),
        self_type: span(item.self_ty.span()),
    })
}

} // verus!
