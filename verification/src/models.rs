//! Source files as the code graphs take them: the items that the Rust parser finds, at any depth,
//! as plain values.

use quote::ToTokens;
use syn::spanned::Spanned;
use syn::visit::Visit;
use vstd::prelude::*;
use crate::ranges::Span;
use crate::text::{opt_text, texts};

verus! {

/// The visibility of an item; one that is restricted with its tokens.
#[derive(Debug, PartialEq, Eq)]
pub enum VisModel {
    Public,
    Restricted(String),
    Inherited,
}

/// What a `VisModel` holds.
pub enum VisText {
    Public,
    Restricted(Seq<char>),
    Inherited,
}

impl View for VisModel {
    type V = VisText;

    open spec fn view(&self) -> VisText {
        match self {
            VisModel::Public => VisText::Public,
            VisModel::Restricted(t) => VisText::Restricted(t@),
            VisModel::Inherited => VisText::Inherited,
        }
    }
}

/// An attribute: the segments of its path, and the path's tokens.
#[derive(Debug, PartialEq, Eq)]
pub struct AttrModel {
    pub segments: Vec<String>,
    pub tokens: String,
}

/// What an `AttrModel` holds.
pub struct AttrText {
    pub segments: Seq<Seq<char>>,
    pub tokens: Seq<char>,
}

impl View for AttrModel {
    type V = AttrText;

    open spec fn view(&self) -> AttrText {
        AttrText { segments: texts(self.segments@), tokens: self.tokens@ }
    }
}

pub open spec fn attr_views(v: Seq<AttrModel>) -> Seq<AttrText> {
    v.map_values(|a: AttrModel| a@)
}

/// A parameter; a typed one with its tokens, the name that its pattern is, if it is one, and the
/// tokens of its type.
#[derive(Debug, PartialEq, Eq)]
pub enum InputModel {
    Receiver { reference: bool, mutable: bool },
    Typed { tokens: String, ident: Option<String>, ty: String },
}

/// What an `InputModel` holds.
pub enum InputText {
    Receiver { reference: bool, mutable: bool },
    Typed { tokens: Seq<char>, ident: Option<Seq<char>>, ty: Seq<char> },
}

impl View for InputModel {
    type V = InputText;

    open spec fn view(&self) -> InputText {
        match self {
            InputModel::Receiver { reference, mutable } => InputText::Receiver {
                reference: *reference,
                mutable: *mutable,
            },
            InputModel::Typed { tokens, ident, ty } => InputText::Typed {
                tokens: tokens@,
                ident: opt_text(*ident),
                ty: ty@,
            },
        }
    }
}

pub open spec fn input_views(v: Seq<InputModel>) -> Seq<InputText> {
    v.map_values(|i: InputModel| i@)
}

/// A call in a body: of a path, by its segments, of a method, or of something else.
#[derive(Debug, PartialEq, Eq)]
pub enum CallModel {
    Path(Vec<String>),
    Method(String),
    Other,
}

/// What a `CallModel` holds.
pub enum CallText {
    Path(Seq<Seq<char>>),
    Method(Seq<char>),
    Other,
}

impl View for CallModel {
    type V = CallText;

    open spec fn view(&self) -> CallText {
        match self {
            CallModel::Path(segments) => CallText::Path(texts(segments@)),
            CallModel::Method(name) => CallText::Method(name@),
            CallModel::Other => CallText::Other,
        }
    }
}

pub open spec fn call_views(v: Seq<CallModel>) -> Seq<CallText> {
    v.map_values(|c: CallModel| c@)
}

/// A function: its parts as tokens, and the calls in its body. `tokens` are those of its whole
/// signature.
#[derive(Debug, PartialEq, Eq)]
pub struct FnModel {
    pub name: String,
    pub constness: bool,
    pub asyncness: bool,
    pub unsafeness: bool,
    pub tokens: String,
    pub generics_tokens: String,
    pub inputs: Vec<InputModel>,
    pub output: Option<String>,
    pub generics: Vec<String>,
    pub where_clause: Option<String>,
    pub attributes: Vec<AttrModel>,
    pub visibility: VisModel,
    pub calls: Vec<CallModel>,
}

/// What an `FnModel` holds.
pub struct FnText {
    pub name: Seq<char>,
    pub constness: bool,
    pub asyncness: bool,
    pub unsafeness: bool,
    pub tokens: Seq<char>,
    pub generics_tokens: Seq<char>,
    pub inputs: Seq<InputText>,
    pub output: Option<Seq<char>>,
    pub generics: Seq<Seq<char>>,
    pub where_clause: Option<Seq<char>>,
    pub attributes: Seq<AttrText>,
    pub visibility: VisText,
    pub calls: Seq<CallText>,
}

impl View for FnModel {
    type V = FnText;

    open spec fn view(&self) -> FnText {
        FnText {
            name: self.name@,
            constness: self.constness,
            asyncness: self.asyncness,
            unsafeness: self.unsafeness,
            tokens: self.tokens@,
            generics_tokens: self.generics_tokens@,
            inputs: input_views(self.inputs@),
            output: opt_text(self.output),
            generics: texts(self.generics@),
            where_clause: opt_text(self.where_clause),
            attributes: attr_views(self.attributes@),
            visibility: self.visibility@,
            calls: call_views(self.calls@),
        }
    }
}

/// A method, and where it stands.
#[derive(Debug, PartialEq, Eq)]
pub struct MethodModel {
    pub function: FnModel,
    pub span: Span,
}

/// What a `MethodModel` holds.
pub struct MethodText {
    pub function: FnText,
    pub span: Span,
}

impl View for MethodModel {
    type V = MethodText;

    open spec fn view(&self) -> MethodText {
        MethodText { function: self.function@, span: self.span }
    }
}

/// What the members of an implementation hold that are methods.
pub open spec fn method_views(v: Seq<Option<MethodModel>>) -> Seq<Option<MethodText>> {
    v.map_values(
        |m: Option<MethodModel>|
            match m {
                Some(m) => Some(m@),
                None => None,
            },
    )
}

/// An implementation: its parts as tokens, and its members, of which the methods alone are told.
#[derive(Debug, PartialEq, Eq)]
pub struct ImplModel {
    pub target_type: String,
    pub generics: Vec<String>,
    pub where_clause: Option<String>,
    pub members: Vec<Option<MethodModel>>,
    pub trait_path: Option<String>,
}

/// What an `ImplModel` holds.
pub struct ImplText {
    pub target_type: Seq<char>,
    pub generics: Seq<Seq<char>>,
    pub where_clause: Option<Seq<char>>,
    pub members: Seq<Option<MethodText>>,
    pub trait_path: Option<Seq<char>>,
}

impl View for ImplModel {
    type V = ImplText;

    open spec fn view(&self) -> ImplText {
        ImplText {
            target_type: self.target_type@,
            generics: texts(self.generics@),
            where_clause: opt_text(self.where_clause),
            members: method_views(self.members@),
            trait_path: opt_text(self.trait_path),
        }
    }
}

/// The tree of a `use` item.
#[derive(Debug, PartialEq, Eq)]
pub enum UseModel {
    Path { ident: String, tree: Box<UseModel> },
    Name(String),
    Rename { ident: String, rename: String },
    Glob,
    Group(Vec<UseModel>),
}

/// What a `UseModel` holds.
pub enum UseText {
    Path { ident: Seq<char>, tree: Box<UseText> },
    Name(Seq<char>),
    Rename { ident: Seq<char>, rename: Seq<char> },
    Glob,
    Group(Seq<UseText>),
}

/// What a `use` tree holds.
pub open spec fn use_text(tree: UseModel) -> UseText
    decreases tree,
{
    match tree {
        UseModel::Path { ident, tree } => UseText::Path {
            ident: ident@,
            tree: Box::new(use_text(*tree)),
        },
        UseModel::Name(ident) => UseText::Name(ident@),
        UseModel::Rename { ident, rename } => UseText::Rename { ident: ident@, rename: rename@ },
        UseModel::Glob => UseText::Glob,
        UseModel::Group(items) => UseText::Group(use_texts(items@)),
    }
}

/// What the trees of a group hold.
pub open spec fn use_texts(items: Seq<UseModel>) -> Seq<UseText>
    decreases items,
{
    if items.len() == 0 {
        Seq::empty()
    } else {
        seq![use_text(items[0])] + use_texts(items.subrange(1, items.len() as int))
    }
}

impl View for UseModel {
    type V = UseText;

    open spec fn view(&self) -> UseText {
        use_text(*self)
    }
}

/// An item of a source file that the code graphs take up.
#[derive(Debug, PartialEq, Eq)]
pub enum ItemModel {
    Function(MethodModel),
    Impl(ImplModel),
    Use(UseModel),
    Struct { name: String, visibility: VisModel, span: Span },
    Trait { name: String, span: Span },
}

/// What an `ItemModel` holds.
pub enum ModelText {
    Function(MethodText),
    Impl(ImplText),
    Use(UseText),
    Struct { name: Seq<char>, visibility: VisText, span: Span },
    Trait { name: Seq<char>, span: Span },
}

impl View for ItemModel {
    type V = ModelText;

    open spec fn view(&self) -> ModelText {
        match self {
            ItemModel::Function(f) => ModelText::Function(f@),
            ItemModel::Impl(i) => ModelText::Impl(i@),
            ItemModel::Use(t) => ModelText::Use(t@),
            ItemModel::Struct { name, visibility, span } => ModelText::Struct {
                name: name@,
                visibility: visibility@,
                span: *span,
            },
            ItemModel::Trait { name, span } => ModelText::Trait { name: name@, span: *span },
        }
    }
}

pub open spec fn model_texts(v: Seq<ItemModel>) -> Seq<ModelText> {
    v.map_values(|m: ItemModel| m@)
}

pub open spec fn opt_models(v: Option<Vec<ItemModel>>) -> Option<Seq<ModelText>> {
    match v {
        Some(v) => Some(model_texts(v@)),
        None => None,
    }
}

#[verifier::external_type_specification]
#[verifier::external_body]
pub struct ExSignature(syn::Signature);

#[verifier::external_type_specification]
#[verifier::external_body]
pub struct ExAttribute(syn::Attribute);

#[verifier::external_type_specification]
#[verifier::external_body]
pub struct ExVisibility(syn::Visibility);

#[verifier::external_type_specification]
#[verifier::external_body]
pub struct ExGenerics(syn::Generics);

#[verifier::external_type_specification]
#[verifier::external_body]
pub struct ExUseTree(syn::UseTree);

#[verifier::external_type_specification]
#[verifier::external_body]
pub struct ExExprCall(syn::ExprCall);

#[verifier::external_type_specification]
#[verifier::external_body]
pub struct ExExprMethodCall(syn::ExprMethodCall);

#[verifier::external_type_specification]
#[verifier::external_body]
pub struct ExItemFn(syn::ItemFn);

#[verifier::external_type_specification]
#[verifier::external_body]
pub struct ExImplItemFn(syn::ImplItemFn);

#[verifier::external_type_specification]
#[verifier::external_body]
pub struct ExItemImpl(syn::ItemImpl);

#[verifier::external_type_specification]
#[verifier::external_body]
pub struct ExItemUse(syn::ItemUse);

#[verifier::external_type_specification]
#[verifier::external_body]
pub struct ExItemStruct(syn::ItemStruct);

#[verifier::external_type_specification]
#[verifier::external_body]
pub struct ExItemTrait(syn::ItemTrait);

/// The calls that `syn::visit` meets in a body, in its order.
struct CallVisitor {
    calls: Vec<CallModel>,
}

impl<'ast> Visit<'ast> for CallVisitor {
    /// Takes up a call, then goes on with `syn::visit::visit_expr_call`.
    #[verifier::external_body]
    fn visit_expr_call(&mut self, call: &'ast syn::ExprCall) {
        self.calls.push(match &*call.func {
            syn::Expr::Path(p) => CallModel::Path(p.path.segments.iter().map(|s| s.ident.to_string()).collect()),
            syn::Expr::MethodCall(m) => CallModel::Method(m.method.to_string()),
            _ => CallModel::Other,
        });
        syn::visit::visit_expr_call(self, call);
    }

    /// Takes up the call of a method, then goes on with `syn::visit::visit_expr_method_call`.
    #[verifier::external_body]
    fn visit_expr_method_call(&mut self, call: &'ast syn::ExprMethodCall) {
        self.calls.push(CallModel::Method(call.method.to_string()));
        syn::visit::visit_expr_method_call(self, call);
    }
}

/// Converts a visibility; the tokens of one that is restricted are written out.
#[verifier::external_body]
fn vis_model(vis: &syn::Visibility) -> (r: VisModel) {
    match vis {
        syn::Visibility::Public(_) => VisModel::Public,
        syn::Visibility::Restricted(r) => VisModel::Restricted(r.to_token_stream().to_string()),
        syn::Visibility::Inherited => VisModel::Inherited,
    }
}

/// Converts the parameters of generics to their names.
#[verifier::external_body]
fn generic_names(generics: &syn::Generics) -> (r: Vec<String>) {
    generics.params.iter().map(|param| match param {
        syn::GenericParam::Type(t) => t.ident.to_string(),
        syn::GenericParam::Lifetime(l) => l.lifetime.ident.to_string(),
        syn::GenericParam::Const(c) => c.ident.to_string(),
    }).collect()
}

/// Converts the parameters of a signature; the tokens of typed ones are written out.
#[verifier::external_body]
fn input_models(sig: &syn::Signature) -> (r: Vec<InputModel>) {
    sig.inputs.iter().map(|arg| match arg {
        syn::FnArg::Receiver(r) => InputModel::Receiver {
            reference: r.reference.is_some(),
            mutable: r.mutability.is_some(),
        },
        syn::FnArg::Typed(t) => InputModel::Typed {
            tokens: t.to_token_stream().to_string(),
            ident: match &*t.pat {
                syn::Pat::Ident(p) => Some(p.ident.to_string()),
                _ => None,
            },
            ty: t.ty.to_token_stream().to_string(),
        },
    }).collect()
}

/// Converts what a signature returns to its tokens.
#[verifier::external_body]
fn output_tokens(sig: &syn::Signature) -> (r: Option<String>) {
    match &sig.output {
        syn::ReturnType::Default => None,
        syn::ReturnType::Type(_, ty) => Some(ty.to_token_stream().to_string()),
    }
}

/// Converts attributes: the segments of their paths, and the tokens of these.
#[verifier::external_body]
fn attr_models(attrs: &[syn::Attribute]) -> (r: Vec<AttrModel>) {
    attrs.iter().map(|a| AttrModel {
        segments: a.path().segments.iter().map(|s| s.ident.to_string()).collect(),
        tokens: a.path().to_token_stream().to_string(),
    }).collect()
}

/// Converts a function with these calls in its body; its parts are written out as tokens.
#[verifier::external_body]
fn fn_model(
    sig: &syn::Signature,
    attrs: &[syn::Attribute],
    vis: &syn::Visibility,
    calls: Vec<CallModel>,
) -> (r: FnModel) {
    FnModel {
        name: sig.ident.to_string(),
        constness: sig.constness.is_some(),
        asyncness: sig.asyncness.is_some(),
        unsafeness: sig.unsafety.is_some(),
        tokens: sig.to_token_stream().to_string(),
        generics_tokens: sig.generics.to_token_stream().to_string(),
        inputs: input_models(sig),
        output: output_tokens(sig),
        generics: generic_names(&sig.generics),
        where_clause: sig.generics.where_clause.as_ref().map(|w| w.to_token_stream().to_string()),
        attributes: attr_models(attrs),
        visibility: vis_model(vis),
        calls,
    }
}

/// Converts a method; `syn::visit` walks its body. Lines count from one and columns from zero, in
/// characters, as the parser counts them.
#[verifier::external_body]
fn method_model(m: &syn::ImplItemFn) -> (r: MethodModel) {
    let mut visitor = CallVisitor { calls: Vec::new() };
    visitor.visit_block(&m.block);
    let (a, b) = (m.span().start(), m.span().end());
    MethodModel {
        function: fn_model(&m.sig, &m.attrs, &m.vis, visitor.calls),
        span: Span::between(a.line, a.column, b.line, b.column),
    }
}

/// Converts an `impl` block; its parts are written out as tokens.
#[verifier::external_body]
fn impl_model(block: &syn::ItemImpl) -> (r: ImplModel) {
    ImplModel {
        target_type: block.self_ty.to_token_stream().to_string(),
        generics: generic_names(&block.generics),
        where_clause: block.generics.where_clause.as_ref().map(|w| w.to_token_stream().to_string()),
        members: block.items.iter().map(|item| match item {
            syn::ImplItem::Fn(m) => Some(method_model(m)),
            _ => None,
        }).collect(),
        trait_path: block.trait_.as_ref().map(|t| t.1.to_token_stream().to_string()),
    }
}

/// Converts the tree of a `use` item.
#[verifier::external_body]
fn use_model(tree: &syn::UseTree) -> (r: UseModel) {
    match tree {
        syn::UseTree::Path(p) => UseModel::Path {
            ident: p.ident.to_string(),
            tree: Box::new(use_model(&p.tree)),
        },
        syn::UseTree::Name(n) => UseModel::Name(n.ident.to_string()),
        syn::UseTree::Rename(r) => UseModel::Rename {
            ident: r.ident.to_string(),
            rename: r.rename.to_string(),
        },
        syn::UseTree::Glob(_) => UseModel::Glob,
        syn::UseTree::Group(g) => UseModel::Group(g.items.iter().map(use_model).collect()),
    }
}

/// The items that `syn::visit` meets in a file, in its order.
struct ItemVisitor {
    models: Vec<ItemModel>,
}

impl<'ast> Visit<'ast> for ItemVisitor {
    /// Takes up a function, then goes on with `syn::visit::visit_item_fn`.
    #[verifier::external_body]
    fn visit_item_fn(&mut self, f: &'ast syn::ItemFn) {
        let mut visitor = CallVisitor { calls: Vec::new() };
        visitor.visit_block(&f.block);
        let (a, b) = (f.span().start(), f.span().end());
        self.models.push(ItemModel::Function(MethodModel {
            function: fn_model(&f.sig, &f.attrs, &f.vis, visitor.calls),
            span: Span::between(a.line, a.column, b.line, b.column),
        }));
        syn::visit::visit_item_fn(self, f);
    }

    /// Takes up an `impl` block, then goes on with `syn::visit::visit_item_impl`.
    #[verifier::external_body]
    fn visit_item_impl(&mut self, block: &'ast syn::ItemImpl) {
        self.models.push(ItemModel::Impl(impl_model(block)));
        syn::visit::visit_item_impl(self, block);
    }

    /// Takes up a `use` item, then goes on with `syn::visit::visit_item_use`.
    #[verifier::external_body]
    fn visit_item_use(&mut self, item: &'ast syn::ItemUse) {
        self.models.push(ItemModel::Use(use_model(&item.tree)));
        syn::visit::visit_item_use(self, item);
    }

    /// Takes up a struct, then goes on with `syn::visit::visit_item_struct`.
    #[verifier::external_body]
    fn visit_item_struct(&mut self, s: &'ast syn::ItemStruct) {
        let (a, b) = (s.span().start(), s.span().end());
        self.models.push(ItemModel::Struct {
            name: s.ident.to_string(),
            visibility: vis_model(&s.vis),
            span: Span::between(a.line, a.column, b.line, b.column),
        });
        syn::visit::visit_item_struct(self, s);
    }

    /// Takes up a trait, then goes on with `syn::visit::visit_item_trait`.
    #[verifier::external_body]
    fn visit_item_trait(&mut self, t: &'ast syn::ItemTrait) {
        let (a, b) = (t.span().start(), t.span().end());
        self.models.push(ItemModel::Trait {
            name: t.ident.to_string(),
            span: Span::between(a.line, a.column, b.line, b.column),
        });
        syn::visit::visit_item_trait(self, t);
    }
}

/// The functions, `impl` blocks, `use` items, structs and traits that `syn::parse_file` and
/// `syn::visit` find in a text, at any depth, each before those inside it; `None` where the text
/// does not parse.
pub uninterp spec fn source_models(content: Seq<char>) -> Option<Seq<ModelText>>;

/// Calls `syn::parse_file`, walks the file with `syn::visit` and converts the items that the walk
/// meets: the same for the same text every time.
#[verifier::external_body]
pub(crate) fn parse_models(content: &str) -> (r: Option<Vec<ItemModel>>)
    ensures
        opt_models(r) == source_models(content@),
{
    let mut visitor = ItemVisitor { models: Vec::new() };
    visitor.visit_file(&syn::parse_file(content).ok()?);
    Some(visitor.models)
}

} // verus!
