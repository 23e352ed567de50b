//! Declarations as the parser hands them over: the pieces of token text and
//! the flags that the signatures, names and line ranges of items are made
//! from.

use vstd::prelude::*;
use crate::metadata::RawVisibility;

verus! {

/// A documentation attribute with its text.
#[derive(Debug)]
pub struct DocAttr {
    /// Whether it documents what it stands in, not what follows it.
    pub inner: bool,
    pub text: String,
}

/// The condition of a conditional-compilation attribute.
#[derive(Debug)]
pub enum CfgAttr {
    /// A bare name, such as `test`.
    Name(String),
    /// An operator over conditions, such as `all(..)`, `any(..)` or
    /// `not(..)`: its name and the conditions it is applied to.
    List { op: String, args: Vec<CfgAttr> },
    /// Anything else, such as `feature = "x"`.
    Other,
}

/// The condition of a conditional-compilation attribute over character
/// sequences.
pub enum CfgAttrView {
    Name(Seq<char>),
    List { op: Seq<char>, args: Seq<CfgAttrView> },
    Other,
}

impl View for CfgAttr {
    type V = CfgAttrView;

    open spec fn view(&self) -> CfgAttrView
        decreases self,
    {
        match *self {
            CfgAttr::Name(name) => CfgAttrView::Name(name@),
            CfgAttr::List { op, args } => CfgAttrView::List { op: op@, args: cfg_views(args@) },
            CfgAttr::Other => CfgAttrView::Other,
        }
    }
}

/// The conditions over character sequences.
pub open spec fn cfg_views(attrs: Seq<CfgAttr>) -> Seq<CfgAttrView>
    decreases attrs,
{
    if attrs.len() == 0 {
        Seq::empty()
    } else {
        cfg_views(attrs.drop_last()).push(attrs.last()@)
    }
}

/// The views of conditions stand position by position.
pub proof fn lemma_cfg_views(attrs: Seq<CfgAttr>)
    ensures
        cfg_views(attrs).len() == attrs.len(),
        forall|i: int| 0 <= i < attrs.len() ==> #[trigger] cfg_views(attrs)[i] == attrs[i]@,
    decreases attrs.len(),
{
    if attrs.len() > 0 {
        lemma_cfg_views(attrs.drop_last());
        assert(cfg_views(attrs) == cfg_views(attrs.drop_last()).push(attrs.last()@));
    }
}

/// Where an item stands in its text.
#[derive(Debug)]
pub struct SpanParts {
    /// The line of the keyword that introduces the item, counted from 1.
    pub keyword_line: usize,
    /// The line on which each token of the item ends.
    pub token_end_lines: Vec<usize>,
    /// The item's tokens as text.
    pub rendered: String,
}

/// The generic parameters of a declaration.
#[derive(Debug)]
pub struct Generics {
    /// The number of parameters.
    pub params: usize,
    /// The token text of the parameters with their brackets.
    pub text: String,
    /// The token text of the `where` clause.
    pub where_clause: Option<String>,
}

/// The signature of a function or method.
#[derive(Debug)]
pub struct FnSig {
    pub constness: bool,
    pub asyncness: bool,
    pub unsafety: bool,
    pub ident: String,
    pub generics: Generics,
    /// The token text of each parameter.
    pub inputs: Vec<String>,
    /// The token text of the return type, where one is written.
    pub output: Option<String>,
}

/// A field with a name.
#[derive(Debug)]
pub struct NamedField {
    pub vis: RawVisibility,
    pub name: String,
    pub ty: String,
}

/// A field without a name.
#[derive(Debug)]
pub struct TupleField {
    pub vis: RawVisibility,
    pub ty: String,
}

/// The fields of a struct or of a variant.
#[derive(Debug)]
pub enum Fields {
    Named(Vec<NamedField>),
    Unnamed(Vec<TupleField>),
    Unit,
}

/// A variant of an enum.
#[derive(Debug)]
pub struct Variant {
    pub name: String,
    pub fields: Fields,
}

/// A member of an interface.
#[derive(Debug)]
pub enum TraitMember {
    Fn(FnSig),
    Type { ident: String, bounds: Vec<String> },
    Const { ident: String, ty: String },
    Other,
}

/// A member of an implementation block.
#[derive(Debug)]
pub enum ImplMember {
    Fn { vis: RawVisibility, sig: FnSig },
    Type { ident: String, ty: String },
    Const { ident: String, ty: String },
    Other,
}

/// The tree of an import.
#[derive(Debug)]
pub enum UseTree {
    /// A segment and what follows it.
    Path { ident: String, tree: Box<UseTree> },
    /// A name.
    Name(String),
    /// A name imported under another.
    Rename { ident: String, rename: String },
    /// The wildcard.
    Glob,
    /// A group in braces.
    Group(Vec<UseTree>),
}

/// What a declaration is, with the pieces that its signature is made from.
#[derive(Debug)]
pub enum RawKind {
    Fn { vis: RawVisibility, sig: FnSig },
    Struct { vis: RawVisibility, ident: String, generics: Generics, fields: Fields },
    Enum { vis: RawVisibility, ident: String, generics: Generics, variants: Vec<Variant> },
    Trait {
        vis: RawVisibility,
        unsafety: bool,
        ident: String,
        generics: Generics,
        supertraits: Vec<String>,
        members: Vec<TraitMember>,
    },
    Impl {
        unsafety: bool,
        generics: Generics,
        negative: bool,
        trait_path: Option<String>,
        self_ty: String,
        members: Vec<ImplMember>,
    },
    Type { vis: RawVisibility, ident: String, ty: String },
    Const { vis: RawVisibility, ident: String, ty: String },
    Static { vis: RawVisibility, mutable: bool, ident: String, ty: String },
    Macro { ident: Option<String> },
    Use { public: bool, tree_text: String, tree: UseTree },
    /// Anything else: it is no item of the index.
    Other,
}

/// A declaration of a source text.
#[derive(Debug)]
pub struct RawItem {
    /// The documentation attributes on the declaration, in their order.
    pub docs: Vec<DocAttr>,
    pub span: SpanParts,
    pub kind: RawKind,
}

/// A declaration as far as imports are collected from it.
#[derive(Debug)]
pub enum ScopeItem {
    /// An import.
    Use(UseTree),
    /// A module: the conditions of its conditional-compilation attributes
    /// and, where its body stands in the same text, what the body declares.
    Mod { cfg_attrs: Vec<CfgAttr>, body: Option<Vec<ScopeItem>> },
    /// Anything else.
    Other,
}

} // verus!
