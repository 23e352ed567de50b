//! What the parser and the file system hand to the resolver: the items and
//! module declarations found in a source text, and for each declaration of a
//! module in a file of its own, what was found for it.

use vstd::prelude::*;
use crate::model::{opt_view, ItemKind, ItemKindView, Visibility};
use crate::syntax::{cfg_views, CfgAttr, CfgAttrView};
use crate::text::str_views;

verus! {

/// An item as the parser reports it: without a digest.
#[derive(Debug, Clone)]
pub struct ParsedItem {
    pub name: String,
    pub kind: ItemKind,
    pub visibility: Visibility,
    /// Signature text with the body stripped.
    pub signature: String,
    pub doc_comment: Option<String>,
    /// First line of the item in the parsed text, counted from 1.
    pub line_start: usize,
    /// Last line of the item in the parsed text, counted from 1.
    pub line_end: usize,
}

/// A text that was parsed, and the items found in it.
#[derive(Debug, Clone)]
pub struct ParsedSource {
    pub source: String,
    pub items: Vec<ParsedItem>,
}

/// What was found for a file that the resolver asked for.
#[derive(Debug)]
pub enum Loaded {
    /// The file could not be read.
    Unreadable { file: String, message: String },
    /// The file was read and could not be parsed.
    Unparsable { file: String, message: String },
    /// The file was read and parsed.
    Parsed(SourceUnit),
}

/// What stands behind the declaration of a module in a file of its own.
#[derive(Debug)]
pub enum Backing {
    /// No file has been looked for yet.
    Unresolved,
    /// None of the candidate files exists.
    Missing,
    /// The first candidate file that exists, and what was found in it.
    Found(Loaded),
}

/// The body of a module declaration.
#[derive(Debug)]
pub enum ModBody {
    /// The body stands in the declaring file: its items, each with the text
    /// it was parsed from, and the modules declared in it.
    Inline { parts: Vec<ParsedSource>, decls: Vec<ModDecl> },
    /// The body stands in a file of its own.
    External(Backing),
}

/// The declaration of a module.
#[derive(Debug)]
pub struct ModDecl {
    pub name: String,
    pub visibility: Visibility,
    pub doc_comment: Option<String>,
    /// The conditional-compilation attributes on the declaration.
    pub cfg_attrs: Vec<CfgAttr>,
    /// The file named by an explicit path attribute.
    pub path_override: Option<String>,
    pub body: ModBody,
}

/// A source file that was read and parsed.
#[derive(Debug)]
pub struct SourceUnit {
    /// The file as it was opened.
    pub file: String,
    /// The file relative to the package root.
    pub file_path: String,
    /// The text of the file and the items found in it.
    pub parsed: ParsedSource,
    /// The documentation that the file opens with.
    pub doc_comment: Option<String>,
    /// The import paths found in the file.
    pub use_statements: Vec<String>,
    /// The modules declared in the file, in declaration order.
    pub decls: Vec<ModDecl>,
}

/// A parsed item over character sequences.
pub struct ParsedItemView {
    pub name: Seq<char>,
    pub kind: ItemKindView,
    pub visibility: Visibility,
    pub signature: Seq<char>,
    pub doc_comment: Option<Seq<char>>,
    pub line_start: nat,
    pub line_end: nat,
}

/// A parsed text over character sequences.
pub struct ParsedSourceView {
    pub source: Seq<char>,
    pub items: Seq<ParsedItemView>,
}

/// What was found for a file, over character sequences.
pub enum LoadedView {
    Unreadable { file: Seq<char>, message: Seq<char> },
    Unparsable { file: Seq<char>, message: Seq<char> },
    Parsed(SourceUnitView),
}

/// What stands behind a declaration, over character sequences.
pub enum BackingView {
    Unresolved,
    Missing,
    Found(LoadedView),
}

/// The body of a declaration over character sequences.
pub enum ModBodyView {
    Inline { parts: Seq<ParsedSourceView>, decls: Seq<ModDeclView> },
    External(BackingView),
}

/// A declaration over character sequences.
pub struct ModDeclView {
    pub name: Seq<char>,
    pub visibility: Visibility,
    pub doc_comment: Option<Seq<char>>,
    pub cfg_attrs: Seq<CfgAttrView>,
    pub path_override: Option<Seq<char>>,
    pub body: ModBodyView,
}

/// A source file over character sequences.
pub struct SourceUnitView {
    pub file: Seq<char>,
    pub file_path: Seq<char>,
    pub parsed: ParsedSourceView,
    pub doc_comment: Option<Seq<char>>,
    pub use_statements: Seq<Seq<char>>,
    pub decls: Seq<ModDeclView>,
}

impl View for ParsedItem {
    type V = ParsedItemView;

    open spec fn view(&self) -> ParsedItemView {
        ParsedItemView {
            name: self.name@,
            kind: self.kind@,
            visibility: self.visibility,
            signature: self.signature@,
            doc_comment: opt_view(self.doc_comment),
            line_start: self.line_start as nat,
            line_end: self.line_end as nat,
        }
    }
}

impl View for ParsedSource {
    type V = ParsedSourceView;

    open spec fn view(&self) -> ParsedSourceView {
        ParsedSourceView {
            source: self.source@,
            items: self.items@.map_values(|i: ParsedItem| i@),
        }
    }
}

/// The parsed texts over character sequences.
pub open spec fn part_views(parts: Seq<ParsedSource>) -> Seq<ParsedSourceView> {
    parts.map_values(|p: ParsedSource| p@)
}

/// The declarations over character sequences.
pub open spec fn decl_views(decls: Seq<ModDecl>) -> Seq<ModDeclView>
    decreases decls,
{
    if decls.len() == 0 {
        Seq::empty()
    } else {
        decl_views(decls.drop_last()).push(decls.last()@)
    }
}

impl View for Loaded {
    type V = LoadedView;

    open spec fn view(&self) -> LoadedView
        decreases self,
    {
        match *self {
            Loaded::Unreadable { file, message } => LoadedView::Unreadable {
                file: file@,
                message: message@,
            },
            Loaded::Unparsable { file, message } => LoadedView::Unparsable {
                file: file@,
                message: message@,
            },
            Loaded::Parsed(unit) => LoadedView::Parsed(unit@),
        }
    }
}

impl View for Backing {
    type V = BackingView;

    open spec fn view(&self) -> BackingView
        decreases self,
    {
        match *self {
            Backing::Unresolved => BackingView::Unresolved,
            Backing::Missing => BackingView::Missing,
            Backing::Found(loaded) => BackingView::Found(loaded@),
        }
    }
}

impl View for ModBody {
    type V = ModBodyView;

    open spec fn view(&self) -> ModBodyView
        decreases self,
    {
        match *self {
            ModBody::Inline { parts, decls } => ModBodyView::Inline {
                parts: part_views(parts@),
                decls: decl_views(decls@),
            },
            ModBody::External(backing) => ModBodyView::External(backing@),
        }
    }
}

impl View for ModDecl {
    type V = ModDeclView;

    open spec fn view(&self) -> ModDeclView
        decreases self,
    {
        ModDeclView {
            name: self.name@,
            visibility: self.visibility,
            doc_comment: opt_view(self.doc_comment),
            cfg_attrs: cfg_views(self.cfg_attrs@),
            path_override: opt_view(self.path_override),
            body: self.body@,
        }
    }
}

impl View for SourceUnit {
    type V = SourceUnitView;

    open spec fn view(&self) -> SourceUnitView
        decreases self,
    {
        SourceUnitView {
            file: self.file@,
            file_path: self.file_path@,
            parsed: self.parsed@,
            doc_comment: opt_view(self.doc_comment),
            use_statements: str_views(self.use_statements@),
            decls: decl_views(self.decls@),
        }
    }
}

} // verus!
