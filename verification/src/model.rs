//! The package, its tree of modules, and the items that the modules declare.

use vstd::prelude::*;
use crate::text::{after_last, rfind_exec, str_views, strip_prefix, to_chars};

verus! {

/// What a package builds.
#[derive(Debug, Clone, Copy, PartialEq, Eq, Structural)]
pub enum CrateKind {
    Bin,
    Lib,
    ProcMacro,
}

/// Who may name an item.
#[derive(Debug, Clone, Copy, PartialEq, Eq, Structural)]
pub enum Visibility {
    Pub,
    PubCrate,
    PubSuper,
    Private,
}

/// What an item declares. An implementation block carries the type it is for
/// and, where it implements an interface, the interface's name.
#[derive(Debug, Clone, PartialEq, Eq)]
pub enum ItemKind {
    Function,
    Struct,
    Enum,
    Trait,
    Impl { self_ty: String, trait_name: Option<String> },
    TypeAlias,
    Const,
    Static,
    Macro,
    /// Re-exports only.
    Use,
}

/// One declaration of a module.
#[derive(Debug, Clone)]
pub struct Item {
    pub name: String,
    pub kind: ItemKind,
    pub visibility: Visibility,
    /// Signature text with the body stripped.
    pub signature: String,
    pub doc_comment: Option<String>,
    pub file_path: String,
    /// First line of the item, counted from 1.
    pub line_start: usize,
    /// Last line of the item, counted from 1.
    pub line_end: usize,
    /// Digest of exactly the lines that the item spans.
    pub content_hash: String,
}

/// One module of the tree, with the modules declared in it.
#[derive(Debug)]
pub struct Module {
    /// Module path, such as `crate::engine::eval`.
    pub path: String,
    pub file_path: String,
    pub file_hash: String,
    pub doc_comment: Option<String>,
    pub visibility: Visibility,
    /// The items in declaration order.
    pub items: Vec<Item>,
    /// The modules declared here, in declaration order.
    pub submodules: Vec<Module>,
    /// The import paths found in this module.
    pub use_statements: Vec<String>,
    /// Whether the module's body stands in its parent's file.
    pub is_inline: bool,
}

/// A package and the tree of its modules.
#[derive(Debug)]
pub struct CrateInfo {
    pub name: String,
    pub kind: CrateKind,
    pub edition: String,
    pub version: String,
    pub external_deps: Vec<String>,
    pub root_module: Module,
}

/// The separator between the segments of a module path.
pub open spec fn path_sep() -> Seq<char> {
    "::"@
}

/// The path of a module as reports show it: without the leading `crate::`.
pub open spec fn display_path(path: Seq<char>) -> Seq<char> {
    match strip_prefix(path, "crate::"@) {
        Some(rest) => rest,
        None => path,
    }
}

impl CrateKind {
    /// The name of the kind as reports print it.
    pub open spec fn label_spec(self) -> Seq<char> {
        match self {
            CrateKind::Bin => "bin"@,
            CrateKind::Lib => "lib"@,
            CrateKind::ProcMacro => "proc-macro"@,
        }
    }

    /// The name of the kind as reports print it.
    pub fn label(&self) -> (r: &'static str)
        ensures
            r@ == self.label_spec(),
    {
        match self {
            CrateKind::Bin => "bin",
            CrateKind::Lib => "lib",
            CrateKind::ProcMacro => "proc-macro",
        }
    }
}

impl Visibility {
    /// The visibility as the index records it.
    pub open spec fn label_spec(self) -> Seq<char> {
        match self {
            Visibility::Pub => "pub"@,
            Visibility::PubCrate => "pub(crate)"@,
            Visibility::PubSuper => "pub(super)"@,
            Visibility::Private => "private"@,
        }
    }

    /// What stands before a declaration of this visibility: nothing for a
    /// private one.
    pub open spec fn prefix_spec(self) -> Seq<char> {
        match self {
            Visibility::Pub => "pub "@,
            Visibility::PubCrate => "pub(crate) "@,
            Visibility::PubSuper => "pub(super) "@,
            Visibility::Private => ""@,
        }
    }

    /// The visibility as the index records it.
    pub fn label(&self) -> (r: &'static str)
        ensures
            r@ == self.label_spec(),
    {
        match self {
            Visibility::Pub => "pub",
            Visibility::PubCrate => "pub(crate)",
            Visibility::PubSuper => "pub(super)",
            Visibility::Private => "private",
        }
    }

    /// The prefix to use in output, or the empty string for private.
    pub fn prefix(&self) -> (r: &'static str)
        ensures
            r@ == self.prefix_spec(),
    {
        match self {
            Visibility::Pub => "pub ",
            Visibility::PubCrate => "pub(crate) ",
            Visibility::PubSuper => "pub(super) ",
            Visibility::Private => "",
        }
    }
}

impl ItemKind {
    /// The kind as the index records it.
    pub open spec fn label_spec(self) -> Seq<char> {
        match self {
            ItemKind::Function => "function"@,
            ItemKind::Struct => "struct"@,
            ItemKind::Enum => "enum"@,
            ItemKind::Trait => "trait"@,
            ItemKind::Impl { self_ty, trait_name } => match trait_name {
                Some(t) => "impl "@ + t@ + " for "@ + self_ty@,
                None => "impl "@ + self_ty@,
            },
            ItemKind::TypeAlias => "type_alias"@,
            ItemKind::Const => "const"@,
            ItemKind::Static => "static"@,
            ItemKind::Macro => "macro"@,
            ItemKind::Use => "use"@,
        }
    }

    /// The kind as the index records it.
    pub fn label(&self) -> (r: String)
        ensures
            r@ == self.label_spec(),
    {
        match self {
            ItemKind::Function => "function".to_string(),
            ItemKind::Struct => "struct".to_string(),
            ItemKind::Enum => "enum".to_string(),
            ItemKind::Trait => "trait".to_string(),
            ItemKind::Impl { self_ty, trait_name } => {
                let mut r = "impl ".to_string();
                match trait_name {
                    Some(t) => {
                        r.append(t.as_str());
                        r.append(" for ");
                    },
                    None => {},
                }
                r.append(self_ty.as_str());
                r
            },
            ItemKind::TypeAlias => "type_alias".to_string(),
            ItemKind::Const => "const".to_string(),
            ItemKind::Static => "static".to_string(),
            ItemKind::Macro => "macro".to_string(),
            ItemKind::Use => "use".to_string(),
        }
    }
}

/// The items of the modules of `mods` and of all modules below them, module
/// by module in the order of a walk that visits a module before its children.
pub open spec fn items_of(mods: Seq<Module>) -> Seq<Item>
    decreases mods,
{
    if mods.len() == 0 {
        Seq::empty()
    } else {
        items_of(mods.drop_last()) + mods.last().all_items_spec()
    }
}

/// The modules of `mods` and all modules below them, a module before its
/// children, children in declaration order.
pub open spec fn modules_of(mods: Seq<Module>) -> Seq<Module>
    decreases mods,
{
    if mods.len() == 0 {
        Seq::empty()
    } else {
        modules_of(mods.drop_last()) + mods.last().all_modules_spec()
    }
}

impl Module {
    /// The items of this module followed by those of the modules below it.
    pub open spec fn all_items_spec(&self) -> Seq<Item>
        decreases self,
    {
        self.items@ + items_of(self.submodules@)
    }

    /// This module followed by the modules below it.
    pub open spec fn all_modules_spec(&self) -> Seq<Module>
        decreases self,
    {
        seq![*self] + modules_of(self.submodules@)
    }

    /// The last segment of the path.
    pub open spec fn short_name_spec(&self) -> Seq<char> {
        after_last(self.path@, path_sep())
    }

    /// Collects the items of this module and of all modules below it.
    pub fn all_items(&self) -> (r: Vec<&Item>)
        ensures
            r@.map_values(|i: &Item| *i) == self.all_items_spec(),
        decreases self,
    {
        let mut r: Vec<&Item> = Vec::new();
        let mut i: usize = 0;
        while i < self.items.len()
            invariant
                i <= self.items.len(),
                r@.map_values(|i: &Item| *i) == self.items@.take(i as int),
            decreases self.items.len() - i,
        {
            r.push(&self.items[i]);
            assert(r@.map_values(|i: &Item| *i) =~= self.items@.take(i as int).push(
                self.items@[i as int],
            ));
            assert(self.items@.take(i + 1) =~= self.items@.take(i as int).push(
                self.items@[i as int],
            ));
            i += 1;
        }
        assert(self.items@.take(self.items.len() as int) =~= self.items@);
        let mut k: usize = 0;
        while k < self.submodules.len()
            invariant
                k <= self.submodules.len(),
                r@.map_values(|i: &Item| *i) == self.items@ + items_of(
                    self.submodules@.take(k as int),
                ),
            decreases self.submodules.len() - k,
        {
            let ghost before = r@.map_values(|i: &Item| *i);
            let mut sub = self.submodules[k].all_items();
            let ghost added = sub@.map_values(|i: &Item| *i);
            r.append(&mut sub);
            assert(r@.map_values(|i: &Item| *i) =~= before + added);
            assert(self.submodules@.take(k + 1).drop_last() =~= self.submodules@.take(k as int));
            k += 1;
        }
        assert(self.submodules@.take(self.submodules.len() as int) =~= self.submodules@);
        r
    }

    /// Collects this module and all modules below it.
    pub fn all_modules(&self) -> (r: Vec<&Module>)
        ensures
            r@.map_values(|m: &Module| *m) == self.all_modules_spec(),
        decreases self,
    {
        let mut r: Vec<&Module> = Vec::new();
        r.push(self);
        assert(r@.map_values(|m: &Module| *m) =~= seq![*self]);
        let mut k: usize = 0;
        while k < self.submodules.len()
            invariant
                k <= self.submodules.len(),
                r@.map_values(|m: &Module| *m) == seq![*self] + modules_of(
                    self.submodules@.take(k as int),
                ),
            decreases self.submodules.len() - k,
        {
            let ghost before = r@.map_values(|m: &Module| *m);
            let mut sub = self.submodules[k].all_modules();
            let ghost added = sub@.map_values(|m: &Module| *m);
            r.append(&mut sub);
            assert(r@.map_values(|m: &Module| *m) =~= before + added);
            assert(self.submodules@.take(k + 1).drop_last() =~= self.submodules@.take(k as int));
            k += 1;
        }
        assert(self.submodules@.take(self.submodules.len() as int) =~= self.submodules@);
        r
    }

    /// The short name of this module: the last segment of its path.
    pub fn short_name(&self) -> (r: &str)
        ensures
            r@ == self.short_name_spec(),
    {
        let chars = to_chars(self.path.as_str());
        let sep = to_chars("::");
        match rfind_exec(&chars, &sep) {
            Some(i) => self.path.as_str().substring_char(i + sep.len(), chars.len()),
            None => self.path.as_str(),
        }
    }
}

/// What an item declares, over character sequences.
pub enum ItemKindView {
    Function,
    Struct,
    Enum,
    Trait,
    Impl { self_ty: Seq<char>, trait_name: Option<Seq<char>> },
    TypeAlias,
    Const,
    Static,
    Macro,
    Use,
}

/// An item over character sequences.
pub struct ItemView {
    pub name: Seq<char>,
    pub kind: ItemKindView,
    pub visibility: Visibility,
    pub signature: Seq<char>,
    pub doc_comment: Option<Seq<char>>,
    pub file_path: Seq<char>,
    pub line_start: nat,
    pub line_end: nat,
    pub content_hash: Seq<char>,
}

/// A module and the modules below it, over character sequences.
pub struct ModuleView {
    pub path: Seq<char>,
    pub file_path: Seq<char>,
    pub file_hash: Seq<char>,
    pub doc_comment: Option<Seq<char>>,
    pub visibility: Visibility,
    pub items: Seq<ItemView>,
    pub submodules: Seq<ModuleView>,
    pub use_statements: Seq<Seq<char>>,
    pub is_inline: bool,
}

/// The characters of a text that may be absent.
pub open spec fn opt_view(s: Option<String>) -> Option<Seq<char>> {
    match s {
        Some(t) => Some(t@),
        None => None,
    }
}

impl View for ItemKind {
    type V = ItemKindView;

    open spec fn view(&self) -> ItemKindView {
        match *self {
            ItemKind::Function => ItemKindView::Function,
            ItemKind::Struct => ItemKindView::Struct,
            ItemKind::Enum => ItemKindView::Enum,
            ItemKind::Trait => ItemKindView::Trait,
            ItemKind::Impl { self_ty, trait_name } => ItemKindView::Impl {
                self_ty: self_ty@,
                trait_name: opt_view(trait_name),
            },
            ItemKind::TypeAlias => ItemKindView::TypeAlias,
            ItemKind::Const => ItemKindView::Const,
            ItemKind::Static => ItemKindView::Static,
            ItemKind::Macro => ItemKindView::Macro,
            ItemKind::Use => ItemKindView::Use,
        }
    }
}

impl View for Item {
    type V = ItemView;

    open spec fn view(&self) -> ItemView {
        ItemView {
            name: self.name@,
            kind: self.kind@,
            visibility: self.visibility,
            signature: self.signature@,
            doc_comment: opt_view(self.doc_comment),
            file_path: self.file_path@,
            line_start: self.line_start as nat,
            line_end: self.line_end as nat,
            content_hash: self.content_hash@,
        }
    }
}

/// The items over character sequences.
pub open spec fn item_views(items: Seq<Item>) -> Seq<ItemView> {
    items.map_values(|i: Item| i@)
}

/// The modules over character sequences.
pub open spec fn module_views(mods: Seq<Module>) -> Seq<ModuleView>
    decreases mods,
{
    if mods.len() == 0 {
        Seq::empty()
    } else {
        module_views(mods.drop_last()).push(mods.last()@)
    }
}

impl View for Module {
    type V = ModuleView;

    open spec fn view(&self) -> ModuleView
        decreases self,
    {
        ModuleView {
            path: self.path@,
            file_path: self.file_path@,
            file_hash: self.file_hash@,
            doc_comment: opt_view(self.doc_comment),
            visibility: self.visibility,
            items: item_views(self.items@),
            submodules: module_views(self.submodules@),
            use_statements: str_views(self.use_statements@),
            is_inline: self.is_inline,
        }
    }
}

} // verus!
