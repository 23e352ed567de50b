//! The resolver: from the declarations found in the source files to the tree
//! of modules.
//!
//! The root file becomes the module `crate`. Each module declaration in a
//! file becomes a child of the module that the file or the enclosing inline
//! module stands for, in declaration order, unless it carries a test-only
//! marker: such a declaration is left out with all that is below it. A
//! declaration whose body stands in the declaring file shares that file's
//! digest; one whose body stands in a file of its own has the digest of that
//! file. Where no file was found for a declaration, the declaration is left
//! out and a warning says so; a file that was found and could not be read or
//! parsed ends the resolution with an error, and so does a declaration for
//! which no file has been looked for.

use vstd::prelude::*;
use crate::hash::{digest_text, hash_file_contents};
use crate::model::{
    item_views, module_views, opt_view, Item, ItemView, Module, ModuleView, Visibility,
};
use crate::imports::{is_cfg_test, is_test_only};
use crate::parse::{check_spans, copy_opt, finish_items, finished_items, spans_fit};
use crate::source::{
    decl_views, part_views, Backing, BackingView, Loaded, LoadedView, ModBody, ModBodyView, ModDecl,
    ModDeclView, ParsedSource, ParsedSourceView, SourceUnitView,
};
use crate::syntax::cfg_views;
use crate::text::{copy_strs, str_views};

verus! {

/// A declared module for which no file was found.
#[derive(Debug, Clone)]
pub struct ResolutionWarning {
    /// The declared name.
    pub module: String,
    /// The file that holds the declaration.
    pub file: String,
}

/// Why a tree could not be resolved.
#[derive(Debug, Clone)]
pub enum ResolveError {
    /// A file could not be read.
    Io { file: String, message: String },
    /// A file could not be parsed.
    Parse { file: String, message: String },
    /// The tree is not complete: no file has been looked for yet for the
    /// module `module`, which is declared in `file`.
    Incomplete { module: String, file: String },
}

/// A warning over character sequences.
pub struct WarningView {
    pub module: Seq<char>,
    pub file: Seq<char>,
}

/// An error over character sequences.
pub enum ErrorView {
    Io { file: Seq<char>, message: Seq<char> },
    Parse { file: Seq<char>, message: Seq<char> },
    Incomplete { module: Seq<char>, file: Seq<char> },
}

impl View for ResolutionWarning {
    type V = WarningView;

    open spec fn view(&self) -> WarningView {
        WarningView { module: self.module@, file: self.file@ }
    }
}

impl View for ResolveError {
    type V = ErrorView;

    open spec fn view(&self) -> ErrorView {
        match *self {
            ResolveError::Io { file, message } => ErrorView::Io { file: file@, message: message@ },
            ResolveError::Parse { file, message } => ErrorView::Parse {
                file: file@,
                message: message@,
            },
            ResolveError::Incomplete { module, file } => ErrorView::Incomplete {
                module: module@,
                file: file@,
            },
        }
    }
}

/// The warnings over character sequences.
pub open spec fn warning_views(w: Seq<ResolutionWarning>) -> Seq<WarningView> {
    w.map_values(|x: ResolutionWarning| x@)
}

/// The parent of the declarations being resolved: its module path, the file
/// that holds them as it was opened and relative to the package root, and
/// that file's digest.
pub struct Parent {
    pub path: Seq<char>,
    pub file: Seq<char>,
    pub file_path: Seq<char>,
    pub file_hash: Seq<char>,
}

/// The path of the child `name` of the module `parent`.
pub open spec fn child_path(parent: Seq<char>, name: Seq<char>) -> Seq<char> {
    parent + "::"@ + name
}

/// The items of the parts of an inline module, finished: each part against
/// its own text.
pub open spec fn inline_items(parts: Seq<ParsedSourceView>, file: Seq<char>) -> Seq<ItemView>
    decreases parts.len(),
{
    if parts.len() == 0 {
        Seq::empty()
    } else {
        inline_items(parts.drop_last(), file) + finished_items(parts.last(), file)
    }
}

/// The module that a parsed file stands for under the path `path`, with the
/// warnings met on the way. The file's own documentation goes before that of
/// the declaration, `outer_doc`.
pub open spec fn resolve_unit(
    unit: SourceUnitView,
    path: Seq<char>,
    outer_doc: Option<Seq<char>>,
    visibility: Visibility,
) -> (Result<ModuleView, ErrorView>, Seq<WarningView>)
    decreases unit,
{
    let digest = digest_text(unit.parsed.source);
    let (subs, warnings) = resolve_decls(
        unit.decls,
        Parent { path: path, file: unit.file, file_path: unit.file_path, file_hash: digest },
    );
    (
        match subs {
            Ok(modules) => Ok(
                ModuleView {
                    path: path,
                    file_path: unit.file_path,
                    file_hash: digest,
                    doc_comment: if unit.doc_comment is Some {
                        unit.doc_comment
                    } else {
                        outer_doc
                    },
                    visibility: visibility,
                    items: finished_items(unit.parsed, unit.file),
                    submodules: modules,
                    use_statements: unit.use_statements,
                    is_inline: false,
                },
            ),
            Err(e) => Err(e),
        },
        warnings,
    )
}

/// The modules that the declarations `decls` of the parent stand for, in
/// declaration order, with the warnings met on the way; the first error ends
/// the walk.
pub open spec fn resolve_decls(decls: Seq<ModDeclView>, parent: Parent) -> (
    Result<Seq<ModuleView>, ErrorView>,
    Seq<WarningView>,
)
    decreases decls,
{
    if decls.len() == 0 {
        (Ok(Seq::empty()), Seq::empty())
    } else {
        let (head, w1) = resolve_decl(decls[0], parent);
        match head {
            Err(e) => (Err(e), w1),
            Ok(found) => {
                let (tail, w2) = resolve_decls(decls.drop_first(), parent);
                (
                    match tail {
                        Ok(modules) => Ok(
                            (match found {
                                Some(m) => seq![m],
                                None => Seq::empty(),
                            }) + modules,
                        ),
                        Err(e) => Err(e),
                    },
                    w1 + w2,
                )
            },
        }
    }
}

/// The module that one declaration stands for: none for a declaration with
/// the test-only marker, and none, with a warning, for one whose file was not
/// found. A declaration for which no file has been looked for is an error.
pub open spec fn resolve_decl(d: ModDeclView, parent: Parent) -> (
    Result<Option<ModuleView>, ErrorView>,
    Seq<WarningView>,
)
    decreases d,
{
    let path = child_path(parent.path, d.name);
    if is_test_only(d.cfg_attrs) {
        (Ok(None), Seq::empty())
    } else {
        match d.body {
            ModBodyView::Inline { parts, decls } => {
                let (subs, warnings) = resolve_decls(
                    decls,
                    Parent {
                        path: path,
                        file: parent.file,
                        file_path: parent.file_path,
                        file_hash: parent.file_hash,
                    },
                );
                (
                    match subs {
                        Ok(modules) => Ok(
                            Some(
                                ModuleView {
                                    path: path,
                                    file_path: parent.file_path,
                                    file_hash: parent.file_hash,
                                    doc_comment: d.doc_comment,
                                    visibility: d.visibility,
                                    items: inline_items(parts, parent.file),
                                    submodules: modules,
                                    use_statements: Seq::empty(),
                                    is_inline: true,
                                },
                            ),
                        ),
                        Err(e) => Err(e),
                    },
                    warnings,
                )
            },
            ModBodyView::External(BackingView::Missing) => (
                Ok(None),
                seq![WarningView { module: d.name, file: parent.file }],
            ),
            ModBodyView::External(BackingView::Unresolved) => (
                Err(ErrorView::Incomplete { module: d.name, file: parent.file }),
                Seq::empty(),
            ),
            ModBodyView::External(BackingView::Found(loaded)) => {
                let (m, warnings) = resolve_loaded(loaded, path, d.doc_comment, d.visibility);
                (
                    match m {
                        Ok(module) => Ok(Some(module)),
                        Err(e) => Err(e),
                    },
                    warnings,
                )
            },
        }
    }
}

/// The module that a file stands for under the path `path`: an error where
/// the file could not be read or parsed.
pub open spec fn resolve_loaded(
    loaded: LoadedView,
    path: Seq<char>,
    outer_doc: Option<Seq<char>>,
    visibility: Visibility,
) -> (Result<ModuleView, ErrorView>, Seq<WarningView>)
    decreases loaded,
{
    match loaded {
        LoadedView::Unreadable { file, message } => (
            Err(ErrorView::Io { file: file, message: message }),
            Seq::empty(),
        ),
        LoadedView::Unparsable { file, message } => (
            Err(ErrorView::Parse { file: file, message: message }),
            Seq::empty(),
        ),
        LoadedView::Parsed(unit) => resolve_unit(unit, path, outer_doc, visibility),
    }
}

/// The tree of the package whose root file is `root`: the module `crate`.
pub open spec fn resolve_root(root: LoadedView) -> (
    Result<ModuleView, ErrorView>,
    Seq<WarningView>,
) {
    resolve_loaded(root, "crate"@, None, Visibility::Pub)
}

/// Whether the line ranges of all items that the resolver reads below the
/// declarations `decls` lie in their texts.
pub open spec fn decls_fit(decls: Seq<ModDeclView>) -> bool
    decreases decls,
{
    forall|i: int| 0 <= i < decls.len() ==> decl_fits(#[trigger] decls[i])
}

/// Whether the line ranges of all items that the resolver reads for one
/// declaration lie in their texts. It reads nothing of a declaration with the
/// test-only marker.
pub open spec fn decl_fits(d: ModDeclView) -> bool
    decreases d,
{
    is_test_only(d.cfg_attrs) || match d.body {
        ModBodyView::Inline { parts, decls } => (forall|i: int|
            0 <= i < parts.len() ==> spans_fit(#[trigger] parts[i])) && decls_fit(decls),
        ModBodyView::External(BackingView::Missing) => true,
        ModBodyView::External(BackingView::Unresolved) => true,
        ModBodyView::External(BackingView::Found(loaded)) => loaded_fits(loaded),
    }
}

/// Whether the line ranges of all items that the resolver reads of a file
/// and below it lie in their texts.
pub open spec fn loaded_fits(loaded: LoadedView) -> bool
    decreases loaded,
{
    match loaded {
        LoadedView::Parsed(unit) => spans_fit(unit.parsed) && decls_fit(unit.decls),
        _ => true,
    }
}

/// The views of declarations stand position by position.
pub proof fn lemma_decl_views(decls: Seq<ModDecl>)
    ensures
        decl_views(decls).len() == decls.len(),
        forall|i: int| 0 <= i < decls.len() ==> #[trigger] decl_views(decls)[i] == decls[i]@,
    decreases decls.len(),
{
    if decls.len() > 0 {
        lemma_decl_views(decls.drop_last());
        assert(decl_views(decls) == decl_views(decls.drop_last()).push(decls.last()@));
    }
}

/// The views of modules stand position by position.
pub proof fn lemma_module_views(mods: Seq<Module>)
    ensures
        module_views(mods).len() == mods.len(),
        forall|i: int| 0 <= i < mods.len() ==> #[trigger] module_views(mods)[i] == mods[i]@,
    decreases mods.len(),
{
    if mods.len() > 0 {
        lemma_module_views(mods.drop_last());
        assert(module_views(mods) == module_views(mods.drop_last()).push(mods.last()@));
    }
}

/// The view of a declaration is made of the views of its parts.
proof fn lemma_decl_view(d: ModDecl)
    ensures
        d@.name == d.name@,
        d@.visibility == d.visibility,
        d@.doc_comment == opt_view(d.doc_comment),
        d@.cfg_attrs == cfg_views(d.cfg_attrs@),
        match d.body {
            ModBody::Inline { parts, decls } => d@.body == (ModBodyView::Inline {
                parts: part_views(parts@),
                decls: decl_views(decls@),
            }),
            ModBody::External(Backing::Missing) => d@.body == ModBodyView::External(
                BackingView::Missing,
            ),
            ModBody::External(Backing::Unresolved) => d@.body == ModBodyView::External(
                BackingView::Unresolved,
            ),
            ModBody::External(Backing::Found(loaded)) => d@.body == ModBodyView::External(
                BackingView::Found(loaded@),
            ),
        },
{
    assert(d@.body == d.body@);
    match d.body {
        ModBody::External(backing) => {
            assert(d.body@ == ModBodyView::External(backing@));
        },
        _ => {},
    }
}

/// The view of what was found for a file is made of the views of its parts.
proof fn lemma_loaded_view(loaded: Loaded)
    ensures
        match loaded {
            Loaded::Unreadable { file, message } => loaded@ == (LoadedView::Unreadable {
                file: file@,
                message: message@,
            }),
            Loaded::Unparsable { file, message } => loaded@ == (LoadedView::Unparsable {
                file: file@,
                message: message@,
            }),
            Loaded::Parsed(unit) => loaded@ == LoadedView::Parsed(unit@) && unit@.file == unit.file@
                && unit@.file_path == unit.file_path@ && unit@.parsed == unit.parsed@
                && unit@.doc_comment == opt_view(unit.doc_comment) && unit@.use_statements
                == str_views(unit.use_statements@) && unit@.decls == decl_views(unit.decls@),
        },
{
}

/// The outcome for a list of declarations that is not empty, from that for
/// its first and that for the rest.
proof fn lemma_resolve_decls_step(decls: Seq<ModDeclView>, parent: Parent)
    requires
        decls.len() > 0,
    ensures
        ({
            let step = resolve_decl(decls[0], parent);
            let tail = resolve_decls(decls.drop_first(), parent);
            resolve_decls(decls, parent) == match step.0 {
                Err(e) => (Err::<Seq<ModuleView>, ErrorView>(e), step.1),
                Ok(found) => (
                    match tail.0 {
                        Ok(modules) => Ok(
                            (match found {
                                Some(m) => seq![m],
                                None => Seq::empty(),
                            }) + modules,
                        ),
                        Err(e) => Err(e),
                    },
                    step.1 + tail.1,
                ),
            }
        }),
{
}

/// Whether the line range of each item of each parsed text lies in its text.
pub fn check_parts(parts: &Vec<ParsedSource>) -> (r: bool)
    ensures
        r == forall|j: int| 0 <= j < parts.len() ==> spans_fit(#[trigger] part_views(parts@)[j]),
{
    let mut k: usize = 0;
    while k < parts.len()
        invariant
            k <= parts.len(),
            forall|j: int| 0 <= j < k ==> spans_fit(#[trigger] part_views(parts@)[j]),
        decreases parts.len() - k,
    {
        assert(part_views(parts@)[k as int] == parts@[k as int]@);
        if !check_spans(&parts[k]) {
            return false;
        }
        k += 1;
    }
    true
}

/// Whether the line ranges of all items that the resolver reads below the
/// declarations lie in their texts.
pub fn check_decls(decls: &Vec<ModDecl>) -> (r: bool)
    ensures
        r == decls_fit(decl_views(decls@)),
    decreases decls,
{
    proof {
        lemma_decl_views(decls@);
    }
    let ghost dv = decl_views(decls@);
    let mut i: usize = 0;
    while i < decls.len()
        invariant
            i <= decls.len(),
            dv == decl_views(decls@),
            dv.len() == decls.len(),
            forall|j: int| 0 <= j < decls.len() ==> #[trigger] dv[j] == decls@[j]@,
            forall|j: int| 0 <= j < i ==> decl_fits(#[trigger] dv[j]),
        decreases decls.len() - i,
    {
        let d = &decls[i];
        assert(dv[i as int] == d@);
        proof {
            lemma_decl_view(*d);
        }
        let fits = if is_cfg_test(&d.cfg_attrs) {
            true
        } else {
            match &d.body {
                ModBody::Inline { parts, decls: inner } => {
                    let r = check_parts(parts) && check_decls(inner);
                    assert(decl_fits(d@) == ((forall|j: int|
                        0 <= j < part_views(parts@).len() ==> spans_fit(
                            #[trigger] part_views(parts@)[j],
                        )) && decls_fit(decl_views(inner@))));
                    r
                },
                ModBody::External(Backing::Missing) => true,
                ModBody::External(Backing::Unresolved) => true,
                ModBody::External(Backing::Found(loaded)) => check_loaded(loaded),
            }
        };
        assert(fits == decl_fits(d@));
        if !fits {
            return false;
        }
        i += 1;
    }
    true
}

/// Whether the line ranges of all items that the resolver reads of a file
/// and below it lie in their texts.
pub fn check_loaded(loaded: &Loaded) -> (r: bool)
    ensures
        r == loaded_fits(loaded@),
    decreases loaded,
{
    proof {
        lemma_loaded_view(*loaded);
    }
    match loaded {
        Loaded::Parsed(unit) => check_spans(&unit.parsed) && check_decls(&unit.decls),
        _ => true,
    }
}

/// What has been resolved of a list of declarations, `modules` and
/// `warnings`, put before the outcome for the rest of the list.
pub open spec fn after(
    modules: Seq<ModuleView>,
    warnings: Seq<WarningView>,
    rest: (Result<Seq<ModuleView>, ErrorView>, Seq<WarningView>),
) -> (Result<Seq<ModuleView>, ErrorView>, Seq<WarningView>) {
    (
        match rest.0 {
            Ok(more) => Ok(modules + more),
            Err(e) => Err(e),
        },
        warnings + rest.1,
    )
}

/// Resolves the module declarations of a parent into its child modules, in
/// declaration order.
///
/// `parent_path` is the module path of the parent; `parent_file` is the file
/// that holds the declarations, as it was opened, and `parent_file_path` the
/// same file relative to the package root; `parent_hash` is that file's
/// digest. Warnings are appended to `diagnostics`, also where the resolution
/// ends with an error.
pub fn resolve_submodules(
    decls: &Vec<ModDecl>,
    parent_path: &str,
    parent_file: &str,
    parent_file_path: &str,
    parent_hash: &str,
    diagnostics: &mut Vec<ResolutionWarning>,
) -> (r: Result<Vec<Module>, ResolveError>)
    requires
        decls_fit(decl_views(decls@)),
    ensures
        ({
            let outcome = resolve_decls(
                decl_views(decls@),
                Parent {
                    path: parent_path@,
                    file: parent_file@,
                    file_path: parent_file_path@,
                    file_hash: parent_hash@,
                },
            );
            &&& warning_views(final(diagnostics)@) == warning_views(old(diagnostics)@) + outcome.1
            &&& match r {
                Ok(modules) => outcome.0 == Ok::<Seq<ModuleView>, ErrorView>(
                    module_views(modules@),
                ),
                Err(e) => outcome.0 == Err::<Seq<ModuleView>, ErrorView>(e@),
            }
        }),
    decreases decls,
{
    let ghost parent = Parent {
        path: parent_path@,
        file: parent_file@,
        file_path: parent_file_path@,
        file_hash: parent_hash@,
    };
    let ghost dv = decl_views(decls@);
    let ghost w0 = warning_views(diagnostics@);
    proof {
        lemma_decl_views(decls@);
    }
    let mut modules: Vec<Module> = Vec::new();
    let ghost mut warned: Seq<WarningView> = Seq::empty();
    let mut i: usize = 0;
    proof {
        assert(dv.skip(0) =~= dv);
        let rest = resolve_decls(dv, parent);
        assert(module_views(modules@) =~= Seq::<ModuleView>::empty());
        assert(after(module_views(modules@), warned, rest).1 =~= rest.1);
        match rest.0 {
            Ok(more) => {
                assert(module_views(modules@) + more =~= more);
            },
            Err(e) => {},
        }
        assert(w0 + warned =~= w0);
    }
    while i < decls.len()
        invariant
            i <= decls.len(),
            dv == decl_views(decls@),
            dv.len() == decls.len(),
            decls_fit(dv),
            forall|j: int| 0 <= j < decls.len() ==> #[trigger] dv[j] == decls@[j]@,
            parent == (Parent {
                path: parent_path@,
                file: parent_file@,
                file_path: parent_file_path@,
                file_hash: parent_hash@,
            }),
            w0 == warning_views(old(diagnostics)@),
            warning_views(diagnostics@) == w0 + warned,
            resolve_decls(dv, parent) == after(
                module_views(modules@),
                warned,
                resolve_decls(dv.skip(i as int), parent),
            ),
        decreases decls.len() - i,
    {
        let d = &decls[i];
        let ghost rest = dv.skip(i as int);
        let ghost found = module_views(modules@);
        let ghost step = resolve_decl(d@, parent);
        let ghost tail = resolve_decls(dv.skip(i + 1), parent);
        proof {
            assert(rest[0] == d@);
            assert(rest.drop_first() =~= dv.skip(i + 1));
            assert(decl_fits(dv[i as int]));
            lemma_decl_view(*d);
            lemma_resolve_decls_step(rest, parent);
        }
        let ghost shown = warning_views(diagnostics@);
        let mut child_path = parent_path.to_string();
        child_path.append("::");
        child_path.append(d.name.as_str());
        let child: Result<Option<Module>, ResolveError> = if is_cfg_test(&d.cfg_attrs) {
            assert(shown + step.1 =~= shown);
            Ok(None)
        } else {
            match &d.body {
                ModBody::Inline { parts, decls: inner } => {
                    let mut items: Vec<Item> = Vec::new();
                    let mut k: usize = 0;
                    assert(item_views(items@) =~= inline_items(
                        part_views(parts@).take(0),
                        parent_file@,
                    ));
                    while k < parts.len()
                        invariant
                            k <= parts.len(),
                            forall|j: int|
                                0 <= j < parts.len() ==> spans_fit(
                                    #[trigger] part_views(parts@)[j],
                                ),
                            item_views(items@) == inline_items(
                                part_views(parts@).take(k as int),
                                parent_file@,
                            ),
                        decreases parts.len() - k,
                    {
                        assert(part_views(parts@).take(k + 1).drop_last() =~= part_views(
                            parts@,
                        ).take(k as int));
                        assert(part_views(parts@)[k as int] == parts@[k as int]@);
                        finish_items(&parts[k], parent_file, &mut items);
                        k += 1;
                    }
                    assert(part_views(parts@).take(parts.len() as int) =~= part_views(parts@));
                    match resolve_submodules(
                        inner,
                        child_path.as_str(),
                        parent_file,
                        parent_file_path,
                        parent_hash,
                        diagnostics,
                    ) {
                        Ok(subs) => {
                            let m = Module {
                                path: child_path,
                                file_path: parent_file_path.to_string(),
                                file_hash: parent_hash.to_string(),
                                doc_comment: copy_opt(&d.doc_comment),
                                visibility: d.visibility,
                                items: items,
                                submodules: subs,
                                use_statements: Vec::new(),
                                is_inline: true,
                            };
                            assert(str_views(m.use_statements@) =~= Seq::<Seq<char>>::empty());
                            assert(step.0 == Ok::<Option<ModuleView>, ErrorView>(Some(m@)));
                            Ok(Some(m))
                        },
                        Err(e) => Err(e),
                    }
                },
                ModBody::External(Backing::Unresolved) => {
                    assert(shown + Seq::<WarningView>::empty() =~= shown);
                    Err(
                        ResolveError::Incomplete {
                            module: d.name.clone(),
                            file: parent_file.to_string(),
                        },
                    )
                },
                ModBody::External(Backing::Missing) => {
                    diagnostics.push(
                        ResolutionWarning {
                            module: d.name.clone(),
                            file: parent_file.to_string(),
                        },
                    );
                    assert(warning_views(diagnostics@) =~= shown + step.1);
                    Ok(None)
                },
                ModBody::External(Backing::Found(loaded)) => {
                    match resolve_file(
                        loaded,
                        child_path,
                        &d.doc_comment,
                        d.visibility,
                        diagnostics,
                    ) {
                        Ok(m) => Ok(Some(m)),
                        Err(e) => Err(e),
                    }
                },
            }
        };
        assert(warning_views(diagnostics@) == shown + step.1);
        proof {
            assert((w0 + warned) + step.1 =~= w0 + (warned + step.1));
            assert(warned + (step.1 + tail.1) =~= (warned + step.1) + tail.1);
        }
        match child {
            Err(e) => {
                assert(step.0 == Err::<Option<ModuleView>, ErrorView>(e@));
                return Err(e);
            },
            Ok(None) => {
                proof {
                    assert(step.0 == Ok::<Option<ModuleView>, ErrorView>(None));
                    match tail.0 {
                        Ok(more) => {
                            assert(found + (Seq::<ModuleView>::empty() + more) =~= found + more);
                        },
                        Err(e) => {},
                    }
                    warned = warned + step.1;
                }
            },
            Ok(Some(m)) => {
                proof {
                    assert(step.0 == Ok::<Option<ModuleView>, ErrorView>(Some(m@)));
                    match tail.0 {
                        Ok(more) => {
                            assert(found + (seq![m@] + more) =~= found.push(m@) + more);
                        },
                        Err(e) => {},
                    }
                    warned = warned + step.1;
                }
                let ghost earlier = modules@;
                modules.push(m);
                assert(modules@.drop_last() =~= earlier);
                assert(module_views(modules@) == module_views(earlier).push(m@));
            },
        }
        i += 1;
    }
    proof {
        assert(dv.skip(decls.len() as int) =~= Seq::<ModDeclView>::empty());
        assert(module_views(modules@) + Seq::<ModuleView>::empty() =~= module_views(modules@));
        assert(warned + Seq::<WarningView>::empty() =~= warned);
    }
    Ok(modules)
}

/// Resolves what was found for a file into the module it stands for under
/// the path `path`.
pub fn resolve_file(
    loaded: &Loaded,
    path: String,
    outer_doc: &Option<String>,
    visibility: Visibility,
    diagnostics: &mut Vec<ResolutionWarning>,
) -> (r: Result<Module, ResolveError>)
    requires
        loaded_fits(loaded@),
    ensures
        ({
            let outcome = resolve_loaded(loaded@, path@, opt_view(*outer_doc), visibility);
            &&& warning_views(final(diagnostics)@) == warning_views(old(diagnostics)@) + outcome.1
            &&& match r {
                Ok(module) => outcome.0 == Ok::<ModuleView, ErrorView>(module@),
                Err(e) => outcome.0 == Err::<ModuleView, ErrorView>(e@),
            }
        }),
    decreases loaded,
{
    let ghost shown = warning_views(diagnostics@);
    proof {
        lemma_loaded_view(*loaded);
    }
    match loaded {
        Loaded::Unreadable { file, message } => {
            assert(shown + Seq::<WarningView>::empty() =~= shown);
            Err(ResolveError::Io { file: file.clone(), message: message.clone() })
        },
        Loaded::Unparsable { file, message } => {
            assert(shown + Seq::<WarningView>::empty() =~= shown);
            Err(ResolveError::Parse { file: file.clone(), message: message.clone() })
        },
        Loaded::Parsed(unit) => {
            let digest = hash_file_contents(unit.parsed.source.as_str());
            let mut items: Vec<Item> = Vec::new();
            assert(item_views(items@) =~= Seq::<ItemView>::empty());
            finish_items(&unit.parsed, unit.file.as_str(), &mut items);
            assert(item_views(items@) =~= finished_items(unit@.parsed, unit@.file));
            match resolve_submodules(
                &unit.decls,
                path.as_str(),
                unit.file.as_str(),
                unit.file_path.as_str(),
                digest.as_str(),
                diagnostics,
            ) {
                Ok(subs) => {
                    let doc = match &unit.doc_comment {
                        Some(inner) => Some(inner.clone()),
                        None => copy_opt(outer_doc),
                    };
                    Ok(
                        Module {
                            path: path,
                            file_path: unit.file_path.clone(),
                            file_hash: digest,
                            doc_comment: doc,
                            visibility: visibility,
                            items: items,
                            submodules: subs,
                            use_statements: copy_strs(&unit.use_statements),
                            is_inline: false,
                        },
                    )
                },
                Err(e) => Err(e),
            }
        },
    }
}

/// Builds the complete module tree of a package from what was found for its
/// root file.
///
/// Succeeds unless the root file, or a file found for a declaration that is
/// read, could not be read or parsed, or no file has been looked for yet for
/// a declaration that is read; the error is the first of these in
/// declaration order. Warnings are appended to `diagnostics` in either case.
pub fn resolve_module_tree(root: &Loaded, diagnostics: &mut Vec<ResolutionWarning>) -> (r: Result<
    Module,
    ResolveError,
>)
    requires
        loaded_fits(root@),
    ensures
        warning_views(final(diagnostics)@) == warning_views(old(diagnostics)@) + resolve_root(
            root@,
        ).1,
        match r {
            Ok(module) => resolve_root(root@).0 == Ok::<ModuleView, ErrorView>(module@) && tree_ok(
                module@,
            ) && module@.path == "crate"@,
            Err(e) => resolve_root(root@).0 == Err::<ModuleView, ErrorView>(e@),
        },
{
    proof {
        lemma_resolved_root(root@);
    }
    let none: Option<String> = None;
    resolve_file(root, "crate".to_string(), &none, Visibility::Pub, diagnostics)
}

/// The files that may hold the body of the module `name`, relative to the
/// directory of the declaring file, in the order in which they are tried:
/// the file of an explicit path attribute where there is one, the file named
/// after the module, and the file `mod.rs` in the directory named after it.
pub open spec fn candidates(name: Seq<char>, custom: Option<Seq<char>>) -> Seq<Seq<char>> {
    (match custom {
        Some(c) => seq![c],
        None => Seq::empty(),
    }) + seq![name + ".rs"@, name + "/mod.rs"@]
}

/// The files that may hold the body of the module `mod_name`, in the order
/// in which they are tried.
pub fn mod_file_candidates(mod_name: &str, custom_path: Option<&str>) -> (r: Vec<String>)
    ensures
        str_views(r@) == candidates(mod_name@, option_str_view(custom_path)),
{
    let mut r: Vec<String> = Vec::new();
    match custom_path {
        Some(c) => {
            r.push(c.to_string());
        },
        None => {},
    }
    let mut beside = mod_name.to_string();
    beside.append(".rs");
    r.push(beside);
    let mut below = mod_name.to_string();
    below.append("/mod.rs");
    r.push(below);
    assert(str_views(r@) =~= candidates(mod_name@, option_str_view(custom_path)));
    r
}

/// The characters of a string slice that may be absent.
pub open spec fn option_str_view(s: Option<&str>) -> Option<Seq<char>> {
    match s {
        Some(t) => Some(t@),
        None => None,
    }
}

/// Whether the probe `probe` may answer `answer` when asked for the file
/// `file`.
pub open spec fn answers<F: Fn(&str) -> bool>(probe: F, file: Seq<char>, answer: bool) -> bool {
    exists|s: &str| s@ == file && probe.ensures((s,), answer)
}

/// Resolves the file of a declaration `mod name;`: the first candidate for
/// which the probe says that it exists, and none where it says so of no
/// candidate. The probe is asked for the candidates in their order, and for
/// none after the one that exists.
pub fn resolve_mod_file<F: Fn(&str) -> bool>(
    mod_name: &str,
    custom_path: Option<&str>,
    probe: F,
) -> (r: Option<String>)
    requires
        forall|s: &str| #[trigger] probe.requires((s,)),
    ensures
        ({
            let files = candidates(mod_name@, option_str_view(custom_path));
            match r {
                Some(file) => exists|k: int|
                    0 <= k < files.len() && #[trigger] files[k] == file@ && answers(
                        probe,
                        files[k],
                        true,
                    ) && forall|j: int| 0 <= j < k ==> answers(probe, #[trigger] files[j], false),
                None => forall|j: int|
                    0 <= j < files.len() ==> answers(probe, #[trigger] files[j], false),
            }
        }),
{
    let files = mod_file_candidates(mod_name, custom_path);
    let ghost names = candidates(mod_name@, option_str_view(custom_path));
    let mut i: usize = 0;
    while i < files.len()
        invariant
            i <= files.len(),
            names == str_views(files@),
            names == candidates(mod_name@, option_str_view(custom_path)),
            forall|s: &str| #[trigger] probe.requires((s,)),
            forall|j: int| 0 <= j < i ==> answers(probe, #[trigger] names[j], false),
        decreases files.len() - i,
    {
        assert(names[i as int] == files@[i as int]@);
        let found = probe(files[i].as_str());
        assert(answers(probe, names[i as int], found));
        if found {
            let file = files[i].clone();
            assert(names[i as int] == file@);
            return Some(file);
        }
        i += 1;
    }
    None
}

/// Resolving an unchanged source tree again gives the same outcome: the same
/// paths, signatures and digests, the same warnings, the same error.
pub proof fn lemma_resolution_repeats(first: Loaded, second: Loaded)
    requires
        first@ == second@,
    ensures
        resolve_root(first@) == resolve_root(second@),
{
}

/// Whether the tree below the module `m` hangs together: the path of each
/// child is the path of `m`, the separator and a name; a child whose body
/// stands in its parent's file has the file and the digest of its parent;
/// and the same holds below each child.
pub open spec fn tree_ok(m: ModuleView) -> bool
    decreases m,
{
    forall|i: int|
        0 <= i < m.submodules.len() ==> {
            let c = #[trigger] m.submodules[i];
            &&& exists|name: Seq<char>| c.path == child_path(m.path, name)
            &&& c.is_inline ==> c.file_hash == m.file_hash && c.file_path == m.file_path
            &&& tree_ok(c)
        }
}

/// Whether each of the modules `mods` stands for a declaration of `decls`
/// that does not carry the test-only marker, under the parent's path and the
/// declared name.
pub open spec fn from_live_decls(
    mods: Seq<ModuleView>,
    decls: Seq<ModDeclView>,
    parent: Seq<char>,
) -> bool {
    forall|j: int|
        0 <= j < mods.len() ==> exists|i: int|
            0 <= i < decls.len() && !is_test_only(decls[i].cfg_attrs) && (#[trigger] mods[j]).path
                == child_path(parent, (#[trigger] decls[i]).name)
}

/// Whether each of the modules `mods` is a well-formed child of the parent:
/// under its path, with its file and digest where the child is inline, and
/// hanging together below.
pub open spec fn children_ok(mods: Seq<ModuleView>, parent: Parent) -> bool {
    forall|j: int|
        0 <= j < mods.len() ==> {
            let c = #[trigger] mods[j];
            &&& exists|name: Seq<char>| c.path == child_path(parent.path, name)
            &&& c.is_inline ==> c.file_hash == parent.file_hash && c.file_path == parent.file_path
            &&& tree_ok(c)
        }
}

/// The resolved tree hangs together, and a declaration with the test-only
/// marker leaves no module in it.
pub proof fn lemma_resolved_unit(
    unit: SourceUnitView,
    path: Seq<char>,
    outer_doc: Option<Seq<char>>,
    visibility: Visibility,
)
    ensures
        match resolve_unit(unit, path, outer_doc, visibility).0 {
            Ok(m) => tree_ok(m) && m.path == path && !m.is_inline && from_live_decls(
                m.submodules,
                unit.decls,
                path,
            ),
            Err(_) => true,
        },
    decreases unit,
{
    let digest = digest_text(unit.parsed.source);
    let parent = Parent { path: path, file: unit.file, file_path: unit.file_path, file_hash: digest };
    lemma_resolved_decls(unit.decls, parent);
    match resolve_unit(unit, path, outer_doc, visibility).0 {
        Ok(m) => {
            lemma_children_make_tree(m, parent);
        },
        Err(_) => {},
    }
}

/// A module whose children are well-formed children of it hangs together.
proof fn lemma_children_make_tree(m: ModuleView, parent: Parent)
    requires
        children_ok(m.submodules, parent),
        parent.path == m.path,
        parent.file_hash == m.file_hash,
        parent.file_path == m.file_path,
    ensures
        tree_ok(m),
{
    assert forall|i: int| 0 <= i < m.submodules.len() implies {
        let c = #[trigger] m.submodules[i];
        &&& exists|name: Seq<char>| c.path == child_path(m.path, name)
        &&& c.is_inline ==> c.file_hash == m.file_hash && c.file_path == m.file_path
        &&& tree_ok(c)
    } by {
        let c = m.submodules[i];
        assert(exists|name: Seq<char>| c.path == child_path(parent.path, name));
    }
}

/// The children resolved from declarations are well-formed, and each stands
/// for a declaration without the test-only marker.
pub proof fn lemma_resolved_decls(decls: Seq<ModDeclView>, parent: Parent)
    ensures
        match resolve_decls(decls, parent).0 {
            Ok(mods) => children_ok(mods, parent) && from_live_decls(mods, decls, parent.path),
            Err(_) => true,
        },
    decreases decls,
{
    if decls.len() > 0 {
        let (head, w1) = resolve_decl(decls[0], parent);
        lemma_resolved_decl(decls[0], parent);
        match head {
            Ok(found) => {
                let rest = decls.drop_first();
                lemma_resolved_decls(rest, parent);
                match resolve_decls(rest, parent).0 {
                    Ok(more) => {
                        let first: Seq<ModuleView> = match found {
                            Some(m) => seq![m],
                            None => Seq::empty(),
                        };
                        let mods = first + more;
                        assert forall|j: int| 0 <= j < mods.len() implies exists|i: int|
                            0 <= i < decls.len() && !is_test_only(decls[i].cfg_attrs) && (
                            #[trigger] mods[j]).path == child_path(
                                parent.path,
                                (#[trigger] decls[i]).name,
                            ) by {
                            if j < first.len() {
                                assert(mods[j].path == child_path(parent.path, decls[0].name));
                            } else {
                                let k = j - first.len();
                                assert(mods[j] == more[k]);
                                let i = choose|i: int|
                                    0 <= i < rest.len() && !is_test_only(rest[i].cfg_attrs)
                                        && (#[trigger] more[k]).path == child_path(
                                        parent.path,
                                        (#[trigger] rest[i]).name,
                                    );
                                assert(decls[i + 1] == rest[i]);
                            }
                        }
                        assert forall|j: int| 0 <= j < mods.len() implies {
                            let c = #[trigger] mods[j];
                            &&& exists|name: Seq<char>| c.path == child_path(parent.path, name)
                            &&& c.is_inline ==> c.file_hash == parent.file_hash && c.file_path
                                == parent.file_path
                            &&& tree_ok(c)
                        } by {
                            if j >= first.len() {
                                assert(mods[j] == more[j - first.len()]);
                            }
                        }
                    },
                    Err(_) => {},
                }
            },
            Err(_) => {},
        }
    }
}

/// The child resolved from one declaration is well-formed, and there is none
/// for a declaration with the test-only marker.
pub proof fn lemma_resolved_decl(d: ModDeclView, parent: Parent)
    ensures
        match resolve_decl(d, parent).0 {
            Ok(Some(m)) => {
                &&& !is_test_only(d.cfg_attrs)
                &&& m.path == child_path(parent.path, d.name)
                &&& m.is_inline ==> m.file_hash == parent.file_hash && m.file_path
                    == parent.file_path
                &&& tree_ok(m)
            },
            _ => true,
        },
        is_test_only(d.cfg_attrs) ==> resolve_decl(d, parent).0 == Ok::<
            Option<ModuleView>,
            ErrorView,
        >(None),
    decreases d,
{
    let path = child_path(parent.path, d.name);
    if !is_test_only(d.cfg_attrs) {
        match d.body {
            ModBodyView::Inline { parts, decls } => {
                let inner = Parent {
                    path: path,
                    file: parent.file,
                    file_path: parent.file_path,
                    file_hash: parent.file_hash,
                };
                lemma_resolved_decls(decls, inner);
                match resolve_decl(d, parent).0 {
                    Ok(Some(m)) => {
                        lemma_children_make_tree(m, inner);
                    },
                    _ => {},
                }
            },
            ModBodyView::External(BackingView::Missing) => {},
            ModBodyView::External(BackingView::Unresolved) => {},
            ModBodyView::External(BackingView::Found(loaded)) => {
                match loaded {
                    LoadedView::Parsed(unit) => {
                        lemma_resolved_unit(unit, path, d.doc_comment, d.visibility);
                    },
                    _ => {},
                }
            },
        }
    }
}

/// The tree of a package hangs together, and its root is the module `crate`.
pub proof fn lemma_resolved_root(root: LoadedView)
    ensures
        match resolve_root(root).0 {
            Ok(m) => tree_ok(m) && m.path == "crate"@,
            Err(_) => true,
        },
{
    match root {
        LoadedView::Parsed(unit) => {
            lemma_resolved_unit(unit, "crate"@, None, Visibility::Pub);
        },
        _ => {},
    }
}

} // verus!
