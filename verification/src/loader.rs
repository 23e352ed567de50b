//! The order in which the files of a package are looked for and read.
//!
//! Reading files is not done here. The tree of what has been read so far says
//! which declaration wants its file next: the first, in the order in which
//! the resolver walks the tree, that no file has been looked for yet. A
//! declaration with the test-only marker wants none, and nothing is wanted
//! any more once a file that was found could not be read or parsed. What was
//! found for the declaration is put into the tree, and the tree says what is
//! wanted next.

use vstd::prelude::*;
use crate::model::opt_view;
use crate::imports::{is_cfg_test, is_test_only};
use crate::parse::copy_opt;
use crate::hash::digest_text;
use crate::model::Visibility;
use crate::resolve::{
    child_path, lemma_decl_views, resolve_decl, resolve_decls, resolve_loaded, resolve_root,
    ErrorView, Parent,
};
use crate::source::{
    decl_views, part_views, Backing, BackingView, Loaded, LoadedView, ModBody, ModBodyView, ModDecl,
    ModDeclView, SourceUnit, SourceUnitView,
};
use crate::syntax::cfg_views;

verus! {

/// What is to be done next for a tree.
#[derive(Debug)]
pub enum Request {
    /// Look for the file of the module `name`, which is declared in
    /// `parent_file`.
    Look { parent_file: String, name: String, path_override: Option<String> },
    /// Nothing: the tree is as complete as it gets.
    Done,
}

/// A request over character sequences.
pub enum RequestView {
    Look { parent_file: Seq<char>, name: Seq<char>, path_override: Option<Seq<char>> },
    Done,
}

impl View for Request {
    type V = RequestView;

    open spec fn view(&self) -> RequestView {
        match *self {
            Request::Look { parent_file, name, path_override } => RequestView::Look {
                parent_file: parent_file@,
                name: name@,
                path_override: opt_view(path_override),
            },
            Request::Done => RequestView::Done,
        }
    }
}

/// What a walk over a part of the tree comes upon first.
pub enum Scan {
    /// A declaration that no file has been looked for yet.
    Pending { parent_file: Seq<char>, name: Seq<char>, path_override: Option<Seq<char>> },
    /// A file that could not be read or parsed.
    Blocked,
    /// Neither.
    Clear,
}

/// The position of the first of the declarations from `from` on at which a
/// walk comes upon something: their number where it comes upon nothing.
pub open spec fn first_busy(decls: Seq<ModDeclView>, parent_file: Seq<char>, from: int) -> int
    decreases decls, decls.len() - from,
{
    if from < 0 || from >= decls.len() {
        decls.len() as int
    } else if scan_decl(decls[from], parent_file) is Clear {
        first_busy(decls, parent_file, from + 1)
    } else {
        from
    }
}

/// What a walk over the declarations of the file `parent_file` comes upon
/// first.
pub open spec fn scan_decls(decls: Seq<ModDeclView>, parent_file: Seq<char>) -> Scan
    decreases decls, decls.len() + 1,
{
    let i = first_busy(decls, parent_file, 0);
    if 0 <= i < decls.len() {
        scan_decl(decls[i], parent_file)
    } else {
        Scan::Clear
    }
}

/// What a walk over one declaration of the file `parent_file` comes upon
/// first. It passes by a declaration with the test-only marker.
pub open spec fn scan_decl(d: ModDeclView, parent_file: Seq<char>) -> Scan
    decreases d, 0nat,
{
    if is_test_only(d.cfg_attrs) {
        Scan::Clear
    } else {
        match d.body {
            ModBodyView::Inline { parts, decls } => scan_decls(decls, parent_file),
            ModBodyView::External(BackingView::Unresolved) => Scan::Pending {
                parent_file: parent_file,
                name: d.name,
                path_override: d.path_override,
            },
            ModBodyView::External(BackingView::Missing) => Scan::Clear,
            ModBodyView::External(BackingView::Found(loaded)) => scan_loaded(loaded),
        }
    }
}

/// What a walk over what was found for a file comes upon first.
pub open spec fn scan_loaded(loaded: LoadedView) -> Scan
    decreases loaded, 0nat,
{
    match loaded {
        LoadedView::Parsed(unit) => scan_decls(unit.decls, unit.file),
        _ => Scan::Blocked,
    }
}

/// What is to be done next, given what a walk comes upon first.
pub open spec fn request_of(scan: Scan) -> RequestView {
    match scan {
        Scan::Pending { parent_file, name, path_override } => RequestView::Look {
            parent_file: parent_file,
            name: name,
            path_override: path_override,
        },
        _ => RequestView::Done,
    }
}

/// The declarations with `backing` put behind the first declaration that no
/// file has been looked for yet, if a walk comes upon one.
pub open spec fn filled_decls(
    decls: Seq<ModDeclView>,
    parent_file: Seq<char>,
    backing: BackingView,
) -> Seq<ModDeclView>
    decreases decls, 1nat,
{
    let i = first_busy(decls, parent_file, 0);
    if 0 <= i < decls.len() {
        decls.update(i, filled_decl(decls[i], parent_file, backing))
    } else {
        decls
    }
}

/// One declaration with `backing` put behind the first declaration in it
/// that no file has been looked for yet, if a walk comes upon one.
pub open spec fn filled_decl(d: ModDeclView, parent_file: Seq<char>, backing: BackingView) -> ModDeclView
    decreases d, 0nat,
{
    if !(scan_decl(d, parent_file) is Pending) {
        d
    } else {
        match d.body {
            ModBodyView::Inline { parts, decls } => ModDeclView {
                body: ModBodyView::Inline {
                    parts: parts,
                    decls: filled_decls(decls, parent_file, backing),
                },
                ..d
            },
            ModBodyView::External(BackingView::Unresolved) => ModDeclView {
                body: ModBodyView::External(backing),
                ..d
            },
            ModBodyView::External(BackingView::Found(loaded)) => ModDeclView {
                body: ModBodyView::External(BackingView::Found(filled_loaded(loaded, backing))),
                ..d
            },
            _ => d,
        }
    }
}

/// What was found for a file, with `backing` put behind the first
/// declaration below it that no file has been looked for yet.
pub open spec fn filled_loaded(loaded: LoadedView, backing: BackingView) -> LoadedView
    decreases loaded, 0nat,
{
    match loaded {
        LoadedView::Parsed(unit) => LoadedView::Parsed(
            SourceUnitView { decls: filled_decls(unit.decls, unit.file, backing), ..unit },
        ),
        _ => loaded,
    }
}

/// What a walk has come upon, with owned texts.
pub enum Scanned {
    Pending { parent_file: String, name: String, path_override: Option<String> },
    Blocked,
    Clear,
}

impl View for Scanned {
    type V = Scan;

    open spec fn view(&self) -> Scan {
        match *self {
            Scanned::Pending { parent_file, name, path_override } => Scan::Pending {
                parent_file: parent_file@,
                name: name@,
                path_override: opt_view(path_override),
            },
            Scanned::Blocked => Scan::Blocked,
            Scanned::Clear => Scan::Clear,
        }
    }
}

/// The view of a declaration is made of the views of its parts.
proof fn lemma_decl_parts(d: ModDecl)
    ensures
        d@.name == d.name@,
        d@.visibility == d.visibility,
        d@.doc_comment == opt_view(d.doc_comment),
        d@.cfg_attrs == cfg_views(d.cfg_attrs@),
        d@.path_override == opt_view(d.path_override),
        d@.body == d.body@,
        match d.body {
            ModBody::Inline { parts, decls } => d.body@ == (ModBodyView::Inline {
                parts: part_views(parts@),
                decls: decl_views(decls@),
            }),
            ModBody::External(Backing::Unresolved) => d.body@ == ModBodyView::External(
                BackingView::Unresolved,
            ),
            ModBody::External(Backing::Missing) => d.body@ == ModBodyView::External(
                BackingView::Missing,
            ),
            ModBody::External(Backing::Found(loaded)) => d.body@ == ModBodyView::External(
                BackingView::Found(loaded@),
            ),
        },
{
    match d.body {
        ModBody::External(backing) => {
            assert(d.body@ == ModBodyView::External(backing@));
        },
        _ => {},
    }
}

/// The view of what was found for a file is made of the views of its parts.
proof fn lemma_loaded_parts(loaded: Loaded)
    ensures
        match loaded {
            Loaded::Unreadable { file, message } => loaded@ == (LoadedView::Unreadable {
                file: file@,
                message: message@,
            }),
            Loaded::Unparsable { file, message } => loaded@ == (LoadedView::Unparsable {
                file: file@,
                message: message@,
            }),
            Loaded::Parsed(unit) => loaded@ == LoadedView::Parsed(unit@) && unit@.file == unit.file@
                && unit@.decls == decl_views(unit.decls@),
        },
{
}

/// What a walk over one declaration comes upon first.
fn scan_decl_exec(d: &ModDecl, parent_file: &str) -> (r: Scanned)
    ensures
        r@ == scan_decl(d@, parent_file@),
    decreases d, 0nat,
{
    proof {
        lemma_decl_parts(*d);
    }
    if is_cfg_test(&d.cfg_attrs) {
        return Scanned::Clear;
    }
    match &d.body {
        ModBody::Inline { parts, decls } => first_busy_exec(decls, parent_file).1,
        ModBody::External(Backing::Unresolved) => Scanned::Pending {
            parent_file: parent_file.to_string(),
            name: d.name.clone(),
            path_override: copy_opt(&d.path_override),
        },
        ModBody::External(Backing::Missing) => Scanned::Clear,
        ModBody::External(Backing::Found(loaded)) => scan_loaded_exec(loaded),
    }
}

/// The position of the first declaration at which a walk comes upon
/// something, and what it comes upon.
fn first_busy_exec(decls: &Vec<ModDecl>, parent_file: &str) -> (r: (usize, Scanned))
    ensures
        r.0 == first_busy(decl_views(decls@), parent_file@, 0),
        r.0 <= decls.len(),
        r.1@ == scan_decls(decl_views(decls@), parent_file@),
    decreases decls, 1nat,
{
    let ghost dv = decl_views(decls@);
    proof {
        lemma_decl_views(decls@);
    }
    let mut i: usize = 0;
    while i < decls.len()
        invariant
            i <= decls.len(),
            dv == decl_views(decls@),
            dv.len() == decls.len(),
            forall|j: int| 0 <= j < decls.len() ==> #[trigger] dv[j] == decls@[j]@,
            first_busy(dv, parent_file@, 0) == first_busy(dv, parent_file@, i as int),
        decreases decls.len() - i,
    {
        assert(dv[i as int] == decls@[i as int]@);
        let found = scan_decl_exec(&decls[i], parent_file);
        match found {
            Scanned::Clear => {},
            _ => {
                return (i, found);
            },
        }
        i += 1;
    }
    (i, Scanned::Clear)
}

/// What a walk over what was found for a file comes upon first.
fn scan_loaded_exec(loaded: &Loaded) -> (r: Scanned)
    ensures
        r@ == scan_loaded(loaded@),
    decreases loaded, 0nat,
{
    proof {
        lemma_loaded_parts(*loaded);
    }
    match loaded {
        Loaded::Parsed(unit) => first_busy_exec(&unit.decls, unit.file.as_str()).1,
        _ => Scanned::Blocked,
    }
}

/// Says what is to be done next for the tree below `root`: to look for the
/// file of the first declaration, in the resolver's order, that no file has
/// been looked for yet; or nothing, where there is no such declaration or a
/// file that could not be read or parsed comes before it.
pub fn next_request(root: &Loaded) -> (r: Request)
    ensures
        r@ == request_of(scan_loaded(root@)),
{
    match scan_loaded_exec(root) {
        Scanned::Pending { parent_file, name, path_override } => Request::Look {
            parent_file: parent_file,
            name: name,
            path_override: path_override,
        },
        _ => Request::Done,
    }
}

/// Puts `backing` behind the first of the declarations that no file has been
/// looked for yet, if a walk comes upon one.
fn supply_decls(decls: Vec<ModDecl>, parent_file: &str, backing: Backing) -> (r: Vec<ModDecl>)
    ensures
        decl_views(r@) == filled_decls(decl_views(decls@), parent_file@, backing@),
    decreases decls, 1nat,
{
    let ghost before = decls@;
    let ghost dv = decl_views(decls@);
    proof {
        lemma_decl_views(decls@);
    }
    let (i, _) = first_busy_exec(&decls, parent_file);
    if i >= decls.len() {
        return decls;
    }
    let mut decls = decls;
    let d = decls.remove(i);
    assert(d == before[i as int]);
    let filled = supply_decl(d, parent_file, backing);
    decls.insert(i, filled);
    proof {
        lemma_decl_views(decls@);
        assert(decl_views(decls@) =~= dv.update(i as int, filled@)) by {
            assert forall|j: int| 0 <= j < decls@.len() implies decl_views(decls@)[j] == dv.update(
                i as int,
                filled@,
            )[j] by {
                if j != i {
                    assert(decls@[j] == before[j]);
                }
            }
        }
    }
    decls
}

/// Puts `backing` behind the first declaration in `d` that no file has been
/// looked for yet, if a walk comes upon one.
fn supply_decl(d: ModDecl, parent_file: &str, backing: Backing) -> (r: ModDecl)
    ensures
        r@ == filled_decl(d@, parent_file@, backing@),
    decreases d, 0nat,
{
    proof {
        lemma_decl_parts(d);
    }
    match scan_decl_exec(&d, parent_file) {
        Scanned::Pending { .. } => {},
        _ => {
            return d;
        },
    }
    let ModDecl { name, visibility, doc_comment, cfg_attrs, path_override, body } = d;
    let body = match body {
        ModBody::Inline { parts, decls } => ModBody::Inline {
            parts: parts,
            decls: supply_decls(decls, parent_file, backing),
        },
        ModBody::External(Backing::Unresolved) => ModBody::External(backing),
        ModBody::External(Backing::Found(loaded)) => ModBody::External(
            Backing::Found(supply(loaded, backing)),
        ),
        ModBody::External(Backing::Missing) => ModBody::External(Backing::Missing),
    };
    let r = ModDecl {
        name: name,
        visibility: visibility,
        doc_comment: doc_comment,
        cfg_attrs: cfg_attrs,
        path_override: path_override,
        body: body,
    };
    proof {
        lemma_decl_parts(r);
    }
    r
}

/// Puts what was found for the file that was asked for into the tree:
/// behind the first declaration, in the resolver's order, that no file has
/// been looked for yet, unless a file that could not be read or parsed comes
/// before it. A tree without such a declaration stays as it is.
pub fn supply(root: Loaded, backing: Backing) -> (r: Loaded)
    ensures
        r@ == filled_loaded(root@, backing@),
    decreases root, 0nat,
{
    proof {
        lemma_loaded_parts(root);
    }
    match root {
        Loaded::Parsed(unit) => {
            let SourceUnit { file, file_path, parsed, doc_comment, use_statements, decls } = unit;
            let decls = supply_decls(decls, file.as_str(), backing);
            let r = Loaded::Parsed(
                SourceUnit {
                    file: file,
                    file_path: file_path,
                    parsed: parsed,
                    doc_comment: doc_comment,
                    use_statements: use_statements,
                    decls: decls,
                },
            );
            proof {
                lemma_loaded_parts(r);
            }
            r
        },
        other => other,
    }
}

/// Whether a walk and a resolution end alike: the resolution succeeds where
/// the walk comes upon nothing, fails on a file where the walk is blocked,
/// and finds the tree incomplete where the walk comes upon a declaration
/// that no file has been looked for yet.
pub open spec fn alike<T>(scan: Scan, outcome: Result<T, ErrorView>) -> bool {
    match outcome {
        Ok(_) => scan is Clear,
        Err(ErrorView::Incomplete { .. }) => scan is Pending,
        Err(_) => scan is Blocked,
    }
}

/// The walk over declarations from `from` on and their resolution end alike.
pub proof fn lemma_alike_decls(decls: Seq<ModDeclView>, parent: Parent, from: int)
    requires
        0 <= from <= decls.len(),
    ensures
        ({
            let i = first_busy(decls, parent.file, from);
            let scan = if 0 <= i < decls.len() {
                scan_decl(decls[i], parent.file)
            } else {
                Scan::Clear
            };
            alike(scan, resolve_decls(decls.skip(from), parent).0)
        }),
    decreases decls, decls.len() - from,
{
    let rest = decls.skip(from);
    if from < decls.len() {
        assert(rest[0] == decls[from]);
        assert(rest.drop_first() =~= decls.skip(from + 1));
        lemma_alike_decl(decls[from], parent);
        lemma_alike_decls(decls, parent, from + 1);
    }
}

/// The walk over one declaration and its resolution end alike.
pub proof fn lemma_alike_decl(d: ModDeclView, parent: Parent)
    ensures
        alike(scan_decl(d, parent.file), resolve_decl(d, parent).0),
    decreases d, 0nat,
{
    if !is_test_only(d.cfg_attrs) {
        match d.body {
            ModBodyView::Inline { parts, decls } => {
                let inner = Parent {
                    path: child_path(parent.path, d.name),
                    file: parent.file,
                    file_path: parent.file_path,
                    file_hash: parent.file_hash,
                };
                lemma_alike_decls(decls, inner, 0);
                assert(decls.skip(0) =~= decls);
            },
            ModBodyView::External(BackingView::Found(loaded)) => {
                lemma_alike_loaded(
                    loaded,
                    child_path(parent.path, d.name),
                    d.doc_comment,
                    d.visibility,
                );
            },
            _ => {},
        }
    }
}

/// The walk over what was found for a file and its resolution end alike.
pub proof fn lemma_alike_loaded(
    loaded: LoadedView,
    path: Seq<char>,
    outer_doc: Option<Seq<char>>,
    visibility: Visibility,
)
    ensures
        alike(scan_loaded(loaded), resolve_loaded(loaded, path, outer_doc, visibility).0),
    decreases loaded, 0nat,
{
    match loaded {
        LoadedView::Parsed(unit) => {
            let parent = Parent {
                path: path,
                file: unit.file,
                file_path: unit.file_path,
                file_hash: digest_text(unit.parsed.source),
            };
            lemma_alike_decls(unit.decls, parent, 0);
            assert(unit.decls.skip(0) =~= unit.decls);
        },
        _ => {},
    }
}

/// A tree for which nothing more is asked is as complete as the resolver
/// wants it: it resolves, or fails on a file that could not be read or
/// parsed, and is not found incomplete. A tree for which a file is asked is
/// found incomplete.
pub proof fn lemma_done_is_complete(root: LoadedView)
    ensures
        request_of(scan_loaded(root)) is Done <==> !(resolve_root(root).0 matches Err(
            ErrorView::Incomplete { .. },
        )),
{
    lemma_alike_loaded(root, "crate"@, None, Visibility::Pub);
}

} // verus!
