//! The shape of the resolved tree: module paths are unique.
//!
//! The path of a child is the path of its parent, the separator `::` and the
//! declared name. Where the declarations of each module have different names
//! and no name holds a colon, no two modules of the resolved tree have the
//! same path: two places of the tree with one path are one place, and the
//! list of all modules holds no path twice. Both conditions are needed: two
//! declarations of one name give two modules of one path, and so do the
//! child `b` of a module `a:` and the child `:b` of a module `a`.

use vstd::prelude::*;
use crate::hash::digest_text;
use crate::imports::is_test_only;
use vstd::seq_lib::lemma_no_dup_in_concat;
use crate::model::{module_views, modules_of, Module, ModuleView, Visibility};
use crate::resolve::{
    child_path, lemma_resolved_decls, resolve_decl, resolve_decls, resolve_root, resolve_unit,
    ErrorView, Parent,
};
use crate::source::{BackingView, LoadedView, ModBodyView, ModDeclView, SourceUnitView};

verus! {

/// Whether `name` can stand as one segment of a path: it holds no colon.
pub open spec fn plain_name(name: Seq<char>) -> bool {
    !name.contains(':')
}

/// Whether the declarations of one module that do not carry the test-only
/// marker have plain names, no two of them the same.
pub open spec fn names_apart(decls: Seq<ModDeclView>) -> bool {
    &&& forall|i: int|
        0 <= i < decls.len() && !is_test_only((#[trigger] decls[i]).cfg_attrs) ==> plain_name(
            decls[i].name,
        )
    &&& forall|i: int, j: int|
        #![trigger decls[i], decls[j]]
        0 <= i < j < decls.len() && !is_test_only(decls[i].cfg_attrs) && !is_test_only(
            decls[j].cfg_attrs,
        ) ==> decls[i].name != decls[j].name
}

/// Whether sibling names are plain and differ among the declarations `decls`
/// and among those below each of them.
pub open spec fn decls_apart(decls: Seq<ModDeclView>) -> bool
    decreases decls,
{
    names_apart(decls) && forall|i: int| 0 <= i < decls.len() ==> decl_apart(#[trigger] decls[i])
}

/// Whether sibling names are plain and differ below one declaration. Nothing
/// is asked below a declaration with the test-only marker.
pub open spec fn decl_apart(d: ModDeclView) -> bool
    decreases d,
{
    is_test_only(d.cfg_attrs) || match d.body {
        ModBodyView::Inline { parts, decls } => decls_apart(decls),
        ModBodyView::External(BackingView::Found(loaded)) => loaded_apart(loaded),
        ModBodyView::External(_) => true,
    }
}

/// Whether sibling names are plain and differ in a file and below it.
pub open spec fn loaded_apart(loaded: LoadedView) -> bool
    decreases loaded,
{
    match loaded {
        LoadedView::Parsed(unit) => decls_apart(unit.decls),
        _ => true,
    }
}

/// Whether the modules `mods` are children of the path `parent` under plain
/// names, with paths that differ, and the same holds below each of them.
pub open spec fn children_apart(mods: Seq<ModuleView>, parent: Seq<char>) -> bool {
    &&& forall|i: int|
        0 <= i < mods.len() ==> {
            let c = #[trigger] mods[i];
            &&& exists|name: Seq<char>| plain_name(name) && c.path == child_path(parent, name)
            &&& apart(c)
        }
    &&& forall|i: int, j: int|
        #![trigger mods[i], mods[j]]
        0 <= i < j < mods.len() ==> mods[i].path != mods[j].path
}

/// Whether, everywhere below the module `m`, the path of a child is the path
/// of its parent, the separator and a plain name, and the paths of siblings
/// differ.
pub open spec fn apart(m: ModuleView) -> bool
    decreases m,
{
    &&& forall|i: int|
        0 <= i < m.submodules.len() ==> {
            let c = #[trigger] m.submodules[i];
            &&& exists|name: Seq<char>| plain_name(name) && c.path == child_path(m.path, name)
            &&& apart(c)
        }
    &&& forall|i: int, j: int|
        #![trigger m.submodules[i], m.submodules[j]]
        0 <= i < j < m.submodules.len() ==> m.submodules[i].path != m.submodules[j].path
}

/// The module at a place of the tree below `m`: the place is given by the
/// position of a child at each step down from `m`. `None` where the tree has
/// no such place.
pub open spec fn node_at(m: ModuleView, route: Seq<int>) -> Option<ModuleView>
    decreases route.len(),
{
    if route.len() == 0 {
        Some(m)
    } else if 0 <= route[0] < m.submodules.len() {
        node_at(m.submodules[route[0]], route.drop_first())
    } else {
        None
    }
}

/// Whether the path `q` is the path `p` or goes on behind it with a colon.
pub open spec fn under(q: Seq<char>, p: Seq<char>) -> bool {
    q == p || (q.len() > p.len() && q.take(p.len() as int) == p && q[p.len() as int] == ':')
}

/// The paths of the module `m` and of all modules below it, a module before
/// its children, children in declaration order.
pub open spec fn tree_paths(m: ModuleView) -> Seq<Seq<char>>
    decreases m,
{
    seq![m.path] + paths_below(m.submodules)
}

/// The paths of the modules `mods` and of all modules below them.
pub open spec fn paths_below(mods: Seq<ModuleView>) -> Seq<Seq<char>>
    decreases mods,
{
    if mods.len() == 0 {
        Seq::empty()
    } else {
        paths_below(mods.drop_last()) + tree_paths(mods.last())
    }
}

/// The paths of a list of modules.
pub open spec fn listed_paths(mods: Seq<Module>) -> Seq<Seq<char>> {
    mods.map_values(|m: Module| m.path@)
}

/// Whether the path `q` lies under the path of one of the modules `mods`.
pub open spec fn under_one(q: Seq<char>, mods: Seq<ModuleView>) -> bool {
    exists|i: int| 0 <= i < mods.len() && under(q, (#[trigger] mods[i]).path)
}

/// The path of a child is longer than that of its parent, begins with it and
/// goes on with a colon; behind the separator stands the name.
proof fn lemma_child_path(parent: Seq<char>, name: Seq<char>)
    ensures
        child_path(parent, name).len() == parent.len() + 2 + name.len(),
        child_path(parent, name).take(parent.len() as int) == parent,
        child_path(parent, name)[parent.len() as int] == ':',
        child_path(parent, name).skip(parent.len() as int + 2) == name,
{
    reveal_strlit("::");
    let c = child_path(parent, name);
    assert(c.take(parent.len() as int) =~= parent);
    assert(c.skip(parent.len() as int + 2) =~= name);
}

/// A module whose children are apart under its path is apart.
proof fn lemma_children_make_apart(m: ModuleView)
    requires
        children_apart(m.submodules, m.path),
    ensures
        apart(m),
{
    assert forall|i: int| 0 <= i < m.submodules.len() implies {
        let c = #[trigger] m.submodules[i];
        &&& exists|name: Seq<char>| plain_name(name) && c.path == child_path(m.path, name)
        &&& apart(c)
    } by {}
}

/// Every module below `m` has a path under that of `m`, and a longer one
/// where it is not `m` itself.
proof fn lemma_paths_go_down(m: ModuleView, route: Seq<int>)
    requires
        apart(m),
        node_at(m, route) is Some,
    ensures
        under(node_at(m, route).unwrap().path, m.path),
        route.len() > 0 ==> node_at(m, route).unwrap().path.len() > m.path.len(),
    decreases route.len(),
{
    if route.len() > 0 {
        let c = m.submodules[route[0]];
        let name = choose|name: Seq<char>| plain_name(name) && c.path == child_path(m.path, name);
        lemma_child_path(m.path, name);
        lemma_paths_go_down(c, route.drop_first());
        lemma_under_child(m.path, name, node_at(m, route).unwrap().path);
    }
}

/// A path under the path of a child lies under the path of the parent and is
/// longer than it.
proof fn lemma_under_child(parent: Seq<char>, name: Seq<char>, q: Seq<char>)
    requires
        under(q, child_path(parent, name)),
    ensures
        under(q, parent),
        q.len() > parent.len(),
{
    let c = child_path(parent, name);
    lemma_child_path(parent, name);
    let n = parent.len() as int;
    assert(q.take(c.len() as int) == c) by {
        if q == c {
            assert(q.take(c.len() as int) =~= q);
        }
    }
    assert(q.take(n) =~= c.take(n));
    assert(q[n] == q.take(c.len() as int)[n]);
}

/// Two siblings that have a path under both their paths are one: their
/// paths are the same.
proof fn lemma_siblings_share_nothing(parent: Seq<char>, a: Seq<char>, b: Seq<char>, q: Seq<char>)
    requires
        plain_name(a),
        plain_name(b),
        under(q, child_path(parent, a)),
        under(q, child_path(parent, b)),
    ensures
        child_path(parent, a) == child_path(parent, b),
{
    let x = child_path(parent, a);
    let y = child_path(parent, b);
    lemma_child_path(parent, a);
    lemma_child_path(parent, b);
    assert(q.take(x.len() as int) == x) by {
        if q == x {
            assert(q.take(x.len() as int) =~= q);
        }
    }
    assert(q.take(y.len() as int) == y) by {
        if q == y {
            assert(q.take(y.len() as int) =~= q);
        }
    }
    if x.len() < y.len() {
        lemma_behind_shorter_sibling(parent, a, b, q);
    } else if y.len() < x.len() {
        lemma_behind_shorter_sibling(parent, b, a, q);
    }
}

/// A path that begins with the path of a child holds no colon where the
/// path of a sibling with a shorter name ends.
proof fn lemma_behind_shorter_sibling(parent: Seq<char>, a: Seq<char>, b: Seq<char>, q: Seq<char>)
    requires
        plain_name(b),
        a.len() < b.len(),
        q.len() >= child_path(parent, b).len(),
        q.take(child_path(parent, b).len() as int) == child_path(parent, b),
    ensures
        q[child_path(parent, a).len() as int] != ':',
{
    let x = child_path(parent, a);
    let y = child_path(parent, b);
    lemma_child_path(parent, a);
    lemma_child_path(parent, b);
    let at = x.len() as int;
    assert(q[at] == q.take(y.len() as int)[at]);
    assert(y[at] == y.skip(parent.len() as int + 2)[a.len() as int]);
    if q[at] == ':' {
        assert(b[a.len() as int] == ':');
        assert(b.contains(':'));
    }
}

/// In a tree whose sibling names are plain and differ, two places with the
/// same path are one place.
pub proof fn lemma_one_place_per_path(m: ModuleView, first: Seq<int>, second: Seq<int>)
    requires
        apart(m),
        node_at(m, first) is Some,
        node_at(m, second) is Some,
        node_at(m, first).unwrap().path == node_at(m, second).unwrap().path,
    ensures
        first == second,
    decreases first.len(),
{
    lemma_paths_go_down(m, first);
    lemma_paths_go_down(m, second);
    if first.len() == 0 || second.len() == 0 {
        assert(first =~= second);
    } else {
        let i = first[0];
        let j = second[0];
        let c = m.submodules[i];
        let d = m.submodules[j];
        let q = node_at(m, first).unwrap().path;
        lemma_paths_go_down(c, first.drop_first());
        lemma_paths_go_down(d, second.drop_first());
        if i != j {
            let a = choose|name: Seq<char>| plain_name(name) && c.path == child_path(m.path, name);
            let b = choose|name: Seq<char>| plain_name(name) && d.path == child_path(m.path, name);
            if i < j {
                assert(m.submodules[i].path != m.submodules[j].path);
            } else {
                assert(m.submodules[j].path != m.submodules[i].path);
            }
            lemma_siblings_share_nothing(m.path, a, b, q);
        }
        lemma_one_place_per_path(c, first.drop_first(), second.drop_first());
        assert(first =~= seq![i] + first.drop_first());
        assert(second =~= seq![j] + second.drop_first());
    }
}

/// In a tree whose sibling names are plain and differ, the list of all paths
/// holds no path twice, and every path lies under that of the root.
pub proof fn lemma_tree_paths_differ(m: ModuleView)
    requires
        apart(m),
    ensures
        tree_paths(m).no_duplicates(),
        forall|k: int| 0 <= k < tree_paths(m).len() ==> under(#[trigger] tree_paths(m)[k], m.path),
    decreases m,
{
    let below = paths_below(m.submodules);
    assert(children_apart(m.submodules, m.path));
    lemma_paths_below_differ(m.submodules, m.path);
    assert forall|k: int| 0 <= k < below.len() implies under(#[trigger] below[k], m.path)
        && below[k].len() > m.path.len() by {
        let i = choose|i: int|
            0 <= i < m.submodules.len() && under(below[k], (#[trigger] m.submodules[i]).path);
        let c = m.submodules[i];
        let name = choose|name: Seq<char>| plain_name(name) && c.path == child_path(m.path, name);
        lemma_under_child(m.path, name, below[k]);
    }
    let top = seq![m.path];
    assert forall|i: int, j: int| 0 <= i < top.len() && 0 <= j < below.len() implies top[i]
        != below[j] by {
        assert(below[j].len() > m.path.len());
    }
    lemma_no_dup_in_concat(top, below);
    assert forall|k: int| 0 <= k < tree_paths(m).len() implies under(
        #[trigger] tree_paths(m)[k],
        m.path,
    ) by {
        if k > 0 {
            assert(tree_paths(m)[k] == below[k - 1]);
        }
    }
}

/// Of modules that are apart under one parent, the list of all paths holds
/// no path twice, and every path lies under that of one of the modules.
proof fn lemma_paths_below_differ(mods: Seq<ModuleView>, parent: Seq<char>)
    requires
        children_apart(mods, parent),
    ensures
        paths_below(mods).no_duplicates(),
        forall|k: int|
            0 <= k < paths_below(mods).len() ==> under_one(#[trigger] paths_below(mods)[k], mods),
    decreases mods,
{
    if mods.len() > 0 {
        let front = mods.drop_last();
        let c = mods.last();
        let a = paths_below(front);
        let b = tree_paths(c);
        assert(children_apart(front, parent)) by {
            assert forall|i: int| 0 <= i < front.len() implies {
                let d = #[trigger] front[i];
                &&& exists|name: Seq<char>| plain_name(name) && d.path == child_path(parent, name)
                &&& apart(d)
            } by {
                assert(front[i] == mods[i]);
            }
            assert forall|i: int, j: int|
                #![trigger front[i], front[j]]
                0 <= i < j < front.len() implies front[i].path != front[j].path by {
                assert(front[i] == mods[i]);
                assert(front[j] == mods[j]);
            }
        }
        lemma_paths_below_differ(front, parent);
        assert(c == mods[mods.len() - 1]);
        lemma_tree_paths_differ(c);
        let nc = choose|name: Seq<char>| plain_name(name) && c.path == child_path(parent, name);
        assert forall|i: int, j: int| 0 <= i < a.len() && 0 <= j < b.len() implies a[i]
            != b[j] by {
            let x = choose|x: int| 0 <= x < front.len() && under(a[i], (#[trigger] front[x]).path);
            assert(front[x] == mods[x]);
            let nx = choose|name: Seq<char>|
                plain_name(name) && mods[x].path == child_path(parent, name);
            assert(mods[x].path != mods[mods.len() - 1].path);
            if a[i] == b[j] {
                lemma_siblings_share_nothing(parent, nx, nc, a[i]);
            }
        }
        lemma_no_dup_in_concat(a, b);
        assert forall|k: int| 0 <= k < paths_below(mods).len() implies under_one(
            #[trigger] paths_below(mods)[k],
            mods,
        ) by {
            if k < a.len() {
                let x = choose|x: int|
                    0 <= x < front.len() && under(a[k], (#[trigger] front[x]).path);
                assert(front[x] == mods[x]);
                assert(under(paths_below(mods)[k], mods[x].path));
            } else {
                assert(paths_below(mods)[k] == b[k - a.len()]);
                assert(under(paths_below(mods)[k], mods[mods.len() - 1].path));
            }
        }
    }
}

/// The paths of the modules that a tree lists, itself first, are the paths of
/// the tree.
pub proof fn lemma_listed_paths(tree: Module)
    ensures
        listed_paths(tree.all_modules_spec()) == tree_paths(tree@),
    decreases tree,
{
    lemma_listed_paths_below(tree.submodules@);
    assert(listed_paths(seq![tree] + modules_of(tree.submodules@)) =~= seq![tree.path@]
        + listed_paths(modules_of(tree.submodules@)));
}

/// The paths of the modules that a list of trees lists are the paths of the
/// trees.
proof fn lemma_listed_paths_below(mods: Seq<Module>)
    ensures
        listed_paths(modules_of(mods)) == paths_below(module_views(mods)),
    decreases mods,
{
    if mods.len() > 0 {
        lemma_listed_paths_below(mods.drop_last());
        lemma_listed_paths(mods.last());
        let views = module_views(mods);
        assert(views.drop_last() =~= module_views(mods.drop_last()));
        assert(views.last() == mods.last()@);
        assert(listed_paths(modules_of(mods.drop_last()) + mods.last().all_modules_spec())
            =~= listed_paths(modules_of(mods.drop_last())) + listed_paths(
            mods.last().all_modules_spec(),
        ));
    } else {
        assert(listed_paths(modules_of(mods)) =~= Seq::<Seq<char>>::empty());
    }
}

/// The children resolved from declarations whose names are plain and differ
/// are apart.
proof fn lemma_resolved_decls_apart(decls: Seq<ModDeclView>, parent: Parent)
    requires
        decls_apart(decls),
    ensures
        match resolve_decls(decls, parent).0 {
            Ok(mods) => children_apart(mods, parent.path),
            Err(_) => true,
        },
    decreases decls,
{
    if decls.len() > 0 {
        let (head, w1) = resolve_decl(decls[0], parent);
        lemma_resolved_decl_apart(decls[0], parent);
        match head {
            Ok(found) => {
                let rest = decls.drop_first();
                assert(decls_apart(rest)) by {
                    assert forall|i: int| 0 <= i < rest.len() implies decl_apart(
                        #[trigger] rest[i],
                    ) by {
                        assert(rest[i] == decls[i + 1]);
                    }
                    assert forall|i: int|
                        0 <= i < rest.len() && !is_test_only(
                            (#[trigger] rest[i]).cfg_attrs,
                        ) implies plain_name(rest[i].name) by {
                        assert(rest[i] == decls[i + 1]);
                    }
                    assert forall|i: int, j: int|
                        #![trigger rest[i], rest[j]]
                        0 <= i < j < rest.len() && !is_test_only(rest[i].cfg_attrs)
                            && !is_test_only(rest[j].cfg_attrs) implies rest[i].name
                        != rest[j].name by {
                        assert(rest[i] == decls[i + 1]);
                        assert(rest[j] == decls[j + 1]);
                    }
                }
                lemma_resolved_decls_apart(rest, parent);
                lemma_resolved_decls(rest, parent);
                match resolve_decls(rest, parent).0 {
                    Ok(more) => {
                        let first: Seq<ModuleView> = match found {
                            Some(m) => seq![m],
                            None => Seq::empty(),
                        };
                        let mods = first + more;
                        assert forall|i: int| 0 <= i < mods.len() implies {
                            let c = #[trigger] mods[i];
                            &&& exists|name: Seq<char>|
                                plain_name(name) && c.path == child_path(parent.path, name)
                            &&& apart(c)
                        } by {
                            if i < first.len() {
                                assert(plain_name(decls[0].name));
                                assert(mods[i].path == child_path(parent.path, decls[0].name));
                            } else {
                                assert(mods[i] == more[i - first.len()]);
                            }
                        }
                        assert forall|i: int, j: int|
                            #![trigger mods[i], mods[j]]
                            0 <= i < j < mods.len() implies mods[i].path != mods[j].path by {
                            if i < first.len() {
                                let k = j - first.len();
                                assert(mods[j] == more[k]);
                                let at = choose|at: int|
                                    0 <= at < rest.len() && !is_test_only(rest[at].cfg_attrs) && (
                                    #[trigger] more[k]).path == child_path(
                                        parent.path,
                                        (#[trigger] rest[at]).name,
                                    );
                                assert(rest[at] == decls[at + 1]);
                                assert(decls[0].name != decls[at + 1].name);
                                lemma_child_path(parent.path, decls[0].name);
                                lemma_child_path(parent.path, decls[at + 1].name);
                            } else {
                                assert(mods[i] == more[i - first.len()]);
                                assert(mods[j] == more[j - first.len()]);
                            }
                        }
                    },
                    Err(_) => {},
                }
            },
            Err(_) => {},
        }
    }
}

/// The module resolved from a declaration below which sibling names are plain
/// and differ is apart.
proof fn lemma_resolved_decl_apart(d: ModDeclView, parent: Parent)
    requires
        decl_apart(d),
    ensures
        match resolve_decl(d, parent).0 {
            Ok(Some(m)) => !is_test_only(d.cfg_attrs) && m.path == child_path(parent.path, d.name)
                && apart(m),
            _ => true,
        },
    decreases d,
{
    let path = child_path(parent.path, d.name);
    if !is_test_only(d.cfg_attrs) {
        match d.body {
            ModBodyView::Inline { parts, decls } => {
                let inner = Parent {
                    path: path,
                    file: parent.file,
                    file_path: parent.file_path,
                    file_hash: parent.file_hash,
                };
                lemma_resolved_decls_apart(decls, inner);
                match resolve_decl(d, parent).0 {
                    Ok(Some(m)) => {
                        lemma_children_make_apart(m);
                    },
                    _ => {},
                }
            },
            ModBodyView::External(BackingView::Found(LoadedView::Parsed(unit))) => {
                lemma_resolved_unit_apart(unit, path, d.doc_comment, d.visibility);
            },
            ModBodyView::External(_) => {},
        }
    }
}

/// The module resolved from a file below which sibling names are plain and
/// differ is apart.
proof fn lemma_resolved_unit_apart(
    unit: SourceUnitView,
    path: Seq<char>,
    outer_doc: Option<Seq<char>>,
    visibility: Visibility,
)
    requires
        decls_apart(unit.decls),
    ensures
        match resolve_unit(unit, path, outer_doc, visibility).0 {
            Ok(m) => m.path == path && apart(m),
            Err(_) => true,
        },
    decreases unit,
{
    let parent = Parent {
        path: path,
        file: unit.file,
        file_path: unit.file_path,
        file_hash: digest_text(unit.parsed.source),
    };
    lemma_resolved_decls_apart(unit.decls, parent);
    match resolve_unit(unit, path, outer_doc, visibility).0 {
        Ok(m) => {
            lemma_children_make_apart(m);
        },
        Err(_) => {},
    }
}

/// The tree resolved from a package in which the declarations of each
/// module have different names and no name holds a colon: everywhere in it
/// the paths of siblings differ.
pub proof fn lemma_resolved_root_apart(root: LoadedView)
    requires
        loaded_apart(root),
    ensures
        match resolve_root(root).0 {
            Ok(m) => apart(m),
            Err(_) => true,
        },
{
    match root {
        LoadedView::Parsed(unit) => {
            lemma_resolved_unit_apart(unit, "crate"@, None, Visibility::Pub);
        },
        _ => {},
    }
}

/// Module paths are unique: in the tree resolved from a package in which the
/// declarations of each module have different names and no name holds a
/// colon, two places with the same path are one place.
pub proof fn lemma_module_paths_are_unique(root: LoadedView, first: Seq<int>, second: Seq<int>)
    requires
        loaded_apart(root),
        resolve_root(root).0 is Ok,
        node_at(resolve_root(root).0->Ok_0, first) is Some,
        node_at(resolve_root(root).0->Ok_0, second) is Some,
        node_at(resolve_root(root).0->Ok_0, first).unwrap().path == node_at(
            resolve_root(root).0->Ok_0,
            second,
        ).unwrap().path,
    ensures
        first == second,
{
    lemma_resolved_root_apart(root);
    lemma_one_place_per_path(resolve_root(root).0->Ok_0, first, second);
}

/// No two of the modules that a resolved tree lists have the same path,
/// where the declarations of each module have different names and no name
/// holds a colon.
pub proof fn lemma_listed_paths_differ(root: LoadedView, tree: Module)
    requires
        loaded_apart(root),
        resolve_root(root).0 == Ok::<ModuleView, ErrorView>(tree@),
    ensures
        listed_paths(tree.all_modules_spec()).no_duplicates(),
{
    lemma_resolved_root_apart(root);
    lemma_tree_paths_differ(tree@);
    lemma_listed_paths(tree);
}

} // verus!
