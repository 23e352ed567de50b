//! The import paths of a text, the names of re-exports, and the markers on
//! module declarations: the test-only marker and the explicit path.

use vstd::prelude::*;
use crate::syntax::{cfg_views, lemma_cfg_views, CfgAttr, CfgAttrView, ScopeItem, UseTree};
use crate::text::{str_eq, str_views};

verus! {

/// The name under which a re-export is listed.
pub open spec fn use_tree_name_spec(tree: UseTree) -> Seq<char>
    decreases tree,
{
    match tree {
        UseTree::Path { ident, tree } => ident@ + "::"@ + use_tree_name_spec(*tree),
        UseTree::Name(name) => name@,
        UseTree::Rename { ident, rename } => rename@,
        UseTree::Glob => "*"@,
        UseTree::Group(_) => "{...}"@,
    }
}

/// The name under which a re-export is listed: its path, with the new name
/// for a renamed import and `{...}` in place of a group.
pub fn use_tree_name(tree: &UseTree) -> (r: String)
    ensures
        r@ == use_tree_name_spec(*tree),
    decreases tree,
{
    match tree {
        UseTree::Path { ident, tree } => {
            let mut r = ident.clone();
            r.append("::");
            r.append(use_tree_name(tree).as_str());
            r
        },
        UseTree::Name(name) => name.clone(),
        UseTree::Rename { ident, rename } => rename.clone(),
        UseTree::Glob => "*".to_string(),
        UseTree::Group(_) => "{...}".to_string(),
    }
}

/// The path `prefix` with the segment `ident` behind it.
pub open spec fn with_segment(prefix: Seq<char>, ident: Seq<char>) -> Seq<char> {
    if prefix.len() == 0 {
        ident
    } else {
        prefix + "::"@ + ident
    }
}

/// The paths that an import tree behind the path `prefix` imports: one for
/// each name, under its own name where it is renamed, and one that ends in
/// the wildcard for a wildcard.
pub open spec fn use_paths(tree: UseTree, prefix: Seq<char>) -> Seq<Seq<char>>
    decreases tree,
{
    match tree {
        UseTree::Path { ident, tree } => use_paths(*tree, with_segment(prefix, ident@)),
        UseTree::Name(name) => seq![with_segment(prefix, name@)],
        UseTree::Rename { ident, rename } => seq![with_segment(prefix, ident@)],
        UseTree::Glob => seq![
            if prefix.len() == 0 {
                prefix
            } else {
                prefix + "::*"@
            },
        ],
        UseTree::Group(items) => group_paths(items@, prefix),
    }
}

/// The paths that the import trees of a group import.
pub open spec fn group_paths(items: Seq<UseTree>, prefix: Seq<char>) -> Seq<Seq<char>>
    decreases items,
{
    if items.len() == 0 {
        Seq::empty()
    } else {
        group_paths(items.drop_last(), prefix) + use_paths(items.last(), prefix)
    }
}

/// The path `prefix` with the segment `ident` behind it.
fn push_segment(prefix: &str, ident: &str) -> (r: String)
    ensures
        r@ == with_segment(prefix@, ident@),
{
    if prefix.unicode_len() == 0 {
        ident.to_string()
    } else {
        let mut r = prefix.to_string();
        r.append("::");
        r.append(ident);
        r
    }
}

/// Appends the paths that an import tree behind the path `prefix` imports.
pub fn collect_use_tree_paths(tree: &UseTree, prefix: &str, paths: &mut Vec<String>)
    ensures
        str_views(final(paths)@) == str_views(old(paths)@) + use_paths(*tree, prefix@),
    decreases tree,
{
    let ghost before = str_views(paths@);
    match tree {
        UseTree::Path { ident, tree } => {
            let longer = push_segment(prefix, ident.as_str());
            collect_use_tree_paths(tree, longer.as_str(), paths);
        },
        UseTree::Name(name) => {
            let full = push_segment(prefix, name.as_str());
            paths.push(full);
            assert(str_views(paths@) =~= before + use_paths(*tree, prefix@));
        },
        UseTree::Rename { ident, rename } => {
            let full = push_segment(prefix, ident.as_str());
            paths.push(full);
            assert(str_views(paths@) =~= before + use_paths(*tree, prefix@));
        },
        UseTree::Glob => {
            let mut full = prefix.to_string();
            if prefix.unicode_len() > 0 {
                full.append("::*");
            }
            paths.push(full);
            assert(str_views(paths@) =~= before + use_paths(*tree, prefix@));
        },
        UseTree::Group(items) => {
            collect_group_paths(items, prefix, paths);
        },
    }
}

/// Appends the paths that the import trees of a group behind the path
/// `prefix` import.
fn collect_group_paths(items: &Vec<UseTree>, prefix: &str, paths: &mut Vec<String>)
    ensures
        str_views(final(paths)@) == str_views(old(paths)@) + group_paths(items@, prefix@),
    decreases items,
{
    let ghost before = str_views(paths@);
    let mut i: usize = 0;
    assert(before + group_paths(items@.take(0), prefix@) =~= before);
    while i < items.len()
        invariant
            i <= items.len(),
            str_views(paths@) == before + group_paths(items@.take(i as int), prefix@),
        decreases items.len() - i,
    {
        assert(items@.take(i + 1).drop_last() =~= items@.take(i as int));
        collect_use_tree_paths(&items[i], prefix, paths);
        assert(str_views(paths@) =~= before + group_paths(items@.take(i + 1), prefix@));
        i += 1;
    }
    assert(items@.take(items.len() as int) =~= items@);
}

/// Whether a condition holds in test builds only: it is the bare name
/// `test`, or `all(..)` of conditions of which one holds in test builds only,
/// or `any(..)` of at least one condition, all of which hold in test builds
/// only. No other condition does, whatever it mentions.
pub open spec fn needs_test(c: CfgAttrView) -> bool
    decreases c,
{
    match c {
        CfgAttrView::Name(name) => name == "test"@,
        CfgAttrView::List { op, args } => if op == "all"@ {
            some_need_test(args)
        } else if op == "any"@ {
            args.len() > 0 && all_need_test(args)
        } else {
            false
        },
        CfgAttrView::Other => false,
    }
}

/// Whether one of the conditions holds in test builds only.
pub open spec fn some_need_test(args: Seq<CfgAttrView>) -> bool
    decreases args,
{
    exists|i: int| 0 <= i < args.len() && needs_test(#[trigger] args[i])
}

/// Whether each of the conditions holds in test builds only.
pub open spec fn all_need_test(args: Seq<CfgAttrView>) -> bool
    decreases args,
{
    forall|i: int| 0 <= i < args.len() ==> needs_test(#[trigger] args[i])
}

/// Whether a declaration carries the test-only marker: one of the conditions
/// under which it is compiled holds in test builds only.
pub open spec fn is_test_only(cfg_attrs: Seq<CfgAttrView>) -> bool {
    some_need_test(cfg_attrs)
}

/// The view of a condition is made of the views of its parts.
proof fn lemma_cfg_view(c: CfgAttr)
    ensures
        match c {
            CfgAttr::Name(name) => c@ == CfgAttrView::Name(name@),
            CfgAttr::List { op, args } => c@ == (CfgAttrView::List {
                op: op@,
                args: cfg_views(args@),
            }),
            CfgAttr::Other => c@ == CfgAttrView::Other,
        },
{
}

/// Whether a condition holds in test builds only.
fn needs_test_exec(c: &CfgAttr) -> (r: bool)
    ensures
        r == needs_test(c@),
    decreases c,
{
    proof {
        lemma_cfg_view(*c);
    }
    match c {
        CfgAttr::Name(name) => str_eq(name.as_str(), "test"),
        CfgAttr::List { op, args } => {
            proof {
                lemma_cfg_views(args@);
            }
            if str_eq(op.as_str(), "all") {
                some_need_test_exec(args)
            } else if str_eq(op.as_str(), "any") {
                args.len() > 0 && all_need_test_exec(args)
            } else {
                false
            }
        },
        CfgAttr::Other => false,
    }
}

/// Whether one of the conditions holds in test builds only.
fn some_need_test_exec(args: &Vec<CfgAttr>) -> (r: bool)
    ensures
        r == some_need_test(cfg_views(args@)),
    decreases args,
{
    proof {
        lemma_cfg_views(args@);
    }
    let mut i: usize = 0;
    while i < args.len()
        invariant
            i <= args.len(),
            cfg_views(args@).len() == args.len(),
            forall|j: int| 0 <= j < args.len() ==> #[trigger] cfg_views(args@)[j] == args@[j]@,
            forall|j: int| 0 <= j < i ==> !needs_test(#[trigger] cfg_views(args@)[j]),
        decreases args.len() - i,
    {
        if needs_test_exec(&args[i]) {
            assert(needs_test(cfg_views(args@)[i as int]));
            return true;
        }
        i += 1;
    }
    false
}

/// Whether each of the conditions holds in test builds only.
fn all_need_test_exec(args: &Vec<CfgAttr>) -> (r: bool)
    ensures
        r == all_need_test(cfg_views(args@)),
    decreases args,
{
    proof {
        lemma_cfg_views(args@);
    }
    let mut i: usize = 0;
    while i < args.len()
        invariant
            i <= args.len(),
            cfg_views(args@).len() == args.len(),
            forall|j: int| 0 <= j < args.len() ==> #[trigger] cfg_views(args@)[j] == args@[j]@,
            forall|j: int| 0 <= j < i ==> needs_test(#[trigger] cfg_views(args@)[j]),
        decreases args.len() - i,
    {
        if !needs_test_exec(&args[i]) {
            assert(!needs_test(cfg_views(args@)[i as int]));
            return false;
        }
        i += 1;
    }
    true
}

/// Whether a declaration carries the test-only marker, given the conditions
/// of its conditional-compilation attributes.
pub fn is_cfg_test(cfg_attrs: &Vec<CfgAttr>) -> (r: bool)
    ensures
        r == is_test_only(cfg_views(cfg_attrs@)),
{
    some_need_test_exec(cfg_attrs)
}

/// The import paths of the declarations `items`, in their order.
pub open spec fn scope_paths(items: Seq<ScopeItem>) -> Seq<Seq<char>>
    decreases items,
{
    if items.len() == 0 {
        Seq::empty()
    } else {
        scope_paths(items.drop_last()) + scope_item_paths(items.last())
    }
}

/// The import paths of one declaration: those of an import, and those found
/// in the body of a module that stands in the same text, unless the module
/// carries the test-only marker.
pub open spec fn scope_item_paths(item: ScopeItem) -> Seq<Seq<char>>
    decreases item,
{
    match item {
        ScopeItem::Use(tree) => use_paths(tree, Seq::empty()),
        ScopeItem::Mod { cfg_attrs, body: Some(inner) } => if is_test_only(
            cfg_views(cfg_attrs@),
        ) {
            Seq::empty()
        } else {
            scope_paths(inner@)
        },
        _ => Seq::empty(),
    }
}

/// Appends the import paths of the declarations.
pub fn collect_use_paths(items: &Vec<ScopeItem>, uses: &mut Vec<String>)
    ensures
        str_views(final(uses)@) == str_views(old(uses)@) + scope_paths(items@),
    decreases items,
{
    let ghost before = str_views(uses@);
    let mut i: usize = 0;
    assert(before + scope_paths(items@.take(0)) =~= before);
    while i < items.len()
        invariant
            i <= items.len(),
            str_views(uses@) == before + scope_paths(items@.take(i as int)),
        decreases items.len() - i,
    {
        assert(items@.take(i + 1).drop_last() =~= items@.take(i as int));
        assert(items@.take(i + 1).last() == items@[i as int]);
        let ghost sofar = str_views(uses@);
        let ghost added = scope_item_paths(items@[i as int]);
        match &items[i] {
            ScopeItem::Use(tree) => {
                let none = String::new();
                collect_use_tree_paths(tree, none.as_str(), uses);
                assert(added == use_paths(*tree, Seq::empty()));
            },
            ScopeItem::Mod { cfg_attrs, body } => {
                match body {
                    Some(inner) => {
                        if !is_cfg_test(cfg_attrs) {
                            collect_use_paths(inner, uses);
                            assert(added == scope_paths(inner@));
                        } else {
                            assert(sofar + Seq::<Seq<char>>::empty() =~= sofar);
                        }
                    },
                    None => {
                        assert(sofar + Seq::<Seq<char>>::empty() =~= sofar);
                    },
                }
            },
            ScopeItem::Other => {
                assert(sofar + Seq::<Seq<char>>::empty() =~= sofar);
            },
        }
        assert(str_views(uses@) == sofar + added);
        assert(before + (scope_paths(items@.take(i as int)) + added) =~= (before + scope_paths(
            items@.take(i as int),
        )) + added);
        i += 1;
    }
    assert(items@.take(items.len() as int) =~= items@);
}

/// The import paths of a text, given its declarations.
pub fn parse_use_statements(items: &Vec<ScopeItem>) -> (uses: Vec<String>)
    ensures
        str_views(uses@) == scope_paths(items@),
{
    let mut uses: Vec<String> = Vec::new();
    assert(str_views(uses@) =~= Seq::<Seq<char>>::empty());
    collect_use_paths(items, &mut uses);
    assert(Seq::<Seq<char>>::empty() + scope_paths(items@) =~= scope_paths(items@));
    uses
}

/// Gets the file named by the explicit path attributes of a declaration:
/// that of the first.
pub fn get_path_attribute(values: &Vec<String>) -> (r: Option<String>)
    ensures
        match r {
            Some(p) => values@.len() > 0 && p@ == values@[0]@,
            None => values@.len() == 0,
        },
{
    if values.len() > 0 {
        Some(values[0].clone())
    } else {
        None
    }
}

} // verus!
