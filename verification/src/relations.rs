//! The four cross-reference views of a package and how the modules of its
//! tree fill them: which types implement which interfaces, which types
//! convert into which, which modules import from which, and which modules
//! mention which type names.

use vstd::prelude::*;
use crate::model::{display_path, CrateInfo, Item, ItemKind, Module};
use crate::names::{
    clean_type_name, clean_type_name_spec, conversion_source, extract_from_source,
    extract_internal_module_dep, extract_type_names_from_signature, module_dep, type_names,
};
use crate::strset::{
    lemma_rel_with, lemma_rel_with_no_self_pairs, lemma_rel_with_push, members, no_self_pairs,
    rel_touch, rel_with, SetMap,
};
use crate::text::{
    from_chars, starts_with, starts_with_exec, str_eq, str_views, strip_prefix_exec, to_chars,
};

verus! {

/// The interface and the type of an implementation block that implements an
/// interface, both cleaned.
pub open spec fn impl_pair(item: Item) -> Option<(Seq<char>, Seq<char>)> {
    match item.kind {
        ItemKind::Impl { self_ty, trait_name: Some(t) } => Some(
            (clean_type_name_spec(t@), clean_type_name_spec(self_ty@)),
        ),
        _ => None,
    }
}

/// The conversion that an implementation block declares: from the source type
/// named in its interface to the type it is for.
pub open spec fn conversion_edge(item: Item) -> Option<(Seq<char>, Seq<char>)> {
    match item.kind {
        ItemKind::Impl { self_ty, trait_name: Some(t) } => {
            if starts_with(clean_type_name_spec(t@), "From"@) {
                match conversion_source(t@) {
                    Some(src) => Some((src, clean_type_name_spec(self_ty@))),
                    None => None,
                }
            } else {
                None
            }
        },
        _ => None,
    }
}

/// The pairs "type name, module" for the type names in the signatures of the
/// items of the module shown as `module`.
pub open spec fn usage_pairs(items: Seq<Item>, module: Seq<char>) -> Seq<(Seq<char>, Seq<char>)>
    decreases items.len(),
{
    if items.len() == 0 {
        Seq::empty()
    } else {
        usage_pairs(items.drop_last(), module) + type_names(items.last().signature@).map_values(
            |t: Seq<char>| (t, module),
        )
    }
}

/// The dependency that an import of the module shown as `module` declares: on
/// a module of the package other than itself.
pub open spec fn dep_pair(path: Seq<char>, module: Seq<char>) -> Option<(Seq<char>, Seq<char>)> {
    match module_dep(path) {
        Some(d) => if d != module && d.len() > 0 {
            Some((module, d))
        } else {
            None
        },
        None => None,
    }
}

/// The four cross-reference views as maps from a name to a set of names.
pub struct RelationshipsView {
    /// Interface to the types that implement it.
    pub trait_impls: Map<Seq<char>, Set<Seq<char>>>,
    /// Source type to the types it converts into.
    pub from_impls: Map<Seq<char>, Set<Seq<char>>>,
    /// Module to the modules of the package it imports from.
    pub module_deps: Map<Seq<char>, Set<Seq<char>>>,
    /// Type name to the modules whose signatures mention it.
    pub type_usage: Map<Seq<char>, Set<Seq<char>>>,
}

/// The four cross-reference views of a package.
#[derive(Debug)]
pub struct Relationships {
    /// Interface to the types that implement it.
    pub trait_impls: SetMap,
    /// Source type to the types it converts into.
    pub from_impls: SetMap,
    /// Module to the modules of the package it imports from.
    pub module_deps: SetMap,
    /// Type name to the modules whose signatures mention it.
    pub type_usage: SetMap,
}

impl View for Relationships {
    type V = RelationshipsView;

    open spec fn view(&self) -> RelationshipsView {
        RelationshipsView {
            trait_impls: self.trait_impls@,
            from_impls: self.from_impls@,
            module_deps: self.module_deps@,
            type_usage: self.type_usage@,
        }
    }
}

/// The views with no entry.
pub open spec fn no_relationships() -> RelationshipsView {
    RelationshipsView {
        trait_impls: Map::empty(),
        from_impls: Map::empty(),
        module_deps: Map::empty(),
        type_usage: Map::empty(),
    }
}

/// The views `r` with what the module `m` itself adds: its implementation
/// blocks, the conversions among them, the type names in its signatures, and
/// an entry for the module with the modules it imports from.
pub open spec fn module_effect(r: RelationshipsView, m: Module) -> RelationshipsView {
    let shown = display_path(m.path@);
    RelationshipsView {
        trait_impls: rel_with(r.trait_impls, m.items@.filter_map(|i: Item| impl_pair(i))),
        from_impls: rel_with(r.from_impls, m.items@.filter_map(|i: Item| conversion_edge(i))),
        module_deps: rel_with(
            rel_touch(r.module_deps, shown),
            str_views(m.use_statements@).filter_map(|u: Seq<char>| dep_pair(u, shown)),
        ),
        type_usage: rel_with(r.type_usage, usage_pairs(m.items@, shown)),
    }
}

/// The views `r` with what each module of `mods` adds.
pub open spec fn modules_effect(r: RelationshipsView, mods: Seq<Module>) -> RelationshipsView
    decreases mods.len(),
{
    if mods.len() == 0 {
        r
    } else {
        module_effect(modules_effect(r, mods.drop_last()), mods.last())
    }
}

impl Relationships {
    /// Views with no entry.
    pub fn new() -> (r: Self)
        ensures
            r@ == no_relationships(),
    {
        Relationships {
            trait_impls: SetMap::new(),
            from_impls: SetMap::new(),
            module_deps: SetMap::new(),
            type_usage: SetMap::new(),
        }
    }
}

/// The path of a module without the leading `crate::`.
fn display_path_exec(path: &str) -> (r: String)
    ensures
        r@ == display_path(path@),
{
    let p = to_chars(path);
    let root = to_chars("crate::");
    match strip_prefix_exec(&p, &root) {
        Some(rest) => from_chars(&rest),
        None => path.to_string(),
    }
}

/// Adds to the views what one module adds.
fn collect_module(module: &Module, rel: &mut Relationships)
    ensures
        final(rel)@ == module_effect(old(rel)@, *module),
{
    let shown = display_path_exec(module.path.as_str());
    let ghost r0 = rel@;
    let ghost impls = |i: Item| impl_pair(i);
    let ghost convs = |i: Item| conversion_edge(i);
    rel.module_deps.touch(shown.as_str());
    let ghost deps0 = rel.module_deps@;
    let mut i: usize = 0;
    while i < module.items.len()
        invariant
            i <= module.items.len(),
            impls == |i: Item| impl_pair(i),
            convs == |i: Item| conversion_edge(i),
            rel.module_deps@ == deps0,
            rel.trait_impls@ == rel_with(r0.trait_impls, module.items@.take(i as int).filter_map(impls)),
            rel.from_impls@ == rel_with(r0.from_impls, module.items@.take(i as int).filter_map(convs)),
            rel.type_usage@ == rel_with(r0.type_usage, usage_pairs(module.items@.take(i as int), shown@)),
        decreases module.items.len() - i,
    {
        let item = &module.items[i];
        let ghost done = module.items@.take(i as int);
        let ghost next = module.items@.take(i + 1);
        assert(next.drop_last() =~= done);
        assert(next.last() == *item);
        proof {
            module.items@.lemma_filter_map_take_succ(impls, i as int);
            module.items@.lemma_filter_map_take_succ(convs, i as int);
            assert(done.filter_map(impls) + Seq::empty() =~= done.filter_map(impls));
            assert(done.filter_map(convs) + Seq::empty() =~= done.filter_map(convs));
        }
        match &item.kind {
            ItemKind::Impl { self_ty, trait_name } => {
                match trait_name {
                    Some(t) => {
                        let clean_trait = clean_type_name(t.as_str());
                        let clean_self = clean_type_name(self_ty.as_str());
                        rel.trait_impls.add(clean_trait.as_str(), clean_self.clone());
                        proof {
                            assert(impl_pair(*item) == Some((clean_trait@, clean_self@)));
                            lemma_rel_with_push(
                                r0.trait_impls,
                                done.filter_map(impls),
                                clean_trait@,
                                clean_self@,
                            );
                        }
                        let marker = "From";
                        let ct = to_chars(clean_trait.as_str());
                        let mk = to_chars(marker);
                        if starts_with_exec(&ct, &mk) {
                            match extract_from_source(t.as_str()) {
                                Some(source) => {
                                    rel.from_impls.add(source.as_str(), clean_self);
                                    proof {
                                        assert(conversion_edge(*item) == Some(
                                            (source@, clean_self@),
                                        ));
                                        lemma_rel_with_push(
                                            r0.from_impls,
                                            done.filter_map(convs),
                                            source@,
                                            clean_self@,
                                        );
                                    }
                                },
                                None => {},
                            }
                        }
                    },
                    None => {},
                }
            },
            _ => {},
        }
        let types = extract_type_names_from_signature(item.signature.as_str());
        let ghost names = type_names(item.signature@);
        let ghost tag = |t: Seq<char>| (t, shown@);
        let ghost base = usage_pairs(done, shown@);
        let mut k: usize = 0;
        assert(base + names.take(0).map_values(tag) =~= base);
        while k < types.len()
            invariant
                k <= types.len(),
                str_views(types@) == names,
                tag == |t: Seq<char>| (t, shown@),
                rel.module_deps@ == deps0,
                rel.trait_impls@ == rel_with(r0.trait_impls, next.filter_map(impls)),
                rel.from_impls@ == rel_with(r0.from_impls, next.filter_map(convs)),
                rel.type_usage@ == rel_with(
                    r0.type_usage,
                    base + names.take(k as int).map_values(tag),
                ),
            decreases types.len() - k,
        {
            assert(names[k as int] == types@[k as int]@);
            rel.type_usage.add(types[k].as_str(), shown.clone());
            proof {
                let sofar = base + names.take(k as int).map_values(tag);
                let grown = base + names.take(k + 1).map_values(tag);
                assert(grown =~= sofar.push((names[k as int], shown@)));
                lemma_rel_with_push(r0.type_usage, sofar, names[k as int], shown@);
            }
            k += 1;
        }
        assert(names.take(types.len() as int) =~= names);
        i += 1;
    }
    assert(module.items@.take(module.items.len() as int) =~= module.items@);
    let ghost uses = str_views(module.use_statements@);
    let ghost deps = |u: Seq<char>| dep_pair(u, shown@);
    let mut j: usize = 0;
    while j < module.use_statements.len()
        invariant
            j <= module.use_statements.len(),
            uses == str_views(module.use_statements@),
            deps == |u: Seq<char>| dep_pair(u, shown@),
            rel.trait_impls@ == module_effect(r0, *module).trait_impls,
            rel.from_impls@ == module_effect(r0, *module).from_impls,
            rel.type_usage@ == module_effect(r0, *module).type_usage,
            rel.module_deps@ == rel_with(deps0, uses.take(j as int).filter_map(deps)),
        decreases module.use_statements.len() - j,
    {
        let ghost done = uses.take(j as int);
        let ghost path = module.use_statements@[j as int]@;
        assert(uses[j as int] == path);
        proof {
            uses.lemma_filter_map_take_succ(deps, j as int);
            assert(done.filter_map(deps) + Seq::empty() =~= done.filter_map(deps));
        }
        match extract_internal_module_dep(module.use_statements[j].as_str()) {
            Some(dep) => {
                if !str_eq(dep.as_str(), shown.as_str()) && dep.as_str().unicode_len() > 0 {
                    proof {
                        assert(dep_pair(path, shown@) == Some((shown@, dep@)));
                        lemma_rel_with_push(deps0, done.filter_map(deps), shown@, dep@);
                    }
                    rel.module_deps.add(shown.as_str(), dep);
                }
            },
            None => {},
        }
        j += 1;
    }
    assert(uses.take(module.use_statements.len() as int) =~= uses);
}

/// Adds to the views what the module and all modules below it add.
pub fn collect_relationships(module: &Module, rel: &mut Relationships)
    ensures
        final(rel)@ == modules_effect(old(rel)@, module.all_modules_spec()),
{
    let mods = module.all_modules();
    let ghost all = module.all_modules_spec();
    let ghost r0 = rel@;
    let mut i: usize = 0;
    while i < mods.len()
        invariant
            i <= mods.len(),
            mods@.map_values(|m: &Module| *m) == all,
            rel@ == modules_effect(r0, all.take(i as int)),
        decreases mods.len() - i,
    {
        assert(all.take(i + 1).drop_last() =~= all.take(i as int));
        assert(all.take(i + 1).last() == *mods@[i as int]);
        collect_module(mods[i], rel);
        i += 1;
    }
    assert(all.take(mods.len() as int) =~= all);
}

/// The views of the packages `crates`.
pub open spec fn relationships_of(crates: Seq<CrateInfo>) -> RelationshipsView
    decreases crates.len(),
{
    if crates.len() == 0 {
        no_relationships()
    } else {
        modules_effect(
            relationships_of(crates.drop_last()),
            crates.last().root_module.all_modules_spec(),
        )
    }
}

/// Collects the four views of the packages.
pub fn relationships(crates: &[CrateInfo]) -> (rel: Relationships)
    ensures
        rel@ == relationships_of(crates@),
{
    let mut rel = Relationships::new();
    let mut i: usize = 0;
    assert(crates@.take(0) =~= Seq::<CrateInfo>::empty());
    while i < crates.len()
        invariant
            i <= crates.len(),
            rel@ == relationships_of(crates@.take(i as int)),
        decreases crates.len() - i,
    {
        assert(crates@.take(i + 1).drop_last() =~= crates@.take(i as int));
        collect_relationships(&crates[i].root_module, &mut rel);
        i += 1;
    }
    assert(crates@.take(crates.len() as int) =~= crates@);
    rel
}

/// Each element of a list made by keeping what a function keeps comes from
/// an element of the list it was made from.
proof fn lemma_kept_has_origin<A, B>(s: Seq<A>, f: spec_fn(A) -> Option<B>, k: int)
    requires
        0 <= k < s.filter_map(f).len(),
    ensures
        exists|i: int| 0 <= i < s.len() && f(#[trigger] s[i]) == Some(s.filter_map(f)[k]),
    decreases s.len(),
{
    if s.len() > 0 {
        let rest = s.drop_last();
        if k < rest.filter_map(f).len() {
            lemma_kept_has_origin(rest, f, k);
            let i = choose|i: int|
                0 <= i < rest.len() && f(#[trigger] rest[i]) == Some(rest.filter_map(f)[k]);
            assert(s[i] == rest[i]);
        } else {
            assert(f(s[s.len() - 1]) == Some(s.filter_map(f)[k]));
        }
    }
}

/// Whether every name that has an entry in `deps` is the shown path of a
/// module of `mods`, or had an entry in `before`.
pub open spec fn sources_are_modules(
    deps: Map<Seq<char>, Set<Seq<char>>>,
    before: Map<Seq<char>, Set<Seq<char>>>,
    mods: Seq<Module>,
) -> bool {
    forall|k: Seq<char>| #[trigger]
        deps.contains_key(k) ==> before.contains_key(k) || exists|i: int|
            0 <= i < mods.len() && display_path((#[trigger] mods[i]).path@) == k
}

/// What one module adds to the dependency graph: no module comes to depend
/// on itself, and the only new source of edges is the module.
pub proof fn lemma_module_deps(r: RelationshipsView, m: Module)
    requires
        no_self_pairs(r.module_deps),
    ensures
        no_self_pairs(module_effect(r, m).module_deps),
        forall|k: Seq<char>| #[trigger]
            module_effect(r, m).module_deps.contains_key(k) ==> r.module_deps.contains_key(k) || k
                == display_path(m.path@),
{
    let shown = display_path(m.path@);
    let touched = rel_touch(r.module_deps, shown);
    let f = |u: Seq<char>| dep_pair(u, shown);
    let uses = str_views(m.use_statements@);
    let pairs = uses.filter_map(f);
    assert(no_self_pairs(touched)) by {
        assert forall|k: Seq<char>| !(#[trigger] members(touched, k)).contains(k) by {
            assert(!members(r.module_deps, k).contains(k));
        }
    }
    assert forall|i: int| 0 <= i < pairs.len() implies (#[trigger] pairs[i]).0 != pairs[i].1
        && pairs[i].0 == shown by {
        lemma_kept_has_origin(uses, f, i);
    }
    lemma_rel_with_no_self_pairs(touched, pairs);
    assert forall|k: Seq<char>| #[trigger]
        module_effect(r, m).module_deps.contains_key(k) implies r.module_deps.contains_key(k) || k
        == shown by {
        lemma_rel_with(touched, pairs, k, k);
        if exists|i: int| 0 <= i < pairs.len() && (#[trigger] pairs[i]).0 == k {
            let i = choose|i: int| 0 <= i < pairs.len() && (#[trigger] pairs[i]).0 == k;
            assert(pairs[i].0 == shown);
        }
    }
}

/// What the modules `mods` add to the dependency graph: no module comes to
/// depend on itself, and the only new sources of edges are the modules.
pub proof fn lemma_modules_deps(r: RelationshipsView, mods: Seq<Module>)
    requires
        no_self_pairs(r.module_deps),
    ensures
        no_self_pairs(modules_effect(r, mods).module_deps),
        sources_are_modules(modules_effect(r, mods).module_deps, r.module_deps, mods),
    decreases mods.len(),
{
    if mods.len() > 0 {
        let rest = mods.drop_last();
        let mid = modules_effect(r, rest);
        lemma_modules_deps(r, rest);
        lemma_module_deps(mid, mods.last());
        assert forall|k: Seq<char>| #[trigger]
            modules_effect(r, mods).module_deps.contains_key(k) implies r.module_deps.contains_key(
            k,
        ) || exists|i: int| 0 <= i < mods.len() && display_path((#[trigger] mods[i]).path@)
            == k by {
            if mid.module_deps.contains_key(k) {
                if !r.module_deps.contains_key(k) {
                    let i = choose|i: int|
                        0 <= i < rest.len() && display_path((#[trigger] rest[i]).path@) == k;
                    assert(mods[i] == rest[i]);
                }
            } else {
                assert(display_path(mods[mods.len() - 1].path@) == k);
            }
        }
    }
}

/// The dependency graph of the packages has no edge from a module to
/// itself, and every source of an edge is a module of one of the trees: what
/// the resolver has left out is the source of no edge.
pub proof fn lemma_dependency_graph(crates: Seq<CrateInfo>)
    ensures
        no_self_pairs(relationships_of(crates).module_deps),
        forall|k: Seq<char>| #[trigger]
            relationships_of(crates).module_deps.contains_key(k) ==> exists|c: int, i: int|
                0 <= c < crates.len() && 0 <= i < crates[c].root_module.all_modules_spec().len()
                    && display_path(
                    (#[trigger] crates[c].root_module.all_modules_spec()[i]).path@,
                ) == k,
    decreases crates.len(),
{
    if crates.len() == 0 {
        assert forall|k: Seq<char>| !(#[trigger] members(
            no_relationships().module_deps,
            k,
        )).contains(k) by {}
    } else {
        let rest = crates.drop_last();
        let before = relationships_of(rest);
        let mods = crates.last().root_module.all_modules_spec();
        lemma_dependency_graph(rest);
        lemma_modules_deps(before, mods);
        assert forall|k: Seq<char>| #[trigger]
            relationships_of(crates).module_deps.contains_key(k) implies exists|c: int, i: int|
            0 <= c < crates.len() && 0 <= i < crates[c].root_module.all_modules_spec().len()
                && display_path((#[trigger] crates[c].root_module.all_modules_spec()[i]).path@)
                == k by {
            if before.module_deps.contains_key(k) {
                let (c, i) = choose|c: int, i: int|
                    0 <= c < rest.len() && 0 <= i < rest[c].root_module.all_modules_spec().len()
                        && display_path(
                        (#[trigger] rest[c].root_module.all_modules_spec()[i]).path@,
                    ) == k;
                assert(crates[c] == rest[c]);
                assert(display_path(crates[c].root_module.all_modules_spec()[i].path@) == k);
            } else {
                let i = choose|i: int|
                    0 <= i < mods.len() && display_path((#[trigger] mods[i]).path@) == k;
                let c = crates.len() - 1;
                assert(display_path(crates[c].root_module.all_modules_spec()[i].path@) == k);
            }
        }
    }
}

/// What a function keeps of a list is in the list made of what it keeps,
/// and nothing else is.
proof fn lemma_kept<A, B>(s: Seq<A>, f: spec_fn(A) -> Option<B>, x: B)
    ensures
        s.filter_map(f).contains(x) <==> exists|i: int|
            0 <= i < s.len() && f(#[trigger] s[i]) == Some(x),
    decreases s.len(),
{
    if s.len() > 0 {
        let rest = s.drop_last();
        lemma_kept(rest, f, x);
        if s.filter_map(f).contains(x) {
            let k = choose|k: int| 0 <= k < s.filter_map(f).len() && s.filter_map(f)[k] == x;
            lemma_kept_has_origin(s, f, k);
        }
        if exists|i: int| 0 <= i < s.len() && f(#[trigger] s[i]) == Some(x) {
            let i = choose|i: int| 0 <= i < s.len() && f(#[trigger] s[i]) == Some(x);
            if i < rest.len() {
                assert(rest[i] == s[i]);
                assert(rest.filter_map(f).contains(x));
                let k = choose|k: int|
                    0 <= k < rest.filter_map(f).len() && rest.filter_map(f)[k] == x;
                assert(s.filter_map(f)[k] == x);
            } else {
                assert(s.filter_map(f)[s.filter_map(f).len() - 1] == x);
            }
        }
    }
}

/// Whether an implementation block of one of the modules implements the
/// interface `interface` for the type `ty`.
pub open spec fn implemented_in(mods: Seq<Module>, interface: Seq<char>, ty: Seq<char>) -> bool {
    exists|i: int, j: int|
        0 <= i < mods.len() && 0 <= j < mods[i].items@.len() && impl_pair(
            #[trigger] mods[i].items@[j],
        ) == Some((interface, ty))
}

/// Whether an implementation block of one of the modules declares the
/// conversion from `source` into `target`.
pub open spec fn converted_in(mods: Seq<Module>, source: Seq<char>, target: Seq<char>) -> bool {
    exists|i: int, j: int|
        0 <= i < mods.len() && 0 <= j < mods[i].items@.len() && conversion_edge(
            #[trigger] mods[i].items@[j],
        ) == Some((source, target))
}

/// Whether one of the modules that are shown as `module` imports from the
/// module `dep` of the package.
pub open spec fn imported_in(mods: Seq<Module>, module: Seq<char>, dep: Seq<char>) -> bool {
    exists|i: int, j: int|
        0 <= i < mods.len() && 0 <= j < mods[i].use_statements@.len() && display_path(
            mods[i].path@,
        ) == module && dep_pair(#[trigger] mods[i].use_statements@[j]@, module) == Some(
            (module, dep),
        )
}

/// What the views hold after the modules `mods` are exactly the pairs that
/// the modules give, beside what the views held before: a type is filed
/// under an interface if a block implements the interface for it, a target
/// under a source if a block declares the conversion, and a module under
/// another if that one imports from it.
pub proof fn lemma_views_hold_what_modules_give(
    r: RelationshipsView,
    mods: Seq<Module>,
    k: Seq<char>,
    v: Seq<char>,
)
    ensures
        members(modules_effect(r, mods).trait_impls, k).contains(v) <==> members(
            r.trait_impls,
            k,
        ).contains(v) || implemented_in(mods, k, v),
        members(modules_effect(r, mods).from_impls, k).contains(v) <==> members(
            r.from_impls,
            k,
        ).contains(v) || converted_in(mods, k, v),
        members(modules_effect(r, mods).module_deps, k).contains(v) <==> members(
            r.module_deps,
            k,
        ).contains(v) || imported_in(mods, k, v),
    decreases mods.len(),
{
    if mods.len() > 0 {
        let rest = mods.drop_last();
        let m = mods.last();
        let mid = modules_effect(r, rest);
        let shown = display_path(m.path@);
        lemma_views_hold_what_modules_give(r, rest, k, v);
        let impls = |i: Item| impl_pair(i);
        let convs = |i: Item| conversion_edge(i);
        let deps = |u: Seq<char>| dep_pair(u, shown);
        let uses = str_views(m.use_statements@);
        lemma_rel_with(mid.trait_impls, m.items@.filter_map(impls), k, v);
        lemma_rel_with(mid.from_impls, m.items@.filter_map(convs), k, v);
        lemma_rel_with(rel_touch(mid.module_deps, shown), uses.filter_map(deps), k, v);
        lemma_kept(m.items@, impls, (k, v));
        lemma_kept(m.items@, convs, (k, v));
        lemma_kept(uses, deps, (k, v));
        let last = mods.len() - 1;
        // what the earlier modules give, the modules give
        if implemented_in(rest, k, v) {
            let (i, j) = choose|i: int, j: int|
                0 <= i < rest.len() && 0 <= j < rest[i].items@.len() && impl_pair(
                    #[trigger] rest[i].items@[j],
                ) == Some((k, v));
            assert(mods[i] == rest[i]);
            assert(impl_pair(mods[i].items@[j]) == Some((k, v)));
        }
        if converted_in(rest, k, v) {
            let (i, j) = choose|i: int, j: int|
                0 <= i < rest.len() && 0 <= j < rest[i].items@.len() && conversion_edge(
                    #[trigger] rest[i].items@[j],
                ) == Some((k, v));
            assert(mods[i] == rest[i]);
            assert(conversion_edge(mods[i].items@[j]) == Some((k, v)));
        }
        if imported_in(rest, k, v) {
            let (i, j) = choose|i: int, j: int|
                0 <= i < rest.len() && 0 <= j < rest[i].use_statements@.len() && display_path(
                    rest[i].path@,
                ) == k && dep_pair(#[trigger] rest[i].use_statements@[j]@, k) == Some((k, v));
            assert(mods[i] == rest[i]);
            assert(dep_pair(mods[i].use_statements@[j]@, k) == Some((k, v)));
        }
        // what the last module gives, the modules give
        if exists|j: int| 0 <= j < m.items@.len() && impls(#[trigger] m.items@[j]) == Some((k, v)) {
            let j = choose|j: int|
                0 <= j < m.items@.len() && impls(#[trigger] m.items@[j]) == Some((k, v));
            assert(impl_pair(mods[last].items@[j]) == Some((k, v)));
        }
        if exists|j: int| 0 <= j < m.items@.len() && convs(#[trigger] m.items@[j]) == Some((k, v)) {
            let j = choose|j: int|
                0 <= j < m.items@.len() && convs(#[trigger] m.items@[j]) == Some((k, v));
            assert(conversion_edge(mods[last].items@[j]) == Some((k, v)));
        }
        if exists|j: int| 0 <= j < uses.len() && deps(#[trigger] uses[j]) == Some((k, v)) {
            let j = choose|j: int| 0 <= j < uses.len() && deps(#[trigger] uses[j]) == Some((k, v));
            assert(uses[j] == mods[last].use_statements@[j]@);
            assert(shown == k);
            assert(dep_pair(mods[last].use_statements@[j]@, k) == Some((k, v)));
        }
        // and what the modules give, the earlier ones or the last give
        if implemented_in(mods, k, v) {
            let (i, j) = choose|i: int, j: int|
                0 <= i < mods.len() && 0 <= j < mods[i].items@.len() && impl_pair(
                    #[trigger] mods[i].items@[j],
                ) == Some((k, v));
            if i < last {
                assert(rest[i] == mods[i]);
                assert(impl_pair(rest[i].items@[j]) == Some((k, v)));
            } else {
                assert(impls(m.items@[j]) == Some((k, v)));
            }
        }
        if converted_in(mods, k, v) {
            let (i, j) = choose|i: int, j: int|
                0 <= i < mods.len() && 0 <= j < mods[i].items@.len() && conversion_edge(
                    #[trigger] mods[i].items@[j],
                ) == Some((k, v));
            if i < last {
                assert(rest[i] == mods[i]);
                assert(conversion_edge(rest[i].items@[j]) == Some((k, v)));
            } else {
                assert(convs(m.items@[j]) == Some((k, v)));
            }
        }
        if imported_in(mods, k, v) {
            let (i, j) = choose|i: int, j: int|
                0 <= i < mods.len() && 0 <= j < mods[i].use_statements@.len() && display_path(
                    mods[i].path@,
                ) == k && dep_pair(#[trigger] mods[i].use_statements@[j]@, k) == Some((k, v));
            if i < last {
                assert(rest[i] == mods[i]);
                assert(dep_pair(rest[i].use_statements@[j]@, k) == Some((k, v)));
            } else {
                assert(uses[j] == m.use_statements@[j]@);
                assert(deps(uses[j]) == Some((k, v)));
            }
        }
        assert(members(rel_touch(mid.module_deps, shown), k) == members(mid.module_deps, k));
    }
}

/// The pairs for the type names of a module's items are those of a type name
/// that a signature of the module mentions, with the module.
proof fn lemma_usage_pairs(items: Seq<Item>, module: Seq<char>, ty: Seq<char>, under: Seq<char>)
    ensures
        usage_pairs(items, module).contains((ty, under)) <==> under == module && exists|j: int|
            0 <= j < items.len() && type_names((#[trigger] items[j]).signature@).contains(ty),
    decreases items.len(),
{
    if items.len() > 0 {
        let rest = items.drop_last();
        let names = type_names(items.last().signature@);
        let tagged = names.map_values(|t: Seq<char>| (t, module));
        let all = usage_pairs(items, module);
        lemma_usage_pairs(rest, module, ty, under);
        assert(all == usage_pairs(rest, module) + tagged);
        if all.contains((ty, under)) {
            let k = choose|k: int| 0 <= k < all.len() && all[k] == (ty, under);
            if k < usage_pairs(rest, module).len() {
                assert(usage_pairs(rest, module)[k] == (ty, under));
                let j = choose|j: int|
                    0 <= j < rest.len() && type_names((#[trigger] rest[j]).signature@).contains(ty);
                assert(items[j] == rest[j]);
            } else {
                let n = k - usage_pairs(rest, module).len();
                assert(tagged[n] == (ty, under));
                assert(names[n] == ty);
                assert(type_names(items[items.len() - 1].signature@).contains(ty));
            }
        }
        if under == module && exists|j: int|
            0 <= j < items.len() && type_names((#[trigger] items[j]).signature@).contains(ty) {
            let j = choose|j: int|
                0 <= j < items.len() && type_names((#[trigger] items[j]).signature@).contains(ty);
            if j < rest.len() {
                assert(rest[j] == items[j]);
                let k = choose|k: int|
                    0 <= k < usage_pairs(rest, module).len() && usage_pairs(rest, module)[k] == (
                        ty,
                        under,
                    );
                assert(all[k] == (ty, under));
            } else {
                let n = choose|n: int| 0 <= n < names.len() && names[n] == ty;
                assert(tagged[n] == (ty, under));
                assert(all[usage_pairs(rest, module).len() + n] == (ty, under));
            }
        }
    }
}

/// Whether a signature of one of the modules that are shown as `module`
/// mentions the type name `ty`.
pub open spec fn mentioned_in(mods: Seq<Module>, ty: Seq<char>, module: Seq<char>) -> bool {
    exists|i: int, j: int|
        0 <= i < mods.len() && 0 <= j < mods[i].items@.len() && display_path(mods[i].path@)
            == module && type_names((#[trigger] mods[i].items@[j]).signature@).contains(ty)
}

/// What the type usage holds after the modules `mods` is exactly what the
/// modules give, beside what it held before: a module is filed under a type
/// name if one of its signatures mentions the name.
pub proof fn lemma_usage_holds_what_modules_give(
    r: RelationshipsView,
    mods: Seq<Module>,
    ty: Seq<char>,
    module: Seq<char>,
)
    ensures
        members(modules_effect(r, mods).type_usage, ty).contains(module) <==> members(
            r.type_usage,
            ty,
        ).contains(module) || mentioned_in(mods, ty, module),
    decreases mods.len(),
{
    if mods.len() > 0 {
        let rest = mods.drop_last();
        let m = mods.last();
        let mid = modules_effect(r, rest);
        let shown = display_path(m.path@);
        let last = mods.len() - 1;
        lemma_usage_holds_what_modules_give(r, rest, ty, module);
        lemma_rel_with(mid.type_usage, usage_pairs(m.items@, shown), ty, module);
        lemma_usage_pairs(m.items@, shown, ty, module);
        if mentioned_in(rest, ty, module) {
            let (i, j) = choose|i: int, j: int|
                0 <= i < rest.len() && 0 <= j < rest[i].items@.len() && display_path(
                    rest[i].path@,
                ) == module && type_names((#[trigger] rest[i].items@[j]).signature@).contains(ty);
            assert(mods[i] == rest[i]);
            assert(type_names(mods[i].items@[j].signature@).contains(ty));
        }
        if shown == module && exists|j: int|
            0 <= j < m.items@.len() && type_names((#[trigger] m.items@[j]).signature@).contains(
                ty,
            ) {
            let j = choose|j: int|
                0 <= j < m.items@.len() && type_names(
                    (#[trigger] m.items@[j]).signature@,
                ).contains(ty);
            assert(type_names(mods[last].items@[j].signature@).contains(ty));
        }
        if mentioned_in(mods, ty, module) {
            let (i, j) = choose|i: int, j: int|
                0 <= i < mods.len() && 0 <= j < mods[i].items@.len() && display_path(
                    mods[i].path@,
                ) == module && type_names((#[trigger] mods[i].items@[j]).signature@).contains(ty);
            if i < last {
                assert(rest[i] == mods[i]);
                assert(type_names(rest[i].items@[j].signature@).contains(ty));
            } else {
                assert(type_names(m.items@[j].signature@).contains(ty));
            }
        }
    }
}

} // verus!
