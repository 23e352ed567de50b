//! The lookup index: where each item of the packages stands, by its full
//! path.

use vstd::prelude::*;
use crate::model::{CrateInfo, Item, ItemKind, Module};
use crate::strmap::StrMap;

verus! {

/// Where an item stands, and what it is.
#[derive(Debug, Clone)]
pub struct IndexEntry {
    pub file: String,
    pub line_start: usize,
    pub line_end: usize,
    pub kind: String,
    pub visibility: String,
}

/// An entry of the index over character sequences.
pub struct IndexEntryView {
    pub file: Seq<char>,
    pub line_start: nat,
    pub line_end: nat,
    pub kind: Seq<char>,
    pub visibility: Seq<char>,
}

impl View for IndexEntry {
    type V = IndexEntryView;

    open spec fn view(&self) -> IndexEntryView {
        IndexEntryView {
            file: self.file@,
            line_start: self.line_start as nat,
            line_end: self.line_end as nat,
            kind: self.kind@,
            visibility: self.visibility@,
        }
    }
}

/// The index as a map over character sequences.
pub open spec fn index_view(index: Map<Seq<char>, IndexEntry>) -> Map<Seq<char>, IndexEntryView> {
    index.map_values(|e: IndexEntry| e@)
}

/// The full path of an item of the module `path`: the module's path, the
/// separator, and the item's name; for an implementation block, in place of
/// the name, the word `impl` and what the block implements for which type.
pub open spec fn full_path(path: Seq<char>, item: Item) -> Seq<char> {
    match item.kind {
        ItemKind::Impl { self_ty, trait_name: Some(t) } => path + "::impl "@ + t@ + " for "@
            + self_ty@,
        ItemKind::Impl { self_ty, trait_name: None } => path + "::impl "@ + self_ty@,
        _ => path + "::"@ + item.name@,
    }
}

/// What the index records of an item of the module `m`.
pub open spec fn entry_of(m: Module, item: Item) -> IndexEntryView {
    IndexEntryView {
        file: m.file_path@,
        line_start: item.line_start as nat,
        line_end: item.line_end as nat,
        kind: item.kind.label_spec(),
        visibility: item.visibility.label_spec(),
    }
}

/// The index `index` with the first `n` items of the module `m`: a later
/// item replaces an earlier one of the same full path.
pub open spec fn with_items(index: Map<Seq<char>, IndexEntryView>, m: Module, n: nat) -> Map<
    Seq<char>,
    IndexEntryView,
>
    decreases n,
{
    if n == 0 || n > m.items@.len() {
        index
    } else {
        with_items(index, m, (n - 1) as nat).insert(
            full_path(m.path@, m.items@[n - 1]),
            entry_of(m, m.items@[n - 1]),
        )
    }
}

/// The index `index` with the items of each module of `mods`, in their
/// order.
pub open spec fn with_modules(index: Map<Seq<char>, IndexEntryView>, mods: Seq<Module>) -> Map<
    Seq<char>,
    IndexEntryView,
>
    decreases mods.len(),
{
    if mods.len() == 0 {
        index
    } else {
        with_items(with_modules(index, mods.drop_last()), mods.last(), mods.last().items@.len())
    }
}

/// The index of the packages.
pub open spec fn index_of(crates: Seq<CrateInfo>) -> Map<Seq<char>, IndexEntryView>
    decreases crates.len(),
{
    if crates.len() == 0 {
        Map::empty()
    } else {
        with_modules(index_of(crates.drop_last()), crates.last().root_module.all_modules_spec())
    }
}

/// The full path of an item of the module `path`.
pub fn item_full_path(path: &str, item: &Item) -> (r: String)
    ensures
        r@ == full_path(path@, *item),
{
    let mut r = path.to_string();
    match &item.kind {
        ItemKind::Impl { self_ty, trait_name } => {
            r.append("::impl ");
            match trait_name {
                Some(t) => {
                    r.append(t.as_str());
                    r.append(" for ");
                },
                None => {},
            }
            r.append(self_ty.as_str());
            assert(r@ =~= full_path(path@, *item));
        },
        _ => {
            r.append("::");
            r.append(item.name.as_str());
        },
    }
    r
}

/// Adds to the index the items of the module and of all modules below it.
pub fn collect_index_entries(module: &Module, index: &mut StrMap<IndexEntry>)
    ensures
        index_view(final(index)@) == with_modules(
            index_view(old(index)@),
            module.all_modules_spec(),
        ),
{
    let mods = module.all_modules();
    let ghost all = module.all_modules_spec();
    let ghost start = index_view(index@);
    let mut k: usize = 0;
    while k < mods.len()
        invariant
            k <= mods.len(),
            mods@.map_values(|m: &Module| *m) == all,
            index_view(index@) == with_modules(start, all.take(k as int)),
        decreases mods.len() - k,
    {
        assert(all.take(k + 1).drop_last() =~= all.take(k as int));
        assert(all.take(k + 1).last() == *mods@[k as int]);
        let m = mods[k];
        let ghost base = index_view(index@);
        let mut i: usize = 0;
        while i < m.items.len()
            invariant
                i <= m.items.len(),
                index_view(index@) == with_items(base, *m, i as nat),
            decreases m.items.len() - i,
        {
            let item = &m.items[i];
            let ghost sofar = index_view(index@);
            let entry = IndexEntry {
                file: m.file_path.clone(),
                line_start: item.line_start,
                line_end: item.line_end,
                kind: item.kind.label(),
                visibility: item.visibility.label().to_string(),
            };
            assert(entry@ == entry_of(*m, *item));
            index.insert(item_full_path(m.path.as_str(), item), entry);
            assert(index_view(index@) =~= sofar.insert(full_path(m.path@, *item), entry_of(*m, *item)));
            i += 1;
        }
        k += 1;
    }
    assert(all.take(mods.len() as int) =~= all);
}

/// Builds the lookup index of the packages: full item path to file, line
/// range, kind and visibility.
pub fn build_index(crates: &[CrateInfo]) -> (index: StrMap<IndexEntry>)
    ensures
        index_view(index@) == index_of(crates@),
{
    let mut index: StrMap<IndexEntry> = StrMap::new();
    assert(index_view(index@) =~= Map::empty());
    let mut i: usize = 0;
    assert(crates@.take(0) =~= Seq::<CrateInfo>::empty());
    while i < crates.len()
        invariant
            i <= crates.len(),
            index_view(index@) == index_of(crates@.take(i as int)),
        decreases crates.len() - i,
    {
        assert(crates@.take(i + 1).drop_last() =~= crates@.take(i as int));
        collect_index_entries(&crates[i].root_module, &mut index);
        i += 1;
    }
    assert(crates@.take(crates.len() as int) =~= crates@);
    index
}

} // verus!
