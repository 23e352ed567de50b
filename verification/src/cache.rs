//! The snapshot of all digests of a resolved tree, and the comparisons of two
//! snapshots that decide what has changed.

use vstd::prelude::*;
use crate::model::{CrateInfo, Item, Module};
use crate::strmap::StrMap;
use crate::text::str_eq;

verus! {

/// What the snapshot records of a file.
#[derive(Debug, Clone)]
pub struct CacheFileEntry {
    pub hash: String,
    pub last_indexed: String,
}

/// The snapshot of all digests: the single source of truth for detecting
/// changes.
#[derive(Debug)]
pub struct Cache {
    /// File path to the file's digest and the time it was indexed.
    pub files: StrMap<CacheFileEntry>,
    /// Module path to the digest of the module's file.
    pub modules: StrMap<String>,
    /// Item path to the digest of the item's lines.
    pub items: StrMap<String>,
}

/// A snapshot as three maps over character sequences. A file's entry is its
/// digest and the time.
pub struct CacheView {
    pub files: Map<Seq<char>, (Seq<char>, Seq<char>)>,
    pub modules: Map<Seq<char>, Seq<char>>,
    pub items: Map<Seq<char>, Seq<char>>,
}

impl View for Cache {
    type V = CacheView;

    open spec fn view(&self) -> CacheView {
        CacheView {
            files: self.files@.map_values(|e: CacheFileEntry| (e.hash@, e.last_indexed@)),
            modules: self.modules@.map_values(|d: String| d@),
            items: self.items@.map_values(|d: String| d@),
        }
    }
}

/// The snapshot without any entry.
pub open spec fn empty_cache() -> CacheView {
    CacheView { files: Map::empty(), modules: Map::empty(), items: Map::empty() }
}

/// Whether the digest under `path` differs between two maps in a way that
/// counts as a change: `new` has an entry for `path`, and `old` has none or
/// one with another digest.
pub open spec fn hash_changed(
    old_map: Map<Seq<char>, Seq<char>>,
    new_map: Map<Seq<char>, Seq<char>>,
    path: Seq<char>,
) -> bool {
    new_map.contains_key(path) && (!old_map.contains_key(path) || old_map[path] != new_map[path])
}

/// The four cases of a comparison: a path absent from both snapshots has not
/// changed; one that only the new snapshot has, has; one that both have has
/// changed exactly if the digests differ. A path that only the old snapshot
/// has counts as unchanged.
pub proof fn lemma_hash_changed_cases(
    old_map: Map<Seq<char>, Seq<char>>,
    new_map: Map<Seq<char>, Seq<char>>,
    path: Seq<char>,
)
    ensures
        !old_map.contains_key(path) && !new_map.contains_key(path) ==> !hash_changed(
            old_map,
            new_map,
            path,
        ),
        !old_map.contains_key(path) && new_map.contains_key(path) ==> hash_changed(
            old_map,
            new_map,
            path,
        ),
        old_map.contains_key(path) && new_map.contains_key(path) && old_map[path] == new_map[path]
            ==> !hash_changed(old_map, new_map, path),
        old_map.contains_key(path) && new_map.contains_key(path) && old_map[path] != new_map[path]
            ==> hash_changed(old_map, new_map, path),
        old_map.contains_key(path) && !new_map.contains_key(path) ==> !hash_changed(
            old_map,
            new_map,
            path,
        ),
{
}

/// The path of an item in the snapshot: the module's path, the separator and
/// the item's name.
pub open spec fn item_key(mod_path: Seq<char>, name: Seq<char>) -> Seq<char> {
    mod_path + "::"@ + name
}

/// The item digests `m` with those of `items`, which stand in the module
/// `mod_path`: a later item replaces an earlier one of the same name.
pub open spec fn with_items(
    m: Map<Seq<char>, Seq<char>>,
    mod_path: Seq<char>,
    items: Seq<Item>,
) -> Map<Seq<char>, Seq<char>>
    decreases items.len(),
{
    if items.len() == 0 {
        m
    } else {
        with_items(m, mod_path, items.drop_last()).insert(
            item_key(mod_path, items.last().name@),
            items.last().content_hash@,
        )
    }
}

/// The snapshot `c` with what the module `m` itself adds at the time `now`.
/// The first module seen for a file path decides the file's entry.
pub open spec fn with_module(c: CacheView, m: Module, now: Seq<char>) -> CacheView {
    CacheView {
        files: if c.files.contains_key(m.file_path@) {
            c.files
        } else {
            c.files.insert(m.file_path@, (m.file_hash@, now))
        },
        modules: c.modules.insert(m.path@, m.file_hash@),
        items: with_items(c.items, m.path@, m.items@),
    }
}

/// The snapshot `c` with what each module of `mods` adds, in their order.
pub open spec fn with_modules(c: CacheView, mods: Seq<Module>, now: Seq<char>) -> CacheView
    decreases mods.len(),
{
    if mods.len() == 0 {
        c
    } else {
        with_module(with_modules(c, mods.drop_last(), now), mods.last(), now)
    }
}

/// The snapshot of the packages `crates` taken at the time `now`.
pub open spec fn snapshot(crates: Seq<CrateInfo>, now: Seq<char>) -> CacheView
    decreases crates.len(),
{
    if crates.len() == 0 {
        empty_cache()
    } else {
        with_modules(
            snapshot(crates.drop_last(), now),
            crates.last().root_module.all_modules_spec(),
            now,
        )
    }
}

/// `chrono::Utc::now`, written out by `DateTime::to_rfc3339`: the present
/// time as text. Nothing is claimed of the text, and nothing is proved of
/// the call, which does not return on a machine whose clock stands before
/// the year 1970.
#[verifier::external_body]
fn current_time() -> String {
    chrono::Utc::now().to_rfc3339()
}

impl Default for Cache {
    fn default() -> (r: Self)
        ensures
            r@ == empty_cache(),
    {
        let r = Cache { files: StrMap::new(), modules: StrMap::new(), items: StrMap::new() };
        assert(r@.files =~= Map::empty());
        assert(r@.modules =~= Map::empty());
        assert(r@.items =~= Map::empty());
        r
    }
}

impl Cache {
    /// Builds the snapshot of the packages, with the present time for every
    /// file. The time is read from the machine's clock: the call does not
    /// return on a machine whose clock stands before the year 1970.
    pub fn from_crates(crates: &[CrateInfo]) -> (cache: Self)
        ensures
            exists|now: Seq<char>| cache@ == snapshot(crates@, now),
    {
        let now = current_time();
        Self::from_crates_at(crates, now.as_str())
    }

    /// Builds the snapshot of the packages, with the time `now` for every
    /// file.
    pub fn from_crates_at(crates: &[CrateInfo], now: &str) -> (cache: Self)
        ensures
            cache@ == snapshot(crates@, now@),
    {
        let mut cache = Cache::default();
        let mut i: usize = 0;
        assert(crates@.take(0) =~= Seq::<CrateInfo>::empty());
        while i < crates.len()
            invariant
                i <= crates.len(),
                cache@ == snapshot(crates@.take(i as int), now@),
            decreases crates.len() - i,
        {
            assert(crates@.take(i + 1).drop_last() =~= crates@.take(i as int));
            collect_hashes(&crates[i].root_module, &mut cache, now);
            i += 1;
        }
        assert(crates@.take(crates.len() as int) =~= crates@);
        cache
    }

    /// Whether a file is unchanged since the snapshot was taken: true only if
    /// the snapshot has an entry for the path with the same digest.
    pub fn is_file_unchanged(&self, file_path: &str, current_hash: &str) -> (r: bool)
        ensures
            r == (self@.files.contains_key(file_path@) && self@.files[file_path@].0
                == current_hash@),
            !self@.files.contains_key(file_path@) ==> !r,
            self@.files.contains_key(file_path@) && self@.files[file_path@].0 != current_hash@
                ==> !r,
    {
        match self.files.get(file_path) {
            Some(entry) => str_eq(entry.hash.as_str(), current_hash),
            None => false,
        }
    }

    /// Whether a module's digest changed from this snapshot to the newer
    /// snapshot `other`.
    pub fn module_hash_changed(&self, other: &Cache, mod_path: &str) -> (r: bool)
        ensures
            r == hash_changed(self@.modules, other@.modules, mod_path@),
    {
        proof {
            lemma_hash_changed_cases(self@.modules, other@.modules, mod_path@);
        }
        match (self.modules.get(mod_path), other.modules.get(mod_path)) {
            (Some(old_hash), Some(new_hash)) => !str_eq(old_hash.as_str(), new_hash.as_str()),
            (None, Some(_)) => true,
            _ => false,
        }
    }

    /// Whether an item's digest changed from this snapshot to the newer
    /// snapshot `other`.
    pub fn item_hash_changed(&self, other: &Cache, item_path: &str) -> (r: bool)
        ensures
            r == hash_changed(self@.items, other@.items, item_path@),
    {
        proof {
            lemma_hash_changed_cases(self@.items, other@.items, item_path@);
        }
        match (self.items.get(item_path), other.items.get(item_path)) {
            (Some(old_hash), Some(new_hash)) => !str_eq(old_hash.as_str(), new_hash.as_str()),
            (None, Some(_)) => true,
            _ => false,
        }
    }
}

/// Adds to the snapshot what one module adds.
fn collect_module(module: &Module, cache: &mut Cache, now: &str)
    ensures
        final(cache)@ == with_module(old(cache)@, *module, now@),
{
    let ghost c0 = cache@;
    if !cache.files.contains_key(module.file_path.as_str()) {
        cache.files.insert(
            module.file_path.clone(),
            CacheFileEntry { hash: module.file_hash.clone(), last_indexed: now.to_string() },
        );
    }
    assert(cache@.files =~= with_module(c0, *module, now@).files);
    cache.modules.insert(module.path.clone(), module.file_hash.clone());
    assert(cache@.modules =~= with_module(c0, *module, now@).modules);
    let mut i: usize = 0;
    while i < module.items.len()
        invariant
            i <= module.items.len(),
            cache@.files == with_module(c0, *module, now@).files,
            cache@.modules == with_module(c0, *module, now@).modules,
            cache@.items == with_items(c0.items, module.path@, module.items@.take(i as int)),
        decreases module.items.len() - i,
    {
        assert(module.items@.take(i + 1).drop_last() =~= module.items@.take(i as int));
        let ghost sofar = cache@.items;
        let mut key = module.path.clone();
        key.append("::");
        key.append(module.items[i].name.as_str());
        cache.items.insert(key, module.items[i].content_hash.clone());
        assert(cache@.items =~= sofar.insert(
            item_key(module.path@, module.items@[i as int].name@),
            module.items@[i as int].content_hash@,
        ));
        i += 1;
    }
    assert(module.items@.take(module.items.len() as int) =~= module.items@);
}

/// Adds to the snapshot the digests of the module and of all modules below
/// it.
pub fn collect_hashes(module: &Module, cache: &mut Cache, now: &str)
    ensures
        final(cache)@ == with_modules(old(cache)@, module.all_modules_spec(), now@),
{
    let mods = module.all_modules();
    let ghost all = module.all_modules_spec();
    let ghost c0 = cache@;
    let mut i: usize = 0;
    while i < mods.len()
        invariant
            i <= mods.len(),
            mods@.map_values(|m: &Module| *m) == all,
            cache@ == with_modules(c0, all.take(i as int), now@),
        decreases mods.len() - i,
    {
        assert(all.take(i + 1).drop_last() =~= all.take(i as int));
        assert(all.take(i + 1).last() == *mods@[i as int]);
        collect_module(mods[i], cache, now);
        i += 1;
    }
    assert(all.take(mods.len() as int) =~= all);
}

/// The first module seen for a file decides the file's entry: where the
/// snapshot had no entry for the file path of one of the modules, it has
/// afterwards the digest of the first module with that file path, and the
/// time.
pub proof fn lemma_first_module_decides_file(
    c: CacheView,
    mods: Seq<Module>,
    now: Seq<char>,
    first: int,
)
    requires
        0 <= first < mods.len(),
        !c.files.contains_key(mods[first].file_path@),
        forall|j: int| 0 <= j < first ==> (#[trigger] mods[j]).file_path@ != mods[first].file_path@,
    ensures
        with_modules(c, mods, now).files.contains_key(mods[first].file_path@),
        with_modules(c, mods, now).files[mods[first].file_path@] == (mods[first].file_hash@, now),
    decreases mods.len(),
{
    let path = mods[first].file_path@;
    let rest = mods.drop_last();
    if first < rest.len() {
        assert(rest[first] == mods[first]);
        assert forall|j: int| 0 <= j < first implies (#[trigger] rest[j]).file_path@ != path by {
            assert(rest[j] == mods[j]);
        }
        lemma_first_module_decides_file(c, rest, now, first);
    } else {
        lemma_earlier_modules_leave_file(c, rest, now, path);
    }
}

/// Modules of other files leave a file without an entry.
proof fn lemma_earlier_modules_leave_file(
    c: CacheView,
    mods: Seq<Module>,
    now: Seq<char>,
    path: Seq<char>,
)
    requires
        !c.files.contains_key(path),
        forall|j: int| 0 <= j < mods.len() ==> (#[trigger] mods[j]).file_path@ != path,
    ensures
        !with_modules(c, mods, now).files.contains_key(path),
    decreases mods.len(),
{
    if mods.len() > 0 {
        let rest = mods.drop_last();
        assert forall|j: int| 0 <= j < rest.len() implies (#[trigger] rest[j]).file_path@
            != path by {
            assert(rest[j] == mods[j]);
        }
        lemma_earlier_modules_leave_file(c, rest, now, path);
        assert(mods[mods.len() - 1].file_path@ != path);
    }
}

/// The snapshot has a digest for exactly the module paths it had one for and
/// those of the modules.
pub proof fn lemma_modules_of_snapshot(
    c: CacheView,
    mods: Seq<Module>,
    now: Seq<char>,
    path: Seq<char>,
)
    ensures
        with_modules(c, mods, now).modules.contains_key(path) <==> c.modules.contains_key(path)
            || exists|i: int| 0 <= i < mods.len() && (#[trigger] mods[i]).path@ == path,
    decreases mods.len(),
{
    if mods.len() > 0 {
        let rest = mods.drop_last();
        lemma_modules_of_snapshot(c, rest, now, path);
        if exists|i: int| 0 <= i < rest.len() && (#[trigger] rest[i]).path@ == path {
            let i = choose|i: int| 0 <= i < rest.len() && (#[trigger] rest[i]).path@ == path;
            assert(mods[i] == rest[i]);
        }
        if exists|i: int| 0 <= i < mods.len() && (#[trigger] mods[i]).path@ == path {
            let i = choose|i: int| 0 <= i < mods.len() && (#[trigger] mods[i]).path@ == path;
            if i < rest.len() {
                assert(rest[i] == mods[i]);
            }
        }
    }
}

/// The last module of a path decides the digest of the path.
pub proof fn lemma_last_module_decides_digest(
    c: CacheView,
    mods: Seq<Module>,
    now: Seq<char>,
    last: int,
)
    requires
        0 <= last < mods.len(),
        forall|j: int| last < j < mods.len() ==> (#[trigger] mods[j]).path@ != mods[last].path@,
    ensures
        with_modules(c, mods, now).modules.contains_key(mods[last].path@),
        with_modules(c, mods, now).modules[mods[last].path@] == mods[last].file_hash@,
    decreases mods.len(),
{
    let rest = mods.drop_last();
    if last < rest.len() {
        assert(rest[last] == mods[last]);
        assert forall|j: int| last < j < rest.len() implies (#[trigger] rest[j]).path@
            != rest[last].path@ by {
            assert(rest[j] == mods[j]);
        }
        lemma_last_module_decides_digest(c, rest, now, last);
        assert(mods[mods.len() - 1].path@ != mods[last].path@);
    }
}

} // verus!
