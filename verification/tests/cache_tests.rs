use rsmap::cache::{Cache, CacheFileEntry};
use rsmap::model::{CrateInfo, CrateKind, Item, ItemKind, Module, Visibility};

fn entry(hash: &str) -> CacheFileEntry {
    CacheFileEntry {
        hash: hash.to_string(),
        last_indexed: "2025-01-15T00:00:00Z".to_string(),
    }
}

fn item(name: &str, hash: &str) -> Item {
    Item {
        name: name.to_string(),
        kind: ItemKind::Function,
        visibility: Visibility::Pub,
        signature: format!("pub fn {}();", name),
        doc_comment: None,
        file_path: "src/lib.rs".to_string(),
        line_start: 1,
        line_end: 2,
        content_hash: hash.to_string(),
    }
}

fn module(path: &str, file: &str, hash: &str, inline: bool) -> Module {
    Module {
        path: path.to_string(),
        file_path: file.to_string(),
        file_hash: hash.to_string(),
        doc_comment: None,
        visibility: Visibility::Pub,
        items: vec![],
        submodules: vec![],
        use_statements: vec![],
        is_inline: inline,
    }
}

fn package(root: Module) -> CrateInfo {
    CrateInfo {
        name: "demo".to_string(),
        kind: CrateKind::Lib,
        edition: "2021".to_string(),
        version: "0.1.0".to_string(),
        external_deps: vec![],
        root_module: root,
    }
}

#[test]
fn test_is_file_unchanged() {
    let mut cache = Cache::default();
    cache.files.insert("src/lib.rs".to_string(), entry("abc123"));

    assert!(cache.is_file_unchanged("src/lib.rs", "abc123"));
    assert!(!cache.is_file_unchanged("src/lib.rs", "changed"));
    assert!(!cache.is_file_unchanged("src/main.rs", "abc123"));
}

#[test]
fn test_staleness_detection() {
    let mut old_cache = Cache::default();
    old_cache
        .items
        .insert("crate::init".to_string(), "hash_v1".to_string());
    old_cache
        .modules
        .insert("crate".to_string(), "mod_v1".to_string());

    let mut new_cache = Cache::default();
    new_cache
        .items
        .insert("crate::init".to_string(), "hash_v2".to_string()); // changed
    new_cache
        .modules
        .insert("crate".to_string(), "mod_v1".to_string()); // same

    assert!(old_cache.item_hash_changed(&new_cache, "crate::init"));
    assert!(!old_cache.module_hash_changed(&new_cache, "crate"));

    // New item
    new_cache
        .items
        .insert("crate::run".to_string(), "hash_new".to_string());
    assert!(old_cache.item_hash_changed(&new_cache, "crate::run"));
}

#[test]
fn file_unchanged_is_false_on_an_empty_snapshot() {
    let cache = Cache::default();
    assert!(!cache.is_file_unchanged("src/lib.rs", ""));
    assert!(!cache.is_file_unchanged("", ""));
}

#[test]
fn changed_covers_the_four_cases() {
    let mut old_cache = Cache::default();
    let mut new_cache = Cache::default();
    // absent in both
    assert!(!old_cache.module_hash_changed(&new_cache, "crate::a"));
    assert!(!old_cache.item_hash_changed(&new_cache, "crate::a::f"));
    // only in the new snapshot
    new_cache.modules.insert("crate::a".to_string(), "d1".to_string());
    new_cache.items.insert("crate::a::f".to_string(), "i1".to_string());
    assert!(old_cache.module_hash_changed(&new_cache, "crate::a"));
    assert!(old_cache.item_hash_changed(&new_cache, "crate::a::f"));
    // equal digests
    old_cache.modules.insert("crate::a".to_string(), "d1".to_string());
    old_cache.items.insert("crate::a::f".to_string(), "i1".to_string());
    assert!(!old_cache.module_hash_changed(&new_cache, "crate::a"));
    assert!(!old_cache.item_hash_changed(&new_cache, "crate::a::f"));
    // differing digests
    new_cache.modules.insert("crate::a".to_string(), "d2".to_string());
    new_cache.items.insert("crate::a::f".to_string(), "i2".to_string());
    assert!(old_cache.module_hash_changed(&new_cache, "crate::a"));
    assert!(old_cache.item_hash_changed(&new_cache, "crate::a::f"));
}

#[test]
fn an_entry_only_in_the_old_snapshot_is_no_change() {
    let mut old_cache = Cache::default();
    let new_cache = Cache::default();
    old_cache.modules.insert("crate::gone".to_string(), "d".to_string());
    old_cache.items.insert("crate::gone::f".to_string(), "i".to_string());
    assert!(!old_cache.module_hash_changed(&new_cache, "crate::gone"));
    assert!(!old_cache.item_hash_changed(&new_cache, "crate::gone::f"));
}

#[test]
fn snapshot_holds_files_modules_and_items() {
    let mut root = module("crate", "src/lib.rs", "rootdigest", false);
    root.items.push(item("init", "h-init"));
    let mut engine = module("crate::engine", "src/engine/mod.rs", "enginedigest", false);
    engine.items.push(item("run", "h-run"));
    root.submodules.push(engine);
    let crates = vec![package(root)];

    let cache = Cache::from_crates_at(&crates, "2025-01-15T00:00:00Z");

    assert_eq!(cache.files.len(), 2);
    assert_eq!(cache.files.get("src/lib.rs").unwrap().hash, "rootdigest");
    assert_eq!(
        cache.files.get("src/engine/mod.rs").unwrap().last_indexed,
        "2025-01-15T00:00:00Z"
    );
    assert_eq!(cache.modules.len(), 2);
    assert_eq!(cache.modules.get("crate").unwrap(), "rootdigest");
    assert_eq!(cache.modules.get("crate::engine").unwrap(), "enginedigest");
    assert_eq!(cache.items.len(), 2);
    assert_eq!(cache.items.get("crate::init").unwrap(), "h-init");
    assert_eq!(cache.items.get("crate::engine::run").unwrap(), "h-run");
    assert!(cache.items.get("crate::run").is_none());
}

#[test]
fn the_first_module_seen_for_a_file_decides_its_entry() {
    let mut root = module("crate", "src/lib.rs", "owner", false);
    // an inline module repeats its parent's file path
    root.submodules
        .push(module("crate::inner", "src/lib.rs", "other", true));
    let crates = vec![package(root)];

    let cache = Cache::from_crates_at(&crates, "now");

    assert_eq!(cache.files.len(), 1);
    assert_eq!(cache.files.get("src/lib.rs").unwrap().hash, "owner");
    assert_eq!(cache.modules.get("crate::inner").unwrap(), "other");
}

#[test]
fn a_later_item_of_the_same_name_replaces_the_earlier() {
    let mut root = module("crate", "src/lib.rs", "d", false);
    root.items.push(item("twice", "first"));
    root.items.push(item("twice", "second"));
    let cache = Cache::from_crates_at(&[package(root)], "now");
    assert_eq!(cache.items.len(), 1);
    assert_eq!(cache.items.get("crate::twice").unwrap(), "second");
}

#[test]
fn snapshot_of_no_packages_is_empty() {
    let cache = Cache::from_crates_at(&[], "now");
    assert!(cache.files.is_empty());
    assert!(cache.modules.is_empty());
    assert!(cache.items.is_empty());
}

#[test]
fn from_crates_stamps_every_file_with_one_time() {
    let mut root = module("crate", "src/lib.rs", "a", false);
    root.submodules
        .push(module("crate::m", "src/m.rs", "b", false));
    let cache = Cache::from_crates(&[package(root)]);
    let first = cache.files.get("src/lib.rs").unwrap().last_indexed.clone();
    let second = cache.files.get("src/m.rs").unwrap().last_indexed.clone();
    assert!(!first.is_empty());
    assert_eq!(first, second);
    assert_eq!(cache.modules.get("crate::m").unwrap(), "b");
}

#[test]
fn comparing_snapshots_of_changed_trees() {
    let mut before = module("crate", "src/lib.rs", "d1", false);
    before.items.push(item("kept", "same"));
    before.items.push(item("edited", "v1"));
    let mut after = module("crate", "src/lib.rs", "d2", false);
    after.items.push(item("kept", "same"));
    after.items.push(item("edited", "v2"));
    after.items.push(item("added", "new"));

    let old_cache = Cache::from_crates_at(&[package(before)], "t1");
    let new_cache = Cache::from_crates_at(&[package(after)], "t2");

    assert!(old_cache.module_hash_changed(&new_cache, "crate"));
    assert!(!old_cache.item_hash_changed(&new_cache, "crate::kept"));
    assert!(old_cache.item_hash_changed(&new_cache, "crate::edited"));
    assert!(old_cache.item_hash_changed(&new_cache, "crate::added"));
    assert!(!old_cache.item_hash_changed(&new_cache, "crate::never"));
    assert!(new_cache.is_file_unchanged("src/lib.rs", "d2"));
    assert!(!old_cache.is_file_unchanged("src/lib.rs", "d2"));
}
