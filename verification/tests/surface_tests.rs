use rsmap::annotations::{AnnotationEntry, AnnotationStore};
use rsmap::layer1::{format_impl_header, generate_api_surface, write_item};
use rsmap::layer3::{build_index, item_full_path};
use rsmap::model::{CrateInfo, CrateKind, Item, ItemKind, Module, Visibility};

fn item(name: &str, kind: ItemKind, sig: &str, doc: Option<&str>, lines: (usize, usize)) -> Item {
    Item {
        name: name.to_string(),
        kind,
        visibility: Visibility::Pub,
        signature: sig.to_string(),
        doc_comment: doc.map(|d| d.to_string()),
        file_path: "src/lib.rs".to_string(),
        line_start: lines.0,
        line_end: lines.1,
        content_hash: format!("hash-{}", name),
    }
}

fn package(items: Vec<Item>) -> CrateInfo {
    CrateInfo {
        name: "test".to_string(),
        kind: CrateKind::Lib,
        edition: "2021".to_string(),
        version: "0.1.0".to_string(),
        external_deps: vec![],
        root_module: Module {
            path: "crate".to_string(),
            file_path: "src/lib.rs".to_string(),
            file_hash: "abc12345".to_string(),
            doc_comment: None,
            visibility: Visibility::Pub,
            items,
            submodules: vec![],
            use_statements: vec![],
            is_inline: false,
        },
    }
}

#[test]
fn test_generate_api_surface() {
    let crates = vec![package(vec![
        item(
            "Config",
            ItemKind::Struct,
            "pub struct Config {\n    pub name: String,\n}",
            Some("Configuration struct"),
            (1, 3),
        ),
        item(
            "init",
            ItemKind::Function,
            "pub fn init() -> Config;",
            None,
            (5, 10),
        ),
    ])];

    let annotations = AnnotationStore::default();
    let output = generate_api_surface(&crates, &annotations);

    assert!(output.contains("## Types"));
    assert!(output.contains("pub struct Config"));
    assert!(output.contains("## Functions"));
    assert!(output.contains("pub fn init() -> Config;"));
    assert!(output.contains("/// Configuration struct"));
}

#[test]
fn api_surface_is_exactly_the_expected_text() {
    let crates = vec![package(vec![
        item("init", ItemKind::Function, "pub fn init() -> Config;", None, (5, 10)),
        item(
            "Config",
            ItemKind::Struct,
            "pub struct Config {}",
            Some("Configuration struct\nwith two lines"),
            (1, 3),
        ),
        item(
            "Display for Config",
            ItemKind::Impl {
                self_ty: "Config".to_string(),
                trait_name: Some("Display".to_string()),
            },
            "impl Display for Config {\n}",
            None,
            (12, 14),
        ),
        item("MAX", ItemKind::Const, "pub const MAX: u8;", None, (16, 16)),
    ])];
    let output = generate_api_surface(&crates, &AnnotationStore::default());
    assert_eq!(
        output,
        "# Crate: test (lib)\n\n\
         # crate\n\
         <!-- file: src/lib.rs -->\n\n\
         ## Types\n\n\
         /// Configuration struct\n\
         /// with two lines\n\
         pub struct Config {}\n\n\n\
         ## Functions\n\n\
         pub fn init() -> Config;\n\n\n\
         ## Impl Display for Config\n\n\
         impl Display for Config {\n}\n\n\n\
         ## Constants\n\n\
         pub const MAX: u8;\n\n\n\
         ---\n\n"
    );
}

#[test]
fn api_surface_lists_every_group_in_order() {
    let crates = vec![package(vec![
        item("reexport", ItemKind::Use, "pub use a::b;", None, (1, 1)),
        item("m", ItemKind::Macro, "macro_rules! m { ... }", None, (2, 2)),
        item("S", ItemKind::Static, "static S: u8;", None, (3, 3)),
        item("T", ItemKind::Trait, "trait T {\n}", None, (4, 5)),
        item("A", ItemKind::TypeAlias, "type A = u8;", None, (6, 6)),
        item("E", ItemKind::Enum, "enum E {\n}", None, (7, 8)),
    ])];
    let output = generate_api_surface(&crates, &AnnotationStore::default());
    let at = |needle: &str| output.find(needle).unwrap();
    assert!(at("## Types") < at("type A = u8;"));
    assert!(at("type A = u8;") < at("enum E"));
    assert!(at("enum E") < at("## Traits"));
    assert!(at("## Traits") < at("## Constants"));
    assert!(at("## Constants") < at("## Macros"));
    assert!(at("## Macros") < at("## Re-exports"));
    assert!(!output.contains("## Functions"));
}

#[test]
fn api_surface_walks_submodules_after_the_rule() {
    let mut c = package(vec![]);
    c.root_module.submodules.push(Module {
        path: "crate::inner".to_string(),
        file_path: "src/inner.rs".to_string(),
        file_hash: "h".to_string(),
        doc_comment: None,
        visibility: Visibility::Private,
        items: vec![item("f", ItemKind::Function, "fn f();", None, (1, 1))],
        submodules: vec![],
        use_statements: vec![],
        is_inline: false,
    });
    let output = generate_api_surface(&[c], &AnnotationStore::default());
    assert_eq!(
        output,
        "# Crate: test (lib)\n\n# crate\n<!-- file: src/lib.rs -->\n\n---\n\n\
         # crate::inner\n<!-- file: src/inner.rs -->\n\n## Functions\n\nfn f();\n\n\n---\n\n"
    );
}

#[test]
fn write_item_adds_the_note() {
    let mut notes = AnnotationStore::default();
    notes.items.insert(
        "crate::init".to_string(),
        AnnotationEntry {
            note: "starts everything".to_string(),
        },
    );
    let it = item("init", ItemKind::Function, "pub fn init();", Some("Doc"), (1, 1));
    let mut out = String::new();
    write_item(&mut out, &it, &notes, "crate");
    assert_eq!(out, "/// Doc\n// NOTE: starts everything\npub fn init();\n\n");
    let mut other = String::new();
    write_item(&mut other, &it, &notes, "crate::elsewhere");
    assert_eq!(other, "/// Doc\npub fn init();\n\n");
}

#[test]
fn impl_headers() {
    assert_eq!(
        format_impl_header(&ItemKind::Impl {
            self_ty: "Expr".to_string(),
            trait_name: Some("Evaluable".to_string()),
        }),
        "Impl Evaluable for Expr"
    );
    assert_eq!(
        format_impl_header(&ItemKind::Impl {
            self_ty: "Expr".to_string(),
            trait_name: None,
        }),
        "Impl Expr"
    );
    assert_eq!(format_impl_header(&ItemKind::Function), "Impl");
}

#[test]
fn test_generate_index() {
    let crates = vec![package(vec![
        item("Config", ItemKind::Struct, "pub struct Config {}", None, (1, 5)),
        item("init", ItemKind::Function, "pub fn init();", None, (7, 15)),
    ])];

    let index = build_index(&crates);

    assert!(index.get("crate::Config").is_some());
    assert!(index.get("crate::init").is_some());

    let config = index.get("crate::Config").unwrap();
    assert_eq!(config.kind, "struct");
    assert_eq!(config.visibility, "pub");
    assert_eq!(config.line_start, 1);
    assert_eq!(config.line_end, 5);
    assert_eq!(config.file, "src/lib.rs");
    assert_eq!(index.len(), 2);
}

#[test]
fn index_names_implementation_blocks_by_what_they_implement() {
    let block = item(
        "ignored",
        ItemKind::Impl {
            self_ty: "Expr".to_string(),
            trait_name: Some("Evaluable".to_string()),
        },
        "impl Evaluable for Expr {\n}",
        None,
        (3, 9),
    );
    let bare = item(
        "ignored",
        ItemKind::Impl {
            self_ty: "Expr".to_string(),
            trait_name: None,
        },
        "impl Expr {\n}",
        None,
        (10, 12),
    );
    assert_eq!(
        item_full_path("crate::engine", &block),
        "crate::engine::impl Evaluable for Expr"
    );
    assert_eq!(item_full_path("crate::engine", &bare), "crate::engine::impl Expr");
    let mut private = item("helper", ItemKind::Function, "fn helper();", None, (1, 1));
    private.visibility = Visibility::Private;
    assert_eq!(item_full_path("crate", &private), "crate::helper");

    let index = build_index(&[package(vec![block, bare, private])]);
    let entry = index.get("crate::impl Evaluable for Expr").unwrap();
    assert_eq!(entry.kind, "impl Evaluable for Expr");
    assert_eq!(index.get("crate::impl Expr").unwrap().kind, "impl Expr");
    assert_eq!(index.get("crate::helper").unwrap().visibility, "private");
    assert_eq!(index.key_at(0), "crate::helper");
    assert_eq!(index.key_at(1), "crate::impl Evaluable for Expr");
    assert_eq!(index.key_at(2), "crate::impl Expr");
}

#[test]
fn kinds_and_visibilities_have_their_labels() {
    assert_eq!(ItemKind::Function.label(), "function");
    assert_eq!(ItemKind::Struct.label(), "struct");
    assert_eq!(ItemKind::Enum.label(), "enum");
    assert_eq!(ItemKind::Trait.label(), "trait");
    assert_eq!(ItemKind::TypeAlias.label(), "type_alias");
    assert_eq!(ItemKind::Const.label(), "const");
    assert_eq!(ItemKind::Static.label(), "static");
    assert_eq!(ItemKind::Macro.label(), "macro");
    assert_eq!(ItemKind::Use.label(), "use");
    assert_eq!(Visibility::Pub.label(), "pub");
    assert_eq!(Visibility::PubCrate.label(), "pub(crate)");
    assert_eq!(Visibility::PubSuper.label(), "pub(super)");
    assert_eq!(Visibility::Private.label(), "private");
    assert_eq!(Visibility::Pub.prefix(), "pub ");
    assert_eq!(Visibility::PubCrate.prefix(), "pub(crate) ");
    assert_eq!(Visibility::PubSuper.prefix(), "pub(super) ");
    assert_eq!(Visibility::Private.prefix(), "");
    assert_eq!(CrateKind::Bin.label(), "bin");
    assert_eq!(CrateKind::Lib.label(), "lib");
    assert_eq!(CrateKind::ProcMacro.label(), "proc-macro");
}
