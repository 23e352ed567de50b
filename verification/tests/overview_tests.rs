use rsmap::annotations::{AnnotationEntry, AnnotationStore};
use rsmap::layer0::{generate_overview, get_module_description, write_module_tree};
use rsmap::model::{CrateInfo, CrateKind, Module, Visibility};

fn leaf(path: &str, file: &str, hash: &str, doc: Option<&str>) -> Module {
    Module {
        path: path.to_string(),
        file_path: file.to_string(),
        file_hash: hash.to_string(),
        doc_comment: doc.map(|d| d.to_string()),
        visibility: Visibility::Pub,
        items: vec![],
        submodules: vec![],
        use_statements: vec![],
        is_inline: false,
    }
}

fn sample_crate() -> CrateInfo {
    let mut root = leaf("crate", "src/lib.rs", "abc123", Some("Main library crate"));
    root.submodules.push(leaf(
        "crate::config",
        "src/config.rs",
        "def456",
        Some("Configuration module"),
    ));
    root.submodules
        .push(leaf("crate::engine", "src/engine/mod.rs", "ghi789", None));
    CrateInfo {
        name: "test_crate".to_string(),
        kind: CrateKind::Lib,
        edition: "2021".to_string(),
        version: "0.1.0".to_string(),
        external_deps: vec!["serde".to_string(), "tokio".to_string()],
        root_module: root,
    }
}

#[test]
fn test_generate_overview() {
    let crates = vec![sample_crate()];
    let annotations = AnnotationStore::default();
    let output = generate_overview(&crates, &annotations);

    assert!(output.contains("# Crate: test_crate (lib)"));
    assert!(output.contains("Edition: 2021"));
    assert!(output.contains("serde, tokio"));
    assert!(output.contains("- crate — Main library crate"));
    assert!(output.contains("  - config — Configuration module"));
}

#[test]
fn overview_is_exactly_the_expected_text() {
    let crates = vec![sample_crate()];
    let annotations = AnnotationStore::default();
    let output = generate_overview(&crates, &annotations);
    assert_eq!(
        output,
        "# Crate: test_crate (lib)\n\
         Edition: 2021\n\
         Version: 0.1.0\n\
         External deps: serde, tokio\n\
         \n\
         ## Module Tree\n\
         - crate — Main library crate\n\
         \x20 - config — Configuration module\n\
         \x20 - engine\n\
         \n"
    );
}

#[test]
fn overview_without_dependencies_has_no_dependency_line() {
    let mut c = sample_crate();
    c.external_deps.clear();
    c.kind = CrateKind::ProcMacro;
    let output = generate_overview(&[c], &AnnotationStore::default());
    assert!(output.starts_with("# Crate: test_crate (proc-macro)\nEdition: 2021\nVersion: 0.1.0\n\n## Module Tree\n"));
    assert!(!output.contains("External deps"));
}

#[test]
fn overview_of_no_packages_is_empty() {
    assert_eq!(generate_overview(&[], &AnnotationStore::default()), "");
}

#[test]
fn description_prefers_documentation_over_notes() {
    let mut notes = AnnotationStore::default();
    notes.modules.insert(
        "crate::a".to_string(),
        AnnotationEntry {
            note: "from the note".to_string(),
        },
    );
    let documented = leaf("crate::a", "a.rs", "h", Some("  First line  \nsecond line"));
    assert_eq!(get_module_description(&documented, &notes), "First line");
    let blank = leaf("crate::a", "a.rs", "h", Some("   \nsecond line"));
    assert_eq!(get_module_description(&blank, &notes), "from the note");
    let bare = leaf("crate::a", "a.rs", "h", None);
    assert_eq!(get_module_description(&bare, &notes), "from the note");
    let other = leaf("crate::b", "b.rs", "h", None);
    assert_eq!(get_module_description(&other, &notes), "");
    let empty_doc = leaf("crate::b", "b.rs", "h", Some(""));
    assert_eq!(get_module_description(&empty_doc, &notes), "");
}

#[test]
fn an_empty_note_counts_as_none() {
    let mut notes = AnnotationStore::default();
    notes.modules.insert(
        "crate::a".to_string(),
        AnnotationEntry {
            note: String::new(),
        },
    );
    let bare = leaf("crate::a", "a.rs", "h", None);
    assert_eq!(get_module_description(&bare, &notes), "");
}

#[test]
fn module_tree_indents_two_spaces_a_level() {
    let mut root = leaf("crate", "src/lib.rs", "h", None);
    let mut a = leaf("crate::a", "src/a.rs", "h", None);
    a.submodules.push(leaf("crate::a::b", "src/a/b.rs", "h", Some("deep")));
    root.submodules.push(a);
    root.submodules.push(leaf("crate::c", "src/c.rs", "h", None));
    let mut out = String::from(">");
    write_module_tree(&mut out, &root, 1, &AnnotationStore::default());
    assert_eq!(out, ">  - crate\n    - a\n      - b — deep\n    - c\n");
}
