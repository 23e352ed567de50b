use rsmap::hash::{hash_file_contents, hash_item_source};
use rsmap::model::{ItemKind, Visibility};
use rsmap::imports::is_cfg_test;
use rsmap::resolve::{
    check_loaded, mod_file_candidates, resolve_mod_file, resolve_module_tree, ResolveError,
};
use rsmap::syntax::CfgAttr;
use rsmap::source::{Backing, Loaded, ModBody, ModDecl, ParsedItem, ParsedSource, SourceUnit};
use std::path::Path;

fn parsed_fn(name: &str, lines: (usize, usize)) -> ParsedItem {
    ParsedItem {
        name: name.to_string(),
        kind: ItemKind::Function,
        visibility: Visibility::Pub,
        signature: format!("pub fn {}();", name),
        doc_comment: None,
        line_start: lines.0,
        line_end: lines.1,
    }
}

fn unit(file: &str, rel: &str, source: &str, items: Vec<ParsedItem>, decls: Vec<ModDecl>) -> SourceUnit {
    SourceUnit {
        file: file.to_string(),
        file_path: rel.to_string(),
        parsed: ParsedSource {
            source: source.to_string(),
            items,
        },
        doc_comment: None,
        use_statements: vec![],
        decls,
    }
}

fn decl(name: &str, body: ModBody) -> ModDecl {
    ModDecl {
        name: name.to_string(),
        visibility: Visibility::Pub,
        doc_comment: None,
        cfg_attrs: vec![],
        path_override: None,
        body,
    }
}

#[test]
fn test_resolve_mod_file() {
    // This test requires actual filesystem, so we just test the logic
    let result = resolve_mod_file("foo", None, |file: &str| {
        Path::new("/nonexistent").join(file).exists()
    });
    assert!(result.is_none());
}

fn name(n: &str) -> CfgAttr {
    CfgAttr::Name(n.to_string())
}

fn list(op: &str, args: Vec<CfgAttr>) -> CfgAttr {
    CfgAttr::List {
        op: op.to_string(),
        args,
    }
}

#[test]
fn test_is_cfg_test() {
    assert!(is_cfg_test(&vec![name("test")]));
}

#[test]
fn conditions_that_hold_in_test_builds_only() {
    assert!(is_cfg_test(&vec![CfgAttr::Other, list("all", vec![name("test"), name("unix")])]));
    assert!(is_cfg_test(&vec![list("all", vec![CfgAttr::Other, list("all", vec![name("test")])])]));
    assert!(is_cfg_test(&vec![list("any", vec![name("test"), list("all", vec![name("test"), name("unix")])])]));
    assert!(is_cfg_test(&vec![name("unix"), name("test")]));
}

#[test]
fn conditions_that_only_mention_test_mark_nothing() {
    assert!(!is_cfg_test(&vec![]));
    assert!(!is_cfg_test(&vec![name("unix")]));
    assert!(!is_cfg_test(&vec![name("testing")]));
    // not(test)
    assert!(!is_cfg_test(&vec![list("not", vec![name("test")])]));
    // feature = "testing"
    assert!(!is_cfg_test(&vec![CfgAttr::Other]));
    // any(test, feature = "x")
    assert!(!is_cfg_test(&vec![list("any", vec![name("test"), CfgAttr::Other])]));
    assert!(!is_cfg_test(&vec![list("any", vec![])]));
    assert!(!is_cfg_test(&vec![list("all", vec![])]));
    assert!(!is_cfg_test(&vec![list("all", vec![name("unix"), list("not", vec![name("test")])])]));
    assert!(!is_cfg_test(&vec![list("test", vec![name("test")])]));
}

#[test]
fn candidates_in_the_order_they_are_tried() {
    assert_eq!(
        mod_file_candidates("foo", None),
        vec!["foo.rs".to_string(), "foo/mod.rs".to_string()]
    );
    assert_eq!(
        mod_file_candidates("foo", Some("other/place.rs")),
        vec![
            "other/place.rs".to_string(),
            "foo.rs".to_string(),
            "foo/mod.rs".to_string()
        ]
    );
}

#[test]
fn the_first_existing_candidate_wins() {
    let only = |wanted: &'static [&'static str]| move |file: &str| wanted.contains(&file);
    assert_eq!(
        resolve_mod_file("foo", None, only(&["foo.rs", "foo/mod.rs"])),
        Some("foo.rs".to_string())
    );
    assert_eq!(
        resolve_mod_file("foo", None, only(&["foo/mod.rs"])),
        Some("foo/mod.rs".to_string())
    );
    assert_eq!(
        resolve_mod_file("foo", Some("x.rs"), only(&["x.rs", "foo.rs"])),
        Some("x.rs".to_string())
    );
    assert_eq!(
        resolve_mod_file("foo", Some("x.rs"), only(&["foo.rs"])),
        Some("foo.rs".to_string())
    );
    assert_eq!(resolve_mod_file("foo", Some("x.rs"), only(&["bar.rs"])), None);
}

#[test]
fn the_probe_is_not_asked_beyond_the_first_hit() {
    let asked = std::cell::RefCell::new(Vec::new());
    let found = resolve_mod_file("m", Some("p.rs"), |file: &str| {
        asked.borrow_mut().push(file.to_string());
        file == "m.rs"
    });
    assert_eq!(found, Some("m.rs".to_string()));
    assert_eq!(*asked.borrow(), vec!["p.rs".to_string(), "m.rs".to_string()]);
}

fn sample_tree() -> Loaded {
    let eval_source = "pub fn evaluate() {\n}\n";
    let eval = unit(
        "/p/src/engine/eval.rs",
        "src/engine/eval.rs",
        eval_source,
        vec![parsed_fn("evaluate", (1, 2))],
        vec![],
    );
    let engine_source = "//! Engine\npub mod eval;\npub fn run() {}\n";
    let mut engine = unit(
        "/p/src/engine/mod.rs",
        "src/engine/mod.rs",
        engine_source,
        vec![parsed_fn("run", (3, 3))],
        vec![decl("eval", ModBody::External(Backing::Found(Loaded::Parsed(eval))))],
    );
    engine.doc_comment = Some("Engine".to_string());
    engine.use_statements = vec!["crate::models::Value".to_string()];

    let mut tests = decl("tests", ModBody::Inline { parts: vec![], decls: vec![] });
    tests.cfg_attrs = vec![name("test")];
    let mut engine_decl = decl("engine", ModBody::External(Backing::Found(Loaded::Parsed(engine))));
    engine_decl.doc_comment = Some("outer doc".to_string());
    let mut inline = decl(
        "helpers",
        ModBody::Inline {
            parts: vec![ParsedSource {
                source: "fn help () { }".to_string(),
                items: vec![parsed_fn("help", (1, 1))],
            }],
            decls: vec![decl("missing_inner", ModBody::External(Backing::Missing))],
        },
    );
    inline.visibility = Visibility::Private;
    inline.doc_comment = Some("Helpers".to_string());

    let root_source = "pub mod engine;\nmod utils;\nmod helpers { fn help() {} }\npub fn init() {\n}\n";
    let mut root = unit(
        "/p/src/lib.rs",
        "src/lib.rs",
        root_source,
        vec![parsed_fn("init", (4, 5))],
        vec![
            engine_decl,
            decl("utils", ModBody::External(Backing::Missing)),
            inline,
            tests,
        ],
    );
    root.use_statements = vec!["std::collections::HashMap".to_string()];
    Loaded::Parsed(root)
}

#[test]
fn resolving_a_tree() {
    let root = sample_tree();
    assert!(check_loaded(&root));
    let mut warnings = Vec::new();
    let tree = resolve_module_tree(&root, &mut warnings).unwrap();

    assert_eq!(tree.path, "crate");
    assert_eq!(tree.file_path, "src/lib.rs");
    assert!(!tree.is_inline);
    assert_eq!(tree.visibility, Visibility::Pub);
    assert_eq!(tree.doc_comment, None);
    assert_eq!(tree.use_statements, vec!["std::collections::HashMap".to_string()]);
    let root_source = "pub mod engine;\nmod utils;\nmod helpers { fn help() {} }\npub fn init() {\n}\n";
    assert_eq!(tree.file_hash, hash_file_contents(root_source));
    assert_eq!(tree.items.len(), 1);
    assert_eq!(tree.items[0].name, "init");
    assert_eq!(tree.items[0].file_path, "/p/src/lib.rs");
    assert_eq!(tree.items[0].content_hash, hash_item_source(root_source, 4, 5));
    assert_eq!(tree.items[0].content_hash, hash_file_contents("pub fn init() {\n}"));

    // declaration order; the missing and the test-only declaration are left out
    let paths: Vec<&str> = tree.submodules.iter().map(|m| m.path.as_str()).collect();
    assert_eq!(paths, vec!["crate::engine", "crate::helpers"]);

    let engine = &tree.submodules[0];
    assert_eq!(engine.file_path, "src/engine/mod.rs");
    assert_eq!(engine.doc_comment, Some("Engine".to_string()));
    assert_eq!(engine.use_statements, vec!["crate::models::Value".to_string()]);
    assert_eq!(
        engine.file_hash,
        hash_file_contents("//! Engine\npub mod eval;\npub fn run() {}\n")
    );
    assert_ne!(engine.file_hash, tree.file_hash);
    assert_eq!(engine.submodules.len(), 1);
    assert_eq!(engine.submodules[0].path, "crate::engine::eval");
    assert_eq!(engine.submodules[0].doc_comment, None);
    assert_eq!(engine.submodules[0].items[0].name, "evaluate");

    let helpers = &tree.submodules[1];
    assert!(helpers.is_inline);
    assert_eq!(helpers.visibility, Visibility::Private);
    assert_eq!(helpers.doc_comment, Some("Helpers".to_string()));
    assert_eq!(helpers.file_path, "src/lib.rs");
    assert_eq!(helpers.file_hash, tree.file_hash);
    assert!(helpers.use_statements.is_empty());
    assert!(helpers.submodules.is_empty());
    assert_eq!(helpers.items.len(), 1);
    assert_eq!(helpers.items[0].content_hash, hash_file_contents("fn help () { }"));

    let warned: Vec<(&str, &str)> = warnings
        .iter()
        .map(|w| (w.module.as_str(), w.file.as_str()))
        .collect();
    assert_eq!(
        warned,
        vec![("utils", "/p/src/lib.rs"), ("missing_inner", "/p/src/lib.rs")]
    );
}

#[test]
fn resolving_twice_gives_the_same_tree() {
    let mut w1 = Vec::new();
    let mut w2 = Vec::new();
    let a = resolve_module_tree(&sample_tree(), &mut w1).unwrap();
    let b = resolve_module_tree(&sample_tree(), &mut w2).unwrap();
    assert_eq!(format!("{:?}", a), format!("{:?}", b));
    assert_eq!(w1.len(), w2.len());
    let names = |m: &rsmap::model::Module| -> Vec<(String, String, String)> {
        m.all_items()
            .iter()
            .map(|i| (i.name.clone(), i.signature.clone(), i.content_hash.clone()))
            .collect()
    };
    assert_eq!(names(&a), names(&b));
    let paths = |m: &rsmap::model::Module| -> Vec<(String, String)> {
        m.all_modules()
            .iter()
            .map(|x| (x.path.clone(), x.file_hash.clone()))
            .collect()
    };
    assert_eq!(paths(&a), paths(&b));
}

#[test]
fn an_unreadable_root_is_fatal() {
    let root = Loaded::Unreadable {
        file: "/p/src/lib.rs".to_string(),
        message: "no such file".to_string(),
    };
    let mut warnings = Vec::new();
    match resolve_module_tree(&root, &mut warnings) {
        Err(ResolveError::Io { file, message }) => {
            assert_eq!(file, "/p/src/lib.rs");
            assert_eq!(message, "no such file");
        }
        other => panic!("{:?}", other),
    }
    assert!(warnings.is_empty());
}

#[test]
fn an_unparsable_root_is_fatal() {
    let root = Loaded::Unparsable {
        file: "/p/src/lib.rs".to_string(),
        message: "expected item".to_string(),
    };
    match resolve_module_tree(&root, &mut Vec::new()) {
        Err(ResolveError::Parse { file, message }) => {
            assert_eq!(file, "/p/src/lib.rs");
            assert_eq!(message, "expected item");
        }
        other => panic!("{:?}", other),
    }
}

#[test]
fn a_found_file_that_cannot_be_parsed_is_fatal_after_the_warnings_before_it() {
    let broken = Loaded::Unparsable {
        file: "/p/src/b.rs".to_string(),
        message: "bad".to_string(),
    };
    let root = unit(
        "/p/src/lib.rs",
        "src/lib.rs",
        "mod a;\nmod b;\nmod c;\n",
        vec![],
        vec![
            decl("a", ModBody::External(Backing::Missing)),
            decl("b", ModBody::External(Backing::Found(broken))),
            decl("c", ModBody::External(Backing::Missing)),
        ],
    );
    let mut warnings = Vec::new();
    let result = resolve_module_tree(&Loaded::Parsed(root), &mut warnings);
    assert!(matches!(result, Err(ResolveError::Parse { .. })));
    assert_eq!(warnings.len(), 1);
    assert_eq!(warnings[0].module, "a");
}

#[test]
fn a_broken_file_below_a_test_only_declaration_is_never_read() {
    let broken = Loaded::Unreadable {
        file: "/p/src/tests.rs".to_string(),
        message: "denied".to_string(),
    };
    let mut tests = decl("tests", ModBody::External(Backing::Found(broken)));
    tests.cfg_attrs = vec![name("test")];
    let root = unit("/p/src/lib.rs", "src/lib.rs", "", vec![], vec![tests]);
    let mut warnings = Vec::new();
    let tree = resolve_module_tree(&Loaded::Parsed(root), &mut warnings).unwrap();
    assert!(tree.submodules.is_empty());
    assert!(warnings.is_empty());
}

#[test]
fn the_documentation_of_the_file_goes_before_that_of_the_declaration() {
    let mut with_inner = unit("/p/a.rs", "a.rs", "//! inner\n", vec![], vec![]);
    with_inner.doc_comment = Some("inner".to_string());
    let without = unit("/p/b.rs", "b.rs", "", vec![], vec![]);
    let mut a = decl("a", ModBody::External(Backing::Found(Loaded::Parsed(with_inner))));
    a.doc_comment = Some("outer a".to_string());
    let mut b = decl("b", ModBody::External(Backing::Found(Loaded::Parsed(without))));
    b.doc_comment = Some("outer b".to_string());
    b.visibility = Visibility::PubCrate;
    let root = unit("/p/lib.rs", "lib.rs", "", vec![], vec![a, b]);
    let tree = resolve_module_tree(&Loaded::Parsed(root), &mut Vec::new()).unwrap();
    assert_eq!(tree.submodules[0].doc_comment, Some("inner".to_string()));
    assert_eq!(tree.submodules[1].doc_comment, Some("outer b".to_string()));
    assert_eq!(tree.submodules[1].visibility, Visibility::PubCrate);
}

#[test]
fn a_span_outside_its_text_is_found_by_the_check() {
    let root = unit(
        "/p/lib.rs",
        "lib.rs",
        "one line\n",
        vec![parsed_fn("far", (5, 6))],
        vec![],
    );
    assert!(!check_loaded(&Loaded::Parsed(root)));
    let nested = unit(
        "/p/lib.rs",
        "lib.rs",
        "",
        vec![],
        vec![decl(
            "inner",
            ModBody::Inline {
                parts: vec![ParsedSource {
                    source: "fn f () { }".to_string(),
                    items: vec![parsed_fn("f", (3, 2))],
                }],
                decls: vec![],
            },
        )],
    );
    assert!(!check_loaded(&Loaded::Parsed(nested)));
}

#[test]
fn the_paths_of_a_resolved_tree_are_all_different() {
    let root = sample_tree();
    let mut warnings = Vec::new();
    let tree = resolve_module_tree(&root, &mut warnings).unwrap();
    let paths: Vec<String> = tree.all_modules().iter().map(|m| m.path.clone()).collect();
    assert_eq!(
        paths,
        vec![
            "crate".to_string(),
            "crate::engine".to_string(),
            "crate::engine::eval".to_string(),
            "crate::helpers".to_string()
        ]
    );
    for i in 0..paths.len() {
        for j in 0..i {
            assert_ne!(paths[i], paths[j]);
        }
    }
}

#[test]
fn only_test_only_declarations_are_pruned() {
    let mut kept = decl("live", ModBody::Inline { parts: vec![], decls: vec![] });
    kept.cfg_attrs = vec![list("not", vec![name("test")])];
    let mut other = decl("extra", ModBody::Inline { parts: vec![], decls: vec![] });
    other.cfg_attrs = vec![CfgAttr::Other];
    let mut pruned = decl("tests", ModBody::Inline { parts: vec![], decls: vec![] });
    pruned.cfg_attrs = vec![list("all", vec![name("test"), name("unix")])];
    let root = Loaded::Parsed(unit("/p/src/lib.rs", "src/lib.rs", "", vec![], vec![kept, other, pruned]));
    let mut warnings = Vec::new();
    let tree = resolve_module_tree(&root, &mut warnings).unwrap();
    let paths: Vec<&str> = tree.submodules.iter().map(|m| m.path.as_str()).collect();
    assert_eq!(paths, vec!["crate::live", "crate::extra"]);
    assert!(warnings.is_empty());
}
