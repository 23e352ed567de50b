use rsmap::loader::{next_request, supply, Request};
use rsmap::model::Visibility;
use rsmap::resolve::{resolve_mod_file, resolve_module_tree, ResolveError};
use rsmap::source::{Backing, Loaded, ModBody, ModDecl, ParsedSource, SourceUnit};
use rsmap::syntax::CfgAttr;
use std::collections::BTreeMap;

fn decl(name: &str, body: ModBody) -> ModDecl {
    ModDecl {
        name: name.to_string(),
        visibility: Visibility::Pub,
        doc_comment: None,
        cfg_attrs: vec![],
        path_override: None,
        body,
    }
}

fn wanted(name: &str) -> ModDecl {
    decl(name, ModBody::External(Backing::Unresolved))
}

fn test_only(mut d: ModDecl) -> ModDecl {
    d.cfg_attrs = vec![CfgAttr::Name("test".to_string())];
    d
}

fn inline(name: &str, decls: Vec<ModDecl>) -> ModDecl {
    decl(name, ModBody::Inline { parts: vec![], decls })
}

fn unit(file: &str, decls: Vec<ModDecl>) -> Loaded {
    Loaded::Parsed(SourceUnit {
        file: file.to_string(),
        file_path: file.trim_start_matches("/p/").to_string(),
        parsed: ParsedSource {
            source: String::new(),
            items: vec![],
        },
        doc_comment: None,
        use_statements: vec![],
        decls,
    })
}

fn broken(file: &str) -> Loaded {
    Loaded::Unparsable {
        file: file.to_string(),
        message: "bad".to_string(),
    }
}

/// Runs the loop that an application runs, on files held in a map: the
/// names of the modules asked for, in the order they were asked for, and the
/// tree at the end.
fn run(root: Loaded, mut files: BTreeMap<String, Loaded>) -> (Vec<String>, Loaded) {
    let mut asked = Vec::new();
    let mut root = root;
    loop {
        match next_request(&root) {
            Request::Look {
                parent_file,
                name,
                path_override,
            } => {
                asked.push(format!("{} in {}", name, parent_file));
                let dir = parent_file.rsplit_once('/').map(|(d, _)| d).unwrap_or(".");
                let found = resolve_mod_file(&name, path_override.as_deref(), |c: &str| {
                    files.contains_key(&format!("{}/{}", dir, c))
                });
                let backing = match found {
                    Some(c) => Backing::Found(files.remove(&format!("{}/{}", dir, c)).unwrap()),
                    None => Backing::Missing,
                };
                root = supply(root, backing);
            }
            Request::Done => return (asked, root),
        }
    }
}

#[test]
fn a_tree_without_declarations_asks_for_nothing() {
    assert!(matches!(next_request(&unit("/p/src/lib.rs", vec![])), Request::Done));
    assert!(matches!(next_request(&broken("/p/src/lib.rs")), Request::Done));
    let still = supply(unit("/p/src/lib.rs", vec![]), Backing::Missing);
    assert!(matches!(next_request(&still), Request::Done));
}

#[test]
fn the_first_declaration_not_looked_for_is_asked_for() {
    let mut with_path = wanted("b");
    with_path.path_override = Some("elsewhere.rs".to_string());
    let root = unit(
        "/p/src/lib.rs",
        vec![
            decl("a", ModBody::External(Backing::Missing)),
            test_only(wanted("tests")),
            with_path,
            wanted("c"),
        ],
    );
    match next_request(&root) {
        Request::Look {
            parent_file,
            name,
            path_override,
        } => {
            assert_eq!(parent_file, "/p/src/lib.rs");
            assert_eq!(name, "b");
            assert_eq!(path_override, Some("elsewhere.rs".to_string()));
        }
        other => panic!("{:?}", other),
    }
    let root = supply(root, Backing::Missing);
    match next_request(&root) {
        Request::Look { name, .. } => assert_eq!(name, "c"),
        other => panic!("{:?}", other),
    }
    let root = supply(root, Backing::Missing);
    assert!(matches!(next_request(&root), Request::Done));
}

#[test]
fn files_are_asked_for_in_the_order_of_the_resolver() {
    let root = unit(
        "/p/src/lib.rs",
        vec![
            wanted("engine"),
            inline("helpers", vec![wanted("deep"), test_only(wanted("hidden"))]),
            test_only(inline("tests", vec![wanted("never")])),
            wanted("models"),
            wanted("utils"),
        ],
    );
    let mut files = BTreeMap::new();
    files.insert(
        "/p/src/engine/mod.rs".to_string(),
        unit("/p/src/engine/mod.rs", vec![wanted("eval"), wanted("absent")]),
    );
    files.insert(
        "/p/src/engine/eval.rs".to_string(),
        unit("/p/src/engine/eval.rs", vec![]),
    );
    files.insert("/p/src/deep.rs".to_string(), unit("/p/src/deep.rs", vec![]));
    files.insert("/p/src/models.rs".to_string(), unit("/p/src/models.rs", vec![]));

    let (asked, tree) = run(root, files);
    assert_eq!(
        asked,
        vec![
            "engine in /p/src/lib.rs",
            "eval in /p/src/engine/mod.rs",
            "absent in /p/src/engine/mod.rs",
            "deep in /p/src/lib.rs",
            "models in /p/src/lib.rs",
            "utils in /p/src/lib.rs",
        ]
    );

    let mut warnings = Vec::new();
    let module = resolve_module_tree(&tree, &mut warnings).unwrap();
    let paths: Vec<String> = module.all_modules().iter().map(|m| m.path.clone()).collect();
    assert_eq!(
        paths,
        vec![
            "crate",
            "crate::engine",
            "crate::engine::eval",
            "crate::helpers",
            "crate::helpers::deep",
            "crate::models",
        ]
    );
    let missing: Vec<&str> = warnings.iter().map(|w| w.module.as_str()).collect();
    assert_eq!(missing, vec!["absent", "utils"]);
}

#[test]
fn nothing_is_asked_for_behind_a_file_that_cannot_be_parsed() {
    let root = unit("/p/src/lib.rs", vec![wanted("a"), wanted("b"), wanted("c")]);
    let mut files = BTreeMap::new();
    files.insert("/p/src/a.rs".to_string(), unit("/p/src/a.rs", vec![]));
    files.insert("/p/src/b.rs".to_string(), broken("/p/src/b.rs"));
    files.insert("/p/src/c.rs".to_string(), unit("/p/src/c.rs", vec![]));
    let (asked, tree) = run(root, files);
    assert_eq!(asked, vec!["a in /p/src/lib.rs", "b in /p/src/lib.rs"]);
    match resolve_module_tree(&tree, &mut Vec::new()) {
        Err(ResolveError::Parse { file, .. }) => assert_eq!(file, "/p/src/b.rs"),
        other => panic!("{:?}", other),
    }
}

#[test]
fn a_tree_that_is_not_complete_does_not_resolve() {
    let root = unit(
        "/p/src/lib.rs",
        vec![decl("a", ModBody::External(Backing::Missing)), wanted("b")],
    );
    assert!(matches!(next_request(&root), Request::Look { .. }));
    let mut warnings = Vec::new();
    match resolve_module_tree(&root, &mut warnings) {
        Err(ResolveError::Incomplete { module, file }) => {
            assert_eq!(module, "b");
            assert_eq!(file, "/p/src/lib.rs");
        }
        other => panic!("{:?}", other),
    }
    assert_eq!(warnings.len(), 1);
    // a declaration that is never read may stay as it is
    let unread = unit("/p/src/lib.rs", vec![test_only(wanted("tests"))]);
    assert!(matches!(next_request(&unread), Request::Done));
    assert!(resolve_module_tree(&unread, &mut Vec::new()).is_ok());
}

#[test]
fn supplying_fills_one_declaration_only() {
    let root = unit("/p/src/lib.rs", vec![wanted("a"), wanted("b")]);
    let root = supply(root, Backing::Found(unit("/p/src/a.rs", vec![wanted("inner")])));
    // the next declaration in the resolver's order is the one in the new file
    match next_request(&root) {
        Request::Look {
            parent_file, name, ..
        } => {
            assert_eq!(name, "inner");
            assert_eq!(parent_file, "/p/src/a.rs");
        }
        other => panic!("{:?}", other),
    }
    let root = supply(root, Backing::Missing);
    match next_request(&root) {
        Request::Look { name, .. } => assert_eq!(name, "b"),
        other => panic!("{:?}", other),
    }
}
