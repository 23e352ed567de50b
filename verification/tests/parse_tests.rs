use rsmap::hash::hash_file_contents;
use rsmap::metadata::RawVisibility;
use rsmap::model::{ItemKind, Visibility};
use rsmap::imports::{
    collect_use_tree_paths, get_path_attribute, parse_use_statements, use_tree_name,
};
use rsmap::parse::{
    extract_doc_comment, extract_inner_doc_comment, extract_item, extract_items, parse_file,
    span_lines,
};
use rsmap::signatures::{
    enum_signature, fn_signature, impl_method_signature, impl_signature, struct_signature,
    trait_method_signature, trait_signature, visibility_prefix,
};
use rsmap::syntax::{
    CfgAttr, DocAttr, Fields, FnSig, Generics, ImplMember, NamedField, RawItem, RawKind,
    ScopeItem, SpanParts, TraitMember, TupleField, UseTree, Variant,
};

fn no_generics() -> Generics {
    Generics {
        params: 0,
        text: String::new(),
        where_clause: None,
    }
}

fn generics(text: &str, where_clause: Option<&str>) -> Generics {
    Generics {
        params: 1,
        text: text.to_string(),
        where_clause: where_clause.map(|w| w.to_string()),
    }
}

fn sig(ident: &str, inputs: &[&str], output: Option<&str>) -> FnSig {
    FnSig {
        constness: false,
        asyncness: false,
        unsafety: false,
        ident: ident.to_string(),
        generics: no_generics(),
        inputs: inputs.iter().map(|i| i.to_string()).collect(),
        output: output.map(|o| o.to_string()),
    }
}

fn span(keyword_line: usize, ends: &[usize], rendered: &str) -> SpanParts {
    SpanParts {
        keyword_line,
        token_end_lines: ends.to_vec(),
        rendered: rendered.to_string(),
    }
}

fn doc(text: &str) -> DocAttr {
    DocAttr {
        inner: false,
        text: text.to_string(),
    }
}

fn raw(kind: RawKind, lines: (usize, usize)) -> RawItem {
    RawItem {
        docs: vec![],
        span: span(lines.0, &[lines.0, lines.1], "x"),
        kind,
    }
}

fn named(vis: RawVisibility, name: &str, ty: &str) -> NamedField {
    NamedField {
        vis,
        name: name.to_string(),
        ty: ty.to_string(),
    }
}

fn unnamed(vis: RawVisibility, ty: &str) -> TupleField {
    TupleField {
        vis,
        ty: ty.to_string(),
    }
}

fn path(ident: &str, tree: UseTree) -> UseTree {
    UseTree::Path {
        ident: ident.to_string(),
        tree: Box::new(tree),
    }
}

fn name(n: &str) -> UseTree {
    UseTree::Name(n.to_string())
}

#[test]
fn test_parse_function() {
    let source = r#"
pub fn hello(name: &str) -> String {
    format!("Hello, {}!", name)
}
"#;
    let raws = vec![raw(
        RawKind::Fn {
            vis: RawVisibility::Public,
            sig: sig("hello", &["name : & str"], Some("String")),
        },
        (2, 4),
    )];
    let items = parse_file("test.rs", source, &raws).unwrap();
    assert_eq!(items.len(), 1);
    assert_eq!(items[0].name, "hello");
    assert!(matches!(items[0].kind, ItemKind::Function));
    assert_eq!(items[0].visibility, Visibility::Pub);
    assert!(items[0].signature.contains("pub fn hello(name : & str) -> String"));
    assert_eq!(items[0].signature, "pub fn hello(name : & str) -> String;");
    assert_eq!(items[0].file_path, "test.rs");
    assert_eq!((items[0].line_start, items[0].line_end), (2, 4));
    assert_eq!(
        items[0].content_hash,
        hash_file_contents("pub fn hello(name: &str) -> String {\n    format!(\"Hello, {}!\", name)\n}")
    );
}

#[test]
fn test_parse_struct() {
    let source = r#"
pub struct Config {
    pub name: String,
    port: u16,
}
"#;
    let raws = vec![raw(
        RawKind::Struct {
            vis: RawVisibility::Public,
            ident: "Config".to_string(),
            generics: no_generics(),
            fields: Fields::Named(vec![
                named(RawVisibility::Public, "name", "String"),
                named(RawVisibility::Inherited, "port", "u16"),
            ]),
        },
        (2, 5),
    )];
    let items = parse_file("test.rs", source, &raws).unwrap();
    assert_eq!(items.len(), 1);
    assert_eq!(items[0].name, "Config");
    assert!(matches!(items[0].kind, ItemKind::Struct));
    assert!(items[0].signature.contains("pub name: String"));
    assert!(items[0].signature.contains("port: u16"));
    assert_eq!(
        items[0].signature,
        "pub struct Config {\n    pub name: String,\n    port: u16,\n}"
    );
}

#[test]
fn test_parse_enum() {
    let source = r#"
pub enum Color {
    Red,
    Green,
    Blue,
    Custom(u8, u8, u8),
}
"#;
    let unit = |n: &str| Variant {
        name: n.to_string(),
        fields: Fields::Unit,
    };
    let raws = vec![raw(
        RawKind::Enum {
            vis: RawVisibility::Public,
            ident: "Color".to_string(),
            generics: no_generics(),
            variants: vec![
                unit("Red"),
                unit("Green"),
                unit("Blue"),
                Variant {
                    name: "Custom".to_string(),
                    fields: Fields::Unnamed(vec![
                        unnamed(RawVisibility::Inherited, "u8"),
                        unnamed(RawVisibility::Inherited, "u8"),
                        unnamed(RawVisibility::Inherited, "u8"),
                    ]),
                },
            ],
        },
        (2, 7),
    )];
    let items = parse_file("test.rs", source, &raws).unwrap();
    assert_eq!(items.len(), 1);
    assert_eq!(items[0].name, "Color");
    assert!(matches!(items[0].kind, ItemKind::Enum));
    assert_eq!(
        items[0].signature,
        "pub enum Color {\n    Red,\n    Green,\n    Blue,\n    Custom(u8, u8, u8),\n}"
    );
}

#[test]
fn test_parse_doc_comments() {
    let source = r#"
/// This is a documented function.
/// It does important things.
pub fn documented() {}
"#;
    let mut item = raw(
        RawKind::Fn {
            vis: RawVisibility::Public,
            sig: sig("documented", &[], None),
        },
        (4, 4),
    );
    item.docs = vec![
        doc(" This is a documented function."),
        doc(" It does important things."),
    ];
    let items = parse_file("test.rs", source, &vec![item]).unwrap();
    assert_eq!(items.len(), 1);
    let doc = items[0].doc_comment.as_ref().unwrap();
    assert!(doc.contains("This is a documented function."));
    assert!(doc.contains("It does important things."));
    assert_eq!(doc, "This is a documented function.\nIt does important things.");
}

#[test]
fn test_parse_use_statements() {
    // use std::collections::HashMap;
    // use crate::model::{Item, Module};
    // use super::parse;
    let items = vec![
        ScopeItem::Use(path("std", path("collections", name("HashMap")))),
        ScopeItem::Use(path(
            "crate",
            path("model", UseTree::Group(vec![name("Item"), name("Module")])),
        )),
        ScopeItem::Use(path("super", name("parse"))),
    ];
    let uses = parse_use_statements(&items);
    assert!(uses.contains(&"std::collections::HashMap".to_string()));
    assert!(uses.contains(&"crate::model::Item".to_string()));
    assert!(uses.contains(&"crate::model::Module".to_string()));
    assert!(uses.contains(&"super::parse".to_string()));
    assert_eq!(uses.len(), 4);
}

#[test]
fn use_paths_of_renames_wildcards_and_groups() {
    let mut paths = vec!["kept".to_string()];
    let tree = path(
        "a",
        UseTree::Group(vec![
            UseTree::Rename {
                ident: "Old".to_string(),
                rename: "New".to_string(),
            },
            UseTree::Glob,
            path("b", UseTree::Group(vec![name("C"), path("d", UseTree::Glob)])),
            UseTree::Group(vec![]),
        ]),
    );
    collect_use_tree_paths(&tree, "", &mut paths);
    assert_eq!(
        paths,
        vec![
            "kept".to_string(),
            "a::Old".to_string(),
            "a::*".to_string(),
            "a::b::C".to_string(),
            "a::b::d::*".to_string()
        ]
    );
    let mut bare = Vec::new();
    collect_use_tree_paths(&UseTree::Glob, "", &mut bare);
    collect_use_tree_paths(&name("x"), "", &mut bare);
    collect_use_tree_paths(&name("x"), "p::q", &mut bare);
    assert_eq!(bare, vec!["".to_string(), "x".to_string(), "p::q::x".to_string()]);
}

#[test]
fn imports_in_inline_modules_count_unless_the_module_is_test_only() {
    let items = vec![
        ScopeItem::Other,
        ScopeItem::Mod {
            cfg_attrs: vec![],
            body: Some(vec![
                ScopeItem::Use(name("inner")),
                ScopeItem::Mod {
                    cfg_attrs: vec![CfgAttr::Name("unix".to_string())],
                    body: Some(vec![ScopeItem::Use(name("deeper"))]),
                },
            ]),
        },
        ScopeItem::Mod {
            cfg_attrs: vec![CfgAttr::Name("test".to_string())],
            body: Some(vec![ScopeItem::Use(name("hidden"))]),
        },
        ScopeItem::Mod {
            cfg_attrs: vec![CfgAttr::List {
                op: "not".to_string(),
                args: vec![CfgAttr::Name("test".to_string())],
            }],
            body: Some(vec![ScopeItem::Use(name("shown"))]),
        },
        ScopeItem::Mod {
            cfg_attrs: vec![],
            body: None,
        },
        ScopeItem::Use(name("last")),
    ];
    assert_eq!(
        parse_use_statements(&items),
        vec![
            "inner".to_string(),
            "deeper".to_string(),
            "shown".to_string(),
            "last".to_string()
        ]
    );
}

#[test]
fn names_of_reexports() {
    assert_eq!(use_tree_name(&path("a", path("b", name("C")))), "a::b::C");
    assert_eq!(
        use_tree_name(&path(
            "a",
            UseTree::Rename {
                ident: "Old".to_string(),
                rename: "New".to_string()
            }
        )),
        "a::New"
    );
    assert_eq!(use_tree_name(&path("a", UseTree::Glob)), "a::*");
    assert_eq!(use_tree_name(&path("a", UseTree::Group(vec![name("x")]))), "a::{...}");
}

#[test]
fn function_signatures() {
    let mut s = sig("run", &["& self", "n : usize"], Some("Result < () >"));
    s.constness = true;
    s.asyncness = true;
    s.unsafety = true;
    s.generics = generics("< T >", Some("where T : Clone"));
    let restricted = RawVisibility::Restricted(vec!["crate".to_string()]);
    assert_eq!(
        fn_signature(&restricted, &s),
        "pub(crate) const async unsafe fn run< T >(& self, n : usize) -> Result < () > where T : Clone;"
    );
    assert_eq!(
        trait_method_signature(&s),
        "async unsafe fn run< T >(& self, n : usize) -> Result < () >;"
    );
    assert_eq!(
        impl_method_signature(&RawVisibility::Public, &s),
        "pub async unsafe fn run< T >(& self, n : usize) -> Result < () >;"
    );
    assert_eq!(fn_signature(&RawVisibility::Inherited, &sig("f", &[], None)), "fn f();");
    // generic text is left out where there is no parameter
    let mut odd = sig("g", &[], None);
    odd.generics.text = "< >".to_string();
    assert_eq!(fn_signature(&RawVisibility::Inherited, &odd), "fn g();");
}

#[test]
fn written_visibilities() {
    let within = |p: &[&str]| RawVisibility::Restricted(p.iter().map(|s| s.to_string()).collect());
    assert_eq!(visibility_prefix(&RawVisibility::Public), "pub ");
    assert_eq!(visibility_prefix(&within(&["crate"])), "pub(crate) ");
    assert_eq!(visibility_prefix(&within(&["super"])), "pub(super) ");
    assert_eq!(visibility_prefix(&within(&["crate", "a"])), "pub(crate) ");
    assert_eq!(visibility_prefix(&within(&["super", "super"])), "pub(crate) ");
    assert_eq!(visibility_prefix(&within(&[])), "pub(crate) ");
    assert_eq!(visibility_prefix(&RawVisibility::Inherited), "");
}

#[test]
fn struct_signatures() {
    assert_eq!(
        struct_signature(
            &RawVisibility::Public,
            "Pair",
            &generics("< T >", Some("where T : Copy")),
            &Fields::Unnamed(vec![
                unnamed(RawVisibility::Public, "T"),
                unnamed(RawVisibility::Inherited, "T")
            ]),
        ),
        "pub struct Pair< T >(pub T, T);"
    );
    assert_eq!(
        struct_signature(&RawVisibility::Inherited, "Unit", &no_generics(), &Fields::Unit),
        "struct Unit;"
    );
    assert_eq!(
        struct_signature(
            &RawVisibility::Inherited,
            "W",
            &generics("< T >", Some("where T : Copy")),
            &Fields::Named(vec![]),
        ),
        "struct W< T > where T : Copy {\n\n}"
    );
}

#[test]
fn enum_signatures() {
    assert_eq!(
        enum_signature(
            &RawVisibility::Inherited,
            "E",
            &generics("< T >", None),
            &vec![Variant {
                name: "Point".to_string(),
                fields: Fields::Named(vec![
                    named(RawVisibility::Public, "x", "T"),
                    named(RawVisibility::Inherited, "y", "T")
                ]),
            }],
        ),
        "enum E< T > {\n    Point { x: T, y: T },\n}"
    );
    assert_eq!(
        enum_signature(&RawVisibility::Public, "Never", &no_generics(), &vec![]),
        "pub enum Never {\n\n}"
    );
}

#[test]
fn trait_signatures() {
    let members = vec![
        TraitMember::Fn(sig("eval", &["& self"], Some("u8"))),
        TraitMember::Other,
        TraitMember::Type {
            ident: "Out".to_string(),
            bounds: vec!["Clone".to_string(), "Send".to_string()],
        },
        TraitMember::Type {
            ident: "Plain".to_string(),
            bounds: vec![],
        },
        TraitMember::Const {
            ident: "N".to_string(),
            ty: "usize".to_string(),
        },
    ];
    assert_eq!(
        trait_signature(
            &RawVisibility::Public,
            true,
            "Evaluable",
            &generics("< T >", Some("where T : Sized")),
            &vec!["Debug".to_string(), "Clone".to_string()],
            &members,
        ),
        "pub unsafe trait Evaluable< T >: Debug + Clone where T : Sized {\n    \
         fn eval(& self) -> u8;\n    type Out: Clone + Send;\n    type Plain;\n    const N: usize;\n}"
    );
    assert_eq!(
        trait_signature(&RawVisibility::Inherited, false, "Marker", &no_generics(), &vec![], &vec![]),
        "trait Marker {\n\n}"
    );
}

#[test]
fn impl_signatures() {
    let members = vec![
        ImplMember::Fn {
            vis: RawVisibility::Public,
            sig: sig("new", &[], Some("Self")),
        },
        ImplMember::Other,
        ImplMember::Type {
            ident: "Out".to_string(),
            ty: "u8".to_string(),
        },
        ImplMember::Const {
            ident: "N".to_string(),
            ty: "usize".to_string(),
        },
    ];
    assert_eq!(
        impl_signature(
            true,
            &generics("< T >", Some("where T : Copy")),
            false,
            &Some("From < T >".to_string()),
            "Wrapper < T >",
            &members,
        ),
        "unsafe impl < T >From < T > for Wrapper < T > where T : Copy {\n    \
         pub fn new() -> Self;\n    type Out = u8;\n    const N: usize;\n}"
    );
    assert_eq!(
        impl_signature(false, &no_generics(), true, &Some("Send".to_string()), "X", &vec![]),
        "impl !Send for X {\n\n}"
    );
    assert_eq!(
        impl_signature(false, &no_generics(), true, &None, "X", &vec![]),
        "impl X {\n\n}"
    );
}

#[test]
fn items_of_every_kind() {
    let item = |kind: RawKind| extract_item(&raw(kind, (3, 7)));
    let alias = item(RawKind::Type {
        vis: RawVisibility::Public,
        ident: "AppResult".to_string(),
        ty: "Result < T , AppError >".to_string(),
    })
    .unwrap();
    assert_eq!(alias.name, "AppResult");
    assert_eq!(alias.kind, ItemKind::TypeAlias);
    assert_eq!(alias.signature, "pub type AppResult = Result < T , AppError >;");
    assert_eq!((alias.line_start, alias.line_end), (3, 7));
    assert_eq!(alias.doc_comment, None);

    let constant = item(RawKind::Const {
        vis: RawVisibility::Public,
        ident: "DEFAULT_PORT".to_string(),
        ty: "u16".to_string(),
    })
    .unwrap();
    assert_eq!(constant.kind, ItemKind::Const);
    assert_eq!(constant.signature, "pub const DEFAULT_PORT: u16;");

    let fixed = item(RawKind::Static {
        vis: RawVisibility::Inherited,
        mutable: true,
        ident: "COUNTER".to_string(),
        ty: "u32".to_string(),
    })
    .unwrap();
    assert_eq!(fixed.kind, ItemKind::Static);
    assert_eq!(fixed.visibility, Visibility::Private);
    assert_eq!(fixed.signature, "static mut COUNTER: u32;");
    let still = item(RawKind::Static {
        vis: RawVisibility::Public,
        mutable: false,
        ident: "NAME".to_string(),
        ty: "& str".to_string(),
    })
    .unwrap();
    assert_eq!(still.signature, "pub static NAME: & str;");

    let rules = item(RawKind::Macro {
        ident: Some("my_macro".to_string()),
    })
    .unwrap();
    assert_eq!(rules.kind, ItemKind::Macro);
    assert_eq!(rules.visibility, Visibility::Private);
    assert_eq!(rules.signature, "macro_rules! my_macro { ... }");
    assert!(item(RawKind::Macro { ident: None }).is_none());

    let reexport = item(RawKind::Use {
        public: true,
        tree_text: "models :: Value".to_string(),
        tree: path("models", name("Value")),
    })
    .unwrap();
    assert_eq!(reexport.name, "models::Value");
    assert_eq!(reexport.kind, ItemKind::Use);
    assert_eq!(reexport.visibility, Visibility::Pub);
    assert_eq!(reexport.signature, "pub use models :: Value;");
    assert!(item(RawKind::Use {
        public: false,
        tree_text: "models :: Value".to_string(),
        tree: path("models", name("Value")),
    })
    .is_none());
    assert!(item(RawKind::Other).is_none());

    let block = item(RawKind::Impl {
        unsafety: false,
        generics: no_generics(),
        negative: false,
        trait_path: Some("Evaluable".to_string()),
        self_ty: "Expr".to_string(),
        members: vec![],
    })
    .unwrap();
    assert_eq!(block.name, "Evaluable for Expr");
    assert_eq!(
        block.kind,
        ItemKind::Impl {
            self_ty: "Expr".to_string(),
            trait_name: Some("Evaluable".to_string())
        }
    );
    assert_eq!(block.visibility, Visibility::Private);
    let inherent = item(RawKind::Impl {
        unsafety: false,
        generics: no_generics(),
        negative: false,
        trait_path: None,
        self_ty: "Expr".to_string(),
        members: vec![],
    })
    .unwrap();
    assert_eq!(inherent.name, "Expr");
    let interface = item(RawKind::Trait {
        vis: RawVisibility::Restricted(vec!["super".to_string()]),
        unsafety: false,
        ident: "T".to_string(),
        generics: no_generics(),
        supertraits: vec![],
        members: vec![],
    })
    .unwrap();
    assert_eq!(interface.kind, ItemKind::Trait);
    assert_eq!(interface.visibility, Visibility::PubSuper);
}

#[test]
fn items_keep_the_order_of_the_declarations() {
    let f = |n: &str| {
        raw(
            RawKind::Fn {
                vis: RawVisibility::Inherited,
                sig: sig(n, &[], None),
            },
            (1, 1),
        )
    };
    let raws = vec![f("b"), raw(RawKind::Other, (1, 1)), f("a"), f("c")];
    let mut items = Vec::new();
    extract_items(&raws, &mut items);
    let names: Vec<&str> = items.iter().map(|i| i.name.as_str()).collect();
    assert_eq!(names, vec!["b", "a", "c"]);
}

#[test]
fn parse_file_refuses_a_span_outside_the_text() {
    let raws = vec![raw(
        RawKind::Fn {
            vis: RawVisibility::Inherited,
            sig: sig("f", &[], None),
        },
        (9, 12),
    )];
    assert!(parse_file("test.rs", "fn f() {}\n", &raws).is_none());
    assert!(parse_file("test.rs", "fn f() {}\n", &vec![]).unwrap().is_empty());
}

#[test]
fn documentation_from_attributes() {
    assert_eq!(extract_doc_comment(&vec![]), None);
    assert_eq!(
        extract_doc_comment(&vec![doc(" One."), doc(""), doc("  indented"), doc("tight ")]),
        Some("One.\n\n indented\ntight".to_string())
    );
    assert_eq!(extract_doc_comment(&vec![doc("   ")]), Some("".to_string()));
    let inner = |text: &str| DocAttr {
        inner: true,
        text: text.to_string(),
    };
    assert_eq!(
        extract_inner_doc_comment(&vec![doc(" outer"), inner(" Sample crate."), inner(" More.")]),
        Some("Sample crate.\nMore.".to_string())
    );
    assert_eq!(extract_inner_doc_comment(&vec![doc(" outer only")]), None);
    assert_eq!(
        extract_doc_comment(&vec![doc(" outer"), inner(" inner")]),
        Some("outer\ninner".to_string())
    );
}

#[test]
fn line_ranges() {
    assert_eq!(span_lines(&span(3, &[3, 4, 9, 5], "ignored")), (3, 9));
    // no token ends behind the keyword's line: the token text decides
    assert_eq!(span_lines(&span(3, &[3, 3], "one line")), (3, 3));
    assert_eq!(span_lines(&span(3, &[1, 2], "a\nb\nc")), (3, 5));
    assert_eq!(span_lines(&span(3, &[], "")), (3, 3));
    assert_eq!(span_lines(&span(0, &[], "a\nb")), (0, 1));
    assert_eq!(span_lines(&span(usize::MAX, &[], "a\nb")), (usize::MAX, usize::MAX));
}

#[test]
fn the_first_path_attribute_names_the_file() {
    assert_eq!(get_path_attribute(&vec![]), None);
    assert_eq!(
        get_path_attribute(&vec!["a.rs".to_string(), "b.rs".to_string()]),
        Some("a.rs".to_string())
    );
}

#[test]
fn the_digest_of_an_item_is_that_of_its_lines_whatever_its_fields() {
    let source = "/// One\npub fn one() {\n    1\n}\nfn other() {}\n";
    let mut documented = raw(
        RawKind::Fn {
            vis: RawVisibility::Public,
            sig: sig("one", &["x: u8"], Some("u8")),
        },
        (2, 4),
    );
    documented.docs = vec![doc(" One")];
    let plain = raw(
        RawKind::Fn {
            vis: RawVisibility::Inherited,
            sig: sig("renamed", &[], None),
        },
        (2, 4),
    );
    let last = raw(
        RawKind::Fn {
            vis: RawVisibility::Inherited,
            sig: sig("other", &[], None),
        },
        (5, 5),
    );
    let items = parse_file("src/lib.rs", source, &vec![documented, plain, last]).unwrap();
    assert_eq!(items.len(), 3);
    assert_ne!(items[0].name, items[1].name);
    assert_ne!(items[0].signature, items[1].signature);
    assert_ne!(items[0].visibility, items[1].visibility);
    assert_ne!(items[0].doc_comment, items[1].doc_comment);
    assert_eq!(items[0].content_hash, items[1].content_hash);
    assert_eq!(items[0].content_hash, hash_file_contents("pub fn one() {\n    1\n}"));
    assert_eq!(items[2].content_hash, hash_file_contents("fn other() {}"));
    assert_ne!(items[0].content_hash, items[2].content_hash);
    for item in &items {
        assert!(item.line_start <= item.line_end);
        assert_eq!(item.file_path, "src/lib.rs");
    }
    let names: Vec<&str> = items.iter().map(|i| i.name.as_str()).collect();
    assert_eq!(names, vec!["one", "renamed", "other"]);
}
