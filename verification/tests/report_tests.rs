use rsmap::chains::build_error_chains;
use rsmap::layer2::generate_relationships;
use rsmap::model::{CrateInfo, CrateKind, Item, ItemKind, Module, Visibility};
use rsmap::names::{
    clean_type_name, extract_from_source, extract_internal_module_dep,
    extract_type_names_from_signature,
};
use std::collections::{BTreeMap, BTreeSet};

/// A small generator of numbers that gives the same numbers on every run.
struct Numbers(u64);

impl Numbers {
    fn next(&mut self, below: usize) -> usize {
        self.0 = self
            .0
            .wrapping_mul(6364136223846793005)
            .wrapping_add(1442695040888963407);
        ((self.0 >> 33) as usize) % below
    }

    fn pick<'a>(&mut self, from: &[&'a str]) -> &'a str {
        from[self.next(from.len())]
    }
}

const TYPES: [&str; 8] = [
    "Expr", "Value", "AppError", "IoError", "Config", "Élan", "Vec", "X",
];
const INTERFACES: [&str; 7] = [
    "Display",
    "From<IoError>",
    "From < AppError >",
    "From<Config>",
    "Evaluable",
    "From<Expr, Value>",
    "  Into < Value >",
];
const IMPORTS: [&str; 9] = [
    "crate::a::Item",
    "crate::b::deep::helper",
    "crate::Config",
    "super::Item",
    "super::sibling::thing",
    "super::*",
    "std::fmt::Display",
    "crate::a::b::*",
    "crate::",
];
const MODULES: [&str; 6] = [
    "crate",
    "crate::a",
    "crate::b",
    "crate::a::b",
    "crate::b::deep",
    "other",
];

fn item(numbers: &mut Numbers) -> Item {
    let kind = match numbers.next(3) {
        0 => ItemKind::Function,
        1 => ItemKind::Impl {
            self_ty: numbers.pick(&TYPES).to_string(),
            trait_name: Some(numbers.pick(&INTERFACES).to_string()),
        },
        _ => ItemKind::Impl {
            self_ty: numbers.pick(&TYPES).to_string(),
            trait_name: None,
        },
    };
    let signature = format!(
        "fn f(a: {}, b: &mut {}) -> Option<{}>;",
        numbers.pick(&TYPES),
        numbers.pick(&TYPES),
        numbers.pick(&TYPES)
    );
    Item {
        name: "f".to_string(),
        kind,
        visibility: Visibility::Private,
        signature,
        doc_comment: None,
        file_path: "src/lib.rs".to_string(),
        line_start: 1,
        line_end: 1,
        content_hash: "h".to_string(),
    }
}

fn module(numbers: &mut Numbers, depth: usize) -> Module {
    let items = (0..numbers.next(4)).map(|_| item(numbers)).collect();
    let uses = (0..numbers.next(4))
        .map(|_| numbers.pick(&IMPORTS).to_string())
        .collect();
    let subs = if depth < 2 {
        (0..numbers.next(3)).map(|_| module(numbers, depth + 1)).collect()
    } else {
        vec![]
    };
    Module {
        path: numbers.pick(&MODULES).to_string(),
        file_path: "src/lib.rs".to_string(),
        file_hash: "h".to_string(),
        doc_comment: None,
        visibility: Visibility::Pub,
        items,
        submodules: subs,
        use_statements: uses,
        is_inline: false,
    }
}

fn package(numbers: &mut Numbers) -> CrateInfo {
    CrateInfo {
        name: "demo".to_string(),
        kind: CrateKind::Lib,
        edition: "2021".to_string(),
        version: "0.1.0".to_string(),
        external_deps: vec![],
        root_module: module(numbers, 0),
    }
}

struct Views {
    trait_impls: BTreeMap<String, BTreeSet<String>>,
    from_impls: BTreeSet<(String, String)>,
    module_deps: BTreeMap<String, BTreeSet<String>>,
    type_usage: BTreeMap<String, BTreeSet<String>>,
}

fn collect(module: &Module, views: &mut Views) {
    let shown = module
        .path
        .strip_prefix("crate::")
        .unwrap_or(&module.path)
        .to_string();
    views.module_deps.entry(shown.clone()).or_default();
    for item in &module.items {
        if let ItemKind::Impl {
            self_ty,
            trait_name: Some(interface),
        } = &item.kind
        {
            let clean_interface = clean_type_name(interface);
            let clean_self = clean_type_name(self_ty);
            views
                .trait_impls
                .entry(clean_interface.clone())
                .or_default()
                .insert(clean_self.clone());
            if clean_interface.starts_with("From") {
                if let Some(source) = extract_from_source(interface) {
                    views.from_impls.insert((source, clean_self));
                }
            }
        }
        for ty in extract_type_names_from_signature(&item.signature) {
            views.type_usage.entry(ty).or_default().insert(shown.clone());
        }
    }
    for import in &module.use_statements {
        if let Some(dep) = extract_internal_module_dep(import) {
            if dep != shown && !dep.is_empty() {
                views.module_deps.entry(shown.clone()).or_default().insert(dep);
            }
        }
    }
    for sub in &module.submodules {
        collect(sub, views);
    }
}

fn joined(names: &BTreeSet<String>) -> String {
    names.iter().map(|s| s.as_str()).collect::<Vec<_>>().join(", ")
}

/// The report as ordered maps of the standard library give it.
fn report_by_ordered_maps(crates: &[CrateInfo]) -> String {
    let mut views = Views {
        trait_impls: BTreeMap::new(),
        from_impls: BTreeSet::new(),
        module_deps: BTreeMap::new(),
        type_usage: BTreeMap::new(),
    };
    for info in crates {
        collect(&info.root_module, &mut views);
    }
    let mut out = String::new();

    out.push_str("## Trait Implementations\n\n");
    if views.trait_impls.is_empty() {
        out.push_str("(none found)\n\n");
    } else {
        let width = views.trait_impls.keys().map(|k| k.len()).max().unwrap_or(0);
        for (interface, types) in &views.trait_impls {
            out.push_str(&format!("{:<width$} <- {}\n", interface, joined(types), width = width));
        }
        out.push('\n');
    }

    out.push_str("## Error Chains\n\n");
    let edges: Vec<(String, String)> = views.from_impls.into_iter().collect();
    let chains = build_error_chains(&edges);
    if chains.is_empty() {
        out.push_str("(no From impls found)\n\n");
    } else {
        for chain in &chains {
            out.push_str(&format!("{}\n", chain));
        }
        out.push('\n');
    }

    out.push_str("## Module Dependencies\n\n");
    if views.module_deps.is_empty() {
        out.push_str("(none found)\n\n");
    } else {
        let width = views.module_deps.keys().map(|k| k.len()).max().unwrap_or(0);
        for (module, deps) in &views.module_deps {
            if deps.is_empty() {
                out.push_str(&format!("{:<width$} -> (no internal deps)\n", module, width = width));
            } else {
                out.push_str(&format!("{:<width$} -> {}\n", module, joined(deps), width = width));
            }
        }
        out.push('\n');
    }

    out.push_str("## Key Types (referenced from 3+ modules)\n\n");
    let mut hotspots: Vec<(&String, usize)> = views
        .type_usage
        .iter()
        .filter(|(_, modules)| modules.len() >= 3)
        .map(|(ty, modules)| (ty, modules.len()))
        .collect();
    hotspots.sort_by(|a, b| b.1.cmp(&a.1));
    if hotspots.is_empty() {
        out.push_str("(no types referenced from 3+ modules)\n\n");
    } else {
        let width = hotspots.iter().map(|(k, _)| k.len()).max().unwrap_or(0);
        for (ty, count) in &hotspots {
            out.push_str(&format!("{:<width$} — used in {} modules\n", ty, count, width = width));
        }
        out.push('\n');
    }
    out
}

#[test]
fn the_report_on_many_trees() {
    let mut numbers = Numbers(20240611);
    let mut with_hotspots = 0;
    let mut with_chains = 0;
    for _ in 0..300 {
        let crates: Vec<CrateInfo> = (0..1 + numbers.next(2)).map(|_| package(&mut numbers)).collect();
        let report = generate_relationships(&crates);
        assert_eq!(report, report_by_ordered_maps(&crates));
        if report.contains(" modules\n") {
            with_hotspots += 1;
        }
        if report.contains(" -> AppError") || report.contains(" -> Value") {
            with_chains += 1;
        }
    }
    // the trees are varied enough to show every part of the report
    assert!(with_hotspots > 10);
    assert!(with_chains > 10);
}
