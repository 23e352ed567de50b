//! The overview of the packages: what each is, and the tree of its modules
//! with a line of description each.

use vstd::prelude::*;
use crate::annotations::{note_at, AnnotationStore};
use crate::model::{CrateInfo, Module};
use crate::output::{entry_line, push_entry};
use crate::text::{
    from_chars_range, join, join_strs, lines, lines_exec, push_repeat, repeat, str_views, to_chars,
    trim, trim_bounds, views,
};

verus! {

/// The first line of `doc` without the whitespace at its ends: empty where
/// `doc` has no line.
pub open spec fn first_line(doc: Seq<char>) -> Seq<char> {
    if lines(doc).len() > 0 {
        trim(lines(doc)[0])
    } else {
        Seq::empty()
    }
}

/// The description of a module: the first line of its own documentation
/// where that is not blank, else the note on it, else nothing.
pub open spec fn description(m: Module, notes: Map<Seq<char>, Seq<char>>) -> Seq<char> {
    if m.doc_comment is Some && first_line(m.doc_comment->0@).len() > 0 {
        first_line(m.doc_comment->0@)
    } else if notes.contains_key(m.path@) {
        notes[m.path@]
    } else {
        Seq::empty()
    }
}

/// The tree of the module `m` behind the indentation `prefix`: its own entry
/// on a line, then the trees of the modules declared in it, two spaces
/// further in.
pub open spec fn tree_text(m: Module, prefix: Seq<char>, notes: Map<Seq<char>, Seq<char>>) -> Seq<
    char,
>
    decreases m,
{
    entry_line(prefix, m.path@, description(m, notes)) + "\n"@ + trees_text(
        m.submodules@,
        prefix + "  "@,
        notes,
    )
}

/// The trees of the modules `mods`, one after another.
pub open spec fn trees_text(
    mods: Seq<Module>,
    prefix: Seq<char>,
    notes: Map<Seq<char>, Seq<char>>,
) -> Seq<char>
    decreases mods,
{
    if mods.len() == 0 {
        Seq::empty()
    } else {
        trees_text(mods.drop_last(), prefix, notes) + tree_text(mods.last(), prefix, notes)
    }
}

/// The head of what the overview says of one package: its name and kind,
/// edition and version, and its outside dependencies where it has any.
pub open spec fn crate_head(c: CrateInfo) -> Seq<char> {
    "# Crate: "@ + c.name@ + " ("@ + c.kind.label_spec() + ")\n"@ + "Edition: "@ + c.edition@
        + "\n"@ + "Version: "@ + c.version@ + "\n"@ + if c.external_deps@.len() > 0 {
        "External deps: "@ + join(str_views(c.external_deps@), ", "@) + "\n"@
    } else {
        Seq::empty()
    }
}

/// What the overview says of one package: its head and the tree of its
/// modules.
pub open spec fn crate_overview(c: CrateInfo, notes: Map<Seq<char>, Seq<char>>) -> Seq<char> {
    crate_head(c) + "\n## Module Tree\n"@ + tree_text(c.root_module, Seq::empty(), notes) + "\n"@
}

/// The overview of the packages.
pub open spec fn overview_text(crates: Seq<CrateInfo>, notes: Map<Seq<char>, Seq<char>>) -> Seq<
    char,
>
    decreases crates.len(),
{
    if crates.len() == 0 {
        Seq::empty()
    } else {
        overview_text(crates.drop_last(), notes) + crate_overview(crates.last(), notes)
    }
}

/// Gets the description of a module: from its documentation, else from the
/// note on it, else empty.
pub fn get_module_description(module: &Module, annotations: &AnnotationStore) -> (r: String)
    ensures
        r@ == description(*module, annotations.module_notes()),
{
    match &module.doc_comment {
        Some(doc) => {
            let d = to_chars(doc.as_str());
            let all = lines_exec(&d);
            if all.len() > 0 {
                assert(views(all@)[0] == all@[0]@);
                assert(all@[0]@.subrange(0, all@[0]@.len() as int) =~= all@[0]@);
                let (a, b) = trim_bounds(&all[0], 0, all[0].len());
                if a < b {
                    return from_chars_range(&all[0], a, b);
                }
            }
        },
        None => {},
    }
    match note_at(&annotations.modules, module.path.as_str()) {
        Some(note) => note.to_string(),
        None => String::new(),
    }
}

/// Appends the tree of the module behind the indentation `prefix`.
fn push_module_tree(out: &mut String, module: &Module, prefix: &str, annotations: &AnnotationStore)
    ensures
        final(out)@ == old(out)@ + tree_text(*module, prefix@, annotations.module_notes()),
    decreases module,
{
    let ghost notes = annotations.module_notes();
    let text = get_module_description(module, annotations);
    push_entry(out, prefix, module.path.as_str(), text.as_str());
    out.append("\n");
    let mut deeper = prefix.to_string();
    deeper.append("  ");
    let ghost head = out@;
    let mut i: usize = 0;
    assert(head + trees_text(module.submodules@.take(0), deeper@, notes) =~= head);
    while i < module.submodules.len()
        invariant
            i <= module.submodules.len(),
            notes == annotations.module_notes(),
            deeper@ == prefix@ + "  "@,
            out@ == head + trees_text(module.submodules@.take(i as int), deeper@, notes),
        decreases module.submodules.len() - i,
    {
        assert(module.submodules@.take(i + 1).drop_last() =~= module.submodules@.take(i as int));
        push_module_tree(out, &module.submodules[i], deeper.as_str(), annotations);
        assert(out@ =~= head + trees_text(module.submodules@.take(i + 1), deeper@, notes));
        i += 1;
    }
    assert(module.submodules@.take(module.submodules.len() as int) =~= module.submodules@);
    assert(out@ =~= old(out)@ + tree_text(*module, prefix@, notes));
}

/// Appends the tree of the module at the depth `depth`: two spaces a level.
pub fn write_module_tree(
    out: &mut String,
    module: &Module,
    depth: usize,
    annotations: &AnnotationStore,
)
    ensures
        final(out)@ == old(out)@ + tree_text(
            *module,
            repeat("  "@, depth as nat),
            annotations.module_notes(),
        ),
{
    let mut prefix = String::new();
    push_repeat(&mut prefix, "  ", depth);
    assert(prefix@ =~= repeat("  "@, depth as nat));
    push_module_tree(out, module, prefix.as_str(), annotations);
}

/// Appends the head of what the overview says of one package.
fn push_crate_head(out: &mut String, c: &CrateInfo)
    ensures
        final(out)@ == old(out)@ + crate_head(*c),
{
    out.append("# Crate: ");
    out.append(c.name.as_str());
    out.append(" (");
    out.append(c.kind.label());
    out.append(")\n");
    out.append("Edition: ");
    out.append(c.edition.as_str());
    out.append("\n");
    let ghost named = out@;
    assert(named =~= old(out)@ + ("# Crate: "@ + c.name@ + " ("@ + c.kind.label_spec() + ")\n"@
        + "Edition: "@ + c.edition@ + "\n"@));
    out.append("Version: ");
    out.append(c.version.as_str());
    out.append("\n");
    if c.external_deps.len() > 0 {
        out.append("External deps: ");
        out.append(join_strs(&c.external_deps, ", ").as_str());
        out.append("\n");
    }
    assert(out@ =~= old(out)@ + crate_head(*c));
}

/// Generates the overview: for each package its name, kind, edition, version
/// and outside dependencies, and the tree of its modules with descriptions.
pub fn generate_overview(crates: &[CrateInfo], annotations: &AnnotationStore) -> (out: String)
    ensures
        out@ == overview_text(crates@, annotations.module_notes()),
{
    let ghost notes = annotations.module_notes();
    let mut out = String::new();
    let mut i: usize = 0;
    assert(crates@.take(0) =~= Seq::<CrateInfo>::empty());
    while i < crates.len()
        invariant
            i <= crates.len(),
            notes == annotations.module_notes(),
            out@ == overview_text(crates@.take(i as int), notes),
        decreases crates.len() - i,
    {
        assert(crates@.take(i + 1).drop_last() =~= crates@.take(i as int));
        let ghost sofar = out@;
        let c = &crates[i];
        push_crate_head(&mut out, c);
        out.append("\n## Module Tree\n");
        write_module_tree(&mut out, &c.root_module, 0, annotations);
        assert(repeat("  "@, 0) =~= Seq::<char>::empty());
        out.append("\n");
        assert(out@ =~= sofar + crate_overview(*c, notes));
        i += 1;
    }
    assert(crates@.take(crates.len() as int) =~= crates@);
    out
}

} // verus!
