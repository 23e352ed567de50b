//! The catalog of signatures: every item of every module, public or not,
//! grouped by what it declares.

use vstd::prelude::*;
use crate::annotations::{note_at, AnnotationStore};
use crate::cache::item_key;
use crate::model::{CrateInfo, Item, ItemKind, Module};
use crate::text::{from_chars, lines, lines_exec, to_chars, views};

verus! {

/// The groups in which a module's items are listed.
#[derive(Debug, Clone, Copy, PartialEq, Eq, Structural)]
pub enum Section {
    Types,
    Traits,
    Functions,
    Impls,
    Constants,
    Macros,
    Reexports,
}

/// The group that an item of the kind `kind` is listed in.
pub open spec fn section_of(kind: ItemKind) -> Section {
    match kind {
        ItemKind::Struct | ItemKind::Enum | ItemKind::TypeAlias => Section::Types,
        ItemKind::Trait => Section::Traits,
        ItemKind::Function => Section::Functions,
        ItemKind::Impl { .. } => Section::Impls,
        ItemKind::Const | ItemKind::Static => Section::Constants,
        ItemKind::Macro => Section::Macros,
        ItemKind::Use => Section::Reexports,
    }
}

/// The heading of a group: that of implementation blocks has none of its
/// own, as each block has its heading.
pub open spec fn section_title(section: Section) -> Seq<char> {
    match section {
        Section::Types => "## Types\n\n"@,
        Section::Traits => "## Traits\n\n"@,
        Section::Functions => "## Functions\n\n"@,
        Section::Impls => Seq::empty(),
        Section::Constants => "## Constants\n\n"@,
        Section::Macros => "## Macros\n\n"@,
        Section::Reexports => "## Re-exports\n\n"@,
    }
}

/// The heading of an implementation block.
pub open spec fn impl_header(kind: ItemKind) -> Seq<char> {
    match kind {
        ItemKind::Impl { self_ty, trait_name: Some(t) } => "Impl "@ + t@ + " for "@ + self_ty@,
        ItemKind::Impl { self_ty, trait_name: None } => "Impl "@ + self_ty@,
        _ => "Impl"@,
    }
}

/// The lines of a documentation text, each behind three slashes.
pub open spec fn doc_lines(rows: Seq<Seq<char>>) -> Seq<char>
    decreases rows.len(),
{
    if rows.len() == 0 {
        Seq::empty()
    } else {
        doc_lines(rows.drop_last()) + "/// "@ + rows.last() + "\n"@
    }
}

/// What the catalog shows of one item of the module `path`: its
/// documentation, the note on it, and its signature.
pub open spec fn item_text(item: Item, path: Seq<char>, notes: Map<Seq<char>, Seq<char>>) -> Seq<
    char,
> {
    (match item.doc_comment {
        Some(doc) => doc_lines(lines(doc@)),
        None => Seq::empty(),
    }) + (if notes.contains_key(item_key(path, item.name@)) {
        "// NOTE: "@ + notes[item_key(path, item.name@)] + "\n"@
    } else {
        Seq::empty()
    }) + item.signature@ + "\n\n"@
}

/// What the catalog shows of one item within its group: an implementation
/// block under a heading of its own and followed by an empty line.
pub open spec fn listed_text(
    item: Item,
    section: Section,
    path: Seq<char>,
    notes: Map<Seq<char>, Seq<char>>,
) -> Seq<char> {
    if section == Section::Impls {
        "## "@ + impl_header(item.kind) + "\n\n"@ + item_text(item, path, notes) + "\n"@
    } else {
        item_text(item, path, notes)
    }
}

/// The items of `items` that belong to the group `section`, in their order,
/// as the catalog shows them.
pub open spec fn listed_items(
    items: Seq<Item>,
    section: Section,
    path: Seq<char>,
    notes: Map<Seq<char>, Seq<char>>,
) -> Seq<char>
    decreases items.len(),
{
    if items.len() == 0 {
        Seq::empty()
    } else {
        listed_items(items.drop_last(), section, path, notes) + if section_of(items.last().kind)
            == section {
            listed_text(items.last(), section, path, notes)
        } else {
            Seq::empty()
        }
    }
}

/// Whether some item of `items` belongs to the group `section`.
pub open spec fn has_section(items: Seq<Item>, section: Section) -> bool {
    exists|i: int| 0 <= i < items.len() && section_of((#[trigger] items[i]).kind) == section
}

/// One group of the catalog of a module: nothing where the module has no
/// item of the group; else the heading, the items, and an empty line, which
/// for implementation blocks each block brings itself.
pub open spec fn section_text(
    items: Seq<Item>,
    section: Section,
    path: Seq<char>,
    notes: Map<Seq<char>, Seq<char>>,
) -> Seq<char> {
    if !has_section(items, section) {
        Seq::empty()
    } else if section == Section::Impls {
        listed_items(items, section, path, notes)
    } else {
        section_title(section) + listed_items(items, section, path, notes) + "\n"@
    }
}

/// The catalog of the module `m` and of the modules below it.
pub open spec fn surface_text(m: Module, notes: Map<Seq<char>, Seq<char>>) -> Seq<char>
    decreases m,
{
    "# "@ + m.path@ + "\n"@ + "<!-- file: "@ + m.file_path@ + " -->\n\n"@ + section_text(
        m.items@,
        Section::Types,
        m.path@,
        notes,
    ) + section_text(m.items@, Section::Traits, m.path@, notes) + section_text(
        m.items@,
        Section::Functions,
        m.path@,
        notes,
    ) + section_text(m.items@, Section::Impls, m.path@, notes) + section_text(
        m.items@,
        Section::Constants,
        m.path@,
        notes,
    ) + section_text(m.items@, Section::Macros, m.path@, notes) + section_text(
        m.items@,
        Section::Reexports,
        m.path@,
        notes,
    ) + "---\n\n"@ + surfaces_text(m.submodules@, notes)
}

/// The catalogs of the modules `mods`, one after another.
pub open spec fn surfaces_text(mods: Seq<Module>, notes: Map<Seq<char>, Seq<char>>) -> Seq<char>
    decreases mods,
{
    if mods.len() == 0 {
        Seq::empty()
    } else {
        surfaces_text(mods.drop_last(), notes) + surface_text(mods.last(), notes)
    }
}

/// The catalog of the packages.
pub open spec fn api_surface_text(crates: Seq<CrateInfo>, notes: Map<Seq<char>, Seq<char>>) -> Seq<
    char,
>
    decreases crates.len(),
{
    if crates.len() == 0 {
        Seq::empty()
    } else {
        api_surface_text(crates.drop_last(), notes) + "# Crate: "@ + crates.last().name@ + " ("@
            + crates.last().kind.label_spec() + ")\n\n"@ + surface_text(
            crates.last().root_module,
            notes,
        )
    }
}

/// The heading of an implementation block.
pub fn format_impl_header(kind: &ItemKind) -> (r: String)
    ensures
        r@ == impl_header(*kind),
{
    match kind {
        ItemKind::Impl { self_ty, trait_name } => {
            let mut r = "Impl ".to_string();
            match trait_name {
                Some(t) => {
                    r.append(t.as_str());
                    r.append(" for ");
                },
                None => {},
            }
            r.append(self_ty.as_str());
            r
        },
        _ => "Impl".to_string(),
    }
}

/// The group that an item of the kind `kind` is listed in.
fn section_of_exec(kind: &ItemKind) -> (r: Section)
    ensures
        r == section_of(*kind),
{
    match kind {
        ItemKind::Struct => Section::Types,
        ItemKind::Enum => Section::Types,
        ItemKind::TypeAlias => Section::Types,
        ItemKind::Trait => Section::Traits,
        ItemKind::Function => Section::Functions,
        ItemKind::Impl { .. } => Section::Impls,
        ItemKind::Const => Section::Constants,
        ItemKind::Static => Section::Constants,
        ItemKind::Macro => Section::Macros,
        ItemKind::Use => Section::Reexports,
    }
}

/// Appends what the catalog shows of one item of the module `path`.
pub fn write_item(out: &mut String, item: &Item, annotations: &AnnotationStore, path: &str)
    ensures
        final(out)@ == old(out)@ + item_text(*item, path@, annotations.item_notes()),
{
    let ghost notes = annotations.item_notes();
    match &item.doc_comment {
        Some(doc) => {
            let d = to_chars(doc.as_str());
            let all = lines_exec(&d);
            let ghost shown = lines(doc@);
            let ghost head = out@;
            let mut i: usize = 0;
            assert(head + doc_lines(shown.take(0)) =~= head);
            while i < all.len()
                invariant
                    i <= all.len(),
                    shown == views(all@),
                    out@ == head + doc_lines(shown.take(i as int)),
                decreases all.len() - i,
            {
                assert(shown.take(i + 1).drop_last() =~= shown.take(i as int));
                assert(shown[i as int] == all@[i as int]@);
                out.append("/// ");
                out.append(from_chars(&all[i]).as_str());
                out.append("\n");
                assert(out@ =~= head + doc_lines(shown.take(i + 1)));
                i += 1;
            }
            assert(shown.take(all.len() as int) =~= shown);
        },
        None => {
            assert(out@ + Seq::<char>::empty() =~= out@);
        },
    }
    let mut key = path.to_string();
    key.append("::");
    key.append(item.name.as_str());
    match note_at(&annotations.items, key.as_str()) {
        Some(note) => {
            out.append("// NOTE: ");
            out.append(note);
            out.append("\n");
        },
        None => {},
    }
    out.append(item.signature.as_str());
    out.append("\n\n");
    assert(out@ =~= old(out)@ + item_text(*item, path@, notes));
}

/// Appends one group of the catalog of a module.
fn write_section(out: &mut String, module: &Module, section: Section, annotations: &AnnotationStore)
    ensures
        final(out)@ == old(out)@ + section_text(
            module.items@,
            section,
            module.path@,
            annotations.item_notes(),
        ),
{
    let ghost notes = annotations.item_notes();
    let ghost items = module.items@;
    let mut found = false;
    let mut k: usize = 0;
    while k < module.items.len()
        invariant
            k <= module.items.len(),
            items == module.items@,
            found == has_section(items.take(k as int), section),
        decreases module.items.len() - k,
    {
        let same = section_of_exec(&module.items[k].kind) == section;
        proof {
            let next = items.take(k + 1);
            if has_section(next, section) {
                let j = choose|j: int|
                    0 <= j < next.len() && section_of((#[trigger] next[j]).kind) == section;
                if j < k {
                    assert(items.take(k as int)[j] == next[j]);
                }
            }
            if has_section(items.take(k as int), section) {
                let j = choose|j: int|
                    0 <= j < k && section_of((#[trigger] items.take(k as int)[j]).kind)
                        == section;
                assert(next[j] == items.take(k as int)[j]);
            }
            if same {
                assert(next[k as int] == items[k as int]);
            }
        }
        if same {
            found = true;
        }
        k += 1;
    }
    assert(items.take(module.items.len() as int) =~= items);
    if !found {
        assert(out@ + Seq::<char>::empty() =~= out@);
        return ;
    }
    match section {
        Section::Types => out.append("## Types\n\n"),
        Section::Traits => out.append("## Traits\n\n"),
        Section::Functions => out.append("## Functions\n\n"),
        Section::Impls => {},
        Section::Constants => out.append("## Constants\n\n"),
        Section::Macros => out.append("## Macros\n\n"),
        Section::Reexports => out.append("## Re-exports\n\n"),
    }
    let ghost head = out@;
    assert(head =~= old(out)@ + section_title(section));
    let mut i: usize = 0;
    assert(head + listed_items(items.take(0), section, module.path@, notes) =~= head);
    while i < module.items.len()
        invariant
            i <= module.items.len(),
            items == module.items@,
            notes == annotations.item_notes(),
            out@ == head + listed_items(items.take(i as int), section, module.path@, notes),
        decreases module.items.len() - i,
    {
        assert(items.take(i + 1).drop_last() =~= items.take(i as int));
        let ghost sofar = out@;
        let item = &module.items[i];
        if section_of_exec(&item.kind) == section {
            if section == Section::Impls {
                out.append("## ");
                out.append(format_impl_header(&item.kind).as_str());
                out.append("\n\n");
                write_item(out, item, annotations, module.path.as_str());
                out.append("\n");
            } else {
                write_item(out, item, annotations, module.path.as_str());
            }
            assert(out@ =~= sofar + listed_text(*item, section, module.path@, notes));
        } else {
            assert(sofar + Seq::<char>::empty() =~= sofar);
        }
        i += 1;
    }
    assert(items.take(module.items.len() as int) =~= items);
    if section != Section::Impls {
        out.append("\n");
    }
    assert(out@ =~= old(out)@ + section_text(items, section, module.path@, notes));
}

/// Appends the catalog of the module and of the modules below it: the
/// module's heading and file, its items group by group, a rule, and then the
/// modules declared in it.
pub fn write_module_surface(out: &mut String, module: &Module, annotations: &AnnotationStore)
    ensures
        final(out)@ == old(out)@ + surface_text(*module, annotations.item_notes()),
    decreases module,
{
    let ghost notes = annotations.item_notes();
    out.append("# ");
    out.append(module.path.as_str());
    out.append("\n");
    out.append("<!-- file: ");
    out.append(module.file_path.as_str());
    out.append(" -->\n\n");
    write_section(out, module, Section::Types, annotations);
    write_section(out, module, Section::Traits, annotations);
    write_section(out, module, Section::Functions, annotations);
    write_section(out, module, Section::Impls, annotations);
    write_section(out, module, Section::Constants, annotations);
    write_section(out, module, Section::Macros, annotations);
    write_section(out, module, Section::Reexports, annotations);
    out.append("---\n\n");
    let ghost head = out@;
    let mut i: usize = 0;
    assert(head + surfaces_text(module.submodules@.take(0), notes) =~= head);
    while i < module.submodules.len()
        invariant
            i <= module.submodules.len(),
            notes == annotations.item_notes(),
            out@ == head + surfaces_text(module.submodules@.take(i as int), notes),
        decreases module.submodules.len() - i,
    {
        assert(module.submodules@.take(i + 1).drop_last() =~= module.submodules@.take(i as int));
        write_module_surface(out, &module.submodules[i], annotations);
        assert(out@ =~= head + surfaces_text(module.submodules@.take(i + 1), notes));
        i += 1;
    }
    assert(module.submodules@.take(module.submodules.len() as int) =~= module.submodules@);
    assert(out@ =~= old(out)@ + surface_text(*module, notes));
}

/// Generates the catalog of signatures: all items, public and private,
/// grouped by module, signatures only.
pub fn generate_api_surface(crates: &[CrateInfo], annotations: &AnnotationStore) -> (out: String)
    ensures
        out@ == api_surface_text(crates@, annotations.item_notes()),
{
    let ghost notes = annotations.item_notes();
    let mut out = String::new();
    let mut i: usize = 0;
    assert(crates@.take(0) =~= Seq::<CrateInfo>::empty());
    while i < crates.len()
        invariant
            i <= crates.len(),
            notes == annotations.item_notes(),
            out@ == api_surface_text(crates@.take(i as int), notes),
        decreases crates.len() - i,
    {
        assert(crates@.take(i + 1).drop_last() =~= crates@.take(i as int));
        out.append("# Crate: ");
        out.append(crates[i].name.as_str());
        out.append(" (");
        out.append(crates[i].kind.label());
        out.append(")\n\n");
        write_module_surface(&mut out, &crates[i].root_module, annotations);
        assert(out@ =~= api_surface_text(crates@.take(i + 1), notes));
        i += 1;
    }
    assert(crates@.take(crates.len() as int) =~= crates@);
    out
}

} // verus!
