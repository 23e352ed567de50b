//! The signatures of declarations: what is written of a declaration without
//! its body, put together from the pieces of token text that the parser
//! hands over.

use vstd::prelude::*;
use crate::metadata::{convert_visibility, visibility_of, RawVisibility};
use crate::syntax::{
    Fields, FnSig, Generics, ImplMember, NamedField, TraitMember, TupleField, Variant,
};
use crate::text::{join, join_strs, str_views};

verus! {

/// What stands before a declaration of the written visibility.
pub open spec fn prefix_of(vis: RawVisibility) -> Seq<char> {
    visibility_of(vis).prefix_spec()
}

/// What stands before a declaration of the written visibility: nothing for
/// one without a written visibility.
pub fn visibility_prefix(vis: &RawVisibility) -> (r: &'static str)
    ensures
        r@ == prefix_of(*vis),
{
    convert_visibility(vis).prefix()
}

/// The word `word` where the flag is set, and nothing else.
pub open spec fn flag(on: bool, word: Seq<char>) -> Seq<char> {
    if on {
        word
    } else {
        Seq::empty()
    }
}

/// The generic parameters as they stand in a signature: nothing where there
/// are none.
pub open spec fn generics_text(g: Generics) -> Seq<char> {
    if g.params == 0 {
        Seq::empty()
    } else {
        g.text@
    }
}

/// The `where` clause as it stands in a signature, behind a space.
pub open spec fn where_text(g: Generics) -> Seq<char> {
    match g.where_clause {
        Some(w) => " "@ + w@,
        None => Seq::empty(),
    }
}

/// The return type as it stands in a signature, behind an arrow.
pub open spec fn output_text(output: Option<String>) -> Seq<char> {
    match output {
        Some(ty) => " -> "@ + ty@,
        None => Seq::empty(),
    }
}

/// A signature from the keyword `fn` to the return type.
pub open spec fn fn_core(sig: FnSig) -> Seq<char> {
    "fn "@ + sig.ident@ + generics_text(sig.generics) + "("@ + join(str_views(sig.inputs@), ", "@)
        + ")"@ + output_text(sig.output)
}

/// The signature of a function without its body.
pub open spec fn fn_signature_spec(vis: RawVisibility, sig: FnSig) -> Seq<char> {
    prefix_of(vis) + flag(sig.constness, "const "@) + flag(sig.asyncness, "async "@) + flag(
        sig.unsafety,
        "unsafe "@,
    ) + fn_core(sig) + where_text(sig.generics) + ";"@
}

/// The signature of a method of an interface.
pub open spec fn trait_method_spec(sig: FnSig) -> Seq<char> {
    flag(sig.asyncness, "async "@) + flag(sig.unsafety, "unsafe "@) + fn_core(sig) + ";"@
}

/// The signature of a method of an implementation block.
pub open spec fn impl_method_spec(vis: RawVisibility, sig: FnSig) -> Seq<char> {
    prefix_of(vis) + flag(sig.asyncness, "async "@) + flag(sig.unsafety, "unsafe "@) + fn_core(
        sig,
    ) + ";"@
}

/// Appends the word `word` where the flag is set.
pub fn push_flag(out: &mut String, on: bool, word: &str)
    ensures
        final(out)@ == old(out)@ + flag(on, word@),
{
    if on {
        out.append(word);
    } else {
        assert(out@ + Seq::<char>::empty() =~= out@);
    }
}

/// Appends the generic parameters as they stand in a signature.
fn push_generics(out: &mut String, g: &Generics)
    ensures
        final(out)@ == old(out)@ + generics_text(*g),
{
    if g.params != 0 {
        out.append(g.text.as_str());
    } else {
        assert(out@ + Seq::<char>::empty() =~= out@);
    }
}

/// Appends the `where` clause as it stands in a signature.
fn push_where(out: &mut String, g: &Generics)
    ensures
        final(out)@ == old(out)@ + where_text(*g),
{
    match &g.where_clause {
        Some(w) => {
            out.append(" ");
            out.append(w.as_str());
            assert(out@ =~= old(out)@ + (" "@ + w@));
        },
        None => {
            assert(out@ + Seq::<char>::empty() =~= out@);
        },
    }
}

/// Appends a signature from the keyword `fn` to the return type.
fn push_fn_core(out: &mut String, sig: &FnSig)
    ensures
        final(out)@ == old(out)@ + fn_core(*sig),
{
    out.append("fn ");
    out.append(sig.ident.as_str());
    push_generics(out, &sig.generics);
    out.append("(");
    out.append(join_strs(&sig.inputs, ", ").as_str());
    out.append(")");
    let ghost head = out@;
    assert(head =~= old(out)@ + ("fn "@ + sig.ident@ + generics_text(sig.generics) + "("@ + join(
        str_views(sig.inputs@),
        ", "@,
    ) + ")"@));
    match &sig.output {
        Some(ty) => {
            out.append(" -> ");
            out.append(ty.as_str());
            assert(out@ =~= head + (" -> "@ + ty@));
        },
        None => {
            assert(out@ + Seq::<char>::empty() =~= out@);
        },
    }
    assert(out@ =~= old(out)@ + fn_core(*sig));
}

/// Generates the signature of a function without its body.
pub fn fn_signature(vis: &RawVisibility, sig: &FnSig) -> (r: String)
    ensures
        r@ == fn_signature_spec(*vis, *sig),
{
    let mut r = visibility_prefix(vis).to_string();
    push_flag(&mut r, sig.constness, "const ");
    push_flag(&mut r, sig.asyncness, "async ");
    push_flag(&mut r, sig.unsafety, "unsafe ");
    push_fn_core(&mut r, sig);
    push_where(&mut r, &sig.generics);
    r.append(";");
    r
}

/// Generates the signature of a method of an interface.
pub fn trait_method_signature(sig: &FnSig) -> (r: String)
    ensures
        r@ == trait_method_spec(*sig),
{
    let mut r = String::new();
    push_flag(&mut r, sig.asyncness, "async ");
    assert(r@ =~= flag(sig.asyncness, "async "@));
    push_flag(&mut r, sig.unsafety, "unsafe ");
    push_fn_core(&mut r, sig);
    r.append(";");
    r
}

/// Generates the signature of a method of an implementation block.
pub fn impl_method_signature(vis: &RawVisibility, sig: &FnSig) -> (r: String)
    ensures
        r@ == impl_method_spec(*vis, *sig),
{
    let mut r = visibility_prefix(vis).to_string();
    push_flag(&mut r, sig.asyncness, "async ");
    push_flag(&mut r, sig.unsafety, "unsafe ");
    push_fn_core(&mut r, sig);
    r.append(";");
    r
}

/// A named field on a line of a struct's signature.
pub open spec fn named_field_text(f: NamedField) -> Seq<char> {
    "    "@ + prefix_of(f.vis) + f.name@ + ": "@ + f.ty@ + ","@
}

/// A field without a name in a struct's signature.
pub open spec fn tuple_field_text(f: TupleField) -> Seq<char> {
    prefix_of(f.vis) + f.ty@
}

/// The signature of a struct: with its fields, one a line, where they have
/// names.
pub open spec fn struct_signature_spec(
    vis: RawVisibility,
    ident: Seq<char>,
    generics: Generics,
    fields: Fields,
) -> Seq<char> {
    let head = prefix_of(vis) + "struct "@ + ident + generics_text(generics);
    match fields {
        Fields::Named(fs) => head + where_text(generics) + " {\n"@ + join(
            fs@.map_values(|f: NamedField| named_field_text(f)),
            "\n"@,
        ) + "\n}"@,
        Fields::Unnamed(fs) => head + "("@ + join(
            fs@.map_values(|f: TupleField| tuple_field_text(f)),
            ", "@,
        ) + ");"@,
        Fields::Unit => head + ";"@,
    }
}

/// The named fields of a struct, each as a line of the struct's signature.
fn named_field_rows(fs: &Vec<NamedField>) -> (rows: Vec<String>)
    ensures
        str_views(rows@) == fs@.map_values(|f: NamedField| named_field_text(f)),
{
    let ghost all = fs@.map_values(|f: NamedField| named_field_text(f));
    let mut rows: Vec<String> = Vec::new();
    let mut i: usize = 0;
    while i < fs.len()
        invariant
            i <= fs.len(),
            all == fs@.map_values(|f: NamedField| named_field_text(f)),
            str_views(rows@) == all.take(i as int),
        decreases fs.len() - i,
    {
        let ghost before = str_views(rows@);
        let mut row = "    ".to_string();
        row.append(visibility_prefix(&fs[i].vis));
        row.append(fs[i].name.as_str());
        row.append(": ");
        row.append(fs[i].ty.as_str());
        row.append(",");
        assert(row@ == all[i as int]);
        rows.push(row);
        assert(str_views(rows@) =~= before.push(all[i as int]));
        assert(all.take(i + 1) =~= all.take(i as int).push(all[i as int]));
        i += 1;
    }
    assert(all.take(fs.len() as int) =~= all);
    rows
}

/// The fields without names of a struct as they stand in its signature.
fn tuple_field_rows(fs: &Vec<TupleField>) -> (rows: Vec<String>)
    ensures
        str_views(rows@) == fs@.map_values(|f: TupleField| tuple_field_text(f)),
{
    let ghost all = fs@.map_values(|f: TupleField| tuple_field_text(f));
    let mut rows: Vec<String> = Vec::new();
    let mut i: usize = 0;
    while i < fs.len()
        invariant
            i <= fs.len(),
            all == fs@.map_values(|f: TupleField| tuple_field_text(f)),
            str_views(rows@) == all.take(i as int),
        decreases fs.len() - i,
    {
        let ghost before = str_views(rows@);
        let mut row = visibility_prefix(&fs[i].vis).to_string();
        row.append(fs[i].ty.as_str());
        assert(row@ == all[i as int]);
        rows.push(row);
        assert(str_views(rows@) =~= before.push(all[i as int]));
        assert(all.take(i + 1) =~= all.take(i as int).push(all[i as int]));
        i += 1;
    }
    assert(all.take(fs.len() as int) =~= all);
    rows
}

/// Generates the signature of a struct with its fields.
pub fn struct_signature(vis: &RawVisibility, ident: &str, generics: &Generics, fields: &Fields) -> (r:
    String)
    ensures
        r@ == struct_signature_spec(*vis, ident@, *generics, *fields),
{
    let mut r = visibility_prefix(vis).to_string();
    r.append("struct ");
    r.append(ident);
    push_generics(&mut r, generics);
    match fields {
        Fields::Named(fs) => {
            push_where(&mut r, generics);
            r.append(" {\n");
            r.append(join_strs(&named_field_rows(fs), "\n").as_str());
            r.append("\n}");
        },
        Fields::Unnamed(fs) => {
            r.append("(");
            r.append(join_strs(&tuple_field_rows(fs), ", ").as_str());
            r.append(");");
        },
        Fields::Unit => {
            r.append(";");
        },
    }
    r
}

/// A named field of a variant.
pub open spec fn variant_field_text(f: NamedField) -> Seq<char> {
    f.name@ + ": "@ + f.ty@
}

/// A variant on a line of an enum's signature.
pub open spec fn variant_text(v: Variant) -> Seq<char> {
    match v.fields {
        Fields::Named(fs) => "    "@ + v.name@ + " { "@ + join(
            fs@.map_values(|f: NamedField| variant_field_text(f)),
            ", "@,
        ) + " },"@,
        Fields::Unnamed(fs) => "    "@ + v.name@ + "("@ + join(
            fs@.map_values(|f: TupleField| f.ty@),
            ", "@,
        ) + "),"@,
        Fields::Unit => "    "@ + v.name@ + ","@,
    }
}

/// The signature of an enum with its variants, one a line.
pub open spec fn enum_signature_spec(
    vis: RawVisibility,
    ident: Seq<char>,
    generics: Generics,
    variants: Seq<Variant>,
) -> Seq<char> {
    prefix_of(vis) + "enum "@ + ident + generics_text(generics) + " {\n"@ + join(
        variants.map_values(|v: Variant| variant_text(v)),
        "\n"@,
    ) + "\n}"@
}

/// A variant as a line of an enum's signature.
fn variant_row(v: &Variant) -> (row: String)
    ensures
        row@ == variant_text(*v),
{
    let mut row = "    ".to_string();
    row.append(v.name.as_str());
    match &v.fields {
        Fields::Named(fs) => {
            let ghost all = fs@.map_values(|f: NamedField| variant_field_text(f));
            let mut parts: Vec<String> = Vec::new();
            let mut i: usize = 0;
            while i < fs.len()
                invariant
                    i <= fs.len(),
                    all == fs@.map_values(|f: NamedField| variant_field_text(f)),
                    str_views(parts@) == all.take(i as int),
                decreases fs.len() - i,
            {
                let ghost before = str_views(parts@);
                let mut part = fs[i].name.clone();
                part.append(": ");
                part.append(fs[i].ty.as_str());
                parts.push(part);
                assert(str_views(parts@) =~= before.push(all[i as int]));
                assert(all.take(i + 1) =~= all.take(i as int).push(all[i as int]));
                i += 1;
            }
            assert(all.take(fs.len() as int) =~= all);
            row.append(" { ");
            row.append(join_strs(&parts, ", ").as_str());
            row.append(" },");
        },
        Fields::Unnamed(fs) => {
            let ghost all = fs@.map_values(|f: TupleField| f.ty@);
            let mut parts: Vec<String> = Vec::new();
            let mut i: usize = 0;
            while i < fs.len()
                invariant
                    i <= fs.len(),
                    all == fs@.map_values(|f: TupleField| f.ty@),
                    str_views(parts@) == all.take(i as int),
                decreases fs.len() - i,
            {
                let ghost before = str_views(parts@);
                parts.push(fs[i].ty.clone());
                assert(str_views(parts@) =~= before.push(all[i as int]));
                assert(all.take(i + 1) =~= all.take(i as int).push(all[i as int]));
                i += 1;
            }
            assert(all.take(fs.len() as int) =~= all);
            row.append("(");
            row.append(join_strs(&parts, ", ").as_str());
            row.append("),");
        },
        Fields::Unit => {
            row.append(",");
        },
    }
    row
}

/// Generates the signature of an enum with its variants.
pub fn enum_signature(vis: &RawVisibility, ident: &str, generics: &Generics, variants: &Vec<Variant>) -> (r:
    String)
    ensures
        r@ == enum_signature_spec(*vis, ident@, *generics, variants@),
{
    let ghost all = variants@.map_values(|v: Variant| variant_text(v));
    let mut rows: Vec<String> = Vec::new();
    let mut i: usize = 0;
    while i < variants.len()
        invariant
            i <= variants.len(),
            all == variants@.map_values(|v: Variant| variant_text(v)),
            str_views(rows@) == all.take(i as int),
        decreases variants.len() - i,
    {
        let ghost before = str_views(rows@);
        rows.push(variant_row(&variants[i]));
        assert(str_views(rows@) =~= before.push(all[i as int]));
        assert(all.take(i + 1) =~= all.take(i as int).push(all[i as int]));
        i += 1;
    }
    assert(all.take(variants.len() as int) =~= all);
    let mut r = visibility_prefix(vis).to_string();
    r.append("enum ");
    r.append(ident);
    push_generics(&mut r, generics);
    r.append(" {\n");
    r.append(join_strs(&rows, "\n").as_str());
    r.append("\n}");
    r
}

/// The bounds behind a colon, with a plus sign between each two: nothing
/// where there are none.
pub open spec fn bounds_text(bounds: Seq<String>) -> Seq<char> {
    if bounds.len() == 0 {
        Seq::empty()
    } else {
        ": "@ + join(str_views(bounds), " + "@)
    }
}

/// A member of an interface on a line of the interface's signature: a
/// method, an associated type or an associated constant. Other members are
/// not shown.
pub open spec fn trait_member_text(m: TraitMember) -> Option<Seq<char>> {
    match m {
        TraitMember::Fn(sig) => Some("    "@ + trait_method_spec(sig)),
        TraitMember::Type { ident, bounds } => Some(
            "    type "@ + ident@ + bounds_text(bounds@) + ";"@,
        ),
        TraitMember::Const { ident, ty } => Some("    const "@ + ident@ + ": "@ + ty@ + ";"@),
        TraitMember::Other => None,
    }
}

/// The signature of an interface with its members, one a line.
pub open spec fn trait_signature_spec(
    vis: RawVisibility,
    unsafety: bool,
    ident: Seq<char>,
    generics: Generics,
    supertraits: Seq<String>,
    members: Seq<TraitMember>,
) -> Seq<char> {
    prefix_of(vis) + flag(unsafety, "unsafe "@) + "trait "@ + ident + generics_text(generics)
        + bounds_text(supertraits) + where_text(generics) + " {\n"@ + join(
        members.filter_map(|m: TraitMember| trait_member_text(m)),
        "\n"@,
    ) + "\n}"@
}

/// Appends the bounds behind a colon, where there are any.
fn push_bounds(out: &mut String, bounds: &Vec<String>)
    ensures
        final(out)@ == old(out)@ + bounds_text(bounds@),
{
    if bounds.len() > 0 {
        out.append(": ");
        out.append(join_strs(bounds, " + ").as_str());
        assert(out@ =~= old(out)@ + (": "@ + join(str_views(bounds@), " + "@)));
    } else {
        assert(out@ + Seq::<char>::empty() =~= out@);
    }
}

/// A member of an interface as a line of the interface's signature, if it
/// is shown.
fn trait_member_row(m: &TraitMember) -> (row: Option<String>)
    ensures
        match row {
            Some(r) => trait_member_text(*m) == Some(r@),
            None => trait_member_text(*m) is None,
        },
{
    match m {
        TraitMember::Fn(sig) => {
            let mut row = "    ".to_string();
            row.append(trait_method_signature(sig).as_str());
            Some(row)
        },
        TraitMember::Type { ident, bounds } => {
            let mut row = "    type ".to_string();
            row.append(ident.as_str());
            push_bounds(&mut row, bounds);
            row.append(";");
            Some(row)
        },
        TraitMember::Const { ident, ty } => {
            let mut row = "    const ".to_string();
            row.append(ident.as_str());
            row.append(": ");
            row.append(ty.as_str());
            row.append(";");
            Some(row)
        },
        TraitMember::Other => None,
    }
}

/// Generates the signature of an interface with the signatures of its
/// members.
pub fn trait_signature(
    vis: &RawVisibility,
    unsafety: bool,
    ident: &str,
    generics: &Generics,
    supertraits: &Vec<String>,
    members: &Vec<TraitMember>,
) -> (r: String)
    ensures
        r@ == trait_signature_spec(*vis, unsafety, ident@, *generics, supertraits@, members@),
{
    let ghost shown = |m: TraitMember| trait_member_text(m);
    let mut rows: Vec<String> = Vec::new();
    let mut i: usize = 0;
    assert(str_views(rows@) =~= members@.take(0).filter_map(shown));
    while i < members.len()
        invariant
            i <= members.len(),
            shown == |m: TraitMember| trait_member_text(m),
            str_views(rows@) == members@.take(i as int).filter_map(shown),
        decreases members.len() - i,
    {
        let ghost before = str_views(rows@);
        proof {
            members@.lemma_filter_map_take_succ(shown, i as int);
        }
        match trait_member_row(&members[i]) {
            Some(row) => {
                rows.push(row);
                assert(str_views(rows@) =~= before + seq![row@]);
            },
            None => {
                assert(before + Seq::<Seq<char>>::empty() =~= before);
            },
        }
        i += 1;
    }
    assert(members@.take(members.len() as int) =~= members@);
    let mut r = visibility_prefix(vis).to_string();
    push_flag(&mut r, unsafety, "unsafe ");
    r.append("trait ");
    r.append(ident);
    push_generics(&mut r, generics);
    push_bounds(&mut r, supertraits);
    push_where(&mut r, generics);
    r.append(" {\n");
    r.append(join_strs(&rows, "\n").as_str());
    r.append("\n}");
    r
}

/// A member of an implementation block on a line of the block's signature:
/// a method, an associated type or an associated constant. Other members are
/// not shown.
pub open spec fn impl_member_text(m: ImplMember) -> Option<Seq<char>> {
    match m {
        ImplMember::Fn { vis, sig } => Some("    "@ + impl_method_spec(vis, sig)),
        ImplMember::Type { ident, ty } => Some("    type "@ + ident@ + " = "@ + ty@ + ";"@),
        ImplMember::Const { ident, ty } => Some("    const "@ + ident@ + ": "@ + ty@ + ";"@),
        ImplMember::Other => None,
    }
}

/// The interface that a block implements as it stands in the block's
/// signature: behind an exclamation mark where the block is negative, and
/// before the word `for`.
pub open spec fn trait_part(negative: bool, trait_path: Option<String>) -> Seq<char> {
    match trait_path {
        Some(path) => flag(negative, "!"@) + path@ + " for "@,
        None => Seq::empty(),
    }
}

/// The signature of an implementation block with its members, one a line.
pub open spec fn impl_signature_spec(
    unsafety: bool,
    generics: Generics,
    negative: bool,
    trait_path: Option<String>,
    self_ty: Seq<char>,
    members: Seq<ImplMember>,
) -> Seq<char> {
    flag(unsafety, "unsafe "@) + "impl "@ + generics_text(generics) + trait_part(
        negative,
        trait_path,
    ) + self_ty + where_text(generics) + " {\n"@ + join(
        members.filter_map(|m: ImplMember| impl_member_text(m)),
        "\n"@,
    ) + "\n}"@
}

/// A member of an implementation block as a line of the block's signature,
/// if it is shown.
fn impl_member_row(m: &ImplMember) -> (row: Option<String>)
    ensures
        match row {
            Some(r) => impl_member_text(*m) == Some(r@),
            None => impl_member_text(*m) is None,
        },
{
    match m {
        ImplMember::Fn { vis, sig } => {
            let mut row = "    ".to_string();
            row.append(impl_method_signature(vis, sig).as_str());
            Some(row)
        },
        ImplMember::Type { ident, ty } => {
            let mut row = "    type ".to_string();
            row.append(ident.as_str());
            row.append(" = ");
            row.append(ty.as_str());
            row.append(";");
            Some(row)
        },
        ImplMember::Const { ident, ty } => {
            let mut row = "    const ".to_string();
            row.append(ident.as_str());
            row.append(": ");
            row.append(ty.as_str());
            row.append(";");
            Some(row)
        },
        ImplMember::Other => None,
    }
}

/// Appends the interface that a block implements as it stands in the
/// block's signature.
fn push_trait_part(out: &mut String, negative: bool, trait_path: &Option<String>)
    ensures
        final(out)@ == old(out)@ + trait_part(negative, *trait_path),
{
    match trait_path {
        Some(path) => {
            push_flag(out, negative, "!");
            out.append(path.as_str());
            out.append(" for ");
            assert(out@ =~= old(out)@ + (flag(negative, "!"@) + path@ + " for "@));
        },
        None => {
            assert(out@ + Seq::<char>::empty() =~= out@);
        },
    }
}

/// Generates the signature of an implementation block with the signatures
/// of its members.
pub fn impl_signature(
    unsafety: bool,
    generics: &Generics,
    negative: bool,
    trait_path: &Option<String>,
    self_ty: &str,
    members: &Vec<ImplMember>,
) -> (r: String)
    ensures
        r@ == impl_signature_spec(unsafety, *generics, negative, *trait_path, self_ty@, members@),
{
    let ghost shown = |m: ImplMember| impl_member_text(m);
    let mut rows: Vec<String> = Vec::new();
    let mut i: usize = 0;
    assert(str_views(rows@) =~= members@.take(0).filter_map(shown));
    while i < members.len()
        invariant
            i <= members.len(),
            shown == |m: ImplMember| impl_member_text(m),
            str_views(rows@) == members@.take(i as int).filter_map(shown),
        decreases members.len() - i,
    {
        let ghost before = str_views(rows@);
        proof {
            members@.lemma_filter_map_take_succ(shown, i as int);
        }
        match impl_member_row(&members[i]) {
            Some(row) => {
                rows.push(row);
                assert(str_views(rows@) =~= before + seq![row@]);
            },
            None => {
                assert(before + Seq::<Seq<char>>::empty() =~= before);
            },
        }
        i += 1;
    }
    assert(members@.take(members.len() as int) =~= members@);
    let mut r = String::new();
    push_flag(&mut r, unsafety, "unsafe ");
    assert(r@ =~= flag(unsafety, "unsafe "@));
    r.append("impl ");
    push_generics(&mut r, generics);
    push_trait_part(&mut r, negative, trait_path);
    r.append(self_ty);
    push_where(&mut r, generics);
    r.append(" {\n");
    r.append(join_strs(&rows, "\n").as_str());
    r.append("\n}");
    r
}

} // verus!
