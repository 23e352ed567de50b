//! From the declarations that the parser hands over to the items of the
//! index: their names, kinds and signatures, their documentation, their line
//! ranges and their digests.

use vstd::prelude::*;
use crate::hash::{digest_text, hash_item_source, item_text, range_fits, range_in_source};
use crate::imports::{use_tree_name, use_tree_name_spec};
use crate::metadata::{convert_visibility, visibility_of};
use crate::model::{item_views, opt_view, Item, ItemKind, ItemKindView, ItemView, Visibility};
use crate::signatures::{
    enum_signature, enum_signature_spec, flag, fn_signature, fn_signature_spec, impl_signature,
    impl_signature_spec, prefix_of, push_flag, struct_signature, struct_signature_spec,
    trait_signature, trait_signature_spec, visibility_prefix,
};
use crate::source::{ParsedItem, ParsedItemView, ParsedSource, ParsedSourceView};
use crate::syntax::{DocAttr, RawItem, RawKind, SpanParts};
use crate::text::{
    from_chars_range, join, join_strs, lines, lines_exec, starts_with_exec, str_views, strip_prefix,
    to_chars, trim, trim_bounds,
};

verus! {

/// One line of documentation without the one space that it may begin with.
pub open spec fn doc_line(text: Seq<char>) -> Seq<char> {
    match strip_prefix(text, " "@) {
        Some(rest) => rest,
        None => text,
    }
}

/// The documentation made of the given attribute texts: none where there is
/// no text; else the texts, each without its leading space, one a line, and
/// the whole without the whitespace at its ends.
pub open spec fn doc_text(texts: Seq<Seq<char>>) -> Option<Seq<char>> {
    if texts.len() == 0 {
        None
    } else {
        Some(trim(join(texts.map_values(|t: Seq<char>| doc_line(t)), "\n"@)))
    }
}

/// The texts of documentation attributes, in their order.
pub open spec fn doc_texts(docs: Seq<DocAttr>) -> Seq<Seq<char>> {
    docs.map_values(|d: DocAttr| d.text@)
}

/// The texts of those documentation attributes that document what they
/// stand in, in their order.
pub open spec fn inner_doc_texts(docs: Seq<DocAttr>) -> Seq<Seq<char>>
    decreases docs.len(),
{
    if docs.len() == 0 {
        Seq::empty()
    } else if docs.last().inner {
        inner_doc_texts(docs.drop_last()).push(docs.last().text@)
    } else {
        inner_doc_texts(docs.drop_last())
    }
}

/// The documentation made of the given lines.
fn doc_from(texts: &Vec<String>) -> (r: Option<String>)
    ensures
        match r {
            Some(d) => doc_text(str_views(texts@)) == Some(d@),
            None => doc_text(str_views(texts@)) is None,
        },
{
    if texts.len() == 0 {
        return None;
    }
    let ghost cut = str_views(texts@).map_values(|t: Seq<char>| doc_line(t));
    let space = to_chars(" ");
    let mut rows: Vec<String> = Vec::new();
    let mut i: usize = 0;
    while i < texts.len()
        invariant
            i <= texts.len(),
            space@ == " "@,
            cut == str_views(texts@).map_values(|t: Seq<char>| doc_line(t)),
            str_views(rows@) == cut.take(i as int),
        decreases texts.len() - i,
    {
        let ghost before = str_views(rows@);
        let t = to_chars(texts[i].as_str());
        assert(str_views(texts@)[i as int] == t@);
        if starts_with_exec(&t, &space) {
            let rest = from_chars_range(&t, space.len(), t.len());
            assert(rest@ =~= t@.skip(space.len() as int));
            rows.push(rest);
        } else {
            rows.push(texts[i].clone());
        }
        assert(str_views(rows@) =~= before.push(cut[i as int]));
        assert(cut.take(i + 1) =~= cut.take(i as int).push(cut[i as int]));
        i += 1;
    }
    assert(cut.take(texts.len() as int) =~= cut);
    let joined = to_chars(join_strs(&rows, "\n").as_str());
    assert(joined@.subrange(0, joined.len() as int) =~= joined@);
    let (a, b) = trim_bounds(&joined, 0, joined.len());
    Some(from_chars_range(&joined, a, b))
}

/// Extracts the documentation of a declaration from its documentation
/// attributes.
pub fn extract_doc_comment(docs: &Vec<DocAttr>) -> (r: Option<String>)
    ensures
        match r {
            Some(d) => doc_text(doc_texts(docs@)) == Some(d@),
            None => doc_text(doc_texts(docs@)) is None,
        },
{
    let mut texts: Vec<String> = Vec::new();
    let mut i: usize = 0;
    while i < docs.len()
        invariant
            i <= docs.len(),
            str_views(texts@) == doc_texts(docs@).take(i as int),
        decreases docs.len() - i,
    {
        let ghost before = str_views(texts@);
        texts.push(docs[i].text.clone());
        assert(str_views(texts@) =~= before.push(docs@[i as int].text@));
        assert(doc_texts(docs@).take(i + 1) =~= doc_texts(docs@).take(i as int).push(
            docs@[i as int].text@,
        ));
        i += 1;
    }
    assert(doc_texts(docs@).take(docs.len() as int) =~= doc_texts(docs@));
    doc_from(&texts)
}

/// Extracts the documentation that a file opens with from the documentation
/// attributes of the file.
pub fn extract_inner_doc_comment(docs: &Vec<DocAttr>) -> (r: Option<String>)
    ensures
        match r {
            Some(d) => doc_text(inner_doc_texts(docs@)) == Some(d@),
            None => doc_text(inner_doc_texts(docs@)) is None,
        },
{
    let mut texts: Vec<String> = Vec::new();
    let mut i: usize = 0;
    assert(str_views(texts@) =~= inner_doc_texts(docs@.take(0)));
    while i < docs.len()
        invariant
            i <= docs.len(),
            str_views(texts@) == inner_doc_texts(docs@.take(i as int)),
        decreases docs.len() - i,
    {
        assert(docs@.take(i + 1).drop_last() =~= docs@.take(i as int));
        if docs[i].inner {
            let ghost before = str_views(texts@);
            texts.push(docs[i].text.clone());
            assert(str_views(texts@) =~= before.push(docs@[i as int].text@));
        }
        i += 1;
    }
    assert(docs@.take(docs.len() as int) =~= docs@);
    doc_from(&texts)
}

/// The greatest of `floor` and the given lines.
pub open spec fn last_line(lines: Seq<usize>, floor: nat) -> nat
    decreases lines.len(),
{
    if lines.len() == 0 {
        floor
    } else {
        let rest = last_line(lines.drop_last(), floor);
        if lines.last() > rest {
            lines.last() as nat
        } else {
            rest
        }
    }
}

/// The sum of two line numbers, held at the greatest number there is.
pub open spec fn capped_sum(a: nat, b: nat) -> nat {
    if a + b > usize::MAX {
        usize::MAX as nat
    } else {
        a + b
    }
}

/// The line range of an item: from the line of its keyword to the last line
/// on which one of its tokens ends. Where no token ends behind the keyword's
/// line, the end is estimated from the lines of the item's token text.
pub open spec fn line_range(span: SpanParts) -> (nat, nat) {
    let start = span.keyword_line as nat;
    let end = last_line(span.token_end_lines@, start);
    if end <= start {
        let rows = lines(span.rendered@).len();
        (
            start,
            capped_sum(
                start,
                if rows == 0 {
                    0
                } else {
                    (rows - 1) as nat
                },
            ),
        )
    } else {
        (start, end)
    }
}

/// The greatest of a line and others is not less than that line.
pub proof fn lemma_last_line(lines: Seq<usize>, floor: nat)
    ensures
        last_line(lines, floor) >= floor,
    decreases lines.len(),
{
    if lines.len() > 0 {
        lemma_last_line(lines.drop_last(), floor);
    }
}

/// A line range does not end before it starts.
pub proof fn lemma_line_range_ordered(span: SpanParts)
    ensures
        line_range(span).0 <= line_range(span).1,
{
    lemma_last_line(span.token_end_lines@, span.keyword_line as nat);
}

/// Gets the first and last line of an item.
pub fn span_lines(span: &SpanParts) -> (r: (usize, usize))
    ensures
        (r.0 as nat, r.1 as nat) == line_range(*span),
        r.0 <= r.1,
{
    proof {
        lemma_line_range_ordered(*span);
    }
    let start = span.keyword_line;
    let mut end = start;
    let mut i: usize = 0;
    assert(span.token_end_lines@.take(0) =~= Seq::<usize>::empty());
    while i < span.token_end_lines.len()
        invariant
            i <= span.token_end_lines.len(),
            end == last_line(span.token_end_lines@.take(i as int), start as nat),
        decreases span.token_end_lines.len() - i,
    {
        assert(span.token_end_lines@.take(i + 1).drop_last() =~= span.token_end_lines@.take(
            i as int,
        ));
        if span.token_end_lines[i] > end {
            end = span.token_end_lines[i];
        }
        i += 1;
    }
    assert(span.token_end_lines@.take(span.token_end_lines.len() as int)
        =~= span.token_end_lines@);
    if end <= start {
        let text = to_chars(span.rendered.as_str());
        let rows = lines_exec(&text).len();
        let more = if rows == 0 {
            0
        } else {
            rows - 1
        };
        end = if more > usize::MAX - start {
            usize::MAX
        } else {
            start + more
        };
    }
    (start, end)
}

/// A parsed item with its file and the digest of exactly its lines of the
/// text `source`.
pub open spec fn finished(p: ParsedItemView, file: Seq<char>, source: Seq<char>) -> ItemView {
    ItemView {
        name: p.name,
        kind: p.kind,
        visibility: p.visibility,
        signature: p.signature,
        doc_comment: p.doc_comment,
        file_path: file,
        line_start: p.line_start,
        line_end: p.line_end,
        content_hash: digest_text(item_text(source, p.line_start, p.line_end)),
    }
}

/// The items of a parsed text, finished.
pub open spec fn finished_items(parsed: ParsedSourceView, file: Seq<char>) -> Seq<ItemView> {
    parsed.items.map_values(|p: ParsedItemView| finished(p, file, parsed.source))
}

/// Whether the line range of each item of a parsed text lies in the text.
pub open spec fn spans_fit(parsed: ParsedSourceView) -> bool {
    forall|i: int|
        0 <= i < parsed.items.len() ==> range_in_source(
            parsed.source,
            (#[trigger] parsed.items[i]).line_start,
            parsed.items[i].line_end,
        )
}

/// A copy of a text that may be absent.
pub fn copy_opt(o: &Option<String>) -> (r: Option<String>)
    ensures
        opt_view(r) == opt_view(*o),
{
    match o {
        Some(s) => Some(s.clone()),
        None => None,
    }
}

/// A copy of a kind.
pub fn copy_kind(kind: &ItemKind) -> (r: ItemKind)
    ensures
        r@ == kind@,
{
    match kind {
        ItemKind::Function => ItemKind::Function,
        ItemKind::Struct => ItemKind::Struct,
        ItemKind::Enum => ItemKind::Enum,
        ItemKind::Trait => ItemKind::Trait,
        ItemKind::Impl { self_ty, trait_name } => ItemKind::Impl {
            self_ty: self_ty.clone(),
            trait_name: copy_opt(trait_name),
        },
        ItemKind::TypeAlias => ItemKind::TypeAlias,
        ItemKind::Const => ItemKind::Const,
        ItemKind::Static => ItemKind::Static,
        ItemKind::Macro => ItemKind::Macro,
        ItemKind::Use => ItemKind::Use,
    }
}

/// Whether the line range of each item of a parsed text lies in the text.
pub fn check_spans(parsed: &ParsedSource) -> (r: bool)
    ensures
        r == spans_fit(parsed@),
{
    let mut i: usize = 0;
    while i < parsed.items.len()
        invariant
            i <= parsed.items.len(),
            forall|j: int|
                0 <= j < i ==> range_in_source(
                    parsed@.source,
                    (#[trigger] parsed@.items[j]).line_start,
                    parsed@.items[j].line_end,
                ),
        decreases parsed.items.len() - i,
    {
        assert(parsed@.items[i as int] == parsed.items@[i as int]@);
        if !range_fits(
            parsed.source.as_str(),
            parsed.items[i].line_start,
            parsed.items[i].line_end,
        ) {
            return false;
        }
        i += 1;
    }
    true
}

/// Appends the items of a parsed text with their file and their digests.
pub fn finish_items(parsed: &ParsedSource, file: &str, out: &mut Vec<Item>)
    requires
        spans_fit(parsed@),
    ensures
        item_views(final(out)@) == item_views(old(out)@) + finished_items(parsed@, file@),
{
    let ghost all = finished_items(parsed@, file@);
    let ghost base = item_views(out@);
    let mut i: usize = 0;
    assert(base + all.take(0) =~= base);
    while i < parsed.items.len()
        invariant
            i <= parsed.items.len(),
            spans_fit(parsed@),
            all == finished_items(parsed@, file@),
            item_views(out@) == base + all.take(i as int),
        decreases parsed.items.len() - i,
    {
        let p = &parsed.items[i];
        assert(parsed@.items[i as int] == p@);
        let ghost before = item_views(out@);
        let item = Item {
            name: p.name.clone(),
            kind: copy_kind(&p.kind),
            visibility: p.visibility,
            signature: p.signature.clone(),
            doc_comment: copy_opt(&p.doc_comment),
            file_path: file.to_string(),
            line_start: p.line_start,
            line_end: p.line_end,
            content_hash: hash_item_source(parsed.source.as_str(), p.line_start, p.line_end),
        };
        assert(item@ == all[i as int]);
        out.push(item);
        assert(item_views(out@) =~= before.push(all[i as int]));
        assert(base + all.take(i + 1) =~= (base + all.take(i as int)).push(all[i as int]));
        i += 1;
    }
    assert(all.take(parsed.items.len() as int) =~= all);
}


/// An item as the parser reports it: the name, kind, visibility and
/// signature given, with the documentation and the line range of the
/// declaration `raw`.
pub open spec fn parsed(
    name: Seq<char>,
    kind: ItemKindView,
    visibility: Visibility,
    signature: Seq<char>,
    raw: RawItem,
) -> ParsedItemView {
    ParsedItemView {
        name: name,
        kind: kind,
        visibility: visibility,
        signature: signature,
        doc_comment: doc_text(doc_texts(raw.docs@)),
        line_start: line_range(raw.span).0,
        line_end: line_range(raw.span).1,
    }
}

/// The name under which an implementation block is listed: what it
/// implements for which type, or the type alone.
pub open spec fn impl_name(trait_path: Option<String>, self_ty: Seq<char>) -> Seq<char> {
    match trait_path {
        Some(path) => path@ + " for "@ + self_ty,
        None => self_ty,
    }
}

/// The item that a declaration is listed as: none for a macro without a
/// name, for an import that is no re-export, and for any declaration that is
/// neither a function, a type, an interface, an implementation block, a type
/// alias, a constant, a static, a macro nor an import.
pub open spec fn item_of(raw: RawItem) -> Option<ParsedItemView> {
    match raw.kind {
        RawKind::Fn { vis, sig } => Some(
            parsed(
                sig.ident@,
                ItemKindView::Function,
                visibility_of(vis),
                fn_signature_spec(vis, sig),
                raw,
            ),
        ),
        RawKind::Struct { vis, ident, generics, fields } => Some(
            parsed(
                ident@,
                ItemKindView::Struct,
                visibility_of(vis),
                struct_signature_spec(vis, ident@, generics, fields),
                raw,
            ),
        ),
        RawKind::Enum { vis, ident, generics, variants } => Some(
            parsed(
                ident@,
                ItemKindView::Enum,
                visibility_of(vis),
                enum_signature_spec(vis, ident@, generics, variants@),
                raw,
            ),
        ),
        RawKind::Trait { vis, unsafety, ident, generics, supertraits, members } => Some(
            parsed(
                ident@,
                ItemKindView::Trait,
                visibility_of(vis),
                trait_signature_spec(vis, unsafety, ident@, generics, supertraits@, members@),
                raw,
            ),
        ),
        RawKind::Impl { unsafety, generics, negative, trait_path, self_ty, members } => Some(
            parsed(
                impl_name(trait_path, self_ty@),
                ItemKindView::Impl { self_ty: self_ty@, trait_name: opt_view(trait_path) },
                Visibility::Private,
                impl_signature_spec(unsafety, generics, negative, trait_path, self_ty@, members@),
                raw,
            ),
        ),
        RawKind::Type { vis, ident, ty } => Some(
            parsed(
                ident@,
                ItemKindView::TypeAlias,
                visibility_of(vis),
                prefix_of(vis) + "type "@ + ident@ + " = "@ + ty@ + ";"@,
                raw,
            ),
        ),
        RawKind::Const { vis, ident, ty } => Some(
            parsed(
                ident@,
                ItemKindView::Const,
                visibility_of(vis),
                prefix_of(vis) + "const "@ + ident@ + ": "@ + ty@ + ";"@,
                raw,
            ),
        ),
        RawKind::Static { vis, mutable, ident, ty } => Some(
            parsed(
                ident@,
                ItemKindView::Static,
                visibility_of(vis),
                prefix_of(vis) + "static "@ + flag(mutable, "mut "@) + ident@ + ": "@ + ty@ + ";"@,
                raw,
            ),
        ),
        RawKind::Macro { ident: Some(name) } => Some(
            parsed(
                name@,
                ItemKindView::Macro,
                Visibility::Private,
                "macro_rules! "@ + name@ + " { ... }"@,
                raw,
            ),
        ),
        RawKind::Use { public, tree_text, tree } => if public {
            Some(
                parsed(
                    use_tree_name_spec(tree),
                    ItemKindView::Use,
                    Visibility::Pub,
                    "pub use "@ + tree_text@ + ";"@,
                    raw,
                ),
            )
        } else {
            None
        },
        _ => None,
    }
}

/// The line range of an item that a declaration is listed as does not end
/// before it starts.
pub proof fn lemma_listed_range_ordered(raw: RawItem)
    ensures
        match item_of(raw) {
            Some(item) => item.line_start <= item.line_end,
            None => true,
        },
{
    lemma_line_range_ordered(raw.span);
}

/// The parsed items over character sequences.
pub open spec fn parsed_views(items: Seq<ParsedItem>) -> Seq<ParsedItemView> {
    items.map_values(|i: ParsedItem| i@)
}

/// The item that one declaration is listed as, if it is listed. Its line
/// range does not end before it starts.
pub fn extract_item(raw: &RawItem) -> (r: Option<ParsedItem>)
    ensures
        match r {
            Some(item) => item_of(*raw) == Some(item@) && item.line_start <= item.line_end,
            None => item_of(*raw) is None,
        },
{
    let (name, kind, visibility, signature) = match &raw.kind {
        RawKind::Fn { vis, sig } => (
            sig.ident.clone(),
            ItemKind::Function,
            convert_visibility(vis),
            fn_signature(vis, sig),
        ),
        RawKind::Struct { vis, ident, generics, fields } => (
            ident.clone(),
            ItemKind::Struct,
            convert_visibility(vis),
            struct_signature(vis, ident.as_str(), generics, fields),
        ),
        RawKind::Enum { vis, ident, generics, variants } => (
            ident.clone(),
            ItemKind::Enum,
            convert_visibility(vis),
            enum_signature(vis, ident.as_str(), generics, variants),
        ),
        RawKind::Trait { vis, unsafety, ident, generics, supertraits, members } => (
            ident.clone(),
            ItemKind::Trait,
            convert_visibility(vis),
            trait_signature(vis, *unsafety, ident.as_str(), generics, supertraits, members),
        ),
        RawKind::Impl { unsafety, generics, negative, trait_path, self_ty, members } => {
            let name = match trait_path {
                Some(path) => {
                    let mut n = path.clone();
                    n.append(" for ");
                    n.append(self_ty.as_str());
                    n
                },
                None => self_ty.clone(),
            };
            (
                name,
                ItemKind::Impl { self_ty: self_ty.clone(), trait_name: copy_opt(trait_path) },
                Visibility::Private,
                impl_signature(
                    *unsafety,
                    generics,
                    *negative,
                    trait_path,
                    self_ty.as_str(),
                    members,
                ),
            )
        },
        RawKind::Type { vis, ident, ty } => {
            let mut sig = visibility_prefix(vis).to_string();
            sig.append("type ");
            sig.append(ident.as_str());
            sig.append(" = ");
            sig.append(ty.as_str());
            sig.append(";");
            (ident.clone(), ItemKind::TypeAlias, convert_visibility(vis), sig)
        },
        RawKind::Const { vis, ident, ty } => {
            let mut sig = visibility_prefix(vis).to_string();
            sig.append("const ");
            sig.append(ident.as_str());
            sig.append(": ");
            sig.append(ty.as_str());
            sig.append(";");
            (ident.clone(), ItemKind::Const, convert_visibility(vis), sig)
        },
        RawKind::Static { vis, mutable, ident, ty } => {
            let mut sig = visibility_prefix(vis).to_string();
            sig.append("static ");
            push_flag(&mut sig, *mutable, "mut ");
            sig.append(ident.as_str());
            sig.append(": ");
            sig.append(ty.as_str());
            sig.append(";");
            (ident.clone(), ItemKind::Static, convert_visibility(vis), sig)
        },
        RawKind::Macro { ident } => {
            match ident {
                Some(name) => {
                    let mut sig = "macro_rules! ".to_string();
                    sig.append(name.as_str());
                    sig.append(" { ... }");
                    (name.clone(), ItemKind::Macro, Visibility::Private, sig)
                },
                None => {
                    return None;
                },
            }
        },
        RawKind::Use { public, tree_text, tree } => {
            if !*public {
                return None;
            }
            let mut sig = "pub use ".to_string();
            sig.append(tree_text.as_str());
            sig.append(";");
            (use_tree_name(tree), ItemKind::Use, Visibility::Pub, sig)
        },
        RawKind::Other => {
            return None;
        },
    };
    let (line_start, line_end) = span_lines(&raw.span);
    let doc_comment = extract_doc_comment(&raw.docs);
    let item = ParsedItem {
        name: name,
        kind: kind,
        visibility: visibility,
        signature: signature,
        doc_comment: doc_comment,
        line_start: line_start,
        line_end: line_end,
    };
    assert(item_of(*raw) == Some(item@));
    Some(item)
}

/// Appends the items that the declarations are listed as, in the
/// declarations' order. The line range of none of them ends before it
/// starts.
pub fn extract_items(raws: &Vec<RawItem>, items: &mut Vec<ParsedItem>)
    ensures
        parsed_views(final(items)@) == parsed_views(old(items)@) + raws@.filter_map(
            |r: RawItem| item_of(r),
        ),
        forall|k: int|
            old(items)@.len() <= k < final(items)@.len() ==> (#[trigger] final(items)@[k]).line_start
                <= final(items)@[k].line_end,
{
    let ghost listed = |r: RawItem| item_of(r);
    let ghost base = parsed_views(items@);
    let ghost held = items@.len();
    let mut i: usize = 0;
    assert(base + raws@.take(0).filter_map(listed) =~= base);
    while i < raws.len()
        invariant
            i <= raws.len(),
            listed == |r: RawItem| item_of(r),
            parsed_views(items@) == base + raws@.take(i as int).filter_map(listed),
            held <= items@.len(),
            forall|k: int|
                held <= k < items@.len() ==> (#[trigger] items@[k]).line_start
                    <= items@[k].line_end,
        decreases raws.len() - i,
    {
        let ghost before = parsed_views(items@);
        proof {
            raws@.lemma_filter_map_take_succ(listed, i as int);
        }
        match extract_item(&raws[i]) {
            Some(item) => {
                items.push(item);
                assert(parsed_views(items@) =~= before.push(item@));
                assert(base + (raws@.take(i as int).filter_map(listed) + seq![item@])
                    =~= before.push(item@));
            },
            None => {
                assert(raws@.take(i as int).filter_map(listed) + Seq::<ParsedItemView>::empty()
                    =~= raws@.take(i as int).filter_map(listed));
            },
        }
        i += 1;
    }
    assert(raws@.take(raws.len() as int) =~= raws@);
}

/// The items of a text: those that its declarations are listed as, in the
/// declarations' order, each with the file and the digest of its lines of the
/// text. The digest of an item is that of exactly the lines of its range: the
/// name, the signature, the documentation and the visibility do not enter
/// it. `None` where the line range of an item does not lie in the text.
pub fn parse_file(file_path: &str, source: &str, raws: &Vec<RawItem>) -> (r: Option<Vec<Item>>)
    ensures
        ({
            let parsed = ParsedSourceView {
                source: source@,
                items: raws@.filter_map(|r: RawItem| item_of(r)),
            };
            match r {
                Some(items) => spans_fit(parsed) && item_views(items@) == finished_items(
                    parsed,
                    file_path@,
                ),
                None => !spans_fit(parsed),
            }
        }),
        match r {
            Some(items) => forall|k: int|
                0 <= k < items@.len() ==> {
                    let item = #[trigger] items@[k];
                    &&& item.line_start <= item.line_end
                    &&& item.file_path@ == file_path@
                    &&& item.content_hash@ == digest_text(
                        item_text(source@, item.line_start as nat, item.line_end as nat),
                    )
                },
            None => true,
        },
{
    let mut found: Vec<ParsedItem> = Vec::new();
    assert(parsed_views(found@) =~= Seq::<ParsedItemView>::empty());
    extract_items(raws, &mut found);
    assert(Seq::<ParsedItemView>::empty() + raws@.filter_map(|r: RawItem| item_of(r))
        =~= raws@.filter_map(|r: RawItem| item_of(r)));
    let parsed = ParsedSource { source: source.to_string(), items: found };
    if !check_spans(&parsed) {
        return None;
    }
    let mut items: Vec<Item> = Vec::new();
    assert(item_views(items@) =~= Seq::<ItemView>::empty());
    finish_items(&parsed, file_path, &mut items);
    assert(Seq::<ItemView>::empty() + finished_items(parsed@, file_path@) =~= finished_items(
        parsed@,
        file_path@,
    ));
    assert forall|k: int| 0 <= k < items@.len() implies {
        let item = #[trigger] items@[k];
        &&& item.line_start <= item.line_end
        &&& item.file_path@ == file_path@
        &&& item.content_hash@ == digest_text(
            item_text(source@, item.line_start as nat, item.line_end as nat),
        )
    } by {
        assert(item_views(items@)[k] == items@[k]@);
        assert(finished_items(parsed@, file_path@)[k] == finished(
            parsed@.items[k],
            file_path@,
            source@,
        ));
        assert(parsed@.items[k] == parsed.items@[k]@);
    }
    Some(items)
}

/// The digest of an item follows its lines alone: two items that take the
/// same lines of the same text have the same digest, whatever their names,
/// signatures, documentation and visibility are.
pub proof fn lemma_digest_ignores_fields(
    a: ParsedItemView,
    b: ParsedItemView,
    file: Seq<char>,
    source: Seq<char>,
)
    requires
        a.line_start == b.line_start,
        a.line_end == b.line_end,
    ensures
        finished(a, file, source).content_hash == finished(b, file, source).content_hash,
        finished(a, file, source).content_hash == digest_text(
            item_text(source, a.line_start, a.line_end),
        ),
{
}

} // verus!
