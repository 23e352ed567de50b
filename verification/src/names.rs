//! What the cross-reference views read out of names and signatures: the
//! type names that a signature mentions, the clean form of a type name, the
//! source type of a conversion interface, and the module that an import path
//! names.

use vstd::prelude::*;
use crate::text::{
    char_is_alphanumeric, char_is_uppercase, char_is_whitespace, chars_eq, find_char, from_chars,
    join, join_exec, rfind_char, slice_chars, split, split_exec, starts_with, starts_with_exec,
    str_views, to_chars, trim, trim_bounds, trim_exec, utf8_len, utf8_len_exec, views, words,
    words_exec,
};

verus! {

/// The names of containers and wrappers that never count as a type of the
/// package.
pub open spec fn stoplist() -> Seq<Seq<char>> {
    seq![
        "Self"@,
        "String"@,
        "Vec"@,
        "Box"@,
        "Option"@,
        "Result"@,
        "Ok"@,
        "Err"@,
        "Some"@,
        "None"@,
        "HashMap"@,
        "HashSet"@,
        "BTreeMap"@,
        "BTreeSet"@,
        "Rc"@,
        "Arc"@,
        "Mutex"@,
        "RwLock"@,
        "Pin"@,
        "Cow"@,
        "PhantomData"@,
        "Where"@,
        "Fn"@,
        "FnMut"@,
        "FnOnce"@,
    ]
}

/// Whether `word` is on the stoplist.
pub open spec fn is_keyword_spec(word: Seq<char>) -> bool {
    stoplist().contains(word)
}

/// The names on the stoplist.
fn stoplist_exec() -> (r: Vec<&'static str>)
    ensures
        r@.map_values(|s: &'static str| s@) == stoplist(),
{
    let r = vec![
        "Self",
        "String",
        "Vec",
        "Box",
        "Option",
        "Result",
        "Ok",
        "Err",
        "Some",
        "None",
        "HashMap",
        "HashSet",
        "BTreeMap",
        "BTreeSet",
        "Rc",
        "Arc",
        "Mutex",
        "RwLock",
        "Pin",
        "Cow",
        "PhantomData",
        "Where",
        "Fn",
        "FnMut",
        "FnOnce",
    ];
    assert(r@.map_values(|s: &'static str| s@) =~= stoplist());
    r
}

/// Whether `word` is on the stoplist.
fn is_keyword_chars(word: &Vec<char>) -> (r: bool)
    ensures
        r == is_keyword_spec(word@),
{
    let list = stoplist_exec();
    let ghost names = list@.map_values(|s: &'static str| s@);
    let mut i: usize = 0;
    while i < list.len()
        invariant
            i <= list.len(),
            names == list@.map_values(|s: &'static str| s@),
            names == stoplist(),
            forall|j: int| 0 <= j < i ==> names[j] != word@,
        decreases list.len() - i,
    {
        let k = to_chars(list[i]);
        if chars_eq(word, &k) {
            assert(names[i as int] == word@);
            return true;
        }
        i += 1;
    }
    false
}

/// Whether `word` is one of the common container and wrapper names that the
/// hotspot analysis leaves out.
pub fn is_keyword(word: &str) -> (r: bool)
    ensures
        r == is_keyword_spec(word@),
{
    let w = to_chars(word);
    is_keyword_chars(&w)
}

/// Whether `c` can stand in a name: a letter, a digit or an underscore.
pub open spec fn is_name_char(c: char) -> bool {
    char_is_alphanumeric(c) || c == '_'
}

/// The number of name characters that `s` begins with.
pub open spec fn name_len(s: Seq<char>) -> nat
    decreases s.len(),
{
    if s.len() > 0 && is_name_char(s[0]) {
        1 + name_len(s.drop_first())
    } else {
        0
    }
}

/// The pieces of `s` between the characters that cannot stand in a name. Two
/// such characters in a row have an empty piece between them.
pub open spec fn name_pieces(s: Seq<char>) -> Seq<Seq<char>>
    decreases s.len(),
{
    let n = name_len(s);
    if n >= s.len() {
        seq![s]
    } else {
        seq![s.take(n as int)] + name_pieces(s.skip(n as int + 1))
    }
}

/// Whether the trimmed piece `t` of a signature counts as a type name: it
/// starts with an upper-case letter, takes more than one byte, and is not on
/// the stoplist.
pub open spec fn is_type_name(t: Seq<char>) -> bool {
    t.len() > 0 && char_is_uppercase(t[0]) && utf8_len(t) > 1 && !is_keyword_spec(t)
}

/// The type names that a signature mentions, in the order of their mention,
/// each as often as it is mentioned.
pub open spec fn type_names(sig: Seq<char>) -> Seq<Seq<char>> {
    name_pieces(sig).map_values(|w: Seq<char>| trim(w)).filter(|t: Seq<char>| is_type_name(t))
}

/// The number of name characters that `s` has from `from` on.
fn name_len_exec(s: &Vec<char>, from: usize) -> (n: usize)
    requires
        from <= s.len(),
    ensures
        n == name_len(s@.skip(from as int)),
        from + n <= s.len(),
{
    let mut i: usize = from;
    while i < s.len() && (s[i].is_alphanumeric() || s[i] == '_')
        invariant
            from <= i <= s.len(),
            name_len(s@.skip(from as int)) == (i - from) + name_len(s@.skip(i as int)),
        decreases s.len() - i,
    {
        assert(s@.skip(i as int).drop_first() =~= s@.skip(i + 1));
        i += 1;
    }
    i - from
}

/// The pieces of `s` between the characters that cannot stand in a name.
fn name_pieces_exec(s: &Vec<char>) -> (r: Vec<Vec<char>>)
    ensures
        views(r@) == name_pieces(s@),
{
    let mut r: Vec<Vec<char>> = Vec::new();
    let mut pos: usize = 0;
    assert(s@.skip(0) =~= s@);
    loop
        invariant
            pos <= s.len(),
            name_pieces(s@) == views(r@) + name_pieces(s@.skip(pos as int)),
        decreases s.len() - pos,
    {
        let ghost rest = s@.skip(pos as int);
        let ghost before = views(r@);
        let n = name_len_exec(s, pos);
        r.push(slice_chars(s, pos, pos + n));
        assert(rest.take(n as int) =~= s@.subrange(pos as int, pos + n));
        assert(views(r@) =~= before.push(rest.take(n as int)));
        if pos + n >= s.len() {
            assert(rest.take(n as int) =~= rest);
            assert(before + seq![rest] =~= before.push(rest));
            return r;
        }
        assert(rest.skip(n + 1) =~= s@.skip(pos + n + 1));
        assert(before + (seq![rest.take(n as int)] + name_pieces(rest.skip(n + 1)))
            =~= before.push(rest.take(n as int)) + name_pieces(rest.skip(n + 1)));
        pos = pos + n + 1;
    }
}

/// Whether the trimmed piece `t` of a signature counts as a type name.
fn is_type_name_exec(t: &Vec<char>) -> (r: bool)
    ensures
        r == is_type_name(t@),
{
    assert(t@.subrange(0, t.len() as int) =~= t@);
    t.len() > 0 && t[0].is_uppercase() && utf8_len_exec(t, 0, t.len()) > 1 && !is_keyword_chars(t)
}

/// Extracts the type names that a signature mentions: the capitalised names
/// in it that are not on the stoplist.
pub fn extract_type_names_from_signature(sig: &str) -> (types: Vec<String>)
    ensures
        str_views(types@) == type_names(sig@),
{
    let s = to_chars(sig);
    let pieces = name_pieces_exec(&s);
    let ghost trimmed = name_pieces(sig@).map_values(|w: Seq<char>| trim(w));
    let ghost pred = |t: Seq<char>| is_type_name(t);
    let mut types: Vec<String> = Vec::new();
    let mut i: usize = 0;
    proof {
        reveal(Seq::filter);
        assert(trimmed.take(0).filter(pred) =~= Seq::<Seq<char>>::empty());
    }
    while i < pieces.len()
        invariant
            i <= pieces.len(),
            views(pieces@) == name_pieces(sig@),
            trimmed == name_pieces(sig@).map_values(|w: Seq<char>| trim(w)),
            pred == |t: Seq<char>| is_type_name(t),
            str_views(types@) == trimmed.take(i as int).filter(pred),
        decreases pieces.len() - i,
    {
        let t = trim_exec(&pieces[i]);
        assert(views(pieces@)[i as int] == pieces@[i as int]@);
        assert(t@ == trimmed[i as int]);
        let ghost before = str_views(types@);
        proof {
            reveal(Seq::filter);
            assert(trimmed.take(i + 1).drop_last() =~= trimmed.take(i as int));
            assert(trimmed.take(i + 1).last() == trimmed[i as int]);
        }
        if is_type_name_exec(&t) {
            types.push(from_chars(&t));
            assert(str_views(types@) =~= before.push(t@));
        }
        i += 1;
    }
    assert(trimmed.take(pieces.len() as int) =~= trimmed);
    types
}

/// Whether `c` is one of the characters that set off generic parameters: an
/// angle bracket or a comma.
pub open spec fn is_bracket(c: char) -> bool {
    c == '<' || c == '>' || c == ','
}

/// The position of the last character before position `i` that is no
/// whitespace; -1 where there is none.
pub open spec fn solid_before(s: Seq<char>, i: int) -> int
    decreases i,
{
    if i <= 0 || i > s.len() {
        -1
    } else if !char_is_whitespace(s[i - 1]) {
        i - 1
    } else {
        solid_before(s, i - 1)
    }
}

/// The position of the first character at or behind position `i` that is no
/// whitespace; the length of `s` where there is none.
pub open spec fn solid_from(s: Seq<char>, i: int) -> int
    decreases s.len() - i,
{
    if i < 0 || i >= s.len() {
        s.len() as int
    } else if !char_is_whitespace(s[i]) {
        i
    } else {
        solid_from(s, i + 1)
    }
}

/// Whether the character at position `i` is whitespace next to a bracket:
/// only whitespace stands between it and a bracket before or behind it.
pub open spec fn pads_bracket(s: Seq<char>, i: int) -> bool {
    &&& 0 <= i < s.len()
    &&& char_is_whitespace(s[i])
    &&& {
        let before = solid_before(s, i);
        let behind = solid_from(s, i);
        (0 <= before < s.len() && is_bracket(s[before])) || (0 <= behind < s.len() && is_bracket(
            s[behind],
        ))
    }
}

/// The first `n` characters of `s` without the whitespace next to brackets.
pub open spec fn tight_upto(s: Seq<char>, n: int) -> Seq<char>
    decreases n,
{
    if n <= 0 || n > s.len() {
        Seq::empty()
    } else if pads_bracket(s, n - 1) {
        tight_upto(s, n - 1)
    } else {
        tight_upto(s, n - 1).push(s[n - 1])
    }
}

/// `s` without the whitespace next to `<`, `>` and `,`.
pub open spec fn tight(s: Seq<char>) -> Seq<char> {
    tight_upto(s, s.len() as int)
}

/// The clean form of a type name. A name without generic parameters, that
/// is without a `<`, loses the whitespace at its ends and nothing else. One
/// with generic parameters also loses the whitespace next to `<`, `>` and
/// `,`, and each run of whitespace that is left inside it becomes one space:
/// two spellings that differ only in the whitespace next to the brackets have
/// one clean form.
pub open spec fn clean_type_name_spec(name: Seq<char>) -> Seq<char> {
    if !name.contains('<') {
        trim(name)
    } else {
        join(words(trim(tight(name))), " "@)
    }
}

/// The position of the last character before position `i` that is no
/// whitespace.
fn solid_before_exec(s: &Vec<char>, i: usize) -> (r: Option<usize>)
    requires
        i <= s.len(),
    ensures
        match r {
            Some(k) => solid_before(s@, i as int) == k && k < i,
            None => solid_before(s@, i as int) == -1,
        },
{
    let mut k: usize = i;
    while k > 0
        invariant
            k <= i <= s.len(),
            solid_before(s@, i as int) == solid_before(s@, k as int),
        decreases k,
    {
        if !s[k - 1].is_whitespace() {
            return Some(k - 1);
        }
        k -= 1;
    }
    None
}

/// The position of the first character at or behind position `i` that is no
/// whitespace.
fn solid_from_exec(s: &Vec<char>, i: usize) -> (r: usize)
    requires
        i <= s.len(),
    ensures
        r == solid_from(s@, i as int),
        i <= r <= s.len(),
{
    let mut k: usize = i;
    while k < s.len() && s[k].is_whitespace()
        invariant
            i <= k <= s.len(),
            solid_from(s@, i as int) == solid_from(s@, k as int),
        decreases s.len() - k,
    {
        k += 1;
    }
    k
}

/// Whether `c` is an angle bracket or a comma.
fn is_bracket_exec(c: char) -> (r: bool)
    ensures
        r == is_bracket(c),
{
    c == '<' || c == '>' || c == ','
}

/// `s` without the whitespace next to `<`, `>` and `,`.
fn tight_exec(s: &Vec<char>) -> (r: Vec<char>)
    ensures
        r@ == tight(s@),
{
    let mut r: Vec<char> = Vec::new();
    let mut i: usize = 0;
    while i < s.len()
        invariant
            i <= s.len(),
            r@ == tight_upto(s@, i as int),
        decreases s.len() - i,
    {
        let mut pads = false;
        if s[i].is_whitespace() {
            let behind = solid_from_exec(s, i);
            if behind < s.len() && is_bracket_exec(s[behind]) {
                pads = true;
            } else {
                match solid_before_exec(s, i) {
                    Some(before) => {
                        pads = is_bracket_exec(s[before]);
                    },
                    None => {},
                }
            }
        }
        assert(pads == pads_bracket(s@, i as int));
        if !pads {
            r.push(s[i]);
        }
        i += 1;
    }
    r
}

/// The clean form of a type name.
fn clean_chars(name: &Vec<char>) -> (r: Vec<char>)
    ensures
        r@ == clean_type_name_spec(name@),
{
    proof {
        name@.index_of_first_ensures('<');
    }
    match find_char(name, '<') {
        None => trim_exec(name),
        Some(_) => {
            let t = trim_exec(&tight_exec(name));
            let ws = words_exec(&t);
            let sp = to_chars(" ");
            join_exec(&ws, &sp)
        },
    }
}

/// Cleans a type name: removes the whitespace at its ends and, where the name
/// carries generic parameters, the whitespace next to `<`, `>` and `,`, and
/// collapses the whitespace that is left inside it.
pub fn clean_type_name(name: &str) -> (r: String)
    ensures
        r@ == clean_type_name_spec(name@),
{
    let n = to_chars(name);
    let c = clean_chars(&n);
    from_chars(&c)
}

/// Whether the last segment of an import path looks like an item: it starts
/// with an upper-case letter or is the wildcard.
pub open spec fn names_item(segment: Seq<char>) -> bool {
    (segment.len() > 0 && char_is_uppercase(segment[0])) || segment == "*"@
}

/// The module that an import path of this package names: `None` for a path
/// that leads out of the package.
///
/// A path from the package root names the module before its last segment,
/// which is taken for the imported item. What is left of a root path of one
/// segment is the empty path: it names no module, and no dependency is
/// recorded for it. A path relative to the parent with one segment behind
/// `super` names the parent itself. A longer one loses its last segment only
/// where that segment looks like an item; else the whole path is kept.
pub open spec fn module_dep(path: Seq<char>) -> Option<Seq<char>> {
    if starts_with(path, "crate::"@) {
        let parts = split(path.skip("crate::"@.len() as int), "::"@);
        Some(join(parts.drop_last(), "::"@))
    } else if starts_with(path, "super::"@) {
        let parts = split(path, "::"@);
        if parts.len() <= 2 {
            Some("super"@)
        } else if names_item(parts.last()) {
            Some(join(parts.drop_last(), "::"@))
        } else {
            Some(path)
        }
    } else {
        None
    }
}

/// Extracts the module of this package that an import path depends on.
pub fn extract_internal_module_dep(use_path: &str) -> (r: Option<String>)
    ensures
        match r {
            Some(d) => module_dep(use_path@) == Some(d@),
            None => module_dep(use_path@) is None,
        },
{
    let p = to_chars(use_path);
    let root = to_chars("crate::");
    let parent = to_chars("super::");
    let sep = to_chars("::");
    proof {
        reveal_strlit("::");
    }
    if starts_with_exec(&p, &root) {
        let rest = slice_chars(&p, root.len(), p.len());
        assert(rest@ =~= p@.skip(root.len() as int));
        let mut parts = split_exec(&rest, &sep);
        parts.pop();
        assert(views(parts@) =~= split(rest@, sep@).drop_last());
        let j = join_exec(&parts, &sep);
        Some(from_chars(&j))
    } else if starts_with_exec(&p, &parent) {
        let mut parts = split_exec(&p, &sep);
        let n = parts.len();
        if n <= 2 {
            return Some("super".to_string());
        }
        let star = to_chars("*");
        assert(views(parts@).last() == parts@[n - 1]@);
        let item = (parts[n - 1].len() > 0 && parts[n - 1][0].is_uppercase()) || chars_eq(
            &parts[n - 1],
            &star,
        );
        if item {
            parts.pop();
            assert(views(parts@) =~= split(p@, sep@).drop_last());
            let j = join_exec(&parts, &sep);
            Some(from_chars(&j))
        } else {
            Some(use_path.to_string())
        }
    } else {
        None
    }
}

/// How deep inside brackets the end of `s` lies: `<`, `(` and `[` open a
/// level, `>`, `)` and `]` close one where one is open. The `>` of an arrow
/// `->` closes nothing.
pub open spec fn depth(s: Seq<char>) -> nat
    decreases s.len(),
{
    if s.len() == 0 {
        0
    } else {
        let d = depth(s.drop_last());
        let c = s.last();
        let arrow = c == '>' && s.len() >= 2 && s[s.len() - 2] == '-';
        if c == '<' || c == '(' || c == '[' {
            d + 1
        } else if (c == '>' || c == ')' || c == ']') && !arrow && d > 0 {
            (d - 1) as nat
        } else {
            d
        }
    }
}

/// Whether `s` holds a comma outside all brackets.
pub open spec fn top_level_comma(s: Seq<char>) -> bool {
    exists|i: int| 0 <= i < s.len() && s[i] == ',' && depth(#[trigger] s.take(i)) == 0
}

/// Whether the text between the brackets of a generic name is one argument:
/// it is not blank and no comma outside brackets divides it.
pub open spec fn single_argument(s: Seq<char>) -> bool {
    trim(s).len() > 0 && !top_level_comma(s)
}

/// The source type of a conversion interface: the one generic argument of a
/// name that, trimmed, begins with the conversion marker `From`, cleaned as
/// type names are. `None` where the name does not begin with the marker, has
/// no `<` before its last `>`, or has no or several arguments between them.
pub open spec fn conversion_source(name: Seq<char>) -> Option<Seq<char>> {
    let t = trim(name);
    match (t.index_of_first('<'), t.index_of_last('>')) {
        (Some(a), Some(b)) => {
            if starts_with(t, "From"@) && a < b && single_argument(t.subrange(a + 1, b)) {
                Some(clean_type_name_spec(trim(t.subrange(a + 1, b))))
            } else {
                None
            }
        },
        _ => None,
    }
}

/// Whether `s` holds a comma outside all brackets.
fn has_top_level_comma(s: &Vec<char>) -> (r: bool)
    ensures
        r == top_level_comma(s@),
{
    let mut d: usize = 0;
    let mut i: usize = 0;
    assert(s@.take(0) =~= Seq::<char>::empty());
    while i < s.len()
        invariant
            i <= s.len(),
            d == depth(s@.take(i as int)),
            d <= i,
            forall|j: int| 0 <= j < i ==> !(s@[j] == ',' && depth(#[trigger] s@.take(j)) == 0),
        decreases s.len() - i,
    {
        let c = s[i];
        if c == ',' && d == 0 {
            return true;
        }
        let ghost pre = s@.take(i + 1);
        assert(pre.drop_last() =~= s@.take(i as int));
        assert(pre.last() == c);
        assert(i >= 1 ==> pre[pre.len() - 2] == s@[i - 1]);
        let arrow = c == '>' && i >= 1 && s[i - 1] == '-';
        if c == '<' || c == '(' || c == '[' {
            d += 1;
        } else if (c == '>' || c == ')' || c == ']') && !arrow && d > 0 {
            d -= 1;
        }
        i += 1;
    }
    false
}

/// Extracts the source type from the name of a conversion interface, such as
/// `IoError` from `From<IoError>`.
pub fn extract_from_source(trait_str: &str) -> (r: Option<String>)
    ensures
        match r {
            Some(src) => conversion_source(trait_str@) == Some(src@),
            None => conversion_source(trait_str@) is None,
        },
{
    let name = to_chars(trait_str);
    let t = trim_exec(&name);
    let marker = to_chars("From");
    if !starts_with_exec(&t, &marker) {
        return None;
    }
    match (find_char(&t, '<'), rfind_char(&t, '>')) {
        (Some(a), Some(b)) => {
            if a < b {
                let inner = slice_chars(&t, a + 1, b);
                assert(inner@.subrange(0, inner.len() as int) =~= inner@);
                let (x, y) = trim_bounds(&inner, 0, inner.len());
                if x < y && !has_top_level_comma(&inner) {
                    let arg = slice_chars(&inner, x, y);
                    let c = clean_chars(&arg);
                    Some(from_chars(&c))
                } else {
                    None
                }
            } else {
                None
            }
        },
        _ => None,
    }
}

/// Two spellings of a name that agree once the whitespace next to `<`, `>`
/// and `,` is removed are cleaned to the same name. Names without generic
/// parameters lose the whitespace at their ends only: of them the same holds
/// where they agree without it.
pub proof fn lemma_clean_type_name_ignores_whitespace(a: Seq<char>, b: Seq<char>)
    requires
        tight(a) == tight(b),
        a.contains('<') <==> b.contains('<'),
        !a.contains('<') ==> trim(a) == trim(b),
    ensures
        clean_type_name_spec(a) == clean_type_name_spec(b),
{
}

/// A name without generic parameters loses nothing but the whitespace at its
/// ends.
pub proof fn lemma_clean_type_name_passes_plain_names(name: Seq<char>)
    requires
        !name.contains('<'),
    ensures
        clean_type_name_spec(name) == trim(name),
{
}

} // verus!
