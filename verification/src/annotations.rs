//! The notes that people attach to modules and items, as far as the reports
//! read them.

use vstd::prelude::*;
use crate::strmap::StrMap;

verus! {

/// What is noted of one module or item.
#[derive(Debug, Clone)]
pub struct AnnotationEntry {
    pub note: String,
}

/// The notes, by module path and by item path.
#[derive(Debug)]
pub struct AnnotationStore {
    pub modules: StrMap<AnnotationEntry>,
    pub items: StrMap<AnnotationEntry>,
}

/// The notes of a map of entries, without the entries that note nothing.
pub open spec fn notes_of(m: Map<Seq<char>, AnnotationEntry>) -> Map<Seq<char>, Seq<char>> {
    Map::new(
        |k: Seq<char>| m.contains_key(k) && m[k].note@.len() > 0,
        |k: Seq<char>| m[k].note@,
    )
}

impl AnnotationStore {
    /// The notes on modules, by module path.
    pub open spec fn module_notes(&self) -> Map<Seq<char>, Seq<char>> {
        notes_of(self.modules@)
    }

    /// The notes on items, by item path.
    pub open spec fn item_notes(&self) -> Map<Seq<char>, Seq<char>> {
        notes_of(self.items@)
    }
}

impl Default for AnnotationStore {
    fn default() -> (r: Self)
        ensures
            r.module_notes() == Map::<Seq<char>, Seq<char>>::empty(),
            r.item_notes() == Map::<Seq<char>, Seq<char>>::empty(),
    {
        let r = AnnotationStore { modules: StrMap::new(), items: StrMap::new() };
        assert(r.module_notes() =~= Map::<Seq<char>, Seq<char>>::empty());
        assert(r.item_notes() =~= Map::<Seq<char>, Seq<char>>::empty());
        r
    }
}

/// The note under `path`, if there is one that is not empty.
pub fn note_at<'a>(entries: &'a StrMap<AnnotationEntry>, path: &str) -> (r: Option<&'a str>)
    ensures
        match r {
            Some(n) => notes_of(entries@).contains_key(path@) && notes_of(entries@)[path@] == n@,
            None => !notes_of(entries@).contains_key(path@),
        },
{
    match entries.get(path) {
        Some(entry) => {
            if entry.note.as_str().unicode_len() > 0 {
                Some(entry.note.as_str())
            } else {
                None
            }
        },
        None => None,
    }
}

} // verus!
