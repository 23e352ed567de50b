//! A map from names to values that keeps its names in increasing order, so
//! that walking it lists the names the same way on every run.

use vstd::prelude::*;
use crate::order::{
    compare, lemma_lex_irreflexive, lemma_lex_total, lemma_lex_transitive, lemma_sorted_seq_of,
    lex_lt, sorted_seq, strictly_sorted, Rank,
};

verus! {

/// The names of a sequence of entries.
pub open spec fn entry_keys<V>(e: Seq<(String, V)>) -> Seq<Seq<char>> {
    e.map_values(|p: (String, V)| p.0@)
}

/// The map that a sequence of entries stands for. Where a name occurs more
/// than once, one of its entries is taken.
pub open spec fn entry_map<V>(e: Seq<(String, V)>) -> Map<Seq<char>, V> {
    Map::new(
        |k: Seq<char>| entry_keys(e).contains(k),
        |k: Seq<char>| e[entry_keys(e).index_of(k)].1,
    )
}

/// In a strictly increasing sequence each element occurs at one position only.
pub proof fn lemma_sorted_positions(q: Seq<Seq<char>>, i: int, j: int)
    requires
        strictly_sorted(q),
        0 <= i < q.len(),
        0 <= j < q.len(),
        q[i] == q[j],
    ensures
        i == j,
{
    lemma_lex_irreflexive(q[i]);
    if i < j {
        assert(lex_lt(q[i], q[j]));
    }
    if j < i {
        assert(lex_lt(q[j], q[i]));
    }
}

/// With increasing names, the map holds each entry under its name.
proof fn lemma_entry_at<V>(e: Seq<(String, V)>, i: int)
    requires
        strictly_sorted(entry_keys(e)),
        0 <= i < e.len(),
    ensures
        entry_map(e).contains_key(e[i].0@),
        entry_map(e)[e[i].0@] == e[i].1,
{
    let ks = entry_keys(e);
    assert(ks[i] == e[i].0@);
    assert(ks.contains(e[i].0@));
    let j = ks.index_of(e[i].0@);
    lemma_sorted_positions(ks, i, j);
}

/// With increasing names, the names of the map are those of the entries, in
/// the entries' order.
proof fn lemma_entry_dom<V>(e: Seq<(String, V)>)
    requires
        strictly_sorted(entry_keys(e)),
    ensures
        entry_map(e).dom() == entry_keys(e).to_set(),
        sorted_seq(entry_map(e).dom()) == entry_keys(e),
        entry_map(e).dom().finite(),
        entry_map(e).dom().len() == e.len(),
{
    let ks = entry_keys(e);
    assert(entry_map(e).dom() =~= ks.to_set());
    lemma_sorted_seq_of(ks);
    vstd::seq_lib::seq_to_set_is_finite(ks);
    assert(ks.no_duplicates()) by {
        assert forall|i: int, j: int| 0 <= i < ks.len() && 0 <= j < ks.len() && i != j implies ks[i]
            != ks[j] by {
            if ks[i] == ks[j] {
                lemma_sorted_positions(ks, i, j);
            }
        }
    }
    ks.unique_seq_to_set();
}

/// A map from names to values, walked in increasing order of the names.
#[derive(Debug)]
pub struct StrMap<V> {
    entries: Vec<(String, V)>,
}

impl<V> View for StrMap<V> {
    type V = Map<Seq<char>, V>;

    closed spec fn view(&self) -> Map<Seq<char>, V> {
        entry_map(self.entries@)
    }
}

impl<V> StrMap<V> {
    #[verifier::type_invariant]
    spec fn inv(self) -> bool {
        strictly_sorted(entry_keys(self.entries@))
    }

    /// The names of the map in the order in which it is walked.
    pub open spec fn keys(&self) -> Seq<Seq<char>> {
        sorted_seq(self@.dom())
    }

    /// A map without entries.
    pub fn new() -> (r: Self)
        ensures
            r@ == Map::<Seq<char>, V>::empty(),
    {
        let r = StrMap { entries: Vec::new() };
        assert(r@ =~= Map::<Seq<char>, V>::empty());
        r
    }

    /// The number of entries.
    pub fn len(&self) -> (n: usize)
        ensures
            self@.dom().finite(),
            n == self@.dom().len(),
            n == self.keys().len(),
    {
        proof {
            use_type_invariant(self);
            lemma_entry_dom(self.entries@);
        }
        self.entries.len()
    }

    /// Whether the map has no entries.
    pub fn is_empty(&self) -> (r: bool)
        ensures
            r == (self@.dom().len() == 0),
            r == (self.keys().len() == 0),
            self@.dom().finite(),
    {
        self.len() == 0
    }

    /// The `i`-th name in increasing order.
    pub fn key_at(&self, i: usize) -> (k: &String)
        requires
            i < self.keys().len(),
        ensures
            k@ == self.keys()[i as int],
            self@.contains_key(k@),
    {
        proof {
            use_type_invariant(self);
            lemma_entry_dom(self.entries@);
            lemma_entry_at(self.entries@, i as int);
        }
        &self.entries[i].0
    }

    /// The value under the `i`-th name in increasing order.
    pub fn value_at(&self, i: usize) -> (v: &V)
        requires
            i < self.keys().len(),
        ensures
            self@.contains_key(self.keys()[i as int]),
            *v == self@[self.keys()[i as int]],
    {
        proof {
            use_type_invariant(self);
            lemma_entry_dom(self.entries@);
            lemma_entry_at(self.entries@, i as int);
        }
        &self.entries[i].1
    }

    /// The position of the first name that does not come before `key`, and
    /// whether that name is `key`.
    fn locate(&self, key: &str) -> (r: (usize, bool))
        ensures
            r.0 <= self.entries@.len(),
            forall|j: int| 0 <= j < r.0 ==> lex_lt(#[trigger] entry_keys(self.entries@)[j], key@),
            r.1 ==> r.0 < self.entries@.len() && entry_keys(self.entries@)[r.0 as int] == key@,
            !r.1 ==> forall|j: int|
                r.0 <= j < self.entries@.len() ==> lex_lt(
                    key@,
                    #[trigger] entry_keys(self.entries@)[j],
                ),
            r.1 == entry_keys(self.entries@).contains(key@),
    {
        proof {
            use_type_invariant(self);
        }
        let ghost ks = entry_keys(self.entries@);
        let mut i: usize = 0;
        while i < self.entries.len()
            invariant
                i <= self.entries@.len(),
                ks == entry_keys(self.entries@),
                strictly_sorted(ks),
                forall|j: int| 0 <= j < i ==> lex_lt(#[trigger] ks[j], key@),
            decreases self.entries@.len() - i,
        {
            match compare(self.entries[i].0.as_str(), key) {
                Rank::Before => {},
                Rank::Same => {
                    assert(ks[i as int] == key@);
                    return (i, true);
                },
                Rank::After => {
                    proof {
                        lemma_lex_total(ks[i as int], key@);
                        assert forall|j: int| i <= j < self.entries@.len() implies lex_lt(
                            key@,
                            #[trigger] ks[j],
                        ) by {
                            if i < j {
                                assert(lex_lt(ks[i as int], ks[j]));
                                lemma_lex_transitive(key@, ks[i as int], ks[j]);
                            }
                        }
                        if ks.contains(key@) {
                            let j = choose|j: int| 0 <= j < ks.len() && ks[j] == key@;
                            lemma_lex_irreflexive(key@);
                            if j < i {
                                assert(lex_lt(ks[j], key@));
                            } else {
                                assert(lex_lt(key@, ks[j]));
                            }
                        }
                    }
                    return (i, false);
                },
            }
            i += 1;
        }
        proof {
            if ks.contains(key@) {
                let j = choose|j: int| 0 <= j < ks.len() && ks[j] == key@;
                lemma_lex_irreflexive(key@);
                assert(lex_lt(ks[j], key@));
            }
        }
        (i, false)
    }

    /// Whether the map has an entry under `key`.
    pub fn contains_key(&self, key: &str) -> (r: bool)
        ensures
            r == self@.contains_key(key@),
    {
        let (_, found) = self.locate(key);
        found
    }

    /// The value under `key`, if there is one.
    pub fn get(&self, key: &str) -> (r: Option<&V>)
        ensures
            match r {
                Some(v) => self@.contains_key(key@) && *v == self@[key@],
                None => !self@.contains_key(key@),
            },
    {
        let (i, found) = self.locate(key);
        if found {
            proof {
                use_type_invariant(self);
                lemma_entry_at(self.entries@, i as int);
            }
            Some(&self.entries[i].1)
        } else {
            None
        }
    }

    /// Puts `value` under `key`, and hands back the value that was there.
    pub fn insert(&mut self, key: String, value: V) -> (r: Option<V>)
        ensures
            final(self)@ == old(self)@.insert(key@, value),
            match r {
                Some(v) => old(self)@.contains_key(key@) && v == old(self)@[key@],
                None => !old(self)@.contains_key(key@),
            },
    {
        proof {
            use_type_invariant(&*self);
        }
        let (i, found) = self.locate(key.as_str());
        let ghost before = self.entries@;
        let ghost kb = entry_keys(before);
        let mut entries: Vec<(String, V)> = Vec::new();
        core::mem::swap(&mut self.entries, &mut entries);
        let mut r: Option<V> = None;
        if found {
            let (_, v) = entries.remove(i);
            r = Some(v);
            proof {
                lemma_entry_at(before, i as int);
            }
        }
        entries.insert(i, (key, value));
        let ghost after = entries@;
        let ghost ka = entry_keys(after);
        proof {
            assert(ka.len() == after.len());
            assert forall|a: int, b: int| 0 <= a < b < ka.len() implies lex_lt(
                #[trigger] ka[a],
                #[trigger] ka[b],
            ) by {
                let oa = if found { a } else if a < i { a } else { a - 1 };
                let ob = if found { b } else if b < i { b } else { b - 1 };
                if a != i {
                    assert(ka[a] == kb[oa]);
                }
                if b != i {
                    assert(ka[b] == kb[ob]);
                }
                if a != i && b != i {
                    assert(lex_lt(kb[oa], kb[ob]));
                } else if a == i && found {
                    assert(lex_lt(kb[a], kb[ob]));
                } else if b == i && found {
                    assert(lex_lt(kb[oa], kb[b]));
                }
            }
            assert(entry_map(after) =~= entry_map(before).insert(key@, value)) by {
                assert forall|k: Seq<char>| #[trigger]
                    entry_map(after).contains_key(k) == entry_map(before).insert(
                        key@,
                        value,
                    ).contains_key(k) by {
                    if ka.contains(k) {
                        let a = choose|a: int| 0 <= a < ka.len() && ka[a] == k;
                        if a != i {
                            let oa = if found { a } else if a < i { a } else { a - 1 };
                            assert(kb[oa] == k);
                        }
                    }
                    if kb.contains(k) && k != key@ {
                        let b = choose|b: int| 0 <= b < kb.len() && kb[b] == k;
                        let na = if found { b } else if b < i { b } else { b + 1 };
                        assert(ka[na] == k);
                    }
                    assert(ka[i as int] == key@);
                }
                assert forall|k: Seq<char>| #[trigger]
                    entry_map(after).contains_key(k) implies entry_map(after)[k]
                    == entry_map(before).insert(key@, value)[k] by {
                    let a = choose|a: int| 0 <= a < ka.len() && ka[a] == k;
                    lemma_entry_at(after, a);
                    if a != i {
                        let oa = if found { a } else if a < i { a } else { a - 1 };
                        assert(kb[oa] == k);
                        lemma_entry_at(before, oa);
                        assert(after[a] == before[oa]);
                        lemma_lex_irreflexive(key@);
                    }
                }
            }
        }
        self.entries = entries;
        r
    }

    /// Takes the entry under `key` out of the map, and hands back its value.
    pub fn remove(&mut self, key: &str) -> (r: Option<V>)
        ensures
            final(self)@ == old(self)@.remove(key@),
            match r {
                Some(v) => old(self)@.contains_key(key@) && v == old(self)@[key@],
                None => !old(self)@.contains_key(key@),
            },
    {
        proof {
            use_type_invariant(&*self);
        }
        let (i, found) = self.locate(key);
        if !found {
            assert(self@ =~= self@.remove(key@));
            return None;
        }
        let ghost before = self.entries@;
        let ghost kb = entry_keys(before);
        let mut entries: Vec<(String, V)> = Vec::new();
        core::mem::swap(&mut self.entries, &mut entries);
        let (_, v) = entries.remove(i);
        let ghost after = entries@;
        let ghost ka = entry_keys(after);
        proof {
            lemma_entry_at(before, i as int);
            assert forall|a: int, b: int| 0 <= a < b < ka.len() implies lex_lt(
                #[trigger] ka[a],
                #[trigger] ka[b],
            ) by {
                let oa = if a < i { a } else { a + 1 };
                let ob = if b < i { b } else { b + 1 };
                assert(ka[a] == kb[oa]);
                assert(ka[b] == kb[ob]);
                assert(lex_lt(kb[oa], kb[ob]));
            }
            assert(entry_map(after) =~= entry_map(before).remove(key@)) by {
                assert forall|k: Seq<char>| #[trigger]
                    entry_map(after).contains_key(k) == entry_map(before).remove(
                        key@,
                    ).contains_key(k) by {
                    if ka.contains(k) {
                        let a = choose|a: int| 0 <= a < ka.len() && ka[a] == k;
                        let oa = if a < i { a } else { a + 1 };
                        assert(kb[oa] == k);
                        if k == key@ {
                            lemma_sorted_positions(kb, oa, i as int);
                        }
                    }
                    if kb.contains(k) && k != key@ {
                        let b = choose|b: int| 0 <= b < kb.len() && kb[b] == k;
                        let na = if b < i { b } else { b - 1 };
                        assert(ka[na] == k);
                    }
                }
                assert forall|k: Seq<char>| #[trigger]
                    entry_map(after).contains_key(k) implies entry_map(after)[k] == entry_map(
                        before,
                    ).remove(key@)[k] by {
                    let a = choose|a: int| 0 <= a < ka.len() && ka[a] == k;
                    lemma_entry_at(after, a);
                    let oa = if a < i { a } else { a + 1 };
                    assert(kb[oa] == k);
                    lemma_entry_at(before, oa);
                    assert(after[a] == before[oa]);
                }
            }
        }
        self.entries = entries;
        Some(v)
    }
}

} // verus!
