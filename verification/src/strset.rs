//! Sets of names, and maps from a name to a set of names, both walked in
//! increasing order.

use vstd::prelude::*;
use crate::order::sorted_seq;
use crate::strmap::StrMap;
use crate::text::str_views;

verus! {

/// A set of names, walked in increasing order.
#[derive(Debug)]
pub struct StrSet {
    map: StrMap<()>,
}

impl View for StrSet {
    type V = Set<Seq<char>>;

    closed spec fn view(&self) -> Set<Seq<char>> {
        self.map@.dom()
    }
}

impl StrSet {
    /// The names of the set in the order in which it is walked.
    pub open spec fn items(&self) -> Seq<Seq<char>> {
        sorted_seq(self@)
    }

    /// The empty set.
    pub fn new() -> (r: Self)
        ensures
            r@ == Set::<Seq<char>>::empty(),
    {
        let r = StrSet { map: StrMap::new() };
        assert(r@ =~= Set::<Seq<char>>::empty());
        r
    }

    /// The number of names.
    pub fn len(&self) -> (n: usize)
        ensures
            self@.finite(),
            n == self@.len(),
            n == self.items().len(),
    {
        self.map.len()
    }

    /// Whether the set holds no name.
    pub fn is_empty(&self) -> (r: bool)
        ensures
            self@.finite(),
            r == (self@.len() == 0),
            r == (self.items().len() == 0),
    {
        self.map.is_empty()
    }

    /// The `i`-th name in increasing order.
    pub fn get(&self, i: usize) -> (k: &String)
        requires
            i < self.items().len(),
        ensures
            k@ == self.items()[i as int],
            self@.contains(k@),
    {
        self.map.key_at(i)
    }

    /// Whether `key` is in the set.
    pub fn contains(&self, key: &str) -> (r: bool)
        ensures
            r == self@.contains(key@),
    {
        self.map.contains_key(key)
    }

    /// The names in increasing order.
    pub fn to_vec(&self) -> (r: Vec<String>)
        ensures
            str_views(r@) == self.items(),
    {
        let mut r: Vec<String> = Vec::new();
        let n = self.len();
        let mut i: usize = 0;
        while i < n
            invariant
                i <= n,
                n == self.items().len(),
                str_views(r@) == self.items().take(i as int),
            decreases n - i,
        {
            let ghost before = str_views(r@);
            r.push(self.get(i).clone());
            assert(str_views(r@) =~= before.push(self.items()[i as int]));
            assert(self.items().take(i + 1) =~= self.items().take(i as int).push(
                self.items()[i as int],
            ));
            i += 1;
        }
        assert(self.items().take(n as int) =~= self.items());
        r
    }

    /// Adds `key`, and says whether it was new.
    pub fn insert(&mut self, key: String) -> (fresh: bool)
        ensures
            final(self)@ == old(self)@.insert(key@),
            fresh == !old(self)@.contains(key@),
    {
        let ghost k = key@;
        let prev = self.map.insert(key, ());
        assert(self@ =~= old(self)@.insert(k));
        prev.is_none()
    }
}

/// The names filed under `k` in `m`: none where `m` has no entry for `k`.
pub open spec fn members(m: Map<Seq<char>, Set<Seq<char>>>, k: Seq<char>) -> Set<Seq<char>> {
    if m.contains_key(k) {
        m[k]
    } else {
        Set::empty()
    }
}

/// `m` with `v` filed under `k`.
pub open spec fn rel_add(
    m: Map<Seq<char>, Set<Seq<char>>>,
    k: Seq<char>,
    v: Seq<char>,
) -> Map<Seq<char>, Set<Seq<char>>> {
    m.insert(k, members(m, k).insert(v))
}

/// `m` with an entry for `k`: an empty one where it had none.
pub open spec fn rel_touch(m: Map<Seq<char>, Set<Seq<char>>>, k: Seq<char>) -> Map<
    Seq<char>,
    Set<Seq<char>>,
> {
    m.insert(k, members(m, k))
}

/// `m` with each pair of `pairs` filed, the second part under the first.
pub open spec fn rel_with(
    m: Map<Seq<char>, Set<Seq<char>>>,
    pairs: Seq<(Seq<char>, Seq<char>)>,
) -> Map<Seq<char>, Set<Seq<char>>>
    decreases pairs.len(),
{
    if pairs.len() == 0 {
        m
    } else {
        rel_add(rel_with(m, pairs.drop_last()), pairs.last().0, pairs.last().1)
    }
}

/// Filing one more pair after others.
pub proof fn lemma_rel_with_push(
    m: Map<Seq<char>, Set<Seq<char>>>,
    pairs: Seq<(Seq<char>, Seq<char>)>,
    k: Seq<char>,
    v: Seq<char>,
)
    ensures
        rel_with(m, pairs.push((k, v))) == rel_add(rel_with(m, pairs), k, v),
        rel_with(m, pairs + seq![(k, v)]) == rel_add(rel_with(m, pairs), k, v),
        rel_with(m, pairs + Seq::empty()) == rel_with(m, pairs),
{
    assert(pairs.push((k, v)).drop_last() =~= pairs);
    assert(pairs + seq![(k, v)] =~= pairs.push((k, v)));
    assert(pairs + Seq::empty() =~= pairs);
}

/// Filing pairs adds exactly those pairs: a name has an entry afterwards if it
/// had one or is the first part of a pair, and a name is filed under it if it
/// was or the two are a pair.
pub proof fn lemma_rel_with(
    m: Map<Seq<char>, Set<Seq<char>>>,
    pairs: Seq<(Seq<char>, Seq<char>)>,
    k: Seq<char>,
    v: Seq<char>,
)
    ensures
        rel_with(m, pairs).contains_key(k) <==> m.contains_key(k) || exists|i: int|
            0 <= i < pairs.len() && (#[trigger] pairs[i]).0 == k,
        members(rel_with(m, pairs), k).contains(v) <==> members(m, k).contains(v)
            || pairs.contains((k, v)),
    decreases pairs.len(),
{
    if pairs.len() > 0 {
        let init = pairs.drop_last();
        lemma_rel_with(m, init, k, v);
        if exists|i: int| 0 <= i < init.len() && (#[trigger] init[i]).0 == k {
            let i = choose|i: int| 0 <= i < init.len() && (#[trigger] init[i]).0 == k;
            assert(pairs[i].0 == k);
        }
        if exists|i: int| 0 <= i < pairs.len() && (#[trigger] pairs[i]).0 == k {
            let i = choose|i: int| 0 <= i < pairs.len() && (#[trigger] pairs[i]).0 == k;
            if i < init.len() {
                assert(init[i].0 == k);
            }
        }
        if init.contains((k, v)) {
            let i = choose|i: int| 0 <= i < init.len() && init[i] == (k, v);
            assert(pairs[i] == (k, v));
        }
        if pairs.contains((k, v)) {
            let i = choose|i: int| 0 <= i < pairs.len() && pairs[i] == (k, v);
            if i < init.len() {
                assert(init[i] == (k, v));
            }
        }
    }
}

/// Whether no name is filed under itself in `m`.
pub open spec fn no_self_pairs(m: Map<Seq<char>, Set<Seq<char>>>) -> bool {
    forall|k: Seq<char>| !(#[trigger] members(m, k)).contains(k)
}

/// Filing pairs of two different names leaves no name filed under itself.
pub proof fn lemma_rel_with_no_self_pairs(
    m: Map<Seq<char>, Set<Seq<char>>>,
    pairs: Seq<(Seq<char>, Seq<char>)>,
)
    requires
        no_self_pairs(m),
        forall|i: int| 0 <= i < pairs.len() ==> (#[trigger] pairs[i]).0 != pairs[i].1,
    ensures
        no_self_pairs(rel_with(m, pairs)),
{
    assert forall|k: Seq<char>| !(#[trigger] members(rel_with(m, pairs), k)).contains(k) by {
        lemma_rel_with(m, pairs, k, k);
        assert(!members(m, k).contains(k));
        if pairs.contains((k, k)) {
            let i = choose|i: int| 0 <= i < pairs.len() && pairs[i] == (k, k);
            assert(pairs[i].0 != pairs[i].1);
        }
    }
}

/// A map from a name to a set of names, walked in increasing order of the
/// names, each set in increasing order too.
#[derive(Debug)]
pub struct SetMap {
    map: StrMap<StrSet>,
}

impl View for SetMap {
    type V = Map<Seq<char>, Set<Seq<char>>>;

    closed spec fn view(&self) -> Map<Seq<char>, Set<Seq<char>>> {
        self.map@.map_values(|s: StrSet| s@)
    }
}

impl SetMap {
    /// The names of the map in the order in which it is walked.
    pub open spec fn keys(&self) -> Seq<Seq<char>> {
        sorted_seq(self@.dom())
    }

    /// A map without entries.
    pub fn new() -> (r: Self)
        ensures
            r@ == Map::<Seq<char>, Set<Seq<char>>>::empty(),
    {
        let r = SetMap { map: StrMap::new() };
        assert(r@ =~= Map::<Seq<char>, Set<Seq<char>>>::empty());
        r
    }

    /// The number of entries.
    pub fn len(&self) -> (n: usize)
        ensures
            self@.dom().finite(),
            n == self@.dom().len(),
            n == self.keys().len(),
    {
        assert(self@.dom() =~= self.map@.dom());
        self.map.len()
    }

    /// Whether the map has no entries.
    pub fn is_empty(&self) -> (r: bool)
        ensures
            self@.dom().finite(),
            r == (self@.dom().len() == 0),
            r == (self.keys().len() == 0),
    {
        self.len() == 0
    }

    /// The `i`-th name in increasing order.
    pub fn key_at(&self, i: usize) -> (k: &String)
        requires
            i < self.keys().len(),
        ensures
            k@ == self.keys()[i as int],
            self@.contains_key(k@),
    {
        assert(self@.dom() =~= self.map@.dom());
        self.map.key_at(i)
    }

    /// The set under the `i`-th name in increasing order.
    pub fn set_at(&self, i: usize) -> (s: &StrSet)
        requires
            i < self.keys().len(),
        ensures
            self@.contains_key(self.keys()[i as int]),
            s@ == self@[self.keys()[i as int]],
    {
        assert(self@.dom() =~= self.map@.dom());
        self.map.value_at(i)
    }

    /// The names of the map in increasing order.
    pub fn keys_vec(&self) -> (r: Vec<String>)
        ensures
            str_views(r@) == self.keys(),
    {
        let mut r: Vec<String> = Vec::new();
        let n = self.len();
        let mut i: usize = 0;
        while i < n
            invariant
                i <= n,
                n == self.keys().len(),
                str_views(r@) == self.keys().take(i as int),
            decreases n - i,
        {
            let ghost before = str_views(r@);
            r.push(self.key_at(i).clone());
            assert(str_views(r@) =~= before.push(self.keys()[i as int]));
            assert(self.keys().take(i + 1) =~= self.keys().take(i as int).push(
                self.keys()[i as int],
            ));
            i += 1;
        }
        assert(self.keys().take(n as int) =~= self.keys());
        r
    }

    /// The set under `key`, if there is one.
    pub fn get(&self, key: &str) -> (r: Option<&StrSet>)
        ensures
            match r {
                Some(s) => self@.contains_key(key@) && s@ == self@[key@],
                None => !self@.contains_key(key@),
            },
    {
        assert(self@.dom() =~= self.map@.dom());
        self.map.get(key)
    }

    /// Makes sure that `key` has an entry: an empty set where it had none.
    pub fn touch(&mut self, key: &str)
        ensures
            final(self)@ == rel_touch(old(self)@, key@),
    {
        assert(self@.dom() =~= self.map@.dom());
        if !self.map.contains_key(key) {
            self.map.insert(key.to_string(), StrSet::new());
        }
        assert(self@ =~= old(self)@.insert(key@, members(old(self)@, key@)));
    }

    /// Files `value` under `key`.
    pub fn add(&mut self, key: &str, value: String)
        ensures
            final(self)@ == rel_add(old(self)@, key@, value@),
    {
        assert(self@.dom() =~= self.map@.dom());
        let ghost v = value@;
        let mut set = match self.map.remove(key) {
            Some(s) => s,
            None => StrSet::new(),
        };
        assert(set@ == members(old(self)@, key@));
        set.insert(value);
        self.map.insert(key.to_string(), set);
        assert(self@ =~= old(self)@.insert(key@, members(old(self)@, key@).insert(v)));
    }
}

} // verus!
