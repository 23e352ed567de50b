//! The order in which names are listed: sequences of characters compared
//! position by position on their code points, a prefix before its extensions.

use vstd::prelude::*;
use crate::text::to_chars;

verus! {

/// Whether `a` comes strictly before `b`.
pub open spec fn lex_lt(a: Seq<char>, b: Seq<char>) -> bool
    decreases a.len(),
{
    if b.len() == 0 {
        false
    } else if a.len() == 0 {
        true
    } else if a[0] == b[0] {
        lex_lt(a.drop_first(), b.drop_first())
    } else {
        (a[0] as int) < (b[0] as int)
    }
}

/// Nothing comes before itself.
pub proof fn lemma_lex_irreflexive(a: Seq<char>)
    ensures
        !lex_lt(a, a),
    decreases a.len(),
{
    if a.len() > 0 {
        lemma_lex_irreflexive(a.drop_first());
    }
}

/// Of two different sequences exactly one comes before the other.
pub proof fn lemma_lex_total(a: Seq<char>, b: Seq<char>)
    ensures
        a == b || lex_lt(a, b) || lex_lt(b, a),
        !(lex_lt(a, b) && lex_lt(b, a)),
        a == b ==> !lex_lt(a, b),
    decreases a.len(),
{
    if a.len() == 0 || b.len() == 0 {
        if a.len() == 0 && b.len() == 0 {
            assert(a =~= b);
        }
    } else if a[0] == b[0] {
        lemma_lex_total(a.drop_first(), b.drop_first());
        if a.drop_first() == b.drop_first() {
            assert(a =~= seq![a[0]] + a.drop_first());
            assert(b =~= seq![b[0]] + b.drop_first());
        }
    } else {
        assert(a[0] as int != b[0] as int);
    }
}

/// The order is transitive.
pub proof fn lemma_lex_transitive(a: Seq<char>, b: Seq<char>, c: Seq<char>)
    requires
        lex_lt(a, b),
        lex_lt(b, c),
    ensures
        lex_lt(a, c),
    decreases a.len(),
{
    if a.len() == 0 {
    } else if a[0] == b[0] && b[0] == c[0] {
        lemma_lex_transitive(a.drop_first(), b.drop_first(), c.drop_first());
    }
}

/// Whether each element of `q` comes strictly before the next.
pub open spec fn strictly_sorted(q: Seq<Seq<char>>) -> bool {
    forall|i: int, j: int| 0 <= i < j < q.len() ==> lex_lt(#[trigger] q[i], #[trigger] q[j])
}

/// The elements of the finite set `s`, each once, in increasing order.
pub open spec fn sorted_seq(s: Set<Seq<char>>) -> Seq<Seq<char>> {
    choose|q: Seq<Seq<char>>| strictly_sorted(q) && q.to_set() == s
}

/// Two strictly increasing sequences with the same elements are the same sequence.
pub proof fn lemma_sorted_unique(p: Seq<Seq<char>>, q: Seq<Seq<char>>)
    requires
        strictly_sorted(p),
        strictly_sorted(q),
        p.to_set() == q.to_set(),
    ensures
        p == q,
    decreases p.len(),
{
    if p.len() == 0 {
        if q.len() > 0 {
            assert(q.to_set().contains(q[0]));
            assert(p.to_set().contains(q[0]));
        }
        assert(p =~= q);
    } else if q.len() == 0 {
        assert(p.to_set().contains(p[0]));
        assert(q.to_set().contains(p[0]));
    } else {
        // the least element of each is its first
        assert(p.to_set().contains(p[0]));
        assert(q.to_set().contains(p[0]));
        let j = choose|j: int| 0 <= j < q.len() && q[j] == p[0];
        assert(q.to_set().contains(q[0]));
        assert(p.to_set().contains(q[0]));
        let i = choose|i: int| 0 <= i < p.len() && p[i] == q[0];
        if j > 0 && i > 0 {
            assert(lex_lt(q[0], q[j]));
            assert(lex_lt(p[0], p[i]));
            lemma_lex_total(p[0], q[0]);
        }
        if j > 0 && i == 0 {
            assert(lex_lt(q[0], q[j]));
            lemma_lex_irreflexive(p[0]);
        }
        if i > 0 && j == 0 {
            assert(lex_lt(p[0], p[i]));
            lemma_lex_irreflexive(q[0]);
        }
        assert(p[0] == q[0]);
        let p_rest = p.drop_first();
        let q_rest = q.drop_first();
        assert(strictly_sorted(p_rest)) by {
            assert forall|a: int, b: int| 0 <= a < b < p_rest.len() implies lex_lt(
                #[trigger] p_rest[a],
                #[trigger] p_rest[b],
            ) by {
                assert(lex_lt(p[a + 1], p[b + 1]));
            }
        }
        assert(strictly_sorted(q_rest)) by {
            assert forall|a: int, b: int| 0 <= a < b < q_rest.len() implies lex_lt(
                #[trigger] q_rest[a],
                #[trigger] q_rest[b],
            ) by {
                assert(lex_lt(q[a + 1], q[b + 1]));
            }
        }
        assert(p_rest.to_set() =~= q_rest.to_set()) by {
            assert forall|x: Seq<char>| p_rest.to_set().contains(x) implies q_rest.to_set().contains(
                x,
            ) by {
                let a = choose|a: int| 0 <= a < p_rest.len() && p_rest[a] == x;
                assert(lex_lt(p[0], p[a + 1]));
                assert(p.to_set().contains(p[a + 1]));
                assert(q.to_set().contains(x));
                let b = choose|b: int| 0 <= b < q.len() && q[b] == x;
                if b == 0 {
                    lemma_lex_irreflexive(x);
                }
                assert(q_rest[b - 1] == x);
            }
            assert forall|x: Seq<char>| q_rest.to_set().contains(x) implies p_rest.to_set().contains(
                x,
            ) by {
                let a = choose|a: int| 0 <= a < q_rest.len() && q_rest[a] == x;
                assert(lex_lt(q[0], q[a + 1]));
                assert(q.to_set().contains(q[a + 1]));
                assert(p.to_set().contains(x));
                let b = choose|b: int| 0 <= b < p.len() && p[b] == x;
                if b == 0 {
                    lemma_lex_irreflexive(x);
                }
                assert(p_rest[b - 1] == x);
            }
        }
        lemma_sorted_unique(p_rest, q_rest);
        assert(p =~= seq![p[0]] + p_rest);
        assert(q =~= seq![q[0]] + q_rest);
    }
}

/// A strictly increasing sequence is the sorted sequence of its own elements.
pub proof fn lemma_sorted_seq_of(q: Seq<Seq<char>>)
    requires
        strictly_sorted(q),
    ensures
        sorted_seq(q.to_set()) == q,
{
    let s = q.to_set();
    let w = sorted_seq(s);
    assert(strictly_sorted(q) && q.to_set() == s);
    lemma_sorted_unique(w, q);
}

/// How a first sequence stands to a second in the order.
#[derive(Clone, Copy, PartialEq, Eq, Debug, Structural)]
pub enum Rank {
    Before,
    Same,
    After,
}

/// How `a` stands to `b`.
pub open spec fn rank(a: Seq<char>, b: Seq<char>) -> Rank {
    if a == b {
        Rank::Same
    } else if lex_lt(a, b) {
        Rank::Before
    } else {
        Rank::After
    }
}

/// Compares two character vectors.
pub fn compare_chars(a: &Vec<char>, b: &Vec<char>) -> (r: Rank)
    ensures
        r == rank(a@, b@),
{
    let mut i: usize = 0;
    assert(a@.skip(0) =~= a@ && b@.skip(0) =~= b@);
    assert(a@.take(0) =~= b@.take(0));
    while i < a.len() && i < b.len()
        invariant
            i <= a.len(),
            i <= b.len(),
            a@.take(i as int) == b@.take(i as int),
            lex_lt(a@, b@) == lex_lt(a@.skip(i as int), b@.skip(i as int)),
        decreases a.len() - i,
    {
        let ghost ra = a@.skip(i as int);
        let ghost rb = b@.skip(i as int);
        assert(ra.drop_first() =~= a@.skip(i + 1));
        assert(rb.drop_first() =~= b@.skip(i + 1));
        assert(ra[0] == a@[i as int] && rb[0] == b@[i as int]);
        if a[i] != b[i] {
            assert(a@ != b@);
            return if a[i] < b[i] {
                Rank::Before
            } else {
                Rank::After
            };
        }
        assert(a@.take(i + 1) =~= a@.take(i as int).push(a@[i as int]));
        assert(b@.take(i + 1) =~= b@.take(i as int).push(b@[i as int]));
        i += 1;
    }
    let ghost ra = a@.skip(i as int);
    let ghost rb = b@.skip(i as int);
    if i == a.len() && i == b.len() {
        assert(a@ =~= a@.take(i as int));
        assert(b@ =~= b@.take(i as int));
        Rank::Same
    } else if i == a.len() {
        assert(ra.len() == 0 && rb.len() > 0);
        assert(a@.len() != b@.len());
        Rank::Before
    } else {
        assert(rb.len() == 0);
        assert(a@.len() != b@.len());
        Rank::After
    }
}

/// Compares two strings.
pub fn compare(a: &str, b: &str) -> (r: Rank)
    ensures
        r == rank(a@, b@),
{
    let x = to_chars(a);
    let y = to_chars(b);
    compare_chars(&x, &y)
}

/// The number of elements at the beginning of `q` that come before `x`.
pub open spec fn count_before(q: Seq<Seq<char>>, x: Seq<char>) -> nat
    decreases q.len(),
{
    if q.len() > 0 && lex_lt(q[0], x) {
        1 + count_before(q.drop_first(), x)
    } else {
        0
    }
}

/// The elements counted come before `x`, and the one behind them, if there
/// is one, does not.
proof fn lemma_count_before(q: Seq<Seq<char>>, x: Seq<char>)
    ensures
        count_before(q, x) <= q.len(),
        forall|i: int| 0 <= i < count_before(q, x) ==> lex_lt(#[trigger] q[i], x),
        count_before(q, x) < q.len() ==> !lex_lt(q[count_before(q, x) as int], x),
    decreases q.len(),
{
    if q.len() > 0 && lex_lt(q[0], x) {
        let rest = q.drop_first();
        lemma_count_before(rest, x);
        assert forall|i: int| 0 <= i < count_before(q, x) implies lex_lt(#[trigger] q[i], x) by {
            if i > 0 {
                assert(q[i] == rest[i - 1]);
            }
        }
        if count_before(q, x) < q.len() {
            assert(q[count_before(q, x) as int] == rest[count_before(rest, x) as int]);
        }
    }
}

/// A strictly increasing sequence with one more element put in its place is
/// strictly increasing, and has that one element more.
proof fn lemma_insert_sorted(q: Seq<Seq<char>>, x: Seq<char>) -> (r: Seq<Seq<char>>)
    requires
        strictly_sorted(q),
        !q.contains(x),
    ensures
        strictly_sorted(r),
        r.to_set() == q.to_set().insert(x),
{
    lemma_count_before(q, x);
    let p = count_before(q, x) as int;
    let r = q.insert(p, x);
    q.insert_ensures(p, x);
    assert forall|i: int, j: int| 0 <= i < j < r.len() implies lex_lt(
        #[trigger] r[i],
        #[trigger] r[j],
    ) by {
        let oi = if i < p { i } else { i - 1 };
        let oj = if j < p { j } else { j - 1 };
        if i != p {
            assert(r[i] == q[oi]);
        }
        if j != p {
            assert(r[j] == q[oj]);
        }
        if i == p {
            // x comes before all that do not come before it
            assert(q[p] == r[p + 1]);
            assert(q.contains(q[p]));
            lemma_lex_total(q[p], x);
            if oj > p {
                assert(lex_lt(q[p], q[oj]));
                lemma_lex_transitive(x, q[p], q[oj]);
            }
        } else if j == p {
            assert(lex_lt(q[oi], x));
        } else {
            assert(lex_lt(q[oi], q[oj]));
        }
    }
    assert(r.to_set() =~= q.to_set().insert(x)) by {
        assert forall|y: Seq<char>| r.to_set().contains(y) == q.to_set().insert(x).contains(y) by {
            if r.to_set().contains(y) {
                let i = choose|i: int| 0 <= i < r.len() && r[i] == y;
                if i != p {
                    let oi = if i < p { i } else { i - 1 };
                    assert(q[oi] == y);
                }
            }
            if q.to_set().contains(y) {
                let i = choose|i: int| 0 <= i < q.len() && q[i] == y;
                let ni = if i < p { i } else { i + 1 };
                assert(r[ni] == y);
            }
            assert(r[p] == x);
        }
    }
    r
}

/// Every finite set has its elements in increasing order.
proof fn lemma_sorted_exists(s: Set<Seq<char>>) -> (q: Seq<Seq<char>>)
    requires
        s.finite(),
    ensures
        strictly_sorted(q),
        q.to_set() == s,
    decreases s.len(),
{
    if s.len() == 0 {
        s.lemma_len0_is_empty();
        let q = Seq::<Seq<char>>::empty();
        assert(q.to_set() =~= s);
        q
    } else {
        let x = s.choose();
        vstd::set::axiom_set_choose_len(s);
        vstd::set::axiom_set_remove_len(s, x);
        vstd::set::axiom_set_remove_finite(s, x);
        let rest = lemma_sorted_exists(s.remove(x));
        assert(!rest.contains(x)) by {
            if rest.contains(x) {
                assert(rest.to_set().contains(x));
            }
        }
        let q = lemma_insert_sorted(rest, x);
        assert(s.remove(x).insert(x) =~= s);
        q
    }
}

/// The sorted sequence of a finite set is strictly increasing and holds the
/// elements of the set, each once.
pub proof fn lemma_sorted_seq(s: Set<Seq<char>>)
    requires
        s.finite(),
    ensures
        strictly_sorted(sorted_seq(s)),
        sorted_seq(s).to_set() == s,
{
    let q = lemma_sorted_exists(s);
    assert(strictly_sorted(q) && q.to_set() == s);
}

} // verus!
