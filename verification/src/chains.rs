//! Chains of conversions: the walk that turns the edges "this type converts
//! into that type" into the paths that the report prints.

use vstd::prelude::*;
use crate::order::sorted_seq;
use crate::strset::StrSet;
use crate::text::{copy_strs, join, join_strs, str_eq, str_views};

verus! {

/// The edges as pairs of character sequences.
pub open spec fn edge_views(edges: Seq<(String, String)>) -> Seq<(Seq<char>, Seq<char>)> {
    edges.map_values(|e: (String, String)| (e.0@, e.1@))
}

/// What stands between two nodes of a printed chain.
pub open spec fn arrow() -> Seq<char> {
    " -> "@
}

/// A chain as it is printed: its nodes with an arrow between each two.
pub open spec fn render(chain: Seq<Seq<char>>) -> Seq<char> {
    join(chain, arrow())
}

/// The chains as they are printed.
pub open spec fn render_all(chains: Seq<Seq<Seq<char>>>) -> Seq<Seq<char>> {
    chains.map_values(|c: Seq<Seq<char>>| render(c))
}

/// The chains as sequences of nodes over character sequences.
pub open spec fn chain_views(chains: Seq<Vec<String>>) -> Seq<Seq<Seq<char>>> {
    chains.map_values(|c: Vec<String>| str_views(c@))
}

/// Whether `b` stands directly behind `a` at position `i` of the chain.
pub open spec fn pair_at(chain: Seq<Seq<char>>, i: int, a: Seq<char>, b: Seq<char>) -> bool {
    0 <= i < chain.len() - 1 && chain[i] == a && chain[i + 1] == b
}

/// Whether `a` and `b` are neighbours in one of the chains: `b` stands
/// directly behind `a`.
pub open spec fn covered(chains: Seq<Seq<Seq<char>>>, a: Seq<char>, b: Seq<char>) -> bool {
    exists|k: int, i: int| 0 <= k < chains.len() && #[trigger] pair_at(chains[k], i, a, b)
}

/// The targets of the edges that leave `node`, in the edges' order.
pub open spec fn targets_of(edges: Seq<(Seq<char>, Seq<char>)>, node: Seq<char>) -> Seq<
    Seq<char>,
>
    decreases edges.len(),
{
    if edges.len() == 0 {
        Seq::empty()
    } else {
        let rest = targets_of(edges.drop_last(), node);
        if edges.last().0 == node {
            rest.push(edges.last().1)
        } else {
            rest
        }
    }
}

/// Whether some edge leaves `node`.
pub open spec fn is_source(edges: Seq<(Seq<char>, Seq<char>)>, node: Seq<char>) -> bool {
    exists|i: int| 0 <= i < edges.len() && (#[trigger] edges[i]).0 == node
}

/// Whether some edge arrives at `node`.
pub open spec fn is_target(edges: Seq<(Seq<char>, Seq<char>)>, node: Seq<char>) -> bool {
    exists|i: int| 0 <= i < edges.len() && (#[trigger] edges[i]).1 == node
}

/// The number of edges whose target has not been visited.
pub open spec fn pending(edges: Seq<(Seq<char>, Seq<char>)>, visited: Set<Seq<char>>) -> nat
    decreases edges.len(),
{
    if edges.len() == 0 {
        0
    } else {
        pending(edges.drop_last(), visited) + if visited.contains(edges.last().1) {
            0nat
        } else {
            1nat
        }
    }
}

/// Visiting more nodes leaves no more edges pending.
pub proof fn lemma_pending_mono(
    edges: Seq<(Seq<char>, Seq<char>)>,
    visited: Set<Seq<char>>,
    more: Set<Seq<char>>,
)
    requires
        visited.subset_of(more),
    ensures
        pending(edges, more) <= pending(edges, visited),
    decreases edges.len(),
{
    if edges.len() > 0 {
        lemma_pending_mono(edges.drop_last(), visited, more);
    }
}

/// Visiting a target that was not visited leaves fewer edges pending.
pub proof fn lemma_pending_insert(
    edges: Seq<(Seq<char>, Seq<char>)>,
    visited: Set<Seq<char>>,
    node: Seq<char>,
)
    requires
        is_target(edges, node),
        !visited.contains(node),
    ensures
        pending(edges, visited.insert(node)) < pending(edges, visited),
    decreases edges.len(),
{
    let i = choose|i: int| 0 <= i < edges.len() && (#[trigger] edges[i]).1 == node;
    if edges.last().1 == node {
        lemma_pending_mono(edges.drop_last(), visited, visited.insert(node));
    } else {
        assert(edges.drop_last()[i].1 == node);
        lemma_pending_insert(edges.drop_last(), visited, node);
    }
}

/// Each element of `targets_of` is the target of an edge that leaves the node.
pub proof fn lemma_targets_of(edges: Seq<(Seq<char>, Seq<char>)>, node: Seq<char>, k: int)
    requires
        0 <= k < targets_of(edges, node).len(),
    ensures
        exists|i: int| 0 <= i < edges.len() && #[trigger] edges[i] == (node, targets_of(edges, node)[k]),
        is_target(edges, targets_of(edges, node)[k]),
        is_source(edges, node),
    decreases edges.len(),
{
    if edges.len() > 0 {
        let rest = targets_of(edges.drop_last(), node);
        if k < rest.len() {
            lemma_targets_of(edges.drop_last(), node, k);
            let i = choose|i: int|
                0 <= i < edges.drop_last().len() && #[trigger] edges.drop_last()[i] == (
                    node,
                    rest[k],
                );
            assert(edges[i] == (node, rest[k]));
        } else {
            assert(edges[edges.len() - 1] == (node, targets_of(edges, node)[k]));
        }
    }
}

/// The walk from `current`, which ends the chain `chain`: the set of visited
/// nodes after it, and the chains it emits.
///
/// Where no edge leaves `current` the chain is complete and is emitted if it
/// has more than one node. Else the walk goes on along each edge that leaves
/// `current` for a node not yet visited, in the edges' order; if there is no
/// such edge, the chain ends here and is emitted in the same way.
pub open spec fn follow(
    edges: Seq<(Seq<char>, Seq<char>)>,
    current: Seq<char>,
    chain: Seq<Seq<char>>,
    visited: Set<Seq<char>>,
) -> (Set<Seq<char>>, Seq<Seq<Seq<char>>>)
    decreases pending(edges, visited), targets_of(edges, current).len() + 1,
{
    if targets_of(edges, current).len() == 0 {
        (
            visited,
            if chain.len() > 1 {
                seq![chain]
            } else {
                Seq::empty()
            },
        )
    } else {
        let (seen, found, any) = follow_each(edges, current, 0, chain, visited);
        (
            seen,
            if !any && chain.len() > 1 {
                found.push(chain)
            } else {
                found
            },
        )
    }
}

/// The part of the walk from `current` that tries the edges leaving it from
/// the `k`-th on: the visited nodes after it, the chains it emits, and
/// whether it followed any edge. A walk only ever adds to the visited nodes.
pub open spec fn follow_each(
    edges: Seq<(Seq<char>, Seq<char>)>,
    current: Seq<char>,
    k: int,
    chain: Seq<Seq<char>>,
    visited: Set<Seq<char>>,
) -> (Set<Seq<char>>, Seq<Seq<Seq<char>>>, bool)
    decreases pending(edges, visited), targets_of(edges, current).len() - k,
{
    let nexts = targets_of(edges, current);
    if k < 0 || k >= nexts.len() {
        (visited, Seq::empty(), false)
    } else if visited.contains(nexts[k]) {
        follow_each(edges, current, k + 1, chain, visited)
    } else {
        proof {
            lemma_targets_of(edges, current, k);
            lemma_pending_insert(edges, visited, nexts[k]);
        }
        let (seen, found) = follow(
            edges,
            nexts[k],
            chain.push(nexts[k]),
            visited.insert(nexts[k]),
        );
        let seen = visited.union(seen);
        proof {
            lemma_pending_mono(edges, visited, seen);
        }
        let (seen_all, found_rest, _) = follow_each(edges, current, k + 1, chain, seen);
        (seen_all, found + found_rest, true)
    }
}

/// The nodes at which chains start: those that some edge leaves and none
/// arrives at.
pub open spec fn start_nodes(edges: Seq<(Seq<char>, Seq<char>)>) -> Set<Seq<char>> {
    Set::new(|n: Seq<char>| is_source(edges, n) && !is_target(edges, n))
}

/// The walks from the start nodes `starts[k..]`, one after another: the
/// visited nodes after them, and the chains they emit.
pub open spec fn walk_starts(
    edges: Seq<(Seq<char>, Seq<char>)>,
    starts: Seq<Seq<char>>,
    k: int,
    visited: Set<Seq<char>>,
) -> (Set<Seq<char>>, Seq<Seq<Seq<char>>>)
    decreases starts.len() - k,
{
    if k < 0 || k >= starts.len() {
        (visited, Seq::empty())
    } else {
        let (seen, found) = follow(edges, starts[k], seq![starts[k]], visited.insert(starts[k]));
        let (seen_all, found_rest) = walk_starts(edges, starts, k + 1, seen);
        (seen_all, found + found_rest)
    }
}

/// The edges from `edges[i..]` that are emitted on their own, as chains of
/// two nodes: each edge whose two nodes are neighbours in none of the chains
/// `emitted` before its turn came.
pub open spec fn fallback(
    edges: Seq<(Seq<char>, Seq<char>)>,
    i: int,
    emitted: Seq<Seq<Seq<char>>>,
) -> Seq<Seq<Seq<char>>>
    decreases edges.len() - i,
{
    if i < 0 || i >= edges.len() {
        Seq::empty()
    } else if covered(emitted, edges[i].0, edges[i].1) {
        fallback(edges, i + 1, emitted)
    } else {
        let pair = seq![edges[i].0, edges[i].1];
        seq![pair] + fallback(edges, i + 1, emitted.push(pair))
    }
}

/// The chains that the edges give, as sequences of nodes: first those of the
/// walks from the start nodes in increasing order, then each edge that no
/// walk has followed, on its own. No edge is dropped: the two nodes of every
/// edge are neighbours in one of the chains.
pub open spec fn chains_of(edges: Seq<(Seq<char>, Seq<char>)>) -> Seq<Seq<Seq<char>>> {
    let found = walk_starts(edges, sorted_seq(start_nodes(edges)), 0, Set::empty()).1;
    found + fallback(edges, 0, found)
}

/// A walk only ever adds to the visited nodes: the nodes visited before it
/// together with those visited after it are those visited after it.
pub proof fn lemma_follow_grows(
    edges: Seq<(Seq<char>, Seq<char>)>,
    current: Seq<char>,
    chain: Seq<Seq<char>>,
    visited: Set<Seq<char>>,
)
    ensures
        visited.subset_of(follow(edges, current, chain, visited).0),
        visited.union(follow(edges, current, chain, visited).0) == follow(
            edges,
            current,
            chain,
            visited,
        ).0,
    decreases pending(edges, visited), targets_of(edges, current).len() + 1,
{
    if targets_of(edges, current).len() > 0 {
        lemma_follow_each_grows(edges, current, 0, chain, visited);
    }
    assert(visited.union(follow(edges, current, chain, visited).0) =~= follow(
        edges,
        current,
        chain,
        visited,
    ).0);
}

/// A walk only ever adds to the visited nodes.
pub proof fn lemma_follow_each_grows(
    edges: Seq<(Seq<char>, Seq<char>)>,
    current: Seq<char>,
    k: int,
    chain: Seq<Seq<char>>,
    visited: Set<Seq<char>>,
)
    ensures
        visited.subset_of(follow_each(edges, current, k, chain, visited).0),
    decreases pending(edges, visited), targets_of(edges, current).len() - k,
{
    let nexts = targets_of(edges, current);
    if k < 0 || k >= nexts.len() {
    } else if visited.contains(nexts[k]) {
        lemma_follow_each_grows(edges, current, k + 1, chain, visited);
    } else {
        lemma_targets_of(edges, current, k);
        lemma_pending_insert(edges, visited, nexts[k]);
        let seen = visited.union(
            follow(edges, nexts[k], chain.push(nexts[k]), visited.insert(nexts[k])).0,
        );
        lemma_pending_mono(edges, visited, seen);
        lemma_follow_each_grows(edges, current, k + 1, chain, seen);
    }
}

/// The targets of the edges that leave `current`.
fn targets_exec(edges: &[(String, String)], current: &str) -> (r: Vec<String>)
    ensures
        str_views(r@) == targets_of(edge_views(edges@), current@),
{
    let mut r: Vec<String> = Vec::new();
    let mut i: usize = 0;
    let ghost ev = edge_views(edges@);
    while i < edges.len()
        invariant
            i <= edges.len(),
            ev == edge_views(edges@),
            str_views(r@) == targets_of(ev.take(i as int), current@),
        decreases edges.len() - i,
    {
        assert(ev.take(i + 1).drop_last() =~= ev.take(i as int));
        assert(ev.take(i + 1).last() == (edges@[i as int].0@, edges@[i as int].1@));
        if str_eq(edges[i].0.as_str(), current) {
            let ghost before = str_views(r@);
            r.push(edges[i].1.clone());
            assert(str_views(r@) =~= before.push(edges@[i as int].1@));
        }
        i += 1;
    }
    assert(ev.take(edges.len() as int) =~= ev);
    r
}

/// Follows the chain from the node `current`, which is the last of `chain`,
/// to its ends, and appends each complete chain to `results`.
pub fn follow_chain(
    edges: &[(String, String)],
    current: &str,
    chain: &mut Vec<String>,
    visited: &mut StrSet,
    results: &mut Vec<Vec<String>>,
)
    ensures
        str_views(final(chain)@) == str_views(old(chain)@),
        final(visited)@ == follow(
            edge_views(edges@),
            current@,
            str_views(old(chain)@),
            old(visited)@,
        ).0,
        chain_views(final(results)@) == chain_views(old(results)@) + follow(
            edge_views(edges@),
            current@,
            str_views(old(chain)@),
            old(visited)@,
        ).1,
        old(visited)@.subset_of(final(visited)@),
    decreases pending(edge_views(edges@), old(visited)@), targets_of(edge_views(edges@), current@).len() + 1,
{
    let ghost ev = edge_views(edges@);
    let ghost chain0 = str_views(chain@);
    let ghost seen0 = visited@;
    let ghost out0 = chain_views(results@);
    let nexts = targets_exec(edges, current);
    if nexts.len() == 0 {
        if chain.len() > 1 {
            results.push(copy_strs(chain));
            assert(chain_views(results@) =~= out0 + seq![chain0]);
        } else {
            assert(chain_views(results@) =~= out0 + Seq::<Seq<Seq<char>>>::empty());
        }
        return ;
    }
    let mut any = false;
    let mut k: usize = 0;
    let ghost mut emitted: Seq<Seq<Seq<char>>> = Seq::empty();
    assert(out0 + emitted =~= out0);
    assert(emitted + follow_each(ev, current@, 0, chain0, seen0).1 =~= follow_each(
        ev,
        current@,
        0,
        chain0,
        seen0,
    ).1);
    while k < nexts.len()
        invariant
            k <= nexts.len(),
            ev == edge_views(edges@),
            str_views(nexts@) == targets_of(ev, current@),
            str_views(chain@) == chain0,
            seen0 == old(visited)@,
            seen0.subset_of(visited@),
            chain_views(results@) == out0 + emitted,
            follow_each(ev, current@, 0, chain0, seen0).0 == follow_each(
                ev,
                current@,
                k as int,
                chain0,
                visited@,
            ).0,
            follow_each(ev, current@, 0, chain0, seen0).1 == emitted + follow_each(
                ev,
                current@,
                k as int,
                chain0,
                visited@,
            ).1,
            follow_each(ev, current@, 0, chain0, seen0).2 == (any || follow_each(
                ev,
                current@,
                k as int,
                chain0,
                visited@,
            ).2),
        decreases nexts.len() - k,
    {
        let ghost seen_k = visited@;
        let ghost next = str_views(nexts@)[k as int];
        assert(next == nexts@[k as int]@);
        if !visited.contains(nexts[k].as_str()) {
            any = true;
            proof {
                lemma_targets_of(ev, current@, k as int);
                lemma_pending_insert(ev, seen_k, next);
                lemma_pending_mono(ev, seen0, seen_k);
            }
            chain.push(nexts[k].clone());
            assert(str_views(chain@) =~= chain0.push(next));
            visited.insert(nexts[k].clone());
            assert(pending(ev, visited@) < pending(ev, seen0));
            follow_chain(edges, nexts[k].as_str(), chain, visited, results);
            let ghost longer = chain@;
            chain.pop();
            assert(str_views(chain@) =~= str_views(longer).drop_last());
            assert(chain0.push(next).drop_last() =~= chain0);
            let ghost step = follow(ev, next, chain0.push(next), seen_k.insert(next));
            assert(seen_k.union(step.0) =~= step.0);
            proof {
                let rest = follow_each(ev, current@, k + 1, chain0, step.0);
                assert(chain_views(results@) =~= out0 + (emitted + step.1));
                assert(emitted + (step.1 + rest.1) =~= (emitted + step.1) + rest.1);
                emitted = emitted + step.1;
            }
        }
        k += 1;
    }
    if !any && chain.len() > 1 {
        let ghost out_k = chain_views(results@);
        results.push(copy_strs(chain));
        assert(chain_views(results@) =~= out_k.push(chain0));
        assert(chain_views(results@) =~= out0 + emitted.push(chain0));
        assert(emitted + Seq::<Seq<Seq<char>>>::empty() =~= emitted);
    } else {
        assert(emitted + Seq::<Seq<Seq<char>>>::empty() =~= emitted);
    }
}

/// Whether some edge arrives at `node`.
fn has_target(edges: &[(String, String)], node: &str) -> (r: bool)
    ensures
        r == is_target(edge_views(edges@), node@),
{
    let ghost ev = edge_views(edges@);
    let mut i: usize = 0;
    while i < edges.len()
        invariant
            i <= edges.len(),
            ev == edge_views(edges@),
            forall|j: int| 0 <= j < i ==> (#[trigger] ev[j]).1 != node@,
        decreases edges.len() - i,
    {
        if str_eq(edges[i].1.as_str(), node) {
            assert(ev[i as int].1 == node@);
            return true;
        }
        i += 1;
    }
    false
}

/// The nodes that some edge leaves and none arrives at.
fn start_set(edges: &[(String, String)]) -> (starts: StrSet)
    ensures
        starts@ == start_nodes(edge_views(edges@)),
{
    let ghost ev = edge_views(edges@);
    let mut starts = StrSet::new();
    let mut i: usize = 0;
    while i < edges.len()
        invariant
            i <= edges.len(),
            ev == edge_views(edges@),
            starts@ == Set::new(|n: Seq<char>| is_source(ev.take(i as int), n) && !is_target(ev, n)),
        decreases edges.len() - i,
    {
        let ghost src = ev[i as int].0;
        assert(src == edges@[i as int].0@);
        if !has_target(edges, edges[i].0.as_str()) {
            starts.insert(edges[i].0.clone());
        }
        proof {
            let grown = Set::new(
                |n: Seq<char>| is_source(ev.take(i + 1), n) && !is_target(ev, n),
            );
            assert forall|n: Seq<char>| starts@.contains(n) == grown.contains(n) by {
                if is_source(ev.take(i + 1), n) {
                    let j = choose|j: int|
                        0 <= j < ev.take(i + 1).len() && (#[trigger] ev.take(i + 1)[j]).0 == n;
                    if j < i {
                        assert(ev.take(i as int)[j].0 == n);
                    }
                }
                if is_source(ev.take(i as int), n) {
                    let j = choose|j: int|
                        0 <= j < ev.take(i as int).len() && (#[trigger] ev.take(i as int)[j]).0
                            == n;
                    assert(ev.take(i + 1)[j].0 == n);
                }
                assert(ev.take(i + 1)[i as int].0 == src);
            }
            assert(starts@ =~= grown);
        }
        i += 1;
    }
    assert(ev.take(edges.len() as int) =~= ev);
    assert(starts@ =~= start_nodes(ev));
    starts
}

/// Whether `a` and `b` are neighbours in one of the chains.
fn covered_exec(chains: &Vec<Vec<String>>, a: &str, b: &str) -> (r: bool)
    ensures
        r == covered(chain_views(chains@), a@, b@),
{
    let ghost cv = chain_views(chains@);
    let mut k: usize = 0;
    while k < chains.len()
        invariant
            k <= chains.len(),
            cv == chain_views(chains@),
            forall|x: int, i: int| 0 <= x < k ==> !#[trigger] pair_at(cv[x], i, a@, b@),
        decreases chains.len() - k,
    {
        let chain = &chains[k];
        let n = chain.len();
        assert(cv[k as int] == str_views(chain@));
        let mut i: usize = 0;
        while n >= 2 && i < n - 1
            invariant
                i <= n,
                n == chain.len(),
                k < chains.len(),
                cv == chain_views(chains@),
                cv[k as int] == str_views(chain@),
                forall|x: int, y: int| 0 <= x < k ==> !#[trigger] pair_at(cv[x], y, a@, b@),
                forall|y: int| 0 <= y < i ==> !#[trigger] pair_at(cv[k as int], y, a@, b@),
            decreases n - i,
        {
            assert(str_views(chain@)[i as int] == chain@[i as int]@);
            assert(str_views(chain@)[i + 1] == chain@[i + 1]@);
            if str_eq(chain[i].as_str(), a) && str_eq(chain[i + 1].as_str(), b) {
                assert(pair_at(cv[k as int], i as int, a@, b@));
                return true;
            }
            i += 1;
        }
        k += 1;
    }
    false
}

/// Builds the printed conversion chains from the edges "source converts into
/// target".
///
/// A chain starts at each node that is a source and never a target, taken in
/// increasing order, and follows the edges depth first; a node is visited at
/// most once. Each edge that no walk has followed is printed on its own, in
/// the order of the edges, so that no edge is dropped.
pub fn build_error_chains(from_impls: &[(String, String)]) -> (chains: Vec<String>)
    ensures
        str_views(chains@) == render_all(chains_of(edge_views(from_impls@))),
        forall|k: int|
            0 <= k < from_impls@.len() ==> covered(
                chains_of(edge_views(from_impls@)),
                (#[trigger] from_impls@[k]).0@,
                from_impls@[k].1@,
            ),
{
    let ghost ev = edge_views(from_impls@);
    let starts = start_set(from_impls);
    let ghost order = sorted_seq(start_nodes(ev));
    let mut paths: Vec<Vec<String>> = Vec::new();
    let mut visited = StrSet::new();
    let ghost mut emitted: Seq<Seq<Seq<char>>> = Seq::empty();
    assert(chain_views(paths@) =~= emitted);
    assert(emitted + walk_starts(ev, order, 0, visited@).1 =~= walk_starts(
        ev,
        order,
        0,
        visited@,
    ).1);
    let n = starts.len();
    let mut k: usize = 0;
    while k < n
        invariant
            k <= n,
            n == order.len(),
            ev == edge_views(from_impls@),
            starts@ == start_nodes(ev),
            order == sorted_seq(start_nodes(ev)),
            chain_views(paths@) == emitted,
            walk_starts(ev, order, 0, Set::empty()).0 == walk_starts(
                ev,
                order,
                k as int,
                visited@,
            ).0,
            walk_starts(ev, order, 0, Set::empty()).1 == emitted + walk_starts(
                ev,
                order,
                k as int,
                visited@,
            ).1,
        decreases n - k,
    {
        let start = starts.get(k).clone();
        let mut chain: Vec<String> = Vec::new();
        chain.push(start.clone());
        assert(str_views(chain@) =~= seq![order[k as int]]);
        visited.insert(start.clone());
        let ghost step = follow(ev, order[k as int], seq![order[k as int]], visited@);
        follow_chain(from_impls, start.as_str(), &mut chain, &mut visited, &mut paths);
        proof {
            let rest = walk_starts(ev, order, k + 1, step.0);
            assert(emitted + (step.1 + rest.1) =~= (emitted + step.1) + rest.1);
            emitted = emitted + step.1;
        }
        k += 1;
    }
    let ghost walked = walk_starts(ev, order, 0, Set::empty()).1;
    assert(emitted + Seq::<Seq<Seq<char>>>::empty() =~= emitted);
    assert(emitted == walked);
    let ghost mut alone: Seq<Seq<Seq<char>>> = Seq::empty();
    assert(alone + fallback(ev, 0, walked) =~= fallback(ev, 0, walked));
    assert(walked + alone =~= walked);
    let mut i: usize = 0;
    while i < from_impls.len()
        invariant
            i <= from_impls.len(),
            ev == edge_views(from_impls@),
            chain_views(paths@) == walked + alone,
            fallback(ev, 0, walked) == alone + fallback(ev, i as int, walked + alone),
        decreases from_impls.len() - i,
    {
        let ghost src = ev[i as int].0;
        let ghost tgt = ev[i as int].1;
        assert(src == from_impls@[i as int].0@ && tgt == from_impls@[i as int].1@);
        if !covered_exec(&paths, from_impls[i].0.as_str(), from_impls[i].1.as_str()) {
            let mut two: Vec<String> = Vec::new();
            two.push(from_impls[i].0.clone());
            two.push(from_impls[i].1.clone());
            let ghost pair = seq![src, tgt];
            assert(str_views(two@) =~= pair);
            let ghost shown = chain_views(paths@);
            paths.push(two);
            proof {
                let rest = fallback(ev, i + 1, (walked + alone).push(pair));
                assert(chain_views(paths@) =~= shown.push(pair));
                assert((walked + alone).push(pair) =~= walked + (alone + seq![pair]));
                assert(alone + (seq![pair] + rest) =~= (alone + seq![pair]) + rest);
                alone = alone + seq![pair];
            }
        }
        i += 1;
    }
    assert(alone + Seq::<Seq<Seq<char>>>::empty() =~= alone);
    let ghost all = chain_views(paths@);
    let mut chains: Vec<String> = Vec::new();
    let mut j: usize = 0;
    assert(str_views(chains@) =~= render_all(all.take(0)));
    while j < paths.len()
        invariant
            j <= paths.len(),
            all == chain_views(paths@),
            str_views(chains@) == render_all(all.take(j as int)),
        decreases paths.len() - j,
    {
        let ghost before = str_views(chains@);
        assert(all[j as int] == str_views(paths@[j as int]@));
        chains.push(join_strs(&paths[j], " -> "));
        assert(str_views(chains@) =~= before.push(render(all[j as int])));
        assert(render_all(all.take(j + 1)) =~= render_all(all.take(j as int)).push(
            render(all[j as int]),
        ));
        j += 1;
    }
    assert(all.take(paths.len() as int) =~= all);
    assert forall|k: int| 0 <= k < from_impls@.len() implies covered(
        chains_of(ev),
        (#[trigger] from_impls@[k]).0@,
        from_impls@[k].1@,
    ) by {
        lemma_no_edge_dropped(ev, k);
        assert(ev[k] == (from_impls@[k].0@, from_impls@[k].1@));
    }
    chains
}

/// Whether an edge joins the `i`-th node of a chain to the next.
pub open spec fn linked(edges: Seq<(Seq<char>, Seq<char>)>, chain: Seq<Seq<char>>, i: int) -> bool {
    edges.contains((chain[i], chain[i + 1]))
}

/// Whether a chain has at least two nodes, each joined to the next by an
/// edge.
pub open spec fn follows_edges(edges: Seq<(Seq<char>, Seq<char>)>, chain: Seq<Seq<char>>) -> bool {
    chain.len() >= 2 && forall|i: int|
        0 <= i < chain.len() - 1 ==> #[trigger] linked(edges, chain, i)
}

/// Whether a chain follows the edges and visits no node twice.
pub open spec fn simple_path(edges: Seq<(Seq<char>, Seq<char>)>, chain: Seq<Seq<char>>) -> bool {
    follows_edges(edges, chain) && chain.no_duplicates()
}

/// Whether a walk stands at `current` in a proper state: the chain ends
/// there, its nodes are joined by edges, all different and all visited.
pub open spec fn walking(
    edges: Seq<(Seq<char>, Seq<char>)>,
    current: Seq<char>,
    chain: Seq<Seq<char>>,
    visited: Set<Seq<char>>,
) -> bool {
    &&& chain.len() >= 1
    &&& chain.last() == current
    &&& forall|i: int| 0 <= i < chain.len() - 1 ==> #[trigger] linked(edges, chain, i)
    &&& chain.no_duplicates()
    &&& forall|i: int| 0 <= i < chain.len() ==> visited.contains(#[trigger] chain[i])
}

/// Whether each of the chains follows the edges.
pub open spec fn all_follow(edges: Seq<(Seq<char>, Seq<char>)>, chains: Seq<Seq<Seq<char>>>) -> bool {
    forall|k: int| 0 <= k < chains.len() ==> follows_edges(edges, #[trigger] chains[k])
}

/// Whether each of the chains follows the edges and visits no node twice.
pub open spec fn all_simple(edges: Seq<(Seq<char>, Seq<char>)>, chains: Seq<Seq<Seq<char>>>) -> bool {
    forall|k: int| 0 <= k < chains.len() ==> simple_path(edges, #[trigger] chains[k])
}

/// Chains that follow the edges and repeat no node, put behind others that
/// do, make a list of such chains.
proof fn lemma_all_simple_add(
    edges: Seq<(Seq<char>, Seq<char>)>,
    a: Seq<Seq<Seq<char>>>,
    b: Seq<Seq<Seq<char>>>,
)
    requires
        all_simple(edges, a),
        all_simple(edges, b),
    ensures
        all_simple(edges, a + b),
{
    assert forall|k: int| 0 <= k < (a + b).len() implies simple_path(edges, #[trigger] (a + b)[k]) by {
        if k < a.len() {
            assert((a + b)[k] == a[k]);
        } else {
            assert((a + b)[k] == b[k - a.len()]);
        }
    }
}

/// Chains that follow the edges, put behind others that do, make a list of
/// such chains.
proof fn lemma_all_follow_add(
    edges: Seq<(Seq<char>, Seq<char>)>,
    a: Seq<Seq<Seq<char>>>,
    b: Seq<Seq<Seq<char>>>,
)
    requires
        all_follow(edges, a),
        all_follow(edges, b),
    ensures
        all_follow(edges, a + b),
{
    assert forall|k: int| 0 <= k < (a + b).len() implies follows_edges(
        edges,
        #[trigger] (a + b)[k],
    ) by {
        if k < a.len() {
            assert((a + b)[k] == a[k]);
        } else {
            assert((a + b)[k] == b[k - a.len()]);
        }
    }
}

/// The chain of a walk with one more node, which an edge reaches from the
/// chain's end and which has not been visited, is the chain of a walk again.
proof fn lemma_walking_on(
    edges: Seq<(Seq<char>, Seq<char>)>,
    current: Seq<char>,
    chain: Seq<Seq<char>>,
    visited: Set<Seq<char>>,
    next: Seq<char>,
)
    requires
        walking(edges, current, chain, visited),
        edges.contains((current, next)),
        !visited.contains(next),
    ensures
        walking(edges, next, chain.push(next), visited.insert(next)),
{
    let longer = chain.push(next);
    let marked = visited.insert(next);
    assert forall|i: int| 0 <= i < longer.len() - 1 implies #[trigger] linked(
        edges,
        longer,
        i,
    ) by {
        if i < chain.len() - 1 {
            assert(linked(edges, chain, i));
            assert(longer[i] == chain[i] && longer[i + 1] == chain[i + 1]);
        } else {
            assert(longer[i] == current && longer[i + 1] == next);
        }
    }
    assert forall|i: int, j: int|
        0 <= i < longer.len() && 0 <= j < longer.len() && i != j implies longer[i] != longer[j] by {
        if i < chain.len() {
            assert(visited.contains(chain[i]));
        }
        if j < chain.len() {
            assert(visited.contains(chain[j]));
        }
    }
    assert forall|i: int| 0 <= i < longer.len() implies marked.contains(#[trigger] longer[i]) by {
        if i < chain.len() {
            assert(visited.contains(chain[i]));
        }
    }
}

/// Every chain that a walk emits follows the edges and visits no node
/// twice.
pub proof fn lemma_follow_emits_paths(
    edges: Seq<(Seq<char>, Seq<char>)>,
    current: Seq<char>,
    chain: Seq<Seq<char>>,
    visited: Set<Seq<char>>,
)
    requires
        walking(edges, current, chain, visited),
    ensures
        all_simple(edges, follow(edges, current, chain, visited).1),
    decreases pending(edges, visited), targets_of(edges, current).len() + 1,
{
    if targets_of(edges, current).len() > 0 {
        lemma_follow_each_emits_paths(edges, current, 0, chain, visited);
        let part = follow_each(edges, current, 0, chain, visited);
        if !part.2 && chain.len() > 1 {
            assert(simple_path(edges, chain));
            assert(all_simple(edges, seq![chain]));
            lemma_all_simple_add(edges, part.1, seq![chain]);
            assert(part.1.push(chain) =~= part.1 + seq![chain]);
        }
    } else if chain.len() > 1 {
        assert(simple_path(edges, chain));
        assert(all_simple(edges, seq![chain]));
    }
}

/// Every chain that a part of a walk emits follows the edges and visits no
/// node twice.
pub proof fn lemma_follow_each_emits_paths(
    edges: Seq<(Seq<char>, Seq<char>)>,
    current: Seq<char>,
    k: int,
    chain: Seq<Seq<char>>,
    visited: Set<Seq<char>>,
)
    requires
        walking(edges, current, chain, visited),
    ensures
        all_simple(edges, follow_each(edges, current, k, chain, visited).1),
    decreases pending(edges, visited), targets_of(edges, current).len() - k,
{
    let nexts = targets_of(edges, current);
    if k < 0 || k >= nexts.len() {
    } else if visited.contains(nexts[k]) {
        lemma_follow_each_emits_paths(edges, current, k + 1, chain, visited);
    } else {
        let next = nexts[k];
        let longer = chain.push(next);
        let marked = visited.insert(next);
        lemma_targets_of(edges, current, k);
        lemma_pending_insert(edges, visited, next);
        let e = choose|e: int| 0 <= e < edges.len() && #[trigger] edges[e] == (current, next);
        assert(edges.contains((current, next)));
        lemma_walking_on(edges, current, chain, visited, next);
        lemma_follow_emits_paths(edges, next, longer, marked);
        let step = follow(edges, next, longer, marked);
        let seen = visited.union(step.0);
        lemma_pending_mono(edges, visited, seen);
        assert(walking(edges, current, chain, seen)) by {
            assert forall|i: int| 0 <= i < chain.len() implies seen.contains(
                #[trigger] chain[i],
            ) by {
                assert(visited.contains(chain[i]));
            }
        }
        lemma_follow_each_emits_paths(edges, current, k + 1, chain, seen);
        lemma_all_simple_add(edges, step.1, follow_each(edges, current, k + 1, chain, seen).1);
    }
}

/// Every chain that the walks from the start nodes emit follows the edges
/// and visits no node twice.
pub proof fn lemma_walk_starts_emits_paths(
    edges: Seq<(Seq<char>, Seq<char>)>,
    starts: Seq<Seq<char>>,
    k: int,
    visited: Set<Seq<char>>,
)
    ensures
        all_simple(edges, walk_starts(edges, starts, k, visited).1),
    decreases starts.len() - k,
{
    if 0 <= k < starts.len() {
        let chain = seq![starts[k]];
        let marked = visited.insert(starts[k]);
        assert(walking(edges, starts[k], chain, marked));
        lemma_follow_emits_paths(edges, starts[k], chain, marked);
        let step = follow(edges, starts[k], chain, marked);
        lemma_walk_starts_emits_paths(edges, starts, k + 1, step.0);
        lemma_all_simple_add(edges, step.1, walk_starts(edges, starts, k + 1, step.0).1);
    }
}

/// Every edge that is emitted on its own is an edge.
pub proof fn lemma_fallback_emits_edges(
    edges: Seq<(Seq<char>, Seq<char>)>,
    i: int,
    emitted: Seq<Seq<Seq<char>>>,
)
    ensures
        all_follow(edges, fallback(edges, i, emitted)),
    decreases edges.len() - i,
{
    if 0 <= i < edges.len() {
        if covered(emitted, edges[i].0, edges[i].1) {
            lemma_fallback_emits_edges(edges, i + 1, emitted);
        } else {
            let pair = seq![edges[i].0, edges[i].1];
            lemma_fallback_emits_edges(edges, i + 1, emitted.push(pair));
            assert(linked(edges, pair, 0)) by {
                assert(edges[i] == (pair[0], pair[1]));
            }
            assert(follows_edges(edges, pair));
            assert(all_follow(edges, seq![pair]));
            lemma_all_follow_add(edges, seq![pair], fallback(edges, i + 1, emitted.push(pair)));
        }
    }
}

/// Neighbours in one of some chains are neighbours in one of more chains.
proof fn lemma_covered_grows(
    chains: Seq<Seq<Seq<char>>>,
    more: Seq<Seq<Seq<char>>>,
    a: Seq<char>,
    b: Seq<char>,
)
    requires
        covered(chains, a, b),
    ensures
        covered(chains + more, a, b),
{
    let (k, i) = choose|k: int, i: int|
        0 <= k < chains.len() && #[trigger] pair_at(chains[k], i, a, b);
    assert((chains + more)[k] == chains[k]);
    assert(pair_at((chains + more)[k], i, a, b));
}

/// The edge `k` is not dropped from its turn on: its two nodes are
/// neighbours in a chain emitted before the turn of the edge `i`, or in one
/// that is emitted from then on.
proof fn lemma_fallback_covers(
    edges: Seq<(Seq<char>, Seq<char>)>,
    i: int,
    emitted: Seq<Seq<Seq<char>>>,
    k: int,
)
    requires
        0 <= i <= k < edges.len(),
    ensures
        covered(emitted + fallback(edges, i, emitted), edges[k].0, edges[k].1),
    decreases k - i,
{
    let a = edges[k].0;
    let b = edges[k].1;
    let pair = seq![edges[i].0, edges[i].1];
    if covered(emitted, edges[i].0, edges[i].1) {
        if i == k {
            lemma_covered_grows(emitted, fallback(edges, i, emitted), a, b);
        } else {
            lemma_fallback_covers(edges, i + 1, emitted, k);
        }
    } else {
        let rest = fallback(edges, i + 1, emitted.push(pair));
        assert(emitted + (seq![pair] + rest) =~= emitted.push(pair) + rest);
        if i == k {
            let all = emitted.push(pair) + rest;
            assert(all[emitted.len() as int] == pair);
            assert(pair_at(all[emitted.len() as int], 0, a, b));
        } else {
            lemma_fallback_covers(edges, i + 1, emitted.push(pair), k);
        }
    }
}

/// No edge is dropped: the two nodes of every edge are neighbours in one of
/// the chains.
pub proof fn lemma_no_edge_dropped(edges: Seq<(Seq<char>, Seq<char>)>, k: int)
    requires
        0 <= k < edges.len(),
    ensures
        covered(chains_of(edges), edges[k].0, edges[k].1),
{
    let found = walk_starts(edges, sorted_seq(start_nodes(edges)), 0, Set::empty()).1;
    lemma_fallback_covers(edges, 0, found, k);
}

/// Every chain has at least two nodes and leads from node to node along the
/// edges, and a chain that a walk has emitted visits no node twice.
pub proof fn lemma_chains_follow_edges(edges: Seq<(Seq<char>, Seq<char>)>)
    ensures
        all_follow(edges, chains_of(edges)),
        ({
            let walked = walk_starts(edges, sorted_seq(start_nodes(edges)), 0, Set::empty()).1;
            forall|k: int|
                0 <= k < walked.len() ==> chains_of(edges)[k] == walked[k] && (
                #[trigger] walked[k]).no_duplicates()
        }),
{
    let starts = sorted_seq(start_nodes(edges));
    let walked = walk_starts(edges, starts, 0, Set::empty());
    lemma_walk_starts_emits_paths(edges, starts, 0, Set::empty());
    lemma_fallback_emits_edges(edges, 0, walked.1);
    assert(all_follow(edges, walked.1)) by {
        assert forall|k: int| 0 <= k < walked.1.len() implies follows_edges(
            edges,
            #[trigger] walked.1[k],
        ) by {
            assert(simple_path(edges, walked.1[k]));
        }
    }
    lemma_all_follow_add(edges, walked.1, fallback(edges, 0, walked.1));
    assert forall|k: int| 0 <= k < walked.1.len() implies chains_of(edges)[k] == walked.1[k] && (
    #[trigger] walked.1[k]).no_duplicates() by {
        assert(simple_path(edges, walked.1[k]));
    }
}

} // verus!
