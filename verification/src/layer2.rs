//! The report on the cross-reference views of the packages: the
//! implementation map, the conversion chains, the dependencies between
//! modules and the type usage hotspots.

use vstd::prelude::*;
use crate::chains::{build_error_chains, chains_of, edge_views, render_all};
use crate::model::CrateInfo;
use crate::order::{lex_lt, sorted_seq, strictly_sorted};
use crate::relations::{relationships, relationships_of, Relationships, RelationshipsView};
use crate::strset::SetMap;
use crate::text::{
    decimal, join, join_strs, max_utf8_len, pad_right, push_decimal, push_padded, str_views,
};

verus! {

/// The lines of the implementation map for the interfaces `keys`: the
/// interface padded to `width`, then the types that implement it.
pub open spec fn impl_lines(
    m: Map<Seq<char>, Set<Seq<char>>>,
    keys: Seq<Seq<char>>,
    width: nat,
) -> Seq<char>
    decreases keys.len(),
{
    if keys.len() == 0 {
        Seq::empty()
    } else {
        impl_lines(m, keys.drop_last(), width) + pad_right(keys.last(), width) + " <- "@ + join(
            sorted_seq(m[keys.last()]),
            ", "@,
        ) + "\n"@
    }
}

/// The section of the report on which types implement which interfaces.
pub open spec fn trait_impls_text(m: Map<Seq<char>, Set<Seq<char>>>) -> Seq<char> {
    let keys = sorted_seq(m.dom());
    "## Trait Implementations\n\n"@ + if keys.len() == 0 {
        "(none found)\n\n"@
    } else {
        impl_lines(m, keys, max_utf8_len(keys)) + "\n"@
    }
}

/// The pairs of `m` under the names `keys`: name by name, and under one name
/// in increasing order of what is filed there.
pub open spec fn pairs_of(m: Map<Seq<char>, Set<Seq<char>>>, keys: Seq<Seq<char>>) -> Seq<
    (Seq<char>, Seq<char>),
>
    decreases keys.len(),
{
    if keys.len() == 0 {
        Seq::empty()
    } else {
        pairs_of(m, keys.drop_last()) + sorted_seq(m[keys.last()]).map_values(
            |v: Seq<char>| (keys.last(), v),
        )
    }
}

/// The conversion edges in the order in which the chains are built from them:
/// by source, then by target.
pub open spec fn edges_of(m: Map<Seq<char>, Set<Seq<char>>>) -> Seq<(Seq<char>, Seq<char>)> {
    pairs_of(m, sorted_seq(m.dom()))
}

/// Each line followed by a line feed.
pub open spec fn lines_text(lines: Seq<Seq<char>>) -> Seq<char>
    decreases lines.len(),
{
    if lines.len() == 0 {
        Seq::empty()
    } else {
        lines_text(lines.drop_last()) + lines.last() + "\n"@
    }
}

/// The section of the report on the conversion chains.
pub open spec fn chains_text(m: Map<Seq<char>, Set<Seq<char>>>) -> Seq<char> {
    let chains = render_all(chains_of(edges_of(m)));
    "## Error Chains\n\n"@ + if chains.len() == 0 {
        "(no From impls found)\n\n"@
    } else {
        lines_text(chains) + "\n"@
    }
}

/// The lines of the dependency graph for the modules `keys`: the module
/// padded to `width`, then the modules it depends on.
pub open spec fn dep_lines(
    m: Map<Seq<char>, Set<Seq<char>>>,
    keys: Seq<Seq<char>>,
    width: nat,
) -> Seq<char>
    decreases keys.len(),
{
    if keys.len() == 0 {
        Seq::empty()
    } else {
        let deps = sorted_seq(m[keys.last()]);
        dep_lines(m, keys.drop_last(), width) + pad_right(keys.last(), width) + if deps.len()
            == 0 {
            " -> (no internal deps)\n"@
        } else {
            " -> "@ + join(deps, ", "@) + "\n"@
        }
    }
}

/// The section of the report on the dependencies between modules.
pub open spec fn module_deps_text(m: Map<Seq<char>, Set<Seq<char>>>) -> Seq<char> {
    let keys = sorted_seq(m.dom());
    "## Module Dependencies\n\n"@ + if keys.len() == 0 {
        "(none found)\n\n"@
    } else {
        dep_lines(m, keys, max_utf8_len(keys)) + "\n"@
    }
}

/// The greatest number of names filed under one of `keys`.
pub open spec fn max_count(m: Map<Seq<char>, Set<Seq<char>>>, keys: Seq<Seq<char>>) -> nat
    decreases keys.len(),
{
    if keys.len() == 0 {
        0
    } else {
        let rest = max_count(m, keys.drop_last());
        if m[keys.last()].len() > rest {
            m[keys.last()].len()
        } else {
            rest
        }
    }
}

/// Those of `keys` under which exactly `count` names are filed, in the order
/// of `keys`, each with the count.
pub open spec fn with_count(
    m: Map<Seq<char>, Set<Seq<char>>>,
    keys: Seq<Seq<char>>,
    count: nat,
) -> Seq<(Seq<char>, nat)>
    decreases keys.len(),
{
    if keys.len() == 0 {
        Seq::empty()
    } else {
        let rest = with_count(m, keys.drop_last(), count);
        if m[keys.last()].len() == count {
            rest.push((keys.last(), count))
        } else {
            rest
        }
    }
}

/// Those of `keys` under which at least three and at most `hi` names are
/// filed, by falling count, those of one count in the order of `keys`.
pub open spec fn hotspots_from(
    m: Map<Seq<char>, Set<Seq<char>>>,
    keys: Seq<Seq<char>>,
    hi: nat,
) -> Seq<(Seq<char>, nat)>
    decreases hi,
{
    if hi < 3 {
        Seq::empty()
    } else {
        with_count(m, keys, hi) + hotspots_from(m, keys, (hi - 1) as nat)
    }
}

/// The hotspots: the type names that three or more modules mention, with the
/// number of those modules, by falling number; names that as many modules
/// mention stand in increasing order.
pub open spec fn hotspots(m: Map<Seq<char>, Set<Seq<char>>>) -> Seq<(Seq<char>, nat)> {
    let keys = sorted_seq(m.dom());
    hotspots_from(m, keys, max_count(m, keys))
}

/// The lines of the hotspot table: the type name padded to `width`, then the
/// number of modules that mention it.
pub open spec fn hotspot_lines(hot: Seq<(Seq<char>, nat)>, width: nat) -> Seq<char>
    decreases hot.len(),
{
    if hot.len() == 0 {
        Seq::empty()
    } else {
        hotspot_lines(hot.drop_last(), width) + pad_right(hot.last().0, width) + " — used in "@
            + decimal(hot.last().1) + " modules\n"@
    }
}

/// The section of the report on the types that many modules mention.
pub open spec fn hotspots_text(m: Map<Seq<char>, Set<Seq<char>>>) -> Seq<char> {
    let hot = hotspots(m);
    "## Key Types (referenced from 3+ modules)\n\n"@ + if hot.len() == 0 {
        "(no types referenced from 3+ modules)\n\n"@
    } else {
        hotspot_lines(hot, max_utf8_len(hot.map_values(|h: (Seq<char>, nat)| h.0))) + "\n"@
    }
}

/// The report on the four views.
pub open spec fn relationships_text(r: RelationshipsView) -> Seq<char> {
    trait_impls_text(r.trait_impls) + chains_text(r.from_impls) + module_deps_text(r.module_deps)
        + hotspots_text(r.type_usage)
}

/// The greatest number of bytes that a name of the map takes.
fn max_key_len(m: &SetMap) -> (r: usize)
    ensures
        r == max_utf8_len(m.keys()),
{
    let n = m.len();
    let mut r: usize = 0;
    let mut i: usize = 0;
    while i < n
        invariant
            i <= n,
            n == m.keys().len(),
            r == max_utf8_len(m.keys().take(i as int)),
        decreases n - i,
    {
        assert(m.keys().take(i + 1).drop_last() =~= m.keys().take(i as int));
        let len = m.key_at(i).as_str().as_bytes().len();
        if len > r {
            r = len;
        }
        i += 1;
    }
    assert(m.keys().take(n as int) =~= m.keys());
    r
}

/// Appends the section on which types implement which interfaces.
fn push_trait_impls(out: &mut String, m: &SetMap)
    ensures
        final(out)@ == old(out)@ + trait_impls_text(m@),
{
    out.append("## Trait Implementations\n\n");
    if m.is_empty() {
        out.append("(none found)\n\n");
        assert(out@ =~= old(out)@ + trait_impls_text(m@));
        return ;
    }
    let width = max_key_len(m);
    let n = m.len();
    let ghost head = out@;
    let mut i: usize = 0;
    assert(head + impl_lines(m@, m.keys().take(0), width as nat) =~= head);
    while i < n
        invariant
            i <= n,
            n == m.keys().len(),
            out@ == head + impl_lines(m@, m.keys().take(i as int), width as nat),
        decreases n - i,
    {
        assert(m.keys().take(i + 1).drop_last() =~= m.keys().take(i as int));
        push_padded(out, m.key_at(i).as_str(), width);
        out.append(" <- ");
        let names = m.set_at(i).to_vec();
        out.append(join_strs(&names, ", ").as_str());
        out.append("\n");
        assert(out@ =~= head + impl_lines(m@, m.keys().take(i + 1), width as nat));
        i += 1;
    }
    assert(m.keys().take(n as int) =~= m.keys());
    out.append("\n");
    assert(out@ =~= old(out)@ + trait_impls_text(m@));
}

/// The pairs of the map, by first part, then by second.
fn pairs_exec(m: &SetMap) -> (r: Vec<(String, String)>)
    ensures
        edge_views(r@) == edges_of(m@),
{
    let mut r: Vec<(String, String)> = Vec::new();
    let n = m.len();
    let mut i: usize = 0;
    assert(edge_views(r@) =~= pairs_of(m@, m.keys().take(0)));
    while i < n
        invariant
            i <= n,
            n == m.keys().len(),
            edge_views(r@) == pairs_of(m@, m.keys().take(i as int)),
        decreases n - i,
    {
        assert(m.keys().take(i + 1).drop_last() =~= m.keys().take(i as int));
        let key = m.key_at(i);
        let names = m.set_at(i).to_vec();
        let ghost base = edge_views(r@);
        let ghost vals = str_views(names@);
        let ghost tag = |v: Seq<char>| (key@, v);
        let mut k: usize = 0;
        assert(base + vals.take(0).map_values(tag) =~= base);
        while k < names.len()
            invariant
                k <= names.len(),
                vals == str_views(names@),
                tag == |v: Seq<char>| (key@, v),
                edge_views(r@) == base + vals.take(k as int).map_values(tag),
            decreases names.len() - k,
        {
            let ghost before = edge_views(r@);
            r.push((key.clone(), names[k].clone()));
            assert(edge_views(r@) =~= before.push((key@, names@[k as int]@)));
            assert(base + vals.take(k + 1).map_values(tag) =~= (base + vals.take(
                k as int,
            ).map_values(tag)).push((key@, vals[k as int])));
            k += 1;
        }
        assert(vals.take(names.len() as int) =~= vals);
        i += 1;
    }
    assert(m.keys().take(n as int) =~= m.keys());
    r
}

/// Appends the section on the conversion chains.
fn push_chains(out: &mut String, m: &SetMap)
    ensures
        final(out)@ == old(out)@ + chains_text(m@),
{
    out.append("## Error Chains\n\n");
    let edges = pairs_exec(m);
    let chains = build_error_chains(&edges);
    let ghost shown = render_all(chains_of(edges_of(m@)));
    if chains.len() == 0 {
        out.append("(no From impls found)\n\n");
        assert(out@ =~= old(out)@ + chains_text(m@));
        return ;
    }
    let ghost head = out@;
    let mut i: usize = 0;
    assert(head + lines_text(shown.take(0)) =~= head);
    while i < chains.len()
        invariant
            i <= chains.len(),
            shown == str_views(chains@),
            out@ == head + lines_text(shown.take(i as int)),
        decreases chains.len() - i,
    {
        assert(shown.take(i + 1).drop_last() =~= shown.take(i as int));
        assert(shown[i as int] == chains@[i as int]@);
        out.append(chains[i].as_str());
        out.append("\n");
        assert(out@ =~= head + lines_text(shown.take(i + 1)));
        i += 1;
    }
    assert(shown.take(chains.len() as int) =~= shown);
    out.append("\n");
    assert(out@ =~= old(out)@ + chains_text(m@));
}

/// Appends the section on the dependencies between modules.
fn push_module_deps(out: &mut String, m: &SetMap)
    ensures
        final(out)@ == old(out)@ + module_deps_text(m@),
{
    out.append("## Module Dependencies\n\n");
    if m.is_empty() {
        out.append("(none found)\n\n");
        assert(out@ =~= old(out)@ + module_deps_text(m@));
        return ;
    }
    let width = max_key_len(m);
    let n = m.len();
    let ghost head = out@;
    let mut i: usize = 0;
    assert(head + dep_lines(m@, m.keys().take(0), width as nat) =~= head);
    while i < n
        invariant
            i <= n,
            n == m.keys().len(),
            out@ == head + dep_lines(m@, m.keys().take(i as int), width as nat),
        decreases n - i,
    {
        assert(m.keys().take(i + 1).drop_last() =~= m.keys().take(i as int));
        push_padded(out, m.key_at(i).as_str(), width);
        let deps = m.set_at(i);
        if deps.is_empty() {
            out.append(" -> (no internal deps)\n");
        } else {
            out.append(" -> ");
            let names = deps.to_vec();
            out.append(join_strs(&names, ", ").as_str());
            out.append("\n");
        }
        assert(out@ =~= head + dep_lines(m@, m.keys().take(i + 1), width as nat));
        i += 1;
    }
    assert(m.keys().take(n as int) =~= m.keys());
    out.append("\n");
    assert(out@ =~= old(out)@ + module_deps_text(m@));
}

/// The greatest number of names filed under one name of the map.
fn max_count_exec(m: &SetMap) -> (r: usize)
    ensures
        r == max_count(m@, m.keys()),
{
    let n = m.len();
    let mut r: usize = 0;
    let mut i: usize = 0;
    while i < n
        invariant
            i <= n,
            n == m.keys().len(),
            r == max_count(m@, m.keys().take(i as int)),
        decreases n - i,
    {
        assert(m.keys().take(i + 1).drop_last() =~= m.keys().take(i as int));
        let c = m.set_at(i).len();
        if c > r {
            r = c;
        }
        i += 1;
    }
    assert(m.keys().take(n as int) =~= m.keys());
    r
}

/// The views of hotspots as pairs of a name and a number.
pub open spec fn hot_views(hot: Seq<(String, usize)>) -> Seq<(Seq<char>, nat)> {
    hot.map_values(|h: (String, usize)| (h.0@, h.1 as nat))
}

/// The type names that three or more modules mention, most mentioned first.
fn hotspots_exec(m: &SetMap) -> (hot: Vec<(String, usize)>)
    ensures
        hot_views(hot@) == hotspots(m@),
{
    let top = max_count_exec(m);
    let n = m.len();
    let mut hot: Vec<(String, usize)> = Vec::new();
    let mut c: usize = top;
    assert(hot_views(hot@) + hotspots_from(m@, m.keys(), c as nat) =~= hotspots(m@));
    while c >= 3
        invariant
            n == m.keys().len(),
            hotspots(m@) == hot_views(hot@) + hotspots_from(m@, m.keys(), c as nat),
        decreases c,
    {
        let ghost base = hot_views(hot@);
        let mut i: usize = 0;
        assert(base + with_count(m@, m.keys().take(0), c as nat) =~= base);
        while i < n
            invariant
                i <= n,
                n == m.keys().len(),
                hot_views(hot@) == base + with_count(m@, m.keys().take(i as int), c as nat),
            decreases n - i,
        {
            assert(m.keys().take(i + 1).drop_last() =~= m.keys().take(i as int));
            if m.set_at(i).len() == c {
                let ghost before = hot_views(hot@);
                hot.push((m.key_at(i).clone(), c));
                assert(hot_views(hot@) =~= before.push((m.keys()[i as int], c as nat)));
            }
            i += 1;
        }
        assert(m.keys().take(n as int) =~= m.keys());
        assert(base + (with_count(m@, m.keys(), c as nat) + hotspots_from(
            m@,
            m.keys(),
            (c - 1) as nat,
        )) =~= (base + with_count(m@, m.keys(), c as nat)) + hotspots_from(
            m@,
            m.keys(),
            (c - 1) as nat,
        ));
        c -= 1;
    }
    assert(hot_views(hot@) + Seq::<(Seq<char>, nat)>::empty() =~= hot_views(hot@));
    hot
}

/// Appends the section on the types that many modules mention.
fn push_hotspots(out: &mut String, m: &SetMap)
    ensures
        final(out)@ == old(out)@ + hotspots_text(m@),
{
    out.append("## Key Types (referenced from 3+ modules)\n\n");
    let hot = hotspots_exec(m);
    if hot.len() == 0 {
        out.append("(no types referenced from 3+ modules)\n\n");
        assert(out@ =~= old(out)@ + hotspots_text(m@));
        return ;
    }
    let ghost hv = hot_views(hot@);
    let ghost names = hv.map_values(|h: (Seq<char>, nat)| h.0);
    let mut width: usize = 0;
    let mut k: usize = 0;
    while k < hot.len()
        invariant
            k <= hot.len(),
            hv == hot_views(hot@),
            names == hv.map_values(|h: (Seq<char>, nat)| h.0),
            width == max_utf8_len(names.take(k as int)),
        decreases hot.len() - k,
    {
        assert(names.take(k + 1).drop_last() =~= names.take(k as int));
        assert(names[k as int] == hot@[k as int].0@);
        let len = hot[k].0.as_str().as_bytes().len();
        if len > width {
            width = len;
        }
        k += 1;
    }
    assert(names.take(hot.len() as int) =~= names);
    let ghost head = out@;
    let mut i: usize = 0;
    assert(head + hotspot_lines(hv.take(0), width as nat) =~= head);
    while i < hot.len()
        invariant
            i <= hot.len(),
            hv == hot_views(hot@),
            out@ == head + hotspot_lines(hv.take(i as int), width as nat),
        decreases hot.len() - i,
    {
        assert(hv.take(i + 1).drop_last() =~= hv.take(i as int));
        assert(hv[i as int] == (hot@[i as int].0@, hot@[i as int].1 as nat));
        push_padded(out, hot[i].0.as_str(), width);
        out.append(" — used in ");
        push_decimal(out, hot[i].1);
        out.append(" modules\n");
        assert(out@ =~= head + hotspot_lines(hv.take(i + 1), width as nat));
        i += 1;
    }
    assert(hv.take(hot.len() as int) =~= hv);
    out.append("\n");
    assert(out@ =~= old(out)@ + hotspots_text(m@));
}

/// Writes the report on the four views.
pub fn render_relationships(rel: &Relationships) -> (out: String)
    ensures
        out@ == relationships_text(rel@),
{
    let mut out = String::new();
    push_trait_impls(&mut out, &rel.trait_impls);
    push_chains(&mut out, &rel.from_impls);
    push_module_deps(&mut out, &rel.module_deps);
    push_hotspots(&mut out, &rel.type_usage);
    assert(out@ =~= relationships_text(rel@));
    out
}

/// Generates the relationships report: the implementation map, the conversion
/// chains, the dependencies between modules and the type usage hotspots of
/// the packages.
pub fn generate_relationships(crates: &[CrateInfo]) -> (out: String)
    ensures
        out@ == relationships_text(relationships_of(crates@)),
{
    let rel = relationships(crates);
    render_relationships(&rel)
}

/// The names of one count stand in the order of the keys, each with that
/// count, which is the number of names filed under it.
pub proof fn lemma_with_count(
    m: Map<Seq<char>, Set<Seq<char>>>,
    keys: Seq<Seq<char>>,
    count: nat,
)
    requires
        strictly_sorted(keys),
    ensures
        forall|i: int|
            0 <= i < with_count(m, keys, count).len() ==> {
                let h = #[trigger] with_count(m, keys, count)[i];
                h.1 == count && m[h.0].len() == count && keys.contains(h.0)
            },
        forall|i: int, j: int|
            0 <= i < j < with_count(m, keys, count).len() ==> lex_lt(
                (#[trigger] with_count(m, keys, count)[i]).0,
                (#[trigger] with_count(m, keys, count)[j]).0,
            ),
    decreases keys.len(),
{
    if keys.len() > 0 {
        let init = keys.drop_last();
        assert(strictly_sorted(init)) by {
            assert forall|a: int, b: int| 0 <= a < b < init.len() implies lex_lt(
                #[trigger] init[a],
                #[trigger] init[b],
            ) by {
                assert(lex_lt(keys[a], keys[b]));
            }
        }
        lemma_with_count(m, init, count);
        let before = with_count(m, init, count);
        let all = with_count(m, keys, count);
        assert forall|i: int| 0 <= i < all.len() implies {
            let h = #[trigger] all[i];
            h.1 == count && m[h.0].len() == count && keys.contains(h.0)
        } by {
            if i < before.len() {
                let h = before[i];
                assert(all[i] == h);
                let p = choose|p: int| 0 <= p < init.len() && init[p] == h.0;
                assert(keys[p] == h.0);
            } else {
                assert(keys[keys.len() - 1] == all[i].0);
            }
        }
        assert forall|i: int, j: int| 0 <= i < j < all.len() implies lex_lt(
            (#[trigger] all[i]).0,
            (#[trigger] all[j]).0,
        ) by {
            assert(all[i] == before[i]);
            if j < before.len() {
                assert(all[j] == before[j]);
            } else {
                let p = choose|p: int| 0 <= p < init.len() && init[p] == before[i].0;
                assert(lex_lt(keys[p], keys[keys.len() - 1]));
            }
        }
    }
}

/// The hotspots are what the report promises: each is a name under which at
/// least three names are filed, with their number; they stand by falling
/// number, and those of one number in increasing order of the names.
pub proof fn lemma_hotspots_ordered(
    m: Map<Seq<char>, Set<Seq<char>>>,
    keys: Seq<Seq<char>>,
    hi: nat,
)
    requires
        strictly_sorted(keys),
    ensures
        forall|i: int|
            0 <= i < hotspots_from(m, keys, hi).len() ==> {
                let h = #[trigger] hotspots_from(m, keys, hi)[i];
                3 <= h.1 <= hi && m[h.0].len() == h.1 && keys.contains(h.0)
            },
        forall|i: int, j: int|
            0 <= i < j < hotspots_from(m, keys, hi).len() ==> {
                let a = #[trigger] hotspots_from(m, keys, hi)[i];
                let b = #[trigger] hotspots_from(m, keys, hi)[j];
                a.1 > b.1 || (a.1 == b.1 && lex_lt(a.0, b.0))
            },
    decreases hi,
{
    if hi >= 3 {
        let top = with_count(m, keys, hi);
        let below = hotspots_from(m, keys, (hi - 1) as nat);
        let all = hotspots_from(m, keys, hi);
        lemma_with_count(m, keys, hi);
        lemma_hotspots_ordered(m, keys, (hi - 1) as nat);
        assert(all == top + below);
        assert forall|i: int| 0 <= i < all.len() implies {
            let h = #[trigger] all[i];
            3 <= h.1 <= hi && m[h.0].len() == h.1 && keys.contains(h.0)
        } by {
            if i < top.len() {
                assert(all[i] == top[i]);
            } else {
                assert(all[i] == below[i - top.len()]);
            }
        }
        assert forall|i: int, j: int| 0 <= i < j < all.len() implies {
            let a = #[trigger] all[i];
            let b = #[trigger] all[j];
            a.1 > b.1 || (a.1 == b.1 && lex_lt(a.0, b.0))
        } by {
            if j < top.len() {
                assert(all[i] == top[i] && all[j] == top[j]);
            } else if i < top.len() {
                assert(all[i] == top[i] && all[j] == below[j - top.len()]);
            } else {
                assert(all[i] == below[i - top.len()] && all[j] == below[j - top.len()]);
            }
        }
    }
}

/// No key has more names filed under it than the greatest number.
pub proof fn lemma_max_count(m: Map<Seq<char>, Set<Seq<char>>>, keys: Seq<Seq<char>>, i: int)
    requires
        0 <= i < keys.len(),
    ensures
        m[keys[i]].len() <= max_count(m, keys),
    decreases keys.len(),
{
    if i < keys.len() - 1 {
        lemma_max_count(m, keys.drop_last(), i);
        assert(keys.drop_last()[i] == keys[i]);
    }
}

/// Each key with `count` names filed under it is among the names of that
/// count.
proof fn lemma_with_count_has(
    m: Map<Seq<char>, Set<Seq<char>>>,
    keys: Seq<Seq<char>>,
    count: nat,
    i: int,
)
    requires
        0 <= i < keys.len(),
        m[keys[i]].len() == count,
    ensures
        with_count(m, keys, count).contains((keys[i], count)),
    decreases keys.len(),
{
    let all = with_count(m, keys, count);
    if i < keys.len() - 1 {
        let init = keys.drop_last();
        assert(init[i] == keys[i]);
        lemma_with_count_has(m, init, count, i);
        let k = choose|k: int|
            0 <= k < with_count(m, init, count).len() && with_count(m, init, count)[k] == (
                keys[i],
                count,
            );
        assert(all[k] == (keys[i], count));
    } else {
        assert(all[all.len() - 1] == (keys[i], count));
    }
}

/// Every key under which at least three names are filed is a hotspot, with
/// their number.
pub proof fn lemma_hotspots_complete(
    m: Map<Seq<char>, Set<Seq<char>>>,
    keys: Seq<Seq<char>>,
    hi: nat,
    i: int,
)
    requires
        0 <= i < keys.len(),
        3 <= m[keys[i]].len() <= hi,
    ensures
        hotspots_from(m, keys, hi).contains((keys[i], m[keys[i]].len())),
    decreases hi,
{
    let top = with_count(m, keys, hi);
    let below = hotspots_from(m, keys, (hi - 1) as nat);
    let all = hotspots_from(m, keys, hi);
    let wanted = (keys[i], m[keys[i]].len());
    if m[keys[i]].len() == hi {
        lemma_with_count_has(m, keys, hi, i);
        let k = choose|k: int| 0 <= k < top.len() && top[k] == wanted;
        assert(all[k] == wanted);
    } else {
        lemma_hotspots_complete(m, keys, (hi - 1) as nat, i);
        let k = choose|k: int| 0 <= k < below.len() && below[k] == wanted;
        assert(all[top.len() + k] == wanted);
    }
}

} // verus!
