//! What it means that sources cover a product input: its positions and the component sources are
//! matched one to one.

use vstd::prelude::*;
use vstd::set_lib::*;

use crate::concrete::{
    components_before, components_cover, count_before, has_position, supplies, SConcrete,
};

verus! {

proof fn counts_grow(items: Seq<SConcrete>, t: SConcrete, a: nat, b: nat)
    requires
        a <= b <= items.len(),
    ensures
        count_before(items, t, a) <= count_before(items, t, b),
    decreases b,
{
    if a < b {
        counts_grow(items, t, a, (b - 1) as nat);
    }
}

/// A source supplies at most one position.
pub proof fn one_position(items: Seq<SConcrete>, sources: Seq<SConcrete>, i: int, p: int, q: int)
    requires
        supplies(items, sources, i, p),
        supplies(items, sources, i, q),
    ensures
        p == q,
{
    if p < q {
        counts_grow(items, sources[i], (p + 1) as nat, q as nat);
    }
    if q < p {
        counts_grow(items, sources[i], (q + 1) as nat, p as nat);
    }
}

/// A position is supplied by at most one source.
pub proof fn one_source(items: Seq<SConcrete>, sources: Seq<SConcrete>, i: int, k: int, p: int)
    requires
        0 <= i < sources.len(),
        0 <= k < sources.len(),
        supplies(items, sources, i, p),
        supplies(items, sources, k, p),
    ensures
        i == k,
{
    if i < k {
        counts_grow(sources, sources[i], (i + 1) as nat, k as nat);
    }
    if k < i {
        counts_grow(sources, sources[k], (k + 1) as nat, i as nat);
    }
}

/// The sources among the first `n` that are not the whole input.
pub open spec fn component_sources(input: SConcrete, sources: Seq<SConcrete>, n: nat) -> Set<int> {
    Set::new(|i: int| 0 <= i < n && sources[i] != input)
}

proof fn components_are_counted(input: SConcrete, sources: Seq<SConcrete>, n: nat)
    requires
        n <= sources.len(),
    ensures
        component_sources(input, sources, n).finite(),
        component_sources(input, sources, n).len() == components_before(input, sources, n),
    decreases n,
{
    let all = component_sources(input, sources, n);
    if n == 0 {
        assert(all =~= Set::empty());
    } else {
        let rest = component_sources(input, sources, (n - 1) as nat);
        components_are_counted(input, sources, (n - 1) as nat);
        if sources[n - 1] == input {
            assert(all =~= rest);
        } else {
            assert(all =~= rest.insert(n - 1));
        }
    }
}

/// The position that a source supplies.
pub open spec fn position_of(items: Seq<SConcrete>, sources: Seq<SConcrete>, i: int) -> int {
    choose|p: int| supplies(items, sources, i, p)
}

/// Where component sources cover a product, every position of the product is supplied by one of
/// them.
pub proof fn every_position_is_supplied(
    items: Seq<SConcrete>,
    sources: Seq<SConcrete>,
    p: int,
)
    requires
        components_cover(SConcrete::Product(items), items, sources),
        0 <= p < items.len(),
    ensures
        exists|i: int|
            0 <= i < sources.len() && sources[i] != SConcrete::Product(items) && #[trigger] supplies(
                items,
                sources,
                i,
                p,
            ),
{
    let input = SConcrete::Product(items);
    let from = component_sources(input, sources, sources.len());
    let at = |i: int| position_of(items, sources, i);
    components_are_counted(input, sources, sources.len());
    assert forall|i: int| #[trigger] from.contains(i) implies supplies(
        items,
        sources,
        i,
        position_of(items, sources, i),
    ) by {
        assert(sources[i] != input);
        assert(has_position(items, sources, i));
    }
    let reached = from.map(at);
    let positions = set_int_range(0, items.len() as int);
    lemma_int_range(0, items.len() as int);
    assert forall|i: int, k: int| from.contains(i) && from.contains(k) && at(i) == at(
        k,
    ) implies i == k by {
        one_source(items, sources, i, k, at(i));
    }
    lemma_map_size(from, reached, at);
    assert forall|q: int| reached.contains(q) implies positions.contains(q) by {
        let i = choose|i: int| from.contains(i) && q == at(i);
        assert(supplies(items, sources, i, position_of(items, sources, i)));
    }
    lemma_subset_equality(reached, positions);
    assert(reached.contains(p));
    let i = choose|i: int| from.contains(i) && p == at(i);
    assert(supplies(items, sources, i, p));
}

} // verus!
