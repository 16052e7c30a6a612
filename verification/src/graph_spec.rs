//! Mathematical model of a dependency graph: paths, cycles and topological orders.
//!
//! A graph is a sequence of dependency lists; `g[v]` lists the vertices that `v` depends on.
use vstd::prelude::*;

verus! {

/// `p` walks from each vertex to one of its dependencies, with at least one step.
pub open spec fn is_dependency_path(g: Seq<Seq<usize>>, p: Seq<usize>) -> bool {
    &&& p.len() >= 2
    &&& forall|i: int|
        0 <= i < p.len() - 1 ==> (#[trigger] p[i] as int) < g.len() && g[p[i] as int].contains(
            p[i + 1],
        )
}

/// Some dependency path leads from `v` back to `v`.
pub open spec fn on_cycle(g: Seq<Seq<usize>>, v: usize) -> bool {
    exists|p: Seq<usize>| #[trigger] is_dependency_path(g, p) && p[0] == v && p.last() == v
}

/// No vertex lies on a cycle.
pub open spec fn acyclic(g: Seq<Seq<usize>>) -> bool {
    forall|v: usize| !#[trigger] on_cycle(g, v)
}

/// Some vertex depends on an identifier outside the graph.
pub open spec fn has_missing_dependency(g: Seq<Seq<usize>>) -> bool {
    exists|v: int, j: int|
        0 <= v < g.len() && 0 <= j < g[v].len() && (#[trigger] g[v][j] as int) >= g.len()
}

/// `order` lists every vertex exactly once, each after all of its dependencies.
pub open spec fn is_topological_order(g: Seq<Seq<usize>>, order: Seq<usize>) -> bool {
    &&& order.no_duplicates()
    &&& forall|i: int| 0 <= i < order.len() ==> (#[trigger] order[i] as int) < g.len()
    &&& forall|v: usize| (v as int) < g.len() ==> #[trigger] order.contains(v)
    &&& forall|i: int, j: int|
        0 <= i < order.len() && 0 <= j < g[order[i] as int].len() ==> #[trigger] listed_before(
            g,
            order,
            i,
            j,
        )
}

/// The `j`-th dependency of `order[i]` occurs before position `i`.
pub open spec fn listed_before(g: Seq<Seq<usize>>, order: Seq<usize>, i: int, j: int) -> bool {
    exists|k: int| 0 <= k < i && #[trigger] order[k] == g[order[i] as int][j]
}

/// Position of `v` in an order that contains it.
pub open spec fn position_in(order: Seq<usize>, v: usize) -> int {
    choose|k: int| 0 <= k < order.len() && order[k] == v
}

/// Along a dependency path in a topological order, positions strictly decrease.
proof fn lemma_path_positions_decrease(g: Seq<Seq<usize>>, order: Seq<usize>, p: Seq<usize>, i: int)
    requires
        is_topological_order(g, order),
        is_dependency_path(g, p),
        1 <= i < p.len(),
    ensures
        position_in(order, p[i]) < position_in(order, p[0]),
        0 <= position_in(order, p[i]) < order.len(),
        order[position_in(order, p[i])] == p[i],
    decreases i,
{
    assert((p[i - 1] as int) < g.len());
    assert(order.contains(p[i - 1]));
    let a = position_in(order, p[i - 1]);
    assert(0 <= a < order.len() && order[a] == p[i - 1]);
    let j = g[p[i - 1] as int].index_of(p[i]);
    assert(g[order[a] as int][j] == p[i]);
    assert(listed_before(g, order, a, j));
    let k = choose|k: int| 0 <= k < a && #[trigger] order[k] == g[order[a] as int][j];
    assert(order.contains(p[i]));
    let b = position_in(order, p[i]);
    assert(b == k) by {
        if b != k {
            assert(order[b] == order[k]);
        }
    }
    if i > 1 {
        lemma_path_positions_decrease(g, order, p, i - 1);
    } else {
        assert(order.contains(p[0]));
    }
}

/// A graph with a topological order has no cycle and no missing dependency.
pub proof fn lemma_topological_order_witnesses_validity(g: Seq<Seq<usize>>, order: Seq<usize>)
    requires
        is_topological_order(g, order),
        g.len() <= usize::MAX,
    ensures
        acyclic(g),
        !has_missing_dependency(g),
{
    assert forall|v: usize| !#[trigger] on_cycle(g, v) by {
        if on_cycle(g, v) {
            let p = choose|p: Seq<usize>|
                #[trigger] is_dependency_path(g, p) && p[0] == v && p.last() == v;
            lemma_path_positions_decrease(g, order, p, p.len() - 1);
        }
    }
    assert forall|v: int, j: int| 0 <= v < g.len() && 0 <= j < g[v].len() implies !(
    (#[trigger] g[v][j] as int) >= g.len()) by {
        assert(order.contains(v as usize));
        let a = position_in(order, v as usize);
        assert(order[a] as int == v);
        assert(listed_before(g, order, a, j));
        let k = choose|k: int| 0 <= k < a && #[trigger] order[k] == g[order[a] as int][j];
    }
}

} // verus!
