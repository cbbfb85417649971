//! Cycle detection: a depth-first search with a set of the nodes that it is
//! visiting (gray), a set of the nodes that it has visited (black), and a
//! stack of the path that it follows. It reports the path of the cycle that
//! it closes first.

use std::collections::HashSet;
use vstd::prelude::*;
use vstd::string::StringExecFns;
use crate::graph::{has_target, EdgeView, Node, NodeDependencies, NodeView};
use crate::seqs::{first_where, lemma_first_where_at};

verus! {

broadcast use vstd::std_specs::hash::group_hash_axioms;

/// Whether the graph has an edge from `a` to `b`. An edge that leads to no
/// node of the graph is no edge of it.
pub open spec fn has_edge(deps: Seq<Seq<EdgeView>>, a: int, b: int) -> bool {
    0 <= a < deps.len() && 0 <= b < deps.len() && has_target(deps[a], b)
}

/// Every node of `p` has an edge to the next one.
pub open spec fn is_path(deps: Seq<Seq<EdgeView>>, p: Seq<int>) -> bool {
    forall|i: int| 0 <= i < p.len() - 1 ==> #[trigger] has_edge(deps, p[i], p[i + 1])
}

/// `p` is a path whose last node has an edge back to the first.
pub open spec fn is_cycle(deps: Seq<Seq<EdgeView>>, p: Seq<int>) -> bool {
    p.len() > 0 && is_path(deps, p) && has_edge(deps, p.last(), p[0])
}

/// Whether some path through the graph returns to its start.
pub open spec fn spec_has_cycle(deps: Seq<Seq<EdgeView>>) -> bool {
    exists|p: Seq<int>| is_cycle(deps, p)
}

/// `rank` gives every node a rank, and every edge of the graph leads to a
/// node of lower rank than the one it comes from.
pub open spec fn is_ranking(deps: Seq<Seq<EdgeView>>, rank: Seq<int>) -> bool {
    &&& rank.len() == deps.len()
    &&& forall|u: int, k: int|
        0 <= u < deps.len() && 0 <= k < deps[u].len() && 0 <= (#[trigger] deps[u][k]).to
            < deps.len() ==> rank[deps[u][k].to] < rank[u]
}

/// Indices as mathematical integers.
pub open spec fn ints(p: Seq<usize>) -> Seq<int> {
    Seq::new(p.len(), |i: int| p[i] as int)
}

/// The state of a node during the search.
pub enum Color {
    /// Not reached yet.
    White,
    /// On the path that the search is following.
    Gray,
    /// Fully explored: no cycle is reachable from it.
    Black,
}

/// Number of white nodes.
pub open spec fn whites(colors: Seq<Color>) -> nat
    decreases colors.len(),
{
    if colors.len() == 0 {
        0
    } else {
        whites(colors.drop_last()) + if colors.last() is White {
            1nat
        } else {
            0nat
        }
    }
}

/// Coloring nodes never raises the number of white ones, and lowers it
/// where a white node changes color.
proof fn lemma_whites_shrink(a: Seq<Color>, b: Seq<Color>)
    requires
        a.len() == b.len(),
        forall|v: int| 0 <= v < b.len() && b[v] is White ==> a[v] is White,
    ensures
        whites(b) <= whites(a),
        (exists|v: int| 0 <= v < a.len() && a[v] is White && !(b[v] is White)) ==> whites(b)
            < whites(a),
    decreases a.len(),
{
    if a.len() > 0 {
        let a0 = a.drop_last();
        let b0 = b.drop_last();
        assert forall|v: int| 0 <= v < b0.len() && b0[v] is White implies a0[v] is White by {}
        lemma_whites_shrink(a0, b0);
        if exists|v: int| 0 <= v < a.len() && a[v] is White && !(b[v] is White) {
            let v = choose|v: int| 0 <= v < a.len() && a[v] is White && !(b[v] is White);
            if v < a.len() - 1 {
                assert(a0[v] == a[v] && b0[v] == b[v]);
            }
        }
    }
}

/// `rank` orders the black nodes: every edge from a black node leads to a
/// black node of lower rank.
spec fn ranked(deps: Seq<Seq<EdgeView>>, colors: Seq<Color>, rank: Seq<int>) -> bool {
    &&& rank.len() == deps.len()
    &&& forall|u: int, k: int|
        0 <= u < deps.len() && colors[u] is Black && 0 <= k < deps[u].len() && 0 <= (
        #[trigger] deps[u][k]).to < deps.len() ==> colors[deps[u][k].to] is Black
            && rank[deps[u][k].to] < rank[u]
}

/// Whether the node is on the stack.
spec fn on_stack(stack: Seq<usize>, v: int) -> bool {
    exists|i: int| 0 <= i < stack.len() && #[trigger] stack[i] == v
}

/// What holds between two steps of the search: the stack is a path of the
/// gray nodes, each once, and the black nodes can be ranked.
spec fn search_inv(deps: Seq<Seq<EdgeView>>, stack: Seq<usize>, colors: Seq<Color>) -> bool {
    &&& colors.len() == deps.len()
    &&& forall|i: int| 0 <= i < stack.len() ==> (#[trigger] stack[i]) < deps.len()
    &&& is_path(deps, ints(stack))
    &&& stack.no_duplicates()
    &&& forall|v: int| 0 <= v < deps.len() ==> (colors[v] is Gray <==> on_stack(stack, v))
    &&& exists|rank: Seq<int>| ranked(deps, colors, rank)
}

/// A number above every element of a sequence.
proof fn lemma_above(s: Seq<int>) -> (b: int)
    ensures
        forall|i: int| 0 <= i < s.len() ==> s[i] < b,
    decreases s.len(),
{
    if s.len() == 0 {
        0
    } else {
        let b0 = lemma_above(s.drop_last());
        let b = if b0 > s.last() {
            b0
        } else {
            s.last() + 1
        };
        assert forall|i: int| 0 <= i < s.len() implies s[i] < b by {
            if i < s.len() - 1 {
                assert(s.drop_last()[i] == s[i]);
            }
        }
        b
    }
}

/// Along a path through a ranked graph the rank falls with every step.
proof fn lemma_rank_falls(deps: Seq<Seq<EdgeView>>, rank: Seq<int>, p: Seq<int>, i: int)
    requires
        is_ranking(deps, rank),
        is_path(deps, p),
        0 <= i < p.len(),
        0 <= p[0] < deps.len(),
    ensures
        0 <= p[i] < deps.len(),
        rank[p[i]] <= rank[p[0]] - i,
    decreases i,
{
    if i > 0 {
        lemma_rank_falls(deps, rank, p, i - 1);
        assert(has_edge(deps, p[i - 1], p[i - 1 + 1]));
        let k = choose|k: int| 0 <= k < deps[p[i - 1]].len() && (#[trigger] deps[p[i - 1]][k]).to
            == p[i];
        assert(rank[p[i]] < rank[p[i - 1]]);
    }
}

/// A graph whose nodes can be ranked so that every edge leads to a node of
/// lower rank has no cycle.
pub proof fn lemma_ranked_graph_is_acyclic(deps: Seq<Seq<EdgeView>>, rank: Seq<int>)
    requires
        is_ranking(deps, rank),
    ensures
        !spec_has_cycle(deps),
{
    assert forall|p: Seq<int>| !is_cycle(deps, p) by {
        if is_cycle(deps, p) {
            let last = p.len() - 1;
            lemma_rank_falls(deps, rank, p, last);
            let k = choose|k: int| 0 <= k < deps[p[last]].len() && (#[trigger] deps[p[last]][k]).to
                == p[0];
            assert(rank[p[0]] < rank[p[last]] <= rank[p[0]] - last);
        }
    }
}

/// The part of the stack from the given node on: the cycle that an edge to a
/// gray node closes.
fn cycle_from(stack: &Vec<usize>, node: usize) -> (r: Vec<usize>)
    requires
        stack@.contains(node),
    ensures
        exists|pos: int|
            0 <= pos < stack@.len() && stack@[pos] == node && r@ == stack@.subrange(
                pos,
                stack@.len() as int,
            ) && forall|j: int| 0 <= j < pos ==> stack@[j] != node,
{
    let mut pos: usize = 0;
    while pos < stack.len() && stack[pos] != node
        invariant
            pos <= stack@.len(),
            forall|j: int| 0 <= j < pos ==> stack@[j] != node,
        decreases stack@.len() - pos,
    {
        pos += 1;
    }
    let mut path: Vec<usize> = Vec::new();
    let mut i: usize = pos;
    while i < stack.len()
        invariant
            pos <= i <= stack@.len(),
            path@ == stack@.subrange(pos as int, i as int),
        decreases stack@.len() - i,
    {
        path.push(stack[i]);
        i += 1;
    }
    path
}

/// The end of a path that leads into itself is a cycle.
proof fn lemma_stack_tail_is_cycle(
    deps: Seq<Seq<EdgeView>>,
    stack: Seq<usize>,
    pos: int,
    path: Seq<usize>,
)
    requires
        is_path(deps, ints(stack)),
        stack.no_duplicates(),
        0 <= pos < stack.len(),
        path == stack.subrange(pos, stack.len() as int),
        has_edge(deps, stack.last() as int, stack[pos] as int),
    ensures
        is_cycle(deps, ints(path)),
        path.no_duplicates(),
{
    let p = ints(path);
    assert forall|i: int| 0 <= i < p.len() - 1 implies #[trigger] has_edge(deps, p[i], p[i + 1]) by {
        assert(has_edge(deps, ints(stack)[pos + i], ints(stack)[pos + i + 1]));
    }
}

/// The test that an element of the stack is the node.
pub open spec fn is_node(node: int) -> spec_fn(int) -> bool {
    |v: int| v == node
}

/// The cycle that an edge to a node on the stack closes: the stack from the
/// first place of the node on.
pub open spec fn spec_cycle_from(stack: Seq<int>, node: int) -> Seq<int> {
    match first_where(stack, is_node(node)) {
        Some(i) => stack.skip(i),
        None => stack,
    }
}

/// What the search finds when it comes to a node, and the colors it leaves.
/// A gray node closes a cycle. A black node gives nothing. A white node
/// turns gray and goes on the stack, its edges are followed in their order,
/// and it turns black when none of them has led to a cycle. `depth` is how
/// many nodes the search may still go down; no more are ever needed than
/// there are white nodes.
pub open spec fn spec_visit(
    deps: Seq<Seq<EdgeView>>,
    colors: Seq<Color>,
    stack: Seq<int>,
    node: int,
    depth: nat,
) -> (Option<Seq<int>>, Seq<Color>)
    decreases depth, 0nat, 0nat,
{
    match colors[node] {
        Color::Gray => (Some(spec_cycle_from(stack, node)), colors),
        Color::Black => (None, colors),
        Color::White => if depth == 0 {
            (None, colors)
        } else {
            spec_visit_edges(
                deps,
                colors.update(node, Color::Gray),
                stack.push(node),
                node,
                0,
                (depth - 1) as nat,
            )
        },
    }
}

/// What the search finds when it follows the edges of a gray node from the
/// edge at `k` on, and the colors it leaves. An edge that leads to no node
/// of the graph is passed over; the first edge that leads to a cycle ends
/// the search; after the last edge the node turns black.
pub open spec fn spec_visit_edges(
    deps: Seq<Seq<EdgeView>>,
    colors: Seq<Color>,
    stack: Seq<int>,
    node: int,
    k: nat,
    depth: nat,
) -> (Option<Seq<int>>, Seq<Color>)
    decreases depth, 1nat, deps[node].len() - k,
{
    if k >= deps[node].len() {
        (None, colors.update(node, Color::Black))
    } else {
        let next = deps[node][k as int].to;
        if 0 <= next < deps.len() {
            let visited = spec_visit(deps, colors, stack, next, depth);
            if visited.0 is Some {
                visited
            } else {
                spec_visit_edges(deps, visited.1, stack, node, k + 1, depth)
            }
        } else {
            spec_visit_edges(deps, colors, stack, node, k + 1, depth)
        }
    }
}

/// What the search finds when it takes the nodes from `root` on, in the
/// order of their indices, as the starts of its paths.
pub open spec fn spec_search_from(deps: Seq<Seq<EdgeView>>, colors: Seq<Color>, root: nat) -> Option<
    Seq<int>,
>
    decreases deps.len() - root,
{
    if root >= deps.len() {
        None
    } else {
        let visited = spec_visit(deps, colors, Seq::empty(), root as int, deps.len());
        if visited.0 is Some {
            visited.0
        } else {
            spec_search_from(deps, visited.1, root + 1)
        }
    }
}

/// The cycle that the search finds: it starts from each node in the order
/// of the indices, with all nodes white at first, and follows the edges of
/// a node in the order of its adjacency entry.
pub open spec fn spec_search(deps: Seq<Seq<EdgeView>>) -> Option<Seq<int>> {
    spec_search_from(deps, Seq::new(deps.len(), |i: int| Color::White), 0)
}

/// A path that was found, as a sequence of mathematical integers.
pub open spec fn path_view(found: Option<Vec<usize>>) -> Option<Seq<int>> {
    match found {
        Some(path) => Some(ints(path@)),
        None => None,
    }
}

/// Whether a path of white nodes leads from one node to another.
pub open spec fn reaches_through_white(
    deps: Seq<Seq<EdgeView>>,
    colors: Seq<Color>,
    from: int,
    to: int,
) -> bool {
    exists|p: Seq<int>|
        p.len() > 0 && p[0] == from && p.last() == to && is_path(deps, p) && forall|i: int|
            0 <= i < p.len() ==> colors[#[trigger] p[i]] is White
}

/// A white node reaches itself.
proof fn lemma_reaches_itself(deps: Seq<Seq<EdgeView>>, colors: Seq<Color>, node: int)
    requires
        colors[node] is White,
    ensures
        reaches_through_white(deps, colors, node, node),
{
    let p = seq![node];
    assert(p[0] == node && p.last() == node);
    assert(is_path(deps, p));
    assert forall|i: int| 0 <= i < p.len() implies colors[#[trigger] p[i]] is White by {}
}

/// What is reached from the target of an edge through nodes that are white
/// now is reached from the white source of the edge through nodes that were
/// white before.
proof fn lemma_reaches_over_edge(
    deps: Seq<Seq<EdgeView>>,
    before: Seq<Color>,
    now: Seq<Color>,
    from: int,
    next: int,
    to: int,
)
    requires
        has_edge(deps, from, next),
        before[from] is White,
        forall|v: int| 0 <= v < deps.len() && now[v] is White ==> before[v] is White,
        reaches_through_white(deps, now, next, to),
    ensures
        reaches_through_white(deps, before, from, to),
{
    let p = choose|p: Seq<int>|
        p.len() > 0 && p[0] == next && p.last() == to && is_path(deps, p) && forall|i: int|
            0 <= i < p.len() ==> now[#[trigger] p[i]] is White;
    let q = seq![from] + p;
    assert(q[0] == from && q.last() == p.last());
    assert forall|i: int| 0 <= i < q.len() - 1 implies #[trigger] has_edge(deps, q[i], q[i + 1]) by {
        if i > 0 {
            assert(q[i] == p[i - 1] && q[i + 1] == p[i - 1 + 1]);
            assert(has_edge(deps, p[i - 1], p[i - 1 + 1]));
        } else {
            assert(q[1] == p[0]);
        }
    }
    assert forall|i: int| 0 <= i < q.len() implies before[#[trigger] q[i]] is White by {
        if i > 0 {
            let j = i - 1;
            assert(q[i] == p[j]);
            assert(now[p[j]] is White);
            if j < p.len() - 1 {
                assert(has_edge(deps, p[j], p[j + 1]));
            } else if j > 0 {
                assert(has_edge(deps, p[j - 1], p[j - 1 + 1]));
            }
        }
    }
}

/// There are no more white nodes than nodes.
proof fn lemma_whites_bound(colors: Seq<Color>)
    ensures
        whites(colors) <= colors.len(),
    decreases colors.len(),
{
    if colors.len() > 0 {
        lemma_whites_bound(colors.drop_last());
    }
}

/// When a white node turns gray and goes on the stack, the gray nodes are
/// still those on the stack.
proof fn lemma_down_keeps_gray(
    deps: Seq<Seq<EdgeView>>,
    stack: Seq<usize>,
    colors: Seq<Color>,
    node: usize,
)
    requires
        colors.len() == deps.len(),
        node < deps.len(),
        colors[node as int] is White,
        forall|v: int| 0 <= v < deps.len() ==> (colors[v] is Gray <==> on_stack(stack, v)),
    ensures
        forall|v: int|
            0 <= v < deps.len() ==> (colors.update(node as int, Color::Gray)[v] is Gray
                <==> on_stack(stack.push(node), v)),
{
    let deeper = stack.push(node);
    let grayed = colors.update(node as int, Color::Gray);
    assert forall|v: int| 0 <= v < deps.len() implies (grayed[v] is Gray <==> on_stack(deeper, v)) by {
        if v == node {
            assert(deeper[stack.len() as int] == node);
            assert(on_stack(deeper, v));
            assert(grayed[v] is Gray);
        } else if on_stack(deeper, v) {
            let at = choose|at: int| 0 <= at < deeper.len() && #[trigger] deeper[at] == v;
            assert(stack[at] == v);
            assert(on_stack(stack, v));
            assert(colors[v] is Gray);
            assert(grayed[v] is Gray);
        } else if on_stack(stack, v) {
            let at = choose|at: int| 0 <= at < stack.len() && #[trigger] stack[at] == v;
            assert(deeper[at] == v);
            assert(false);
        } else {
            assert(!(colors[v] is Gray));
            assert(!(grayed[v] is Gray));
        }
    }
}

/// The search keeps what holds between its steps when it goes down to a
/// white node.
proof fn lemma_down_keeps_inv(
    deps: Seq<Seq<EdgeView>>,
    stack: Seq<usize>,
    colors: Seq<Color>,
    node: usize,
)
    requires
        search_inv(deps, stack, colors),
        node < deps.len(),
        colors[node as int] is White,
        stack.len() > 0 ==> has_edge(deps, stack.last() as int, node as int),
    ensures
        search_inv(deps, stack.push(node), colors.update(node as int, Color::Gray)),
{
    let deeper = stack.push(node);
    let grayed = colors.update(node as int, Color::Gray);
    let rank = choose|rank: Seq<int>| ranked(deps, colors, rank);
    assert(ranked(deps, grayed, rank));
    assert(!on_stack(stack, node as int));
    lemma_down_keeps_gray(deps, stack, colors, node);
    assert forall|i: int| 0 <= i < ints(deeper).len() - 1 implies #[trigger] has_edge(
        deps,
        ints(deeper)[i],
        ints(deeper)[i + 1],
    ) by {
        if i < stack.len() - 1 {
            assert(has_edge(deps, ints(stack)[i], ints(stack)[i + 1]));
        }
    }
    assert(deeper.no_duplicates()) by {
        assert forall|i: int, j: int|
            0 <= i < deeper.len() && 0 <= j < deeper.len() && i != j implies deeper[i]
            != deeper[j] by {
            if i < stack.len() && j < stack.len() {
                assert(stack[i] != stack[j]);
            } else if i < stack.len() {
                assert(stack[i] != node);
            } else {
                assert(stack[j] != node);
            }
        }
    }
}

/// The search keeps what holds between its steps when it comes back up
/// from a node all of whose edges lead to black nodes.
proof fn lemma_up_keeps_inv(
    deps: Seq<Seq<EdgeView>>,
    stack: Seq<usize>,
    colors: Seq<Color>,
    node: usize,
)
    requires
        search_inv(deps, stack.push(node), colors),
        node < deps.len(),
        forall|k: int|
            0 <= k < deps[node as int].len() && 0 <= (#[trigger] deps[node as int][k]).to
                < deps.len() ==> colors[deps[node as int][k].to] is Black,
    ensures
        search_inv(deps, stack, colors.update(node as int, Color::Black)),
{
    let full = stack.push(node);
    let done = colors.update(node as int, Color::Black);
    assert(on_stack(full, node as int)) by {
        assert(full[stack.len() as int] == node);
    }
    assert forall|v: int| 0 <= v < deps.len() implies (done[v] is Gray <==> on_stack(stack, v)) by {
        if on_stack(stack, v) {
            let at = choose|at: int| 0 <= at < stack.len() && #[trigger] stack[at] == v;
            assert(full[at] == v);
            assert(full[stack.len() as int] == node);
            assert(on_stack(full, v));
        } else if v != node && on_stack(full, v) {
            let at = choose|at: int| 0 <= at < full.len() && #[trigger] full[at] == v;
            assert(stack[at] == v);
        }
    }
    assert forall|i: int| 0 <= i < ints(stack).len() - 1 implies #[trigger] has_edge(
        deps,
        ints(stack)[i],
        ints(stack)[i + 1],
    ) by {
        assert(has_edge(deps, ints(full)[i], ints(full)[i + 1]));
    }
    assert(stack.no_duplicates()) by {
        assert forall|i: int, j: int|
            0 <= i < stack.len() && 0 <= j < stack.len() && i != j implies stack[i] != stack[j] by {
            assert(full[i] == stack[i]);
            assert(full[j] == stack[j]);
        }
    }
    assert forall|i: int| 0 <= i < stack.len() implies (#[trigger] stack[i]) < deps.len() by {
        assert(full[i] == stack[i]);
    }
    let rank = choose|rank: Seq<int>| ranked(deps, colors, rank);
    let top = lemma_above(rank);
    let higher = rank.update(node as int, top);
    assert(ranked(deps, done, higher)) by {
        assert forall|u: int, e: int|
            0 <= u < deps.len() && done[u] is Black && 0 <= e < deps[u].len() && 0 <= (
            #[trigger] deps[u][e]).to < deps.len() implies done[deps[u][e].to] is Black
            && higher[deps[u][e].to] < higher[u] by {
            assert(colors[deps[u][e].to] is Black);
        }
    }
}

/// Whether a path leads from one node to another through nodes none of
/// which was visited.
pub open spec fn reaches_unvisited(
    deps: Seq<Seq<EdgeView>>,
    visited: Set<usize>,
    from: int,
    to: int,
) -> bool {
    exists|p: Seq<int>|
        p.len() > 0 && p[0] == from && p.last() == to && is_path(deps, p) && forall|i: int|
            0 <= i < p.len() ==> !visited.contains(#[trigger] p[i] as usize)
}

/// Where every edge from a newly visited node leads to a visited node, a
/// path from a newly visited node through nodes that were not visited
/// before leads through visited nodes only.
proof fn lemma_path_is_visited(
    deps: Seq<Seq<EdgeView>>,
    before: Set<usize>,
    after: Set<usize>,
    p: Seq<int>,
    i: int,
)
    requires
        deps.len() <= usize::MAX,
        is_path(deps, p),
        0 <= i < p.len(),
        0 <= p[0] < deps.len(),
        after.contains(p[0] as usize),
        forall|j: int| 0 <= j < p.len() ==> !before.contains(#[trigger] p[j] as usize),
        forall|u: usize, k: int|
            after.contains(u) && !before.contains(u) && u < deps.len() && 0 <= k
                < deps[u as int].len() && 0 <= (#[trigger] deps[u as int][k]).to < deps.len()
                ==> after.contains(deps[u as int][k].to as usize),
    ensures
        0 <= p[i] < deps.len(),
        after.contains(p[i] as usize),
    decreases i,
{
    if i > 0 {
        lemma_path_is_visited(deps, before, after, p, i - 1);
        assert(has_edge(deps, p[i - 1], p[i - 1 + 1]));
        let k = choose|k: int|
            0 <= k < deps[p[i - 1]].len() && (#[trigger] deps[p[i - 1]][k]).to == p[i];
        let u = p[i - 1] as usize;
        assert(!before.contains(p[i - 1] as usize));
        assert(deps[u as int][k].to == p[i]);
        assert(after.contains(deps[u as int][k].to as usize));
    }
}

/// Where every edge from a newly visited node leads to a visited node,
/// every node that a newly visited node reaches through nodes that were not
/// visited before is visited.
proof fn lemma_reached_is_visited(
    deps: Seq<Seq<EdgeView>>,
    before: Set<usize>,
    after: Set<usize>,
    node: usize,
)
    requires
        deps.len() <= usize::MAX,
        node < deps.len(),
        after.contains(node),
        forall|u: usize, k: int|
            after.contains(u) && !before.contains(u) && u < deps.len() && 0 <= k
                < deps[u as int].len() && 0 <= (#[trigger] deps[u as int][k]).to < deps.len()
                ==> after.contains(deps[u as int][k].to as usize),
    ensures
        forall|v: usize|
            v < deps.len() && reaches_unvisited(deps, before, node as int, v as int)
                ==> after.contains(v),
{
    assert forall|v: usize|
        v < deps.len() && reaches_unvisited(deps, before, node as int, v as int) implies after.contains(
        v,
    ) by {
        let p = choose|p: Seq<int>|
            p.len() > 0 && p[0] == node as int && p.last() == v as int && is_path(deps, p)
                && forall|i: int| 0 <= i < p.len() ==> !before.contains(#[trigger] p[i] as usize);
        lemma_path_is_visited(deps, before, after, p, p.len() - 1);
    }
}

/// A path through white nodes is a path through nodes that were not
/// visited, and a path leads to a node of the graph.
proof fn lemma_white_is_unvisited(
    deps: Seq<Seq<EdgeView>>,
    visiting: Set<usize>,
    visited: Set<usize>,
    from: int,
    to: int,
)
    requires
        0 <= from < deps.len(),
    ensures
        reaches_through_white(deps, shade(visiting, visited, deps.len()), from, to)
            ==> reaches_unvisited(deps, visited, from, to),
        reaches_unvisited(deps, visited, from, to) ==> 0 <= to < deps.len(),
{
    let colors = shade(visiting, visited, deps.len());
    if reaches_through_white(deps, colors, from, to) {
        let p = choose|p: Seq<int>|
            p.len() > 0 && p[0] == from && p.last() == to && is_path(deps, p) && forall|i: int|
                0 <= i < p.len() ==> colors[#[trigger] p[i]] is White;
        assert forall|i: int| 0 <= i < p.len() implies !visited.contains(
            #[trigger] p[i] as usize,
        ) by {
            assert(colors[p[i]] is White);
            if i < p.len() - 1 {
                assert(has_edge(deps, p[i], p[i + 1]));
            } else if i > 0 {
                assert(has_edge(deps, p[i - 1], p[i - 1 + 1]));
            }
        }
    }
    if reaches_unvisited(deps, visited, from, to) {
        let p = choose|p: Seq<int>|
            p.len() > 0 && p[0] == from && p.last() == to && is_path(deps, p) && forall|i: int|
                0 <= i < p.len() ==> !visited.contains(#[trigger] p[i] as usize);
        if p.len() > 1 {
            assert(has_edge(deps, p[p.len() - 2], p[p.len() - 2 + 1]));
        }
    }
}

/// The color of each of `n` nodes: gray where the node is being visited,
/// black where it was visited, white where it was not reached yet.
pub open spec fn shade(visiting: Set<usize>, visited: Set<usize>, n: nat) -> Seq<Color> {
    Seq::new(
        n,
        |v: int|
            if visiting.contains(v as usize) {
                Color::Gray
            } else if visited.contains(v as usize) {
                Color::Black
            } else {
                Color::White
            },
    )
}

/// A white node that is put among those being visited turns gray.
proof fn lemma_shade_down(visiting: Set<usize>, visited: Set<usize>, n: nat, node: usize)
    requires
        node < n <= usize::MAX,
    ensures
        shade(visiting.insert(node), visited, n) == shade(visiting, visited, n).update(
            node as int,
            Color::Gray,
        ),
{
    assert(shade(visiting.insert(node), visited, n) =~= shade(visiting, visited, n).update(
        node as int,
        Color::Gray,
    ));
}

/// A node that is taken from those being visited and put among the visited
/// turns black.
proof fn lemma_shade_up(visiting: Set<usize>, visited: Set<usize>, n: nat, node: usize)
    requires
        node < n <= usize::MAX,
    ensures
        shade(visiting.remove(node), visited.insert(node), n) == shade(visiting, visited, n).update(
            node as int,
            Color::Black,
        ),
{
    assert(shade(visiting.remove(node), visited.insert(node), n) =~= shade(
        visiting,
        visited,
        n,
    ).update(node as int, Color::Black));
}

/// Explores what can be reached from `node`, which the search has come to
/// along the stack. Gives the cycle that it finds. Where it finds none, it
/// leaves the stack and the nodes being visited as they were, and adds to
/// the visited nodes the node and every node that it reaches through white
/// nodes, and no other.
fn dfs(
    node: usize,
    stack: &mut Vec<usize>,
    visiting: &mut HashSet<usize>,
    visited: &mut HashSet<usize>,
    deps: &NodeDependencies,
    Ghost(depth): Ghost<nat>,
) -> (r: Option<Vec<usize>>)
    requires
        node < deps@.len(),
        forall|v: usize|
            v < deps@.len() ==> (old(visiting)@.contains(v) <==> on_stack(old(stack)@, v as int)),
        whites(shade(old(visiting)@, old(visited)@, deps@.len())) <= depth,
    ensures
        (path_view(r), shade(final(visiting)@, final(visited)@, deps@.len())) == spec_visit(
            deps.deep_view(),
            shade(old(visiting)@, old(visited)@, deps@.len()),
            ints(old(stack)@),
            node as int,
            depth,
        ),
        r is None ==> {
            &&& final(stack)@ == old(stack)@
            &&& final(visiting)@ == old(visiting)@
            &&& !final(visiting)@.contains(node)
            &&& final(visited)@.contains(node)
            &&& forall|v: usize| old(visited)@.contains(v) ==> final(visited)@.contains(v)
            &&& forall|v: usize|
                final(visited)@.contains(v) && !old(visited)@.contains(v) ==> v < deps@.len()
                    && reaches_through_white(
                    deps.deep_view(),
                    shade(old(visiting)@, old(visited)@, deps@.len()),
                    node as int,
                    v as int,
                )
            &&& forall|u: usize, k: int|
                final(visited)@.contains(u) && !old(visited)@.contains(u) && u < deps@.len() && 0
                    <= k < deps.deep_view()[u as int].len() && 0 <= (
                #[trigger] deps.deep_view()[u as int][k]).to < deps@.len()
                    ==> final(visited)@.contains(deps.deep_view()[u as int][k].to as usize)
            &&& forall|v: usize|
                final(visited)@.contains(v) <==> old(visited)@.contains(v) || v == node
                    || reaches_unvisited(deps.deep_view(), old(visited)@, node as int, v as int)
        },
        search_inv(
            deps.deep_view(),
            old(stack)@,
            shade(old(visiting)@, old(visited)@, deps@.len()),
        ) && (old(stack)@.len() > 0 ==> has_edge(
            deps.deep_view(),
            old(stack)@.last() as int,
            node as int,
        )) ==> match r {
            Some(path) => is_cycle(deps.deep_view(), ints(path@)) && path@.no_duplicates(),
            None => search_inv(
                deps.deep_view(),
                final(stack)@,
                shade(final(visiting)@, final(visited)@, deps@.len()),
            ),
        },
    decreases depth,
{
    let count = deps.len();
    let ghost dv = deps.deep_view();
    let ghost n = dv.len();
    let ghost stack0 = stack@;
    let ghost visiting0 = visiting@;
    let ghost visited0 = visited@;
    let ghost colors0 = shade(visiting0, visited0, n);
    let ghost guided = search_inv(dv, stack0, colors0) && (stack0.len() > 0 ==> has_edge(
        dv,
        stack0.last() as int,
        node as int,
    ));
    if visiting.contains(&node) {
        proof {
            assert(colors0[node as int] is Gray);
            assert(on_stack(stack@, node as int));
            let at = choose|at: int| 0 <= at < stack@.len() && #[trigger] stack@[at] == node;
            assert(stack@[at] == node);
        }
        let path = cycle_from(stack, node);
        proof {
            let pos = choose|pos: int|
                0 <= pos < stack@.len() && stack@[pos] == node && path@ == stack@.subrange(
                    pos,
                    stack@.len() as int,
                ) && forall|j: int| 0 <= j < pos ==> stack@[j] != node;
            assert(ints(path@) =~= ints(stack@).skip(pos));
            assert(is_node(node as int)(ints(stack@)[pos]));
            assert forall|j: int| 0 <= j < pos implies !is_node(node as int)(
                #[trigger] ints(stack@)[j],
            ) by {
                assert(stack@[j] != node);
            }
            lemma_first_where_at(ints(stack@), is_node(node as int), pos);
            if guided {
                lemma_stack_tail_is_cycle(dv, stack@, pos, path@);
            }
        }
        return Some(path);
    }
    if visited.contains(&node) {
        proof {
            assert(colors0[node as int] is Black);
            assert forall|v: usize|
                reaches_unvisited(dv, visited0, node as int, v as int) implies visited0.contains(
                v,
            ) by {
                let p = choose|p: Seq<int>|
                    p.len() > 0 && p[0] == node as int && p.last() == v as int && is_path(dv, p)
                        && forall|i: int|
                        0 <= i < p.len() ==> !visited0.contains(#[trigger] p[i] as usize);
                assert(!visited0.contains(p[0] as usize));
            }
        }
        return None;
    }
    proof {
        assert(colors0[node as int] is White);
        lemma_whites_shrink(colors0, colors0.update(node as int, Color::Gray));
        lemma_shade_down(visiting0, visited0, n, node);
        if guided {
            lemma_down_keeps_inv(dv, stack0, colors0, node);
        }
    }
    visiting.insert(node);
    stack.push(node);
    proof {
        assert(ints(stack@) =~= ints(stack0).push(node as int));
        assert(visiting@ =~= visiting0.insert(node));
    }
    let mut k: usize = 0;
    while k < deps[node].len()
        invariant
            dv == deps.deep_view(),
            n == dv.len(),
            n == count,
            node < n,
            k <= deps@[node as int]@.len(),
            depth > 0,
            stack0 == old(stack)@,
            visiting0 == old(visiting)@,
            visited0 == old(visited)@,
            colors0 == shade(visiting0, visited0, n),
            guided == (search_inv(dv, stack0, colors0) && (stack0.len() > 0 ==> has_edge(
                dv,
                stack0.last() as int,
                node as int,
            ))),
            stack@ == stack0.push(node),
            visiting@ == visiting0.insert(node),
            !visiting0.contains(node),
            !visited0.contains(node),
            forall|v: usize| v < n ==> (visiting0.contains(v) <==> on_stack(stack0, v as int)),
            whites(shade(visiting@, visited@, n)) <= depth - 1,
            guided ==> search_inv(dv, stack@, shade(visiting@, visited@, n)),
            forall|v: usize| visited0.contains(v) ==> visited@.contains(v),
            forall|v: usize|
                visited@.contains(v) && !visited0.contains(v) ==> v < n && reaches_through_white(
                    dv,
                    colors0,
                    node as int,
                    v as int,
                ),
            forall|u: usize, e: int|
                visited@.contains(u) && !visited0.contains(u) && u < n && 0 <= e
                    < dv[u as int].len() && 0 <= (#[trigger] dv[u as int][e]).to < n
                    ==> visited@.contains(dv[u as int][e].to as usize),
            forall|j: int|
                0 <= j < k && 0 <= (#[trigger] dv[node as int][j]).to < n ==> visited@.contains(
                    dv[node as int][j].to as usize,
                ) && !visiting@.contains(dv[node as int][j].to as usize),
            spec_visit(dv, colors0, ints(stack0), node as int, depth) == spec_visit_edges(
                dv,
                shade(visiting@, visited@, n),
                ints(stack@),
                node as int,
                k as nat,
                (depth - 1) as nat,
            ),
        decreases deps@[node as int]@.len() - k,
    {
        let next = deps[node][k].to;
        let ghost stack1 = stack@;
        let ghost visiting1 = visiting@;
        let ghost visited1 = visited@;
        let ghost colors1 = shade(visiting1, visited1, n);
        proof {
            assert(dv[node as int][k as int].to == next);
            assert(dv[node as int].len() == deps@[node as int]@.len());
        }
        if next < count {
            proof {
                assert(has_target(dv[node as int], next as int));
                assert(stack1.last() == node);
                assert(has_edge(dv, stack1.last() as int, next as int));
                assert forall|v: usize| v < n implies (visiting1.contains(v) <==> on_stack(
                    stack1,
                    v as int,
                )) by {
                    if v == node {
                        assert(stack1[stack0.len() as int] == node);
                    } else if on_stack(stack1, v as int) {
                        let at = choose|at: int|
                            0 <= at < stack1.len() && #[trigger] stack1[at] == v as int;
                        assert(stack0[at] == v);
                        assert(on_stack(stack0, v as int));
                    } else if on_stack(stack0, v as int) {
                        let at = choose|at: int|
                            0 <= at < stack0.len() && #[trigger] stack0[at] == v as int;
                        assert(stack1[at] == v);
                        assert(on_stack(stack1, v as int));
                    }
                }
            }
            match dfs(next, stack, visiting, visited, deps, Ghost((depth - 1) as nat)) {
                Some(cycle) => {
                    proof {
                        assert(spec_visit_edges(
                            dv,
                            colors1,
                            ints(stack1),
                            node as int,
                            k as nat,
                            (depth - 1) as nat,
                        ) == spec_visit(dv, colors1, ints(stack1), next as int, (depth - 1) as nat));
                    }
                    return Some(cycle);
                },
                None => {
                    proof {
                        let colors = shade(visiting@, visited@, n);
                        assert forall|v: int| 0 <= v < n && colors[v] is White implies colors1[v]
                            is White by {}
                        lemma_whites_shrink(colors1, colors);
                        assert forall|v: int| 0 <= v < n && colors1[v] is White implies colors0[v]
                            is White by {}
                        assert forall|v: usize|
                            visited@.contains(v) && !visited0.contains(v) implies v < n
                            && reaches_through_white(dv, colors0, node as int, v as int) by {
                            if !visited1.contains(v) {
                                lemma_reaches_over_edge(
                                    dv,
                                    colors0,
                                    colors1,
                                    node as int,
                                    next as int,
                                    v as int,
                                );
                            }
                        }
                    }
                },
            }
        }
        k += 1;
    }
    stack.pop();
    let ghost visiting2 = visiting@;
    let ghost visited2 = visited@;
    visiting.remove(&node);
    visited.insert(node);
    proof {
        assert(stack@ =~= stack0);
        assert(visiting@ =~= visiting0);
        assert(dv[node as int].len() == deps@[node as int]@.len());
        lemma_shade_up(visiting2, visited2, n, node);
        lemma_reaches_itself(dv, colors0, node as int);
        lemma_reached_is_visited(dv, visited0, visited@, node);
        assert forall|v: usize|
            visited@.contains(v) <==> visited0.contains(v) || v == node || reaches_unvisited(
                dv,
                visited0,
                node as int,
                v as int,
            ) by {
            lemma_white_is_unvisited(dv, visiting0, visited0, node as int, v as int);
        }
        if guided {
            lemma_up_keeps_inv(dv, stack0, shade(visiting2, visited2, n), node);
        }
    }
    None
}

/// Searches the graph for a cycle: from each node in the order of the
/// indices, depth first, along the edges of a node in the order of its
/// adjacency entry. Gives the cycle that the search closes first: its
/// nodes, each once, in the order in which its edges lead from each to the
/// next and from the last back to the first. Gives nothing where the graph
/// has no cycle. The graph is that of the adjacency list: it has a node for
/// each entry, and an edge that leads to no entry is no edge of it.
pub fn detect_cycles(nodes: &[Node], node_dependencies: &NodeDependencies) -> (r: Option<Vec<usize>>)
    ensures
        path_view(r) == spec_search(node_dependencies.deep_view()),
        match r {
            Some(path) => is_cycle(node_dependencies.deep_view(), ints(path@))
                && path@.no_duplicates(),
            None => !spec_has_cycle(node_dependencies.deep_view()),
        },
{
    let ghost dv = node_dependencies.deep_view();
    let n = node_dependencies.len();
    let mut visited: HashSet<usize> = HashSet::new();
    proof {
        let none = Set::<usize>::empty();
        let rank = Seq::new(n as nat, |i: int| 0int);
        assert(ranked(dv, shade(none, visited@, n as nat), rank));
        assert(shade(none, visited@, n as nat) =~= Seq::new(dv.len(), |i: int| Color::White));
        assert(Seq::<usize>::empty().no_duplicates());
    }
    let mut root: usize = 0;
    while root < n
        invariant
            dv == node_dependencies.deep_view(),
            n == dv.len(),
            root <= n,
            search_inv(dv, Seq::<usize>::empty(), shade(Set::<usize>::empty(), visited@, n as nat)),
            forall|v: usize| v < root ==> visited@.contains(v),
            spec_search(dv) == spec_search_from(
                dv,
                shade(Set::<usize>::empty(), visited@, n as nat),
                root as nat,
            ),
        decreases n - root,
    {
        let mut visiting: HashSet<usize> = HashSet::new();
        let mut stack: Vec<usize> = Vec::new();
        proof {
            assert(visiting@ =~= Set::<usize>::empty());
            lemma_whites_bound(shade(visiting@, visited@, n as nat));
            assert(ints(stack@) =~= Seq::<int>::empty());
        }
        match dfs(root, &mut stack, &mut visiting, &mut visited, node_dependencies, Ghost(n as nat)) {
            Some(cycle) => {
                return Some(cycle);
            },
            None => {},
        }
        root += 1;
    }
    proof {
        let colors = shade(Set::<usize>::empty(), visited@, n as nat);
        let rank = choose|rank: Seq<int>| ranked(dv, colors, rank);
        assert forall|u: int, k: int|
            0 <= u < dv.len() && 0 <= k < dv[u].len() && 0 <= (#[trigger] dv[u][k]).to
                < dv.len() implies rank[dv[u][k].to] < rank[u] by {
            assert(colors[u] is Black);
        }
        lemma_ranked_graph_is_acyclic(dv, rank);
    }
    None
}

/// Whether the graph has a cycle.
pub fn has_cycle(nodes: &[Node], node_dependencies: &NodeDependencies) -> (r: bool)
    ensures
        r == spec_has_cycle(node_dependencies.deep_view()),
{
    detect_cycles(nodes, node_dependencies).is_some()
}

/// The names of the nodes of a path, each followed by an arrow.
pub open spec fn spec_steps(nodes: Seq<NodeView>, path: Seq<int>) -> Seq<char>
    decreases path.len(),
{
    if path.len() == 0 {
        Seq::empty()
    } else {
        spec_steps(nodes, path.drop_last()) + nodes[path.last()].name + " -> "@
    }
}

/// The trace of a cycle: the names of its nodes in order, with arrows
/// between them, and the name of the first node once more at the end.
pub open spec fn spec_cycle_trace(nodes: Seq<NodeView>, cycle: Seq<int>) -> Option<Seq<char>> {
    if cycle.len() > 0 && forall|i: int| 0 <= i < cycle.len() ==> 0 <= #[trigger] cycle[i] < nodes.len() {
        Some(spec_steps(nodes, cycle) + nodes[cycle[0]].name)
    } else {
        None
    }
}

/// Writes a cycle down for a reader: the names of its nodes in order, with
/// arrows between them, back to the first. There is no trace of an empty
/// path or of one that names a node that is not in the list.
pub fn cycle_trace(nodes: &[Node], cycle: &Vec<usize>) -> (r: Option<String>)
    ensures
        r.deep_view() == spec_cycle_trace(nodes.deep_view(), ints(cycle@)),
{
    let ghost views = nodes.deep_view();
    let ghost path = ints(cycle@);
    if cycle.len() == 0 {
        return None;
    }
    let mut trace = String::new();
    let mut i: usize = 0;
    while i < cycle.len()
        invariant
            i <= cycle@.len(),
            views == nodes.deep_view(),
            path == ints(cycle@),
            forall|j: int| 0 <= j < i ==> 0 <= #[trigger] path[j] < views.len(),
            trace@ == spec_steps(views, path.take(i as int)),
        decreases cycle@.len() - i,
    {
        if cycle[i] >= nodes.len() {
            assert(!(path[i as int] < views.len()));
            return None;
        }
        proof {
            assert(path.take(i as int + 1).drop_last() =~= path.take(i as int));
        }
        trace.append(nodes[cycle[i]].name.as_str());
        trace.append(" -> ");
        i += 1;
    }
    proof {
        assert(path.take(i as int) =~= path);
    }
    trace.append(nodes[cycle[0]].name.as_str());
    Some(trace)
}

} // verus!
