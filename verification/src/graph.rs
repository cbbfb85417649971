//! The graph that every analysis produces: a list of nodes, and for each
//! node the list of its outgoing edges, which name their targets by index.

use vstd::prelude::*;
use vstd::string::StringExecFns;
use crate::seqs::{first_where, lemma_first_where, lemma_first_where_at, lemma_first_where_push};
use crate::text::str_eq;

verus! {

/// A discovered unit: a project file or a namespace.
#[derive(Debug, Clone)]
pub struct Node {
    /// What identifies the node within one analysis: the path of a project
    /// file, or the qualified name of a namespace.
    pub id: String,
    /// The name under which the node is shown.
    pub name: String,
    /// The layer that the node was classified into, or `unknown`.
    pub layer: String,
    /// The kind of unit: `project`, `namespace`, or `layer` in a legend.
    pub node_type: String,
    /// The color in which the node is shown.
    pub color: String,
}

/// What a `Node` holds.
pub struct NodeView {
    pub id: Seq<char>,
    pub name: Seq<char>,
    pub layer: Seq<char>,
    pub node_type: Seq<char>,
    pub color: Seq<char>,
}

impl DeepView for Node {
    type V = NodeView;

    open spec fn deep_view(&self) -> NodeView {
        NodeView {
            id: self.id@,
            name: self.name@,
            layer: self.layer@,
            node_type: self.node_type@,
            color: self.color@,
        }
    }
}

/// A dependency on the node at index `to`, with the verdict of the rules.
#[derive(Debug, Clone)]
pub struct EdgeInfo {
    /// Index of the node that is depended on.
    pub to: usize,
    /// Whether the rules let the source's layer depend on the target's.
    pub allowed: bool,
    /// The names of both nodes with an arrow between them.
    pub label: String,
}

/// What an `EdgeInfo` holds.
pub struct EdgeView {
    pub to: int,
    pub allowed: bool,
    pub label: Seq<char>,
}

impl DeepView for EdgeInfo {
    type V = EdgeView;

    open spec fn deep_view(&self) -> EdgeView {
        EdgeView { to: self.to as int, allowed: self.allowed, label: self.label@ }
    }
}

/// The outgoing edges of one node.
pub type EdgesInfo = Vec<EdgeInfo>;

/// The outgoing edges of every node, by the node's index.
pub type NodeDependencies = Vec<EdgesInfo>;

/// The test that a node has the given id.
pub open spec fn has_id(id: Seq<char>) -> spec_fn(NodeView) -> bool {
    |n: NodeView| n.id == id
}

/// Index of the first node with the given id.
pub open spec fn index_of(nodes: Seq<NodeView>, id: Seq<char>) -> Option<int> {
    first_where(nodes, has_id(id))
}

/// No two nodes share an id.
pub open spec fn unique_ids(nodes: Seq<NodeView>) -> bool {
    forall|i: int, j: int| 0 <= i < j < nodes.len() ==> nodes[i].id != nodes[j].id
}

/// The node list after a candidate was interned, and the candidate's index:
/// a candidate whose id is known leaves the list as it is.
pub open spec fn spec_intern(nodes: Seq<NodeView>, candidate: NodeView) -> (Seq<NodeView>, int) {
    match index_of(nodes, candidate.id) {
        Some(i) => (nodes, i),
        None => (nodes.push(candidate), nodes.len() as int),
    }
}

/// Whether a list of edges holds one to the given node.
pub open spec fn has_target(edges: Seq<EdgeView>, to: int) -> bool {
    exists|k: int| 0 <= k < edges.len() && (#[trigger] edges[k]).to == to
}

/// There is an adjacency entry for each of `n` nodes, and every edge leads
/// to one of them.
pub open spec fn edges_valid(deps: Seq<Seq<EdgeView>>, n: nat) -> bool {
    &&& deps.len() == n
    &&& forall|i: int, k: int|
        0 <= i < deps.len() && 0 <= k < deps[i].len() ==> 0 <= (#[trigger] deps[i][k]).to < n
}

/// No adjacency entry holds two edges to the same node.
pub open spec fn no_duplicate_edges(deps: Seq<Seq<EdgeView>>) -> bool {
    forall|i: int, k: int, l: int|
        0 <= i < deps.len() && 0 <= k < l < deps[i].len() ==> (#[trigger] deps[i][k]).to != (
        #[trigger] deps[i][l]).to
}

/// Whether `spec_add_edge` adds the edge: both ends exist and the source has
/// no edge to the target yet.
pub open spec fn edge_is_new(deps: Seq<Seq<EdgeView>>, from: int, to: int) -> bool {
    0 <= from < deps.len() && 0 <= to < deps.len() && !has_target(deps[from], to)
}

/// The adjacency list after an edge was added: it goes to the end of the
/// source's entry, unless one of its ends does not exist or the source
/// already has an edge to the target.
pub open spec fn spec_add_edge(deps: Seq<Seq<EdgeView>>, from: int, edge: EdgeView) -> Seq<
    Seq<EdgeView>,
> {
    if edge_is_new(deps, from, edge.to) {
        deps.update(from, deps[from].push(edge))
    } else {
        deps
    }
}

/// The label of an edge: the source's name, an arrow, the target's name.
pub open spec fn spec_label(from: Seq<char>, to: Seq<char>) -> Seq<char> {
    from + " -> "@ + to
}

/// Builds the label of an edge between two named nodes.
pub fn edge_label(from_name: &str, to_name: &str) -> (r: String)
    ensures
        r@ == spec_label(from_name@, to_name@),
{
    let mut label = from_name.to_owned();
    label.append(" -> ");
    label.append(to_name);
    label
}

/// Index of the first node with the given id.
pub fn find_node(nodes: &[Node], id: &str) -> (r: Option<usize>)
    ensures
        match r {
            Some(i) => i < nodes@.len() && index_of(nodes.deep_view(), id@) == Some(i as int),
            None => index_of(nodes.deep_view(), id@) is None,
        },
{
    let ghost views = nodes.deep_view();
    let mut i: usize = 0;
    while i < nodes.len()
        invariant
            i <= nodes@.len(),
            views == nodes.deep_view(),
            forall|j: int| 0 <= j < i ==> !has_id(id@)(#[trigger] views[j]),
        decreases nodes@.len() - i,
    {
        if str_eq(nodes[i].id.as_str(), id) {
            proof {
                lemma_first_where_at(views, has_id(id@), i as int);
            }
            return Some(i);
        }
        i += 1;
    }
    proof {
        lemma_first_where(views, has_id(id@));
    }
    None
}

/// Interns a candidate: gives the index of the node with the candidate's id,
/// adding the candidate at the end of the list where no node has that id.
pub fn intern_node(nodes: &mut Vec<Node>, candidate: Node) -> (r: usize)
    ensures
        (final(nodes).deep_view(), r as int) == spec_intern(
            old(nodes).deep_view(),
            candidate.deep_view(),
        ),
        r < final(nodes)@.len(),
        final(nodes)@ == old(nodes)@ || final(nodes)@ == old(nodes)@.push(candidate),
        unique_ids(old(nodes).deep_view()) ==> unique_ids(final(nodes).deep_view()),
{
    let ghost before = nodes.deep_view();
    match find_node(nodes.as_slice(), candidate.id.as_str()) {
        Some(i) => i,
        None => {
            let i = nodes.len();
            nodes.push(candidate);
            proof {
                assert(nodes.deep_view() =~= before.push(candidate.deep_view()));
                lemma_first_where(before, has_id(candidate.id@));
                assert forall|a: int, b: int| 0 <= a < b < nodes@.len() && unique_ids(
                    before,
                ) implies nodes.deep_view()[a].id != nodes.deep_view()[b].id by {}
            }
            i
        },
    }
}

/// Whether a list of edges holds one to the given node.
pub fn has_edge_to(edges: &[EdgeInfo], to: usize) -> (r: bool)
    ensures
        r == has_target(edges.deep_view(), to as int),
{
    let ghost views = edges.deep_view();
    let mut k: usize = 0;
    while k < edges.len()
        invariant
            k <= edges@.len(),
            views == edges.deep_view(),
            forall|j: int| 0 <= j < k ==> (#[trigger] views[j]).to != to,
        decreases edges@.len() - k,
    {
        if edges[k].to == to {
            assert(views[k as int].to == to);
            return true;
        }
        k += 1;
    }
    false
}

/// Adds an edge to the adjacency entry of `from_index`, and says whether it
/// did. Nothing is added where either index is not that of an entry, or
/// where the entry already holds an edge to `to_index`.
pub fn add_edge(
    deps: &mut NodeDependencies,
    from_index: usize,
    to_index: usize,
    allowed: bool,
    label: String,
) -> (r: bool)
    ensures
        r == edge_is_new(old(deps).deep_view(), from_index as int, to_index as int),
        final(deps).deep_view() == spec_add_edge(
            old(deps).deep_view(),
            from_index as int,
            (EdgeView { to: to_index as int, allowed, label: label@ }),
        ),
        final(deps)@.len() == old(deps)@.len(),
{
    let ghost before = deps.deep_view();
    if from_index >= deps.len() || to_index >= deps.len() {
        return false;
    }
    if has_edge_to(deps[from_index].as_slice(), to_index) {
        return false;
    }
    let edge = EdgeInfo { to: to_index, allowed, label };
    deps[from_index].push(edge);
    proof {
        assert(deps.deep_view() =~= before.update(
            from_index as int,
            before[from_index as int].push(edge.deep_view()),
        )) by {
            assert forall|i: int| 0 <= i < before.len() implies #[trigger] deps.deep_view()[i]
                == before.update(
                from_index as int,
                before[from_index as int].push(edge.deep_view()),
            )[i] by {}
        }
    }
    true
}

/// An adjacency list for `n` nodes without any edge.
pub open spec fn no_edges(n: nat) -> Seq<Seq<EdgeView>> {
    Seq::new(n, |i: int| Seq::<EdgeView>::empty())
}

/// An adjacency list for `n` nodes without any edge.
pub fn empty_dependencies(n: usize) -> (r: NodeDependencies)
    ensures
        r.deep_view() == no_edges(n as nat),
        edges_valid(r.deep_view(), n as nat),
        no_duplicate_edges(r.deep_view()),
{
    let mut deps: NodeDependencies = Vec::new();
    while deps.len() < n
        invariant
            deps@.len() <= n,
            forall|i: int| 0 <= i < deps@.len() ==> (#[trigger] deps@[i])@.len() == 0,
        decreases n - deps@.len(),
    {
        deps.push(Vec::new());
    }
    proof {
        assert forall|i: int| 0 <= i < n implies #[trigger] deps.deep_view()[i] == no_edges(
            n as nat,
        )[i] by {}
    }
    deps
}

/// The edge between two nodes of a list, labelled with their names.
pub open spec fn spec_edge(nodes: Seq<NodeView>, from: int, to: int, allowed: bool) -> EdgeView {
    EdgeView { to, allowed, label: spec_label(nodes[from].name, nodes[to].name) }
}

/// The adjacency list after two nodes of a list were connected: the edge,
/// labelled with their names, is added as `spec_add_edge` says, unless one of
/// the two is no node of the list.
pub open spec fn spec_connect(
    nodes: Seq<NodeView>,
    deps: Seq<Seq<EdgeView>>,
    from: int,
    to: int,
    allowed: bool,
) -> Seq<Seq<EdgeView>> {
    if 0 <= from < nodes.len() && 0 <= to < nodes.len() {
        spec_add_edge(deps, from, spec_edge(nodes, from, to, allowed))
    } else {
        deps
    }
}

/// Connects two nodes of a list: adds the edge between them, labelled with
/// their names, and says whether it did. Nothing is added where one of the
/// two is no node of the list, or where `add_edge` adds nothing.
pub fn connect(
    nodes: &[Node],
    deps: &mut NodeDependencies,
    from_index: usize,
    to_index: usize,
    allowed: bool,
) -> (r: bool)
    ensures
        r == (from_index < nodes@.len() && to_index < nodes@.len() && edge_is_new(
            old(deps).deep_view(),
            from_index as int,
            to_index as int,
        )),
        final(deps).deep_view() == spec_connect(
            nodes.deep_view(),
            old(deps).deep_view(),
            from_index as int,
            to_index as int,
            allowed,
        ),
        final(deps)@.len() == old(deps)@.len(),
{
    if from_index >= nodes.len() || to_index >= nodes.len() {
        return false;
    }
    let label = edge_label(nodes[from_index].name.as_str(), nodes[to_index].name.as_str());
    add_edge(deps, from_index, to_index, allowed, label)
}

/// Connecting two nodes keeps every edge within the node list and never
/// gives a node two edges to the same target.
pub proof fn lemma_connect_keeps_valid(
    nodes: Seq<NodeView>,
    deps: Seq<Seq<EdgeView>>,
    from: int,
    to: int,
    allowed: bool,
)
    ensures
        edges_valid(deps, nodes.len()) ==> edges_valid(
            spec_connect(nodes, deps, from, to, allowed),
            nodes.len(),
        ),
        no_duplicate_edges(deps) ==> no_duplicate_edges(
            spec_connect(nodes, deps, from, to, allowed),
        ),
{
    if 0 <= from < nodes.len() && 0 <= to < nodes.len() {
        let edge = spec_edge(nodes, from, to, allowed);
        if edges_valid(deps, nodes.len()) {
            lemma_add_edge_keeps_valid(deps, from, edge, nodes.len());
        }
        if no_duplicate_edges(deps) {
            lemma_add_edge_keeps_unique(deps, from, edge);
        }
    }
}

/// Whether an adjacency list fits a node list: it has an entry for each
/// node, and every edge leads to a node of the list.
pub fn check_edges(nodes: &[Node], deps: &NodeDependencies) -> (r: bool)
    ensures
        r == edges_valid(deps.deep_view(), nodes@.len() as nat),
{
    let n = nodes.len();
    if deps.len() != n {
        return false;
    }
    let ghost dv = deps.deep_view();
    let mut i: usize = 0;
    while i < n
        invariant
            i <= n,
            n == deps@.len(),
            dv == deps.deep_view(),
            forall|a: int, k: int|
                0 <= a < i && 0 <= k < dv[a].len() ==> 0 <= (#[trigger] dv[a][k]).to < n,
        decreases n - i,
    {
        let mut k: usize = 0;
        while k < deps[i].len()
            invariant
                i < n,
                n == deps@.len(),
                dv == deps.deep_view(),
                k <= deps@[i as int]@.len(),
                forall|l: int| 0 <= l < k ==> 0 <= (#[trigger] dv[i as int][l]).to < n,
            decreases deps@[i as int]@.len() - k,
        {
            if deps[i][k].to >= n {
                assert(dv[i as int][k as int].to >= n);
                return false;
            }
            k += 1;
        }
        i += 1;
    }
    true
}

/// Interning a candidate whose id is already known, be it from an earlier
/// interning of the same id, gives the index of the node that has the id and
/// leaves the list as it is.
pub proof fn lemma_intern_twice(nodes: Seq<NodeView>, candidate: NodeView, again: NodeView)
    requires
        again.id == candidate.id,
    ensures
        spec_intern(spec_intern(nodes, candidate).0, again) == spec_intern(nodes, candidate),
{
    lemma_first_where_push(nodes, has_id(candidate.id), candidate);
}

/// Interning keeps the ids of a list distinct, keeps every node that was in
/// the list at its index, and gives the index of a node with the candidate's id.
pub proof fn lemma_intern_keeps_unique(nodes: Seq<NodeView>, candidate: NodeView)
    ensures
        unique_ids(nodes) ==> unique_ids(spec_intern(nodes, candidate).0),
        nodes.len() <= spec_intern(nodes, candidate).0.len() <= nodes.len() + 1,
        forall|i: int| 0 <= i < nodes.len() ==> spec_intern(nodes, candidate).0[i] == nodes[i],
        0 <= spec_intern(nodes, candidate).1 < spec_intern(nodes, candidate).0.len(),
        spec_intern(nodes, candidate).0[spec_intern(nodes, candidate).1].id == candidate.id,
{
    lemma_first_where(nodes, has_id(candidate.id));
    let after = spec_intern(nodes, candidate).0;
    if index_of(nodes, candidate.id) is None {
        assert forall|a: int, b: int| 0 <= a < b < after.len() && unique_ids(nodes) implies after[a].id
            != after[b].id by {}
    }
}

/// Interning loses no node: an id that the list has, it still has after a
/// candidate was interned.
pub proof fn lemma_intern_keeps_ids(nodes: Seq<NodeView>, candidate: NodeView, id: Seq<char>)
    requires
        index_of(nodes, id) is Some,
    ensures
        index_of(spec_intern(nodes, candidate).0, id) is Some,
{
    lemma_first_where_push(nodes, has_id(id), candidate);
}

/// Adding an edge keeps every edge of the adjacency list within the node list.
pub proof fn lemma_add_edge_keeps_valid(
    deps: Seq<Seq<EdgeView>>,
    from: int,
    edge: EdgeView,
    n: nat,
)
    requires
        edges_valid(deps, n),
    ensures
        edges_valid(spec_add_edge(deps, from, edge), n),
{
    let after = spec_add_edge(deps, from, edge);
    if edge_is_new(deps, from, edge.to) {
        assert forall|i: int, k: int| 0 <= i < after.len() && 0 <= k < after[i].len() implies 0 <= (
        #[trigger] after[i][k]).to < n by {}
    }
}

/// Adding an edge never gives a node two edges to the same target.
pub proof fn lemma_add_edge_keeps_unique(deps: Seq<Seq<EdgeView>>, from: int, edge: EdgeView)
    requires
        no_duplicate_edges(deps),
    ensures
        no_duplicate_edges(spec_add_edge(deps, from, edge)),
{
    let after = spec_add_edge(deps, from, edge);
    if edge_is_new(deps, from, edge.to) {
        assert forall|i: int, k: int, l: int|
            0 <= i < after.len() && 0 <= k < l < after[i].len() implies (#[trigger] after[i][k]).to
            != (#[trigger] after[i][l]).to by {}
    }
}

/// After an edge between two nodes of the graph was added, the source has an
/// edge to the target, and every node has the edges that it had.
pub proof fn lemma_add_edge_adds(deps: Seq<Seq<EdgeView>>, from: int, edge: EdgeView)
    requires
        0 <= from < deps.len(),
        0 <= edge.to < deps.len(),
    ensures
        has_target(spec_add_edge(deps, from, edge)[from], edge.to),
        forall|i: int, to: int|
            0 <= i < deps.len() && has_target(deps[i], to) ==> #[trigger] has_target(
                spec_add_edge(deps, from, edge)[i],
                to,
            ),
{
    let after = spec_add_edge(deps, from, edge);
    if edge_is_new(deps, from, edge.to) {
        assert(after[from][deps[from].len() as int].to == edge.to);
        assert forall|i: int, to: int|
            0 <= i < deps.len() && has_target(deps[i], to) implies #[trigger] has_target(
            after[i],
            to,
        ) by {
            let k = choose|k: int| 0 <= k < deps[i].len() && (#[trigger] deps[i][k]).to == to;
            assert(after[i][k].to == to);
        }
    }
}

/// Adding an edge between the same two nodes a second time changes nothing,
/// whatever verdict or label the second edge carries.
pub proof fn lemma_add_edge_twice(
    deps: Seq<Seq<EdgeView>>,
    from: int,
    edge: EdgeView,
    again: EdgeView,
)
    requires
        again.to == edge.to,
    ensures
        spec_add_edge(spec_add_edge(deps, from, edge), from, again) == spec_add_edge(
            deps,
            from,
            edge,
        ),
{
    let once = spec_add_edge(deps, from, edge);
    if edge_is_new(deps, from, edge.to) {
        assert(once[from][deps[from].len() as int].to == edge.to);
    }
}

} // verus!
