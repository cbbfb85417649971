//! The text of a rendered graph: what is shown, as the display toggles ask,
//! and the Mermaid and Graphviz diagrams.

use vstd::prelude::*;
use vstd::string::StringExecFns;
use crate::config::Toggles;
use crate::graph::{EdgeInfo, EdgeView, Node, NodeDependencies, NodeView};
use crate::text::{str_eq, string_of};

verus! {

/// Whether a node is shown: one of a known layer where recognized nodes are
/// shown, one of layer `unknown` where unrecognized nodes are.
pub open spec fn spec_shows_node(toggles: Toggles, node: NodeView) -> bool {
    if node.layer == "unknown"@ {
        toggles.show_unrecognized_nodes
    } else {
        toggles.show_recognized_nodes
    }
}

/// Whether an edge is shown: an allowed one where valid dependencies are
/// shown, a violating one where invalid dependencies are.
pub open spec fn spec_shows_edge(toggles: Toggles, edge: EdgeView) -> bool {
    if edge.allowed {
        toggles.show_valid_dependencies
    } else {
        toggles.show_invalid_dependencies
    }
}

impl Toggles {
    /// Whether a rendering shows the node.
    pub fn shows_node(&self, node: &Node) -> (r: bool)
        ensures
            r == spec_shows_node(*self, node.deep_view()),
    {
        if str_eq(node.layer.as_str(), "unknown") {
            self.show_unrecognized_nodes
        } else {
            self.show_recognized_nodes
        }
    }

    /// Whether a rendering shows the edge.
    pub fn shows_edge(&self, edge: &EdgeInfo) -> (r: bool)
        ensures
            r == spec_shows_edge(*self, edge.deep_view()),
    {
        if edge.allowed {
            self.show_valid_dependencies
        } else {
            self.show_invalid_dependencies
        }
    }
}

/// The character of a decimal digit.
pub open spec fn spec_digit(d: nat) -> char {
    ((48 + d) as u8) as char
}

/// A number written in decimal digits.
pub open spec fn spec_decimal(n: nat) -> Seq<char>
    decreases n,
{
    if n < 10 {
        seq![spec_digit(n)]
    } else {
        spec_decimal(n / 10).push(spec_digit(n % 10))
    }
}

/// The digits of a number, but none for zero.
spec fn leading_digits(n: nat) -> Seq<char> {
    if n == 0 {
        Seq::empty()
    } else {
        spec_decimal(n)
    }
}

/// A sequence read from its end.
spec fn backwards(s: Seq<char>) -> Seq<char> {
    Seq::new(s.len(), |i: int| s[s.len() - 1 - i])
}

/// The character of a decimal digit.
fn digit(d: u128) -> (r: char)
    requires
        d < 10,
    ensures
        r == spec_digit(d as nat),
{
    ((48 + d) as u8) as char
}

/// Writes a number in decimal digits.
pub fn decimal(n: u128) -> (r: String)
    ensures
        r@ == spec_decimal(n as nat),
{
    let mut digits: Vec<char> = Vec::new();
    digits.push(digit(n % 10));
    let mut rest: u128 = n / 10;
    while rest > 0
        invariant
            spec_decimal(n as nat) == leading_digits(rest as nat) + backwards(digits@),
        decreases rest,
    {
        let ghost before = digits@;
        digits.push(digit(rest % 10));
        proof {
            assert(leading_digits(rest as nat) + backwards(before) =~= leading_digits(
                (rest / 10) as nat,
            ) + backwards(digits@));
        }
        rest = rest / 10;
    }
    let mut out: Vec<char> = Vec::new();
    let mut i: usize = digits.len();
    while i > 0
        invariant
            i <= digits@.len(),
            out@.len() == digits@.len() - i,
            forall|j: int| 0 <= j < out@.len() ==> out@[j] == digits@[digits@.len() - 1 - j],
        decreases i,
    {
        i -= 1;
        out.push(digits[i]);
    }
    string_of(&out)
}

/// The parts for the indices below `count`, one after the other.
pub open spec fn concat_upto(count: nat, part: spec_fn(int) -> Seq<char>) -> Seq<char>
    decreases count,
{
    if count == 0 {
        Seq::empty()
    } else {
        concat_upto((count - 1) as nat, part) + part(count - 1)
    }
}

/// The name by which a diagram refers to the node at an index: a tag and
/// the index counted from one.
pub open spec fn spec_node_ref(tag: Seq<char>, index: int) -> Seq<char> {
    tag + spec_decimal((index + 1) as nat)
}

/// Writes the name by which a diagram refers to the node at an index.
pub fn node_ref(tag: &str, index: usize) -> (r: String)
    ensures
        r@ == spec_node_ref(tag@, index as int),
{
    let mut name = tag.to_owned();
    let number = decimal(index as u128 + 1);
    name.append(number.as_str());
    name
}

/// The line that declares a node in a Mermaid diagram.
pub open spec fn mermaid_node_line(index: int, node: NodeView) -> Seq<char> {
    "    "@ + spec_node_ref("P"@, index) + "[\""@ + node.name + "\"]\n"@
}

/// The line of each node of a Mermaid diagram.
pub open spec fn mermaid_node_part(nodes: Seq<NodeView>) -> spec_fn(int) -> Seq<char> {
    |i: int| mermaid_node_line(i, nodes[i])
}

/// The line that declares a node in a Graphviz diagram.
pub open spec fn graphviz_node_line(tag: Seq<char>, index: int, node: NodeView) -> Seq<char> {
    "    "@ + spec_node_ref(tag, index) + " [label=\""@ + node.name
        + "\", style=filled, fillcolor=\""@ + node.color + "\"]\n"@
}

/// The line of each node of a Graphviz diagram: none for a node that the
/// toggles, where there are any, do not show.
pub open spec fn graphviz_node_part(
    nodes: Seq<NodeView>,
    tag: Seq<char>,
    toggles: Option<Toggles>,
) -> spec_fn(int) -> Seq<char> {
    |i: int|
        if toggles matches Some(t) && !spec_shows_node(t, nodes[i]) {
            Seq::empty()
        } else {
            graphviz_node_line(tag, i, nodes[i])
        }
}

/// The line of an edge: both ends by their names in the diagram with the
/// arrow between them, and the mark of a violation after an edge that is
/// not allowed.
pub open spec fn edge_line(
    tag: Seq<char>,
    arrow: Seq<char>,
    mark: Seq<char>,
    from: int,
    edge: EdgeView,
) -> Seq<char> {
    "    "@ + spec_node_ref(tag, from) + arrow + spec_node_ref(tag, edge.to) + (if edge.allowed {
        Seq::empty()
    } else {
        mark
    }) + "\n"@
}

/// The line of an edge as it is shown: none for an edge that the toggles,
/// where there are any, do not show.
pub open spec fn shown_edge_line(
    tag: Seq<char>,
    arrow: Seq<char>,
    mark: Seq<char>,
    toggles: Option<Toggles>,
    from: int,
    edge: EdgeView,
) -> Seq<char> {
    if toggles matches Some(t) && !spec_shows_edge(t, edge) {
        Seq::empty()
    } else {
        edge_line(tag, arrow, mark, from, edge)
    }
}

/// The line of each edge of one node, as it is shown.
pub open spec fn edge_part(
    edges: Seq<EdgeView>,
    tag: Seq<char>,
    arrow: Seq<char>,
    mark: Seq<char>,
    toggles: Option<Toggles>,
    from: int,
) -> spec_fn(int) -> Seq<char> {
    |k: int| shown_edge_line(tag, arrow, mark, toggles, from, edges[k])
}

/// The lines of the edges of each node.
pub open spec fn edges_part(
    deps: Seq<Seq<EdgeView>>,
    tag: Seq<char>,
    arrow: Seq<char>,
    mark: Seq<char>,
    toggles: Option<Toggles>,
) -> spec_fn(int) -> Seq<char> {
    |i: int| concat_upto(deps[i].len(), edge_part(deps[i], tag, arrow, mark, toggles, i))
}

/// The lines of all edges, node by node.
pub open spec fn spec_edge_lines(
    deps: Seq<Seq<EdgeView>>,
    tag: Seq<char>,
    arrow: Seq<char>,
    mark: Seq<char>,
    toggles: Option<Toggles>,
) -> Seq<char> {
    concat_upto(deps.len(), edges_part(deps, tag, arrow, mark, toggles))
}

/// Writes the lines that declare the nodes of a Mermaid diagram.
pub fn mermaid_nodes(nodes: &[Node]) -> (r: String)
    ensures
        r@ == concat_upto(nodes@.len(), mermaid_node_part(nodes.deep_view())),
{
    let ghost part = mermaid_node_part(nodes.deep_view());
    let mut out = String::new();
    let mut i: usize = 0;
    while i < nodes.len()
        invariant
            i <= nodes@.len(),
            part == mermaid_node_part(nodes.deep_view()),
            out@ == concat_upto(i as nat, part),
        decreases nodes@.len() - i,
    {
        let name = node_ref("P", i);
        out.append("    ");
        out.append(name.as_str());
        out.append("[\"");
        out.append(nodes[i].name.as_str());
        out.append("\"]\n");
        i += 1;
    }
    out
}

/// Writes the lines that declare the nodes of a Graphviz diagram, but for
/// those that the toggles, where there are any, do not show.
pub fn graphviz_nodes(nodes: &[Node], tag: &str, toggles: Option<Toggles>) -> (r: String)
    ensures
        r@ == concat_upto(nodes@.len(), graphviz_node_part(nodes.deep_view(), tag@, toggles)),
{
    let ghost part = graphviz_node_part(nodes.deep_view(), tag@, toggles);
    let mut out = String::new();
    let mut i: usize = 0;
    while i < nodes.len()
        invariant
            i <= nodes@.len(),
            part == graphviz_node_part(nodes.deep_view(), tag@, toggles),
            out@ == concat_upto(i as nat, part),
        decreases nodes@.len() - i,
    {
        let shown = match toggles {
            Some(t) => t.shows_node(&nodes[i]),
            None => true,
        };
        if shown {
            let name = node_ref(tag, i);
            out.append("    ");
            out.append(name.as_str());
            out.append(" [label=\"");
            out.append(nodes[i].name.as_str());
            out.append("\", style=filled, fillcolor=\"");
            out.append(nodes[i].color.as_str());
            out.append("\"]\n");
        }
        i += 1;
    }
    out
}

/// Writes the line of one edge, unless the toggles, where there are any, do
/// not show the edge.
fn push_edge_line(
    out: &mut String,
    tag: &str,
    arrow: &str,
    mark: &str,
    toggles: Option<Toggles>,
    from: usize,
    edge: &EdgeInfo,
)
    ensures
        final(out)@ == old(out)@ + shown_edge_line(
            tag@,
            arrow@,
            mark@,
            toggles,
            from as int,
            edge.deep_view(),
        ),
{
    let ghost before = out@;
    let shown = match toggles {
        Some(t) => t.shows_edge(edge),
        None => true,
    };
    if shown {
        let source = node_ref(tag, from);
        let target = node_ref(tag, edge.to);
        out.append("    ");
        out.append(source.as_str());
        out.append(arrow);
        out.append(target.as_str());
        if !edge.allowed {
            out.append(mark);
        }
        out.append("\n");
    }
    proof {
        assert(out@ =~= before + shown_edge_line(
            tag@,
            arrow@,
            mark@,
            toggles,
            from as int,
            edge.deep_view(),
        ));
    }
}

/// Writes the lines of the edges of a diagram, node by node, but for those
/// that the toggles, where there are any, do not show. An edge that is not
/// allowed gets the mark after it.
pub fn edge_lines(
    deps: &NodeDependencies,
    tag: &str,
    arrow: &str,
    mark: &str,
    toggles: Option<Toggles>,
) -> (r: String)
    ensures
        r@ == spec_edge_lines(deps.deep_view(), tag@, arrow@, mark@, toggles),
{
    let ghost dv = deps.deep_view();
    let ghost all = edges_part(dv, tag@, arrow@, mark@, toggles);
    let mut out = String::new();
    let mut i: usize = 0;
    while i < deps.len()
        invariant
            i <= deps@.len(),
            dv == deps.deep_view(),
            all == edges_part(dv, tag@, arrow@, mark@, toggles),
            out@ == concat_upto(i as nat, all),
        decreases deps@.len() - i,
    {
        let ghost before = out@;
        let ghost part = edge_part(dv[i as int], tag@, arrow@, mark@, toggles, i as int);
        let mut k: usize = 0;
        while k < deps[i].len()
            invariant
                i < deps@.len(),
                k <= deps@[i as int]@.len(),
                dv == deps.deep_view(),
                part == edge_part(dv[i as int], tag@, arrow@, mark@, toggles, i as int),
                out@ == before + concat_upto(k as nat, part),
            decreases deps@[i as int]@.len() - k,
        {
            push_edge_line(&mut out, tag, arrow, mark, toggles, i, &deps[i][k]);
            proof {
                assert(before + concat_upto(k as nat, part) + part(k as int) =~= before + (
                concat_upto(k as nat, part) + part(k as int)));
            }
            k += 1;
        }
        i += 1;
    }
    out
}

/// A Mermaid diagram of the graph: a line for each node, then a line for
/// each edge.
pub open spec fn spec_mermaid_diagram(nodes: Seq<NodeView>, deps: Seq<Seq<EdgeView>>) -> Seq<char> {
    "```mermaid\ngraph TD;\n"@ + concat_upto(nodes.len(), mermaid_node_part(nodes))
        + spec_edge_lines(deps, "P"@, " --> "@, Seq::empty(), None) + "```\n"@
}

/// Writes a Mermaid diagram of the graph.
pub fn generate_mermaid_diagram(nodes: &[Node], node_dependencies: &NodeDependencies) -> (r: String)
    ensures
        r@ == spec_mermaid_diagram(nodes.deep_view(), node_dependencies.deep_view()),
{
    let declared = mermaid_nodes(nodes);
    let linked = edge_lines(node_dependencies, "P", " --> ", "", None);
    let mut out = "```mermaid\ngraph TD;\n".to_owned();
    out.append(declared.as_str());
    out.append(linked.as_str());
    out.append("```\n");
    proof {
        assert(""@ =~= Seq::<char>::empty()) by {
            reveal_strlit("");
        }
    }
    out
}

/// The mark that a Graphviz diagram puts after a violating edge: red and
/// dashed, or dotted in a diagram that a page embeds.
pub open spec fn violation_mark(embedded: bool) -> Seq<char> {
    if embedded {
        " [color=\"red\" style=dotted penwidth=2]"@
    } else {
        " [color=\"red\" style=dashed penwidth=2]"@
    }
}

/// The lines that open a Graphviz diagram.
pub open spec fn graphviz_head(embedded: bool) -> Seq<char> {
    if embedded {
        "digraph G {\n\tnode [color=grey, style=filled];\n\tnode [fontname=\"Verdana\", size=\"30,30\"];\n"@
    } else {
        "digraph G {\n    node [color=grey, style=filled];\n    node [fontname=\"Verdana\", size=\"30,30\"];\n"@
    }
}

/// A Graphviz diagram of the graph and, in a cluster of its own, of the
/// layer rules: the nodes and edges that the toggles show, a violating
/// edge marked, and every layer and rule of the legend.
pub open spec fn spec_graphviz_diagram(
    nodes: Seq<NodeView>,
    deps: Seq<Seq<EdgeView>>,
    layers: Seq<NodeView>,
    layer_deps: Seq<Seq<EdgeView>>,
    toggles: Toggles,
    embedded: bool,
) -> Seq<char> {
    graphviz_head(embedded) + concat_upto(
        nodes.len(),
        graphviz_node_part(nodes, "P"@, Some(toggles)),
    ) + spec_edge_lines(deps, "P"@, " -> "@, violation_mark(embedded), Some(toggles))
        + "\tsubgraph cluster_key {\n\t\tlabel=\"Layer Rules\";\n"@ + concat_upto(
        layers.len(),
        graphviz_node_part(layers, "L"@, None),
    ) + spec_edge_lines(layer_deps, "L"@, " -> "@, Seq::empty(), None) + "\t}\n}\n"@
}

/// Writes a Graphviz diagram of the graph and of the layer rules, for the
/// console or, with other white space and dotted violations, for a page
/// that embeds it.
pub fn generate_graphviz_diagram(
    nodes: &[Node],
    node_dependencies: &NodeDependencies,
    layers: &[Node],
    layer_dependencies: &NodeDependencies,
    toggles: &Toggles,
    embedded: bool,
) -> (r: String)
    ensures
        r@ == spec_graphviz_diagram(
            nodes.deep_view(),
            node_dependencies.deep_view(),
            layers.deep_view(),
            layer_dependencies.deep_view(),
            *toggles,
            embedded,
        ),
{
    let declared = graphviz_nodes(nodes, "P", Some(*toggles));
    let linked = if embedded {
        edge_lines(
            node_dependencies,
            "P",
            " -> ",
            " [color=\"red\" style=dotted penwidth=2]",
            Some(*toggles),
        )
    } else {
        edge_lines(
            node_dependencies,
            "P",
            " -> ",
            " [color=\"red\" style=dashed penwidth=2]",
            Some(*toggles),
        )
    };
    let legend = graphviz_nodes(layers, "L", None);
    let rules = edge_lines(layer_dependencies, "L", " -> ", "", None);
    let mut out = if embedded {
        "digraph G {\n\tnode [color=grey, style=filled];\n\tnode [fontname=\"Verdana\", size=\"30,30\"];\n".to_owned()
    } else {
        "digraph G {\n    node [color=grey, style=filled];\n    node [fontname=\"Verdana\", size=\"30,30\"];\n".to_owned()
    };
    out.append(declared.as_str());
    out.append(linked.as_str());
    out.append("\tsubgraph cluster_key {\n\t\tlabel=\"Layer Rules\";\n");
    out.append(legend.as_str());
    out.append(rules.as_str());
    out.append("\t}\n}\n");
    proof {
        assert(""@ =~= Seq::<char>::empty()) by {
            reveal_strlit("");
        }
    }
    out
}

/// The entry of a node in the node list of a D3 page.
pub open spec fn d3_node_line(node: NodeView) -> Seq<char> {
    "        { id: '"@ + node.id + "', name: '"@ + node.name + "', color: '"@ + node.color
        + "' },\n"@
}

/// The entry of each node of a D3 page.
pub open spec fn d3_node_part(nodes: Seq<NodeView>) -> spec_fn(int) -> Seq<char> {
    |i: int| d3_node_line(nodes[i])
}

/// The entry of an edge in the link list of a D3 page: the ids of both ends.
pub open spec fn d3_link_line(source: NodeView, target: NodeView) -> Seq<char> {
    "        { source: '"@ + source.id + "', target: '"@ + target.id + "' },\n"@
}

/// The entry of each edge of one node: none for an edge one of whose ends
/// is no node of the list.
pub open spec fn d3_link_part(nodes: Seq<NodeView>, edges: Seq<EdgeView>, from: int) -> spec_fn(
    int,
) -> Seq<char> {
    |k: int|
        if 0 <= from < nodes.len() && 0 <= edges[k].to < nodes.len() {
            d3_link_line(nodes[from], nodes[edges[k].to])
        } else {
            Seq::empty()
        }
}

/// The entries of the edges of each node.
pub open spec fn d3_links_part(nodes: Seq<NodeView>, deps: Seq<Seq<EdgeView>>) -> spec_fn(
    int,
) -> Seq<char> {
    |i: int| concat_upto(deps[i].len(), d3_link_part(nodes, deps[i], i))
}

/// Writes the entries of the node list of a D3 page.
pub fn d3_nodes(nodes: &[Node]) -> (r: String)
    ensures
        r@ == concat_upto(nodes@.len(), d3_node_part(nodes.deep_view())),
{
    let ghost part = d3_node_part(nodes.deep_view());
    let mut out = String::new();
    let mut i: usize = 0;
    while i < nodes.len()
        invariant
            i <= nodes@.len(),
            part == d3_node_part(nodes.deep_view()),
            out@ == concat_upto(i as nat, part),
        decreases nodes@.len() - i,
    {
        out.append("        { id: '");
        out.append(nodes[i].id.as_str());
        out.append("', name: '");
        out.append(nodes[i].name.as_str());
        out.append("', color: '");
        out.append(nodes[i].color.as_str());
        out.append("' },\n");
        i += 1;
    }
    out
}

/// Writes the entries of the link list of a D3 page, node by node. An edge
/// one of whose ends is no node of the list has no entry.
pub fn d3_links(nodes: &[Node], node_dependencies: &NodeDependencies) -> (r: String)
    ensures
        r@ == concat_upto(
            node_dependencies@.len(),
            d3_links_part(nodes.deep_view(), node_dependencies.deep_view()),
        ),
{
    let ghost views = nodes.deep_view();
    let ghost dv = node_dependencies.deep_view();
    let ghost all = d3_links_part(views, dv);
    let mut out = String::new();
    let mut i: usize = 0;
    while i < node_dependencies.len()
        invariant
            i <= node_dependencies@.len(),
            views == nodes.deep_view(),
            dv == node_dependencies.deep_view(),
            all == d3_links_part(views, dv),
            out@ == concat_upto(i as nat, all),
        decreases node_dependencies@.len() - i,
    {
        let ghost before = out@;
        let ghost part = d3_link_part(views, dv[i as int], i as int);
        let mut k: usize = 0;
        while k < node_dependencies[i].len()
            invariant
                i < node_dependencies@.len(),
                k <= node_dependencies@[i as int]@.len(),
                views == nodes.deep_view(),
                dv == node_dependencies.deep_view(),
                part == d3_link_part(views, dv[i as int], i as int),
                out@ == before + concat_upto(k as nat, part),
            decreases node_dependencies@[i as int]@.len() - k,
        {
            let to = node_dependencies[i][k].to;
            if i < nodes.len() && to < nodes.len() {
                out.append("        { source: '");
                out.append(nodes[i].id.as_str());
                out.append("', target: '");
                out.append(nodes[to].id.as_str());
                out.append("' },\n");
            }
            proof {
                assert(before + concat_upto(k as nat, part) + part(k as int) =~= before + (
                concat_upto(k as nat, part) + part(k as int)));
            }
            k += 1;
        }
        i += 1;
    }
    out
}

/// The line that lists the targets of a node's edges: the indices, with
/// commas between them.
pub open spec fn spec_target_list(edges: Seq<EdgeView>) -> Seq<char>
    decreases edges.len(),
{
    if edges.len() == 0 {
        Seq::empty()
    } else if edges.len() == 1 {
        spec_decimal(edges[0].to as nat)
    } else {
        spec_target_list(edges.drop_last()) + ", "@ + spec_decimal(edges.last().to as nat)
    }
}

/// Writes the targets of a node's edges as a list of indices with commas
/// between them.
pub fn target_list(edges: &[EdgeInfo]) -> (r: String)
    ensures
        r@ == spec_target_list(edges.deep_view()),
{
    let ghost all = edges.deep_view();
    let mut out = String::new();
    let mut k: usize = 0;
    while k < edges.len()
        invariant
            k <= edges@.len(),
            all == edges.deep_view(),
            out@ == spec_target_list(all.take(k as int)),
        decreases edges@.len() - k,
    {
        let number = decimal(edges[k].to as u128);
        proof {
            assert(all.take(k as int + 1).drop_last() =~= all.take(k as int));
        }
        if k > 0 {
            out.append(", ");
        }
        out.append(number.as_str());
        k += 1;
    }
    proof {
        assert(all.take(k as int) =~= all);
    }
    out
}

} // verus!
