//! The layer rules: which layer may depend on which, and the legend graph
//! that shows them.

use vstd::prelude::*;
use crate::config::{color_for, default_config, lemma_lookup_view, lookup, Config, LayerMap};
use crate::graph::{
    connect, edges_valid, empty_dependencies, find_node, index_of, intern_node,
    lemma_connect_keeps_valid, lemma_intern_keeps_unique, no_duplicate_edges, no_edges,
    spec_connect, spec_intern, unique_ids, EdgeView, Node, NodeDependencies, NodeView,
};
use crate::seqs::lemma_first_where;
use crate::text::contains_str;

verus! {

/// The rule matrix as a list of pairs: a layer, and the layers it may depend on.
pub type RuleMatrix = Seq<(Seq<char>, Seq<Seq<char>>)>;

/// Whether the rules let `from` depend on `to`: `to` is among the layers
/// listed for `from`. A layer without an entry may depend on nothing.
pub open spec fn spec_is_allowed(from: Seq<char>, to: Seq<char>, rules: RuleMatrix) -> bool {
    match lookup(rules, from) {
        Some(targets) => targets.contains(to),
        None => false,
    }
}

/// Whether the rules let a node of layer `from_layer` depend on one of layer
/// `to_layer`.
pub fn is_allowed(from_layer: &str, to_layer: &str, rules: &LayerMap<Vec<String>>) -> (r: bool)
    ensures
        r == spec_is_allowed(from_layer@, to_layer@, rules.deep_view()),
{
    proof {
        lemma_lookup_view(rules.entries@, from_layer@);
    }
    match rules.get(from_layer) {
        Some(targets) => contains_str(targets, to_layer),
        None => false,
    }
}

/// A layer that is no key of the rule matrix may depend on nothing; so a
/// node classified as `unknown` has no allowed dependency unless the rules
/// name `unknown` themselves.
pub proof fn lemma_no_rule_no_dependency(from: Seq<char>, to: Seq<char>, rules: RuleMatrix)
    requires
        forall|i: int| 0 <= i < rules.len() ==> (#[trigger] rules[i]).0 != from,
    ensures
        lookup(rules, from) is None,
        !spec_is_allowed(from, to, rules),
{
    lemma_first_where(rules, crate::config::has_key(from));
}

/// The default rules have no entry for `unknown`: under them a node that
/// matched no pattern has no allowed dependency.
pub proof fn lemma_default_rules_skip_unknown(to: Seq<char>)
    ensures
        lookup(default_config().global.rules, "unknown"@) is None,
        !spec_is_allowed("unknown"@, to, default_config().global.rules),
{
    reveal_strlit("unknown");
    reveal_strlit("core");
    reveal_strlit("io");
    reveal_strlit("usecase");
    let rules = default_config().global.rules;
    assert("unknown"@[1] != "usecase"@[1]);
    assert forall|i: int| 0 <= i < rules.len() implies (#[trigger] rules[i]).0 != "unknown"@ by {}
    lemma_no_rule_no_dependency("unknown"@, to, rules);
}

/// The legend node of a layer: named after it, and colored as configured, or
/// gray.
pub open spec fn layer_node(layer: Seq<char>, colors: Seq<(Seq<char>, Seq<char>)>) -> NodeView {
    NodeView {
        id: layer,
        name: layer,
        layer: "layer"@,
        node_type: "layer"@,
        color: color_for(layer, colors),
    }
}

/// The legend nodes: one for each configured layer, in their order.
pub open spec fn spec_layers(layers: Seq<Seq<char>>, colors: Seq<(Seq<char>, Seq<char>)>) -> Seq<
    NodeView,
>
    decreases layers.len(),
{
    if layers.len() == 0 {
        Seq::empty()
    } else {
        spec_intern(spec_layers(layers.drop_last(), colors), layer_node(layers.last(), colors)).0
    }
}

/// The legend nodes: one for each configured layer.
pub fn get_layers(config: &Config) -> (r: Vec<Node>)
    ensures
        r.deep_view() == spec_layers(
            config.deep_view().global.layers,
            config.deep_view().global.colors,
        ),
        unique_ids(r.deep_view()),
{
    let ghost names = config.deep_view().global.layers;
    let ghost colors = config.deep_view().global.colors;
    let mut layers: Vec<Node> = Vec::new();
    let mut i: usize = 0;
    while i < config.global.layers.len()
        invariant
            i <= config.global.layers@.len(),
            names == config.deep_view().global.layers,
            colors == config.deep_view().global.colors,
            layers.deep_view() == spec_layers(names.take(i as int), colors),
            unique_ids(layers.deep_view()),
        decreases config.global.layers@.len() - i,
    {
        let layer = &config.global.layers[i];
        let color = config.color_or_gray(layer.as_str());
        let node = Node {
            id: layer.clone(),
            name: layer.clone(),
            layer: "layer".to_owned(),
            node_type: "layer".to_owned(),
            color,
        };
        proof {
            assert(names.take(i as int + 1).drop_last() =~= names.take(i as int));
        }
        intern_node(&mut layers, node);
        i += 1;
    }
    proof {
        assert(names.take(i as int) =~= names);
    }
    layers
}

/// The legend's adjacency list after the edges from node `from` to the
/// layers in `targets` were added to `deps`: one edge, marked as allowed,
/// for each target that is a node of the legend.
pub open spec fn legend_edges(
    layers: Seq<NodeView>,
    deps: Seq<Seq<EdgeView>>,
    from: int,
    targets: Seq<Seq<char>>,
) -> Seq<Seq<EdgeView>>
    decreases targets.len(),
{
    if targets.len() == 0 {
        deps
    } else {
        let before = legend_edges(layers, deps, from, targets.drop_last());
        match index_of(layers, targets.last()) {
            Some(to) => spec_connect(layers, before, from, to, true),
            None => before,
        }
    }
}

/// What the rules list for a layer: nothing where it has no entry.
pub open spec fn allowed_targets(rules: RuleMatrix, layer: Seq<char>) -> Seq<Seq<char>> {
    match lookup(rules, layer) {
        Some(targets) => targets,
        None => Seq::empty(),
    }
}

/// The legend's adjacency list with the edges of its first `count` nodes.
pub open spec fn legend_upto(layers: Seq<NodeView>, rules: RuleMatrix, count: nat) -> Seq<
    Seq<EdgeView>,
>
    decreases count,
{
    if count == 0 {
        no_edges(layers.len())
    } else {
        legend_edges(
            layers,
            legend_upto(layers, rules, (count - 1) as nat),
            count - 1,
            allowed_targets(rules, layers[count - 1].id),
        )
    }
}

/// The legend's adjacency list: for each layer an edge to every layer that
/// the rules let it depend on.
pub open spec fn spec_layer_dependencies(layers: Seq<NodeView>, rules: RuleMatrix) -> Seq<
    Seq<EdgeView>,
> {
    legend_upto(layers, rules, layers.len())
}

/// Adds to `deps` the legend edges from node `from` to the given layers.
fn add_legend_edges(layers: &[Node], deps: &mut NodeDependencies, from: usize, targets: &Vec<String>)
    ensures
        final(deps).deep_view() == legend_edges(
            layers.deep_view(),
            old(deps).deep_view(),
            from as int,
            targets.deep_view(),
        ),
{
    let ghost nodes = layers.deep_view();
    let ghost start = deps.deep_view();
    let ghost all = targets.deep_view();
    let mut k: usize = 0;
    while k < targets.len()
        invariant
            k <= targets@.len(),
            nodes == layers.deep_view(),
            all == targets.deep_view(),
            deps.deep_view() == legend_edges(nodes, start, from as int, all.take(k as int)),
        decreases targets@.len() - k,
    {
        proof {
            assert(all.take(k as int + 1).drop_last() =~= all.take(k as int));
        }
        match find_node(layers, targets[k].as_str()) {
            Some(to) => {
                connect(layers, deps, from, to, true);
            },
            None => {},
        }
        k += 1;
    }
    proof {
        assert(all.take(k as int) =~= all);
    }
}

/// The legend's adjacency list: for each layer an edge, marked as allowed,
/// to every layer that the rules let it depend on. A layer that the rules
/// name but that is no node of the legend gets no edge.
pub fn get_layer_dependencies(layers: &[Node], rules: &LayerMap<Vec<String>>) -> (r:
    NodeDependencies)
    ensures
        r.deep_view() == spec_layer_dependencies(layers.deep_view(), rules.deep_view()),
        edges_valid(r.deep_view(), layers@.len() as nat),
        no_duplicate_edges(r.deep_view()),
{
    let ghost nodes = layers.deep_view();
    let mut deps = empty_dependencies(layers.len());
    let mut i: usize = 0;
    while i < layers.len()
        invariant
            i <= layers@.len(),
            nodes == layers.deep_view(),
            deps.deep_view() == legend_upto(nodes, rules.deep_view(), i as nat),
        decreases layers@.len() - i,
    {
        proof {
            lemma_lookup_view(rules.entries@, layers@[i as int].id@);
        }
        match rules.get(layers[i].id.as_str()) {
            Some(targets) => {
                add_legend_edges(layers, &mut deps, i, targets);
            },
            None => {},
        }
        i += 1;
    }
    proof {
        lemma_legend_upto_valid(nodes, rules.deep_view(), nodes.len());
    }
    deps
}

/// Adding the legend edges of a node keeps every edge within the node list
/// and gives no node two edges to the same target.
proof fn lemma_legend_edges_valid(
    layers: Seq<NodeView>,
    deps: Seq<Seq<EdgeView>>,
    from: int,
    targets: Seq<Seq<char>>,
)
    requires
        edges_valid(deps, layers.len()),
        no_duplicate_edges(deps),
    ensures
        edges_valid(legend_edges(layers, deps, from, targets), layers.len()),
        no_duplicate_edges(legend_edges(layers, deps, from, targets)),
    decreases targets.len(),
{
    if targets.len() > 0 {
        let before = legend_edges(layers, deps, from, targets.drop_last());
        lemma_legend_edges_valid(layers, deps, from, targets.drop_last());
        match index_of(layers, targets.last()) {
            Some(to) => {
                lemma_connect_keeps_valid(layers, before, from, to, true);
            },
            None => {},
        }
    }
}

/// The edges of the legend's first `count` nodes stay within the node list.
proof fn lemma_legend_upto_valid(layers: Seq<NodeView>, rules: RuleMatrix, count: nat)
    ensures
        edges_valid(legend_upto(layers, rules, count), layers.len()),
        no_duplicate_edges(legend_upto(layers, rules, count)),
    decreases count,
{
    if count > 0 {
        lemma_legend_upto_valid(layers, rules, (count - 1) as nat);
        lemma_legend_edges_valid(
            layers,
            legend_upto(layers, rules, (count - 1) as nat),
            count - 1,
            allowed_targets(rules, layers[count - 1].id),
        );
    }
}

/// Every edge of the legend leads to a node of the legend, no node of the
/// legend has two edges to the same target, and no two nodes of the legend
/// share an id.
pub proof fn lemma_legend_is_a_graph(
    names: Seq<Seq<char>>,
    colors: Seq<(Seq<char>, Seq<char>)>,
    rules: RuleMatrix,
)
    ensures
        unique_ids(spec_layers(names, colors)),
        edges_valid(
            spec_layer_dependencies(spec_layers(names, colors), rules),
            spec_layers(names, colors).len(),
        ),
        no_duplicate_edges(spec_layer_dependencies(spec_layers(names, colors), rules)),
    decreases names.len(),
{
    let layers = spec_layers(names, colors);
    lemma_legend_upto_valid(layers, rules, layers.len());
    if names.len() > 0 {
        lemma_legend_is_a_graph(names.drop_last(), colors, rules);
        lemma_intern_keeps_unique(
            spec_layers(names.drop_last(), colors),
            layer_node(names.last(), colors),
        );
    }
}

/// The legend graph of a configuration: its layers as nodes, its rules as edges.
pub fn layer_legend(config: &Config) -> (r: (Vec<Node>, NodeDependencies))
    ensures
        r.0.deep_view() == spec_layers(
            config.deep_view().global.layers,
            config.deep_view().global.colors,
        ),
        r.1.deep_view() == spec_layer_dependencies(
            r.0.deep_view(),
            config.deep_view().global.rules,
        ),
        unique_ids(r.0.deep_view()),
        edges_valid(r.1.deep_view(), r.0@.len() as nat),
        no_duplicate_edges(r.1.deep_view()),
{
    let layers = get_layers(config);
    let deps = get_layer_dependencies(layers.as_slice(), &config.global.rules);
    (layers, deps)
}

} // verus!
