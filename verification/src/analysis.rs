//! What the analyzers share: the interface that each of them offers, the
//! errors that end an analysis, and the interning of candidate nodes.

use vstd::prelude::*;
use crate::config::{Config, ConfigView};
use crate::graph::{
    edges_valid, has_id, index_of, intern_node, lemma_intern_keeps_ids,
    lemma_intern_keeps_unique, no_duplicate_edges, spec_intern, unique_ids, EdgeView, Node,
    NodeDependencies, NodeView,
};
use crate::seqs::lemma_first_where;

verus! {

/// Why an analysis ended without a graph.
#[derive(Debug, Clone, Copy, PartialEq, Eq, Structural)]
pub enum AnalysisError {
    /// The configuration has no settings for the ecosystem.
    MissingSettings,
    /// The file of the node at this index could not be read again when its
    /// references were wanted.
    UnreadableProject { node: usize },
}

/// The node list after each candidate, where there is one, was interned in turn.
pub open spec fn intern_all(nodes: Seq<NodeView>, candidates: Seq<Option<NodeView>>) -> Seq<NodeView>
    decreases candidates.len(),
{
    if candidates.len() == 0 {
        nodes
    } else {
        let before = intern_all(nodes, candidates.drop_last());
        match candidates.last() {
            Some(c) => spec_intern(before, c).0,
            None => before,
        }
    }
}

/// Interning candidates keeps the ids of a list distinct and every node
/// that was in the list at its index.
pub proof fn lemma_intern_all(nodes: Seq<NodeView>, candidates: Seq<Option<NodeView>>)
    ensures
        unique_ids(nodes) ==> unique_ids(intern_all(nodes, candidates)),
        nodes.len() <= intern_all(nodes, candidates).len(),
        forall|i: int| 0 <= i < nodes.len() ==> intern_all(nodes, candidates)[i] == nodes[i],
    decreases candidates.len(),
{
    if candidates.len() > 0 {
        let before = intern_all(nodes, candidates.drop_last());
        lemma_intern_all(nodes, candidates.drop_last());
        match candidates.last() {
            Some(c) => {
                lemma_intern_keeps_unique(before, c);
            },
            None => {},
        }
    }
}

/// Every node that interning adds is one of the candidates.
pub proof fn lemma_interned_is_candidate(
    nodes: Seq<NodeView>,
    candidates: Seq<Option<NodeView>>,
    i: int,
)
    requires
        nodes.len() <= i < intern_all(nodes, candidates).len(),
    ensures
        exists|k: int|
            0 <= k < candidates.len() && #[trigger] candidates[k] == Some(
                intern_all(nodes, candidates)[i],
            ),
    decreases candidates.len(),
{
    if candidates.len() > 0 {
        let rest = candidates.drop_last();
        let before = intern_all(nodes, rest);
        lemma_intern_all(nodes, rest);
        if i < before.len() {
            lemma_interned_is_candidate(nodes, rest, i);
            match candidates.last() {
                Some(c) => {
                    lemma_intern_keeps_unique(before, c);
                },
                None => {},
            }
        } else {
            match candidates.last() {
                Some(c) => {
                    lemma_intern_keeps_unique(before, c);
                },
                None => {},
            }
        }
    }
}

/// Interning loses no node: an id that a list has, the list still has
/// after candidates were interned.
pub proof fn lemma_intern_all_keeps_ids(
    nodes: Seq<NodeView>,
    candidates: Seq<Option<NodeView>>,
    id: Seq<char>,
)
    requires
        index_of(nodes, id) is Some,
    ensures
        index_of(intern_all(nodes, candidates), id) is Some,
    decreases candidates.len(),
{
    if candidates.len() > 0 {
        lemma_intern_all_keeps_ids(nodes, candidates.drop_last(), id);
        if candidates.last() is Some {
            lemma_intern_keeps_ids(
                intern_all(nodes, candidates.drop_last()),
                candidates.last()->0,
                id,
            );
        }
    }
}

/// Every candidate becomes a node or meets the node that has its id: after
/// interning, the list has a node with the id of each candidate.
pub proof fn lemma_candidate_is_interned(
    nodes: Seq<NodeView>,
    candidates: Seq<Option<NodeView>>,
    k: int,
)
    requires
        0 <= k < candidates.len(),
        candidates[k] is Some,
    ensures
        index_of(intern_all(nodes, candidates), candidates[k]->0.id) is Some,
    decreases candidates.len(),
{
    let rest = candidates.drop_last();
    let before = intern_all(nodes, rest);
    let id = candidates[k]->0.id;
    if k < candidates.len() - 1 {
        assert(rest[k] == candidates[k]);
        lemma_candidate_is_interned(nodes, rest, k);
        if candidates.last() is Some {
            lemma_intern_keeps_ids(before, candidates.last()->0, id);
        }
    } else {
        lemma_intern_keeps_unique(before, candidates[k]->0);
        let after = spec_intern(before, candidates[k]->0).0;
        let at = spec_intern(before, candidates[k]->0).1;
        assert(has_id(id)(after[at]));
        lemma_first_where(after, has_id(id));
    }
}

/// What holds of every node of a list, and of every candidate, holds of
/// every node of the list after the candidates were interned.
pub proof fn lemma_intern_all_keeps(
    nodes: Seq<NodeView>,
    candidates: Seq<Option<NodeView>>,
    p: spec_fn(NodeView) -> bool,
)
    requires
        forall|i: int| 0 <= i < nodes.len() ==> p(#[trigger] nodes[i]),
        forall|k: int|
            0 <= k < candidates.len() && (#[trigger] candidates[k]) is Some ==> p(candidates[k]->0),
    ensures
        forall|i: int|
            0 <= i < intern_all(nodes, candidates).len() ==> p(
                #[trigger] intern_all(nodes, candidates)[i],
            ),
{
    let after = intern_all(nodes, candidates);
    lemma_intern_all(nodes, candidates);
    assert forall|i: int| 0 <= i < after.len() implies p(#[trigger] after[i]) by {
        if i < nodes.len() {
            assert(after[i] == nodes[i]);
        } else {
            lemma_interned_is_candidate(nodes, candidates, i);
            let k = choose|k: int|
                0 <= k < candidates.len() && #[trigger] candidates[k] == Some(after[i]);
            assert(p(candidates[k]->0));
        }
    }
}

/// Interns a candidate where there is one.
pub fn intern_candidate(nodes: &mut Vec<Node>, candidate: Option<Node>)
    ensures
        final(nodes).deep_view() == match candidate.deep_view() {
            Some(c) => spec_intern(old(nodes).deep_view(), c).0,
            None => old(nodes).deep_view(),
        },
        unique_ids(old(nodes).deep_view()) ==> unique_ids(final(nodes).deep_view()),
{
    match candidate {
        Some(node) => {
            intern_node(nodes, node);
        },
        None => {},
    }
}

/// A way to extract a graph from the sources of one ecosystem, in two
/// phases: first all nodes, then the edges between them.
pub trait GraphDependencies {
    /// What the analysis reads.
    type Source: DeepView;

    /// Whether the configuration has the settings that the analysis needs.
    spec fn spec_configured(config: ConfigView) -> bool;

    /// Why finding the dependencies between these nodes fails, if it does.
    spec fn spec_failure(
        sources: Seq<<Self::Source as DeepView>::V>,
        nodes: Seq<NodeView>,
        config: ConfigView,
    ) -> Option<AnalysisError>;

    /// The nodes that the sources give.
    spec fn spec_nodes(sources: Seq<<Self::Source as DeepView>::V>, config: ConfigView) -> Seq<
        NodeView,
    >;

    /// The edges that the sources give between the nodes.
    spec fn spec_dependencies(
        sources: Seq<<Self::Source as DeepView>::V>,
        nodes: Seq<NodeView>,
        config: ConfigView,
    ) -> Seq<Seq<EdgeView>>;

    /// Collects the nodes of the sources: each unit once, unless it is excluded.
    fn collect_nodes(sources: &[Self::Source], config: &Config) -> (r: Result<
        Vec<Node>,
        AnalysisError,
    >)
        ensures
            match r {
                Ok(nodes) => Self::spec_configured(config.deep_view()) && nodes.deep_view()
                    == Self::spec_nodes(sources.deep_view(), config.deep_view()) && unique_ids(
                    nodes.deep_view(),
                ),
                Err(e) => !Self::spec_configured(config.deep_view()) && e
                    == AnalysisError::MissingSettings,
            },
    ;

    /// Finds the dependencies between the nodes: for each node its outgoing
    /// edges, each with the verdict of the rules.
    fn find_dependencies(sources: &[Self::Source], nodes: &[Node], config: &Config) -> (r: Result<
        NodeDependencies,
        AnalysisError,
    >)
        ensures
            match r {
                Ok(deps) => Self::spec_failure(
                    sources.deep_view(),
                    nodes.deep_view(),
                    config.deep_view(),
                ) is None && deps.deep_view() == Self::spec_dependencies(
                    sources.deep_view(),
                    nodes.deep_view(),
                    config.deep_view(),
                ) && edges_valid(deps.deep_view(), nodes@.len() as nat) && no_duplicate_edges(
                    deps.deep_view(),
                ),
                Err(e) => Self::spec_failure(
                    sources.deep_view(),
                    nodes.deep_view(),
                    config.deep_view(),
                ) == Some(e),
            },
    ;
}

/// Runs both phases of an analysis: collects the nodes, then finds the
/// dependencies between them. It fails where the settings are missing, or
/// where finding the dependencies between the collected nodes fails.
pub fn analyze<A: GraphDependencies>(sources: &[A::Source], config: &Config) -> (r: Result<
    (Vec<Node>, NodeDependencies),
    AnalysisError,
>)
    ensures
        match r {
            Ok((nodes, deps)) => {
                &&& A::spec_configured(config.deep_view())
                &&& A::spec_failure(sources.deep_view(), nodes.deep_view(), config.deep_view())
                    is None
                &&& nodes.deep_view() == A::spec_nodes(sources.deep_view(), config.deep_view())
                &&& deps.deep_view() == A::spec_dependencies(
                    sources.deep_view(),
                    nodes.deep_view(),
                    config.deep_view(),
                )
                &&& unique_ids(nodes.deep_view())
                &&& edges_valid(deps.deep_view(), nodes@.len() as nat)
                &&& no_duplicate_edges(deps.deep_view())
            },
            Err(e) => if A::spec_configured(config.deep_view()) {
                A::spec_failure(
                    sources.deep_view(),
                    A::spec_nodes(sources.deep_view(), config.deep_view()),
                    config.deep_view(),
                ) == Some(e)
            } else {
                e == AnalysisError::MissingSettings
            },
        },
{
    match A::collect_nodes(sources, config) {
        Ok(nodes) => match A::find_dependencies(sources, nodes.as_slice(), config) {
            Ok(deps) => Ok((nodes, deps)),
            Err(e) => Err(e),
        },
        Err(e) => Err(e),
    }
}

} // verus!
