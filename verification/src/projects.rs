//! The project analyzer: build the graph of project files and of the
//! references between them.

use vstd::prelude::*;
use crate::analysis::{
    intern_all, intern_candidate, lemma_candidate_is_interned, lemma_intern_all,
    lemma_intern_all_keeps, AnalysisError, GraphDependencies,
};
use crate::config::{color_for, Config, ConfigView, Csharp, CsharpView};
use crate::graph::{
    connect, edges_valid, empty_dependencies, find_node, index_of, lemma_connect_keeps_valid,
    no_duplicate_edges, no_edges, spec_connect, unique_ids, EdgeView, Node, NodeDependencies,
    NodeView,
};
use crate::patterns::{
    any_matches, determine_layer, exclude_files_and_folders, exclude_projects,
    spec_determine_layer, spec_exclude_path,
};
use crate::rules::{is_allowed, spec_is_allowed, RuleMatrix};
use crate::seqs::{first_where, lemma_first_where, lemma_first_where_at};
use crate::text::{has_extension, spec_has_extension, str_eq};

verus! {

/// What was read of a project file.
#[derive(Debug, Clone)]
pub struct ProjectContent {
    /// The version marker that files of the older format carry.
    pub tools_version: Option<String>,
    /// For each reference that the file declares, in order: the canonical
    /// path that it resolves to, or nothing where it resolves to no file.
    pub references: Vec<Option<String>>,
}

/// A project file that was found under the root directory.
#[derive(Debug, Clone)]
pub struct ProjectFile {
    /// Its canonical absolute path.
    pub path: String,
    /// Its file name.
    pub name: String,
    /// What was read of it, or nothing where it could not be read or parsed.
    pub content: Option<ProjectContent>,
}

/// What a `ProjectContent` holds.
pub struct ProjectContentView {
    pub tools_version: Option<Seq<char>>,
    pub references: Seq<Option<Seq<char>>>,
}

impl DeepView for ProjectContent {
    type V = ProjectContentView;

    open spec fn deep_view(&self) -> ProjectContentView {
        ProjectContentView {
            tools_version: self.tools_version.deep_view(),
            references: self.references.deep_view(),
        }
    }
}

/// What a `ProjectFile` holds.
pub struct ProjectFileView {
    pub path: Seq<char>,
    pub name: Seq<char>,
    pub content: Option<ProjectContentView>,
}

impl DeepView for ProjectFile {
    type V = ProjectFileView;

    open spec fn deep_view(&self) -> ProjectFileView {
        ProjectFileView { path: self.path@, name: self.name@, content: self.content.deep_view() }
    }
}

/// Whether a path is that of a project file to read: it is not excluded and
/// its name has the extension of project files.
pub open spec fn spec_wanted_project(path: Seq<char>, name: Seq<char>, cs: CsharpView) -> bool {
    !spec_exclude_path(path, cs.exclude, cs.pattern, cs.case_sensitive) && spec_has_extension(
        name,
        "csproj"@,
    )
}

/// Whether a file's content was read and is of the current format: it
/// carries no version marker of the older one.
pub open spec fn is_current(content: Option<ProjectContentView>) -> bool {
    content matches Some(c) && c.tools_version is None
}

/// The node that a project file gives: nothing where the file is excluded
/// by its path or its name, is no project file, could not be read, or is of
/// the older format, and nothing without C# settings.
pub open spec fn project_node(file: ProjectFileView, config: ConfigView) -> Option<NodeView> {
    match config.csharp {
        Some(cs) => if spec_wanted_project(file.path, file.name, cs) && is_current(file.content)
            && !any_matches(file.name, cs.exclude.projects, cs.pattern, cs.case_sensitive) {
            let layer = spec_determine_layer(file.name, cs.projects, cs.case_sensitive, cs.pattern);
            Some(
                NodeView {
                    id: file.path,
                    name: file.name,
                    layer,
                    node_type: "project"@,
                    color: color_for(layer, config.global.colors),
                },
            )
        } else {
            None
        },
        None => None,
    }
}

/// The node that each project file gives, in order.
pub open spec fn project_candidates(files: Seq<ProjectFileView>, config: ConfigView) -> Seq<
    Option<NodeView>,
> {
    Seq::new(files.len(), |i: int| project_node(files[i], config))
}

/// The test that a project file has the given path.
pub open spec fn has_path(path: Seq<char>) -> spec_fn(ProjectFileView) -> bool {
    |f: ProjectFileView| f.path == path
}

/// What was read of the project file with the given path: nothing where no
/// such file was found or it could not be read.
pub open spec fn content_of(files: Seq<ProjectFileView>, path: Seq<char>) -> Option<
    ProjectContentView,
> {
    match first_where(files, has_path(path)) {
        Some(i) => files[i].content,
        None => None,
    }
}

/// The test that a node's project file is missing or could not be read.
pub open spec fn is_unreadable(files: Seq<ProjectFileView>) -> spec_fn(NodeView) -> bool {
    |n: NodeView| content_of(files, n.id) is None
}

/// The adjacency list after the references of node `from` were added to
/// `deps`: an edge for each reference that resolves to the id of a node.
pub open spec fn reference_edges(
    nodes: Seq<NodeView>,
    rules: RuleMatrix,
    deps: Seq<Seq<EdgeView>>,
    from: int,
    references: Seq<Option<Seq<char>>>,
) -> Seq<Seq<EdgeView>>
    decreases references.len(),
{
    if references.len() == 0 {
        deps
    } else {
        let before = reference_edges(nodes, rules, deps, from, references.drop_last());
        match references.last() {
            Some(path) => match index_of(nodes, path) {
                Some(to) => spec_connect(
                    nodes,
                    before,
                    from,
                    to,
                    spec_is_allowed(nodes[from].layer, nodes[to].layer, rules),
                ),
                None => before,
            },
            None => before,
        }
    }
}

/// The references of a node's project file: none where it was not read.
pub open spec fn references_of(files: Seq<ProjectFileView>, node: NodeView) -> Seq<
    Option<Seq<char>>,
> {
    match content_of(files, node.id) {
        Some(c) => c.references,
        None => Seq::empty(),
    }
}

/// The adjacency list with the edges of the first `count` nodes.
pub open spec fn project_edges_upto(
    files: Seq<ProjectFileView>,
    nodes: Seq<NodeView>,
    rules: RuleMatrix,
    count: nat,
) -> Seq<Seq<EdgeView>>
    decreases count,
{
    if count == 0 {
        no_edges(nodes.len())
    } else {
        reference_edges(
            nodes,
            rules,
            project_edges_upto(files, nodes, rules, (count - 1) as nat),
            count - 1,
            references_of(files, nodes[count - 1]),
        )
    }
}

/// The analyzer of project files and of the references between them.
pub struct ProjectDependencyManager;

impl ProjectDependencyManager {
    /// Whether the file at a path is a project file to read: it is not
    /// excluded, and its name has the extension of project files.
    pub fn wants(path: &str, name: &str, settings: &Csharp) -> (r: bool)
        ensures
            r == spec_wanted_project(path@, name@, settings.deep_view()),
    {
        !exclude_files_and_folders(
            path,
            &settings.exclude,
            settings.pattern.as_str(),
            settings.case_sensitive,
        ) && has_extension(name, "csproj")
    }

    /// The node of a project file, if it gives one.
    pub fn node_of(file: &ProjectFile, config: &Config) -> (r: Option<Node>)
        ensures
            r.deep_view() == project_node(file.deep_view(), config.deep_view()),
    {
        let settings = match &config.csharp {
            Some(s) => s,
            None => {
                return None;
            },
        };
        if !Self::wants(file.path.as_str(), file.name.as_str(), settings) {
            return None;
        }
        match &file.content {
            Some(content) => {
                if content.tools_version.is_some() {
                    return None;
                }
            },
            None => {
                return None;
            },
        }
        if exclude_projects(
            file.name.as_str(),
            &settings.exclude,
            settings.pattern.as_str(),
            settings.case_sensitive,
        ) {
            return None;
        }
        let layer = determine_layer(
            file.name.as_str(),
            &settings.projects,
            settings.case_sensitive,
            settings.pattern.as_str(),
        );
        let color = config.color_or_gray(layer.as_str());
        Some(
            Node {
                id: file.path.clone(),
                name: file.name.clone(),
                layer,
                node_type: "project".to_owned(),
                color,
            },
        )
    }

    /// What was read of the project file with the given path.
    fn content_at<'a>(sources: &'a [ProjectFile], path: &str) -> (r: Option<&'a ProjectContent>)
        ensures
            r.deep_view() == content_of(sources.deep_view(), path@),
    {
        let ghost files = sources.deep_view();
        let mut i: usize = 0;
        while i < sources.len()
            invariant
                i <= sources@.len(),
                files == sources.deep_view(),
                forall|j: int| 0 <= j < i ==> !has_path(path@)(#[trigger] files[j]),
            decreases sources@.len() - i,
        {
            if str_eq(sources[i].path.as_str(), path) {
                proof {
                    lemma_first_where_at(files, has_path(path@), i as int);
                }
                return sources[i].content.as_ref();
            }
            i += 1;
        }
        proof {
            lemma_first_where(files, has_path(path@));
        }
        None
    }

    /// Adds to `deps` the edges for the references of node `from`.
    fn add_references(
        nodes: &[Node],
        config: &Config,
        deps: &mut NodeDependencies,
        from: usize,
        references: &Vec<Option<String>>,
    )
        requires
            from < nodes@.len(),
        ensures
            final(deps).deep_view() == reference_edges(
                nodes.deep_view(),
                config.deep_view().global.rules,
                old(deps).deep_view(),
                from as int,
                references.deep_view(),
            ),
    {
        let ghost views = nodes.deep_view();
        let ghost rules = config.deep_view().global.rules;
        let ghost start = deps.deep_view();
        let ghost all = references.deep_view();
        let mut k: usize = 0;
        while k < references.len()
            invariant
                k <= references@.len(),
                from < nodes@.len(),
                views == nodes.deep_view(),
                rules == config.deep_view().global.rules,
                all == references.deep_view(),
                deps.deep_view() == reference_edges(views, rules, start, from as int, all.take(k as int)),
            decreases references@.len() - k,
        {
            proof {
                assert(all.take(k as int + 1).drop_last() =~= all.take(k as int));
            }
            if let Some(path) = &references[k] {
                if let Some(to) = find_node(nodes, path.as_str()) {
                    let allowed = is_allowed(
                        nodes[from].layer.as_str(),
                        nodes[to].layer.as_str(),
                        &config.global.rules,
                    );
                    connect(nodes, deps, from, to, allowed);
                }
            }
            k += 1;
        }
        proof {
            assert(all.take(k as int) =~= all);
        }
    }
}

impl GraphDependencies for ProjectDependencyManager {
    type Source = ProjectFile;

    /// The analysis needs the C# settings.
    open spec fn spec_configured(config: ConfigView) -> bool {
        config.csharp is Some
    }

    /// Finding the dependencies fails at the first node whose project file
    /// is missing or could not be read.
    open spec fn spec_failure(
        sources: Seq<ProjectFileView>,
        nodes: Seq<NodeView>,
        config: ConfigView,
    ) -> Option<AnalysisError> {
        match first_where(nodes, is_unreadable(sources)) {
            Some(i) => Some(AnalysisError::UnreadableProject { node: i as usize }),
            None => None,
        }
    }

    /// One node for each project file that gives one, in the order of the
    /// files; a path that occurs twice gives one node.
    open spec fn spec_nodes(sources: Seq<ProjectFileView>, config: ConfigView) -> Seq<NodeView> {
        intern_all(Seq::empty(), project_candidates(sources, config))
    }

    /// For each node the edges for the references of its project file.
    open spec fn spec_dependencies(
        sources: Seq<ProjectFileView>,
        nodes: Seq<NodeView>,
        config: ConfigView,
    ) -> Seq<Seq<EdgeView>> {
        project_edges_upto(sources, nodes, config.global.rules, nodes.len())
    }

    fn collect_nodes(sources: &[ProjectFile], config: &Config) -> (r: Result<
        Vec<Node>,
        AnalysisError,
    >) {
        if config.csharp.is_none() {
            return Err(AnalysisError::MissingSettings);
        }
        let ghost candidates = project_candidates(sources.deep_view(), config.deep_view());
        let mut nodes: Vec<Node> = Vec::new();
        let mut i: usize = 0;
        while i < sources.len()
            invariant
                i <= sources@.len(),
                config.csharp is Some,
                candidates == project_candidates(sources.deep_view(), config.deep_view()),
                nodes.deep_view() == intern_all(Seq::empty(), candidates.take(i as int)),
                unique_ids(nodes.deep_view()),
            decreases sources@.len() - i,
        {
            let candidate = Self::node_of(&sources[i], config);
            proof {
                assert(candidates.take(i as int + 1).drop_last() =~= candidates.take(i as int));
            }
            intern_candidate(&mut nodes, candidate);
            i += 1;
        }
        proof {
            assert(candidates.take(i as int) =~= candidates);
        }
        Ok(nodes)
    }

    fn find_dependencies(sources: &[ProjectFile], nodes: &[Node], config: &Config) -> (r: Result<
        NodeDependencies,
        AnalysisError,
    >) {
        let ghost files = sources.deep_view();
        let ghost views = nodes.deep_view();
        let ghost rules = config.deep_view().global.rules;
        let mut deps = empty_dependencies(nodes.len());
        let mut i: usize = 0;
        while i < nodes.len()
            invariant
                i <= nodes@.len(),
                files == sources.deep_view(),
                views == nodes.deep_view(),
                rules == config.deep_view().global.rules,
                forall|j: int| 0 <= j < i ==> !is_unreadable(files)(#[trigger] views[j]),
                deps.deep_view() == project_edges_upto(files, views, rules, i as nat),
            decreases nodes@.len() - i,
        {
            match Self::content_at(sources, nodes[i].id.as_str()) {
                Some(content) => {
                    Self::add_references(nodes, config, &mut deps, i, &content.references);
                },
                None => {
                    proof {
                        lemma_first_where_at(views, is_unreadable(files), i as int);
                    }
                    return Err(AnalysisError::UnreadableProject { node: i });
                },
            }
            i += 1;
        }
        proof {
            lemma_first_where(views, is_unreadable(files));
            lemma_project_edges_upto_valid(files, views, rules, views.len());
        }
        Ok(deps)
    }
}

/// Adding the edges for the references of a node keeps every edge within
/// the node list and gives no node two edges to the same target.
proof fn lemma_reference_edges_valid(
    nodes: Seq<NodeView>,
    rules: RuleMatrix,
    deps: Seq<Seq<EdgeView>>,
    from: int,
    references: Seq<Option<Seq<char>>>,
)
    requires
        edges_valid(deps, nodes.len()),
        no_duplicate_edges(deps),
    ensures
        edges_valid(reference_edges(nodes, rules, deps, from, references), nodes.len()),
        no_duplicate_edges(reference_edges(nodes, rules, deps, from, references)),
    decreases references.len(),
{
    if references.len() > 0 {
        let before = reference_edges(nodes, rules, deps, from, references.drop_last());
        lemma_reference_edges_valid(nodes, rules, deps, from, references.drop_last());
        match references.last() {
            Some(path) => match index_of(nodes, path) {
                Some(to) => {
                    lemma_connect_keeps_valid(
                        nodes,
                        before,
                        from,
                        to,
                        spec_is_allowed(nodes[from].layer, nodes[to].layer, rules),
                    );
                },
                None => {},
            },
            None => {},
        }
    }
}

/// The edges of the first `count` nodes stay within the node list.
proof fn lemma_project_edges_upto_valid(
    files: Seq<ProjectFileView>,
    nodes: Seq<NodeView>,
    rules: RuleMatrix,
    count: nat,
)
    ensures
        edges_valid(project_edges_upto(files, nodes, rules, count), nodes.len()),
        no_duplicate_edges(project_edges_upto(files, nodes, rules, count)),
    decreases count,
{
    if count > 0 {
        lemma_project_edges_upto_valid(files, nodes, rules, (count - 1) as nat);
        lemma_reference_edges_valid(
            nodes,
            rules,
            project_edges_upto(files, nodes, rules, (count - 1) as nat),
            count - 1,
            references_of(files, nodes[count - 1]),
        );
    }
}

/// The project graph is a graph: no two of its nodes share an id, every
/// edge leads to one of the nodes it was found between, and no node has two
/// edges to the same target.
pub proof fn lemma_project_graph_is_valid(
    files: Seq<ProjectFileView>,
    nodes: Seq<NodeView>,
    config: ConfigView,
)
    ensures
        unique_ids(ProjectDependencyManager::spec_nodes(files, config)),
        edges_valid(
            ProjectDependencyManager::spec_dependencies(files, nodes, config),
            nodes.len(),
        ),
        no_duplicate_edges(ProjectDependencyManager::spec_dependencies(files, nodes, config)),
{
    lemma_intern_all(Seq::empty(), project_candidates(files, config));
    lemma_project_edges_upto_valid(files, nodes, config.global.rules, nodes.len());
}

/// No project is lost: each file that gives a node has a node with its path
/// in the project graph.
pub proof fn lemma_every_project_is_a_node(
    files: Seq<ProjectFileView>,
    config: ConfigView,
    k: int,
)
    requires
        0 <= k < files.len(),
        project_node(files[k], config) is Some,
    ensures
        index_of(ProjectDependencyManager::spec_nodes(files, config), files[k].path) is Some,
{
    let candidates = project_candidates(files, config);
    assert(candidates[k] == project_node(files[k], config));
    lemma_candidate_is_interned(Seq::empty(), candidates, k);
}

/// The test that a node's id is no excluded path and that its name is no
/// excluded project name.
pub open spec fn is_kept(cs: CsharpView) -> spec_fn(NodeView) -> bool {
    |n: NodeView|
        !spec_exclude_path(n.id, cs.exclude, cs.pattern, cs.case_sensitive) && !any_matches(
            n.name,
            cs.exclude.projects,
            cs.pattern,
            cs.case_sensitive,
        )
}

/// Exclusion goes before classification: no node of the project graph has
/// an excluded path as its id or an excluded name, whatever layer its name
/// would be classified as.
pub proof fn lemma_excluded_project_is_no_node(
    files: Seq<ProjectFileView>,
    config: ConfigView,
    i: int,
)
    requires
        config.csharp is Some,
        0 <= i < ProjectDependencyManager::spec_nodes(files, config).len(),
    ensures
        is_kept(config.csharp->0)(ProjectDependencyManager::spec_nodes(files, config)[i]),
{
    let candidates = project_candidates(files, config);
    let kept = is_kept(config.csharp->0);
    assert forall|k: int| 0 <= k < candidates.len() && (#[trigger] candidates[k]) is Some implies kept(
        candidates[k]->0,
    ) by {}
    lemma_intern_all_keeps(Seq::empty(), candidates, kept);
}

} // verus!
