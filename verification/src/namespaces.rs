//! The namespace analyzer: build the graph of the namespaces that source
//! files declare and of the namespaces that they import.

use vstd::prelude::*;
use crate::analysis::{
    intern_all, intern_candidate, lemma_candidate_is_interned, lemma_intern_all,
    lemma_intern_all_keeps, lemma_intern_all_keeps_ids, AnalysisError, GraphDependencies,
};
use crate::config::{color_for, Config, ConfigView, Csharp, CsharpView};
use crate::graph::{
    connect, edges_valid, empty_dependencies, find_node, has_id, index_of, intern_node,
    lemma_connect_keeps_valid, lemma_intern_keeps_ids, lemma_intern_keeps_unique,
    no_duplicate_edges, no_edges,
    spec_connect, spec_intern, unique_ids, EdgeView, Node, NodeDependencies, NodeView,
};
use crate::patterns::{
    any_matches, determine_layer, exclude_files_and_folders, exclude_namespaces, regex_captures,
    spec_capture, spec_determine_layer, spec_exclude_path,
};
use crate::rules::{is_allowed, spec_is_allowed};
use crate::seqs::{index_view, lemma_first_where};
use crate::text::{
    has_extension, lemma_strip_bom_absorbs, spec_has_extension, spec_lines, split_lines,
    strip_bom, RemoveBom, BOM,
};

verus! {

/// The shape of a line that declares a namespace: the keyword, white space,
/// one qualified name, and at most a semicolon after it.
pub const NAMESPACE_LINE: &'static str = "^namespace\\s+([\\p{L}\\p{N}_\\.]+);?$";

/// The shape of a line that imports a namespace.
pub const USING_LINE: &'static str = "^using\\s+([\\p{L}\\p{N}_\\.]+);?$";

/// The id of the node that stands for code outside any declared namespace.
pub const GLOBAL_NAMESPACE: &'static str = "global::namespace";

/// A source file that was found under the root directory.
#[derive(Debug, Clone)]
pub struct SourceFile {
    /// Its path.
    pub path: String,
    /// Its file name.
    pub name: String,
    /// Its whole text.
    pub text: String,
}

/// What a `SourceFile` holds.
pub struct SourceFileView {
    pub path: Seq<char>,
    pub name: Seq<char>,
    pub text: Seq<char>,
}

impl DeepView for SourceFile {
    type V = SourceFileView;

    open spec fn deep_view(&self) -> SourceFileView {
        SourceFileView { path: self.path@, name: self.name@, text: self.text@ }
    }
}

/// What a line of a source file says about namespaces.
#[derive(Debug, Clone)]
pub enum SourceLine {
    /// It declares the namespace.
    Namespace(String),
    /// It imports the namespace.
    Using(String),
    /// It does neither.
    Other,
}

/// What a `SourceLine` holds.
pub enum LineView {
    Namespace(Seq<char>),
    Using(Seq<char>),
    Other,
}

impl DeepView for SourceLine {
    type V = LineView;

    open spec fn deep_view(&self) -> LineView {
        match self {
            SourceLine::Namespace(name) => LineView::Namespace(name@),
            SourceLine::Using(name) => LineView::Using(name@),
            SourceLine::Other => LineView::Other,
        }
    }
}

/// What a line says, given the name that it declares and the name that it
/// imports, if any: a declaration goes first.
pub open spec fn spec_classify_line(
    declared: Option<Seq<char>>,
    imported: Option<Seq<char>>,
) -> LineView {
    match declared {
        Some(name) => LineView::Namespace(name),
        None => match imported {
            Some(name) => LineView::Using(name),
            None => LineView::Other,
        },
    }
}

/// What a line says: the two shapes are tried on the whole line.
pub open spec fn spec_scan_line(line: Seq<char>) -> LineView {
    spec_classify_line(spec_capture(NAMESPACE_LINE@, line), spec_capture(USING_LINE@, line))
}

/// What the lines of a text say, once its byte-order mark is stripped.
pub open spec fn spec_scan(text: Seq<char>) -> Seq<LineView> {
    let lines = spec_lines(strip_bom(text));
    Seq::new(lines.len(), |i: int| spec_scan_line(lines[i]))
}

/// What a line says, given the name that it declares and the name that it
/// imports, if any.
pub fn classify_line(declared: Option<&String>, imported: Option<&String>) -> (r: SourceLine)
    ensures
        r.deep_view() == spec_classify_line(declared.deep_view(), imported.deep_view()),
{
    match declared {
        Some(name) => SourceLine::Namespace(name.clone()),
        None => match imported {
            Some(name) => SourceLine::Using(name.clone()),
            None => SourceLine::Other,
        },
    }
}

/// Scans a text line by line for namespace declarations and imports.
pub fn scan_source(text: &str) -> (r: Vec<SourceLine>)
    ensures
        r.deep_view() == spec_scan(text@),
{
    let clean = text.to_owned().remove_bom();
    let lines = split_lines(clean.as_str());
    let declared = regex_captures(NAMESPACE_LINE, &lines);
    let imported = regex_captures(USING_LINE, &lines);
    let mut scanned: Vec<SourceLine> = Vec::new();
    let mut i: usize = 0;
    while i < lines.len()
        invariant
            i <= lines@.len(),
            lines.deep_view() == spec_lines(strip_bom(text@)),
            declared@.len() == lines@.len(),
            imported@.len() == lines@.len(),
            forall|j: int|
                0 <= j < lines@.len() ==> (#[trigger] declared@[j]).deep_view() == spec_capture(
                    NAMESPACE_LINE@,
                    lines@[j]@,
                ),
            forall|j: int|
                0 <= j < lines@.len() ==> (#[trigger] imported@[j]).deep_view() == spec_capture(
                    USING_LINE@,
                    lines@[j]@,
                ),
            scanned@.len() == i,
            forall|j: int|
                0 <= j < i ==> (#[trigger] scanned@[j]).deep_view() == spec_scan_line(lines@[j]@),
        decreases lines@.len() - i,
    {
        let line = classify_line(declared[i].as_ref(), imported[i].as_ref());
        scanned.push(line);
        i += 1;
    }
    proof {
        assert forall|j: int| 0 <= j < lines@.len() implies #[trigger] scanned.deep_view()[j]
            == spec_scan(text@)[j] by {}
    }
    scanned
}

/// A byte-order mark at the start of a text changes nothing of what its
/// lines say, and so nothing of the nodes and edges that the text gives.
pub proof fn lemma_scan_ignores_bom(text: Seq<char>)
    ensures
        spec_scan(seq![BOM] + text) == spec_scan(text),
        spec_scan(strip_bom(text)) == spec_scan(text),
{
    lemma_strip_bom_absorbs(text);
}

/// Whether a path is that of a source file to read: it is not excluded and
/// its name has the extension of source files.
pub open spec fn spec_wanted_source(path: Seq<char>, name: Seq<char>, cs: CsharpView) -> bool {
    !spec_exclude_path(path, cs.exclude, cs.pattern, cs.case_sensitive) && spec_has_extension(
        name,
        "cs"@,
    )
}

/// Whether a namespace is left out of the graph.
pub open spec fn is_excluded(name: Seq<char>, cs: CsharpView) -> bool {
    any_matches(name, cs.exclude.namespaces, cs.pattern, cs.case_sensitive)
}

/// The node of a namespace: nothing where the namespace is excluded, and
/// nothing without C# settings.
pub open spec fn namespace_node(name: Seq<char>, config: ConfigView) -> Option<NodeView> {
    match config.csharp {
        Some(cs) => if is_excluded(name, cs) {
            None
        } else {
            let layer = spec_determine_layer(name, cs.namespaces, cs.case_sensitive, cs.pattern);
            Some(
                NodeView {
                    id: name,
                    name,
                    layer,
                    node_type: "namespace"@,
                    color: color_for(layer, config.global.colors),
                },
            )
        },
        None => None,
    }
}

/// The node that a line gives: that of the namespace it declares or imports.
pub open spec fn line_node(line: LineView, config: ConfigView) -> Option<NodeView> {
    match line {
        LineView::Namespace(name) => namespace_node(name, config),
        LineView::Using(name) => namespace_node(name, config),
        LineView::Other => None,
    }
}

/// The node that each line gives, in order.
pub open spec fn line_nodes(lines: Seq<LineView>, config: ConfigView) -> Seq<Option<NodeView>> {
    Seq::new(lines.len(), |i: int| line_node(lines[i], config))
}

/// What the lines of a file say: nothing where the file is excluded or is
/// no source file, and nothing without C# settings.
pub open spec fn file_lines(file: SourceFileView, config: ConfigView) -> Seq<LineView> {
    match config.csharp {
        Some(cs) => if spec_wanted_source(file.path, file.name, cs) {
            spec_scan(file.text)
        } else {
            Seq::empty()
        },
        None => Seq::empty(),
    }
}

/// The nodes of the first `count` files.
pub open spec fn namespace_nodes_upto(files: Seq<SourceFileView>, config: ConfigView, count: nat) -> Seq<
    NodeView,
>
    decreases count,
{
    if count == 0 {
        Seq::empty()
    } else {
        intern_all(
            namespace_nodes_upto(files, config, (count - 1) as nat),
            line_nodes(file_lines(files[count - 1], config), config),
        )
    }
}

/// The node that stands for code outside any declared namespace.
pub open spec fn global_node() -> NodeView {
    NodeView {
        id: GLOBAL_NAMESPACE@,
        name: GLOBAL_NAMESPACE@,
        layer: "unknown"@,
        node_type: "namespace"@,
        color: "gray"@,
    }
}

/// The edges so far, and the node of the namespace that the lines so far
/// have put the following imports in.
pub type LinkState = (Seq<Seq<EdgeView>>, Option<int>);

/// What a line does to the edges and to the current namespace. A
/// declaration makes its namespace the current one: none where that
/// namespace is no node. An import adds an edge from the current namespace
/// to the imported one, where both are nodes. A line about an excluded
/// namespace does nothing, and without C# settings no line does anything.
pub open spec fn link_line(
    nodes: Seq<NodeView>,
    config: ConfigView,
    state: LinkState,
    line: LineView,
) -> LinkState {
    match (config.csharp, line) {
        (Some(cs), LineView::Namespace(name)) => if is_excluded(name, cs) {
            state
        } else {
            (state.0, index_of(nodes, name))
        },
        (Some(cs), LineView::Using(name)) => if is_excluded(name, cs) {
            state
        } else {
            match (state.1, index_of(nodes, name)) {
                (Some(from), Some(to)) => (
                    spec_connect(
                        nodes,
                        state.0,
                        from,
                        to,
                        spec_is_allowed(nodes[from].layer, nodes[to].layer, config.global.rules),
                    ),
                    state.1,
                ),
                _ => state,
            }
        },
        _ => state,
    }
}

/// What the lines do, one after the other, to the edges and to the current
/// namespace.
pub open spec fn link_lines(
    nodes: Seq<NodeView>,
    config: ConfigView,
    state: LinkState,
    lines: Seq<LineView>,
) -> LinkState
    decreases lines.len(),
{
    if lines.len() == 0 {
        state
    } else {
        link_line(nodes, config, link_lines(nodes, config, state, lines.drop_last()), lines.last())
    }
}

/// The edges after the files up to `count` were read. Each file starts in
/// the global namespace.
pub open spec fn namespace_edges_upto(
    files: Seq<SourceFileView>,
    nodes: Seq<NodeView>,
    config: ConfigView,
    count: nat,
) -> Seq<Seq<EdgeView>>
    decreases count,
{
    if count == 0 {
        no_edges(nodes.len())
    } else {
        link_lines(
            nodes,
            config,
            (
                namespace_edges_upto(files, nodes, config, (count - 1) as nat),
                index_of(nodes, GLOBAL_NAMESPACE@),
            ),
            file_lines(files[count - 1], config),
        ).0
    }
}

/// Without C# settings the lines of a file change nothing.
proof fn lemma_no_settings_no_links(
    nodes: Seq<NodeView>,
    config: ConfigView,
    state: LinkState,
    lines: Seq<LineView>,
)
    requires
        config.csharp is None,
    ensures
        link_lines(nodes, config, state, lines) == state,
    decreases lines.len(),
{
    if lines.len() > 0 {
        lemma_no_settings_no_links(nodes, config, state, lines.drop_last());
    }
}

/// The analyzer of namespaces and of the imports between them.
pub struct NamespaceDependencyManager;

impl NamespaceDependencyManager {
    /// Whether the file at a path is a source file to read: it is not
    /// excluded, and its name has the extension of source files.
    pub fn wants(path: &str, name: &str, settings: &Csharp) -> (r: bool)
        ensures
            r == spec_wanted_source(path@, name@, settings.deep_view()),
    {
        !exclude_files_and_folders(
            path,
            &settings.exclude,
            settings.pattern.as_str(),
            settings.case_sensitive,
        ) && has_extension(name, "cs")
    }

    /// What the lines of a file say: nothing where the file is excluded or
    /// is no source file.
    pub fn lines_of(file: &SourceFile, config: &Config) -> (r: Vec<SourceLine>)
        ensures
            r.deep_view() == file_lines(file.deep_view(), config.deep_view()),
    {
        let wanted = match &config.csharp {
            Some(settings) => Self::wants(file.path.as_str(), file.name.as_str(), settings),
            None => false,
        };
        if wanted {
            scan_source(file.text.as_str())
        } else {
            Vec::new()
        }
    }

    /// The node of a namespace, unless the namespace is excluded.
    pub fn node_of(name: &str, config: &Config) -> (r: Option<Node>)
        ensures
            r.deep_view() == namespace_node(name@, config.deep_view()),
    {
        let settings = match &config.csharp {
            Some(s) => s,
            None => {
                return None;
            },
        };
        if exclude_namespaces(
            name,
            &settings.exclude,
            settings.pattern.as_str(),
            settings.case_sensitive,
        ) {
            return None;
        }
        let layer = determine_layer(
            name,
            &settings.namespaces,
            settings.case_sensitive,
            settings.pattern.as_str(),
        );
        let color = config.color_or_gray(layer.as_str());
        Some(
            Node {
                id: name.to_owned(),
                name: name.to_owned(),
                layer,
                node_type: "namespace".to_owned(),
                color,
            },
        )
    }

    /// Interns the namespaces that the lines declare or import.
    pub fn collect_lines(nodes: &mut Vec<Node>, lines: &[SourceLine], config: &Config)
        ensures
            final(nodes).deep_view() == intern_all(
                old(nodes).deep_view(),
                line_nodes(lines.deep_view(), config.deep_view()),
            ),
            unique_ids(old(nodes).deep_view()) ==> unique_ids(final(nodes).deep_view()),
    {
        let ghost start = nodes.deep_view();
        let ghost candidates = line_nodes(lines.deep_view(), config.deep_view());
        let mut k: usize = 0;
        while k < lines.len()
            invariant
                k <= lines@.len(),
                candidates == line_nodes(lines.deep_view(), config.deep_view()),
                nodes.deep_view() == intern_all(start, candidates.take(k as int)),
                unique_ids(start) ==> unique_ids(nodes.deep_view()),
            decreases lines@.len() - k,
        {
            let candidate = match &lines[k] {
                SourceLine::Namespace(name) => Self::node_of(name.as_str(), config),
                SourceLine::Using(name) => Self::node_of(name.as_str(), config),
                SourceLine::Other => None,
            };
            proof {
                assert(candidates.take(k as int + 1).drop_last() =~= candidates.take(k as int));
            }
            intern_candidate(nodes, candidate);
            k += 1;
        }
        proof {
            assert(candidates.take(k as int) =~= candidates);
        }
    }

    /// Adds the edges that the lines of one file give, starting in the
    /// given namespace, and says in which namespace the lines end.
    pub fn link_lines(
        nodes: &[Node],
        config: &Config,
        deps: &mut NodeDependencies,
        context: Option<usize>,
        lines: &[SourceLine],
    ) -> (r: Option<usize>)
        ensures
            (final(deps).deep_view(), index_view(r)) == link_lines(
                nodes.deep_view(),
                config.deep_view(),
                (old(deps).deep_view(), index_view(context)),
                lines.deep_view(),
            ),
    {
        let ghost views = nodes.deep_view();
        let ghost cfg = config.deep_view();
        let ghost start: LinkState = (deps.deep_view(), index_view(context));
        let ghost all = lines.deep_view();
        let settings = match &config.csharp {
            Some(s) => s,
            None => {
                proof {
                    lemma_no_settings_no_links(views, cfg, start, all);
                }
                return context;
            },
        };
        let mut current: Option<usize> = context;
        let mut k: usize = 0;
        while k < lines.len()
            invariant
                k <= lines@.len(),
                config.csharp == Some(*settings),
                views == nodes.deep_view(),
                cfg == config.deep_view(),
                all == lines.deep_view(),
                (deps.deep_view(), index_view(current)) == link_lines(
                    views,
                    cfg,
                    start,
                    all.take(k as int),
                ),
            decreases lines@.len() - k,
        {
            proof {
                assert(all.take(k as int + 1).drop_last() =~= all.take(k as int));
            }
            match &lines[k] {
                SourceLine::Namespace(name) => {
                    if !exclude_namespaces(
                        name.as_str(),
                        &settings.exclude,
                        settings.pattern.as_str(),
                        settings.case_sensitive,
                    ) {
                        current = find_node(nodes, name.as_str());
                    }
                },
                SourceLine::Using(name) => {
                    if !exclude_namespaces(
                        name.as_str(),
                        &settings.exclude,
                        settings.pattern.as_str(),
                        settings.case_sensitive,
                    ) {
                        if let Some(from) = current {
                            if let Some(to) = find_node(nodes, name.as_str()) {
                                if from < nodes.len() {
                                    let allowed = is_allowed(
                                        nodes[from].layer.as_str(),
                                        nodes[to].layer.as_str(),
                                        &config.global.rules,
                                    );
                                    connect(nodes, deps, from, to, allowed);
                                }
                            }
                        }
                    }
                },
                SourceLine::Other => {},
            }
            k += 1;
        }
        proof {
            assert(all.take(k as int) =~= all);
        }
        current
    }
}

impl GraphDependencies for NamespaceDependencyManager {
    type Source = SourceFile;

    /// The analysis needs the C# settings.
    open spec fn spec_configured(config: ConfigView) -> bool {
        config.csharp is Some
    }

    /// Finding the dependencies fails only where the C# settings are missing.
    open spec fn spec_failure(
        sources: Seq<SourceFileView>,
        nodes: Seq<NodeView>,
        config: ConfigView,
    ) -> Option<AnalysisError> {
        if config.csharp is None {
            Some(AnalysisError::MissingSettings)
        } else {
            None
        }
    }

    /// One node for each namespace that a line of a source file declares or
    /// imports, in the order in which they are first met, and after them
    /// the node of the global namespace.
    open spec fn spec_nodes(sources: Seq<SourceFileView>, config: ConfigView) -> Seq<NodeView> {
        spec_intern(namespace_nodes_upto(sources, config, sources.len()), global_node()).0
    }

    /// For each import an edge from the namespace that the file was in at
    /// that line to the imported one.
    open spec fn spec_dependencies(
        sources: Seq<SourceFileView>,
        nodes: Seq<NodeView>,
        config: ConfigView,
    ) -> Seq<Seq<EdgeView>> {
        namespace_edges_upto(sources, nodes, config, sources.len())
    }

    fn collect_nodes(sources: &[SourceFile], config: &Config) -> (r: Result<
        Vec<Node>,
        AnalysisError,
    >) {
        if config.csharp.is_none() {
            return Err(AnalysisError::MissingSettings);
        }
        let ghost files = sources.deep_view();
        let mut nodes: Vec<Node> = Vec::new();
        let mut i: usize = 0;
        while i < sources.len()
            invariant
                i <= sources@.len(),
                config.csharp is Some,
                files == sources.deep_view(),
                nodes.deep_view() == namespace_nodes_upto(files, config.deep_view(), i as nat),
                unique_ids(nodes.deep_view()),
            decreases sources@.len() - i,
        {
            let lines = Self::lines_of(&sources[i], config);
            Self::collect_lines(&mut nodes, lines.as_slice(), config);
            i += 1;
        }
        let global = Node {
            id: GLOBAL_NAMESPACE.to_owned(),
            name: GLOBAL_NAMESPACE.to_owned(),
            layer: "unknown".to_owned(),
            node_type: "namespace".to_owned(),
            color: "gray".to_owned(),
        };
        intern_node(&mut nodes, global);
        Ok(nodes)
    }

    fn find_dependencies(sources: &[SourceFile], nodes: &[Node], config: &Config) -> (r: Result<
        NodeDependencies,
        AnalysisError,
    >) {
        if config.csharp.is_none() {
            return Err(AnalysisError::MissingSettings);
        }
        let ghost files = sources.deep_view();
        let ghost views = nodes.deep_view();
        let global = find_node(nodes, GLOBAL_NAMESPACE);
        let mut deps = empty_dependencies(nodes.len());
        let mut i: usize = 0;
        while i < sources.len()
            invariant
                i <= sources@.len(),
                config.csharp is Some,
                files == sources.deep_view(),
                views == nodes.deep_view(),
                index_view(global) == index_of(views, GLOBAL_NAMESPACE@),
                deps.deep_view() == namespace_edges_upto(files, views, config.deep_view(), i as nat),
            decreases sources@.len() - i,
        {
            let lines = Self::lines_of(&sources[i], config);
            Self::link_lines(nodes, config, &mut deps, global, lines.as_slice());
            i += 1;
        }
        proof {
            lemma_namespace_edges_upto_valid(files, views, config.deep_view(), files.len());
        }
        Ok(deps)
    }
}

/// What the lines of a file do keeps every edge within the node list and
/// gives no node two edges to the same target.
proof fn lemma_link_lines_valid(
    nodes: Seq<NodeView>,
    config: ConfigView,
    state: LinkState,
    lines: Seq<LineView>,
)
    requires
        edges_valid(state.0, nodes.len()),
        no_duplicate_edges(state.0),
    ensures
        edges_valid(link_lines(nodes, config, state, lines).0, nodes.len()),
        no_duplicate_edges(link_lines(nodes, config, state, lines).0),
    decreases lines.len(),
{
    if lines.len() > 0 {
        let before = link_lines(nodes, config, state, lines.drop_last());
        lemma_link_lines_valid(nodes, config, state, lines.drop_last());
        match (config.csharp, lines.last(), before.1) {
            (Some(cs), LineView::Using(name), Some(from)) => match index_of(nodes, name) {
                Some(to) => {
                    lemma_connect_keeps_valid(
                        nodes,
                        before.0,
                        from,
                        to,
                        spec_is_allowed(nodes[from].layer, nodes[to].layer, config.global.rules),
                    );
                },
                None => {},
            },
            _ => {},
        }
    }
}

/// The edges of the first `count` files stay within the node list.
proof fn lemma_namespace_edges_upto_valid(
    files: Seq<SourceFileView>,
    nodes: Seq<NodeView>,
    config: ConfigView,
    count: nat,
)
    ensures
        edges_valid(namespace_edges_upto(files, nodes, config, count), nodes.len()),
        no_duplicate_edges(namespace_edges_upto(files, nodes, config, count)),
    decreases count,
{
    if count > 0 {
        lemma_namespace_edges_upto_valid(files, nodes, config, (count - 1) as nat);
        lemma_link_lines_valid(
            nodes,
            config,
            (
                namespace_edges_upto(files, nodes, config, (count - 1) as nat),
                index_of(nodes, GLOBAL_NAMESPACE@),
            ),
            file_lines(files[count - 1], config),
        );
    }
}

/// The nodes of the first `count` files have distinct ids.
proof fn lemma_namespace_nodes_upto_unique(
    files: Seq<SourceFileView>,
    config: ConfigView,
    count: nat,
)
    ensures
        unique_ids(namespace_nodes_upto(files, config, count)),
    decreases count,
{
    if count > 0 {
        lemma_namespace_nodes_upto_unique(files, config, (count - 1) as nat);
        lemma_intern_all(
            namespace_nodes_upto(files, config, (count - 1) as nat),
            line_nodes(file_lines(files[count - 1], config), config),
        );
    }
}

/// The namespace graph is a graph: no two of its nodes share an id, every
/// edge leads to one of the nodes it was found between, and no node has two
/// edges to the same target.
pub proof fn lemma_namespace_graph_is_valid(
    files: Seq<SourceFileView>,
    nodes: Seq<NodeView>,
    config: ConfigView,
)
    ensures
        unique_ids(NamespaceDependencyManager::spec_nodes(files, config)),
        edges_valid(
            NamespaceDependencyManager::spec_dependencies(files, nodes, config),
            nodes.len(),
        ),
        no_duplicate_edges(NamespaceDependencyManager::spec_dependencies(files, nodes, config)),
{
    lemma_namespace_nodes_upto_unique(files, config, files.len());
    lemma_intern_keeps_unique(
        namespace_nodes_upto(files, config, files.len()),
        global_node(),
    );
    lemma_namespace_edges_upto_valid(files, nodes, config, files.len());
}

/// An id that the nodes of the first `count` files have, the nodes of more
/// files have too.
proof fn lemma_upto_keeps_ids(
    files: Seq<SourceFileView>,
    config: ConfigView,
    count: nat,
    more: nat,
    id: Seq<char>,
)
    requires
        count <= more,
        index_of(namespace_nodes_upto(files, config, count), id) is Some,
    ensures
        index_of(namespace_nodes_upto(files, config, more), id) is Some,
    decreases more,
{
    if count < more {
        lemma_upto_keeps_ids(files, config, count, (more - 1) as nat, id);
        lemma_intern_all_keeps_ids(
            namespace_nodes_upto(files, config, (more - 1) as nat),
            line_nodes(file_lines(files[more - 1], config), config),
            id,
        );
    }
}

/// No namespace is lost: each line of a source file that gives a node, be it
/// a declaration or an import, has a node with its namespace in the
/// namespace graph.
pub proof fn lemma_every_namespace_is_a_node(
    files: Seq<SourceFileView>,
    config: ConfigView,
    k: int,
    j: int,
)
    requires
        0 <= k < files.len(),
        0 <= j < file_lines(files[k], config).len(),
        line_node(file_lines(files[k], config)[j], config) is Some,
    ensures
        index_of(
            NamespaceDependencyManager::spec_nodes(files, config),
            line_node(file_lines(files[k], config)[j], config)->0.id,
        ) is Some,
{
    let lines = file_lines(files[k], config);
    let candidates = line_nodes(lines, config);
    let id = line_node(lines[j], config)->0.id;
    assert(candidates[j] == line_node(lines[j], config));
    lemma_candidate_is_interned(namespace_nodes_upto(files, config, k as nat), candidates, j);
    lemma_upto_keeps_ids(files, config, (k + 1) as nat, files.len(), id);
    lemma_intern_keeps_ids(namespace_nodes_upto(files, config, files.len()), global_node(), id);
}

/// Two lists of source files that differ at most in the byte-order marks
/// at the start of their texts.
pub open spec fn same_but_for_marks(a: Seq<SourceFileView>, b: Seq<SourceFileView>) -> bool {
    &&& a.len() == b.len()
    &&& forall|i: int|
        0 <= i < a.len() ==> (#[trigger] a[i]).path == b[i].path && a[i].name == b[i].name
            && strip_bom(a[i].text) == strip_bom(b[i].text)
}

/// The first `count` files of two lists that differ at most in byte-order
/// marks give the same nodes and edges.
proof fn lemma_marks_change_nothing_upto(
    a: Seq<SourceFileView>,
    b: Seq<SourceFileView>,
    nodes: Seq<NodeView>,
    config: ConfigView,
    count: nat,
)
    requires
        same_but_for_marks(a, b),
        count <= a.len(),
    ensures
        namespace_nodes_upto(a, config, count) == namespace_nodes_upto(b, config, count),
        namespace_edges_upto(a, nodes, config, count) == namespace_edges_upto(
            b,
            nodes,
            config,
            count,
        ),
    decreases count,
{
    if count > 0 {
        lemma_marks_change_nothing_upto(a, b, nodes, config, (count - 1) as nat);
    }
}

/// Scanning a source with and without byte-order marks at its start gives
/// the same graph: the same nodes in the same order, and the same edges.
pub proof fn lemma_marks_change_no_graph(
    a: Seq<SourceFileView>,
    b: Seq<SourceFileView>,
    nodes: Seq<NodeView>,
    config: ConfigView,
)
    requires
        same_but_for_marks(a, b),
    ensures
        NamespaceDependencyManager::spec_nodes(a, config) == NamespaceDependencyManager::spec_nodes(
            b,
            config,
        ),
        NamespaceDependencyManager::spec_dependencies(a, nodes, config)
            == NamespaceDependencyManager::spec_dependencies(b, nodes, config),
{
    lemma_marks_change_nothing_upto(a, b, nodes, config, a.len());
}

/// The test that a node is that of the global namespace or of a namespace
/// that is not excluded.
pub open spec fn is_kept(cs: CsharpView) -> spec_fn(NodeView) -> bool {
    |n: NodeView| n == global_node() || !is_excluded(n.id, cs)
}

/// The nodes of the first `count` files are all of namespaces that are not
/// excluded.
proof fn lemma_upto_is_kept(files: Seq<SourceFileView>, config: ConfigView, count: nat)
    requires
        config.csharp is Some,
    ensures
        forall|i: int|
            0 <= i < namespace_nodes_upto(files, config, count).len() ==> is_kept(config.csharp->0)(
                #[trigger] namespace_nodes_upto(files, config, count)[i],
            ),
    decreases count,
{
    if count > 0 {
        let before = namespace_nodes_upto(files, config, (count - 1) as nat);
        let lines = file_lines(files[count - 1], config);
        let candidates = line_nodes(lines, config);
        let kept = is_kept(config.csharp->0);
        lemma_upto_is_kept(files, config, (count - 1) as nat);
        assert forall|k: int| 0 <= k < candidates.len() && (#[trigger] candidates[k]) is Some implies kept(
            candidates[k]->0,
        ) by {}
        lemma_intern_all_keeps(before, candidates, kept);
    }
}

/// Exclusion goes before classification: a file with an excluded path is
/// not scanned, and no node of the namespace graph, but for the node of the
/// global namespace, is that of an excluded namespace, whatever layer its
/// name would be classified as.
pub proof fn lemma_excluded_namespace_is_no_node(
    files: Seq<SourceFileView>,
    config: ConfigView,
    i: int,
)
    requires
        config.csharp is Some,
        0 <= i < NamespaceDependencyManager::spec_nodes(files, config).len(),
    ensures
        is_kept(config.csharp->0)(NamespaceDependencyManager::spec_nodes(files, config)[i]),
        forall|k: int|
            0 <= k < files.len() && spec_exclude_path(
                (#[trigger] files[k]).path,
                config.csharp->0.exclude,
                config.csharp->0.pattern,
                config.csharp->0.case_sensitive,
            ) ==> file_lines(files[k], config).len() == 0,
{
    let found = namespace_nodes_upto(files, config, files.len());
    lemma_upto_is_kept(files, config, files.len());
    lemma_intern_keeps_unique(found, global_node());
    if i >= found.len() {
        lemma_first_where(found, has_id(global_node().id));
    }
}

} // verus!
