use depscop::analysis::{analyze, AnalysisError, GraphDependencies};
use depscop::config::Config;
use depscop::graph::{check_edges, Node, NodeDependencies};
use depscop::namespaces::{
    classify_line, scan_source, NamespaceDependencyManager, SourceFile, SourceLine,
    GLOBAL_NAMESPACE,
};

fn file(path: &str, text: &str) -> SourceFile {
    let name = path.rsplit('/').next().unwrap_or(path);
    SourceFile { path: path.to_string(), name: name.to_string(), text: text.to_string() }
}

fn kinds(lines: &[SourceLine]) -> Vec<String> {
    lines
        .iter()
        .map(|line| match line {
            SourceLine::Namespace(name) => format!("namespace {}", name),
            SourceLine::Using(name) => format!("using {}", name),
            SourceLine::Other => "other".to_string(),
        })
        .collect()
}

fn ids(nodes: &[Node]) -> Vec<&str> {
    nodes.iter().map(|n| n.id.as_str()).collect()
}

fn edges(nodes: &[Node], deps: &NodeDependencies) -> Vec<(String, String, bool)> {
    let mut all = Vec::new();
    for (from, list) in deps.iter().enumerate() {
        for edge in list {
            all.push((nodes[from].id.clone(), nodes[edge.to].id.clone(), edge.allowed));
        }
    }
    all
}

fn edge(from: &str, to: &str, allowed: bool) -> (String, String, bool) {
    (from.to_string(), to.to_string(), allowed)
}

fn run(files: &Vec<SourceFile>, config: &Config) -> (Vec<Node>, NodeDependencies) {
    let nodes = NamespaceDependencyManager::collect_nodes(files, config).expect("nodes");
    let deps = NamespaceDependencyManager::find_dependencies(files, &nodes, config).expect("edges");
    assert!(check_edges(&nodes, &deps));
    (nodes, deps)
}

#[test]
fn scan_source_reads_declarations_and_imports() {
    let text = "using System;\nusing App.Entities;\n\nnamespace App.IO\n{\n    class A {}\n}\n";
    assert_eq!(
        kinds(&scan_source(text)),
        vec![
            "using System",
            "using App.Entities",
            "other",
            "namespace App.IO",
            "other",
            "other",
            "other"
        ]
    );
}

#[test]
fn scan_source_takes_an_optional_semicolon() {
    assert_eq!(kinds(&scan_source("namespace A.B;")), vec!["namespace A.B"]);
    assert_eq!(kinds(&scan_source("namespace A.B")), vec!["namespace A.B"]);
    assert_eq!(kinds(&scan_source("using A.B")), vec!["using A.B"]);
    assert_eq!(kinds(&scan_source("using A.B;;")), vec!["other"]);
}

#[test]
fn scan_source_wants_the_whole_line() {
    let text = " using A;\nusing A; // why\nusing static A.B;\nusing X = A.B;\nnamespace A {\nusing\tA_1.Ünï9;\nusingA;\nnamespace  ;";
    assert_eq!(
        kinds(&scan_source(text)),
        vec!["other", "other", "other", "other", "other", "using A_1.Ünï9", "other", "other"]
    );
}

#[test]
fn scan_source_handles_carriage_returns() {
    assert_eq!(
        kinds(&scan_source("using A;\r\nnamespace B;\r\n")),
        vec!["using A", "namespace B"]
    );
}

#[test]
fn scan_source_of_empty_text() {
    assert!(scan_source("").is_empty());
    assert!(scan_source("\u{feff}").is_empty());
}

#[test]
fn scan_source_ignores_a_byte_order_mark() {
    let text = "using A.Entities;\nnamespace B.IO;\nusing C;\n";
    let marked = format!("\u{feff}{}", text);
    assert_eq!(kinds(&scan_source(&marked)), kinds(&scan_source(text)));
    assert_eq!(kinds(&scan_source(&marked))[0], "using A.Entities");
}

#[test]
fn classify_line_puts_a_declaration_first() {
    let a = "A".to_string();
    let b = "B".to_string();
    assert_eq!(kinds(&[classify_line(Some(&a), Some(&b))]), vec!["namespace A"]);
    assert_eq!(kinds(&[classify_line(Some(&a), None)]), vec!["namespace A"]);
    assert_eq!(kinds(&[classify_line(None, Some(&b))]), vec!["using B"]);
    assert_eq!(kinds(&[classify_line(None, None)]), vec!["other"]);
}

#[test]
fn namespace_nodes_are_classified_and_colored() {
    let files = vec![file(
        "/repo/src/A.cs",
        "using App.Entities;\nusing System.Text;\nnamespace App.IO.Files;\n",
    )];
    let config = Config::default();
    let (nodes, _) = run(&files, &config);
    assert_eq!(ids(&nodes), vec!["App.Entities", "System.Text", "App.IO.Files", GLOBAL_NAMESPACE]);
    let layers: Vec<&str> = nodes.iter().map(|n| n.layer.as_str()).collect();
    assert_eq!(layers, vec!["core", "unknown", "io", "unknown"]);
    let colors: Vec<&str> = nodes.iter().map(|n| n.color.as_str()).collect();
    assert_eq!(colors, vec!["#FBFDB8", "gray", "#A7D7FD", "gray"]);
    for node in &nodes {
        assert_eq!(node.name, node.id);
        assert_eq!(node.node_type, "namespace");
    }
}

#[test]
fn global_namespace_is_always_a_node() {
    let config = Config::default();
    let (nodes, deps) = run(&Vec::new(), &config);
    assert_eq!(ids(&nodes), vec![GLOBAL_NAMESPACE]);
    assert_eq!(nodes[0].layer, "unknown");
    assert_eq!(nodes[0].color, "gray");
    assert_eq!(deps.len(), 1);
    assert!(deps[0].is_empty());
}

#[test]
fn namespace_met_in_several_files_is_one_node() {
    let files = vec![
        file("/repo/A.cs", "namespace App.Entities;\n"),
        file("/repo/B.cs", "using App.Entities;\nnamespace App.IO;\n"),
        file("/repo/C.cs", "using App.Entities;\nusing App.IO;\nnamespace App.Entities;\n"),
    ];
    let (nodes, _) = run(&files, &Config::default());
    assert_eq!(ids(&nodes), vec!["App.Entities", "App.IO", GLOBAL_NAMESPACE]);
}

#[test]
fn imports_attach_to_the_last_declared_namespace() {
    let files = vec![file(
        "/repo/A.cs",
        "namespace App.IO;\nusing App.Entities;\nnamespace App.UseCases;\nusing App.IO;\nusing App.Entities;\n",
    )];
    let (nodes, deps) = run(&files, &Config::default());
    assert_eq!(
        edges(&nodes, &deps),
        vec![
            edge("App.IO", "App.Entities", true),
            edge("App.UseCases", "App.IO", false),
            edge("App.UseCases", "App.Entities", true),
        ]
    );
    assert_eq!(deps[0].len(), 1);
    assert_eq!(deps[0][0].label, "App.IO -> App.Entities");
}

#[test]
fn imports_before_any_declaration_attach_to_the_global_namespace() {
    let files = vec![file(
        "/repo/A.cs",
        "using System;\nusing App.Entities;\nnamespace App.IO;\nusing App.UseCases;\n",
    )];
    let (nodes, deps) = run(&files, &Config::default());
    assert_eq!(
        edges(&nodes, &deps),
        vec![
            edge("App.IO", "App.UseCases", true),
            edge(GLOBAL_NAMESPACE, "System", false),
            edge(GLOBAL_NAMESPACE, "App.Entities", false),
        ]
    );
}

#[test]
fn each_file_starts_in_the_global_namespace() {
    let files = vec![
        file("/repo/A.cs", "namespace App.IO;\n"),
        file("/repo/B.cs", "using App.Entities;\n"),
    ];
    let (nodes, deps) = run(&files, &Config::default());
    assert_eq!(edges(&nodes, &deps), vec![edge(GLOBAL_NAMESPACE, "App.Entities", false)]);
}

#[test]
fn repeated_import_gives_one_edge() {
    let files = vec![
        file("/repo/A.cs", "namespace App.IO;\nusing App.Entities;\nusing App.Entities;\n"),
        file("/repo/B.cs", "namespace App.IO;\nusing App.Entities;\n"),
    ];
    let (nodes, deps) = run(&files, &Config::default());
    assert_eq!(edges(&nodes, &deps), vec![edge("App.IO", "App.Entities", true)]);
}

#[test]
fn namespace_may_import_itself() {
    let files = vec![file("/repo/A.cs", "namespace App.Entities;\nusing App.Entities;\n")];
    let (nodes, deps) = run(&files, &Config::default());
    assert_eq!(edges(&nodes, &deps), vec![edge("App.Entities", "App.Entities", true)]);
}

#[test]
fn excluded_namespace_is_no_node_and_no_edge() {
    let mut config = Config::default();
    config.csharp.as_mut().unwrap().exclude.namespaces = vec!["^System".to_string()];
    let files = vec![file(
        "/repo/A.cs",
        "namespace App.IO;\nusing System.IO;\nusing App.Entities;\nnamespace System.Entities;\nusing App.UseCases;\n",
    )];
    let (nodes, deps) = run(&files, &config);
    assert_eq!(ids(&nodes), vec!["App.IO", "App.Entities", "App.UseCases", GLOBAL_NAMESPACE]);
    assert_eq!(
        edges(&nodes, &deps),
        vec![edge("App.IO", "App.Entities", true), edge("App.IO", "App.UseCases", true)]
    );
}

#[test]
fn excluded_source_file_is_not_scanned() {
    let config = Config::default();
    let files = vec![
        file("/repo/obj/Debug/A.cs", "namespace Gen.Entities;\nusing Gen.IO;\n"),
        file("/repo/src/B.cs", "namespace App.IO;\n"),
        file("/repo/bin/C.cs", "using App.UseCases;\n"),
    ];
    let (nodes, deps) = run(&files, &config);
    assert_eq!(ids(&nodes), vec!["App.IO", GLOBAL_NAMESPACE]);
    assert!(edges(&nodes, &deps).is_empty());
}

#[test]
fn file_that_is_no_source_file_is_not_scanned() {
    let files = vec![
        file("/repo/src/notes.txt", "namespace Notes.Entities;\n"),
        file("/repo/src/B.csx", "namespace Script.IO;\n"),
        file("/repo/src/.cs", "namespace Hidden.IO;\n"),
        file("/repo/src/C.cs", "namespace App.IO;\n"),
    ];
    let (nodes, _) = run(&files, &Config::default());
    assert_eq!(ids(&nodes), vec!["App.IO", GLOBAL_NAMESPACE]);
}

#[test]
fn byte_order_mark_changes_neither_nodes_nor_edges() {
    let text = "using App.Entities;\nnamespace App.IO;\nusing App.UseCases;\nusing App.Entities;\n";
    let plain = vec![file("/repo/A.cs", text)];
    let marked = vec![file("/repo/A.cs", &format!("\u{feff}{}", text))];
    let config = Config::default();
    let (plain_nodes, plain_deps) = run(&plain, &config);
    let (marked_nodes, marked_deps) = run(&marked, &config);
    assert_eq!(ids(&plain_nodes), ids(&marked_nodes));
    assert_eq!(edges(&plain_nodes, &plain_deps), edges(&marked_nodes, &marked_deps));
    assert_eq!(ids(&marked_nodes)[0], "App.Entities");
    assert_eq!(edges(&marked_nodes, &marked_deps).len(), 3);
}

#[test]
fn declaration_of_an_unknown_namespace_drops_the_imports_after_it() {
    let config = Config::default();
    let nodes = NamespaceDependencyManager::collect_nodes(
        &vec![file("/repo/A.cs", "namespace App.IO;\nusing App.Entities;\n")],
        &config,
    )
    .expect("nodes");
    let other = vec![file(
        "/repo/B.cs",
        "using App.Entities;\nnamespace App.Other;\nusing App.Entities;\nnamespace App.IO;\nusing App.Missing;\nusing App.Entities;\n",
    )];
    let deps = NamespaceDependencyManager::find_dependencies(&other, &nodes, &config).expect("edges");
    assert_eq!(
        edges(&nodes, &deps),
        vec![edge("App.IO", "App.Entities", true), edge(GLOBAL_NAMESPACE, "App.Entities", false)]
    );
}

#[test]
fn namespace_analysis_needs_csharp_settings() {
    let mut config = Config::default();
    config.csharp = None;
    let files = vec![file("/repo/A.cs", "namespace App.IO;\n")];
    assert_eq!(
        NamespaceDependencyManager::collect_nodes(&files, &config).err(),
        Some(AnalysisError::MissingSettings)
    );
    assert_eq!(
        NamespaceDependencyManager::find_dependencies(&files, &Vec::new(), &config).err(),
        Some(AnalysisError::MissingSettings)
    );
    assert_eq!(
        analyze::<NamespaceDependencyManager>(&files, &config).err(),
        Some(AnalysisError::MissingSettings)
    );
}

#[test]
fn analyze_runs_both_phases_of_the_namespace_analysis() {
    let files = vec![file("/repo/A.cs", "namespace App.IO;\nusing App.Entities;\n")];
    let (nodes, deps) = analyze::<NamespaceDependencyManager>(&files, &Config::default()).expect("graph");
    assert_eq!(ids(&nodes), vec!["App.IO", "App.Entities", GLOBAL_NAMESPACE]);
    assert_eq!(edges(&nodes, &deps), vec![edge("App.IO", "App.Entities", true)]);
}

#[test]
fn wants_checks_exclusions_and_extension() {
    let config = Config::default();
    let settings = config.csharp.as_ref().unwrap();
    assert!(NamespaceDependencyManager::wants("/repo/src/A.cs", "A.cs", settings));
    assert!(!NamespaceDependencyManager::wants("/repo/obj/A.cs", "A.cs", settings));
    assert!(!NamespaceDependencyManager::wants("/repo/src/A.csproj", "A.csproj", settings));
}
