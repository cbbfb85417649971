use depscop::graph::{
    add_edge, check_edges, connect, edge_label, empty_dependencies, find_node, has_edge_to,
    intern_node, EdgeInfo, Node, NodeDependencies,
};

fn node(id: &str, layer: &str) -> Node {
    Node {
        id: id.to_string(),
        name: format!("{}-name", id),
        layer: layer.to_string(),
        node_type: "project".to_string(),
        color: "gray".to_string(),
    }
}

fn targets(deps: &NodeDependencies) -> Vec<Vec<usize>> {
    deps.iter().map(|edges| edges.iter().map(|e| e.to).collect()).collect()
}

#[test]
fn intern_node_appends_a_new_id() {
    let mut nodes: Vec<Node> = Vec::new();
    assert_eq!(intern_node(&mut nodes, node("a", "core")), 0);
    assert_eq!(intern_node(&mut nodes, node("b", "io")), 1);
    assert_eq!(intern_node(&mut nodes, node("c", "io")), 2);
    assert_eq!(nodes.len(), 3);
    assert_eq!(nodes[1].id, "b");
    assert_eq!(nodes[1].layer, "io");
}

#[test]
fn intern_node_twice_gives_the_same_index() {
    let mut nodes: Vec<Node> = Vec::new();
    intern_node(&mut nodes, node("a", "core"));
    let first = intern_node(&mut nodes, node("b", "io"));
    intern_node(&mut nodes, node("c", "io"));
    let length = nodes.len();
    let second = intern_node(&mut nodes, node("b", "io"));
    assert_eq!(first, second);
    assert_eq!(nodes.len(), length);
}

#[test]
fn intern_node_keeps_the_first_node_of_an_id() {
    let mut nodes: Vec<Node> = Vec::new();
    intern_node(&mut nodes, node("a", "core"));
    let index = intern_node(&mut nodes, node("a", "usecase"));
    assert_eq!(index, 0);
    assert_eq!(nodes.len(), 1);
    assert_eq!(nodes[0].layer, "core");
}

#[test]
fn find_node_looks_up_by_id() {
    let nodes = vec![node("a", "core"), node("b", "io")];
    assert_eq!(find_node(&nodes, "a"), Some(0));
    assert_eq!(find_node(&nodes, "b"), Some(1));
    assert_eq!(find_node(&nodes, "a-name"), None);
    assert_eq!(find_node(&nodes, ""), None);
    assert_eq!(find_node(&[], "a"), None);
}

#[test]
fn add_edge_appends_to_the_entry_of_the_source() {
    let mut deps = empty_dependencies(3);
    assert!(add_edge(&mut deps, 1, 0, true, "b -> a".to_string()));
    assert!(add_edge(&mut deps, 1, 2, false, "b -> c".to_string()));
    assert!(add_edge(&mut deps, 2, 2, true, "c -> c".to_string()));
    assert_eq!(targets(&deps), vec![vec![], vec![0, 2], vec![2]]);
    assert!(deps[1][0].allowed);
    assert!(!deps[1][1].allowed);
    assert_eq!(deps[1][1].label, "b -> c");
}

#[test]
fn add_edge_twice_adds_one_edge() {
    let mut deps = empty_dependencies(2);
    assert!(add_edge(&mut deps, 0, 1, true, "a -> b".to_string()));
    assert!(!add_edge(&mut deps, 0, 1, true, "a -> b".to_string()));
    assert!(!add_edge(&mut deps, 0, 1, false, "again".to_string()));
    assert_eq!(targets(&deps), vec![vec![1], vec![]]);
    assert!(deps[0][0].allowed);
    assert_eq!(deps[0][0].label, "a -> b");
}

#[test]
fn add_edge_drops_edges_that_leave_the_graph() {
    let mut deps = empty_dependencies(2);
    assert!(!add_edge(&mut deps, 0, 2, true, "out".to_string()));
    assert!(!add_edge(&mut deps, 2, 0, true, "out".to_string()));
    assert!(!add_edge(&mut deps, 7, 9, true, "out".to_string()));
    assert_eq!(targets(&deps), vec![vec![], vec![]]);
    let mut none = empty_dependencies(0);
    assert!(!add_edge(&mut none, 0, 0, true, "out".to_string()));
    assert!(none.is_empty());
}

#[test]
fn connect_labels_the_edge_with_both_names() {
    let nodes = vec![node("a", "core"), node("b", "io")];
    let mut deps = empty_dependencies(2);
    assert!(connect(&nodes, &mut deps, 1, 0, true));
    assert!(!connect(&nodes, &mut deps, 1, 0, false));
    assert_eq!(deps[1].len(), 1);
    assert_eq!(deps[1][0].to, 0);
    assert!(deps[1][0].allowed);
    assert_eq!(deps[1][0].label, "b-name -> a-name");
}

#[test]
fn edge_label_joins_names_with_an_arrow() {
    assert_eq!(edge_label("Bar.IO.csproj", "Foo.Entities.csproj"), "Bar.IO.csproj -> Foo.Entities.csproj");
    assert_eq!(edge_label("", ""), " -> ");
}

#[test]
fn has_edge_to_looks_at_targets() {
    let edges = vec![
        EdgeInfo { to: 2, allowed: true, label: String::new() },
        EdgeInfo { to: 0, allowed: false, label: String::new() },
    ];
    assert!(has_edge_to(&edges, 2));
    assert!(has_edge_to(&edges, 0));
    assert!(!has_edge_to(&edges, 1));
    assert!(!has_edge_to(&[], 0));
}

#[test]
fn empty_dependencies_has_an_entry_for_each_node() {
    assert_eq!(targets(&empty_dependencies(3)), vec![Vec::<usize>::new(); 3]);
    assert!(empty_dependencies(0).is_empty());
}

#[test]
fn check_edges_accepts_targets_inside_the_node_list() {
    let nodes = vec![node("a", "core"), node("b", "io")];
    let mut deps = empty_dependencies(2);
    add_edge(&mut deps, 0, 1, true, String::new());
    add_edge(&mut deps, 1, 1, true, String::new());
    assert!(check_edges(&nodes, &deps));
    assert!(check_edges(&[], &empty_dependencies(0)));
}

#[test]
fn check_edges_refuses_what_does_not_fit() {
    let nodes = vec![node("a", "core"), node("b", "io")];
    assert!(!check_edges(&nodes, &empty_dependencies(1)));
    assert!(!check_edges(&nodes, &empty_dependencies(3)));
    let far = vec![vec![], vec![EdgeInfo { to: 2, allowed: true, label: String::new() }]];
    assert!(!check_edges(&nodes, &far));
}
