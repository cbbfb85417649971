use depscop::cycles::{cycle_trace, detect_cycles, has_cycle};
use depscop::graph::{EdgeInfo, Node, NodeDependencies};

fn nodes(names: &[&str]) -> Vec<Node> {
    names
        .iter()
        .map(|name| Node {
            id: format!("/{}", name),
            name: name.to_string(),
            layer: "unknown".to_string(),
            node_type: "project".to_string(),
            color: "gray".to_string(),
        })
        .collect()
}

fn graph(n: usize, edges: &[(usize, usize)]) -> NodeDependencies {
    let mut deps: NodeDependencies = vec![Vec::new(); n];
    for &(from, to) in edges {
        deps[from].push(EdgeInfo { to, allowed: true, label: format!("{} -> {}", from, to) });
    }
    deps
}

fn is_cycle_of(deps: &NodeDependencies, path: &[usize]) -> bool {
    !path.is_empty()
        && (0..path.len()).all(|i| {
            let next = path[(i + 1) % path.len()];
            deps[path[i]].iter().any(|e| e.to == next)
        })
}

#[test]
fn chain_of_three_has_no_cycle() {
    let names = nodes(&["A", "B", "C"]);
    let deps = graph(3, &[(0, 1), (1, 2)]);
    assert!(!has_cycle(&names, &deps));
    assert_eq!(detect_cycles(&names, &deps), None);
}

#[test]
fn triangle_is_a_cycle_in_traversal_order() {
    let names = nodes(&["A", "B", "C"]);
    let deps = graph(3, &[(0, 1), (1, 2), (2, 0)]);
    assert!(has_cycle(&names, &deps));
    let cycle = detect_cycles(&names, &deps).expect("a cycle");
    assert_eq!(cycle, vec![0, 1, 2]);
    assert_eq!(cycle_trace(&names, &cycle), Some("A -> B -> C -> A".to_string()));
}

#[test]
fn empty_graph_has_no_cycle() {
    assert!(!has_cycle(&[], &Vec::new()));
    let names = nodes(&["A", "B"]);
    assert!(!has_cycle(&names, &graph(2, &[])));
}

#[test]
fn self_loop_is_a_cycle() {
    let names = nodes(&["A", "B"]);
    let deps = graph(2, &[(0, 1), (1, 1)]);
    let cycle = detect_cycles(&names, &deps).expect("a cycle");
    assert_eq!(cycle, vec![1]);
    assert_eq!(cycle_trace(&names, &cycle), Some("B -> B".to_string()));
}

#[test]
fn cycle_away_from_the_first_node_is_found() {
    let names = nodes(&["A", "B", "C", "D", "E"]);
    let deps = graph(5, &[(0, 1), (3, 4), (4, 3)]);
    assert!(has_cycle(&names, &deps));
    let cycle = detect_cycles(&names, &deps).expect("a cycle");
    assert_eq!(cycle, vec![3, 4]);
}

#[test]
fn cycle_behind_a_tail_leaves_the_tail_out() {
    let names = nodes(&["A", "B", "C", "D"]);
    let deps = graph(4, &[(0, 1), (1, 2), (2, 3), (3, 1)]);
    let cycle = detect_cycles(&names, &deps).expect("a cycle");
    assert_eq!(cycle, vec![1, 2, 3]);
    assert_eq!(cycle_trace(&names, &cycle), Some("B -> C -> D -> B".to_string()));
}

#[test]
fn diamond_has_no_cycle() {
    let names = nodes(&["A", "B", "C", "D"]);
    let deps = graph(4, &[(0, 1), (0, 2), (1, 3), (2, 3)]);
    assert!(!has_cycle(&names, &deps));
}

#[test]
fn edge_into_an_explored_part_is_no_cycle() {
    let names = nodes(&["A", "B", "C", "D"]);
    let deps = graph(4, &[(0, 1), (1, 2), (3, 1), (3, 0)]);
    assert!(!has_cycle(&names, &deps));
    let back = graph(4, &[(1, 0), (2, 1), (3, 2), (2, 0)]);
    assert!(!has_cycle(&names, &back));
}

#[test]
fn second_branch_is_searched_after_the_first() {
    let names = nodes(&["A", "B", "C", "D"]);
    let deps = graph(4, &[(0, 1), (0, 2), (2, 3), (3, 2)]);
    let cycle = detect_cycles(&names, &deps).expect("a cycle");
    assert_eq!(cycle, vec![2, 3]);
}

#[test]
fn detected_cycles_follow_edges() {
    let cases: Vec<(usize, Vec<(usize, usize)>)> = vec![
        (3, vec![(0, 1), (1, 2), (2, 0)]),
        (4, vec![(0, 1), (1, 2), (2, 1), (2, 3)]),
        (6, vec![(0, 1), (1, 2), (2, 3), (3, 4), (4, 5), (5, 2)]),
        (5, vec![(4, 3), (3, 2), (2, 1), (1, 0), (0, 4)]),
        (3, vec![(0, 0)]),
    ];
    for (n, edges) in cases {
        let names = nodes(&vec!["n"; n]);
        let deps = graph(n, &edges);
        let cycle = detect_cycles(&names, &deps).expect("a cycle");
        assert!(is_cycle_of(&deps, &cycle), "{:?} in {:?}", cycle, edges);
        let mut seen = cycle.clone();
        seen.sort();
        seen.dedup();
        assert_eq!(seen.len(), cycle.len());
    }
}

#[test]
fn every_small_graph_is_judged_as_by_reachability() {
    let n = 4;
    let pairs: Vec<(usize, usize)> =
        (0..n).flat_map(|a| (0..n).map(move |b| (a, b))).collect();
    let names = nodes(&vec!["n"; n]);
    for mask in 0u32..(1 << pairs.len()) {
        let edges: Vec<(usize, usize)> =
            pairs.iter().enumerate().filter(|(i, _)| mask >> i & 1 == 1).map(|(_, p)| *p).collect();
        let mut reach = vec![vec![false; n]; n];
        for &(a, b) in &edges {
            reach[a][b] = true;
        }
        for k in 0..n {
            for a in 0..n {
                for b in 0..n {
                    if reach[a][k] && reach[k][b] {
                        reach[a][b] = true;
                    }
                }
            }
        }
        let expected = (0..n).any(|a| reach[a][a]);
        let deps = graph(n, &edges);
        match detect_cycles(&names, &deps) {
            Some(cycle) => {
                assert!(expected, "{:?}", edges);
                assert!(is_cycle_of(&deps, &cycle), "{:?} in {:?}", cycle, edges);
            }
            None => assert!(!expected, "{:?}", edges),
        }
    }
}

#[test]
fn long_chain_with_a_back_edge() {
    let n = 2000;
    let mut edges: Vec<(usize, usize)> = (0..n - 1).map(|i| (i, i + 1)).collect();
    let names = nodes(&vec!["n"; n]);
    assert!(!has_cycle(&names, &graph(n, &edges)));
    edges.push((n - 1, 5));
    let cycle = detect_cycles(&names, &graph(n, &edges)).expect("a cycle");
    assert_eq!(cycle, (5..n).collect::<Vec<usize>>());
}

#[test]
fn edge_that_leaves_the_graph_closes_no_cycle() {
    let names = nodes(&["A", "B"]);
    let mut deps = graph(2, &[(1, 0)]);
    deps[0].push(EdgeInfo { to: 5, allowed: true, label: String::new() });
    deps[0].push(EdgeInfo { to: 2, allowed: true, label: String::new() });
    assert_eq!(detect_cycles(&names, &deps), None);
    deps[0].push(EdgeInfo { to: 1, allowed: true, label: String::new() });
    assert_eq!(detect_cycles(&names, &deps), Some(vec![0, 1]));
}

#[test]
fn graph_is_that_of_the_adjacency_list() {
    let names = nodes(&["A"]);
    let deps = graph(3, &[(0, 1), (1, 2), (2, 1)]);
    assert_eq!(detect_cycles(&names, &deps), Some(vec![1, 2]));
    assert_eq!(cycle_trace(&names, &vec![1, 2]), None);
    assert!(!has_cycle(&names, &Vec::new()));
}

#[test]
fn cycle_trace_wants_nodes_of_the_list() {
    let names = nodes(&["A", "B"]);
    assert_eq!(cycle_trace(&names, &vec![0, 1]), Some("A -> B -> A".to_string()));
    assert_eq!(cycle_trace(&names, &vec![1]), Some("B -> B".to_string()));
    assert_eq!(cycle_trace(&names, &vec![]), None);
    assert_eq!(cycle_trace(&names, &vec![0, 2]), None);
    assert_eq!(cycle_trace(&[], &vec![0]), None);
}

#[test]
fn ring_is_reported_from_its_lowest_node_whatever_the_edge_order() {
    let names = nodes(&["A", "B", "C"]);
    let deps = graph(3, &[(2, 0), (1, 2), (0, 1)]);
    let cycle = detect_cycles(&names, &deps).expect("a cycle");
    assert_eq!(cycle, vec![0, 1, 2]);
    assert_eq!(cycle_trace(&names, &cycle), Some("A -> B -> C -> A".to_string()));
}

#[test]
fn edges_of_a_node_are_followed_in_their_order() {
    let names = nodes(&["A", "B", "C", "D"]);
    let first = graph(4, &[(0, 1), (0, 2), (1, 0), (2, 0)]);
    assert_eq!(detect_cycles(&names, &first), Some(vec![0, 1]));
    let second = graph(4, &[(0, 2), (0, 1), (1, 0), (2, 0)]);
    assert_eq!(detect_cycles(&names, &second), Some(vec![0, 2]));
    let deeper = graph(4, &[(0, 1), (1, 2), (2, 1), (1, 0)]);
    assert_eq!(detect_cycles(&names, &deeper), Some(vec![1, 2]));
}
