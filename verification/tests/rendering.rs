use depscop::config::{Config, Toggles};
use depscop::graph::{EdgeInfo, Node, NodeDependencies};
use depscop::output::{
    d3_links, d3_nodes, decimal, edge_lines, generate_graphviz_diagram, graphviz_nodes, generate_mermaid_diagram,
    mermaid_nodes, node_ref, target_list,
};
use depscop::page::{
    generate_html_output, D3_BODY, D3_HEAD, D3_SCRIPT, D3_SCRIPT_LINKS, D3_SCRIPT_REST, GRAPHVIZ_BODY,
    GRAPHVIZ_HEAD, GRAPHVIZ_SCRIPT, GRAPHVIZ_SCRIPT_REST, PAGE_BODY, PAGE_END, PAGE_FOOT,
    PAGE_FOOT_REST, PAGE_HEAD,
};
use depscop::rules::layer_legend;

fn node(name: &str, layer: &str, color: &str) -> Node {
    Node {
        id: format!("/repo/{}", name),
        name: name.to_string(),
        layer: layer.to_string(),
        node_type: "project".to_string(),
        color: color.to_string(),
    }
}

fn sample() -> (Vec<Node>, NodeDependencies) {
    let nodes = vec![
        node("Foo.Entities", "core", "#FBFDB8"),
        node("Bar.IO", "io", "#A7D7FD"),
        node("Web", "unknown", "gray"),
    ];
    let deps = vec![
        vec![],
        vec![EdgeInfo { to: 0, allowed: true, label: "Bar.IO -> Foo.Entities".to_string() }],
        vec![
            EdgeInfo { to: 1, allowed: false, label: "Web -> Bar.IO".to_string() },
            EdgeInfo { to: 0, allowed: true, label: "Web -> Foo.Entities".to_string() },
        ],
    ];
    (nodes, deps)
}

fn all_on() -> Toggles {
    Config::default().global.toggles
}

const LEGEND: &str = "\tsubgraph cluster_key {\n\t\tlabel=\"Layer Rules\";\n    L1 [label=\"core\", style=filled, fillcolor=\"#FBFDB8\"]\n    L2 [label=\"io\", style=filled, fillcolor=\"#A7D7FD\"]\n    L3 [label=\"usecase\", style=filled, fillcolor=\"#FEA29C\"]\n    L1 -> L1\n    L2 -> L1\n    L2 -> L2\n    L2 -> L3\n    L3 -> L1\n    L3 -> L3\n\t}\n}\n";

#[test]
fn decimal_writes_digits() {
    assert_eq!(decimal(0), "0");
    assert_eq!(decimal(7), "7");
    assert_eq!(decimal(10), "10");
    assert_eq!(decimal(1905), "1905");
    assert_eq!(decimal(1_000_000), "1000000");
    assert_eq!(decimal(u128::MAX), u128::MAX.to_string());
    for n in 0..1200u128 {
        assert_eq!(decimal(n), n.to_string());
    }
}

#[test]
fn node_ref_counts_from_one() {
    assert_eq!(node_ref("P", 0), "P1");
    assert_eq!(node_ref("L", 41), "L42");
    assert_eq!(node_ref("", usize::MAX), (usize::MAX as u128 + 1).to_string());
}

#[test]
fn mermaid_diagram_lists_nodes_then_edges() {
    let (nodes, deps) = sample();
    assert_eq!(
        generate_mermaid_diagram(&nodes, &deps),
        "```mermaid\ngraph TD;\n    P1[\"Foo.Entities\"]\n    P2[\"Bar.IO\"]\n    P3[\"Web\"]\n    P2 --> P1\n    P3 --> P2\n    P3 --> P1\n```\n"
    );
}

#[test]
fn mermaid_diagram_of_an_empty_graph() {
    assert_eq!(generate_mermaid_diagram(&[], &Vec::new()), "```mermaid\ngraph TD;\n```\n");
    assert_eq!(mermaid_nodes(&[]), "");
}

#[test]
fn graphviz_diagram_for_the_console() {
    let (nodes, deps) = sample();
    let (layers, rules) = layer_legend(&Config::default());
    let expected = format!(
        "{}{}{}{}",
        "digraph G {\n    node [color=grey, style=filled];\n    node [fontname=\"Verdana\", size=\"30,30\"];\n",
        "    P1 [label=\"Foo.Entities\", style=filled, fillcolor=\"#FBFDB8\"]\n    P2 [label=\"Bar.IO\", style=filled, fillcolor=\"#A7D7FD\"]\n    P3 [label=\"Web\", style=filled, fillcolor=\"gray\"]\n",
        "    P2 -> P1\n    P3 -> P2 [color=\"red\" style=dashed penwidth=2]\n    P3 -> P1\n",
        LEGEND
    );
    assert_eq!(generate_graphviz_diagram(&nodes, &deps, &layers, &rules, &all_on(), false), expected);
}

#[test]
fn graphviz_diagram_for_a_page() {
    let (nodes, deps) = sample();
    let (layers, rules) = layer_legend(&Config::default());
    let expected = format!(
        "{}{}{}{}",
        "digraph G {\n\tnode [color=grey, style=filled];\n\tnode [fontname=\"Verdana\", size=\"30,30\"];\n",
        "    P1 [label=\"Foo.Entities\", style=filled, fillcolor=\"#FBFDB8\"]\n    P2 [label=\"Bar.IO\", style=filled, fillcolor=\"#A7D7FD\"]\n    P3 [label=\"Web\", style=filled, fillcolor=\"gray\"]\n",
        "    P2 -> P1\n    P3 -> P2 [color=\"red\" style=dotted penwidth=2]\n    P3 -> P1\n",
        LEGEND
    );
    assert_eq!(generate_graphviz_diagram(&nodes, &deps, &layers, &rules, &all_on(), true), expected);
}

#[test]
fn graphviz_diagram_hides_what_the_toggles_hide() {
    let (nodes, deps) = sample();
    let (layers, rules) = layer_legend(&Config::default());
    let toggles = Toggles {
        show_valid_dependencies: false,
        show_invalid_dependencies: true,
        show_recognized_nodes: true,
        show_unrecognized_nodes: false,
    };
    let expected = format!(
        "{}{}{}{}",
        "digraph G {\n    node [color=grey, style=filled];\n    node [fontname=\"Verdana\", size=\"30,30\"];\n",
        "    P1 [label=\"Foo.Entities\", style=filled, fillcolor=\"#FBFDB8\"]\n    P2 [label=\"Bar.IO\", style=filled, fillcolor=\"#A7D7FD\"]\n",
        "    P3 -> P2 [color=\"red\" style=dashed penwidth=2]\n",
        LEGEND
    );
    assert_eq!(generate_graphviz_diagram(&nodes, &deps, &layers, &rules, &toggles, false), expected);
    let none = Toggles::default();
    let bare = generate_graphviz_diagram(&nodes, &deps, &layers, &rules, &none, false);
    assert_eq!(
        bare,
        format!(
            "{}{}",
            "digraph G {\n    node [color=grey, style=filled];\n    node [fontname=\"Verdana\", size=\"30,30\"];\n",
            LEGEND
        )
    );
}

#[test]
fn graphviz_nodes_without_toggles_shows_every_node() {
    let (nodes, _) = sample();
    assert_eq!(
        graphviz_nodes(&nodes[2..], "N", None),
        "    N1 [label=\"Web\", style=filled, fillcolor=\"gray\"]\n"
    );
    let hidden = Toggles::default();
    assert_eq!(graphviz_nodes(&nodes, "N", Some(hidden)), "");
}

#[test]
fn edge_lines_marks_violations() {
    let (_, deps) = sample();
    assert_eq!(
        edge_lines(&deps, "N", " => ", " !", None),
        "    N2 => N1\n    N3 => N2 !\n    N3 => N1\n"
    );
    assert_eq!(edge_lines(&Vec::new(), "N", " => ", " !", None), "");
}

#[test]
fn d3_lists_nodes_and_links_by_id() {
    let (nodes, mut deps) = sample();
    assert_eq!(
        d3_nodes(&nodes),
        "        { id: '/repo/Foo.Entities', name: 'Foo.Entities', color: '#FBFDB8' },\n        { id: '/repo/Bar.IO', name: 'Bar.IO', color: '#A7D7FD' },\n        { id: '/repo/Web', name: 'Web', color: 'gray' },\n"
    );
    let links = "        { source: '/repo/Bar.IO', target: '/repo/Foo.Entities' },\n        { source: '/repo/Web', target: '/repo/Bar.IO' },\n        { source: '/repo/Web', target: '/repo/Foo.Entities' },\n";
    assert_eq!(d3_links(&nodes, &deps), links);
    deps[0].push(EdgeInfo { to: 3, allowed: true, label: String::new() });
    deps.push(vec![EdgeInfo { to: 0, allowed: true, label: String::new() }]);
    assert_eq!(d3_links(&nodes, &deps), links);
}

#[test]
fn target_list_joins_indices_with_commas() {
    let (_, deps) = sample();
    assert_eq!(target_list(&deps[0]), "");
    assert_eq!(target_list(&deps[1]), "0");
    assert_eq!(target_list(&deps[2]), "1, 0");
}

#[test]
fn html_page_for_graphviz() {
    let (nodes, deps) = sample();
    let (layers, rules) = layer_legend(&Config::default());
    let toggles = all_on();
    let page = generate_html_output(&nodes, &deps, &layers, &rules, "graphviz", &toggles, "2024-05-01T10:00:00Z");
    let diagram = generate_graphviz_diagram(&nodes, &deps, &layers, &rules, &toggles, true);
    let expected = [
        PAGE_HEAD,
        GRAPHVIZ_HEAD,
        PAGE_BODY,
        GRAPHVIZ_BODY,
        PAGE_FOOT,
        "2024-05-01T10:00:00Z",
        PAGE_FOOT_REST,
        GRAPHVIZ_SCRIPT,
        diagram.as_str(),
        GRAPHVIZ_SCRIPT_REST,
        PAGE_END,
    ]
    .concat();
    assert_eq!(page, expected);
    assert!(page.starts_with("<!DOCTYPE html>\n<html lang=\"en\">\n<head>\n"));
    assert!(page.contains("        <p>Generated on: 2024-05-01T10:00:00Z</p>\n"));
    assert!(page.contains("    var graphvizData = `\ndigraph G {\n\tnode [color=grey, style=filled];\n"));
    assert!(page.contains("    P3 -> P2 [color=\"red\" style=dotted penwidth=2]\n"));
    assert!(page.contains("\t}\n}\n`;\n    viz.renderSVGElement(graphvizData)\n"));
    assert!(page.ends_with("</script>\n</body>\n</html>\n"));
}

#[test]
fn html_page_for_d3() {
    let (nodes, deps) = sample();
    let (layers, rules) = layer_legend(&Config::default());
    let page = generate_html_output(&nodes, &deps, &layers, &rules, "d3", &all_on(), "now");
    let expected = [
        PAGE_HEAD,
        D3_HEAD,
        PAGE_BODY,
        D3_BODY,
        PAGE_FOOT,
        "now",
        PAGE_FOOT_REST,
        D3_SCRIPT,
        d3_nodes(&nodes).as_str(),
        D3_SCRIPT_LINKS,
        d3_links(&nodes, &deps).as_str(),
        D3_SCRIPT_REST,
        PAGE_END,
    ]
    .concat();
    assert_eq!(page, expected);
    assert!(page.contains("<svg width=\"960\" height=\"600\"></svg>\n        </div>\n"));
    assert!(page.contains("    const nodes = [\n        { id: '/repo/Foo.Entities', name: 'Foo.Entities', color: '#FBFDB8' },\n"));
    assert!(page.contains("    ];\n    const links = [\n        { source: '/repo/Bar.IO', target: '/repo/Foo.Entities' },\n"));
    assert!(page.contains("    ];\n\n        nodes.forEach(node => {\n"));
    assert!(page.contains("            node.attr(\"transform\", d => `translate(${d.x},${d.y})`);\n"));
    assert!(page.ends_with("    \n</script>\n</body>\n</html>\n"));
}

#[test]
fn html_page_of_another_format_shows_no_diagram() {
    let (nodes, deps) = sample();
    let (layers, rules) = layer_legend(&Config::default());
    let page = generate_html_output(&nodes, &deps, &layers, &rules, "mermaid", &all_on(), "now");
    assert_eq!(page, [PAGE_HEAD, PAGE_BODY, PAGE_FOOT, "now", PAGE_FOOT_REST, PAGE_END].concat());
    assert!(!page.contains("<script"));
}
