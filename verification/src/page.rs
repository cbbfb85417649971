//! The HTML page that shows a graph: a fixed frame around a Graphviz diagram
//! or the data of a D3 diagram.

use vstd::prelude::*;
use vstd::string::StringExecFns;
use crate::config::Toggles;
use crate::graph::{EdgeView, Node, NodeDependencies, NodeView};
use crate::output::{
    concat_upto, d3_links, d3_links_part, d3_node_part, d3_nodes, generate_graphviz_diagram,
    spec_graphviz_diagram,
};
use crate::text::str_eq;

verus! {

/// How every page begins, up to the styles of its own.
pub const PAGE_HEAD: &'static str =
    "<!DOCTYPE html>\n<html lang=\"en\">\n<head>\n    <meta charset=\"UTF-8\">\n    <meta name=\"viewport\" content=\"width=device-width, initial-scale=1.0\">\n    <title>Dependencies Analyzer</title>\n    <link rel=\"stylesheet\" href=\"https://unpkg.com/tailwindcss@2.2.19/dist/tailwind.min.css\"/>\n    <link href=\"https://fonts.googleapis.com/css?family=Source+Sans+Pro:400,700\" rel=\"stylesheet\">\n<style>\n    body { font-family: 'Source Sans Pro', sans-serif; color: #4a5568; margin: 0; display: flex; flex-direction: column; min-height: 100vh; }\n    .header { background-color: #667eea; color: #fafafa; padding: 20px; text-align: center; flex-shrink: 0; }\n    .content { flex: 1; display: flex; flex-direction: column; padding: 0; overflow: hidden; }\n    .footer { background-color: #718096; color: #ffffff; text-align: center; padding: 10px; flex-shrink: 0; }\n    .rust-logo { height: 50px; }\n</style>\n";

/// What the head of a Graphviz page adds: styles and the scripts that draw the diagram.
pub const GRAPHVIZ_HEAD: &'static str =
    "    <style>\n        #graph-container { flex: 1; display: flex; flex-direction: column; width: 100%; overflow: hidden; border: 1px solid #ccc; }\n        #graph { flex: 1; width: 100%; height: 100% display: flex; }\n    </style>\n<script src=\"https://cdnjs.cloudflare.com/ajax/libs/viz.js/2.1.2/viz.js\"></script>\n<script src=\"https://cdnjs.cloudflare.com/ajax/libs/viz.js/2.1.2/full.render.js\" integrity=\"sha512-1zKK2bG3QY2JaUPpfHZDUMe3dwBwFdCDwXQ01GrKSd+/l0hqPbF+aak66zYPUZtn+o2JYi1mjXAqy5mW04v3iA==\" crossorigin=\"anonymous\" referrerpolicy=\"no-referrer\"></script>\n<script src=\"https://cdn.jsdelivr.net/npm/svg-pan-zoom@3.6.1/dist/svg-pan-zoom.min.js\"></script>\n";

/// What the head of a D3 page adds: its styles.
pub const D3_HEAD: &'static str =
    "<style>\n    svg { cursor: grab; width: 100%; height: auto; max-height: 80vh; overflow: auto; }\n    .node circle { fill: steelblue; stroke: #fff; stroke-width: 1.5px; }\n    .node text { font-size: 10px; font-family: 'Source Sans Pro', sans-serif; pointer-events: none; }\n    .link { fill: none; stroke: #999; stroke-opacity: 0.6; marker-end: url(#arrow); }\n</style>\n";

/// The end of the head and the banner of every page.
pub const PAGE_BODY: &'static str =
    "</head>\n<body>\n    <div class=\"header\">\n        <h1>Dependencies Analyzer</h1>\n        <p>This page was generated automatically.</p>\n    </div>\n<div class=\"content\">\n";

/// Where a Graphviz page shows its diagram.
pub const GRAPHVIZ_BODY: &'static str =
    "            <div id=\"graph-container\">\n                <div id=\"graph\"></div>\n";

/// Where a D3 page shows its diagram.
pub const D3_BODY: &'static str =
    "<svg width=\"960\" height=\"600\"></svg>\n";

/// The footer of every page, up to the time at which it was made.
pub const PAGE_FOOT: &'static str =
    "        </div>\n    <div class=\"footer\">\n        <p>Generated on: ";

/// The footer of every page, after the time at which it was made.
pub const PAGE_FOOT_REST: &'static str =
    "</p>\n        <p>Everything was generated using Rust.</p>\n        <img src=\"https://www.rust-lang.org/logos/rust-logo-blk.svg\" alt=\"Rust Logo\" class=\"rust-logo mx-auto\">\n    </div>\n";

/// The script of a Graphviz page, up to the diagram.
pub const GRAPHVIZ_SCRIPT: &'static str =
    "<script>\n    var viz = new Viz();\n    var graphvizData = `\n";

/// The script of a Graphviz page, after the diagram.
pub const GRAPHVIZ_SCRIPT_REST: &'static str =
    "`;\n    viz.renderSVGElement(graphvizData)\n            .then(function(element) {\n                var graph = document.getElementById('graph');\n                graph.appendChild(element);\n                var svg = graph.querySelector('svg');\n                svg.setAttribute('preserveAspectRatio', 'none');\n                svg.style.width = '100%';\n                svg.style.height = '100%';\n                svgPanZoom(svg, {\n                    zoomEnabled: true,\n                    controlIconsEnabled: true,\n                    fit: true,\n                    center: true,\n                    minZoom: 0.5,\n                    maxZoom: 10\n                });\n                function resizeSvg() {\n                    var container = document.getElementById('graph-container');\n                    svg.style.width = container.clientWidth + 'px';\n                    svg.style.height = container.clientHeight + 'px';\n                }\n                window.addEventListener('resize', resizeSvg);\n                resizeSvg();\n            })\n            .catch(error => {\n                console.error('Error rendering graph:', error);\n            });\n</script>\n";

/// The script of a D3 page, up to the entries of its node list.
pub const D3_SCRIPT: &'static str =
    "<script src=\"https://d3js.org/d3.v6.min.js\"></script>\n<script>\n    const svg = d3.select('svg'),\n          width = +svg.attr('width'),\n          height = +svg.attr('height');\n    const g = svg.append('g').attr('transform', 'translate(480, 300)');\n    svg.call(d3.zoom().on('zoom', (event) => {\n        g.attr('transform', event.transform);\n    }));\n    svg.append('defs').append('marker')\n        .attr('id', 'arrow')\n        .attr('viewBox', '0 -5 10 10')\n        .attr('refX', 25)\n        .attr('refY', 0)\n        .attr('markerWidth', 6)\n        .attr('markerHeight', 6)\n        .attr('orient', 'auto')\n        .append('path')\n        .attr('d', 'M0,-5L10,0L0,5')\n        .attr('fill', '#999');\n    const nodes = [\n";

/// The script of a D3 page, between its node list and the entries of its link list.
pub const D3_SCRIPT_LINKS: &'static str =
    "    ];\n    const links = [\n";

/// The script of a D3 page, after its link list.
pub const D3_SCRIPT_REST: &'static str =
    "    ];\n\n        nodes.forEach(node => {\n            node.incomingLinks = links.filter(link => link.target === node.id).length;\n        });\n\n        const simulation = d3.forceSimulation(nodes)\n            .force(\"link\", d3.forceLink(links).id(d => d.id).distance(200))\n            .force(\"charge\", d3.forceManyBody().strength(-500))\n            .force(\"center\", d3.forceCenter(width / 2, height / 2));\n\n        const link = g.selectAll(\".link\")\n            .data(links)\n            .join(\"line\")\n            .classed(\"link\", true)\n            .attr(\"stroke-width\", 2);\n\n        const node = g.selectAll(\".node\")\n            .data(nodes)\n            .join(\"g\")\n            .classed(\"node\", true)\n            .call(d3.drag()\n                .on(\"start\", dragstarted)\n                .on(\"drag\", dragged)\n                .on(\"end\", dragended));\n\n        node.append(\"circle\")\n            .attr(\"r\", d => 20)\n            .style(\"fill\", d=> d.color);\n\n        node.append(\"text\")\n            .attr(\"x\", 8)\n            .attr(\"y\", \"0.31em\")\n            .text(d => d.name);\n\n        simulation.on(\"tick\", () => {\n            link.attr(\"x1\", d => d.source.x)\n                .attr(\"y1\", d => d.source.y)\n                .attr(\"x2\", d => d.target.x)\n                .attr(\"y2\", d => d.target.y);\n\n            node.attr(\"transform\", d => `translate(${d.x},${d.y})`);\n        });\n\n        function dragstarted(event, d) {\n            if (!event.active) simulation.alphaTarget(0.3).restart();\n            d.fx = d.x;\n            d.fy = d.y;\n        }\n\n        function dragged(event, d) {\n            d.fx = event.x;\n            d.fy = event.y;\n        }\n\n        function dragended(event, d) {\n            if (!event.active) simulation.alphaTarget(0);\n            d.fx = null;\n            d.fy = null;\n        }\n    \n</script>\n";

/// How every page ends.
pub const PAGE_END: &'static str =
    "</body>\n</html>\n";

/// What the head of a page adds for its format.
pub open spec fn spec_page_head(format: Seq<char>) -> Seq<char> {
    if format == "graphviz"@ {
        GRAPHVIZ_HEAD@
    } else if format == "d3"@ {
        D3_HEAD@
    } else {
        Seq::empty()
    }
}

/// Where a page of the given format shows its diagram.
pub open spec fn spec_page_body(format: Seq<char>) -> Seq<char> {
    if format == "graphviz"@ {
        GRAPHVIZ_BODY@
    } else if format == "d3"@ {
        D3_BODY@
    } else {
        Seq::empty()
    }
}

/// The script of a page: for Graphviz around the diagram of the graph and
/// of the layer rules, for D3 around the lists of nodes and links; none for
/// another format.
pub open spec fn spec_page_script(
    nodes: Seq<NodeView>,
    deps: Seq<Seq<EdgeView>>,
    layers: Seq<NodeView>,
    layer_deps: Seq<Seq<EdgeView>>,
    format: Seq<char>,
    toggles: Toggles,
) -> Seq<char> {
    if format == "graphviz"@ {
        GRAPHVIZ_SCRIPT@ + spec_graphviz_diagram(nodes, deps, layers, layer_deps, toggles, true)
            + GRAPHVIZ_SCRIPT_REST@
    } else if format == "d3"@ {
        D3_SCRIPT@ + concat_upto(nodes.len(), d3_node_part(nodes)) + D3_SCRIPT_LINKS@
            + concat_upto(deps.len(), d3_links_part(nodes, deps)) + D3_SCRIPT_REST@
    } else {
        Seq::empty()
    }
}

/// The page that shows a graph in the given format, with the time at which
/// it was made in its footer.
pub open spec fn spec_html_page(
    nodes: Seq<NodeView>,
    deps: Seq<Seq<EdgeView>>,
    layers: Seq<NodeView>,
    layer_deps: Seq<Seq<EdgeView>>,
    format: Seq<char>,
    toggles: Toggles,
    made_on: Seq<char>,
) -> Seq<char> {
    PAGE_HEAD@ + spec_page_head(format) + PAGE_BODY@ + spec_page_body(format) + PAGE_FOOT@
        + made_on + PAGE_FOOT_REST@ + spec_page_script(
        nodes,
        deps,
        layers,
        layer_deps,
        format,
        toggles,
    ) + PAGE_END@
}

/// Writes the script of a page.
fn page_script(
    nodes: &[Node],
    node_dependencies: &NodeDependencies,
    layers: &[Node],
    layer_dependencies: &NodeDependencies,
    format: &str,
    toggles: &Toggles,
) -> (r: String)
    ensures
        r@ == spec_page_script(
            nodes.deep_view(),
            node_dependencies.deep_view(),
            layers.deep_view(),
            layer_dependencies.deep_view(),
            format@,
            *toggles,
        ),
{
    let mut out = String::new();
    if str_eq(format, "graphviz") {
        let diagram = generate_graphviz_diagram(
            nodes,
            node_dependencies,
            layers,
            layer_dependencies,
            toggles,
            true,
        );
        out.append(GRAPHVIZ_SCRIPT);
        out.append(diagram.as_str());
        out.append(GRAPHVIZ_SCRIPT_REST);
    } else if str_eq(format, "d3") {
        let listed = d3_nodes(nodes);
        let linked = d3_links(nodes, node_dependencies);
        out.append(D3_SCRIPT);
        out.append(listed.as_str());
        out.append(D3_SCRIPT_LINKS);
        out.append(linked.as_str());
        out.append(D3_SCRIPT_REST);
    }
    out
}

/// Writes the page that shows a graph in the given format (`graphviz` or
/// `d3`; a page of another format shows no diagram), with the time at which
/// it was made in its footer.
pub fn generate_html_output(
    nodes: &[Node],
    node_dependencies: &NodeDependencies,
    layers: &[Node],
    layer_dependencies: &NodeDependencies,
    format: &str,
    toggles: &Toggles,
    made_on: &str,
) -> (r: String)
    ensures
        r@ == spec_html_page(
            nodes.deep_view(),
            node_dependencies.deep_view(),
            layers.deep_view(),
            layer_dependencies.deep_view(),
            format@,
            *toggles,
            made_on@,
        ),
{
    let script = page_script(nodes, node_dependencies, layers, layer_dependencies, format, toggles);
    let mut out = PAGE_HEAD.to_owned();
    if str_eq(format, "graphviz") {
        out.append(GRAPHVIZ_HEAD);
    } else if str_eq(format, "d3") {
        out.append(D3_HEAD);
    }
    out.append(PAGE_BODY);
    if str_eq(format, "graphviz") {
        out.append(GRAPHVIZ_BODY);
    } else if str_eq(format, "d3") {
        out.append(D3_BODY);
    }
    out.append(PAGE_FOOT);
    out.append(made_on);
    out.append(PAGE_FOOT_REST);
    out.append(script.as_str());
    out.append(PAGE_END);
    proof {
        assert(out@ =~= spec_html_page(
            nodes.deep_view(),
            node_dependencies.deep_view(),
            layers.deep_view(),
            layer_dependencies.deep_view(),
            format@,
            *toggles,
            made_on@,
        ));
    }
    out
}

} // verus!
