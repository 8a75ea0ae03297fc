//! The interactive view: the graph as Vis.js data, and the standalone page
//! that shows it.

use vstd::prelude::*;
use crate::export::{group_keys, group_name_of, node_group, opt_view, opt_views, group_order};
use crate::models::{Cardinality, Edge, Graph, Kind, Node};

verus! {

#[derive(Debug)]
pub struct VisHighlight {
    pub background: String,
    pub border: String,
}

#[derive(Debug)]
pub struct VisColor {
    pub background: String,
    pub border: String,
    pub highlight: VisHighlight,
}

#[derive(Debug)]
pub struct VisFont {
    pub color: String,
    pub size: u32,
    pub face: String,
    pub stroke_width: u32,
}

#[derive(Debug)]
pub struct VisNode {
    pub id: u32,
    pub label: String,
    pub shape: String,
    pub margin: u32,
    pub cluster_group: Option<String>,
    pub color: VisColor,
    pub border_width: u32,
    pub font: VisFont,
}

/// An edge of the view. Its width is given in tenths of a pixel.
#[derive(Debug)]
pub struct VisEdge {
    pub from: u32,
    pub to: u32,
    pub label: String,
    pub color: String,
    pub width_tenths: u32,
    pub dashes: bool,
    pub arrows: String,
    pub font: VisFont,
}

/// What the view shows: nodes, edges, and the groups to cluster.
#[derive(Debug)]
pub struct VisData {
    pub nodes: Vec<VisNode>,
    pub edges: Vec<VisEdge>,
    pub groups: Vec<String>,
}

pub struct FontModel {
    pub color: Seq<char>,
    pub size: u32,
    pub face: Seq<char>,
    pub stroke_width: u32,
}

pub open spec fn font_model(f: VisFont) -> FontModel {
    FontModel { color: f.color@, size: f.size, face: f.face@, stroke_width: f.stroke_width }
}

pub struct NodeModel {
    pub id: u32,
    pub label: Seq<char>,
    pub shape: Seq<char>,
    pub margin: u32,
    pub cluster_group: Option<Seq<char>>,
    pub background: Seq<char>,
    pub border: Seq<char>,
    pub highlight_background: Seq<char>,
    pub highlight_border: Seq<char>,
    pub border_width: u32,
    pub font: FontModel,
}

pub open spec fn node_model(n: VisNode) -> NodeModel {
    NodeModel {
        id: n.id,
        label: n.label@,
        shape: n.shape@,
        margin: n.margin,
        cluster_group: opt_view(n.cluster_group),
        background: n.color.background@,
        border: n.color.border@,
        highlight_background: n.color.highlight.background@,
        highlight_border: n.color.highlight.border@,
        border_width: n.border_width,
        font: font_model(n.font),
    }
}

pub struct EdgeModel {
    pub from: u32,
    pub to: u32,
    pub label: Seq<char>,
    pub color: Seq<char>,
    pub width_tenths: u32,
    pub dashes: bool,
    pub arrows: Seq<char>,
    pub font: FontModel,
}

pub open spec fn edge_model(e: VisEdge) -> EdgeModel {
    EdgeModel {
        from: e.from,
        to: e.to,
        label: e.label@,
        color: e.color@,
        width_tenths: e.width_tenths,
        dashes: e.dashes,
        arrows: e.arrows@,
        font: font_model(e.font),
    }
}

/// The background of a node: red for error terminations, green for the
/// boundary of the graph, blue for functions.
pub open spec fn node_background(n: Node) -> Seq<char> {
    if n.is_artificial_error_termination {
        "#dc2626"@
    } else if n.is_artificial_graph_start || n.is_artificial_graph_end {
        "#059669"@
    } else {
        "#1d4ed8"@
    }
}

/// How a node is shown; grouped nodes get an amber, thicker border.
pub open spec fn vis_node(n: Node) -> NodeModel {
    let grouped = node_group(n) is Some;
    NodeModel {
        id: n.uid,
        label: " "@ + n.function.name@ + " "@,
        shape: "box"@,
        margin: 10,
        cluster_group: node_group(n),
        background: node_background(n),
        border: if grouped { "#fbbf24"@ } else { "#ffffff"@ },
        highlight_background: node_background(n),
        highlight_border: "#ffffff"@,
        border_width: if grouped { 2 } else { 1 },
        font: FontModel { color: "#ffffff"@, size: 14, face: "sans-serif"@, stroke_width: 0 },
    }
}

/// How an edge is shown: collections as `[Name]` with a wide line, errors
/// in red, constants dashed.
pub open spec fn vis_edge(e: Edge) -> EdgeModel {
    let many = e.token.cardinality == Cardinality::Collection;
    let name = e.token.kind.spec_name();
    EdgeModel {
        from: e.from_node_uid,
        to: e.to_node_uid,
        label: if many { "["@ + name + "]"@ } else { name },
        color: if e.token.kind is Error { "#f87171"@ } else { "#818cf8"@ },
        width_tenths: if many { 50 } else { 15 },
        dashes: e.token.kind is Constant,
        arrows: "to"@,
        font: FontModel { color: "#ffffff"@, size: 11, face: "monospace"@, stroke_width: 0 },
    }
}

/// The named groups of the nodes, in order of first appearance.
pub open spec fn named_groups(keys: Seq<Option<Seq<char>>>) -> Seq<Seq<char>>
    decreases keys.len(),
{
    if keys.len() == 0 {
        Seq::empty()
    } else {
        let prev = named_groups(keys.drop_last());
        match keys.last() {
            Some(g) => prev.push(g),
            None => prev,
        }
    }
}

fn make_font(color: &str, size: u32, face: &str) -> (f: VisFont)
    ensures
        font_model(f) == (FontModel { color: color@, size, face: face@, stroke_width: 0 }),
{
    VisFont { color: String::from_str(color), size, face: String::from_str(face), stroke_width: 0 }
}

fn make_vis_node(n: &Node) -> (v: VisNode)
    ensures
        node_model(v) == vis_node(*n),
{
    let group_name = group_name_of(n);
    let bg = if n.is_artificial_error_termination {
        "#dc2626"
    } else if n.is_artificial_graph_start || n.is_artificial_graph_end {
        "#059669"
    } else {
        "#1d4ed8"
    };
    let grouped = group_name.is_some();
    let border = if grouped {
        "#fbbf24"
    } else {
        "#ffffff"
    };
    let mut label = String::from_str(" ");
    label.append(n.function.name.as_str());
    label.append(" ");
    VisNode {
        id: n.uid,
        label,
        shape: String::from_str("box"),
        margin: 10,
        cluster_group: group_name,
        color: VisColor {
            background: String::from_str(bg),
            border: String::from_str(border),
            highlight: VisHighlight { background: String::from_str(bg), border: String::from_str("#ffffff") },
        },
        border_width: if grouped {
            2
        } else {
            1
        },
        font: make_font("#ffffff", 14, "sans-serif"),
    }
}

fn make_vis_edge(e: &Edge) -> (v: VisEdge)
    ensures
        edge_model(v) == vis_edge(*e),
{
    let many = e.token.cardinality == Cardinality::Collection;
    let name = e.token.kind.name();
    let label = if many {
        let mut l = String::from_str("[");
        l.append(name);
        l.append("]");
        l
    } else {
        String::from_str(name)
    };
    let (color, dashes) = match &e.token.kind {
        Kind::Error(_) => ("#f87171", false),
        Kind::Constant(_) => ("#818cf8", true),
        Kind::Variable(_) => ("#818cf8", false),
    };
    VisEdge {
        from: e.from_node_uid,
        to: e.to_node_uid,
        label,
        color: String::from_str(color),
        width_tenths: if many {
            50
        } else {
            15
        },
        dashes,
        arrows: String::from_str("to"),
        font: make_font("#ffffff", 11, "monospace"),
    }
}

/// Translates a graph into what the interactive view shows.
pub fn produce_vis_data(graph: &Graph) -> (d: VisData)
    ensures
        d.nodes@.map_values(|v: VisNode| node_model(v)) == graph.nodes@.map_values(|n: Node| vis_node(n)),
        d.edges@.map_values(|v: VisEdge| edge_model(v)) == graph.edges@.map_values(|e: Edge| vis_edge(e)),
        crate::analyzer::string_views(d.groups@) == named_groups(group_order(graph.nodes@)),
{
    let mut nodes: Vec<VisNode> = Vec::new();
    let mut i: usize = 0;
    while i < graph.nodes.len()
        invariant
            0 <= i <= graph.nodes@.len(),
            nodes@.map_values(|v: VisNode| node_model(v)) == graph.nodes@.take(i as int).map_values(
                |n: Node| vis_node(n),
            ),
        decreases graph.nodes@.len() - i,
    {
        let ghost before = nodes@.map_values(|v: VisNode| node_model(v));
        nodes.push(make_vis_node(&graph.nodes[i]));
        assert(nodes@.map_values(|v: VisNode| node_model(v)) =~= before.push(vis_node(graph.nodes@[i as int])));
        assert(graph.nodes@.take(i + 1).map_values(|n: Node| vis_node(n)) =~= before.push(
            vis_node(graph.nodes@[i as int]),
        ));
        i = i + 1;
    }
    assert(graph.nodes@.take(i as int) =~= graph.nodes@);
    let mut edges: Vec<VisEdge> = Vec::new();
    let mut j: usize = 0;
    while j < graph.edges.len()
        invariant
            0 <= j <= graph.edges@.len(),
            edges@.map_values(|v: VisEdge| edge_model(v)) == graph.edges@.take(j as int).map_values(
                |e: Edge| vis_edge(e),
            ),
        decreases graph.edges@.len() - j,
    {
        let ghost before = edges@.map_values(|v: VisEdge| edge_model(v));
        edges.push(make_vis_edge(&graph.edges[j]));
        assert(edges@.map_values(|v: VisEdge| edge_model(v)) =~= before.push(vis_edge(graph.edges@[j as int])));
        assert(graph.edges@.take(j + 1).map_values(|e: Edge| vis_edge(e)) =~= before.push(
            vis_edge(graph.edges@[j as int]),
        ));
        j = j + 1;
    }
    assert(graph.edges@.take(j as int) =~= graph.edges@);
    let keys = group_keys(&graph.nodes);
    let ghost ks = opt_views(keys@);
    let mut groups: Vec<String> = Vec::new();
    let mut k: usize = 0;
    while k < keys.len()
        invariant
            0 <= k <= keys@.len(),
            ks == opt_views(keys@),
            crate::analyzer::string_views(groups@) == named_groups(ks.take(k as int)),
        decreases keys@.len() - k,
    {
        assert(ks.take(k + 1).drop_last() =~= ks.take(k as int));
        assert(ks[k as int] == opt_view(keys@[k as int]));
        let ghost before = crate::analyzer::string_views(groups@);
        match &keys[k] {
            Some(g) => {
                groups.push(String::from_str(g.as_str()));
                assert(crate::analyzer::string_views(groups@) =~= before.push(g@));
            },
            None => {},
        }
        k = k + 1;
    }
    assert(ks.take(k as int) =~= ks);
    VisData { nodes, edges, groups }
}

} // verus!

verus! {

/// The standalone page: the Vis.js network of the given nodes, edges and
/// groups (each as JSON), with a panel of physics options.
pub open spec fn interactive_page(nodes_json: Seq<char>, edges_json: Seq<char>, groups_json: Seq<char>) -> Seq<char> {
    "<!DOCTYPE html>\n<html style=\"color-scheme: dark;\">\n<head>\n    <meta charset=\"utf-8\">\n    <script type=\"text/javascript\" src=\"https://unpkg.com/vis-network/standalone/umd/vis-network.min.js\"></script>\n    <style type=\"text/css\">\n        body { background-color: #0b0e14; color: #e0e0e0; margin: 0; display: flex; font-family: sans-serif; height: 100vh; overflow: hidden; }\n        #mynetwork { flex-grow: 1; height: 100vh; }\n        #resizer { width: 6px; cursor: col-resize; background-color: #30363d; transition: background 0.2s; z-index: 10; }\n        #resizer:hover { background-color: #58a6ff; }\n        #config { width: 350px; min-width: 250px; height: 100vh; overflow-y: auto; background: #161b22; flex-shrink: 0; display: flex; flex-direction: column; }\n        #config-controls { flex-grow: 1; }\n        .vis-configuration-wrapper { color: #e0e0e0 !important; padding: 10px; }\n        .vis-config-item { background: none !important; border: none !important; }\n        .vis-config-label { color: #bbb !important; }\n        .vis-config-header { color: #58a6ff !important; font-weight: bold; margin-top: 10px; border-bottom: 1px solid #333; }\n        .vis-network .vis-navigation .vis-button { background-color: #21262d; border: 1px solid #444; border-radius: 4px; }\n        #options-export { padding: 15px; background: #0d1117; border-top: 2px solid #30363d; flex-shrink: 0; }\n        #options-export h3 { margin-top: 0; font-size: 14px; color: #58a6ff; }\n        #options-code { background: #161b22; padding: 10px; border-radius: 4px; font-family: monospace; font-size: 11px; max-height: 200px; overflow: auto; white-space: pre-wrap; border: 1px solid #30363d; color: #8b949e; }\n        #copy-btn { margin-top: 10px; width: 100%; padding: 8px; background: #238636; color: white; border: none; border-radius: 4px; cursor: pointer; font-weight: bold; }\n        #copy-btn:hover { background: #2ea043; }\n    </style>\n</head>\n<body>\n<div id=\"mynetwork\"></div>\n<div id=\"resizer\"></div>\n<div id=\"config\">\n    <div id=\"config-controls\"></div>\n    <div id=\"options-export\">\n        <h3>Current Options (JSON)</h3>\n        <div id=\"options-code\">Modify a control to see JSON...</div>\n        <button id=\"copy-btn\">Copy Options</button>\n    </div>\n</div>\n<script type=\"text/javascript\">\n    const nodes = new vis.DataSet("@ + nodes_json + ");\n    const edges = new vis.DataSet("@ + edges_json + ");\n    const groups = "@ + groups_json + ";\n    const container = document.getElementById('mynetwork');\n    const configContainer = document.getElementById('config');\n    const configControls = document.getElementById('config-controls');\n    const optionsCode = document.getElementById('options-code');\n    const copyBtn = document.getElementById('copy-btn');\n    const resizer = document.getElementById('resizer');\n    let isResizing = false;\n    resizer.addEventListener('mousedown', () => isResizing = true);\n    document.addEventListener('mousemove', (e) => {\n        if (!isResizing) return;\n        const newWidth = window.innerWidth - e.clientX;\n        if (newWidth > 200 && newWidth < 900) configContainer.style.width = newWidth + 'px';\n    });\n    document.addEventListener('mouseup', () => isResizing = false);\n    let lastScrollTop = 0;\n    configContainer.addEventListener('scroll', () => { if (configContainer.scrollTop > 0) lastScrollTop = configContainer.scrollTop; }, {passive: true});\n    new MutationObserver(() => { if (configContainer.scrollTop !== lastScrollTop) configContainer.scrollTop = lastScrollTop; })\n        .observe(configControls, { childList: true, subtree: true });\n    const data = { nodes, edges };\n    const options = {\n        physics: { enabled: true, solver: 'forceAtlas2Based', forceAtlas2Based: { gravitationalConstant: -100, springLength: 10, avoidOverlap: 1, damping: 0.75 } },\n        interaction: { navigationButtons: true, keyboard: true, hover: true },\n        configure: { enabled: true, container: configControls, showButton: false }\n    };\n    const network = new vis.Network(container, data, options);\n    network.on(\"configChange\", (params) => { optionsCode.innerText = JSON.stringify(params, null, 2); });\n    const clusterBy = (g) => ({\n        joinCondition: (n) => n.clusterGroup === g,\n        clusterNodeProperties: { id: 'c:'+g, label: g, shape: 'box', margin: 10, color: { background: '#fbbf24', border: '#fff' }, font: { color: '#000', size: 16, face: 'sans-serif', strokeWidth: 0 } }\n    });\n    groups.forEach(g => network.cluster(clusterBy(g)));\n    network.on(\"click\", (p) => {\n        if (p.nodes.length > 0) {\n            let id = p.nodes[0];\n            if (network.isCluster(id)) network.openCluster(id);\n            else { let d = nodes.get(id); if (d && d.clusterGroup) network.cluster(clusterBy(d.clusterGroup)); }\n        }\n    });\n    copyBtn.addEventListener('click', () => {\n        navigator.clipboard.writeText(optionsCode.innerText).then(() => {\n            const originalText = copyBtn.innerText;\n            copyBtn.innerText = \"Copied!\";\n            setTimeout(() => { copyBtn.innerText = originalText; }, 1500);\n        });\n    });\n</script>\n</body>\n</html>"@
}

/// Builds the standalone interactive page from the JSON of the view's
/// nodes, edges and groups.
pub fn generate_interactive_html(nodes_json: &str, edges_json: &str, groups_json: &str) -> (page: String)
    ensures
        page@ == interactive_page(nodes_json@, edges_json@, groups_json@),
{
    let mut page = String::from_str("<!DOCTYPE html>\n<html style=\"color-scheme: dark;\">\n<head>\n    <meta charset=\"utf-8\">\n    <script type=\"text/javascript\" src=\"https://unpkg.com/vis-network/standalone/umd/vis-network.min.js\"></script>\n    <style type=\"text/css\">\n        body { background-color: #0b0e14; color: #e0e0e0; margin: 0; display: flex; font-family: sans-serif; height: 100vh; overflow: hidden; }\n        #mynetwork { flex-grow: 1; height: 100vh; }\n        #resizer { width: 6px; cursor: col-resize; background-color: #30363d; transition: background 0.2s; z-index: 10; }\n        #resizer:hover { background-color: #58a6ff; }\n        #config { width: 350px; min-width: 250px; height: 100vh; overflow-y: auto; background: #161b22; flex-shrink: 0; display: flex; flex-direction: column; }\n        #config-controls { flex-grow: 1; }\n        .vis-configuration-wrapper { color: #e0e0e0 !important; padding: 10px; }\n        .vis-config-item { background: none !important; border: none !important; }\n        .vis-config-label { color: #bbb !important; }\n        .vis-config-header { color: #58a6ff !important; font-weight: bold; margin-top: 10px; border-bottom: 1px solid #333; }\n        .vis-network .vis-navigation .vis-button { background-color: #21262d; border: 1px solid #444; border-radius: 4px; }\n        #options-export { padding: 15px; background: #0d1117; border-top: 2px solid #30363d; flex-shrink: 0; }\n        #options-export h3 { margin-top: 0; font-size: 14px; color: #58a6ff; }\n        #options-code { background: #161b22; padding: 10px; border-radius: 4px; font-family: monospace; font-size: 11px; max-height: 200px; overflow: auto; white-space: pre-wrap; border: 1px solid #30363d; color: #8b949e; }\n        #copy-btn { margin-top: 10px; width: 100%; padding: 8px; background: #238636; color: white; border: none; border-radius: 4px; cursor: pointer; font-weight: bold; }\n        #copy-btn:hover { background: #2ea043; }\n    </style>\n</head>\n<body>\n<div id=\"mynetwork\"></div>\n<div id=\"resizer\"></div>\n<div id=\"config\">\n    <div id=\"config-controls\"></div>\n    <div id=\"options-export\">\n        <h3>Current Options (JSON)</h3>\n        <div id=\"options-code\">Modify a control to see JSON...</div>\n        <button id=\"copy-btn\">Copy Options</button>\n    </div>\n</div>\n<script type=\"text/javascript\">\n    const nodes = new vis.DataSet(");
    page.append(nodes_json);
    page.append(");\n    const edges = new vis.DataSet(");
    page.append(edges_json);
    page.append(");\n    const groups = ");
    page.append(groups_json);
    page.append(";\n    const container = document.getElementById('mynetwork');\n    const configContainer = document.getElementById('config');\n    const configControls = document.getElementById('config-controls');\n    const optionsCode = document.getElementById('options-code');\n    const copyBtn = document.getElementById('copy-btn');\n    const resizer = document.getElementById('resizer');\n    let isResizing = false;\n    resizer.addEventListener('mousedown', () => isResizing = true);\n    document.addEventListener('mousemove', (e) => {\n        if (!isResizing) return;\n        const newWidth = window.innerWidth - e.clientX;\n        if (newWidth > 200 && newWidth < 900) configContainer.style.width = newWidth + 'px';\n    });\n    document.addEventListener('mouseup', () => isResizing = false);\n    let lastScrollTop = 0;\n    configContainer.addEventListener('scroll', () => { if (configContainer.scrollTop > 0) lastScrollTop = configContainer.scrollTop; }, {passive: true});\n    new MutationObserver(() => { if (configContainer.scrollTop !== lastScrollTop) configContainer.scrollTop = lastScrollTop; })\n        .observe(configControls, { childList: true, subtree: true });\n    const data = { nodes, edges };\n    const options = {\n        physics: { enabled: true, solver: 'forceAtlas2Based', forceAtlas2Based: { gravitationalConstant: -100, springLength: 10, avoidOverlap: 1, damping: 0.75 } },\n        interaction: { navigationButtons: true, keyboard: true, hover: true },\n        configure: { enabled: true, container: configControls, showButton: false }\n    };\n    const network = new vis.Network(container, data, options);\n    network.on(\"configChange\", (params) => { optionsCode.innerText = JSON.stringify(params, null, 2); });\n    const clusterBy = (g) => ({\n        joinCondition: (n) => n.clusterGroup === g,\n        clusterNodeProperties: { id: 'c:'+g, label: g, shape: 'box', margin: 10, color: { background: '#fbbf24', border: '#fff' }, font: { color: '#000', size: 16, face: 'sans-serif', strokeWidth: 0 } }\n    });\n    groups.forEach(g => network.cluster(clusterBy(g)));\n    network.on(\"click\", (p) => {\n        if (p.nodes.length > 0) {\n            let id = p.nodes[0];\n            if (network.isCluster(id)) network.openCluster(id);\n            else { let d = nodes.get(id); if (d && d.clusterGroup) network.cluster(clusterBy(d.clusterGroup)); }\n        }\n    });\n    copyBtn.addEventListener('click', () => {\n        navigator.clipboard.writeText(optionsCode.innerText).then(() => {\n            const originalText = copyBtn.innerText;\n            copyBtn.innerText = \"Copied!\";\n            setTimeout(() => { copyBtn.innerText = originalText; }, 1500);\n        });\n    });\n</script>\n</body>\n</html>");
    page
}

} // verus!
