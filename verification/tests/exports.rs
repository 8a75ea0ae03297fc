use std::sync::Arc;

use tect::export::theme::{Shape, Theme};
use tect::export::{dot, mermaid, push_escaped, sanitize_id, tikz};
use tect::models::{
    hash_name, Cardinality, Constant, Edge, EdgeRelation, Function, Graph, Group, Kind, Node, Token, Variable,
};

fn small_graph() -> Graph {
    let start = Node::new_artificial("Start".to_string(), true, false, false);
    let group = Arc::new(Group::new("Core".to_string(), None));
    let load = Node::new(Arc::new(Function::new("Load".to_string(), None, vec![], vec![], Some(group))));
    let cfg = Kind::Constant(Arc::new(Constant::new("Cfg".to_string(), None)));
    let edge = Edge {
        from_node_uid: start.uid,
        to_node_uid: load.uid,
        token: Token::new(cfg, Cardinality::Unitary, 7),
        relation: EdgeRelation::DataFlow,
    };
    Graph { nodes: vec![start, load], edges: vec![edge] }
}

#[test]
fn dot_export_of_small_graph() {
    let s = hash_name("Start");
    let l = hash_name("Load");
    let expected = format!(
        "digraph Tect {{\n    layout=dot;\n    rankdir=TD;\n    node [fontname=\"Helvetica\", fontsize=10];\n    edge [fontname=\"Helvetica\", fontsize=9];\n        N_{s} [label=<<B>Start</B>>, shape=rect, style=\"rounded,filled\", fillcolor=\"#059669\", color=\"#047857\", penwidth=1, fontcolor=\"#ffffff\"];\n    subgraph cluster_Core {{\n        label=\"Core\";\n        style=rounded;\n        color=\"#94a3b8\";\n        fontcolor=\"#475569\";\n        N_{l} [label=<<B>Load</B>>, shape=box, fillcolor=\"#2563eb\", color=\"#1d4ed8\", penwidth=2, fontcolor=\"#ffffff\", style=filled];\n    }}\n    N_{s} -> N_{l} [label=\"Cfg\", color=\"#a855f7\", style=\"solid\"];\n}}\n"
    );
    assert_eq!(dot::export(&small_graph()), expected);
}

#[test]
fn mermaid_export_of_small_graph() {
    let s = hash_name("Start");
    let l = hash_name("Load");
    let expected = format!(
        "flowchart TD\n    classDef default fill:#1e293b,stroke:#334155,color:#fff;\n    classDef function fill:#2563eb,stroke:#1d4ed8,color:#fff;\n    classDef startend fill:#059669,stroke:#047857,color:#fff;\n    classDef error fill:#dc2626,stroke:#b91c1c,color:#fff;\n        N_{s}(\"Start\")\n        class N_{s} startend\n    subgraph Core\n        direction TB\n        N_{l}[\"Load\"]\n        class N_{l} function\n    end\n    N_{s} -->|Cfg| N_{l}\n"
    );
    assert_eq!(mermaid::export(&small_graph()), expected);
}

#[test]
fn tikz_export_of_small_graph() {
    let s = hash_name("Start");
    let l = hash_name("Load");
    let out = tikz::export(&small_graph());
    assert!(out.starts_with("% Tect Architecture Export\n% Compile with: lualatex output.tex\n"));
    let body = format!(
        "\\graph [spring layout, node distance=2cm, iterations=500] {{\n  % Global\n  N_{s} [as=\"Start\", tect_node, shape=rectangle, rounded corners=5pt, fill=TectGreen];\n  % Group: Core\n  N_{l} [as=\"Load\", tect_node, shape=rectangle, fill=TectBlue];\n\n  N_{s} -> [tect_edge, color=TectPurple, edge label=\"Cfg\"] N_{l};\n}};\n\\end{{tikzpicture}}\n\\end{{document}}\n"
    );
    assert!(out.ends_with(&body));
}

#[test]
fn error_edges_are_dotted_and_dashed() {
    let fail = Node::new_artificial("Fail".to_string(), false, false, true);
    let end = Node::new_artificial("End".to_string(), false, true, false);
    let err = Kind::Variable(Arc::new(Variable::new("Oops".to_string(), None)));
    let edge = Edge {
        from_node_uid: fail.uid,
        to_node_uid: end.uid,
        token: Token::new(err, Cardinality::Collection, 1),
        relation: EdgeRelation::ErrorFlow,
    };
    let g = Graph { nodes: vec![fail, end], edges: vec![edge] };
    let f = hash_name("Fail");
    let e = hash_name("End");
    assert!(dot::export(&g).contains(&format!("    N_{f} -> N_{e} [label=\"Oops\", color=\"#64748b\", style=\"dotted\"];\n")));
    assert!(dot::export(&g).contains("shape=diamond, fillcolor=\"#dc2626\""));
    assert!(mermaid::export(&g).contains(&format!("    N_{f} -.->|Oops| N_{e}\n")));
    assert!(mermaid::export(&g).contains(&format!("        N_{f}{{\"Fail\"}}\n        class N_{f} error\n")));
    assert!(tikz::export(&g).contains(&format!("  N_{f} -> [tect_edge, color=TectGray, edge label=\"Oops\", dashed] N_{e};\n")));
}

#[test]
fn empty_graph_exports() {
    let g = Graph { nodes: vec![], edges: vec![] };
    assert_eq!(
        dot::export(&g),
        "digraph Tect {\n    layout=dot;\n    rankdir=TD;\n    node [fontname=\"Helvetica\", fontsize=10];\n    edge [fontname=\"Helvetica\", fontsize=9];\n}\n"
    );
    assert!(mermaid::export(&g).ends_with("classDef error fill:#dc2626,stroke:#b91c1c,color:#fff;\n"));
}

#[test]
fn theme_styles_by_role() {
    let start = Node::new_artificial("S".to_string(), true, false, false);
    let st = Theme::get_node_style(&start);
    assert_eq!(st.shape, Shape::Rounded);
    assert_eq!(st.fill, "#059669");
    assert_eq!(st.latex_color, "TectGreen");
    let err = Node::new_artificial("E".to_string(), false, false, true);
    assert_eq!(Theme::get_node_style(&err).shape, Shape::Diamond);
    assert_eq!(Theme::get_node_style(&err).border, "#b91c1c");
    let plain = Node::new(Arc::new(Function::new("F".to_string(), None, vec![], vec![], None)));
    assert_eq!(Theme::get_node_style(&plain).shape, Shape::Box);
    assert_eq!(Theme::get_node_style(&plain).fill, "#2563eb");
    let c = Kind::Constant(Arc::new(Constant::new("C".to_string(), None)));
    assert_eq!(Theme::get_token_color(&c), ("#a855f7", "TectPurple"));
    let v = Kind::Variable(Arc::new(Variable::new("V".to_string(), None)));
    assert_eq!(Theme::get_token_color(&v), ("#64748b", "TectGray"));
    let e = Kind::Error(Arc::new(tect::models::Error::new("X".to_string(), None)));
    assert_eq!(Theme::get_token_color(&e), ("#ef4444", "TectRed"));
}

#[test]
fn identifiers_are_sanitized_and_labels_escaped() {
    assert_eq!(sanitize_id("Data Flow-2.x"), "Data_Flow_2_x");
    assert_eq!(sanitize_id(""), "");
    let mut out: Vec<char> = vec!['>'];
    push_escaped(&mut out, "a<b & c>d");
    assert_eq!(out.iter().collect::<String>(), ">a&lt;b &amp; c&gt;d");
}

#[test]
fn dot_pages_embed_the_graph_as_json() {
    let page = tect::html::dot_page("\"g\"");
    assert!(page.starts_with("<!DOCTYPE html>\n<html lang=\"en\">\n"));
    assert!(page.contains("<script>\nconst dot = \"g\";\n\nconst viz = new Viz();\n"));
    assert!(page.ends_with("</body>\n</html>\n"));
    let wrapped = tect::html::wrap_dot("digraph {\n  \"a\" -> b;\n}");
    assert!(wrapped.contains("const dot = \"digraph {\\n  \\\"a\\\" -> b;\\n}\";\n"));
}

#[test]
fn nodes_compare_by_identity_and_role() {
    let a = Node::new(Arc::new(Function::new("F".to_string(), Some("one".to_string()), vec![], vec![], None)));
    let b = Node::new(Arc::new(Function::new("F".to_string(), Some("two".to_string()), vec![], vec![], None)));
    assert!(a == b);
    let start = Node::new_artificial("F".to_string(), true, false, false);
    assert!(a != start);
}

#[test]
fn dot_json_escapes_control_characters() {
    let wrapped = tect::html::wrap_dot("a\u{1}\t\\é");
    assert!(wrapped.contains("const dot = \"a\\u0001\\t\\\\é\";\n"));
}
