//! Mermaid export, for Markdown renderers.

use vstd::prelude::*;
use crate::export::{group_keys, group_order, in_group, node_group, opt_view, opt_views, push_sanitized, sanitized};
use crate::export::theme::{node_style, Shape, Theme};
use crate::models::{Edge, EdgeRelation, Graph, Node};
use crate::text::{chars_of, decimal, push_decimal, push_str, string_from_chars};

verus! {

pub open spec fn shape_open(shape: Shape) -> Seq<char> {
    match shape {
        Shape::Box => "["@,
        Shape::Octagon => "{{"@,
        Shape::Rounded => "("@,
        Shape::Diamond => "{"@,
    }
}

pub open spec fn shape_close(shape: Shape) -> Seq<char> {
    match shape {
        Shape::Box => "]"@,
        Shape::Octagon => "}}"@,
        Shape::Rounded => ")"@,
        Shape::Diamond => "}"@,
    }
}

/// The Mermaid class of a node.
pub open spec fn class_name(n: Node) -> Seq<char> {
    if n.is_artificial_error_termination {
        "error"@
    } else if n.is_artificial_graph_start || n.is_artificial_graph_end {
        "startend"@
    } else {
        "function"@
    }
}

/// A node's definition line and class line.
pub open spec fn node_lines(n: Node) -> Seq<char> {
    let st = node_style(n);
    "        N_"@ + decimal(n.uid as nat) + shape_open(st.shape) + "\""@ + n.function.name@ + "\""@
        + shape_close(st.shape) + "\n"@ + "        class N_"@ + decimal(n.uid as nat) + " "@ + class_name(n)
        + "\n"@
}

pub open spec fn member_lines(nodes: Seq<Node>, key: Option<Seq<char>>) -> Seq<char>
    decreases nodes.len(),
{
    if nodes.len() == 0 {
        Seq::empty()
    } else {
        member_lines(nodes.drop_last(), key) + if node_group(nodes.last()) == key {
            node_lines(nodes.last())
        } else {
            Seq::empty()
        }
    }
}

/// A group as a subgraph; nodes of no group stand at top level.
pub open spec fn subgraph(nodes: Seq<Node>, key: Option<Seq<char>>) -> Seq<char> {
    match key {
        Some(name) => "    subgraph "@ + sanitized(name) + "\n"@ + "        direction TB\n"@ + member_lines(nodes, key)
            + "    end\n"@,
        None => member_lines(nodes, key),
    }
}

pub open spec fn subgraphs(nodes: Seq<Node>, keys: Seq<Option<Seq<char>>>) -> Seq<char>
    decreases keys.len(),
{
    if keys.len() == 0 {
        Seq::empty()
    } else {
        subgraphs(nodes, keys.drop_last()) + subgraph(nodes, keys.last())
    }
}

pub open spec fn arrow(r: EdgeRelation) -> Seq<char> {
    match r {
        EdgeRelation::ErrorFlow => "-.->"@,
        EdgeRelation::ControlFlow => "-.->"@,
        _ => "-->"@,
    }
}

pub open spec fn edge_line(e: Edge) -> Seq<char> {
    "    N_"@ + decimal(e.from_node_uid as nat) + " "@ + arrow(e.relation) + "|"@ + e.token.kind.spec_name() + "| N_"@
        + decimal(e.to_node_uid as nat) + "\n"@
}

pub open spec fn edge_lines(edges: Seq<Edge>) -> Seq<char>
    decreases edges.len(),
{
    if edges.len() == 0 {
        Seq::empty()
    } else {
        edge_lines(edges.drop_last()) + edge_line(edges.last())
    }
}

pub open spec fn preamble() -> Seq<char> {
    "flowchart TD\n"@ + "    classDef default fill:#1e293b,stroke:#334155,color:#fff;\n"@
        + "    classDef function fill:#2563eb,stroke:#1d4ed8,color:#fff;\n"@
        + "    classDef startend fill:#059669,stroke:#047857,color:#fff;\n"@
        + "    classDef error fill:#dc2626,stroke:#b91c1c,color:#fff;\n"@
}

/// The Mermaid flowchart of a graph.
pub open spec fn mermaid_text(g: Graph) -> Seq<char> {
    preamble() + subgraphs(g.nodes@, group_order(g.nodes@)) + edge_lines(g.edges@)
}

fn push_node_lines(out: &mut Vec<char>, n: &Node)
    ensures
        final(out)@ == old(out)@ + node_lines(*n),
{
    let ghost start = out@;
    let style = Theme::get_node_style(n);
    push_str(out, "        N_");
    push_decimal(out, n.uid);
    match style.shape {
        Shape::Box => push_str(out, "["),
        Shape::Octagon => push_str(out, "{{"),
        Shape::Rounded => push_str(out, "("),
        Shape::Diamond => push_str(out, "{"),
    }
    push_str(out, "\"");
    push_str(out, n.function.name.as_str());
    push_str(out, "\"");
    match style.shape {
        Shape::Box => push_str(out, "]"),
        Shape::Octagon => push_str(out, "}}"),
        Shape::Rounded => push_str(out, ")"),
        Shape::Diamond => push_str(out, "}"),
    }
    push_str(out, "\n");
    push_str(out, "        class N_");
    push_decimal(out, n.uid);
    push_str(out, " ");
    if n.is_artificial_error_termination {
        push_str(out, "error");
    } else if n.is_artificial_graph_start || n.is_artificial_graph_end {
        push_str(out, "startend");
    } else {
        push_str(out, "function");
    }
    push_str(out, "\n");
    assert(out@ =~= start + node_lines(*n));
}

fn push_members(out: &mut Vec<char>, nodes: &Vec<Node>, key: &Option<String>)
    ensures
        final(out)@ == old(out)@ + member_lines(nodes@, opt_view(*key)),
{
    let ghost start = out@;
    let mut i: usize = 0;
    while i < nodes.len()
        invariant
            0 <= i <= nodes@.len(),
            out@ == start + member_lines(nodes@.take(i as int), opt_view(*key)),
        decreases nodes@.len() - i,
    {
        if in_group(&nodes[i], key) {
            push_node_lines(out, &nodes[i]);
        }
        assert(nodes@.take(i + 1).drop_last() =~= nodes@.take(i as int));
        assert(nodes@.take(i + 1).last() == nodes@[i as int]);
        assert(out@ =~= start + member_lines(nodes@.take(i + 1), opt_view(*key)));
        i = i + 1;
    }
    assert(nodes@.take(i as int) =~= nodes@);
}

fn push_subgraph(out: &mut Vec<char>, nodes: &Vec<Node>, key: &Option<String>)
    ensures
        final(out)@ == old(out)@ + subgraph(nodes@, opt_view(*key)),
{
    let ghost start = out@;
    match key {
        Some(name) => {
            push_str(out, "    subgraph ");
            let cs = chars_of(name.as_str());
            push_sanitized(out, &cs);
            push_str(out, "\n");
            push_str(out, "        direction TB\n");
            push_members(out, nodes, key);
            push_str(out, "    end\n");
            assert(out@ =~= start + subgraph(nodes@, opt_view(*key)));
        },
        None => {
            push_members(out, nodes, key);
        },
    }
}

fn push_edge_line(out: &mut Vec<char>, e: &Edge)
    ensures
        final(out)@ == old(out)@ + edge_line(*e),
{
    let ghost start = out@;
    push_str(out, "    N_");
    push_decimal(out, e.from_node_uid);
    push_str(out, " ");
    match e.relation {
        EdgeRelation::ErrorFlow => push_str(out, "-.->"),
        EdgeRelation::ControlFlow => push_str(out, "-.->"),
        _ => push_str(out, "-->"),
    }
    push_str(out, "|");
    push_str(out, e.token.kind.name());
    push_str(out, "| N_");
    push_decimal(out, e.to_node_uid);
    push_str(out, "\n");
    assert(out@ =~= start + edge_line(*e));
}

/// Renders the graph as a Mermaid flowchart: one subgraph per group, nodes
/// classed by their role, edges labelled with their token.
pub fn export(graph: &Graph) -> (r: String)
    ensures
        r@ == mermaid_text(*graph),
{
    let mut out: Vec<char> = Vec::new();
    push_str(&mut out, "flowchart TD\n");
    push_str(&mut out, "    classDef default fill:#1e293b,stroke:#334155,color:#fff;\n");
    push_str(&mut out, "    classDef function fill:#2563eb,stroke:#1d4ed8,color:#fff;\n");
    push_str(&mut out, "    classDef startend fill:#059669,stroke:#047857,color:#fff;\n");
    push_str(&mut out, "    classDef error fill:#dc2626,stroke:#b91c1c,color:#fff;\n");
    assert(out@ =~= preamble());
    let keys = group_keys(&graph.nodes);
    let ghost ks = opt_views(keys@);
    let mut k: usize = 0;
    while k < keys.len()
        invariant
            0 <= k <= keys@.len(),
            ks == opt_views(keys@),
            out@ == preamble() + subgraphs(graph.nodes@, ks.take(k as int)),
        decreases keys@.len() - k,
    {
        push_subgraph(&mut out, &graph.nodes, &keys[k]);
        assert(ks.take(k + 1).drop_last() =~= ks.take(k as int));
        assert(ks.take(k + 1).last() == opt_view(keys@[k as int]));
        assert(out@ =~= preamble() + subgraphs(graph.nodes@, ks.take(k + 1)));
        k = k + 1;
    }
    assert(ks.take(k as int) =~= ks);
    let ghost mid = out@;
    let mut i: usize = 0;
    while i < graph.edges.len()
        invariant
            0 <= i <= graph.edges@.len(),
            out@ == mid + edge_lines(graph.edges@.take(i as int)),
        decreases graph.edges@.len() - i,
    {
        push_edge_line(&mut out, &graph.edges[i]);
        assert(graph.edges@.take(i + 1).drop_last() =~= graph.edges@.take(i as int));
        assert(out@ =~= mid + edge_lines(graph.edges@.take(i + 1)));
        i = i + 1;
    }
    assert(graph.edges@.take(i as int) =~= graph.edges@);
    assert(out@ =~= mermaid_text(*graph));
    string_from_chars(&out)
}

} // verus!
