//! Graphviz (DOT) export.

use vstd::prelude::*;
use crate::export::{
    group_keys, group_order, html_escaped, in_group, node_group, opt_view, opt_views, push_escaped,
    push_sanitized, sanitized,
};
use crate::export::theme::{node_style, token_color, Shape, Theme};
use crate::models::{Edge, EdgeRelation, Graph, Node};
use crate::text::{chars_of, decimal, push_decimal, push_str, string_from_chars};

verus! {

/// The DOT shape of a node outline.
pub open spec fn shape_attr(shape: Shape) -> Seq<char> {
    match shape {
        Shape::Box => "box"@,
        Shape::Octagon => "octagon"@,
        Shape::Rounded => "rect, style=\"rounded,filled\""@,
        Shape::Diamond => "diamond"@,
    }
}

/// The fill attribute, unless the shape already sets a style.
pub open spec fn fill_attr(shape: Shape) -> Seq<char> {
    if shape is Rounded {
        Seq::empty()
    } else {
        ", style=filled"@
    }
}

/// Grouped nodes get a thicker outline.
pub open spec fn pen_width(n: Node) -> Seq<char> {
    if node_group(n) is Some {
        "2"@
    } else {
        "1"@
    }
}

pub open spec fn node_line(n: Node) -> Seq<char> {
    let st = node_style(n);
    "        N_"@ + decimal(n.uid as nat) + " [label=<<B>"@ + html_escaped(n.function.name@) + "</B>>, shape="@
        + shape_attr(st.shape) + ", fillcolor=\""@ + st.fill + "\", color=\""@ + st.border + "\", penwidth="@
        + pen_width(n) + ", fontcolor=\""@ + st.text + "\""@ + fill_attr(st.shape) + "];\n"@
}

/// The node lines of the nodes in group `key`, in graph order.
pub open spec fn member_lines(nodes: Seq<Node>, key: Option<Seq<char>>) -> Seq<char>
    decreases nodes.len(),
{
    if nodes.len() == 0 {
        Seq::empty()
    } else {
        member_lines(nodes.drop_last(), key) + if node_group(nodes.last()) == key {
            node_line(nodes.last())
        } else {
            Seq::empty()
        }
    }
}

/// A group as a DOT cluster; nodes of no group stand at top level.
pub open spec fn cluster(nodes: Seq<Node>, key: Option<Seq<char>>) -> Seq<char> {
    match key {
        Some(name) => "    subgraph cluster_"@ + sanitized(name) + " {\n"@ + "        label=\""@ + name + "\";\n"@
            + "        style=rounded;\n"@ + "        color=\"#94a3b8\";\n"@ + "        fontcolor=\"#475569\";\n"@
            + member_lines(nodes, key) + "    }\n"@,
        None => member_lines(nodes, key),
    }
}

pub open spec fn clusters(nodes: Seq<Node>, keys: Seq<Option<Seq<char>>>) -> Seq<char>
    decreases keys.len(),
{
    if keys.len() == 0 {
        Seq::empty()
    } else {
        clusters(nodes, keys.drop_last()) + cluster(nodes, keys.last())
    }
}

pub open spec fn edge_style(r: EdgeRelation) -> Seq<char> {
    match r {
        EdgeRelation::ControlFlow => "dashed"@,
        EdgeRelation::ErrorFlow => "dotted"@,
        _ => "solid"@,
    }
}

pub open spec fn edge_line(e: Edge) -> Seq<char> {
    "    N_"@ + decimal(e.from_node_uid as nat) + " -> N_"@ + decimal(e.to_node_uid as nat) + " [label=\""@
        + e.token.kind.spec_name() + "\", color=\""@ + token_color(e.token.kind).0 + "\", style=\""@
        + edge_style(e.relation) + "\"];\n"@
}

pub open spec fn edge_lines(edges: Seq<Edge>) -> Seq<char>
    decreases edges.len(),
{
    if edges.len() == 0 {
        Seq::empty()
    } else {
        edge_lines(edges.drop_last()) + edge_line(edges.last())
    }
}

pub open spec fn preamble() -> Seq<char> {
    "digraph Tect {\n"@ + "    layout=dot;\n"@ + "    rankdir=TD;\n"@
        + "    node [fontname=\"Helvetica\", fontsize=10];\n"@
        + "    edge [fontname=\"Helvetica\", fontsize=9];\n"@
}

/// The DOT document of a graph.
pub open spec fn dot_text(g: Graph) -> Seq<char> {
    preamble() + clusters(g.nodes@, group_order(g.nodes@)) + edge_lines(g.edges@) + "}\n"@
}

fn push_node_line(out: &mut Vec<char>, n: &Node)
    ensures
        final(out)@ == old(out)@ + node_line(*n),
{
    let ghost start = out@;
    let style = Theme::get_node_style(n);
    push_str(out, "        N_");
    push_decimal(out, n.uid);
    push_str(out, " [label=<<B>");
    push_escaped(out, n.function.name.as_str());
    push_str(out, "</B>>, shape=");
    match style.shape {
        Shape::Box => push_str(out, "box"),
        Shape::Octagon => push_str(out, "octagon"),
        Shape::Rounded => push_str(out, "rect, style=\"rounded,filled\""),
        Shape::Diamond => push_str(out, "diamond"),
    }
    push_str(out, ", fillcolor=\"");
    push_str(out, style.fill);
    push_str(out, "\", color=\"");
    push_str(out, style.border);
    push_str(out, "\", penwidth=");
    if n.function.group.is_some() {
        push_str(out, "2");
    } else {
        push_str(out, "1");
    }
    push_str(out, ", fontcolor=\"");
    push_str(out, style.text);
    push_str(out, "\"");
    match style.shape {
        Shape::Rounded => {},
        _ => push_str(out, ", style=filled"),
    }
    push_str(out, "];\n");
    assert(out@ =~= start + node_line(*n));
}

fn push_members(out: &mut Vec<char>, nodes: &Vec<Node>, key: &Option<String>)
    ensures
        final(out)@ == old(out)@ + member_lines(nodes@, opt_view(*key)),
{
    let ghost start = out@;
    let mut i: usize = 0;
    while i < nodes.len()
        invariant
            0 <= i <= nodes@.len(),
            out@ == start + member_lines(nodes@.take(i as int), opt_view(*key)),
        decreases nodes@.len() - i,
    {
        let ghost before = out@;
        if in_group(&nodes[i], key) {
            push_node_line(out, &nodes[i]);
        }
        assert(nodes@.take(i + 1).drop_last() =~= nodes@.take(i as int));
        assert(nodes@.take(i + 1).last() == nodes@[i as int]);
        assert(out@ =~= start + member_lines(nodes@.take(i + 1), opt_view(*key)));
        i = i + 1;
    }
    assert(nodes@.take(i as int) =~= nodes@);
}

fn push_cluster(out: &mut Vec<char>, nodes: &Vec<Node>, key: &Option<String>)
    ensures
        final(out)@ == old(out)@ + cluster(nodes@, opt_view(*key)),
{
    let ghost start = out@;
    match key {
        Some(name) => {
            push_str(out, "    subgraph cluster_");
            let cs = chars_of(name.as_str());
            push_sanitized(out, &cs);
            push_str(out, " {\n");
            push_str(out, "        label=\"");
            push_str(out, name.as_str());
            push_str(out, "\";\n");
            push_str(out, "        style=rounded;\n");
            push_str(out, "        color=\"#94a3b8\";\n");
            push_str(out, "        fontcolor=\"#475569\";\n");
            push_members(out, nodes, key);
            push_str(out, "    }\n");
            assert(out@ =~= start + cluster(nodes@, opt_view(*key)));
        },
        None => {
            push_members(out, nodes, key);
        },
    }
}

fn push_edge_line(out: &mut Vec<char>, e: &Edge)
    ensures
        final(out)@ == old(out)@ + edge_line(*e),
{
    let ghost start = out@;
    let (color, _) = Theme::get_token_color(&e.token.kind);
    push_str(out, "    N_");
    push_decimal(out, e.from_node_uid);
    push_str(out, " -> N_");
    push_decimal(out, e.to_node_uid);
    push_str(out, " [label=\"");
    push_str(out, e.token.kind.name());
    push_str(out, "\", color=\"");
    push_str(out, color);
    push_str(out, "\", style=\"");
    match e.relation {
        EdgeRelation::ControlFlow => push_str(out, "dashed"),
        EdgeRelation::ErrorFlow => push_str(out, "dotted"),
        _ => push_str(out, "solid"),
    }
    push_str(out, "\"];\n");
    assert(out@ =~= start + edge_line(*e));
}

/// Renders the graph as a Graphviz DOT document: one cluster per group,
/// nodes styled by the theme, edges labelled with their token.
pub fn export(graph: &Graph) -> (r: String)
    ensures
        r@ == dot_text(*graph),
{
    let mut out: Vec<char> = Vec::new();
    push_str(&mut out, "digraph Tect {\n");
    push_str(&mut out, "    layout=dot;\n");
    push_str(&mut out, "    rankdir=TD;\n");
    push_str(&mut out, "    node [fontname=\"Helvetica\", fontsize=10];\n");
    push_str(&mut out, "    edge [fontname=\"Helvetica\", fontsize=9];\n");
    assert(out@ =~= preamble());
    let keys = group_keys(&graph.nodes);
    let ghost ks = opt_views(keys@);
    let mut k: usize = 0;
    while k < keys.len()
        invariant
            0 <= k <= keys@.len(),
            ks == opt_views(keys@),
            out@ == preamble() + clusters(graph.nodes@, ks.take(k as int)),
        decreases keys@.len() - k,
    {
        push_cluster(&mut out, &graph.nodes, &keys[k]);
        assert(ks.take(k + 1).drop_last() =~= ks.take(k as int));
        assert(ks.take(k + 1).last() == opt_view(keys@[k as int]));
        assert(out@ =~= preamble() + clusters(graph.nodes@, ks.take(k + 1)));
        k = k + 1;
    }
    assert(ks.take(k as int) =~= ks);
    let ghost mid = out@;
    let mut i: usize = 0;
    while i < graph.edges.len()
        invariant
            0 <= i <= graph.edges@.len(),
            out@ == mid + edge_lines(graph.edges@.take(i as int)),
        decreases graph.edges@.len() - i,
    {
        push_edge_line(&mut out, &graph.edges[i]);
        assert(graph.edges@.take(i + 1).drop_last() =~= graph.edges@.take(i as int));
        assert(out@ =~= mid + edge_lines(graph.edges@.take(i + 1)));
        i = i + 1;
    }
    assert(graph.edges@.take(i as int) =~= graph.edges@);
    push_str(&mut out, "}\n");
    assert(out@ =~= dot_text(*graph));
    string_from_chars(&out)
}

} // verus!
