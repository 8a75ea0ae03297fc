//! TikZ (LaTeX) export, laid out by the `force` graph drawing library.

use vstd::prelude::*;
use crate::export::{group_keys, group_order, in_group, node_group, opt_view, opt_views};
use crate::export::theme::{node_style, token_color, Shape, Theme};
use crate::models::{Edge, EdgeRelation, Graph, Node};
use crate::text::{decimal, push_decimal, push_str, string_from_chars};

verus! {

/// The document preamble, up to the opening of the graph.
pub open spec fn preamble() -> Seq<char> {
    "% Tect Architecture Export\n% Compile with: lualatex output.tex\n\\documentclass[tikz,border=10pt]{standalone}\n\\usetikzlibrary{graphs, graphdrawing, shapes.geometric}\n\\usegdlibrary{force}\n\n% Tect Color Palette\n\\definecolor{TectBlue}{HTML}{2563eb}\n\\definecolor{TectRed}{HTML}{dc2626}\n\\definecolor{TectGreen}{HTML}{059669}\n\\definecolor{TectPurple}{HTML}{a855f7}\n\\definecolor{TectGray}{HTML}{64748b}\n\n\\begin{document}\n\n\\begin{tikzpicture}[\n  tect_node/.style={draw=none, fill=TectBlue, text=white, font=\\sffamily\\small, inner sep=6pt, rounded corners=2pt},\n  tect_edge/.style={draw=gray!50, thick, ->, >=stealth, font=\\sffamily\\tiny, align=center}\n]\n\n\\graph [spring layout, node distance=2cm, iterations=500] {\n"@
}

pub open spec fn shape_tikz(shape: Shape) -> Seq<char> {
    match shape {
        Shape::Box => "rectangle"@,
        Shape::Octagon => "regular polygon, regular polygon sides=8"@,
        Shape::Rounded => "rectangle, rounded corners=5pt"@,
        Shape::Diamond => "diamond"@,
    }
}

pub open spec fn node_line(n: Node) -> Seq<char> {
    let st = node_style(n);
    "  N_"@ + decimal(n.uid as nat) + " [as=\""@ + n.function.name@ + "\", tect_node, shape="@ + shape_tikz(st.shape)
        + ", fill="@ + st.latex_color + "];\n"@
}

pub open spec fn member_lines(nodes: Seq<Node>, key: Option<Seq<char>>) -> Seq<char>
    decreases nodes.len(),
{
    if nodes.len() == 0 {
        Seq::empty()
    } else {
        member_lines(nodes.drop_last(), key) + if node_group(nodes.last()) == key {
            node_line(nodes.last())
        } else {
            Seq::empty()
        }
    }
}

/// A group: a comment naming it, then its nodes.
pub open spec fn group_block(nodes: Seq<Node>, key: Option<Seq<char>>) -> Seq<char> {
    match key {
        Some(name) => "  % Group: "@ + name + "\n"@ + member_lines(nodes, key),
        None => "  % Global\n"@ + member_lines(nodes, key),
    }
}

pub open spec fn group_blocks(nodes: Seq<Node>, keys: Seq<Option<Seq<char>>>) -> Seq<char>
    decreases keys.len(),
{
    if keys.len() == 0 {
        Seq::empty()
    } else {
        group_blocks(nodes, keys.drop_last()) + group_block(nodes, keys.last())
    }
}

pub open spec fn edge_extra(r: EdgeRelation) -> Seq<char> {
    match r {
        EdgeRelation::ControlFlow => ", dashed"@,
        EdgeRelation::ErrorFlow => ", dashed"@,
        _ => Seq::empty(),
    }
}

pub open spec fn edge_line(e: Edge) -> Seq<char> {
    "  N_"@ + decimal(e.from_node_uid as nat) + " -> [tect_edge, color="@ + token_color(e.token.kind).1
        + ", edge label=\""@ + e.token.kind.spec_name() + "\""@ + edge_extra(e.relation) + "] N_"@
        + decimal(e.to_node_uid as nat) + ";\n"@
}

pub open spec fn edge_lines(edges: Seq<Edge>) -> Seq<char>
    decreases edges.len(),
{
    if edges.len() == 0 {
        Seq::empty()
    } else {
        edge_lines(edges.drop_last()) + edge_line(edges.last())
    }
}

pub open spec fn closing() -> Seq<char> {
    "};\n"@ + "\\end{tikzpicture}\n"@ + "\\end{document}\n"@
}

/// The standalone LaTeX document of a graph.
pub open spec fn tikz_text(g: Graph) -> Seq<char> {
    preamble() + group_blocks(g.nodes@, group_order(g.nodes@)) + "\n"@ + edge_lines(g.edges@) + closing()
}

fn push_node_line(out: &mut Vec<char>, n: &Node)
    ensures
        final(out)@ == old(out)@ + node_line(*n),
{
    let ghost start = out@;
    let style = Theme::get_node_style(n);
    push_str(out, "  N_");
    push_decimal(out, n.uid);
    push_str(out, " [as=\"");
    push_str(out, n.function.name.as_str());
    push_str(out, "\", tect_node, shape=");
    match style.shape {
        Shape::Box => push_str(out, "rectangle"),
        Shape::Octagon => push_str(out, "regular polygon, regular polygon sides=8"),
        Shape::Rounded => push_str(out, "rectangle, rounded corners=5pt"),
        Shape::Diamond => push_str(out, "diamond"),
    }
    push_str(out, ", fill=");
    push_str(out, style.latex_color);
    push_str(out, "];\n");
    assert(out@ =~= start + node_line(*n));
}

fn push_members(out: &mut Vec<char>, nodes: &Vec<Node>, key: &Option<String>)
    ensures
        final(out)@ == old(out)@ + member_lines(nodes@, opt_view(*key)),
{
    let ghost start = out@;
    let mut i: usize = 0;
    while i < nodes.len()
        invariant
            0 <= i <= nodes@.len(),
            out@ == start + member_lines(nodes@.take(i as int), opt_view(*key)),
        decreases nodes@.len() - i,
    {
        if in_group(&nodes[i], key) {
            push_node_line(out, &nodes[i]);
        }
        assert(nodes@.take(i + 1).drop_last() =~= nodes@.take(i as int));
        assert(nodes@.take(i + 1).last() == nodes@[i as int]);
        assert(out@ =~= start + member_lines(nodes@.take(i + 1), opt_view(*key)));
        i = i + 1;
    }
    assert(nodes@.take(i as int) =~= nodes@);
}

fn push_group_block(out: &mut Vec<char>, nodes: &Vec<Node>, key: &Option<String>)
    ensures
        final(out)@ == old(out)@ + group_block(nodes@, opt_view(*key)),
{
    let ghost start = out@;
    match key {
        Some(name) => {
            push_str(out, "  % Group: ");
            push_str(out, name.as_str());
            push_str(out, "\n");
        },
        None => {
            push_str(out, "  % Global\n");
        },
    }
    push_members(out, nodes, key);
    assert(out@ =~= start + group_block(nodes@, opt_view(*key)));
}

fn push_edge_line(out: &mut Vec<char>, e: &Edge)
    ensures
        final(out)@ == old(out)@ + edge_line(*e),
{
    let ghost start = out@;
    let (_, color_name) = Theme::get_token_color(&e.token.kind);
    push_str(out, "  N_");
    push_decimal(out, e.from_node_uid);
    push_str(out, " -> [tect_edge, color=");
    push_str(out, color_name);
    push_str(out, ", edge label=\"");
    push_str(out, e.token.kind.name());
    push_str(out, "\"");
    match e.relation {
        EdgeRelation::ControlFlow => push_str(out, ", dashed"),
        EdgeRelation::ErrorFlow => push_str(out, ", dashed"),
        _ => {},
    }
    push_str(out, "] N_");
    push_decimal(out, e.to_node_uid);
    push_str(out, ";\n");
    assert(out@ =~= start + edge_line(*e));
}

/// Renders the graph as a standalone LaTeX document drawn with TikZ: nodes
/// group by group, edges colored by the kind of their token.
pub fn export(graph: &Graph) -> (r: String)
    ensures
        r@ == tikz_text(*graph),
{
    let mut out: Vec<char> = Vec::new();
    push_str(&mut out, "% Tect Architecture Export\n% Compile with: lualatex output.tex\n\\documentclass[tikz,border=10pt]{standalone}\n\\usetikzlibrary{graphs, graphdrawing, shapes.geometric}\n\\usegdlibrary{force}\n\n% Tect Color Palette\n\\definecolor{TectBlue}{HTML}{2563eb}\n\\definecolor{TectRed}{HTML}{dc2626}\n\\definecolor{TectGreen}{HTML}{059669}\n\\definecolor{TectPurple}{HTML}{a855f7}\n\\definecolor{TectGray}{HTML}{64748b}\n\n\\begin{document}\n\n\\begin{tikzpicture}[\n  tect_node/.style={draw=none, fill=TectBlue, text=white, font=\\sffamily\\small, inner sep=6pt, rounded corners=2pt},\n  tect_edge/.style={draw=gray!50, thick, ->, >=stealth, font=\\sffamily\\tiny, align=center}\n]\n\n\\graph [spring layout, node distance=2cm, iterations=500] {\n");
    let keys = group_keys(&graph.nodes);
    let ghost ks = opt_views(keys@);
    let mut k: usize = 0;
    while k < keys.len()
        invariant
            0 <= k <= keys@.len(),
            ks == opt_views(keys@),
            out@ == preamble() + group_blocks(graph.nodes@, ks.take(k as int)),
        decreases keys@.len() - k,
    {
        push_group_block(&mut out, &graph.nodes, &keys[k]);
        assert(ks.take(k + 1).drop_last() =~= ks.take(k as int));
        assert(ks.take(k + 1).last() == opt_view(keys@[k as int]));
        assert(out@ =~= preamble() + group_blocks(graph.nodes@, ks.take(k + 1)));
        k = k + 1;
    }
    assert(ks.take(k as int) =~= ks);
    push_str(&mut out, "\n");
    let ghost mid = out@;
    let mut i: usize = 0;
    while i < graph.edges.len()
        invariant
            0 <= i <= graph.edges@.len(),
            out@ == mid + edge_lines(graph.edges@.take(i as int)),
        decreases graph.edges@.len() - i,
    {
        push_edge_line(&mut out, &graph.edges[i]);
        assert(graph.edges@.take(i + 1).drop_last() =~= graph.edges@.take(i as int));
        assert(out@ =~= mid + edge_lines(graph.edges@.take(i + 1)));
        i = i + 1;
    }
    assert(graph.edges@.take(i as int) =~= graph.edges@);
    push_str(&mut out, "};\n");
    push_str(&mut out, "\\end{tikzpicture}\n");
    push_str(&mut out, "\\end{document}\n");
    assert(out@ =~= tikz_text(*graph));
    string_from_chars(&out)
}

} // verus!
