//! The styling shared by the static exporters.

use vstd::prelude::*;
use crate::models::{Kind, Node};

verus! {

/// How a node is drawn.
pub struct Style<'a> {
    pub fill: &'a str,
    pub border: &'a str,
    pub text: &'a str,
    pub shape: Shape,
    /// The name of the predefined LaTeX color.
    pub latex_color: &'a str,
}

/// The outline of a node.
#[derive(Debug, Clone, Copy, PartialEq, Eq, Structural)]
pub enum Shape {
    Box,
    Octagon,
    Rounded,
    Diamond,
}

/// The content of a style.
pub struct StyleModel {
    pub fill: Seq<char>,
    pub border: Seq<char>,
    pub text: Seq<char>,
    pub shape: Shape,
    pub latex_color: Seq<char>,
}

impl<'a> View for Style<'a> {
    type V = StyleModel;

    open spec fn view(&self) -> StyleModel {
        StyleModel {
            fill: self.fill@,
            border: self.border@,
            text: self.text@,
            shape: self.shape,
            latex_color: self.latex_color@,
        }
    }
}

/// The style of a node: error terminations in red diamonds, the start and
/// end of the graph in green rounded boxes, every function in a blue box.
pub open spec fn node_style(n: Node) -> StyleModel {
    if n.is_artificial_error_termination {
        StyleModel {
            fill: "#dc2626"@,
            border: "#b91c1c"@,
            text: "#ffffff"@,
            shape: Shape::Diamond,
            latex_color: "TectRed"@,
        }
    } else if n.is_artificial_graph_start || n.is_artificial_graph_end {
        StyleModel {
            fill: "#059669"@,
            border: "#047857"@,
            text: "#ffffff"@,
            shape: Shape::Rounded,
            latex_color: "TectGreen"@,
        }
    } else {
        StyleModel {
            fill: "#2563eb"@,
            border: "#1d4ed8"@,
            text: "#ffffff"@,
            shape: Shape::Box,
            latex_color: "TectBlue"@,
        }
    }
}

/// The color of a token, as HTML and as a LaTeX color name.
pub open spec fn token_color(kind: Kind) -> (Seq<char>, Seq<char>) {
    match kind {
        Kind::Constant(_) => ("#a855f7"@, "TectPurple"@),
        Kind::Variable(_) => ("#64748b"@, "TectGray"@),
        Kind::Error(_) => ("#ef4444"@, "TectRed"@),
    }
}

/// The palette of the exporters.
pub struct Theme;

impl Theme {
    /// The style of a node, from its role in the graph.
    pub fn get_node_style(node: &Node) -> (style: Style<'static>)
        ensures
            style@ == node_style(*node),
    {
        if node.is_artificial_error_termination {
            return Style {
                fill: "#dc2626",
                border: "#b91c1c",
                text: "#ffffff",
                shape: Shape::Diamond,
                latex_color: "TectRed",
            };
        }
        if node.is_artificial_graph_start || node.is_artificial_graph_end {
            return Style {
                fill: "#059669",
                border: "#047857",
                text: "#ffffff",
                shape: Shape::Rounded,
                latex_color: "TectGreen",
            };
        }
        Style {
            fill: "#2563eb",
            border: "#1d4ed8",
            text: "#ffffff",
            shape: Shape::Box,
            latex_color: "TectBlue",
        }
    }

    /// The color of a token of the given kind: HTML color and LaTeX color name.
    pub fn get_token_color(kind: &Kind) -> (r: (&'static str, &'static str))
        ensures
            (r.0@, r.1@) == token_color(*kind),
    {
        match kind {
            Kind::Constant(_) => ("#a855f7", "TectPurple"),
            Kind::Variable(_) => ("#64748b", "TectGray"),
            Kind::Error(_) => ("#ef4444", "TectRed"),
        }
    }
}

} // verus!
