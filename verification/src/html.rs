//! A DOT graph as a standalone page that renders it in the browser.

use vstd::prelude::*;

verus! {

/// A lowercase hexadecimal digit.
pub open spec fn hex_digit(n: int) -> char {
    if n < 10 {
        (n + 48) as char
    } else {
        (n + 87) as char
    }
}

/// How `serde_json` writes a character inside a JSON string: quotes and
/// backslashes escaped with a backslash, the control characters with a
/// short escape where JSON has one and as `\u00XX` otherwise, every other
/// character as it is.
pub open spec fn json_char(c: char) -> Seq<char> {
    if c == '"' {
        seq!['\\', '"']
    } else if c == '\\' {
        seq!['\\', '\\']
    } else if c == '\u{8}' {
        seq!['\\', 'b']
    } else if c == '\t' {
        seq!['\\', 't']
    } else if c == '\n' {
        seq!['\\', 'n']
    } else if c == '\u{c}' {
        seq!['\\', 'f']
    } else if c == '\r' {
        seq!['\\', 'r']
    } else if (c as u32) < 0x20 {
        seq!['\\', 'u', '0', '0', hex_digit((c as u32) as int / 16), hex_digit((c as u32) as int % 16)]
    } else {
        seq![c]
    }
}

pub open spec fn json_chars(s: Seq<char>) -> Seq<char>
    decreases s.len(),
{
    if s.len() == 0 {
        Seq::empty()
    } else {
        json_chars(s.drop_last()) + json_char(s.last())
    }
}

/// The JSON text of a string as `serde_json::to_string` writes it: the
/// escaped characters between quotes.
pub open spec fn json_string(s: Seq<char>) -> Seq<char> {
    seq!['"'] + json_chars(s) + seq!['"']
}

/// Writes a string as JSON with `serde_json::to_string`, which escapes it
/// as `json_string` states (its table `ESCAPE` and `write_char_escape`).
/// Serializing a string into memory does not fail (the writer is a
/// vector), so the error arm is never taken.
#[verifier::external_body]
fn json_of_str(s: &str) -> (r: String)
    ensures
        r@ == json_string(s@),
{
    match serde_json::to_string(s) {
        Ok(j) => j,
        Err(_) => String::new(),
    }
}

/// The page around the JSON text of a DOT graph: it loads Viz.js and D3,
/// renders the graph as SVG and lets it be zoomed and panned.
pub open spec fn dot_page_text(dot_json: Seq<char>) -> Seq<char> {
    "<!DOCTYPE html>\n<html lang=\"en\">\n<head>\n<meta charset=\"utf-8\"/>\n<title>Tect Architecture Graph</title>\n\n<style>\n    body {\n        margin: 0;\n        background: #0f1115;\n        color: #e6e6e6;\n        font-family: Inter, system-ui, sans-serif;\n        overflow: hidden;\n    }\n    #graph {\n        width: 100vw;\n        height: 100vh;\n    }\n    svg {\n        width: 100%;\n        height: 100%;\n    }\n</style>\n</head>\n\n<body>\n<div id=\"graph\"></div>\n\n<!-- D3 for zoom/pan -->\n<script src=\"https://unpkg.com/d3@7\"></script>\n\n<!-- Viz.js (ASM.js Graphviz, no WASM, no workers) -->\n<script src=\"https://unpkg.com/viz.js@2.1.2/viz.js\"></script>\n<script src=\"https://unpkg.com/viz.js@2.1.2/full.render.js\"></script>\n\n<script>\nconst dot = "@ + dot_json + ";\n\nconst viz = new Viz();\n\nviz.renderSVGElement(dot)\n  .then(svg => {\n    const container = document.getElementById(\"graph\");\n    container.appendChild(svg);\n\n    const zoom = d3.zoom()\n      .scaleExtent([0.1, 4])\n      .on(\"zoom\", (event) => {\n        d3.select(svg).select(\"g\").attr(\"transform\", event.transform);\n      });\n\n    d3.select(svg)\n      .call(zoom)\n      .call(zoom.transform, d3.zoomIdentity.scale(0.9));\n  })\n  .catch(err => {\n    console.error(\"Graphviz render failed:\", err);\n  });\n</script>\n\n</body>\n</html>\n"@
}

/// Builds the page from the JSON text of the graph.
pub fn dot_page(dot_json: &str) -> (page: String)
    ensures
        page@ == dot_page_text(dot_json@),
{
    let mut page = String::from_str("<!DOCTYPE html>\n<html lang=\"en\">\n<head>\n<meta charset=\"utf-8\"/>\n<title>Tect Architecture Graph</title>\n\n<style>\n    body {\n        margin: 0;\n        background: #0f1115;\n        color: #e6e6e6;\n        font-family: Inter, system-ui, sans-serif;\n        overflow: hidden;\n    }\n    #graph {\n        width: 100vw;\n        height: 100vh;\n    }\n    svg {\n        width: 100%;\n        height: 100%;\n    }\n</style>\n</head>\n\n<body>\n<div id=\"graph\"></div>\n\n<!-- D3 for zoom/pan -->\n<script src=\"https://unpkg.com/d3@7\"></script>\n\n<!-- Viz.js (ASM.js Graphviz, no WASM, no workers) -->\n<script src=\"https://unpkg.com/viz.js@2.1.2/viz.js\"></script>\n<script src=\"https://unpkg.com/viz.js@2.1.2/full.render.js\"></script>\n\n<script>\nconst dot = ");
    page.append(dot_json);
    page.append(";\n\nconst viz = new Viz();\n\nviz.renderSVGElement(dot)\n  .then(svg => {\n    const container = document.getElementById(\"graph\");\n    container.appendChild(svg);\n\n    const zoom = d3.zoom()\n      .scaleExtent([0.1, 4])\n      .on(\"zoom\", (event) => {\n        d3.select(svg).select(\"g\").attr(\"transform\", event.transform);\n      });\n\n    d3.select(svg)\n      .call(zoom)\n      .call(zoom.transform, d3.zoomIdentity.scale(0.9));\n  })\n  .catch(err => {\n    console.error(\"Graphviz render failed:\", err);\n  });\n</script>\n\n</body>\n</html>\n");
    page
}

/// Wraps a DOT graph into a self-contained interactive page.
pub fn wrap_dot(dot: &str) -> (page: String)
    ensures
        page@ == dot_page_text(json_string(dot@)),
{
    let dot_json = json_of_str(dot);
    dot_page(dot_json.as_str())
}

} // verus!
