use std::sync::Arc;

use tect::formatter::format_tect_source;
use tect::models::{hash_name, Cardinality, Constant, Edge, EdgeRelation, Error, Function, Graph, Group, Kind, Node, Span, Token};
use tect::parser::{Item, Rule, TectParser};
use tect::pipeline::{self, FlowProcessor, TokenPool};
use tect::source_manager::{Position, Range, SourceManager};
use tect::text::{decimal_string, join_strings};
use tect::vis_js::{generate_interactive_html, produce_vis_data};

#[test]
fn formatter_normalizes_layout() {
    let src = "constant   A\n\n\n# Runs.\nCore   function  Run  A,[B]\n  >   C\n |D\nRun   \n";
    let expected = "constant   A\n\n# Runs.\nCore function Run A, [B]\n    > C\n    | D\nRun\n";
    assert_eq!(format_tect_source(src).unwrap(), expected);
}

#[test]
fn formatter_is_stable_on_formatted_text() {
    let src = "constant A\n\n# Runs.\nCore function Run A, [B]\n    > C\n    | D\nRun\n";
    assert_eq!(format_tect_source(src).unwrap(), src);
}

#[test]
fn formatter_refuses_syntax_errors() {
    assert_eq!(format_tect_source("constant A\n???\n"), None);
    assert_eq!(format_tect_source(""), Some(String::new()));
    assert_eq!(format_tect_source("\n\n"), Some(String::new()));
}

#[test]
fn parser_reports_position_of_syntax_error() {
    match TectParser::parse(Rule::program, "constant A\n???\n") {
        Err(e) => assert_eq!(e.position, 11),
        Ok(_) => panic!("expected a syntax error"),
    }
    let items = TectParser::parse(Rule::program, "import \"lib.tect\"\nconstant A\nRun\n").unwrap();
    assert_eq!(items.len(), 3);
    assert!(matches!(items[0], Item::Import { .. }));
    assert!(matches!(items[2], Item::FlowStep { .. }));
}

#[test]
fn source_manager_assigns_ids_and_ranges() {
    let mut sm = SourceManager::new();
    let a = sm.get_id("file:///a.tect");
    let b = sm.get_id("file:///b.tect");
    assert_eq!((a, b), (1, 2));
    assert_eq!(sm.get_id("file:///a.tect"), 1);
    assert_eq!(sm.get_uri(2), Some("file:///b.tect"));
    assert_eq!(sm.get_uri(3), None);
    assert_eq!(sm.get_content(1), None);
    assert!(!sm.load_file(1, None));
    assert!(sm.load_file(1, Some("ab\nc😀d\n".to_string())));
    assert!(sm.load_file(1, None));
    assert_eq!(sm.get_content(1), Some("ab\nc😀d\n"));
    let r = sm.resolve_range(Span::new(1, 1, 9));
    assert_eq!(r, Range { start: Position { line: 0, character: 1 }, end: Position { line: 1, character: 4 } });
    let clamped = sm.resolve_range(Span::new(1, 4, 100));
    assert_eq!(clamped.end, Position { line: 2, character: 0 });
    let unknown = sm.resolve_range(Span::new(9, 3, 4));
    assert_eq!(unknown, Range { start: Position { line: 0, character: 0 }, end: Position { line: 0, character: 0 } });
    let past = sm.range_of_span(Span::new(1, 50, 60));
    assert_eq!(past.start, Position { line: 2, character: 0 });
    sm.update_content(2, "x".to_string());
    assert_eq!(sm.get_content(2), Some("x"));
}

#[test]
fn vis_data_of_graph() {
    let start = Node::new_artificial("Start".to_string(), true, false, false);
    let grp = Arc::new(Group::new("Core".to_string(), None));
    let work = Node::new(Arc::new(Function::new("Work".to_string(), None, vec![], vec![], Some(grp))));
    let fail = Node::new_artificial("Fail".to_string(), false, true, true);
    let cfg = Kind::Constant(Arc::new(Constant::new("Cfg".to_string(), None)));
    let bad = Kind::Error(Arc::new(Error::new("Bad".to_string(), None)));
    let e1 = Edge { from_node_uid: start.uid, to_node_uid: work.uid, token: Token::new(cfg, Cardinality::Collection, 1), relation: EdgeRelation::DataFlow };
    let e2 = Edge { from_node_uid: work.uid, to_node_uid: fail.uid, token: Token::new(bad, Cardinality::Unitary, 2), relation: EdgeRelation::ErrorFlow };
    let g = Graph { nodes: vec![start, work, fail], edges: vec![e1, e2] };
    let d = produce_vis_data(&g);
    assert_eq!(d.nodes.len(), 3);
    assert_eq!(d.nodes[0].id, hash_name("Start"));
    assert_eq!(d.nodes[0].label, " Start ");
    assert_eq!(d.nodes[0].color.background, "#059669");
    assert_eq!(d.nodes[0].border_width, 1);
    assert_eq!(d.nodes[1].cluster_group.as_deref(), Some("Core"));
    assert_eq!(d.nodes[1].color.border, "#fbbf24");
    assert_eq!(d.nodes[1].border_width, 2);
    assert_eq!(d.nodes[2].color.background, "#dc2626");
    assert_eq!(d.edges[0].label, "[Cfg]");
    assert_eq!(d.edges[0].width_tenths, 50);
    assert!(d.edges[0].dashes);
    assert_eq!(d.edges[0].color, "#818cf8");
    assert_eq!(d.edges[1].label, "Bad");
    assert_eq!(d.edges[1].color, "#f87171");
    assert_eq!(d.edges[1].width_tenths, 15);
    assert!(!d.edges[1].dashes);
    assert_eq!(d.groups, vec!["Core".to_string()]);
}

#[test]
fn interactive_page_embeds_data() {
    let page = generate_interactive_html("[1]", "[2]", "[\"G\"]");
    assert!(page.starts_with("<!DOCTYPE html>\n"));
    assert!(page.contains("    const nodes = new vis.DataSet([1]);\n    const edges = new vis.DataSet([2]);\n    const groups = [\"G\"];\n"));
    assert!(page.ends_with("</body>\n</html>"));
}

#[test]
fn test_new_main() {
    let mut engine = FlowProcessor::new();
    let cmd = pipeline::Token::new("InitialCommand", true, false);
    let settings = pipeline::Token::new("Settings", false, false);
    let source_file = pipeline::Token::new("SourceFile", false, false);
    let fs_error = pipeline::Token::new("FileSystemError", true, false);
    let pipeline = vec![
        engine.create_node(
            "ProcessCLI",
            vec![(cmd, pipeline::Cardinality::One)],
            vec![(settings.clone(), pipeline::Cardinality::One)],
            false,
            false,
            false,
        ),
        engine.create_node(
            "ScanFS",
            vec![(settings, pipeline::Cardinality::One)],
            vec![(source_file, pipeline::Cardinality::Many), (fs_error, pipeline::Cardinality::Many)],
            false,
            false,
            false,
        ),
    ];
    let (nodes, edges) = engine.process_flow(pipeline);
    let names: Vec<(&str, u32)> = nodes.iter().map(|n| (n.name.as_str(), n.uid)).collect();
    assert_eq!(names, vec![("Start", 3), ("ProcessCLI", 1), ("ScanFS", 2), ("FileSystemError", 5), ("End", 4)]);
    assert!(nodes[3].is_error && nodes[3].is_end);
    assert!(nodes[0].is_start);
    let flows: Vec<(&str, Option<u32>, Option<u32>)> =
        edges.iter().map(|e| (e.name.as_str(), e.origin_uid, e.destination_uid)).collect();
    assert_eq!(
        flows,
        vec![
            ("InitialCommand", Some(3), Some(1)),
            ("Settings", Some(1), Some(2)),
            ("Settings", Some(1), Some(4)),
            ("SourceFile", Some(2), Some(4)),
            ("FileSystemError", Some(2), Some(5)),
        ]
    );
    assert!(edges[3].is_collection);
}

#[test]
fn pipeline_pool_fans_out_collections() {
    let mut pool = TokenPool::new();
    pool.add(pipeline::Token::new("Files", true, false), 7, true);
    let (edges, expanded) = pool.consume_requirement(&pipeline::Token::new("Files", false, false), 9);
    assert!(expanded);
    assert_eq!(edges.len(), 1);
    assert_eq!(edges[0].origin_uid, Some(7));
    assert_eq!(edges[0].destination_uid, Some(9));
    let (none, expanded2) = pool.consume_requirement(&pipeline::Token::new("Files", false, false), 9);
    assert!(none.is_empty());
    assert!(!expanded2);
}

#[test]
fn text_helpers() {
    assert_eq!(join_strings(&vec!["a".to_string(), "b".to_string(), "c".to_string()], ", "), "a, b, c");
    assert_eq!(join_strings(&vec![], ", "), "");
    assert_eq!(decimal_string(0), "0");
    assert_eq!(decimal_string(4294967295), "4294967295");
}
