use tect::analyzer::{DiskSnapshot, Workspace};
use tect::engine::Flow;
use tect::models::{hash_name, Cardinality, EdgeRelation, Kind, Severity};
use tect::report::{check_report, diagnostic_location, run_flow_checks};

const PROGRAM: &str = "constant Settings\nvariable Command\nerror Failure\n\ngroup Core\n\n# Reads the command.\nCore function Start Command\n    > Settings\n    | Failure\n\nfunction Finish Settings\n\nStart\nFinish\n";

fn analyzed(content: &str) -> Workspace {
    let mut ws = Workspace::new();
    let missing = ws.analyze("file:///work/main.tect".to_string(), Some(content.to_string()), &DiskSnapshot::new());
    assert!(missing.is_empty());
    ws
}

#[test]
fn analysis_registers_definitions_and_flow() {
    let ws = analyzed(PROGRAM);
    let s = &ws.structure;
    assert!(s.diagnostics.is_empty());
    assert!(matches!(s.artifacts.get("Settings"), Some(Kind::Constant(_))));
    assert!(matches!(s.artifacts.get("Command"), Some(Kind::Variable(_))));
    assert!(matches!(s.artifacts.get("Failure"), Some(Kind::Error(_))));
    let start = s.catalog.get("Start").unwrap();
    assert_eq!(start.uid, hash_name("Start"));
    assert_eq!(start.documentation.as_deref(), Some("Reads the command."));
    assert_eq!(start.group.as_ref().unwrap().name, "Core");
    assert_eq!(start.consumes.len(), 1);
    assert_eq!(start.consumes[0].uid, hash_name("Start:in:0:Command"));
    assert_eq!(start.produces.len(), 2);
    assert_eq!(start.produces[0][0].uid, hash_name("Start:out_0:0:Settings"));
    assert_eq!(start.produces[1][0].uid, hash_name("Start:out_1:0:Failure"));
    assert_eq!(s.flow.len(), 2);
    assert_eq!(s.flow[0].function_name, "Start");
    let settings = s.symbol_table.get(&hash_name("Settings")).unwrap();
    assert_eq!(settings.occurrences.len(), 3);
}

#[test]
fn hash_name_is_fnv1a() {
    assert_eq!(hash_name(""), 0x811c9dc5);
    assert_eq!(hash_name("a"), 0xe40c292c);
    assert_eq!(hash_name("foobar"), 0xbf9cf968);
}

#[test]
fn definitions_resolve_regardless_of_order() {
    let ws = analyzed("Run\nfunction Run Input\nvariable Input\n");
    assert!(ws.structure.diagnostics.iter().all(|d| d.severity != Severity::Error));
    assert_eq!(ws.structure.catalog.get("Run").unwrap().consumes.len(), 1);
}

#[test]
fn duplicate_definition_is_an_error() {
    let ws = analyzed("constant A\nvariable A\nA2\n");
    let msgs: Vec<&str> = ws.structure.diagnostics.iter().map(|d| d.message.as_str()).collect();
    assert!(msgs.contains(&"Symbol 'A' is already defined."));
    assert!(matches!(ws.structure.artifacts.get("A"), Some(Kind::Constant(_))));
    assert!(msgs.contains(&"Undefined function: 'A2'"));
}

#[test]
fn undefined_artifact_and_group_are_errors() {
    let ws = analyzed("Missing function Use Ghost\n");
    let msgs: Vec<&str> = ws.structure.diagnostics.iter().map(|d| d.message.as_str()).collect();
    assert!(msgs.contains(&"Undefined group: 'Missing'"));
    assert!(msgs.contains(&"Undefined artifact: 'Ghost'. All types must be defined before use."));
}

#[test]
fn unused_symbols_are_warned() {
    let ws = analyzed("constant Lonely\n");
    assert_eq!(ws.structure.diagnostics.len(), 1);
    let d = &ws.structure.diagnostics[0];
    assert_eq!(d.message, "Unused symbol: 'Lonely'");
    assert_eq!(d.severity, Severity::Warning);
    assert_eq!(d.span.unwrap().start, 9);
    assert_eq!(d.span.unwrap().end, 15);
}

#[test]
fn syntax_error_is_reported_where_parsing_stops() {
    let ws = analyzed("constant A\n> B\n");
    let d = ws.structure.diagnostics.iter().find(|d| d.message.starts_with("Syntax Error")).unwrap();
    assert_eq!(d.span.unwrap().start, 11);
}

#[test]
fn imports_are_read_from_the_snapshot() {
    let mut ws = Workspace::new();
    let root = "file:///work/main.tect".to_string();
    let content = "import \"./lib.tect\"\nfunction Use Shared\nUse\n".to_string();
    let mut disk = DiskSnapshot::new();
    let missing = ws.analyze(root.clone(), Some(content.clone()), &disk);
    assert_eq!(missing, vec!["file:///work/lib.tect".to_string()]);
    disk.add("file:///work/lib.tect".to_string(), true, Some("constant Shared\n".to_string()));
    let missing = ws.analyze(root, Some(content), &disk);
    assert!(missing.is_empty());
    assert!(ws.structure.diagnostics.iter().all(|d| d.severity != Severity::Error));
    assert!(ws.structure.artifacts.get("Shared").is_some());
}

#[test]
fn missing_import_is_reported() {
    let mut ws = Workspace::new();
    let mut disk = DiskSnapshot::new();
    disk.add("file:///work/none.tect".to_string(), false, None);
    ws.analyze("file:///work/main.tect".to_string(), Some("import \"none.tect\"\n".to_string()), &disk);
    assert_eq!(ws.structure.diagnostics[0].message, "Import not found: 'none.tect'");
}

#[test]
fn circular_imports_stop_the_analysis() {
    let mut ws = Workspace::new();
    let mut disk = DiskSnapshot::new();
    disk.add("file:///work/b.tect".to_string(), true, Some("import \"a.tect\"\nconstant B\n".to_string()));
    disk.add("file:///work/a.tect".to_string(), true, Some("import \"b.tect\"\nconstant A\n".to_string()));
    let missing = ws.analyze("file:///work/a.tect".to_string(), None, &disk);
    assert!(missing.is_empty());
    assert_eq!(ws.structure.diagnostics.len(), 1);
    assert_eq!(
        ws.structure.diagnostics[0].message,
        "Circular dependency detected: file:///work/a.tect -> file:///work/b.tect -> file:///work/a.tect"
    );
    assert!(ws.structure.artifacts.get("A").is_none());
}

#[test]
fn unreadable_root_is_reported() {
    let mut ws = Workspace::new();
    let mut disk = DiskSnapshot::new();
    disk.add("file:///work/gone.tect".to_string(), false, None);
    ws.analyze("file:///work/gone.tect".to_string(), None, &disk);
    let msg = &ws.structure.diagnostics[0].message;
    assert!(msg.starts_with("Failed to read file: Some(Url {"));
    assert!(msg.contains("/work/gone.tect"));
}

#[test]
fn simulation_routes_tokens_and_warns_about_unhandled_errors() {
    let ws = analyzed(PROGRAM);
    let mut flow = Flow::new(true);
    let graph = flow.simulate(&ws.structure);
    let names: Vec<&str> = graph.nodes.iter().map(|n| n.function.name.as_str()).collect();
    assert_eq!(names, vec!["InitialNode", "Start", "Finish", "FatalErrors"]);
    assert_eq!(graph.edges.len(), 3);
    assert_eq!(graph.edges[0].from_node_uid, hash_name("InitialNode"));
    assert_eq!(graph.edges[0].to_node_uid, hash_name("Start"));
    assert_eq!(graph.edges[0].relation, EdgeRelation::DataFlow);
    assert_eq!(graph.edges[1].to_node_uid, hash_name("Finish"));
    assert_eq!(graph.edges[2].to_node_uid, hash_name("FatalErrors"));
    assert_eq!(graph.edges[2].relation, EdgeRelation::ErrorFlow);
    assert_eq!(graph.edges[2].token.cardinality, Cardinality::Unitary);
    assert_eq!(flow.diagnostics.len(), 1);
    assert_eq!(
        flow.diagnostics[0].message,
        "Unhandled Error: 'Failure' is produced by 'Start' but never consumed (rescued)."
    );
}

#[test]
fn starvation_is_a_flow_error() {
    let ws = analyzed("variable A\nvariable B\nfunction First A\nfunction Second B\nFirst\nSecond\n");
    let mut flow = Flow::new(true);
    flow.simulate(&ws.structure);
    assert_eq!(flow.diagnostics.len(), 1);
    assert_eq!(flow.diagnostics[0].message, "Flow Error: Function 'Second' could not execute. Missing inputs: [B]");
    assert_eq!(flow.diagnostics[0].severity, Severity::Error);
}

#[test]
fn check_report_counts_and_locates() {
    let mut ws = analyzed(PROGRAM);
    let graph = run_flow_checks(&mut ws);
    assert!(graph.is_some());
    let report = check_report(&ws);
    assert_eq!(report.errors, 0);
    assert_eq!(report.warnings, 1);
    assert_eq!(report.lines[0].location, "main.tect:8:15");
    let mut bad = analyzed("Nothing\n");
    assert!(run_flow_checks(&mut bad).is_none());
    let report = check_report(&bad);
    assert_eq!(report.errors, 1);
}

#[test]
fn diagnostic_locations_are_one_based() {
    let ws = analyzed("constant Lonely\n");
    let d = &ws.structure.diagnostics[0];
    assert_eq!(diagnostic_location(&ws.source_manager, d, Some("main.tect".to_string())), "main.tect:1:10");
    assert_eq!(diagnostic_location(&ws.source_manager, d, None), "unknown:1:10");
    let global = tect::models::DiagnosticWithContext {
        file_id: 1,
        span: None,
        message: "m".to_string(),
        severity: Severity::Hint,
        tags: vec![],
    };
    assert_eq!(diagnostic_location(&ws.source_manager, &global, Some("x".to_string())), "global");
    let elsewhere = tect::models::DiagnosticWithContext {
        file_id: 7,
        span: Some(tect::models::Span::new(7, 0, 1)),
        message: "m".to_string(),
        severity: Severity::Hint,
        tags: vec![],
    };
    assert_eq!(diagnostic_location(&ws.source_manager, &elsewhere, Some("x".to_string())), "unknown:1:1");
}

#[test]
fn branches_run_in_separate_pools() {
    let ws = analyzed("variable In\nvariable A\nerror E\nfunction F In\n    > A\n    | E\nfunction G A\nF\nG\n");
    let mut flow = Flow::new(true);
    let graph = flow.simulate(&ws.structure);
    assert!(flow.diagnostics.iter().all(|d| d.severity != Severity::Error));
    let f = hash_name("F");
    let g = hash_name("G");
    assert!(graph.edges.iter().any(|e| e.from_node_uid == f && e.to_node_uid == g && e.token.kind.name() == "A"));
    assert!(graph
        .edges
        .iter()
        .any(|e| e.from_node_uid == f && e.to_node_uid == hash_name("FatalErrors") && e.token.kind.name() == "E"));
}

#[test]
fn shared_imports_are_not_cycles() {
    let mut ws = Workspace::new();
    let mut disk = DiskSnapshot::new();
    disk.add("file:///work/b.tect".to_string(), true, Some("import \"d.tect\"\nconstant B\n".to_string()));
    disk.add("file:///work/c.tect".to_string(), true, Some("import \"d.tect\"\nconstant C\n".to_string()));
    disk.add("file:///work/d.tect".to_string(), true, Some("constant D\n".to_string()));
    let root = "import \"b.tect\"\nimport \"c.tect\"\nfunction Use B, C, D\nUse\n".to_string();
    let missing = ws.analyze("file:///work/a.tect".to_string(), Some(root), &disk);
    assert!(missing.is_empty());
    assert!(ws.structure.diagnostics.iter().all(|d| !d.message.starts_with("Circular dependency")));
    assert!(ws.structure.artifacts.get("D").is_some());
}

#[test]
fn spans_count_bytes() {
    let ws = analyzed("# é\nconstant A\n");
    let d = &ws.structure.diagnostics[0];
    assert_eq!(d.message, "Unused symbol: 'A'");
    assert_eq!(d.span.unwrap().start, 14);
    assert_eq!(d.span.unwrap().end, 15);
    assert_eq!(diagnostic_location(&ws.source_manager, d, Some("m.tect".to_string())), "m.tect:2:10");
}

#[test]
fn dedup_run_matches_plain_run() {
    let ws = analyzed("constant C\nvariable V\nfunction A C\n    > V\n    | V\nfunction B V, C\nA\nB\n");
    let g1 = Flow::new(true).simulate(&ws.structure);
    let g0 = Flow::new(false).simulate(&ws.structure);
    assert!(g1.nodes == g0.nodes);
    let mut kept: Vec<(u32, u32, u32)> = Vec::new();
    for e in &g0.edges {
        let key = (e.from_node_uid, e.to_node_uid, e.token.uid);
        if !kept.contains(&key) {
            kept.push(key);
        }
    }
    let got: Vec<(u32, u32, u32)> = g1.edges.iter().map(|e| (e.from_node_uid, e.to_node_uid, e.token.uid)).collect();
    assert_eq!(got, kept);
    let again = Flow::new(true).simulate(&ws.structure);
    assert!(again.nodes == g1.nodes);
}
