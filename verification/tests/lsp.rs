use tect::analyzer::{DiskSnapshot, Workspace};
use tect::lsp::{
    check_import_at, collect_diagnostics, completion_items, document_symbols, format_signature, format_token,
    get_word_at, goto_definition, has_errors, hover, hover_markdown, inlay_hints, keyword_doc,
    new_diagnostic_table, open_documents_order, references, signature_help, CompletionKind, SymbolKind,
};
use tect::models::{DiagnosticTag, Severity};
use tect::source_manager::{Position, Range};

const URI: &str = "file:///work/main.tect";
const PROGRAM: &str = "constant Settings\nvariable Command\n\ngroup Core\n\n# Reads the command.\nCore function Start Command\n    > Settings\n\nStart\n";

fn analyzed(content: &str) -> Workspace {
    let mut ws = Workspace::new();
    let missing = ws.analyze(URI.to_string(), Some(content.to_string()), &DiskSnapshot::new());
    assert!(missing.is_empty());
    ws
}

fn pos(line: u32, character: u32) -> Position {
    Position { line, character }
}

fn range(l0: u32, c0: u32, l1: u32, c1: u32) -> Range {
    Range { start: pos(l0, c0), end: pos(l1, c1) }
}

#[test]
fn hover_texts() {
    let ws = analyzed(PROGRAM);
    let s = &ws.structure;
    assert_eq!(
        hover_markdown(s, "constant").unwrap(),
        "### Keyword: `constant`\n\n---\n\nDefines an immutable global architectural artifact."
    );
    assert_eq!(hover_markdown(s, "Settings").unwrap(), "### Constant: `Settings`\n\n---\n\n*No documentation.*");
    assert_eq!(hover_markdown(s, "Command").unwrap(), "### Variable: `Command`\n\n---\n\n*No documentation.*");
    assert_eq!(
        hover_markdown(s, "Start").unwrap(),
        "### Function: `Start`\n\n**Group**: `Core`\n\n**Signature**: `Command -> Settings`\n\n---\n\nReads the command."
    );
    assert_eq!(hover_markdown(s, "Core").unwrap(), "### Group: `Core`\n\n---\n\n*Architectural group.*");
    assert!(hover_markdown(s, "Nothing").is_none());
    assert_eq!(keyword_doc("import"), Some("Imports definitions from another Tect file."));
    assert_eq!(keyword_doc("Import"), None);
}

#[test]
fn hover_at_position() {
    let ws = analyzed(PROGRAM);
    let (text, r) = hover(&ws.structure, PROGRAM, pos(7, 8)).unwrap();
    assert_eq!(text, "### Constant: `Settings`\n\n---\n\n*No documentation.*");
    assert_eq!(r, range(7, 6, 7, 14));
    assert!(hover(&ws.structure, PROGRAM, pos(2, 0)).is_none());
}

#[test]
fn words_under_positions() {
    assert_eq!(get_word_at(PROGRAM, pos(6, 7)), Some(("function".to_string(), range(6, 5, 6, 13))));
    assert_eq!(get_word_at(PROGRAM, pos(6, 4)), Some(("Core".to_string(), range(6, 0, 6, 4))));
    assert_eq!(get_word_at(PROGRAM, pos(7, 2)), None);
    assert_eq!(get_word_at(PROGRAM, pos(40, 0)), None);
    assert_eq!(get_word_at("é ab\r\n", pos(0, 3)), Some(("ab".to_string(), range(0, 2, 0, 4))));
}

#[test]
fn imports_under_positions() {
    let text = "import \"lib.tect\"\nconstant A\n";
    assert_eq!(check_import_at(text, pos(0, 10), URI), Some("file:///work/lib.tect".to_string()));
    assert_eq!(check_import_at(text, pos(0, 7), URI), None);
    assert_eq!(check_import_at(text, pos(1, 3), URI), None);
}

#[test]
fn definitions_and_references() {
    let ws = analyzed(PROGRAM);
    let sm = &ws.source_manager;
    assert_eq!(
        goto_definition(&ws.structure, sm, PROGRAM, pos(7, 8), URI),
        Some((URI.to_string(), range(0, 9, 0, 17)))
    );
    let refs = references(&ws.structure, sm, PROGRAM, pos(6, 22)).unwrap();
    assert_eq!(refs.len(), 2);
    assert!(refs.contains(&(URI.to_string(), range(1, 9, 1, 16))));
    assert!(refs.contains(&(URI.to_string(), range(6, 20, 6, 27))));
    assert!(references(&ws.structure, sm, PROGRAM, pos(6, 7)).is_none());
    let import_text = "import \"other.tect\"\n";
    assert_eq!(
        goto_definition(&ws.structure, sm, import_text, pos(0, 9), URI),
        Some(("file:///work/other.tect".to_string(), range(0, 0, 0, 0)))
    );
}

#[test]
fn outline_hints_and_completions() {
    let ws = analyzed(PROGRAM);
    let syms = document_symbols(&ws.structure, &ws.source_manager, 1);
    let names: Vec<(&str, SymbolKind)> = syms.iter().map(|d| (d.name.as_str(), d.kind)).collect();
    assert_eq!(
        names,
        vec![
            ("Settings", SymbolKind::Struct),
            ("Command", SymbolKind::Struct),
            ("Start", SymbolKind::Function),
            ("Core", SymbolKind::Namespace),
        ]
    );
    assert_eq!(syms[0].range, range(0, 9, 0, 17));
    assert!(document_symbols(&ws.structure, &ws.source_manager, 2).is_empty());

    let hints = inlay_hints(&ws.structure, &ws.source_manager, 1);
    assert_eq!(hints.len(), 1);
    assert_eq!(hints[0].position, pos(9, 5));
    assert_eq!(hints[0].label, "Core Command -> Settings");

    let items = completion_items(&ws.structure);
    assert_eq!(items.len(), 3);
    assert_eq!(items[0].label, "Settings");
    assert_eq!(items[0].detail, "Artifact");
    assert_eq!(items[2].label, "Start");
    assert_eq!(items[2].detail, "Function");
    assert_eq!(items[2].documentation.as_deref(), Some("Reads the command."));
    assert_eq!(items[2].kind, CompletionKind::Function);

    assert_eq!(
        signature_help(&ws.structure, "Start"),
        Some(("Start: Command -> Settings".to_string(), Some("Reads the command.".to_string())))
    );
    assert_eq!(signature_help(&ws.structure, "Settings"), None);
}

#[test]
fn signatures_and_tokens() {
    let ws = analyzed("variable In\nerror Bad\nconstant Out\nfunction Work [In]\n    > Out, [Out]\n    | Bad\nfunction Idle\nWork\nIdle\n");
    let work = ws.structure.catalog.get("Work").unwrap();
    assert_eq!(format_token(&work.consumes[0]), "[In]");
    assert_eq!(format_signature(work), "[In] -> Out, [Out] | Bad");
    let idle = ws.structure.catalog.get("Idle").unwrap();
    assert_eq!(format_signature(idle), "() -> ()");
}

#[test]
fn diagnostics_are_published_per_file() {
    let ws = analyzed("constant Lonely\n");
    assert!(!has_errors(&ws.structure));
    let mut table = new_diagnostic_table(&vec![URI.to_string(), "file:///work/other.tect".to_string()]);
    collect_diagnostics(&ws, &mut table);
    collect_diagnostics(&ws, &mut table);
    assert_eq!(table.len(), 2);
    assert_eq!(table[0].0, URI);
    assert_eq!(table[0].1.len(), 1);
    let d = &table[0].1[0];
    assert_eq!(d.message, "Unused symbol: 'Lonely'");
    assert_eq!(d.severity, Severity::Warning);
    assert_eq!(d.source, "tect");
    assert_eq!(d.range, range(0, 9, 0, 15));
    assert_eq!(d.tags, Some(vec![DiagnosticTag::Unnecessary]));
    assert!(table[1].1.is_empty());

    let bad = analyzed("Nowhere\n");
    assert!(has_errors(&bad.structure));
}

#[test]
fn changed_document_is_analyzed_last() {
    let docs = vec!["a".to_string(), "b".to_string(), "c".to_string()];
    assert_eq!(open_documents_order(&docs, "b"), vec!["a", "c", "b"]);
    assert_eq!(open_documents_order(&docs, "z"), vec!["a", "b", "c", "z"]);
}

#[test]
fn graphs_are_announced_when_their_hash_changes() {
    assert!(tect::lsp::graph_changed(None, 5));
    assert!(!tect::lsp::graph_changed(None, 0));
    assert!(!tect::lsp::graph_changed(Some(7), 7));
    assert!(tect::lsp::graph_changed(Some(7), 8));
}
