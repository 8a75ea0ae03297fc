use tect::analyzer::{DiskSnapshot, Workspace};
use tect::models::Kind;
use tect::parser::{Rule, TectParser};

/// Tests the formal parsing of basic data definitions.
#[test]
fn tests_test_parse_data_definition() {
    let input = "constant Settings";
    let pair = TectParser::parse(Rule::program, input);
    assert!(pair.is_ok());
}

/// Tests function signature parsing without parentheses.
#[test]
fn tests_test_parse_function_no_parens() {
    let input = "function Login Credentials\n > Session";
    let pair = TectParser::parse(Rule::program, input);
    assert!(pair.is_ok());
}

/// Verifies documentation comments are correctly associated with defined entities.
#[test]
fn tests_test_doc_comment_association() {
    let input = "# Doc 1\n# Doc 2\nconstant Credentials";
    let mut a = Workspace::new();
    a.analyze("test.tect".to_string(), Some(input.to_string()), &DiskSnapshot::new());
    let s = a.structure.artifacts.get("Credentials").unwrap();

    let docs = match s {
        Kind::Constant(c) => c.documentation.as_ref().unwrap(),
        _ => panic!("Expected constant"),
    };
    assert!(docs.contains("Doc 1") && docs.contains("Doc 2"));
}

/// Validates multi-line comment separation logic.
#[test]
fn tests_test_strict_newline_doc_separation() {
    let input = "# Header\n\n# Doc\nconstant C";
    let mut a = Workspace::new();
    a.analyze("test.tect".to_string(), Some(input.to_string()), &DiskSnapshot::new());
    let s = a.structure.artifacts.get("C").unwrap();

    let docs = match s {
        Kind::Constant(c) => c.documentation.as_ref().unwrap(),
        _ => panic!("Expected constant"),
    };
    assert!(!docs.contains("Header") && docs.contains("Doc"));
}
