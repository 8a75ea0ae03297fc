use tect::assignments::{Analyzer, Finding, Statement};

fn s(x: &str) -> String {
    x.to_string()
}

fn login_program() -> Vec<Statement> {
    vec![
        Statement::Data { name: s("Credentials") },
        Statement::Data { name: s("Token") },
        Statement::Error { name: s("AuthFail") },
        Statement::Function { name: s("Login"), input: s("Credentials"), outputs: vec![s("Token"), s("AuthFail")] },
        Statement::Instantiation { var_name: s("creds_john"), var_type: s("Credentials") },
        Statement::Assignment { target: s("res"), function: s("Login"), argument: s("creds_john") },
    ]
}

#[test]
fn login_assignment_reports_unhandled_error() {
    let mut a = Analyzer::new();
    let findings = a.analyze(login_program());
    assert_eq!(findings.len(), 5);
    assert!(matches!(&findings[0], Finding::DefinedData { name } if name == "Credentials"));
    assert!(matches!(&findings[2], Finding::DefinedError { name } if name == "AuthFail"));
    assert!(matches!(&findings[3], Finding::DefinedFunction { name } if name == "Login"));
    match &findings[4] {
        Finding::UnhandledErrors { target, errors } => {
            assert_eq!(target, "res");
            assert_eq!(errors, &vec![s("AuthFail")]);
        },
        other => panic!("unexpected finding {:?}", other),
    }
    assert_eq!(a.generate_mermaid(), "graph TD\n  Login([Login]) --> Token\n  Login([Login]) --> AuthFail:::error\n");
}

#[test]
fn mismatched_argument_and_safe_assignment() {
    let mut a = Analyzer::new();
    a.define_data(s("A"));
    a.define_data(s("B"));
    a.define_function(s("F"), s("A"), vec![s("B")]);
    a.instantiate(s("b"), s("B"));
    let r = a.check_assignment("x", "F", "b");
    assert_eq!(r.len(), 2);
    match &r[0] {
        Finding::TypeMismatch { function, expected, argument, actual } => {
            assert_eq!((function.as_str(), expected.as_str(), argument.as_str(), actual.as_str()), ("F", "A", "b", "B"));
        },
        other => panic!("unexpected finding {:?}", other),
    }
    assert!(matches!(&r[1], Finding::Safe { target } if target == "x"));
}

#[test]
fn redefinitions_replace_in_place() {
    let mut a = Analyzer::new();
    a.define_data(s("A"));
    a.define_data(s("A"));
    assert_eq!(a.data_types.len(), 1);
    a.define_function(s("F"), s("A"), vec![s("X")]);
    a.define_function(s("G"), s("A"), vec![s("Y")]);
    a.define_function(s("F"), s("A"), vec![s("Z")]);
    assert_eq!(a.generate_mermaid(), "graph TD\n  F([F]) --> Z\n  G([G]) --> Y\n");
    assert_eq!(Analyzer::new().generate_mermaid(), "graph TD\n");
}
