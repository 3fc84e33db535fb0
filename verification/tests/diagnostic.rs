use rue::diagnostic::{join_names, Diagnostic, DiagnosticKind, ErrorKind, WarningKind};

#[test]
fn errors_and_warnings_are_told_apart() {
    let error = Diagnostic::new(DiagnosticKind::Error(ErrorKind::MissingMain), 0..4);
    assert!(error.is_error());
    assert!(!error.is_warning());
    assert_eq!(error.span(), &(0..4));
    assert_eq!(error.kind(), &DiagnosticKind::Error(ErrorKind::MissingMain));

    let warning = Diagnostic::new(
        DiagnosticKind::Warning(WarningKind::UnusedLet("x".to_string())),
        7..9,
    );
    assert!(warning.is_warning());
    assert!(!warning.is_error());
    assert_eq!(warning.span(), &(7..9));
}

#[test]
fn cloned_diagnostics_keep_kind_and_span() {
    let error = Diagnostic::new(
        DiagnosticKind::Error(ErrorKind::ArgumentMismatch { expected: 2, found: 3 }),
        3..10,
    );
    let copy = error.clone();
    assert_eq!(copy.kind(), error.kind());
    assert_eq!(copy.span(), error.span());
}

#[test]
fn join_names_quotes_and_separates() {
    assert_eq!(join_names(&[]), "");
    assert_eq!(join_names(&["a".to_string()]), "`a`");
    assert_eq!(
        join_names(&["x".to_string(), "y".to_string(), "zed".to_string()]),
        "`x`, `y`, `zed`"
    );
}
