use llamac::scan::{check_include_arg, to_directive, Directive, Line, ScanAction, ScanErr, ScanState};

#[test]
fn directives() {
    assert!(matches!(to_directive("let x = 1"), Ok(None)));
    assert!(matches!(to_directive("   "), Ok(None)));
    match to_directive("  #include \"lib.lla\"  \n") {
        Ok(Some(Directive::Include(p))) => assert_eq!(p, "lib.lla"),
        _ => panic!("an include"),
    }
    match to_directive("#define X") {
        Err(ScanErr::UnknownDirective(w)) => assert_eq!(w, "#define"),
        _ => panic!("unknown directive"),
    }
    assert!(matches!(to_directive("#include"), Err(ScanErr::IncludeEmpty)));
    assert!(matches!(to_directive("#include \"a\" \"b\""), Err(ScanErr::IncludeTrailingArgs)));
    assert!(check_include_arg("#include \"a\""));
    assert!(!check_include_arg("#include a"));
}

#[test]
fn scanning_with_includes() {
    let mut st = ScanState::new("main.lla".to_string()).preprocess();
    match st.start() {
        Some(Line::ChangeFile(f)) => assert_eq!(f, "main.lla"),
        _ => panic!("the first file is announced"),
    }
    assert!(st.start().is_none());
    assert!(st.owed_line().is_none());
    match st.line_read("let x = 1\n".to_string()) {
        Ok(ScanAction::Emit(Line::Line { text, lineno })) => {
            assert_eq!(text, b"let x = 1\n".to_vec());
            assert_eq!(lineno, 1);
        },
        _ => panic!("a plain line"),
    }
    match st.line_read("#include \"other.lla\"\n".to_string()) {
        Ok(ScanAction::Open(p)) => assert_eq!(p, "other.lla"),
        _ => panic!("an include"),
    }
    match st.line_read("#include \"main.lla\"\n".to_string()) {
        Err(ScanErr::IncludeCycle { included_file, in_file, at_line, prev_included_at }) => {
            assert_eq!(included_file, "main.lla");
            assert_eq!(in_file, "other.lla");
            assert_eq!(at_line, 0);
            assert!(prev_included_at.is_none());
        },
        _ => panic!("a cycle"),
    }
    match st.end_of_file() {
        Some(Line::ChangeFile(f)) => assert_eq!(f, "main.lla"),
        _ => panic!("back to the first file"),
    }
    assert_eq!(st.owed_line(), Some("\n".to_string()));
    match st.line_read("\n".to_string()) {
        Ok(ScanAction::Emit(Line::Line { lineno, .. })) => assert_eq!(lineno, 2),
        _ => panic!("the owed line"),
    }
    assert!(st.end_of_file().is_none());
    assert!(!st.has_open_file());
}

#[test]
fn directives_without_preprocessing() {
    let mut st = ScanState::new("main.lla".to_string());
    let _ = st.start();
    match st.line_read("#include \"x\"\n".to_string()) {
        Ok(ScanAction::Emit(Line::Line { lineno, .. })) => assert_eq!(lineno, 1),
        _ => panic!("kept as a line"),
    }
    assert!(matches!(st.line_read("#pragma\n".to_string()), Err(ScanErr::UnknownDirective(_))));
}
