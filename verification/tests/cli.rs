use llamac::cli::{Cli, CliWarning, OutTarget, PrintCalls, PrintWriterHelpers, PrintedOutput, Printer, StopAfter};

fn calls() -> PrintCalls {
    PrintCalls { preprocessed: None, tokens: None, ast: None, types: None, ir: None, assembly: None }
}

#[test]
fn no_warnings_by_default() {
    let cli = Cli { filename: "a.lla".to_string(), stop_after: StopAfter::IrGen, out: "a.out".to_string(), verbose: false, print: None };
    assert!(cli.validation_warnings().is_empty());
}

#[test]
fn unused_output_name() {
    let cli = Cli { filename: "a.lla".to_string(), stop_after: StopAfter::Sem, out: "prog".to_string(), verbose: false, print: None };
    assert_eq!(cli.validation_warnings(), vec![CliWarning::OutIgnored]);
}

#[test]
fn outputs_of_steps_not_reached() {
    let mut c = calls();
    c.tokens = Some(None);
    c.types = Some(Some("types.txt".to_string()));
    c.assembly = Some(None);
    let cli = Cli {
        filename: "a.lla".to_string(),
        stop_after: StopAfter::Lexing,
        out: "a.out".to_string(),
        verbose: false,
        print: Some(Printer::Print(c)),
    };
    assert_eq!(
        cli.validation_warnings(),
        vec![CliWarning::PrintIgnored(PrintedOutput::Types), CliWarning::PrintIgnored(PrintedOutput::Assembly)]
    );
}

#[test]
fn steps_in_order() {
    assert!(StopAfter::Preprocessing.is_before(&StopAfter::Lexing));
    assert!(StopAfter::Sem.is_before(&StopAfter::IrGen));
    assert!(!StopAfter::Parsing.is_before(&StopAfter::Parsing));
    assert!(!StopAfter::IrGen.is_before(&StopAfter::Lexing));
}

#[test]
fn output_targets() {
    let mut c = calls();
    c.tokens = Some(None);
    c.ast = Some(Some("ast.txt".to_string()));
    let print = Some(Printer::Print(c));
    assert!(matches!(print.get_token_writer(), Some(OutTarget::Stdout)));
    match print.get_ast_writer() {
        Some(OutTarget::File(f)) => assert_eq!(f, "ast.txt"),
        _ => panic!("the AST goes to its file"),
    }
    assert!(print.get_types_writer().is_none());
    let none: Option<Printer> = None;
    assert!(none.get_token_writer().is_none());
    assert!(PrintCalls::out_target_helper(&None).is_none());
}
