use llamac::cli::{CliWarning, PrintedOutput};
use llamac::lex::token::{Position, Token, TokenKind};
use llamac::lex::LexErr;
use llamac::parse::ParseErr;
use llamac::scan::ScanErr;

fn pos(line: usize, column: usize) -> Position {
    Position::new(line, column, "main.lla".to_string())
}

#[test]
fn position_and_token_texts() {
    assert_eq!(pos(3, 14).text(), "(3,14 in main.lla)");
    let t = Token::new(TokenKind::Let, b"let".to_vec(), pos(1, 1), pos(1, 4));
    assert_eq!(t.text(), "`let` from (1,1 in main.lla) to (1,4 in main.lla)\n");
}

#[test]
fn lexing_error_messages() {
    assert_eq!(LexErr::UnterminatedComment(pos(2, 5)).message(), "unterminated comment at (2,5 in main.lla)");
    assert_eq!(
        LexErr::ParseIntError(pos(7, 1), "number too large".to_string()).message(),
        "number too large at (7,1 in main.lla)"
    );
}

#[test]
fn parsing_error_messages() {
    let t = Token::new(TokenKind::Eq, b"=".to_vec(), pos(1, 5), pos(1, 6));
    let e = ParseErr::UnexpectedToken(Some(t), vec![TokenKind::IdLower, TokenKind::Mutable]);
    assert_eq!(e.message(), "(1,5 in main.lla): Unexpected token \"=\", expected any of {\"IdLower\", \"mutable\"}");
    let e = ParseErr::UnexpectedToken(None, vec![TokenKind::Let]);
    assert_eq!(e.message(), "Unexpected end of input, expected any of {\"let\"}");
}

#[test]
fn preprocessing_error_messages() {
    assert_eq!(ScanErr::IncludeEmpty.message(), "Include directive has no arguments");
    assert_eq!(ScanErr::UnknownDirective("#define".to_string()).message(), "Unknown directive: #define");
    let e = ScanErr::IncludeCycle {
        included_file: "a.lla".to_string(),
        in_file: "b.lla".to_string(),
        at_line: 12,
        prev_included_at: Some("c.lla".to_string()),
    };
    assert_eq!(e.message(), "Include cycle found: a.lla included again in b.lla at line 12 (previously included in c.lla)");
    let io = ScanErr::IO(std::io::Error::new(std::io::ErrorKind::Other, "disk gone"));
    assert_eq!(io.message(), "IO error: disk gone");
}

#[test]
fn warning_messages() {
    assert_eq!(
        CliWarning::PrintIgnored(PrintedOutput::Ast).message(),
        "Warning: will stop before producing AST, print --ast ignored"
    );
    assert_eq!(CliWarning::OutIgnored.message(), "no executable produced when --stop-after is not 'ir-gen'");
}
