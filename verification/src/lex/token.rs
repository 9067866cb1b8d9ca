use vstd::prelude::*;
use crate::text::{ascii_to_string, is_ascii_bytes, decimal, decimal_u64, string_push_str};

verus! {

/// The kinds of tokens of the language.
#[derive(Debug, Clone, Copy, PartialEq, Eq, Structural)]
pub enum TokenKind {
    EOF, UNMATCHED, COMMENT,

    // Keywords
    And, Array, Begin, Bool, Char,
    Delete, Dim, Do, Done, Downto,
    Else, End, False, Float, For,
    If, In, Int, Let, Match, Mod,
    Mutable, New, Not, Of, Rec, Ref,
    Then, To, True, Type, Unit,
    While, With,

    // Identifiers
    IdUpper,
    IdLower,

    // Literals
    IntLiteral,
    FloatLiteral,
    CharLiteral,
    StringLiteral,

    // Multi-char symbols
    Arrow, PlusDot, MinusDot, StarDot, SlashDot,
    DblStar, DblAmpersand, DblBar, LtGt, LEq,
    GEq, DblEq, ExclamEq, ColonEq,

    // Single-char symbols
    Semicolon, Eq, Gt, Lt, Plus, Minus, Star, Slash,
    Colon, Comma, LBracket, RBracket, LParen, RParen,
    Bar, Exclam,
}

/// How a token kind is written: the lower-case word for keywords, the
/// symbol itself for symbols, and the kind's name for the others.
pub open spec fn spelling(k: TokenKind) -> Seq<u8> {
    match k {
        TokenKind::EOF => seq![69u8, 79u8, 70u8],  // "EOF"
        TokenKind::UNMATCHED => seq![85u8, 78u8, 77u8, 65u8, 84u8, 67u8, 72u8, 69u8, 68u8],  // "UNMATCHED"
        TokenKind::COMMENT => seq![67u8, 79u8, 77u8, 77u8, 69u8, 78u8, 84u8],  // "COMMENT"
        TokenKind::And => seq![97u8, 110u8, 100u8],  // "and"
        TokenKind::Array => seq![97u8, 114u8, 114u8, 97u8, 121u8],  // "array"
        TokenKind::Begin => seq![98u8, 101u8, 103u8, 105u8, 110u8],  // "begin"
        TokenKind::Bool => seq![98u8, 111u8, 111u8, 108u8],  // "bool"
        TokenKind::Char => seq![99u8, 104u8, 97u8, 114u8],  // "char"
        TokenKind::Delete => seq![100u8, 101u8, 108u8, 101u8, 116u8, 101u8],  // "delete"
        TokenKind::Dim => seq![100u8, 105u8, 109u8],  // "dim"
        TokenKind::Do => seq![100u8, 111u8],  // "do"
        TokenKind::Done => seq![100u8, 111u8, 110u8, 101u8],  // "done"
        TokenKind::Downto => seq![100u8, 111u8, 119u8, 110u8, 116u8, 111u8],  // "downto"
        TokenKind::Else => seq![101u8, 108u8, 115u8, 101u8],  // "else"
        TokenKind::End => seq![101u8, 110u8, 100u8],  // "end"
        TokenKind::False => seq![102u8, 97u8, 108u8, 115u8, 101u8],  // "false"
        TokenKind::Float => seq![102u8, 108u8, 111u8, 97u8, 116u8],  // "float"
        TokenKind::For => seq![102u8, 111u8, 114u8],  // "for"
        TokenKind::If => seq![105u8, 102u8],  // "if"
        TokenKind::In => seq![105u8, 110u8],  // "in"
        TokenKind::Int => seq![105u8, 110u8, 116u8],  // "int"
        TokenKind::Let => seq![108u8, 101u8, 116u8],  // "let"
        TokenKind::Match => seq![109u8, 97u8, 116u8, 99u8, 104u8],  // "match"
        TokenKind::Mod => seq![109u8, 111u8, 100u8],  // "mod"
        TokenKind::Mutable => seq![109u8, 117u8, 116u8, 97u8, 98u8, 108u8, 101u8],  // "mutable"
        TokenKind::New => seq![110u8, 101u8, 119u8],  // "new"
        TokenKind::Not => seq![110u8, 111u8, 116u8],  // "not"
        TokenKind::Of => seq![111u8, 102u8],  // "of"
        TokenKind::Rec => seq![114u8, 101u8, 99u8],  // "rec"
        TokenKind::Ref => seq![114u8, 101u8, 102u8],  // "ref"
        TokenKind::Then => seq![116u8, 104u8, 101u8, 110u8],  // "then"
        TokenKind::To => seq![116u8, 111u8],  // "to"
        TokenKind::True => seq![116u8, 114u8, 117u8, 101u8],  // "true"
        TokenKind::Type => seq![116u8, 121u8, 112u8, 101u8],  // "type"
        TokenKind::Unit => seq![117u8, 110u8, 105u8, 116u8],  // "unit"
        TokenKind::While => seq![119u8, 104u8, 105u8, 108u8, 101u8],  // "while"
        TokenKind::With => seq![119u8, 105u8, 116u8, 104u8],  // "with"
        TokenKind::IdUpper => seq![73u8, 100u8, 85u8, 112u8, 112u8, 101u8, 114u8],  // "IdUpper"
        TokenKind::IdLower => seq![73u8, 100u8, 76u8, 111u8, 119u8, 101u8, 114u8],  // "IdLower"
        TokenKind::IntLiteral => seq![73u8, 110u8, 116u8, 76u8, 105u8, 116u8, 101u8, 114u8, 97u8, 108u8],  // "IntLiteral"
        TokenKind::FloatLiteral => seq![70u8, 108u8, 111u8, 97u8, 116u8, 76u8, 105u8, 116u8, 101u8, 114u8, 97u8, 108u8],  // "FloatLiteral"
        TokenKind::CharLiteral => seq![67u8, 104u8, 97u8, 114u8, 76u8, 105u8, 116u8, 101u8, 114u8, 97u8, 108u8],  // "CharLiteral"
        TokenKind::StringLiteral => seq![83u8, 116u8, 114u8, 105u8, 110u8, 103u8, 76u8, 105u8, 116u8, 101u8, 114u8, 97u8, 108u8],  // "StringLiteral"
        TokenKind::Arrow => seq![45u8, 62u8],  // "->"
        TokenKind::PlusDot => seq![43u8, 46u8],  // "+."
        TokenKind::MinusDot => seq![45u8, 46u8],  // "-."
        TokenKind::StarDot => seq![42u8, 46u8],  // "*."
        TokenKind::SlashDot => seq![47u8, 46u8],  // "/."
        TokenKind::DblStar => seq![42u8, 42u8],  // "**"
        TokenKind::DblAmpersand => seq![38u8, 38u8],  // "&&"
        TokenKind::DblBar => seq![124u8, 124u8],  // "||"
        TokenKind::LtGt => seq![60u8, 62u8],  // "<>"
        TokenKind::LEq => seq![60u8, 61u8],  // "<="
        TokenKind::GEq => seq![62u8, 61u8],  // ">="
        TokenKind::DblEq => seq![61u8, 61u8],  // "=="
        TokenKind::ExclamEq => seq![33u8, 61u8],  // "!="
        TokenKind::ColonEq => seq![58u8, 61u8],  // ":="
        TokenKind::Semicolon => seq![59u8],  // ";"
        TokenKind::Eq => seq![61u8],  // "="
        TokenKind::Gt => seq![62u8],  // ">"
        TokenKind::Lt => seq![60u8],  // "<"
        TokenKind::Plus => seq![43u8],  // "+"
        TokenKind::Minus => seq![45u8],  // "-"
        TokenKind::Star => seq![42u8],  // "*"
        TokenKind::Slash => seq![47u8],  // "/"
        TokenKind::Colon => seq![58u8],  // ":"
        TokenKind::Comma => seq![44u8],  // ","
        TokenKind::LBracket => seq![91u8],  // "["
        TokenKind::RBracket => seq![93u8],  // "]"
        TokenKind::LParen => seq![40u8],  // "("
        TokenKind::RParen => seq![41u8],  // ")"
        TokenKind::Bar => seq![124u8],  // "|"
        TokenKind::Exclam => seq![33u8],  // "!"
    }
}

/// The reserved words, in the order the lexer tries them.
pub open spec fn keywords() -> Seq<TokenKind> {
    seq![
        TokenKind::And,
        TokenKind::Array,
        TokenKind::Begin,
        TokenKind::Bool,
        TokenKind::Char,
        TokenKind::Delete,
        TokenKind::Dim,
        TokenKind::Do,
        TokenKind::Done,
        TokenKind::Downto,
        TokenKind::Else,
        TokenKind::End,
        TokenKind::False,
        TokenKind::Float,
        TokenKind::For,
        TokenKind::If,
        TokenKind::Int,
        TokenKind::In,
        TokenKind::Let,
        TokenKind::Match,
        TokenKind::Mod,
        TokenKind::Mutable,
        TokenKind::New,
        TokenKind::Not,
        TokenKind::Of,
        TokenKind::Rec,
        TokenKind::Ref,
        TokenKind::Then,
        TokenKind::To,
        TokenKind::True,
        TokenKind::Type,
        TokenKind::Unit,
        TokenKind::While,
        TokenKind::With,
    ]
}

/// The symbols of more than one character, in the order the lexer tries them.
pub open spec fn multi_char_symbols() -> Seq<TokenKind> {
    seq![
        TokenKind::Arrow,
        TokenKind::PlusDot,
        TokenKind::MinusDot,
        TokenKind::StarDot,
        TokenKind::SlashDot,
        TokenKind::DblStar,
        TokenKind::DblAmpersand,
        TokenKind::DblBar,
        TokenKind::LtGt,
        TokenKind::LEq,
        TokenKind::GEq,
        TokenKind::DblEq,
        TokenKind::ExclamEq,
        TokenKind::ColonEq,
    ]
}

/// The one-character symbols and separators, in the order the lexer tries
/// them.
pub open spec fn single_char_symbols() -> Seq<TokenKind> {
    seq![
        TokenKind::Semicolon,
        TokenKind::Eq,
        TokenKind::Gt,
        TokenKind::Lt,
        TokenKind::Plus,
        TokenKind::Minus,
        TokenKind::Star,
        TokenKind::Slash,
        TokenKind::Colon,
        TokenKind::Comma,
        TokenKind::LBracket,
        TokenKind::RBracket,
        TokenKind::LParen,
        TokenKind::RParen,
        TokenKind::Bar,
        TokenKind::Exclam,
    ]
}

/// Every spelling is a non-empty string of printable ASCII characters.
pub proof fn lemma_spelling_ascii(k: TokenKind)
    ensures
        spelling(k).len() > 0,
        is_ascii_bytes(spelling(k)),
        forall|i: int| 0 <= i < spelling(k).len() ==> 0x21 <= #[trigger] spelling(k)[i] <= 0x7e,
{
}

/// The reserved words.
pub fn keyword_kinds() -> (r: Vec<TokenKind>)
    ensures
        r@ == keywords(),
{
    let r = vec![
        TokenKind::And,
        TokenKind::Array,
        TokenKind::Begin,
        TokenKind::Bool,
        TokenKind::Char,
        TokenKind::Delete,
        TokenKind::Dim,
        TokenKind::Do,
        TokenKind::Done,
        TokenKind::Downto,
        TokenKind::Else,
        TokenKind::End,
        TokenKind::False,
        TokenKind::Float,
        TokenKind::For,
        TokenKind::If,
        TokenKind::Int,
        TokenKind::In,
        TokenKind::Let,
        TokenKind::Match,
        TokenKind::Mod,
        TokenKind::Mutable,
        TokenKind::New,
        TokenKind::Not,
        TokenKind::Of,
        TokenKind::Rec,
        TokenKind::Ref,
        TokenKind::Then,
        TokenKind::To,
        TokenKind::True,
        TokenKind::Type,
        TokenKind::Unit,
        TokenKind::While,
        TokenKind::With,
    ];
    proof {
        assert(r@ =~= keywords());
    }
    r
}

/// The symbols of more than one character.
pub fn multi_char_symbol_kinds() -> (r: Vec<TokenKind>)
    ensures
        r@ == multi_char_symbols(),
{
    let r = vec![
        TokenKind::Arrow,
        TokenKind::PlusDot,
        TokenKind::MinusDot,
        TokenKind::StarDot,
        TokenKind::SlashDot,
        TokenKind::DblStar,
        TokenKind::DblAmpersand,
        TokenKind::DblBar,
        TokenKind::LtGt,
        TokenKind::LEq,
        TokenKind::GEq,
        TokenKind::DblEq,
        TokenKind::ExclamEq,
        TokenKind::ColonEq,
    ];
    proof {
        assert(r@ =~= multi_char_symbols());
    }
    r
}

/// The one-character symbols and separators.
pub fn single_char_symbol_kinds() -> (r: Vec<TokenKind>)
    ensures
        r@ == single_char_symbols(),
{
    let r = vec![
        TokenKind::Semicolon,
        TokenKind::Eq,
        TokenKind::Gt,
        TokenKind::Lt,
        TokenKind::Plus,
        TokenKind::Minus,
        TokenKind::Star,
        TokenKind::Slash,
        TokenKind::Colon,
        TokenKind::Comma,
        TokenKind::LBracket,
        TokenKind::RBracket,
        TokenKind::LParen,
        TokenKind::RParen,
        TokenKind::Bar,
        TokenKind::Exclam,
    ];
    proof {
        assert(r@ =~= single_char_symbols());
    }
    r
}

impl TokenKind {
    /// The bytes of the kind's spelling.
    pub fn spelling_bytes(&self) -> (r: Vec<u8>)
        ensures
            r@ == spelling(*self),
    {
        let r = match self {
            TokenKind::EOF => vec![69u8, 79u8, 70u8],  // "EOF"
            TokenKind::UNMATCHED => vec![85u8, 78u8, 77u8, 65u8, 84u8, 67u8, 72u8, 69u8, 68u8],  // "UNMATCHED"
            TokenKind::COMMENT => vec![67u8, 79u8, 77u8, 77u8, 69u8, 78u8, 84u8],  // "COMMENT"
            TokenKind::And => vec![97u8, 110u8, 100u8],  // "and"
            TokenKind::Array => vec![97u8, 114u8, 114u8, 97u8, 121u8],  // "array"
            TokenKind::Begin => vec![98u8, 101u8, 103u8, 105u8, 110u8],  // "begin"
            TokenKind::Bool => vec![98u8, 111u8, 111u8, 108u8],  // "bool"
            TokenKind::Char => vec![99u8, 104u8, 97u8, 114u8],  // "char"
            TokenKind::Delete => vec![100u8, 101u8, 108u8, 101u8, 116u8, 101u8],  // "delete"
            TokenKind::Dim => vec![100u8, 105u8, 109u8],  // "dim"
            TokenKind::Do => vec![100u8, 111u8],  // "do"
            TokenKind::Done => vec![100u8, 111u8, 110u8, 101u8],  // "done"
            TokenKind::Downto => vec![100u8, 111u8, 119u8, 110u8, 116u8, 111u8],  // "downto"
            TokenKind::Else => vec![101u8, 108u8, 115u8, 101u8],  // "else"
            TokenKind::End => vec![101u8, 110u8, 100u8],  // "end"
            TokenKind::False => vec![102u8, 97u8, 108u8, 115u8, 101u8],  // "false"
            TokenKind::Float => vec![102u8, 108u8, 111u8, 97u8, 116u8],  // "float"
            TokenKind::For => vec![102u8, 111u8, 114u8],  // "for"
            TokenKind::If => vec![105u8, 102u8],  // "if"
            TokenKind::In => vec![105u8, 110u8],  // "in"
            TokenKind::Int => vec![105u8, 110u8, 116u8],  // "int"
            TokenKind::Let => vec![108u8, 101u8, 116u8],  // "let"
            TokenKind::Match => vec![109u8, 97u8, 116u8, 99u8, 104u8],  // "match"
            TokenKind::Mod => vec![109u8, 111u8, 100u8],  // "mod"
            TokenKind::Mutable => vec![109u8, 117u8, 116u8, 97u8, 98u8, 108u8, 101u8],  // "mutable"
            TokenKind::New => vec![110u8, 101u8, 119u8],  // "new"
            TokenKind::Not => vec![110u8, 111u8, 116u8],  // "not"
            TokenKind::Of => vec![111u8, 102u8],  // "of"
            TokenKind::Rec => vec![114u8, 101u8, 99u8],  // "rec"
            TokenKind::Ref => vec![114u8, 101u8, 102u8],  // "ref"
            TokenKind::Then => vec![116u8, 104u8, 101u8, 110u8],  // "then"
            TokenKind::To => vec![116u8, 111u8],  // "to"
            TokenKind::True => vec![116u8, 114u8, 117u8, 101u8],  // "true"
            TokenKind::Type => vec![116u8, 121u8, 112u8, 101u8],  // "type"
            TokenKind::Unit => vec![117u8, 110u8, 105u8, 116u8],  // "unit"
            TokenKind::While => vec![119u8, 104u8, 105u8, 108u8, 101u8],  // "while"
            TokenKind::With => vec![119u8, 105u8, 116u8, 104u8],  // "with"
            TokenKind::IdUpper => vec![73u8, 100u8, 85u8, 112u8, 112u8, 101u8, 114u8],  // "IdUpper"
            TokenKind::IdLower => vec![73u8, 100u8, 76u8, 111u8, 119u8, 101u8, 114u8],  // "IdLower"
            TokenKind::IntLiteral => vec![73u8, 110u8, 116u8, 76u8, 105u8, 116u8, 101u8, 114u8, 97u8, 108u8],  // "IntLiteral"
            TokenKind::FloatLiteral => vec![70u8, 108u8, 111u8, 97u8, 116u8, 76u8, 105u8, 116u8, 101u8, 114u8, 97u8, 108u8],  // "FloatLiteral"
            TokenKind::CharLiteral => vec![67u8, 104u8, 97u8, 114u8, 76u8, 105u8, 116u8, 101u8, 114u8, 97u8, 108u8],  // "CharLiteral"
            TokenKind::StringLiteral => vec![83u8, 116u8, 114u8, 105u8, 110u8, 103u8, 76u8, 105u8, 116u8, 101u8, 114u8, 97u8, 108u8],  // "StringLiteral"
            TokenKind::Arrow => vec![45u8, 62u8],  // "->"
            TokenKind::PlusDot => vec![43u8, 46u8],  // "+."
            TokenKind::MinusDot => vec![45u8, 46u8],  // "-."
            TokenKind::StarDot => vec![42u8, 46u8],  // "*."
            TokenKind::SlashDot => vec![47u8, 46u8],  // "/."
            TokenKind::DblStar => vec![42u8, 42u8],  // "**"
            TokenKind::DblAmpersand => vec![38u8, 38u8],  // "&&"
            TokenKind::DblBar => vec![124u8, 124u8],  // "||"
            TokenKind::LtGt => vec![60u8, 62u8],  // "<>"
            TokenKind::LEq => vec![60u8, 61u8],  // "<="
            TokenKind::GEq => vec![62u8, 61u8],  // ">="
            TokenKind::DblEq => vec![61u8, 61u8],  // "=="
            TokenKind::ExclamEq => vec![33u8, 61u8],  // "!="
            TokenKind::ColonEq => vec![58u8, 61u8],  // ":="
            TokenKind::Semicolon => vec![59u8],  // ";"
            TokenKind::Eq => vec![61u8],  // "="
            TokenKind::Gt => vec![62u8],  // ">"
            TokenKind::Lt => vec![60u8],  // "<"
            TokenKind::Plus => vec![43u8],  // "+"
            TokenKind::Minus => vec![45u8],  // "-"
            TokenKind::Star => vec![42u8],  // "*"
            TokenKind::Slash => vec![47u8],  // "/"
            TokenKind::Colon => vec![58u8],  // ":"
            TokenKind::Comma => vec![44u8],  // ","
            TokenKind::LBracket => vec![91u8],  // "["
            TokenKind::RBracket => vec![93u8],  // "]"
            TokenKind::LParen => vec![40u8],  // "("
            TokenKind::RParen => vec![41u8],  // ")"
            TokenKind::Bar => vec![124u8],  // "|"
            TokenKind::Exclam => vec![33u8],  // "!"
        };
        proof {
            assert(r@ =~= spelling(*self));
        }
        r
    }

    /// The kind's spelling, as a string.
    pub fn to_string(&self) -> (r: String)
        ensures
            r@ == spelling(*self).map_values(|b: u8| b as char),
    {
        proof {
            lemma_spelling_ascii(*self);
        }
        ascii_to_string(self.spelling_bytes())
    }
}

/// A place in a source file: line and column (both counted from 1) and the
/// file's name.
#[derive(Debug)]
pub struct Position {
    pub line: usize,
    pub column: usize,
    pub filename: String,
}

impl Position {
    pub fn new(line: usize, column: usize, filename: String) -> (r: Self)
        ensures
            r.line == line,
            r.column == column,
            r.filename == filename,
    {
        Self { line, column, filename }
    }
}

impl Clone for Position {
    fn clone(&self) -> (r: Self)
        ensures
            r == *self,
    {
        Position { line: self.line, column: self.column, filename: self.filename.clone() }
    }
}

impl Default for Position {
    fn default() -> (r: Self)
        ensures
            r.line == 0,
            r.column == 0,
            r.filename@ == Seq::<char>::empty(),
    {
        Position { line: 0, column: 0, filename: String::new() }
    }
}

/// The value that a literal or identifier token carries.
///
/// A float literal carries its decimal text (digits, a point, digits):
/// its conversion to a floating-point number is left to the user.
#[derive(Debug)]
pub enum TokenValue {
    Int(i32),
    Float(String),
    Char(u8),
    String(String),
    NoValue,
}

/// A token: its kind, the source bytes it was read from, the value it
/// carries, and where it starts and ends.
#[derive(Debug)]
pub struct Token {
    pub kind: TokenKind,
    pub original: Vec<u8>,
    pub value: TokenValue,
    pub from: Position,
    pub to: Position,
}

impl Token {
    pub fn new(kind: TokenKind, original: Vec<u8>, from: Position, to: Position) -> (r: Self)
        ensures
            r.kind == kind,
            r.original == original,
            r.value is NoValue,
            r.from == from,
            r.to == to,
    {
        Token { kind, original, value: TokenValue::NoValue, from, to }
    }

    pub fn new_with_value(
        kind: TokenKind,
        original: Vec<u8>,
        value: TokenValue,
        from: Position,
        to: Position,
    ) -> (r: Self)
        ensures
            r.kind == kind,
            r.original == original,
            r.value == value,
            r.from == from,
            r.to == to,
    {
        Token { kind, original, value, from, to }
    }

    pub fn extract_string_value(self) -> (r: String)
        requires
            self.value is String,
        ensures
            self.value == TokenValue::String(r),
    {
        match self.value {
            TokenValue::String(s) => s,
            _ => {
                proof {
                    assert(false);
                }
                String::new()
            },
        }
    }

    pub fn extract_int_value(self) -> (r: i32)
        requires
            self.value is Int,
        ensures
            self.value == TokenValue::Int(r),
    {
        match self.value {
            TokenValue::Int(i) => i,
            _ => 0,
        }
    }

    /// The decimal text of a float literal.
    pub fn extract_float_value(self) -> (r: String)
        requires
            self.value is Float,
        ensures
            self.value == TokenValue::Float(r),
    {
        match self.value {
            TokenValue::Float(f) => f,
            _ => {
                proof {
                    assert(false);
                }
                String::new()
            },
        }
    }

    pub fn extract_char_value(self) -> (r: u8)
        requires
            self.value is Char,
        ensures
            self.value == TokenValue::Char(r),
    {
        match self.value {
            TokenValue::Char(c) => c,
            _ => 0,
        }
    }
}

impl Clone for TokenValue {
    fn clone(&self) -> (r: Self)
        ensures
            r == *self,
    {
        match self {
            TokenValue::Int(i) => TokenValue::Int(*i),
            TokenValue::Float(f) => TokenValue::Float(f.clone()),
            TokenValue::Char(c) => TokenValue::Char(*c),
            TokenValue::String(s) => TokenValue::String(s.clone()),
            TokenValue::NoValue => TokenValue::NoValue,
        }
    }
}

impl Clone for Token {
    fn clone(&self) -> (r: Self)
        ensures
            r.kind == self.kind,
            r.original@ == self.original@,
            r.value == self.value,
            r.from == self.from,
            r.to == self.to,
    {
        Token {
            kind: self.kind,
            original: self.original.clone(),
            value: self.value.clone(),
            from: self.from.clone(),
            to: self.to.clone(),
        }
    }
}


/// How a token kind reads.
pub open spec fn kind_text(k: TokenKind) -> Seq<char> {
    spelling(k).map_values(|b: u8| b as char)
}

/// How a position reads: `(line,column in file)`.
pub open spec fn position_text(line: usize, column: usize, filename: Seq<char>) -> Seq<char> {
    "("@ + decimal(line as nat) + ","@ + decimal(column as nat) + " in "@ + filename + ")"@
}

impl Position {
    /// How the position reads: `(line,column in file)`.
    pub fn text(&self) -> (r: String)
        ensures
            r@ == position_text(self.line, self.column, self.filename@),
    {
        let mut s = String::new();
        string_push_str(&mut s, "(");
        let line = decimal_u64(self.line as u64);
        string_push_str(&mut s, line.as_str());
        string_push_str(&mut s, ",");
        let column = decimal_u64(self.column as u64);
        string_push_str(&mut s, column.as_str());
        string_push_str(&mut s, " in ");
        string_push_str(&mut s, self.filename.as_str());
        string_push_str(&mut s, ")");
        s
    }
}

impl Token {
    /// How the token reads in a listing of tokens: its kind and where it
    /// starts and ends, on a line of its own.
    pub fn text(&self) -> (r: String)
        ensures
            r@ == "`"@ + kind_text(self.kind) + "` from "@
                + position_text(self.from.line, self.from.column, self.from.filename@) + " to "@
                + position_text(self.to.line, self.to.column, self.to.filename@) + "\n"@,
    {
        let mut s = String::new();
        string_push_str(&mut s, "`");
        let kind = self.kind.to_string();
        string_push_str(&mut s, kind.as_str());
        string_push_str(&mut s, "` from ");
        let from = self.from.text();
        string_push_str(&mut s, from.as_str());
        string_push_str(&mut s, " to ");
        let to = self.to.text();
        string_push_str(&mut s, to.as_str());
        string_push_str(&mut s, "\n");
        s
    }
}

} // verus!
