pub mod rules;
pub mod token;

use vstd::prelude::*;
use vstd::utf8::valid_utf8;
use crate::scan::Line;
use crate::text::{ascii_chars, ascii_to_string, is_ascii_bytes, string_push_str};
use self::rules::{
    char_literal_outcome, comment_delim_at, copy_range, count_digits, count_ident_chars, decimal_value,
    find_comment_delim, find_lexeme_at, find_spelled, find_string_end, first_comment_delim,
    first_non_whitespace, first_whitespace, float_len, has_at, is_char_lit_stop, is_digit,
    lemma_first_comment_delim, lemma_digit_run_unique, lemma_ident_run_unique,
    lemma_char_lit_stop_unique, lemma_string_end_unique,
    is_digit_run, is_first_such, is_ident_run, is_lower, is_string_end, is_upper, is_ws,
    match_lexeme_at, parse_decimal_i32, parse_string_escape_seqs, problem_message,
    reserved_word_from_id, scan_char_literal, CharLitProblem, starts_with_at, unescape_from, first_from,
};
use self::token::{
    keywords, multi_char_symbol_kinds, multi_char_symbols, single_char_symbol_kinds,
    single_char_symbols, spelling, Position, Token, TokenKind, TokenValue, position_text,
};

verus! {

/// A position as a value: line, column, file name.
pub type PosView = (usize, usize, Seq<char>);

/// A token value as a value.
pub enum ValueView {
    Int(i32),
    Float(Seq<char>),
    Char(u8),
    Str(Seq<char>),
    NoValue,
}

/// A token as a value.
pub struct TokenView {
    pub kind: TokenKind,
    pub original: Seq<u8>,
    pub value: ValueView,
    pub from: PosView,
    pub to: PosView,
}

/// A lexing error as a value.
pub enum LexErrView {
    UnterminatedComment(PosView),
    InvalidCharLiteral(PosView, Seq<char>),
    InvalidStringLiteral(PosView, Seq<char>),
    ParseFloatError(PosView, Seq<char>),
    ParseIntError(PosView, Seq<char>),
    FromUtf8Error(PosView, Seq<char>),
}

impl View for Position {
    type V = PosView;

    open spec fn view(&self) -> PosView {
        (self.line, self.column, self.filename@)
    }
}

impl View for TokenValue {
    type V = ValueView;

    open spec fn view(&self) -> ValueView {
        match self {
            TokenValue::Int(i) => ValueView::Int(*i),
            TokenValue::Float(f) => ValueView::Float(f@),
            TokenValue::Char(c) => ValueView::Char(*c),
            TokenValue::String(s) => ValueView::Str(s@),
            TokenValue::NoValue => ValueView::NoValue,
        }
    }
}

impl View for Token {
    type V = TokenView;

    open spec fn view(&self) -> TokenView {
        TokenView {
            kind: self.kind,
            original: self.original@,
            value: self.value@,
            from: self.from@,
            to: self.to@,
        }
    }
}

/// Why lexing failed, and where.
#[derive(Debug)]
pub enum LexErr {
    UnterminatedComment(Position),
    InvalidCharLiteral(Position, &'static str),
    InvalidStringLiteral(Position, &'static str),
    ParseFloatError(Position, String),
    ParseIntError(Position, String),
    FromUtf8Error(Position, String),
}

impl View for LexErr {
    type V = LexErrView;

    open spec fn view(&self) -> LexErrView {
        match self {
            LexErr::UnterminatedComment(p) => LexErrView::UnterminatedComment(p@),
            LexErr::InvalidCharLiteral(p, m) => LexErrView::InvalidCharLiteral(p@, m@),
            LexErr::InvalidStringLiteral(p, m) => LexErrView::InvalidStringLiteral(p@, m@),
            LexErr::ParseFloatError(p, m) => LexErrView::ParseFloatError(p@, m@),
            LexErr::ParseIntError(p, m) => LexErrView::ParseIntError(p@, m@),
            LexErr::FromUtf8Error(p, m) => LexErrView::FromUtf8Error(p@, m@),
        }
    }
}

/// How a lexing error reads: what went wrong and where.
pub open spec fn lex_err_text(e: LexErrView) -> Seq<char> {
    match e {
        LexErrView::UnterminatedComment(p) => "unterminated comment at "@ + position_text(p.0, p.1, p.2),
        LexErrView::InvalidCharLiteral(p, m) => m + " at "@ + position_text(p.0, p.1, p.2),
        LexErrView::InvalidStringLiteral(p, m) => m + " at "@ + position_text(p.0, p.1, p.2),
        LexErrView::ParseFloatError(p, m) => m + " at "@ + position_text(p.0, p.1, p.2),
        LexErrView::ParseIntError(p, m) => m + " at "@ + position_text(p.0, p.1, p.2),
        LexErrView::FromUtf8Error(p, m) => m + " at "@ + position_text(p.0, p.1, p.2),
    }
}

impl LexErr {
    /// How the error reads: what went wrong and where.
    pub fn message(&self) -> (r: String)
        ensures
            r@ == lex_err_text(self@),
    {
        let mut s = String::new();
        match self {
            LexErr::UnterminatedComment(p) => {
                string_push_str(&mut s, "unterminated comment at ");
                let at = p.text();
                string_push_str(&mut s, at.as_str());
            },
            LexErr::InvalidCharLiteral(p, m) | LexErr::InvalidStringLiteral(p, m) => {
                string_push_str(&mut s, m);
                string_push_str(&mut s, " at ");
                let at = p.text();
                string_push_str(&mut s, at.as_str());
            },
            LexErr::ParseFloatError(p, m) | LexErr::ParseIntError(p, m) | LexErr::FromUtf8Error(p, m) => {
                string_push_str(&mut s, m.as_str());
                string_push_str(&mut s, " at ");
                let at = p.text();
                string_push_str(&mut s, at.as_str());
            },
        }
        proof {
            assert(s@ =~= lex_err_text(self@));
        }
        s
    }
}

pub type LexResult<T> = Result<T, LexErr>;

/// The message of an integer literal too large for `i32` (as `i32`'s
/// parser reports it).
pub open spec fn int_overflow_message() -> Seq<char> {
    "number too large to fit in target type"@
}

/// The state of the lexer as a value.
pub struct LexState {
    /// Everything the scanner hands on, and how much of it was read.
    pub lines: Seq<Line>,
    pub pos: int,
    /// The line being lexed, if any, and the cursor in it.
    pub line: Option<Seq<u8>>,
    pub cursor: int,
    pub lineno: usize,
    pub filename: Seq<char>,
    /// How deeply nested the comment being read is.
    pub nesting: int,
    /// Whether the end of input was reported.
    pub done: bool,
}

/// The position of column `c + 1` of the current line.
pub open spec fn pos_at(st: LexState, c: int) -> PosView {
    (st.lineno, (c + 1) as usize, st.filename)
}

/// The measure by which reading lines progresses.
pub open spec fn lines_left(st: LexState) -> int {
    (if st.pos <= st.lines.len() {
        2 * (st.lines.len() - st.pos)
    } else {
        0
    }) + (if st.line is Some {
        1int
    } else {
        0
    })
}

/// The measure of the progress within the current line.
pub open spec fn line_left(st: LexState) -> int {
    match st.line {
        Some(l) => if st.cursor <= l.len() {
            l.len() - st.cursor
        } else {
            0
        },
        None => 0,
    }
}

/// Reads the next line, following the scanner's changes of file; at the end
/// of input there is no current line any more.
pub open spec fn next_line(st: LexState) -> LexState
    decreases st.lines.len() - st.pos,
{
    if st.pos < 0 || st.pos >= st.lines.len() {
        LexState { line: None, ..st }
    } else {
        match st.lines[st.pos] {
            Line::Line { text, lineno } => LexState {
                pos: st.pos + 1,
                line: Some(text@),
                lineno,
                cursor: 0,
                ..st
            },
            Line::ChangeFile(f) => next_line(LexState { pos: st.pos + 1, filename: f@, ..st }),
        }
    }
}

/// Skips whitespace, line after line, up to the next non-whitespace byte
/// or the end of input.
pub open spec fn eat_ws(st: LexState) -> LexState
    decreases lines_left(st),
{
    match st.line {
        None => st,
        Some(l) => if st.cursor >= l.len() {
            if lines_left(next_line(st)) < lines_left(st) {
                eat_ws(next_line(st))
            } else {
                st
            }
        } else {
            let k = first_non_ws_from(l, st.cursor);
            if k < l.len() {
                LexState { cursor: k, ..st }
            } else if lines_left(next_line(st)) < lines_left(st) {
                eat_ws(next_line(st))
            } else {
                st
            }
        },
    }
}

/// The first position at or after `i` that does not hold whitespace (the
/// length of `l` when there is none).
pub open spec fn first_non_ws_from(l: Seq<u8>, i: int) -> int
    decreases l.len() - i,
{
    if i >= l.len() || i < 0 {
        l.len() as int
    } else if !is_ws(l[i]) {
        i
    } else {
        first_non_ws_from(l, i + 1)
    }
}

/// The first position at or after `i` that holds whitespace (the length of
/// `l` when there is none).
pub open spec fn first_ws_from(l: Seq<u8>, i: int) -> int
    decreases l.len() - i,
{
    if i >= l.len() || i < 0 {
        l.len() as int
    } else if is_ws(l[i]) {
        i
    } else {
        first_ws_from(l, i + 1)
    }
}

/// A token without a value.
pub open spec fn plain_token(kind: TokenKind, original: Seq<u8>, from: PosView, to: PosView) -> TokenView {
    TokenView { kind, original, value: ValueView::NoValue, from, to }
}

/// The rest of a comment: reads on (across lines) until the nesting drops
/// to zero, collecting the comment's text.
pub open spec fn comment_rest(st: LexState, contents: Seq<u8>, from: PosView) -> (Result<TokenView, LexErrView>, LexState)
    decreases lines_left(st), line_left(st),
{
    match st.line {
        None => (Err(LexErrView::UnterminatedComment(from)), st),
        Some(l) => if st.cursor >= l.len() || st.cursor < 0 {
            if lines_left(next_line(st)) < lines_left(st) {
                comment_rest(next_line(st), contents, from)
            } else {
                (Err(LexErrView::UnterminatedComment(from)), st)
            }
        } else {
            let k = first_comment_delim(l, st.cursor);
            if k < l.len() {
                let text = contents + l.subrange(st.cursor, k + 2);
                if l[k] == 0x2a {
                    let st2 = LexState { nesting: st.nesting - 1, cursor: k + 2, ..st };
                    if st2.nesting == 0 {
                        (Ok(plain_token(TokenKind::COMMENT, text, from, pos_at(st2, k + 2))), st2)
                    } else if k + 2 > st.cursor {
                        comment_rest(st2, text, from)
                    } else {
                        (Err(LexErrView::UnterminatedComment(from)), st2)
                    }
                } else {
                    let st2 = LexState { nesting: st.nesting + 1, cursor: k + 2, ..st };
                    if k + 2 > st.cursor {
                        comment_rest(st2, text, from)
                    } else {
                        (Err(LexErrView::UnterminatedComment(from)), st2)
                    }
                }
            } else {
                let text = contents + l.subrange(st.cursor, l.len() as int);
                if lines_left(next_line(st)) < lines_left(st) {
                    comment_rest(next_line(st), text, from)
                } else {
                    (Err(LexErrView::UnterminatedComment(from)), st)
                }
            }
        },
    }
}

/// The rest of an unmatched stretch: everything up to the next whitespace,
/// across lines when a line holds none.
pub open spec fn unmatched_rest(st: LexState, original: Seq<u8>, from: PosView) -> (TokenView, LexState)
    decreases lines_left(st),
{
    match st.line {
        None => (plain_token(TokenKind::UNMATCHED, original, from, pos_at(st, st.cursor)), st),
        Some(l) => {
            let start = if 0 <= st.cursor <= l.len() { st.cursor } else { l.len() as int };
            let k = first_ws_from(l, start);
            if k < l.len() {
                let st2 = LexState { cursor: k, ..st };
                (plain_token(TokenKind::UNMATCHED, original + l.subrange(start, k), from, pos_at(st2, k)), st2)
            } else {
                let text = original + l.subrange(start, l.len() as int);
                let st2 = next_line(st);
                if st2.line is None {
                    (plain_token(TokenKind::UNMATCHED, text, from, (st2.lineno, l.len() as usize, st2.filename)), st2)
                } else if lines_left(st2) < lines_left(st) {
                    unmatched_rest(st2, text, from)
                } else {
                    (plain_token(TokenKind::UNMATCHED, text, from, pos_at(st2, st2.cursor)), st2)
                }
            }
        },
    }
}

/// An identifier at the cursor: the longest run of letters, digits and `_`;
/// a lower-case one spelled as a reserved word is that keyword.
pub open spec fn read_ident(st: LexState) -> (Result<TokenView, LexErrView>, LexState) {
    let l = st.line.unwrap();
    let c = st.cursor;
    let from = pos_at(st, c);
    let n = 1 + choose|n: int| #[trigger] is_ident_run(l, c + 1, n);
    let id = l.subrange(c, c + n);
    let st2 = LexState { cursor: c + n, ..st };
    let kind = if is_lower(l[c]) {
        TokenKind::IdLower
    } else {
        TokenKind::IdUpper
    };
    let token = match find_spelled(keywords(), id) {
        Some(k) if is_lower(l[c]) => plain_token(k, id, from, pos_at(st2, c + n)),
        _ => TokenView { kind, original: id, value: ValueView::Str(ascii_chars(id)), from, to: pos_at(st2, c + n) },
    };
    (Ok(token), st2)
}

/// A number at the cursor: digits, a point and digits make a float literal;
/// digits alone an integer literal, which must fit an `i32`.
pub open spec fn read_number(st: LexState) -> (Result<TokenView, LexErrView>, LexState) {
    let l = st.line.unwrap();
    let c = st.cursor;
    let from = pos_at(st, c);
    let d1 = choose|n: int| #[trigger] is_digit_run(l, c, n);
    let d2 = choose|n: int| #[trigger] is_digit_run(l, c + d1 + 1, n);
    match float_len(l, c, d1, d2) {
        Some(n) => {
            let text = l.subrange(c, c + n);
            let st2 = LexState { cursor: c + n, ..st };
            (
                Ok(TokenView {
                    kind: TokenKind::FloatLiteral,
                    original: text,
                    value: ValueView::Float(ascii_chars(text)),
                    from,
                    to: pos_at(st2, c + n),
                }),
                st2,
            )
        },
        None => {
            let text = l.subrange(c, c + d1);
            let st2 = LexState { cursor: c + d1, ..st };
            if decimal_value(text) <= i32::MAX {
                (
                    Ok(TokenView {
                        kind: TokenKind::IntLiteral,
                        original: text,
                        value: ValueView::Int(decimal_value(text) as i32),
                        from,
                        to: pos_at(st2, c + d1),
                    }),
                    st2,
                )
            } else {
                (Err(LexErrView::ParseIntError(from, int_overflow_message())), st2)
            }
        },
    }
}

/// A character literal at the cursor. Its token ends where it starts.
pub open spec fn read_char(st: LexState) -> (Result<TokenView, LexErrView>, LexState) {
    let l = st.line.unwrap();
    let c = st.cursor;
    let from = pos_at(st, c);
    let stop = choose|stop: Option<usize>| #[trigger] is_char_lit_stop(l, c, stop);
    match char_literal_outcome(l, c, stop) {
        Ok((ch, n)) => (
            Ok(TokenView {
                kind: TokenKind::CharLiteral,
                original: l.subrange(c, c + n),
                value: ValueView::Char(ch),
                from,
                to: from,
            }),
            LexState { cursor: c + n, ..st },
        ),
        Err(p) => (Err(LexErrView::InvalidCharLiteral(from, problem_message(p)@)), st),
    }
}

/// A string literal at the cursor: up to the first quote that does not
/// follow a backslash; it must not be empty, and its escapes must be valid.
/// The token's text is the body, without the quotes.
pub open spec fn read_string(st: LexState) -> (Result<TokenView, LexErrView>, LexState) {
    let l = st.line.unwrap();
    let c = st.cursor;
    let from = pos_at(st, c);
    let end = choose|end: Option<usize>| #[trigger] is_string_end(l, c, end);
    match end {
        None => (Err(LexErrView::InvalidStringLiteral(from, "unterminated string literal"@)), st),
        Some(j) => if j == 0 {
            (Err(LexErrView::InvalidStringLiteral(from, "empty string literal"@)), st)
        } else {
            let body = l.subrange(c + 1, c + 1 + j);
            match unescape_from(body, 0) {
                Ok(chars) => {
                    let st2 = LexState { cursor: c + j + 2, ..st };
                    (
                        Ok(TokenView {
                            kind: TokenKind::StringLiteral,
                            original: body,
                            value: ValueView::Str(chars),
                            from,
                            to: pos_at(st2, c + j + 2),
                        }),
                        st2,
                    )
                },
                Err(e) => (
                    Err(LexErrView::InvalidStringLiteral(pos_at(st, c + e + 1), "invalid escape sequence"@)),
                    st,
                ),
            }
        },
    }
}

/// A symbol at the cursor (multi-character ones first), or else an
/// unmatched stretch.
pub open spec fn read_symbol(st: LexState) -> (Result<TokenView, LexErrView>, LexState) {
    let l = st.line.unwrap();
    let c = st.cursor;
    let from = pos_at(st, c);
    match find_lexeme_at(multi_char_symbols(), l, c) {
        Some(k) => {
            let n = spelling(k).len() as int;
            (Ok(plain_token(k, spelling(k), from, pos_at(st, c + n))), LexState { cursor: c + n, ..st })
        },
        None => match find_lexeme_at(single_char_symbols(), l, c) {
            Some(k) => {
                let n = spelling(k).len() as int;
                (Ok(plain_token(k, spelling(k), from, pos_at(st, c + n))), LexState { cursor: c + n, ..st })
            },
            None => {
                let (t, st2) = unmatched_rest(st, Seq::empty(), from);
                (Ok(t), st2)
            },
        },
    }
}

/// What the lexer reads at the cursor of the current line (which holds a
/// non-whitespace byte there): the first token class that applies, in the
/// order comments, identifiers, numbers, character and string literals,
/// symbols; anything else is read as an unmatched stretch.
pub open spec fn read_token(st: LexState) -> (Result<TokenView, LexErrView>, LexState) {
    let l = st.line.unwrap();
    let c = st.cursor;
    let from = pos_at(st, c);
    if has_at(l, c, seq![0x28u8, 0x2au8]) {
        // "(*"
        comment_rest(LexState { nesting: st.nesting + 1, cursor: c + 2, ..st }, seq![0x28u8, 0x2au8], from)
    } else if has_at(l, c, seq![0x2du8, 0x2du8]) {
        // "--"
        (
            Ok(plain_token(TokenKind::COMMENT, l.subrange(c, l.len() as int), from, pos_at(st, l.len() as int))),
            next_line(st),
        )
    } else if is_lower(l[c]) || is_upper(l[c]) {
        read_ident(st)
    } else if is_digit(l[c]) {
        read_number(st)
    } else if l[c] == 0x27 {
        read_char(st)
    } else if l[c] == 0x22 {
        read_string(st)
    } else {
        read_symbol(st)
    }
}

/// One step of the lexer: the next token (`None` once the end of input was
/// reported), or the error that stops it.
pub open spec fn next_token_spec(st: LexState) -> (Result<Option<TokenView>, LexErrView>, LexState) {
    if st.done {
        (Ok(None), st)
    } else {
        let st1 = if st.line is None {
            next_line(st)
        } else {
            st
        };
        let st2 = eat_ws(st1);
        match st2.line {
            None => (
                Ok(Some(plain_token(TokenKind::EOF, Seq::empty(), pos_at(st2, st2.cursor), pos_at(st2, st2.cursor)))),
                LexState { done: true, ..st2 },
            ),
            Some(_) => {
                let (r, st3) = read_token(st2);
                match r {
                    Ok(t) => (Ok(Some(t)), st3),
                    Err(e) => (Err(e), st3),
                }
            },
        }
    }
}

/// The number of bytes in the lines of `lines` from `i` on.
pub open spec fn text_len_from(lines: Seq<Line>, i: int) -> nat
    decreases lines.len() - i,
{
    if i < 0 || i >= lines.len() {
        0
    } else {
        (match lines[i] {
            Line::Line { text, .. } => text@.len(),
            Line::ChangeFile(_) => 0,
        }) + text_len_from(lines, i + 1)
    }
}

/// The number of bytes not yet read.
pub open spec fn input_left(st: LexState) -> int {
    line_left(st) + text_len_from(st.lines, st.pos)
}

/// The scanner's lines are valid UTF-8, and each fits the machine.
pub open spec fn lines_ok(lines: Seq<Line>) -> bool {
    forall|i: int|
        #![trigger lines[i]]
        0 <= i < lines.len() ==> (lines[i] matches Line::Line { text, .. } ==> valid_utf8(text@) && text@.len()
            < usize::MAX)
}

/// The lexer's state is coherent: the cursor lies within the current line,
/// the text is valid UTF-8, and counts fit the machine.
pub open spec fn state_ok(st: LexState) -> bool {
    &&& 0 <= st.pos <= st.lines.len()
    &&& lines_ok(st.lines)
    &&& 0 <= st.cursor < usize::MAX
    &&& (st.line matches Some(l) ==> valid_utf8(l) && l.len() < usize::MAX && st.cursor <= l.len())
    &&& 0 <= st.nesting
    &&& st.nesting + input_left(st) < usize::MAX
}

/// Reading a line keeps the state coherent, does not add input, and (unless
/// the input is over) progresses.
pub proof fn lemma_next_line(st: LexState)
    requires
        state_ok(st),
    ensures
        state_ok(next_line(st)),
        input_left(next_line(st)) <= input_left(st),
        next_line(st).nesting == st.nesting,
        next_line(st).done == st.done,
        next_line(st).lines == st.lines,
        st.line is Some ==> lines_left(next_line(st)) < lines_left(st),
        lines_left(next_line(st)) <= lines_left(st),
    decreases st.lines.len() - st.pos,
{
    if st.pos >= st.lines.len() {
    } else {
        match st.lines[st.pos] {
            Line::Line { text, lineno } => {
                assert(lines_ok(st.lines));
                assert(valid_utf8(text@) && text@.len() < usize::MAX);
            },
            Line::ChangeFile(f) => {
                let st1 = LexState { pos: st.pos + 1, filename: f@, ..st };
                lemma_next_line(LexState { line: None, ..st1 });
                lemma_next_line_ignores_line(st1);
            },
        }
    }
}

/// Reading the next line does not depend on the current one.
proof fn lemma_next_line_ignores_line(st: LexState)
    ensures
        next_line(st) == next_line(LexState { line: None, ..st }) || (next_line(st).line is None
            && next_line(LexState { line: None, ..st }).line is None && next_line(st) == LexState {
            line: None,
            ..next_line(LexState { line: None, ..st })
        }),
    decreases st.lines.len() - st.pos,
{
    if 0 <= st.pos < st.lines.len() {
        match st.lines[st.pos] {
            Line::Line { .. } => {},
            Line::ChangeFile(f) => {
                lemma_next_line_ignores_line(LexState { pos: st.pos + 1, filename: f@, ..st });
            },
        }
    }
}

proof fn lemma_first_non_ws(l: Seq<u8>, i: int, r: Option<usize>)
    requires
        0 <= i <= l.len(),
        is_first_such(l, i, r, |c: u8| !is_ws(c)),
    ensures
        first_non_ws_from(l, i) == (match r {
            Some(k) => k as int,
            None => l.len() as int,
        }),
    decreases l.len() - i,
{
    if i < l.len() && is_ws(l[i]) {
        lemma_first_non_ws(l, i + 1, r);
    }
}

proof fn lemma_first_ws(l: Seq<u8>, i: int, r: Option<usize>)
    requires
        0 <= i <= l.len(),
        is_first_such(l, i, r, |c: u8| is_ws(c)),
    ensures
        first_ws_from(l, i) == (match r {
            Some(k) => k as int,
            None => l.len() as int,
        }),
    decreases l.len() - i,
{
    if i < l.len() && !is_ws(l[i]) {
        lemma_first_ws(l, i + 1, r);
    }
}

/// Skipping whitespace keeps the state coherent and stops on a
/// non-whitespace byte (or at the end of input).
pub proof fn lemma_eat_ws(st: LexState)
    requires
        state_ok(st),
    ensures
        state_ok(eat_ws(st)),
        input_left(eat_ws(st)) <= input_left(st),
        eat_ws(st).nesting == st.nesting,
        eat_ws(st).done == st.done,
        eat_ws(st).lines == st.lines,
        eat_ws(st).line matches Some(l) ==> eat_ws(st).cursor < l.len() && !is_ws(l[eat_ws(st).cursor]),
    decreases lines_left(st),
{
    lemma_next_line(st);
    match st.line {
        None => {},
        Some(l) => {
            if st.cursor >= l.len() {
                lemma_eat_ws(next_line(st));
            } else {
                let k = first_non_ws_from(l, st.cursor);
                lemma_first_non_ws_bounds(l, st.cursor);
                if k < l.len() {
                } else {
                    lemma_eat_ws(next_line(st));
                }
            }
        },
    }
}

proof fn lemma_first_non_ws_bounds(l: Seq<u8>, i: int)
    requires
        0 <= i <= l.len(),
    ensures
        i <= first_non_ws_from(l, i) <= l.len(),
        first_non_ws_from(l, i) < l.len() ==> !is_ws(l[first_non_ws_from(l, i)]),
    decreases l.len() - i,
{
    if i < l.len() && is_ws(l[i]) {
        lemma_first_non_ws_bounds(l, i + 1);
    }
}

proof fn lemma_first_ws_bounds(l: Seq<u8>, i: int)
    requires
        0 <= i <= l.len(),
    ensures
        i <= first_ws_from(l, i) <= l.len(),
        first_ws_from(l, i) < l.len() ==> is_ws(l[first_ws_from(l, i)]),
    decreases l.len() - i,
{
    if i < l.len() && !is_ws(l[i]) {
        lemma_first_ws_bounds(l, i + 1);
    }
}

/// What a lexing result stands for.
pub open spec fn token_result_view(r: LexResult<Token>) -> Result<TokenView, LexErrView> {
    match r {
        Ok(t) => Ok(t@),
        Err(e) => Err(e@),
    }
}

/// What a lexing step's result stands for.
pub open spec fn step_result_view(r: LexResult<Option<Token>>) -> Result<Option<TokenView>, LexErrView> {
    match r {
        Ok(Some(t)) => Ok(Some(t@)),
        Ok(None) => Ok(None),
        Err(e) => Err(e@),
    }
}

/// Turns the lines that the scanner hands on into tokens.
pub struct Lexer {
    scanner: Vec<Line>,
    next_idx: usize,
    exit_on_error: bool,
    cursor: usize,
    cur_lineno: usize,
    cur_filename: String,
    cur_line: Option<Vec<u8>>,
    comment_nesting: usize,
    is_done: bool,
}

impl Lexer {
    /// The lexer's state as a value.
    pub closed spec fn state(&self) -> LexState {
        LexState {
            lines: self.scanner@,
            pos: self.next_idx as int,
            line: match self.cur_line {
                Some(v) => Some(v@),
                None => None,
            },
            cursor: self.cursor as int,
            lineno: self.cur_lineno,
            filename: self.cur_filename@,
            nesting: self.comment_nesting as int,
            done: self.is_done,
        }
    }

    /// Whether the lexer stops the program on an error (rather than going
    /// on); the lexer only records the choice.
    pub closed spec fn exits_on_error(&self) -> bool {
        self.exit_on_error
    }

    pub open spec fn wf(&self) -> bool {
        state_ok(self.state())
    }

    /// A lexer over what the scanner hands on, which must be valid UTF-8
    /// text that fits the machine.
    pub fn new(scanner: Vec<Line>) -> (r: Self)
        requires
            lines_ok(scanner@),
            text_len_from(scanner@, 0) < usize::MAX,
        ensures
            r.wf(),
            r.exits_on_error(),
            r.state() == (LexState {
                lines: scanner@,
                pos: 0,
                line: None,
                cursor: 0,
                lineno: 0,
                filename: Seq::empty(),
                nesting: 0,
                done: false,
            }),
    {
        Lexer {
            scanner,
            next_idx: 0,
            exit_on_error: true,
            cursor: 0,
            cur_lineno: 0,
            cur_filename: String::new(),
            cur_line: None,
            comment_nesting: 0,
            is_done: false,
        }
    }

    fn next_line(&mut self)
        requires
            old(self).wf(),
        ensures
            final(self).wf(),
            final(self).state() == next_line(old(self).state()),
            final(self).exit_on_error == old(self).exit_on_error,
    {
        proof {
            lemma_next_line(self.state());
        }
        let ghost target = next_line(self.state());
        loop
            invariant
                next_line(self.state()) == target,
                0 <= self.next_idx <= self.scanner@.len(),
                self.exit_on_error == old(self).exit_on_error,
                target == next_line(old(self).state()),
                state_ok(target),
            decreases self.scanner@.len() - self.next_idx,
        {
            if self.next_idx >= self.scanner.len() {
                self.cur_line = None;
                return;
            }
            let idx = self.next_idx;
            self.next_idx = idx + 1;
            match &self.scanner[idx] {
                Line::Line { text, lineno } => {
                    let t = copy_range(text.as_slice(), 0, text.len());
                    proof {
                        assert(t@ =~= text@);
                    }
                    self.cur_line = Some(t);
                    self.cur_lineno = *lineno;
                    self.cursor = 0;
                    return;
                },
                Line::ChangeFile(f) => {
                    self.cur_filename = f.clone();
                    proof {
                        lemma_next_line_ignores_line(self.state());
                    }
                },
            }
        }
    }

    fn make_position(&self, cursor: usize) -> (r: Position)
        requires
            cursor < usize::MAX,
        ensures
            r@ == pos_at(self.state(), cursor as int),
    {
        Position::new(self.cur_lineno, cursor + 1, self.cur_filename.clone())
    }

    fn eat_whitespace(&mut self)
        requires
            old(self).wf(),
        ensures
            final(self).wf(),
            final(self).state() == eat_ws(old(self).state()),
            final(self).exit_on_error == old(self).exit_on_error,
    {
        loop
            invariant
                self.wf(),
                eat_ws(self.state()) == eat_ws(old(self).state()),
                self.exit_on_error == old(self).exit_on_error,
            decreases lines_left(self.state()),
        {
            proof {
                lemma_next_line(self.state());
            }
            let found = match &self.cur_line {
                None => {
                    return;
                },
                Some(line) => {
                    if self.cursor >= line.len() {
                        None
                    } else {
                        let r = first_non_whitespace(line.as_slice(), self.cursor);
                        proof {
                            lemma_first_non_ws(line@, self.cursor as int, r);
                        }
                        r
                    }
                },
            };
            match found {
                Some(i) => {
                    self.cursor = i;
                    return;
                },
                None => {
                    self.next_line();
                },
            }
        }
    }

    /// Reads the rest of a comment whose opening was already consumed.
    fn comment_rest(&mut self, contents: Vec<u8>, from: Position) -> (r: LexResult<Token>)
        requires
            old(self).wf(),
            old(self).state().nesting > 0,
        ensures
            final(self).wf(),
            (token_result_view(r), final(self).state()) == comment_rest(old(self).state(), contents@, from@),
            final(self).exit_on_error == old(self).exit_on_error,
        decreases lines_left(old(self).state()), line_left(old(self).state()),
    {
        let ghost st = self.state();
        proof {
            lemma_next_line(st);
        }
        let step = match &self.cur_line {
            None => {
                return Err(LexErr::UnterminatedComment(from));
            },
            Some(line) => {
                if self.cursor >= line.len() {
                    None
                } else {
                    let k = find_comment_delim(line.as_slice(), self.cursor);
                    proof {
                        lemma_first_comment_delim(line@, self.cursor as int);
                    }
                    if k < line.len() {
                        let piece = copy_range(line.as_slice(), self.cursor, k + 2);
                        Some((Some(k), line[k] == 0x2a, piece))
                    } else {
                        let piece = copy_range(line.as_slice(), self.cursor, line.len());
                        Some((None, false, piece))
                    }
                }
            },
        };
        match step {
            None => {
                self.next_line();
                self.comment_rest(contents, from)
            },
            Some((Some(k), closes, piece)) => {
                let mut contents = contents;
                let mut piece = piece;
                contents.append(&mut piece);
                if closes {
                    self.comment_nesting = self.comment_nesting - 1;
                    self.cursor = k + 2;
                    if self.comment_nesting == 0 {
                        let to = self.make_position(self.cursor);
                        return Ok(Token::new(TokenKind::COMMENT, contents, from, to));
                    }
                    self.comment_rest(contents, from)
                } else {
                    self.comment_nesting = self.comment_nesting + 1;
                    self.cursor = k + 2;
                    self.comment_rest(contents, from)
                }
            },
            Some((None, _, piece)) => {
                let mut contents = contents;
                let mut piece = piece;
                contents.append(&mut piece);
                self.next_line();
                self.comment_rest(contents, from)
            },
        }
    }

    /// Reads the rest of an unmatched stretch: up to the next whitespace,
    /// across lines when a line holds none.
    fn unmatched_rest(&mut self, original: Vec<u8>, from: Position) -> (r: Token)
        requires
            old(self).wf(),
        ensures
            final(self).wf(),
            (r@, final(self).state()) == unmatched_rest(old(self).state(), original@, from@),
            final(self).exit_on_error == old(self).exit_on_error,
        decreases lines_left(old(self).state()),
    {
        let ghost st = self.state();
        proof {
            lemma_next_line(st);
        }
        let step = match &self.cur_line {
            None => {
                let to = self.make_position(self.cursor);
                return Token::new(TokenKind::UNMATCHED, original, from, to);
            },
            Some(line) => {
                let start = if self.cursor <= line.len() {
                    self.cursor
                } else {
                    line.len()
                };
                let r = first_whitespace(line.as_slice(), start);
                proof {
                    lemma_first_ws(line@, start as int, r);
                }
                match r {
                    Some(k) => (Some(k), copy_range(line.as_slice(), start, k), line.len()),
                    None => (None, copy_range(line.as_slice(), start, line.len()), line.len()),
                }
            },
        };
        let (found, piece, line_len) = step;
        let mut original = original;
        let mut piece = piece;
        original.append(&mut piece);
        match found {
            Some(k) => {
                self.cursor = k;
                let to = self.make_position(k);
                Token::new(TokenKind::UNMATCHED, original, from, to)
            },
            None => {
                self.next_line();
                if self.cur_line.is_none() {
                    let to = Position::new(self.cur_lineno, line_len, self.cur_filename.clone());
                    Token::new(TokenKind::UNMATCHED, original, from, to)
                } else {
                    self.unmatched_rest(original, from)
                }
            },
        }
    }

    /// A token made of the `n` bytes at the cursor, which becomes `c + n`.
    fn take_plain(&mut self, kind: TokenKind, n: usize, from: Position) -> (r: Token)
        requires
            old(self).wf(),
            old(self).state().line matches Some(l) && old(self).cursor + n <= l.len(),
        ensures
            final(self).wf(),
            final(self).exit_on_error == old(self).exit_on_error,
            final(self).state() == (LexState { cursor: old(self).cursor + n, ..old(self).state() }),
            r@ == plain_token(
                kind,
                old(self).state().line.unwrap().subrange(old(self).cursor as int, old(self).cursor + n),
                from@,
                pos_at(old(self).state(), old(self).cursor + n),
            ),
    {
        let c = self.cursor;
        let original = match &self.cur_line {
            Some(line) => copy_range(line.as_slice(), c, c + n),
            None => Vec::new(),
        };
        self.cursor = c + n;
        let to = self.make_position(c + n);
        Token::new(kind, original, from, to)
    }

    /// Reads the token at the cursor, which holds a non-whitespace byte.
    fn read_token(&mut self) -> (r: LexResult<Token>)
        requires
            old(self).wf(),
            old(self).state().line matches Some(l) && old(self).cursor < l.len(),
        ensures
            final(self).wf(),
            final(self).exit_on_error == old(self).exit_on_error,
            (token_result_view(r), final(self).state()) == read_token(old(self).state()),
    {
        let ghost st = self.state();
        let ghost l = st.line.unwrap();
        let c = self.cursor;
        let from = self.make_position(c);
        let line: Vec<u8> = match &self.cur_line {
            Some(line) => copy_range(line.as_slice(), 0, line.len()),
            None => Vec::new(),
        };
        proof {
            assert(line@ =~= l);
        }
        let line = line.as_slice();
        // "(*"
        if starts_with_at(line, c, &[0x28u8, 0x2a]) {
            proof {
                assert(seq![0x28u8, 0x2au8] =~= (&[0x28u8, 0x2a])@);
            }
            self.comment_nesting = self.comment_nesting + 1;
            self.cursor = c + 2;
            return self.comment_rest(vec![0x28u8, 0x2a], from);
        }
        proof {
            assert(seq![0x28u8, 0x2au8] =~= (&[0x28u8, 0x2a])@);
        }
        // "--"
        if starts_with_at(line, c, &[0x2du8, 0x2d]) {
            proof {
                assert(seq![0x2du8, 0x2du8] =~= (&[0x2du8, 0x2d])@);
            }
            let original = copy_range(line, c, line.len());
            let to = self.make_position(line.len());
            let token = Token::new(TokenKind::COMMENT, original, from, to);
            self.next_line();
            return Ok(token);
        }
        proof {
            assert(seq![0x2du8, 0x2du8] =~= (&[0x2du8, 0x2d])@);
        }
        let b = line[c];
        if (0x61 <= b && b <= 0x7a) || (0x41 <= b && b <= 0x5a) {
            return self.read_ident(line, from);
        }
        if 0x30 <= b && b <= 0x39 {
            return self.read_number(line, from);
        }
        if b == 0x27 {
            return self.read_char(line, from);
        }
        if b == 0x22 {
            return self.read_string(line, from);
        }
        self.read_symbol(line, from)
    }

    fn read_ident(&mut self, line: &[u8], from: Position) -> (r: LexResult<Token>)
        requires
            old(self).wf(),
            old(self).state().line == Some(line@),
            old(self).cursor < line@.len(),
            from@ == pos_at(old(self).state(), old(self).cursor as int),
            is_lower(line@[old(self).cursor as int]) || is_upper(line@[old(self).cursor as int]),
        ensures
            final(self).wf(),
            final(self).exit_on_error == old(self).exit_on_error,
            (token_result_view(r), final(self).state()) == read_ident(old(self).state()),
    {
        let ghost st = self.state();
        let ghost l = line@;
        let c = self.cursor;
        let b = line[c];
        let n = 1 + count_ident_chars(line, c + 1);
        proof {
            lemma_ident_run_unique(l, c + 1, n - 1, choose|m: int| #[trigger] is_ident_run(l, c + 1, m));
        }
        let id = copy_range(line, c, c + n);
        self.cursor = c + n;
        let to = self.make_position(c + n);
        if 0x61 <= b && b <= 0x7a {
            if let Some(k) = reserved_word_from_id(id.as_slice()) {
                return Ok(Token::new(k, id, from, to));
            }
        }
        proof {
            assert(is_ascii_bytes(id@));
        }
        let value = ascii_to_string(copy_range(id.as_slice(), 0, id.len()));
        proof {
            assert(id@.subrange(0, id@.len() as int) =~= id@);
        }
        let kind = if 0x61 <= b && b <= 0x7a {
            TokenKind::IdLower
        } else {
            TokenKind::IdUpper
        };
        return Ok(Token::new_with_value(kind, id, TokenValue::String(value), from, to));
    }

    fn read_number(&mut self, line: &[u8], from: Position) -> (r: LexResult<Token>)
        requires
            old(self).wf(),
            old(self).state().line == Some(line@),
            old(self).cursor < line@.len(),
            from@ == pos_at(old(self).state(), old(self).cursor as int),
            is_digit(line@[old(self).cursor as int]),
        ensures
            final(self).wf(),
            final(self).exit_on_error == old(self).exit_on_error,
            (token_result_view(r), final(self).state()) == read_number(old(self).state()),
    {
        let ghost st = self.state();
        let ghost l = line@;
        let c = self.cursor;
        let d1 = count_digits(line, c);
        proof {
            lemma_digit_run_unique(l, c as int, d1 as int, choose|m: int| #[trigger] is_digit_run(l, c as int, m));
        }
        if c + d1 < line.len() && line[c + d1] == 0x2e {
            let d2 = count_digits(line, c + d1 + 1);
            proof {
                lemma_digit_run_unique(
                    l,
                    c + d1 + 1,
                    d2 as int,
                    choose|m: int| #[trigger] is_digit_run(l, c + d1 + 1, m),
                );
            }
            if d2 > 0 {
                let n = d1 + 1 + d2;
                let text = copy_range(line, c, c + n);
                proof {
                    assert forall|j: int| 0 <= j < text@.len() implies #[trigger] text@[j] < 0x80 by {
                        if j < d1 {
                            assert(is_digit(l[c + j]));
                        } else if j > d1 {
                            assert(is_digit(l[c + d1 + 1 + (j - d1 - 1)]));
                        }
                    }
                }
                let value = ascii_to_string(copy_range(text.as_slice(), 0, text.len()));
                proof {
                    assert(text@.subrange(0, text@.len() as int) =~= text@);
                }
                self.cursor = c + n;
                let to = self.make_position(c + n);
                return Ok(Token::new_with_value(TokenKind::FloatLiteral, text, TokenValue::Float(value), from, to));
            }
        }
        let text = copy_range(line, c, c + d1);
        self.cursor = c + d1;
        let to = self.make_position(c + d1);
        return match parse_decimal_i32(text.as_slice()) {
            Some(v) => Ok(Token::new_with_value(TokenKind::IntLiteral, text, TokenValue::Int(v), from, to)),
            None => Err(LexErr::ParseIntError(from, "number too large to fit in target type".to_owned())),
        };
    }

    fn read_char(&mut self, line: &[u8], from: Position) -> (r: LexResult<Token>)
        requires
            old(self).wf(),
            old(self).state().line == Some(line@),
            old(self).cursor < line@.len(),
            from@ == pos_at(old(self).state(), old(self).cursor as int),
            line@[old(self).cursor as int] == 0x27,
        ensures
            final(self).wf(),
            final(self).exit_on_error == old(self).exit_on_error,
            (token_result_view(r), final(self).state()) == read_char(old(self).state()),
    {
        let ghost st = self.state();
        let ghost l = line@;
        let c = self.cursor;
        let res = scan_char_literal(line, c);
        proof {
            let w = choose|stop: Option<usize>| #[trigger] is_char_lit_stop(l, c as int, stop) && (match res {
                Ok((ch, n)) => char_literal_outcome(l, c as int, stop) == Ok::<(u8, int), CharLitProblem>((ch, n as int)),
                Err(p) => char_literal_outcome(l, c as int, stop) == Err::<(u8, int), CharLitProblem>(p),
            });
            let s2 = choose|stop: Option<usize>| #[trigger] is_char_lit_stop(l, c as int, stop);
            lemma_char_lit_stop_unique(l, c as int, w, s2);
        }
        match res {
            Ok((ch, n)) => {
                let original = copy_range(line, c, c + n);
                self.cursor = c + n;
                let to = from.clone();
                Ok(Token::new_with_value(TokenKind::CharLiteral, original, TokenValue::Char(ch), from, to))
            },
            Err(p) => Err(LexErr::InvalidCharLiteral(from, p.message())),
        }
    }

    fn read_string(&mut self, line: &[u8], from: Position) -> (r: LexResult<Token>)
        requires
            old(self).wf(),
            old(self).state().line == Some(line@),
            old(self).cursor < line@.len(),
            from@ == pos_at(old(self).state(), old(self).cursor as int),
            line@[old(self).cursor as int] == 0x22,
        ensures
            final(self).wf(),
            final(self).exit_on_error == old(self).exit_on_error,
            (token_result_view(r), final(self).state()) == read_string(old(self).state()),
    {
        let ghost st = self.state();
        let ghost l = line@;
        let c = self.cursor;
        let end = find_string_end(line, c);
        proof {
            let e2 = choose|e: Option<usize>| #[trigger] is_string_end(l, c as int, e);
            lemma_string_end_unique(l, c as int, end, e2);
        }
        return match end {
            None => Err(LexErr::InvalidStringLiteral(from, "unterminated string literal")),
            Some(j) => {
                if j == 0 {
                    Err(LexErr::InvalidStringLiteral(from, "empty string literal"))
                } else {
                    let body = copy_range(line, c + 1, c + 1 + j);
                    proof {
                        crate::text::lemma_after_ascii_not_continuation(l, c as int);
                        crate::text::lemma_valid_segment(l, c + 1, c + 1 + j);
                    }
                    match parse_string_escape_seqs(body.as_slice()) {
                        Ok(value) => {
                            self.cursor = c + j + 2;
                            let to = self.make_position(c + j + 2);
                            Ok(Token::new_with_value(
                                TokenKind::StringLiteral,
                                body,
                                TokenValue::String(value),
                                from,
                                to,
                            ))
                        },
                        Err(e) => {
                            proof {
                                lemma_unescape_error_bound(body@, 0);
                            }
                            let at = self.make_position(c + e + 1);
                            Err(LexErr::InvalidStringLiteral(at, "invalid escape sequence"))
                        },
                    }
                }
            },
        };
    }

    fn read_symbol(&mut self, line: &[u8], from: Position) -> (r: LexResult<Token>)
        requires
            old(self).wf(),
            old(self).state().line == Some(line@),
            old(self).cursor < line@.len(),
            from@ == pos_at(old(self).state(), old(self).cursor as int),
        ensures
            final(self).wf(),
            final(self).exit_on_error == old(self).exit_on_error,
            (token_result_view(r), final(self).state()) == read_symbol(old(self).state()),
    {
        let ghost st = self.state();
        let ghost l = line@;
        let c = self.cursor;
        let multi = multi_char_symbol_kinds();
        if let Some(k) = match_lexeme_at(line, c, &multi) {
            proof {
                lemma_find_lexeme_fits(multi_char_symbols(), l, c as int);
            }
            let n = k.spelling_bytes().len();
            return Ok(self.take_plain(k, n, from));
        }
        let single = single_char_symbol_kinds();
        if let Some(k) = match_lexeme_at(line, c, &single) {
            proof {
                lemma_find_lexeme_fits(single_char_symbols(), l, c as int);
            }
            let n = k.spelling_bytes().len();
            return Ok(self.take_plain(k, n, from));
        }
        Ok(self.unmatched_rest(Vec::new(), from))
    }
    /// Reads the next token; `None` once the end of input was reported.
    pub fn next_token(&mut self) -> (r: LexResult<Option<Token>>)
        requires
            old(self).wf(),
        ensures
            final(self).wf(),
            final(self).exits_on_error() == old(self).exits_on_error(),
            (step_result_view(r), final(self).state()) == next_token_spec(old(self).state()),
    {
        if self.is_done {
            return Ok(None);
        }
        if self.cur_line.is_none() {
            self.next_line();
        }
        proof {
            lemma_eat_ws(self.state());
        }
        self.eat_whitespace();
        if self.cur_line.is_none() {
            let from = self.make_position(self.cursor);
            let to = self.make_position(self.cursor);
            self.is_done = true;
            return Ok(Some(Token::new(TokenKind::EOF, Vec::new(), from, to)));
        }
        match self.read_token() {
            Ok(t) => Ok(Some(t)),
            Err(e) => Err(e),
        }
    }
}

/// The first lexeme found at a position fits the line there.
proof fn lemma_find_lexeme_fits(ks: Seq<TokenKind>, l: Seq<u8>, at: int)
    ensures
        find_lexeme_at(ks, l, at) matches Some(k) ==> has_at(l, at, spelling(k)),
    decreases ks.len(),
{
    if ks.len() > 0 && !has_at(l, at, spelling(ks[0])) {
        lemma_find_lexeme_fits(ks.drop_first(), l, at);
    }
}

/// An invalid escape lies inside the string body.
proof fn lemma_unescape_error_bound(s: Seq<u8>, idx: int)
    requires
        0 <= idx <= s.len(),
    ensures
        unescape_from(s, idx) matches Err(e) ==> idx <= e < s.len(),
    decreases s.len() - idx,
{
    let k = first_from(s, idx, 0x5c);
    crate::lex::rules::lemma_first_from_bounds(s, idx, 0x5c);
    if k < s.len() {
        if k + 2 <= s.len() {
            lemma_unescape_error_bound(s, k + 2);
        }
        if k + 4 <= s.len() {
            lemma_unescape_error_bound(s, k + 4);
        }
    }
}

proof fn lemma_text_len_from_mono(lines: Seq<Line>, i: int, j: int)
    requires
        0 <= i <= j,
    ensures
        text_len_from(lines, i) >= text_len_from(lines, j),
    decreases j - i,
{
    if i < j {
        lemma_text_len_from_mono(lines, i + 1, j);
    }
}

impl Lexer {
    /// Whether a lexer can be made over these lines: they are valid UTF-8
    /// and, all together, fit the machine.
    pub fn accepts(lines: &Vec<Line>) -> (r: bool)
        ensures
            r == (lines_ok(lines@) && text_len_from(lines@, 0) < usize::MAX),
    {
        let mut i = lines.len();
        let mut total: usize = 0;
        while i > 0
            invariant
                i <= lines.len(),
                total == text_len_from(lines@, i as int),
                total < usize::MAX,
                forall|k: int| i <= k < lines.len() ==> (#[trigger] lines@[k] matches Line::Line { text, .. } ==> valid_utf8(text@)
                    && text@.len() < usize::MAX),
            decreases i,
        {
            i -= 1;
            match &lines[i] {
                Line::Line { text, .. } => {
                    if crate::text::string_from_utf8(text.clone()).is_none() {
                        return false;
                    }
                    if text.len() >= usize::MAX - total {
                        proof {
                            lemma_text_len_from_mono(lines@, 0, i as int);
                        }
                        return false;
                    }
                    total = total + text.len();
                },
                Line::ChangeFile(_) => {},
            }
        }
        true
    }

    /// Sets whether the lexer stops the program on an error.
    pub fn set_exit_on_error(&mut self, exit_on_error: bool)
        ensures
            final(self).state() == old(self).state(),
            final(self).exits_on_error() == exit_on_error,
    {
        self.exit_on_error = exit_on_error;
    }
}

/// What can be turned into a lexer.
pub trait IntoLexer: Sized {
    /// Whether the lexer can be made.
    spec fn lexable(&self) -> bool;

    fn into_lexer(self, exit_on_error: bool) -> (r: Lexer)
        requires
            self.lexable(),
    ;
}

impl IntoLexer for Vec<Line> {
    open spec fn lexable(&self) -> bool {
        lines_ok(self@) && text_len_from(self@, 0) < usize::MAX
    }

    /// The lexer over these lines, stopping or not on errors as asked.
    fn into_lexer(self, exit_on_error: bool) -> (r: Lexer)
        ensures
            r.wf(),
            r.exits_on_error() == exit_on_error,
            r.state() == (LexState {
                lines: self@,
                pos: 0,
                line: None,
                cursor: 0,
                lineno: 0,
                filename: Seq::empty(),
                nesting: 0,
                done: false,
            }),
    {
        let mut lexer = Lexer::new(self);
        lexer.set_exit_on_error(exit_on_error);
        lexer
    }
}

/// Once the lexer has reported the end of its input it hands out nothing
/// more, and stays as it is.
pub proof fn law_lexer_stays_done(st: LexState)
    requires
        st.done,
    ensures
        next_token_spec(st) == (Ok::<Option<TokenView>, LexErrView>(None), st),
{
}

/// The end of the input is reported exactly once: the step that reports it
/// leaves the lexer done.
pub proof fn law_end_reported_once(st: LexState)
    requires
        !st.done,
        ({
            let st1 = if st.line is None { next_line(st) } else { st };
            eat_ws(st1).line is None
        }),
    ensures
        next_token_spec(st).0 matches Ok(Some(t)) && t.kind == TokenKind::EOF,
        next_token_spec(st).1.done,
        next_token_spec(next_token_spec(st).1).0 == Ok::<Option<TokenView>, LexErrView>(None),
{
}

} // verus!
