use vstd::prelude::*;
use vstd::utf8::{valid_utf8, decode_utf8};
use crate::lex::token::{TokenKind, spelling, keywords, multi_char_symbols, single_char_symbols};
use crate::text::{is_ascii_bytes, string_from_utf8, string_push, string_push_str};

verus! {

// Character classes (ASCII only, as `u8::is_ascii_*` define them).

pub open spec fn is_ws(c: u8) -> bool {
    c == 0x20 || c == 0x09 || c == 0x0a || c == 0x0c || c == 0x0d
}

pub open spec fn is_digit(c: u8) -> bool {
    0x30 <= c <= 0x39
}

pub open spec fn is_lower(c: u8) -> bool {
    0x61 <= c <= 0x7a
}

pub open spec fn is_upper(c: u8) -> bool {
    0x41 <= c <= 0x5a
}

pub open spec fn is_hexdigit(c: u8) -> bool {
    is_digit(c) || (0x61 <= c <= 0x66) || (0x41 <= c <= 0x46)
}

/// Letters, digits and `_`: the bytes that may continue an identifier.
pub open spec fn is_ident_char(c: u8) -> bool {
    is_digit(c) || is_lower(c) || is_upper(c) || c == 0x5f
}

/// `n` bytes of `line` from `start` on are digits, and the byte after them
/// (if any) is not: `n` is the length of the digit run at `start`.
pub open spec fn is_digit_run(line: Seq<u8>, start: int, n: int) -> bool {
    &&& 0 <= start <= start + n <= line.len()
    &&& forall|j: int| start <= j < start + n ==> is_digit(#[trigger] line[j])
    &&& (start + n == line.len() || !is_digit(line[start + n]))
}

/// Same as `is_digit_run`, for identifier bytes.
pub open spec fn is_ident_run(line: Seq<u8>, start: int, n: int) -> bool {
    &&& 0 <= start <= start + n <= line.len()
    &&& forall|j: int| start <= j < start + n ==> is_ident_char(#[trigger] line[j])
    &&& (start + n == line.len() || !is_ident_char(line[start + n]))
}

/// Whether `line` holds `word` at `at`.
pub open spec fn has_at(line: Seq<u8>, at: int, word: Seq<u8>) -> bool {
    0 <= at && at + word.len() <= line.len() && line.subrange(at, at + word.len() as int) == word
}

/// The numeric value of a string of decimal digits.
pub open spec fn decimal_value(s: Seq<u8>) -> nat
    decreases s.len(),
{
    if s.len() == 0 {
        0
    } else {
        10 * decimal_value(s.drop_last()) + (s.last() - 0x30) as nat
    }
}

/// The escape sequences of one character after a backslash.
pub open spec fn single_char_escape(c: u8) -> Option<u8> {
    if c == 0x6e {
        Some(0x0a)
    } else if c == 0x72 {
        Some(0x0d)
    } else if c == 0x74 {
        Some(0x09)
    } else if c == 0x27 {
        Some(0x27)
    } else if c == 0x22 {
        Some(0x22)
    } else if c == 0x5c {
        Some(0x5c)
    } else {
        None
    }
}

/// The escape `\x` followed by two characters: both must be hexadecimal
/// digits, and the pair is then read as a *decimal* `u8` (so only pairs of
/// decimal digits give a value).
pub open spec fn two_digit_escape(c1: u8, c2: u8) -> Option<u8> {
    if is_hexdigit(c1) && is_hexdigit(c2) && is_digit(c1) && is_digit(c2) {
        Some(((c1 - 0x30) * 10 + (c2 - 0x30)) as u8)
    } else {
        None
    }
}

/// The first keyword in `ks` that is spelled `id`.
pub open spec fn find_spelled(ks: Seq<TokenKind>, id: Seq<u8>) -> Option<TokenKind>
    decreases ks.len(),
{
    if ks.len() == 0 {
        None
    } else if spelling(ks[0]) == id {
        Some(ks[0])
    } else {
        find_spelled(ks.drop_first(), id)
    }
}

/// The first lexeme in `ks` whose spelling `line` holds at `at`.
pub open spec fn find_lexeme_at(ks: Seq<TokenKind>, line: Seq<u8>, at: int) -> Option<TokenKind>
    decreases ks.len(),
{
    if ks.len() == 0 {
        None
    } else if has_at(line, at, spelling(ks[0])) {
        Some(ks[0])
    } else {
        find_lexeme_at(ks.drop_first(), line, at)
    }
}

/// The first position at or after `from` that satisfies `p`, if any.
pub open spec fn is_first_such(line: Seq<u8>, from: int, r: Option<usize>, p: spec_fn(u8) -> bool) -> bool {
    match r {
        Some(k) => from <= k < line.len() && p(line[k as int]) && forall|j: int| from <= j < k ==> !p(#[trigger] line[j]),
        None => forall|j: int| from <= j < line.len() ==> !p(#[trigger] line[j]),
    }
}

/// Length of the digit run of `line` at `start`.
pub fn count_digits(line: &[u8], start: usize) -> (r: usize)
    requires
        start <= line@.len(),
    ensures
        is_digit_run(line@, start as int, r as int),
{
    let mut i = start;
    while i < line.len() && 0x30 <= line[i] && line[i] <= 0x39
        invariant
            start <= i <= line@.len(),
            forall|j: int| start <= j < i ==> is_digit(#[trigger] line@[j]),
        decreases line@.len() - i,
    {
        i = i + 1;
    }
    i - start
}

/// Length of the identifier-byte run of `line` at `start`.
pub fn count_ident_chars(line: &[u8], start: usize) -> (r: usize)
    requires
        start <= line@.len(),
    ensures
        is_ident_run(line@, start as int, r as int),
{
    let mut i = start;
    while i < line.len() && is_ident_byte(line[i])
        invariant
            start <= i <= line@.len(),
            forall|j: int| start <= j < i ==> is_ident_char(#[trigger] line@[j]),
        decreases line@.len() - i,
    {
        i = i + 1;
    }
    i - start
}

pub fn is_ident_byte(c: u8) -> (r: bool)
    ensures
        r == is_ident_char(c),
{
    (0x30 <= c && c <= 0x39) || (0x61 <= c && c <= 0x7a) || (0x41 <= c && c <= 0x5a) || c == 0x5f
}

pub fn is_ws_byte(c: u8) -> (r: bool)
    ensures
        r == is_ws(c),
{
    c == 0x20 || c == 0x09 || c == 0x0a || c == 0x0c || c == 0x0d
}

/// The first non-whitespace position of `line` at or after `from`.
pub fn first_non_whitespace(line: &[u8], from: usize) -> (r: Option<usize>)
    ensures
        is_first_such(line@, from as int, r, |c: u8| !is_ws(c)),
{
    let mut i = from;
    while i < line.len()
        invariant
            from <= i,
            forall|j: int| from <= j < i && j < line@.len() ==> is_ws(#[trigger] line@[j]),
        decreases line@.len() - i,
    {
        if !is_ws_byte(line[i]) {
            return Some(i);
        }
        i = i + 1;
    }
    None
}

/// The first whitespace position of `line` at or after `from`.
pub fn first_whitespace(line: &[u8], from: usize) -> (r: Option<usize>)
    ensures
        is_first_such(line@, from as int, r, |c: u8| is_ws(c)),
{
    let mut i = from;
    while i < line.len()
        invariant
            from <= i,
            forall|j: int| from <= j < i && j < line@.len() ==> !is_ws(#[trigger] line@[j]),
        decreases line@.len() - i,
    {
        if is_ws_byte(line[i]) {
            return Some(i);
        }
        i = i + 1;
    }
    None
}

/// Whether `line` holds `word` at `at`.
pub fn starts_with_at(line: &[u8], at: usize, word: &[u8]) -> (r: bool)
    ensures
        r == has_at(line@, at as int, word@),
{
    if at > line.len() || word.len() > line.len() - at {
        return false;
    }
    let mut i: usize = 0;
    let ghost llen = line@.len();
    assert(llen == line.len());
    while i < word.len()
        invariant
            at + word@.len() <= line@.len(),
            line@.len() == llen,
            llen <= usize::MAX,
            i <= word@.len(),
            forall|j: int| 0 <= j < i ==> line@[at + j] == #[trigger] word@[j],
        decreases word@.len() - i,
    {
        if line[at + i] != word[i] {
            proof {
                assert(line@.subrange(at as int, at + word@.len())[i as int] != word@[i as int]);
            }
            return false;
        }
        i = i + 1;
    }
    proof {
        assert(line@.subrange(at as int, at + word@.len()) =~= word@);
    }
    true
}

/// The value of a string of decimal digits as an `i32`, or `None` when it
/// does not fit (what `str::parse::<i32>` gives on such a string).
pub fn parse_decimal_i32(digits: &[u8]) -> (r: Option<i32>)
    requires
        digits@.len() > 0,
        forall|j: int| 0 <= j < digits@.len() ==> is_digit(#[trigger] digits@[j]),
    ensures
        r is Some <==> decimal_value(digits@) <= i32::MAX,
        r matches Some(v) ==> v == decimal_value(digits@),
{
    let mut acc: i32 = 0;
    let mut i: usize = 0;
    while i < digits.len()
        invariant
            i <= digits@.len(),
            forall|j: int| 0 <= j < digits@.len() ==> is_digit(#[trigger] digits@[j]),
            acc == decimal_value(digits@.take(i as int)),
        decreases digits@.len() - i,
    {
        let d = (digits[i] - 0x30) as i32;
        proof {
            assert(digits@.take(i + 1).drop_last() =~= digits@.take(i as int));
            assert(is_digit(digits@[i as int]));
        }
        if acc > (i32::MAX - d) / 10 {
            proof {
                assert(decimal_value(digits@.take(i + 1)) > i32::MAX);
                lemma_decimal_prefix_monotone(digits@, i + 1);
                assert(digits@.take(digits@.len() as int) =~= digits@);
            }
            return None;
        }
        acc = acc * 10 + d;
        i = i + 1;
    }
    proof {
        assert(digits@.take(i as int) =~= digits@);
    }
    Some(acc)
}

/// The value of a digit string is at least that of each of its prefixes.
pub proof fn lemma_decimal_prefix_monotone(s: Seq<u8>, k: int)
    requires
        0 <= k <= s.len(),
        forall|j: int| 0 <= j < s.len() ==> is_digit(#[trigger] s[j]),
    ensures
        decimal_value(s.take(k)) <= decimal_value(s),
    decreases s.len() - k,
{
    if k < s.len() {
        lemma_decimal_prefix_monotone(s, k + 1);
        assert(s.take(k + 1).drop_last() =~= s.take(k));
        assert(is_digit(s[k]));
    } else {
        assert(s.take(k) =~= s);
    }
}

/// The escape sequences of one character after a backslash.
pub fn parse_single_char_escape_seq(c: u8) -> (r: Option<u8>)
    ensures
        r == single_char_escape(c),
{
    if c == 0x6e {
        Some(0x0a)
    } else if c == 0x72 {
        Some(0x0d)
    } else if c == 0x74 {
        Some(0x09)
    } else if c == 0x27 {
        Some(0x27)
    } else if c == 0x22 {
        Some(0x22)
    } else if c == 0x5c {
        Some(0x5c)
    } else {
        None
    }
}

/// The two characters after `\x`: they must be hexadecimal digits, and are
/// then read as a decimal `u8`.
pub fn parse_hex_escape_seq(c1: u8, c2: u8) -> (r: Option<u8>)
    ensures
        r == two_digit_escape(c1, c2),
{
    let hex1 = (0x30 <= c1 && c1 <= 0x39) || (0x61 <= c1 && c1 <= 0x66) || (0x41 <= c1 && c1 <= 0x46);
    let hex2 = (0x30 <= c2 && c2 <= 0x39) || (0x61 <= c2 && c2 <= 0x66) || (0x41 <= c2 && c2 <= 0x46);
    if !(hex1 && hex2) {
        return None;
    }
    if (0x30 <= c1 && c1 <= 0x39) && (0x30 <= c2 && c2 <= 0x39) {
        Some((c1 - 0x30) * 10 + (c2 - 0x30))
    } else {
        None
    }
}

/// The reserved word spelled `id`, if any.
pub fn reserved_word_from_id(id: &[u8]) -> (r: Option<TokenKind>)
    ensures
        r == find_spelled(keywords(), id@),
{
    let kws = crate::lex::token::keyword_kinds();
    let mut i: usize = 0;
    assert(keywords().skip(0) =~= keywords());
    while i < kws.len()
        invariant
            kws@ == keywords(),
            i <= kws@.len(),
            find_spelled(keywords(), id@) == find_spelled(keywords().skip(i as int), id@),
        decreases kws@.len() - i,
    {
        let k = kws[i];
        let sp = k.spelling_bytes();
        proof {
            assert(keywords().skip(i as int)[0] == k);
            assert(keywords().skip(i as int).drop_first() =~= keywords().skip(i + 1));
        }
        if sp.len() == id.len() && starts_with_at(id, 0, sp.as_slice()) {
            proof {
                assert(id@.subrange(0, sp@.len() as int) =~= id@);
            }
            return Some(k);
        }
        proof {
            if sp@ == id@ {
                assert(id@.subrange(0, sp@.len() as int) =~= id@);
            }
        }
        i = i + 1;
    }
    None
}

/// The first of `lexemes` that `line` holds at `at`.
pub fn match_lexeme_at(line: &[u8], at: usize, lexemes: &Vec<TokenKind>) -> (r: Option<TokenKind>)
    ensures
        r == find_lexeme_at(lexemes@, line@, at as int),
{
    let mut i: usize = 0;
    assert(lexemes@.skip(0) =~= lexemes@);
    while i < lexemes.len()
        invariant
            i <= lexemes@.len(),
            find_lexeme_at(lexemes@, line@, at as int) == find_lexeme_at(lexemes@.skip(i as int), line@, at as int),
        decreases lexemes@.len() - i,
    {
        let k = lexemes[i];
        let sp = k.spelling_bytes();
        proof {
            assert(lexemes@.skip(i as int)[0] == k);
            assert(lexemes@.skip(i as int).drop_first() =~= lexemes@.skip(i + 1));
        }
        if starts_with_at(line, at, sp.as_slice()) {
            return Some(k);
        }
        i = i + 1;
    }
    None
}

/// Why a character literal is rejected.
#[derive(Debug, Clone, Copy, PartialEq, Eq, Structural)]
pub enum CharLitProblem {
    Empty,
    Uncommon,
    BadEscape,
    Malformed,
}

/// The message that reports a character-literal problem.
pub open spec fn problem_message(p: CharLitProblem) -> &'static str {
    match p {
        CharLitProblem::Empty => "empty character literal",
        CharLitProblem::Uncommon => "Only common and printable characters are allowed as character literals",
        CharLitProblem::BadEscape => "invalid escape sequence",
        CharLitProblem::Malformed => "invalid character literal",
    }
}

impl CharLitProblem {
    /// The message that reports the problem.
    pub fn message(&self) -> (r: &'static str)
        ensures
            r == problem_message(*self),
    {
        match self {
            CharLitProblem::Empty => "empty character literal",
            CharLitProblem::Uncommon => "Only common and printable characters are allowed as character literals",
            CharLitProblem::BadEscape => "invalid escape sequence",
            CharLitProblem::Malformed => "invalid character literal",
        }
    }
}

/// Where the search for the closing quote of a character literal opened at
/// `cursor` stops, `j` bytes past the opening quote: at the first unescaped
/// quote, or once more than four bytes were looked at.
pub open spec fn char_lit_stops_at(line: Seq<u8>, cursor: int, j: int) -> bool {
    j > 4 || (line[cursor + 1 + j] == 0x27 && line[cursor + j] != 0x5c)
}

/// `r` is where that search stops, if it stops within the line.
pub open spec fn is_char_lit_stop(line: Seq<u8>, cursor: int, r: Option<usize>) -> bool {
    match r {
        Some(j) => cursor + 1 + j < line.len() && char_lit_stops_at(line, cursor, j as int) && forall|i: int|
            0 <= i < j ==> !#[trigger] char_lit_stops_at(line, cursor, i),
        None => forall|i: int| 0 <= i && cursor + 1 + i < line.len() ==> !#[trigger] char_lit_stops_at(line, cursor, i),
    }
}

/// What a character literal opened at `cursor` reads as, given where the
/// closing-quote search stopped: the character and the literal's length, or
/// the problem.
pub open spec fn char_literal_outcome(line: Seq<u8>, cursor: int, stop: Option<usize>) -> Result<(u8, int), CharLitProblem> {
    match stop {
        Some(j) => if j == 0 {
            Err(CharLitProblem::Empty)
        } else if j == 1 {
            let c = line[cursor + 1];
            if c != 0x0a && c != 0x0d && c != 0x09 && c != 0x27 && c != 0x22 {
                Ok((c, 3))
            } else {
                Err(CharLitProblem::Uncommon)
            }
        } else if j == 2 && line[cursor + 1] == 0x5c {
            match single_char_escape(line[cursor + 2]) {
                Some(e) => Ok((e, 4)),
                None => Err(CharLitProblem::BadEscape),
            }
        } else if j == 4 && line[cursor + 1] == 0x5c && line[cursor + 2] == 0x78 {
            match two_digit_escape(line[cursor + 3], line[cursor + 4]) {
                Some(e) => Ok((e, 6)),
                None => Err(CharLitProblem::BadEscape),
            }
        } else {
            Err(CharLitProblem::Malformed)
        },
        None => Err(CharLitProblem::Malformed),
    }
}

/// Where the closing-quote search of a character literal stops.
fn find_char_lit_stop(line: &[u8], cursor: usize) -> (r: Option<usize>)
    requires
        cursor < line@.len(),
    ensures
        is_char_lit_stop(line@, cursor as int, r),
{
    let ghost llen = line@.len();
    assert(llen == line.len());
    let mut j: usize = 0;
    while j < line.len() - cursor - 1
        invariant
            llen == line@.len(),
            cursor < llen,
            j <= 5,
            forall|i: int| 0 <= i < j ==> !#[trigger] char_lit_stops_at(line@, cursor as int, i),
        decreases llen - j,
    {
        if j > 4 || (line[cursor + 1 + j] == 0x27 && line[cursor + j] != 0x5c) {
            return Some(j);
        }
        j = j + 1;
    }
    None
}

/// Reads the character literal whose opening quote is at `cursor`: the
/// character it denotes and the literal's length in bytes.
pub fn scan_char_literal(line: &[u8], cursor: usize) -> (r: Result<(u8, usize), CharLitProblem>)
    requires
        cursor < line@.len(),
        line@[cursor as int] == 0x27,
    ensures
        exists|stop: Option<usize>| #[trigger] is_char_lit_stop(line@, cursor as int, stop) && (match r {
            Ok((c, n)) => char_literal_outcome(line@, cursor as int, stop) == Ok::<(u8, int), CharLitProblem>((c, n as int)),
            Err(p) => char_literal_outcome(line@, cursor as int, stop) == Err::<(u8, int), CharLitProblem>(p),
        }),
{
    assert(line@.len() == line.len());
    let stop = find_char_lit_stop(line, cursor);
    let r = match stop {
        Some(j) => if j == 0 {
            Err(CharLitProblem::Empty)
        } else if j == 1 {
            let c = line[cursor + 1];
            if c != 0x0a && c != 0x0d && c != 0x09 && c != 0x27 && c != 0x22 {
                Ok((c, 3))
            } else {
                Err(CharLitProblem::Uncommon)
            }
        } else if j == 2 && line[cursor + 1] == 0x5c {
            match parse_single_char_escape_seq(line[cursor + 2]) {
                Some(e) => Ok((e, 4)),
                None => Err(CharLitProblem::BadEscape),
            }
        } else if j == 4 && line[cursor + 1] == 0x5c && line[cursor + 2] == 0x78 {
            match parse_hex_escape_seq(line[cursor + 3], line[cursor + 4]) {
                Some(e) => Ok((e, 6)),
                None => Err(CharLitProblem::BadEscape),
            }
        } else {
            Err(CharLitProblem::Malformed)
        },
        None => Err(CharLitProblem::Malformed),
    };
    r
}

/// `r` is the offset (past the opening quote at `cursor`) of the first
/// quote of `line` that does not follow a backslash, if there is one.
pub open spec fn is_string_end(line: Seq<u8>, cursor: int, r: Option<usize>) -> bool {
    match r {
        Some(j) => cursor + 1 + j < line.len() && line[cursor + 1 + j] == 0x22 && line[cursor + j] != 0x5c
            && forall|i: int| 0 <= i < j ==> !(#[trigger] line[cursor + 1 + i] == 0x22 && line[cursor + i] != 0x5c),
        None => forall|i: int|
            0 <= i && cursor + 1 + i < line.len() ==> !(#[trigger] line[cursor + 1 + i] == 0x22 && line[cursor + i] != 0x5c),
    }
}

/// Finds the closing quote of the string literal opened at `cursor`.
pub fn find_string_end(line: &[u8], cursor: usize) -> (r: Option<usize>)
    requires
        cursor < line@.len(),
    ensures
        is_string_end(line@, cursor as int, r),
{
    let ghost llen = line@.len();
    assert(llen == line.len());
    let mut j: usize = 0;
    while j < line.len() - cursor - 1
        invariant
            llen == line@.len(),
            cursor < llen,
            cursor + 1 + j <= llen,
            forall|i: int| 0 <= i < j ==> !(#[trigger] line@[cursor + 1 + i] == 0x22 && line@[cursor + i] != 0x5c),
        decreases llen - j,
    {
        if line[cursor + 1 + j] == 0x22 && line[cursor + j] != 0x5c {
            return Some(j);
        }
        j = j + 1;
    }
    None
}

/// The position of the first `b` in `s` at or after `i` (the length of `s`
/// when there is none).
pub open spec fn first_from(s: Seq<u8>, i: int, b: u8) -> int
    decreases s.len() - i,
{
    if i >= s.len() || i < 0 {
        s.len() as int
    } else if s[i] == b {
        i
    } else {
        first_from(s, i + 1, b)
    }
}

/// The characters that the body `s` of a string literal denotes from
/// position `idx` on, with escape sequences replaced, or the position of the
/// first invalid escape.
pub open spec fn unescape_from(s: Seq<u8>, idx: int) -> Result<Seq<char>, int>
    decreases s.len() - idx,
{
    if idx < 0 || idx > s.len() {
        Err(idx)
    } else {
        let k = first_from(s, idx, 0x5c);
        if k >= s.len() || k < idx {
            Ok(decode_utf8(s.subrange(idx, s.len() as int)))
        } else {
            let pre = decode_utf8(s.subrange(idx, k));
            if k + 1 < s.len() && s[k + 1] != 0x78 {
                match single_char_escape(s[k + 1]) {
                    Some(e) => match unescape_from(s, k + 2) {
                        Ok(rest) => Ok(pre.push(e as char) + rest),
                        Err(p) => Err(p),
                    },
                    None => Err(k),
                }
            } else if k + 3 < s.len() && s[k + 1] == 0x78 {
                match two_digit_escape(s[k + 2], s[k + 3]) {
                    Some(e) => match unescape_from(s, k + 4) {
                        Ok(rest) => Ok(pre.push(e as char) + rest),
                        Err(p) => Err(p),
                    },
                    None => Err(k),
                }
            } else {
                Err(k)
            }
        }
    }
}

pub proof fn lemma_first_from_bounds(s: Seq<u8>, i: int, b: u8)
    requires
        0 <= i <= s.len(),
    ensures
        i <= first_from(s, i, b) <= s.len(),
        first_from(s, i, b) < s.len() ==> s[first_from(s, i, b)] == b,
        forall|j: int| i <= j < first_from(s, i, b) ==> s[j] != b,
    decreases s.len() - i,
{
    if i < s.len() && s[i] != b {
        lemma_first_from_bounds(s, i + 1, b);
    }
}

/// Replaces the escape sequences of a string literal's body `s`; on an
/// invalid escape, gives its position.
pub fn parse_string_escape_seqs(s: &[u8]) -> (r: Result<String, usize>)
    requires
        valid_utf8(s@),
    ensures
        match r {
            Ok(t) => unescape_from(s@, 0) == Ok::<Seq<char>, int>(t@),
            Err(p) => unescape_from(s@, 0) == Err::<Seq<char>, int>(p as int),
        },
{
    let ghost sv = s@;
    let ghost slen = s@.len();
    assert(slen == s.len());
    let mut idx: usize = 0;
    let mut retval = String::new();
    loop
        invariant
            sv == s@,
            slen == s@.len(),
            valid_utf8(sv),
            idx <= slen,
            idx == slen || !vstd::utf8::is_continuation_byte(sv[idx as int]),
            unescape_from(sv, 0) == (match unescape_from(sv, idx as int) {
                Ok(rest) => Ok::<Seq<char>, int>(retval@ + rest),
                Err(p) => Err(p),
            }),
        decreases slen - idx,
    {
        let mut k = idx;
        while k < s.len() && s[k] != 0x5c
            invariant
                idx <= k <= slen,
                slen == s@.len(),
                sv == s@,
                first_from(sv, idx as int, 0x5c) == first_from(sv, k as int, 0x5c),
            decreases slen - k,
        {
            k = k + 1;
        }
        proof {
            lemma_first_from_bounds(sv, idx as int, 0x5c);
            assert(first_from(sv, idx as int, 0x5c) == k);
            if k < slen {
                assert(!vstd::utf8::is_continuation_byte(sv[k as int]));
            }
            crate::text::lemma_valid_segment(sv, idx as int, k as int);
        }
        let ghost before = retval@;
        let ghost old_idx = idx as int;
        let seg = string_from_slice(s, idx, k);
        string_push_str(&mut retval, seg.as_str());
        let ghost pre = seg@;
        if k == s.len() {
            proof {
                assert(retval@ == retval@ + Seq::<char>::empty());
            }
            return Ok(retval);
        }
        let after = s.len() - k - 1;
        if after >= 1 && s[k + 1] != 0x78 {
            match parse_single_char_escape_seq(s[k + 1]) {
                Some(e) => {
                    string_push(&mut retval, byte_char(e));
                    proof {
                        if k + 2 < slen {
                            crate::text::lemma_after_ascii_not_continuation(sv, k + 1);
                        }
                        match unescape_from(sv, k + 2) {
                            Ok(rest) => {
                                assert(retval@ + rest =~= before + (pre.push(e as char) + rest));
                            },
                            Err(_) => {},
                        }
                    }
                    idx = k + 2;
                },
                None => {
                    return Err(k);
                },
            }
        } else if after >= 3 && s[k + 1] == 0x78 {
            match parse_hex_escape_seq(s[k + 2], s[k + 3]) {
                Some(e) => {
                    string_push(&mut retval, byte_char(e));
                    proof {
                        if k + 4 < slen {
                            crate::text::lemma_after_ascii_not_continuation(sv, k + 3);
                        }
                        match unescape_from(sv, k + 4) {
                            Ok(rest) => {
                                assert(retval@ + rest =~= before + (pre.push(e as char) + rest));
                            },
                            Err(_) => {},
                        }
                    }
                    idx = k + 4;
                },
                None => {
                    return Err(k);
                },
            }
        } else {
            return Err(k);
        }
    }
}

/// The character whose code is the byte `b` (`b as char`).
pub fn byte_char(b: u8) -> (r: char)
    ensures
        r == b as char,
{
    b as char
}

/// The string that `s[from..to]` encodes.
pub fn string_from_slice(s: &[u8], from: usize, to: usize) -> (r: String)
    requires
        from <= to <= s@.len(),
        valid_utf8(s@.subrange(from as int, to as int)),
    ensures
        r@ == decode_utf8(s@.subrange(from as int, to as int)),
{
    let mut v: Vec<u8> = Vec::new();
    let mut i = from;
    while i < to
        invariant
            from <= i <= to,
            to <= s@.len(),
            v@ == s@.subrange(from as int, i as int),
        decreases to - i,
    {
        v.push(s[i]);
        proof {
            assert(v@ =~= s@.subrange(from as int, i + 1));
        }
        i = i + 1;
    }
    match string_from_utf8(v) {
        Some(t) => t,
        None => {
            proof {
                assert(false);
            }
            String::new()
        },
    }
}

/// Whether a comment delimiter, `*)` or `(*`, starts at `k`.
pub open spec fn comment_delim_at(l: Seq<u8>, k: int) -> bool {
    0 <= k && k + 1 < l.len() && ((l[k] == 0x2a && l[k + 1] == 0x29) || (l[k] == 0x28 && l[k + 1] == 0x2a))
}

/// The first comment delimiter at or after `i` (the length of `l` when
/// there is none).
pub open spec fn first_comment_delim(l: Seq<u8>, i: int) -> int
    decreases l.len() - i,
{
    if i >= l.len() || i < 0 {
        l.len() as int
    } else if comment_delim_at(l, i) {
        i
    } else {
        first_comment_delim(l, i + 1)
    }
}

pub proof fn lemma_first_comment_delim(l: Seq<u8>, i: int)
    requires
        0 <= i <= l.len(),
    ensures
        i <= first_comment_delim(l, i) <= l.len(),
        first_comment_delim(l, i) < l.len() ==> comment_delim_at(l, first_comment_delim(l, i)),
    decreases l.len() - i,
{
    if i < l.len() && !comment_delim_at(l, i) {
        lemma_first_comment_delim(l, i + 1);
    }
}

/// Finds the first comment delimiter at or after `from`.
pub fn find_comment_delim(line: &[u8], from: usize) -> (r: usize)
    requires
        from <= line@.len(),
    ensures
        r == first_comment_delim(line@, from as int),
{
    let ghost llen = line@.len();
    assert(llen == line.len());
    let mut i = from;
    while i < line.len()
        invariant
            from <= i <= llen,
            llen == line@.len(),
            first_comment_delim(line@, from as int) == first_comment_delim(line@, i as int),
        decreases llen - i,
    {
        if i + 1 < line.len() && ((line[i] == 0x2a && line[i + 1] == 0x29) || (line[i] == 0x28 && line[i + 1] == 0x2a)) {
            return i;
        }
        i = i + 1;
    }
    i
}

/// The length of the float literal `digits.digits` at `c`, if one is there.
pub open spec fn float_len(l: Seq<u8>, c: int, d1: int, d2: int) -> Option<int> {
    if d1 == 0 || c + d1 >= l.len() || l[c + d1] != 0x2e || d2 == 0 {
        None
    } else {
        Some(d1 + 1 + d2)
    }
}

/// The bytes `line[from..to]`.
pub fn copy_range(line: &[u8], from: usize, to: usize) -> (r: Vec<u8>)
    requires
        from <= to <= line@.len(),
    ensures
        r@ == line@.subrange(from as int, to as int),
{
    let mut v: Vec<u8> = Vec::new();
    let mut i = from;
    while i < to
        invariant
            from <= i <= to,
            to <= line@.len(),
            v@ == line@.subrange(from as int, i as int),
        decreases to - i,
    {
        v.push(line[i]);
        proof {
            assert(v@ =~= line@.subrange(from as int, i + 1));
        }
        i = i + 1;
    }
    v
}

/// A run length is determined by where the run starts.
pub proof fn lemma_digit_run_unique(l: Seq<u8>, c: int, n1: int, n2: int)
    requires
        is_digit_run(l, c, n1),
        is_digit_run(l, c, n2),
    ensures
        n1 == n2,
{
    if n1 < n2 {
        assert(is_digit(l[c + n1]));
    } else if n2 < n1 {
        assert(is_digit(l[c + n2]));
    }
}

pub proof fn lemma_ident_run_unique(l: Seq<u8>, c: int, n1: int, n2: int)
    requires
        is_ident_run(l, c, n1),
        is_ident_run(l, c, n2),
    ensures
        n1 == n2,
{
    if n1 < n2 {
        assert(is_ident_char(l[c + n1]));
    } else if n2 < n1 {
        assert(is_ident_char(l[c + n2]));
    }
}

pub proof fn lemma_char_lit_stop_unique(l: Seq<u8>, c: int, a: Option<usize>, b: Option<usize>)
    requires
        is_char_lit_stop(l, c, a),
        is_char_lit_stop(l, c, b),
    ensures
        a == b,
{
    match (a, b) {
        (Some(x), Some(y)) => {
            if x < y {
                assert(char_lit_stops_at(l, c, x as int));
            } else if y < x {
                assert(char_lit_stops_at(l, c, y as int));
            }
        },
        (Some(x), None) => {
            assert(char_lit_stops_at(l, c, x as int));
        },
        (None, Some(y)) => {
            assert(char_lit_stops_at(l, c, y as int));
        },
        (None, None) => {},
    }
}

pub proof fn lemma_string_end_unique(l: Seq<u8>, c: int, a: Option<usize>, b: Option<usize>)
    requires
        is_string_end(l, c, a),
        is_string_end(l, c, b),
    ensures
        a == b,
{
    match (a, b) {
        (Some(x), Some(y)) => {
            if x < y {
                assert(l[c + 1 + x] == 0x22 && l[c + x] != 0x5c);
            } else if y < x {
                assert(l[c + 1 + y] == 0x22 && l[c + y] != 0x5c);
            }
        },
        (Some(x), None) => {
            assert(l[c + 1 + x] == 0x22 && l[c + x] != 0x5c);
        },
        (None, Some(y)) => {
            assert(l[c + 1 + y] == 0x22 && l[c + y] != 0x5c);
        },
        (None, None) => {},
    }
}

} // verus!


verus! {

/// A word of lower-case ASCII letters.
pub open spec fn is_lower_word(w: Seq<u8>) -> bool {
    w.len() > 0 && forall|i: int| 0 <= i < w.len() ==> 97 <= #[trigger] w[i] <= 122
}

/// Every kind of token that is written as a word of lower-case letters is
/// a reserved word: an identifier spelled as that word is read as that
/// kind, never as a plain identifier.
pub proof fn law_every_word_kind_is_reserved(k: TokenKind)
    requires
        is_lower_word(spelling(k)),
    ensures
        find_spelled(keywords(), spelling(k)) == Some(k),
{
    reveal_with_fuel(find_spelled, 36);
    match k {
        TokenKind::And => {},
        TokenKind::Array => {},
        TokenKind::Begin => {},
        TokenKind::Bool => {},
        TokenKind::Char => {},
        TokenKind::Delete => {},
        TokenKind::Dim => {},
        TokenKind::Do => {},
        TokenKind::Done => {},
        TokenKind::Downto => {},
        TokenKind::Else => {},
        TokenKind::End => {},
        TokenKind::False => {},
        TokenKind::Float => {},
        TokenKind::For => {},
        TokenKind::If => {},
        TokenKind::In => {},
        TokenKind::Int => {},
        TokenKind::Let => {},
        TokenKind::Match => {},
        TokenKind::Mod => {},
        TokenKind::Mutable => {},
        TokenKind::New => {},
        TokenKind::Not => {},
        TokenKind::Of => {},
        TokenKind::Rec => {},
        TokenKind::Ref => {},
        TokenKind::Then => {},
        TokenKind::To => {},
        TokenKind::True => {},
        TokenKind::Type => {},
        TokenKind::Unit => {},
        TokenKind::While => {},
        TokenKind::With => {},
        TokenKind::EOF | TokenKind::UNMATCHED | TokenKind::COMMENT | TokenKind::IdUpper | TokenKind::IdLower | TokenKind::IntLiteral | TokenKind::FloatLiteral | TokenKind::CharLiteral | TokenKind::StringLiteral | TokenKind::Arrow | TokenKind::PlusDot | TokenKind::MinusDot | TokenKind::StarDot | TokenKind::SlashDot | TokenKind::DblStar | TokenKind::DblAmpersand | TokenKind::DblBar | TokenKind::LtGt | TokenKind::LEq | TokenKind::GEq | TokenKind::DblEq | TokenKind::ExclamEq | TokenKind::ColonEq | TokenKind::Semicolon | TokenKind::Eq | TokenKind::Gt | TokenKind::Lt | TokenKind::Plus | TokenKind::Minus | TokenKind::Star | TokenKind::Slash | TokenKind::Colon | TokenKind::Comma | TokenKind::LBracket | TokenKind::RBracket | TokenKind::LParen | TokenKind::RParen | TokenKind::Bar | TokenKind::Exclam => {
            assert(!(97 <= spelling(k)[0] <= 122));
        },
    }
}

} // verus!

verus! {

/// A letter or a digit.
pub open spec fn is_alnum(b: u8) -> bool {
    (48 <= b <= 57) || (65 <= b <= 90) || (97 <= b <= 122)
}

/// A word of symbol characters: no letters, no digits.
pub open spec fn is_symbol_word(w: Seq<u8>) -> bool {
    w.len() > 0 && forall|i: int| 0 <= i < w.len() ==> !is_alnum(#[trigger] w[i])
}

/// The symbol the lexer reads at `at` in `line`: the longer symbols are
/// tried first.
pub open spec fn symbol_at(line: Seq<u8>, at: int) -> Option<TokenKind> {
    match find_lexeme_at(multi_char_symbols(), line, at) {
        Some(k) => Some(k),
        None => find_lexeme_at(single_char_symbols(), line, at),
    }
}

/// Every kind of token that is written with symbol characters is read back
/// from its spelling: the symbol read from a line that holds just that
/// spelling is that kind, so `>=` is never read as `>`, nor `==` as `=`.
#[verifier::spinoff_prover]
#[verifier::rlimit(100)]
pub proof fn law_every_symbol_kind_is_read(k: TokenKind)
    requires
        is_symbol_word(spelling(k)),
    ensures
        symbol_at(spelling(k), 0) == Some(k),
{
    reveal_with_fuel(find_lexeme_at, 18);
    assert(spelling(k).subrange(0, spelling(k).len() as int) =~= spelling(k));
    match k {
        TokenKind::Arrow => {
            assert(symbol_at(spelling(TokenKind::Arrow), 0) == Some(TokenKind::Arrow));
        },
        TokenKind::PlusDot => {
            assert(symbol_at(spelling(TokenKind::PlusDot), 0) == Some(TokenKind::PlusDot));
        },
        TokenKind::MinusDot => {
            assert(symbol_at(spelling(TokenKind::MinusDot), 0) == Some(TokenKind::MinusDot));
        },
        TokenKind::StarDot => {
            assert(symbol_at(spelling(TokenKind::StarDot), 0) == Some(TokenKind::StarDot));
        },
        TokenKind::SlashDot => {
            assert(symbol_at(spelling(TokenKind::SlashDot), 0) == Some(TokenKind::SlashDot));
        },
        TokenKind::DblStar => {
            assert(symbol_at(spelling(TokenKind::DblStar), 0) == Some(TokenKind::DblStar));
        },
        TokenKind::DblAmpersand => {
            assert(symbol_at(spelling(TokenKind::DblAmpersand), 0) == Some(TokenKind::DblAmpersand));
        },
        TokenKind::DblBar => {
            assert(symbol_at(spelling(TokenKind::DblBar), 0) == Some(TokenKind::DblBar));
        },
        TokenKind::LtGt => {
            assert(symbol_at(spelling(TokenKind::LtGt), 0) == Some(TokenKind::LtGt));
        },
        TokenKind::LEq => {
            assert(symbol_at(spelling(TokenKind::LEq), 0) == Some(TokenKind::LEq));
        },
        TokenKind::GEq => {
            assert(symbol_at(spelling(TokenKind::GEq), 0) == Some(TokenKind::GEq));
        },
        TokenKind::DblEq => {
            assert(symbol_at(spelling(TokenKind::DblEq), 0) == Some(TokenKind::DblEq));
        },
        TokenKind::ExclamEq => {
            assert(symbol_at(spelling(TokenKind::ExclamEq), 0) == Some(TokenKind::ExclamEq));
        },
        TokenKind::ColonEq => {
            assert(symbol_at(spelling(TokenKind::ColonEq), 0) == Some(TokenKind::ColonEq));
        },
        TokenKind::Semicolon => {
            assert(symbol_at(spelling(TokenKind::Semicolon), 0) == Some(TokenKind::Semicolon));
        },
        TokenKind::Eq => {
            assert(spelling(TokenKind::Eq)[0] != spelling(TokenKind::Semicolon)[0]);
            assert(symbol_at(spelling(TokenKind::Eq), 0) == Some(TokenKind::Eq));
        },
        TokenKind::Gt => {
            assert(spelling(TokenKind::Gt)[0] != spelling(TokenKind::Semicolon)[0]);
            assert(spelling(TokenKind::Gt)[0] != spelling(TokenKind::Eq)[0]);
            assert(symbol_at(spelling(TokenKind::Gt), 0) == Some(TokenKind::Gt));
        },
        TokenKind::Lt => {
            assert(spelling(TokenKind::Lt)[0] != spelling(TokenKind::Semicolon)[0]);
            assert(spelling(TokenKind::Lt)[0] != spelling(TokenKind::Eq)[0]);
            assert(spelling(TokenKind::Lt)[0] != spelling(TokenKind::Gt)[0]);
            assert(symbol_at(spelling(TokenKind::Lt), 0) == Some(TokenKind::Lt));
        },
        TokenKind::Plus => {
            assert(spelling(TokenKind::Plus)[0] != spelling(TokenKind::Semicolon)[0]);
            assert(spelling(TokenKind::Plus)[0] != spelling(TokenKind::Eq)[0]);
            assert(spelling(TokenKind::Plus)[0] != spelling(TokenKind::Gt)[0]);
            assert(spelling(TokenKind::Plus)[0] != spelling(TokenKind::Lt)[0]);
            assert(symbol_at(spelling(TokenKind::Plus), 0) == Some(TokenKind::Plus));
        },
        TokenKind::Minus => {
            assert(spelling(TokenKind::Minus)[0] != spelling(TokenKind::Semicolon)[0]);
            assert(spelling(TokenKind::Minus)[0] != spelling(TokenKind::Eq)[0]);
            assert(spelling(TokenKind::Minus)[0] != spelling(TokenKind::Gt)[0]);
            assert(spelling(TokenKind::Minus)[0] != spelling(TokenKind::Lt)[0]);
            assert(spelling(TokenKind::Minus)[0] != spelling(TokenKind::Plus)[0]);
            assert(symbol_at(spelling(TokenKind::Minus), 0) == Some(TokenKind::Minus));
        },
        TokenKind::Star => {
            assert(spelling(TokenKind::Star)[0] != spelling(TokenKind::Semicolon)[0]);
            assert(spelling(TokenKind::Star)[0] != spelling(TokenKind::Eq)[0]);
            assert(spelling(TokenKind::Star)[0] != spelling(TokenKind::Gt)[0]);
            assert(spelling(TokenKind::Star)[0] != spelling(TokenKind::Lt)[0]);
            assert(spelling(TokenKind::Star)[0] != spelling(TokenKind::Plus)[0]);
            assert(spelling(TokenKind::Star)[0] != spelling(TokenKind::Minus)[0]);
            assert(symbol_at(spelling(TokenKind::Star), 0) == Some(TokenKind::Star));
        },
        TokenKind::Slash => {
            assert(spelling(TokenKind::Slash)[0] != spelling(TokenKind::Semicolon)[0]);
            assert(spelling(TokenKind::Slash)[0] != spelling(TokenKind::Eq)[0]);
            assert(spelling(TokenKind::Slash)[0] != spelling(TokenKind::Gt)[0]);
            assert(spelling(TokenKind::Slash)[0] != spelling(TokenKind::Lt)[0]);
            assert(spelling(TokenKind::Slash)[0] != spelling(TokenKind::Plus)[0]);
            assert(spelling(TokenKind::Slash)[0] != spelling(TokenKind::Minus)[0]);
            assert(spelling(TokenKind::Slash)[0] != spelling(TokenKind::Star)[0]);
            assert(symbol_at(spelling(TokenKind::Slash), 0) == Some(TokenKind::Slash));
        },
        TokenKind::Colon => {
            assert(spelling(TokenKind::Colon)[0] != spelling(TokenKind::Semicolon)[0]);
            assert(spelling(TokenKind::Colon)[0] != spelling(TokenKind::Eq)[0]);
            assert(spelling(TokenKind::Colon)[0] != spelling(TokenKind::Gt)[0]);
            assert(spelling(TokenKind::Colon)[0] != spelling(TokenKind::Lt)[0]);
            assert(spelling(TokenKind::Colon)[0] != spelling(TokenKind::Plus)[0]);
            assert(spelling(TokenKind::Colon)[0] != spelling(TokenKind::Minus)[0]);
            assert(spelling(TokenKind::Colon)[0] != spelling(TokenKind::Star)[0]);
            assert(spelling(TokenKind::Colon)[0] != spelling(TokenKind::Slash)[0]);
            assert(symbol_at(spelling(TokenKind::Colon), 0) == Some(TokenKind::Colon));
        },
        TokenKind::Comma => {
            assert(spelling(TokenKind::Comma)[0] != spelling(TokenKind::Semicolon)[0]);
            assert(spelling(TokenKind::Comma)[0] != spelling(TokenKind::Eq)[0]);
            assert(spelling(TokenKind::Comma)[0] != spelling(TokenKind::Gt)[0]);
            assert(spelling(TokenKind::Comma)[0] != spelling(TokenKind::Lt)[0]);
            assert(spelling(TokenKind::Comma)[0] != spelling(TokenKind::Plus)[0]);
            assert(spelling(TokenKind::Comma)[0] != spelling(TokenKind::Minus)[0]);
            assert(spelling(TokenKind::Comma)[0] != spelling(TokenKind::Star)[0]);
            assert(spelling(TokenKind::Comma)[0] != spelling(TokenKind::Slash)[0]);
            assert(spelling(TokenKind::Comma)[0] != spelling(TokenKind::Colon)[0]);
            assert(symbol_at(spelling(TokenKind::Comma), 0) == Some(TokenKind::Comma));
        },
        TokenKind::LBracket => {
            assert(spelling(TokenKind::LBracket)[0] != spelling(TokenKind::Semicolon)[0]);
            assert(spelling(TokenKind::LBracket)[0] != spelling(TokenKind::Eq)[0]);
            assert(spelling(TokenKind::LBracket)[0] != spelling(TokenKind::Gt)[0]);
            assert(spelling(TokenKind::LBracket)[0] != spelling(TokenKind::Lt)[0]);
            assert(spelling(TokenKind::LBracket)[0] != spelling(TokenKind::Plus)[0]);
            assert(spelling(TokenKind::LBracket)[0] != spelling(TokenKind::Minus)[0]);
            assert(spelling(TokenKind::LBracket)[0] != spelling(TokenKind::Star)[0]);
            assert(spelling(TokenKind::LBracket)[0] != spelling(TokenKind::Slash)[0]);
            assert(spelling(TokenKind::LBracket)[0] != spelling(TokenKind::Colon)[0]);
            assert(spelling(TokenKind::LBracket)[0] != spelling(TokenKind::Comma)[0]);
            assert(symbol_at(spelling(TokenKind::LBracket), 0) == Some(TokenKind::LBracket));
        },
        TokenKind::RBracket => {
            assert(spelling(TokenKind::RBracket)[0] != spelling(TokenKind::Semicolon)[0]);
            assert(spelling(TokenKind::RBracket)[0] != spelling(TokenKind::Eq)[0]);
            assert(spelling(TokenKind::RBracket)[0] != spelling(TokenKind::Gt)[0]);
            assert(spelling(TokenKind::RBracket)[0] != spelling(TokenKind::Lt)[0]);
            assert(spelling(TokenKind::RBracket)[0] != spelling(TokenKind::Plus)[0]);
            assert(spelling(TokenKind::RBracket)[0] != spelling(TokenKind::Minus)[0]);
            assert(spelling(TokenKind::RBracket)[0] != spelling(TokenKind::Star)[0]);
            assert(spelling(TokenKind::RBracket)[0] != spelling(TokenKind::Slash)[0]);
            assert(spelling(TokenKind::RBracket)[0] != spelling(TokenKind::Colon)[0]);
            assert(spelling(TokenKind::RBracket)[0] != spelling(TokenKind::Comma)[0]);
            assert(spelling(TokenKind::RBracket)[0] != spelling(TokenKind::LBracket)[0]);
            assert(symbol_at(spelling(TokenKind::RBracket), 0) == Some(TokenKind::RBracket));
        },
        TokenKind::LParen => {
            assert(spelling(TokenKind::LParen)[0] != spelling(TokenKind::Semicolon)[0]);
            assert(spelling(TokenKind::LParen)[0] != spelling(TokenKind::Eq)[0]);
            assert(spelling(TokenKind::LParen)[0] != spelling(TokenKind::Gt)[0]);
            assert(spelling(TokenKind::LParen)[0] != spelling(TokenKind::Lt)[0]);
            assert(spelling(TokenKind::LParen)[0] != spelling(TokenKind::Plus)[0]);
            assert(spelling(TokenKind::LParen)[0] != spelling(TokenKind::Minus)[0]);
            assert(spelling(TokenKind::LParen)[0] != spelling(TokenKind::Star)[0]);
            assert(spelling(TokenKind::LParen)[0] != spelling(TokenKind::Slash)[0]);
            assert(spelling(TokenKind::LParen)[0] != spelling(TokenKind::Colon)[0]);
            assert(spelling(TokenKind::LParen)[0] != spelling(TokenKind::Comma)[0]);
            assert(spelling(TokenKind::LParen)[0] != spelling(TokenKind::LBracket)[0]);
            assert(spelling(TokenKind::LParen)[0] != spelling(TokenKind::RBracket)[0]);
            assert(symbol_at(spelling(TokenKind::LParen), 0) == Some(TokenKind::LParen));
        },
        TokenKind::RParen => {
            assert(spelling(TokenKind::RParen)[0] != spelling(TokenKind::Semicolon)[0]);
            assert(spelling(TokenKind::RParen)[0] != spelling(TokenKind::Eq)[0]);
            assert(spelling(TokenKind::RParen)[0] != spelling(TokenKind::Gt)[0]);
            assert(spelling(TokenKind::RParen)[0] != spelling(TokenKind::Lt)[0]);
            assert(spelling(TokenKind::RParen)[0] != spelling(TokenKind::Plus)[0]);
            assert(spelling(TokenKind::RParen)[0] != spelling(TokenKind::Minus)[0]);
            assert(spelling(TokenKind::RParen)[0] != spelling(TokenKind::Star)[0]);
            assert(spelling(TokenKind::RParen)[0] != spelling(TokenKind::Slash)[0]);
            assert(spelling(TokenKind::RParen)[0] != spelling(TokenKind::Colon)[0]);
            assert(spelling(TokenKind::RParen)[0] != spelling(TokenKind::Comma)[0]);
            assert(spelling(TokenKind::RParen)[0] != spelling(TokenKind::LBracket)[0]);
            assert(spelling(TokenKind::RParen)[0] != spelling(TokenKind::RBracket)[0]);
            assert(spelling(TokenKind::RParen)[0] != spelling(TokenKind::LParen)[0]);
            assert(symbol_at(spelling(TokenKind::RParen), 0) == Some(TokenKind::RParen));
        },
        TokenKind::Bar => {
            assert(spelling(TokenKind::Bar)[0] != spelling(TokenKind::Semicolon)[0]);
            assert(spelling(TokenKind::Bar)[0] != spelling(TokenKind::Eq)[0]);
            assert(spelling(TokenKind::Bar)[0] != spelling(TokenKind::Gt)[0]);
            assert(spelling(TokenKind::Bar)[0] != spelling(TokenKind::Lt)[0]);
            assert(spelling(TokenKind::Bar)[0] != spelling(TokenKind::Plus)[0]);
            assert(spelling(TokenKind::Bar)[0] != spelling(TokenKind::Minus)[0]);
            assert(spelling(TokenKind::Bar)[0] != spelling(TokenKind::Star)[0]);
            assert(spelling(TokenKind::Bar)[0] != spelling(TokenKind::Slash)[0]);
            assert(spelling(TokenKind::Bar)[0] != spelling(TokenKind::Colon)[0]);
            assert(spelling(TokenKind::Bar)[0] != spelling(TokenKind::Comma)[0]);
            assert(spelling(TokenKind::Bar)[0] != spelling(TokenKind::LBracket)[0]);
            assert(spelling(TokenKind::Bar)[0] != spelling(TokenKind::RBracket)[0]);
            assert(spelling(TokenKind::Bar)[0] != spelling(TokenKind::LParen)[0]);
            assert(spelling(TokenKind::Bar)[0] != spelling(TokenKind::RParen)[0]);
            assert(symbol_at(spelling(TokenKind::Bar), 0) == Some(TokenKind::Bar));
        },
        TokenKind::Exclam => {
            assert(spelling(TokenKind::Exclam)[0] != spelling(TokenKind::Semicolon)[0]);
            assert(spelling(TokenKind::Exclam)[0] != spelling(TokenKind::Eq)[0]);
            assert(spelling(TokenKind::Exclam)[0] != spelling(TokenKind::Gt)[0]);
            assert(spelling(TokenKind::Exclam)[0] != spelling(TokenKind::Lt)[0]);
            assert(spelling(TokenKind::Exclam)[0] != spelling(TokenKind::Plus)[0]);
            assert(spelling(TokenKind::Exclam)[0] != spelling(TokenKind::Minus)[0]);
            assert(spelling(TokenKind::Exclam)[0] != spelling(TokenKind::Star)[0]);
            assert(spelling(TokenKind::Exclam)[0] != spelling(TokenKind::Slash)[0]);
            assert(spelling(TokenKind::Exclam)[0] != spelling(TokenKind::Colon)[0]);
            assert(spelling(TokenKind::Exclam)[0] != spelling(TokenKind::Comma)[0]);
            assert(spelling(TokenKind::Exclam)[0] != spelling(TokenKind::LBracket)[0]);
            assert(spelling(TokenKind::Exclam)[0] != spelling(TokenKind::RBracket)[0]);
            assert(spelling(TokenKind::Exclam)[0] != spelling(TokenKind::LParen)[0]);
            assert(spelling(TokenKind::Exclam)[0] != spelling(TokenKind::RParen)[0]);
            assert(spelling(TokenKind::Exclam)[0] != spelling(TokenKind::Bar)[0]);
            assert(symbol_at(spelling(TokenKind::Exclam), 0) == Some(TokenKind::Exclam));
        },
        TokenKind::And | TokenKind::Array | TokenKind::Begin | TokenKind::Bool | TokenKind::Char | TokenKind::Delete | TokenKind::Dim | TokenKind::Do | TokenKind::Done | TokenKind::Downto | TokenKind::Else | TokenKind::End | TokenKind::False | TokenKind::Float | TokenKind::For | TokenKind::If | TokenKind::In | TokenKind::Int | TokenKind::Let | TokenKind::Match | TokenKind::Mod | TokenKind::Mutable | TokenKind::New | TokenKind::Not | TokenKind::Of | TokenKind::Rec | TokenKind::Ref | TokenKind::Then | TokenKind::To | TokenKind::True | TokenKind::Type | TokenKind::Unit | TokenKind::While | TokenKind::With | TokenKind::EOF | TokenKind::UNMATCHED | TokenKind::COMMENT | TokenKind::IdUpper | TokenKind::IdLower | TokenKind::IntLiteral | TokenKind::FloatLiteral | TokenKind::CharLiteral | TokenKind::StringLiteral => {
            assert(is_alnum(spelling(k)[0]));
        },
    }
}

} // verus!

verus! {

/// The one-character escapes: no two escapes stand for one byte; an
/// escaped quote, double quote or backslash stands for itself; an escaped
/// letter stands for a control character (`\n` a line feed, `\r` a
/// carriage return, `\t` a tab), and nothing else does.
pub proof fn law_single_char_escapes(c: u8, d: u8)
    ensures
        single_char_escape(c) is Some && single_char_escape(c) == single_char_escape(d) ==> c == d,
        (c == 0x27 || c == 0x22 || c == 0x5c) ==> single_char_escape(c) == Some(c),
        single_char_escape(c) matches Some(v) ==> (is_lower(c) <==> v < 0x20),
        c == 0x6e ==> single_char_escape(c) == Some(0x0au8),
        c == 0x72 ==> single_char_escape(c) == Some(0x0du8),
        c == 0x74 ==> single_char_escape(c) == Some(0x09u8),
{
}

} // verus!
