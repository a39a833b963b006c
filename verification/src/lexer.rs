//! The lexer: from characters to tokens.

use crate::text::{all_digits, digit_value, digits_number, is_digit};
use vstd::prelude::*;

verus! {

#[derive(Debug)]
pub enum Token {
    LParen,
    RParen,
    VectorOpen,
    Quote,
    Quasiquote,
    Unquote,
    UnquoteSplicing,
    Dot,
    Boolean(bool),
    Character(char),
    String(String),
    Number(i64),
    Symbol(String),
}

/// Model of `Token`.
pub enum TokenView {
    LParen,
    RParen,
    VectorOpen,
    Quote,
    Quasiquote,
    Unquote,
    UnquoteSplicing,
    Dot,
    Boolean(bool),
    Character(char),
    String(Seq<char>),
    Number(i64),
    Symbol(Seq<char>),
}

impl View for Token {
    type V = TokenView;

    open spec fn view(&self) -> TokenView {
        match self {
            Token::LParen => TokenView::LParen,
            Token::RParen => TokenView::RParen,
            Token::VectorOpen => TokenView::VectorOpen,
            Token::Quote => TokenView::Quote,
            Token::Quasiquote => TokenView::Quasiquote,
            Token::Unquote => TokenView::Unquote,
            Token::UnquoteSplicing => TokenView::UnquoteSplicing,
            Token::Dot => TokenView::Dot,
            Token::Boolean(b) => TokenView::Boolean(*b),
            Token::Character(c) => TokenView::Character(*c),
            Token::String(s) => TokenView::String(s@),
            Token::Number(n) => TokenView::Number(*n),
            Token::Symbol(s) => TokenView::Symbol(s@),
        }
    }
}

/// The models of a sequence of tokens.
pub open spec fn token_views(s: Seq<Token>) -> Seq<TokenView> {
    s.map_values(|t: Token| t@)
}

#[derive(Clone, Copy, PartialEq, Eq, Structural, Debug)]
pub enum LexErrorKind {
    /// A string literal that the input ends in the middle of.
    UnterminatedString,
    /// `#\` followed by nothing, or by a name that is none of `space`, `newline`, `tab`.
    UnknownCharacterName,
    /// A token that starts as a number and goes on with something else.
    InvalidNumber,
    /// A number that does not fit in 64 bits.
    NumberOutOfRange,
    /// A character that cannot stand in a symbol.
    InvalidCharacter,
    /// `#` followed by something that is no literal.
    InvalidHashSyntax,
}

/// A failure to scan, with the line and column (both from 1) at which the
/// offending token starts.
#[derive(Clone, Copy, PartialEq, Eq, Structural, Debug)]
pub struct LexError {
    pub kind: LexErrorKind,
    pub line: usize,
    pub col: usize,
}

pub open spec fn lex_error_text(kind: LexErrorKind) -> Seq<char> {
    match kind {
        LexErrorKind::UnterminatedString => "unterminated string"@,
        LexErrorKind::UnknownCharacterName => "unknown character name"@,
        LexErrorKind::InvalidNumber => "invalid number"@,
        LexErrorKind::NumberOutOfRange => "number out of range"@,
        LexErrorKind::InvalidCharacter => "invalid character in symbol"@,
        LexErrorKind::InvalidHashSyntax => "invalid syntax after #"@,
    }
}

impl LexError {
    /// The message, without the position.
    pub fn msg(&self) -> (r: &'static str)
        ensures
            r@ == lex_error_text(self.kind),
    {
        match self.kind {
            LexErrorKind::UnterminatedString => "unterminated string",
            LexErrorKind::UnknownCharacterName => "unknown character name",
            LexErrorKind::InvalidNumber => "invalid number",
            LexErrorKind::NumberOutOfRange => "number out of range",
            LexErrorKind::InvalidCharacter => "invalid character in symbol",
            LexErrorKind::InvalidHashSyntax => "invalid syntax after #",
        }
    }
}

pub open spec fn is_whitespace(c: char) -> bool {
    c == ' ' || c == '\t' || c == '\n' || c == '\r'
}

/// The characters that end a token.
pub open spec fn is_delimiter(c: char) -> bool {
    is_whitespace(c) || c == '(' || c == ')' || c == '"' || c == ';' || c == '\'' || c == '`' || c
        == ','
}

pub open spec fn is_letter(c: char) -> bool {
    ('a' <= c <= 'z') || ('A' <= c <= 'Z')
}

/// The characters a symbol or a number is made of.
pub open spec fn is_constituent(c: char) -> bool {
    is_letter(c) || is_digit(c) || c == '!' || c == '$' || c == '%' || c == '&' || c == '*' || c
        == '+' || c == '-' || c == '.' || c == '/' || c == ':' || c == '<' || c == '=' || c == '>'
        || c == '?' || c == '@' || c == '^' || c == '_' || c == '~'
}

/// ASCII upper case letters become lower case; everything else stays.
pub open spec fn lower(c: char) -> char {
    if 'A' <= c <= 'Z' {
        ((c as u8) + 32) as char
    } else {
        c
    }
}

pub open spec fn lowered(s: Seq<char>) -> Seq<char> {
    s.map_values(|c: char| lower(c))
}

/// Where the run of non-delimiters that starts at `pos` ends.
pub open spec fn run_end(s: Seq<char>, pos: int) -> int
    decreases s.len() - pos,
{
    if 0 <= pos < s.len() && !is_delimiter(s[pos]) {
        run_end(s, pos + 1)
    } else {
        pos
    }
}

/// Where the line that `pos` is in ends: behind its newline, or at the end of
/// the input.
pub open spec fn line_end(s: Seq<char>, pos: int) -> int
    decreases s.len() - pos,
{
    if 0 <= pos < s.len() {
        if s[pos] == '\n' {
            pos + 1
        } else {
            line_end(s, pos + 1)
        }
    } else {
        pos
    }
}

/// The text of the string literal whose first character (behind the opening
/// quote) is at `pos`, and the position behind its closing quote; `None`
/// when the input ends first. A backslash makes the next character stand for
/// itself.
pub open spec fn string_body(s: Seq<char>, pos: int) -> Option<(Seq<char>, int)>
    decreases s.len() - pos,
{
    if !(0 <= pos < s.len()) {
        None
    } else if s[pos] == '"' {
        Some((Seq::empty(), pos + 1))
    } else if s[pos] == '\\' {
        if pos + 1 < s.len() {
            match string_body(s, pos + 2) {
                Some((t, e)) => Some((seq![s[pos + 1]] + t, e)),
                None => None,
            }
        } else {
            None
        }
    } else {
        match string_body(s, pos + 1) {
            Some((t, e)) => Some((seq![s[pos]] + t, e)),
            None => None,
        }
    }
}

/// Whether a token that starts like `t` is read as a number.
pub open spec fn looks_numeric(t: Seq<char>) -> bool {
    t.len() > 0 && (is_digit(t[0]) || ((t[0] == '+' || t[0] == '-') && t.len() > 1 && is_digit(
        t[1],
    )))
}

/// The number token for `t`, which looks numeric: an optional sign and then
/// digits only, within 64 bits.
pub open spec fn number_token(t: Seq<char>) -> Result<TokenView, LexErrorKind> {
    let signed = t[0] == '+' || t[0] == '-';
    let digits = if signed {
        t.skip(1)
    } else {
        t
    };
    let magnitude = digits_number(digits) as int;
    let n = if t[0] == '-' {
        -magnitude
    } else {
        magnitude
    };
    if !all_digits(digits) {
        Err(LexErrorKind::InvalidNumber)
    } else if i64::MIN <= n <= i64::MAX {
        Ok(TokenView::Number(n as i64))
    } else {
        Err(LexErrorKind::NumberOutOfRange)
    }
}

pub open spec fn all_constituents(t: Seq<char>) -> bool {
    forall|i: int| 0 <= i < t.len() ==> is_constituent(#[trigger] t[i])
}

/// The token for a run `t` of non-delimiters that does not start with `#`:
/// the dot, a number, or a symbol in lower case.
pub open spec fn atom_token(t: Seq<char>) -> Result<TokenView, LexErrorKind> {
    if !all_constituents(t) {
        Err(LexErrorKind::InvalidCharacter)
    } else if t == seq!['.'] {
        Ok(TokenView::Dot)
    } else if looks_numeric(t) {
        number_token(t)
    } else {
        Ok(TokenView::Symbol(lowered(t)))
    }
}

/// The character that `#\` followed by `name` denotes.
pub open spec fn character_token(name: Seq<char>) -> Result<TokenView, LexErrorKind> {
    if name.len() == 1 {
        Ok(TokenView::Character(name[0]))
    } else if name == "space"@ {
        Ok(TokenView::Character(' '))
    } else if name == "newline"@ {
        Ok(TokenView::Character('\n'))
    } else if name == "tab"@ {
        Ok(TokenView::Character('\t'))
    } else {
        Err(LexErrorKind::UnknownCharacterName)
    }
}

/// What stands at `pos`, where `s[pos]` is `#`: the opening of a vector, a
/// character (`#\` takes the next character whatever it is, and then the
/// rest of the run), or a boolean.
pub open spec fn scan_hash(s: Seq<char>, pos: int) -> Result<(Option<TokenView>, int), LexErrorKind> {
    if pos + 1 < s.len() && s[pos + 1] == '(' {
        Ok((Some(TokenView::VectorOpen), pos + 2))
    } else if pos + 1 < s.len() && s[pos + 1] == '\\' {
        if pos + 2 < s.len() {
            let end = run_end(s, pos + 3);
            match character_token(s.subrange(pos + 2, end)) {
                Ok(t) => Ok((Some(t), end)),
                Err(k) => Err(k),
            }
        } else {
            Err(LexErrorKind::UnknownCharacterName)
        }
    } else {
        let end = run_end(s, pos + 1);
        let t = s.subrange(pos, end);
        if t == seq!['#', 't'] {
            Ok((Some(TokenView::Boolean(true)), end))
        } else if t == seq!['#', 'f'] {
            Ok((Some(TokenView::Boolean(false)), end))
        } else {
            Err(LexErrorKind::InvalidHashSyntax)
        }
    }
}

/// What stands at `pos`: nothing (white space, a comment) or a token, and
/// where the scan goes on.
pub open spec fn scan(s: Seq<char>, pos: int) -> Result<(Option<TokenView>, int), LexErrorKind>
    recommends
        0 <= pos < s.len(),
{
    let c = s[pos];
    if is_whitespace(c) {
        Ok((None, pos + 1))
    } else if c == ';' {
        Ok((None, line_end(s, pos + 1)))
    } else if c == '(' {
        Ok((Some(TokenView::LParen), pos + 1))
    } else if c == ')' {
        Ok((Some(TokenView::RParen), pos + 1))
    } else if c == '\'' {
        Ok((Some(TokenView::Quote), pos + 1))
    } else if c == '`' {
        Ok((Some(TokenView::Quasiquote), pos + 1))
    } else if c == ',' {
        if pos + 1 < s.len() && s[pos + 1] == '@' {
            Ok((Some(TokenView::UnquoteSplicing), pos + 2))
        } else {
            Ok((Some(TokenView::Unquote), pos + 1))
        }
    } else if c == '"' {
        match string_body(s, pos + 1) {
            Some((text, end)) => Ok((Some(TokenView::String(text)), end)),
            None => Err(LexErrorKind::UnterminatedString),
        }
    } else if c == '#' {
        scan_hash(s, pos)
    } else {
        let end = run_end(s, pos);
        match atom_token(s.subrange(pos, end)) {
            Ok(t) => Ok((Some(t), end)),
            Err(k) => Err(k),
        }
    }
}

/// The line of position `pos`, from 1.
pub open spec fn line_of(s: Seq<char>, pos: int) -> int
    decreases pos,
{
    if pos <= 0 || pos > s.len() {
        1
    } else if s[pos - 1] == '\n' {
        line_of(s, pos - 1) + 1
    } else {
        line_of(s, pos - 1)
    }
}

/// The column of position `pos` in its line, from 1.
pub open spec fn column_of(s: Seq<char>, pos: int) -> int
    decreases pos,
{
    if pos <= 0 || pos > s.len() {
        1
    } else if s[pos - 1] == '\n' {
        1
    } else {
        column_of(s, pos - 1) + 1
    }
}

/// `prefix` before the tokens of `rest`, if there are any.
pub open spec fn after(prefix: Seq<TokenView>, rest: Result<Seq<TokenView>, LexError>) -> Result<
    Seq<TokenView>,
    LexError,
> {
    match rest {
        Ok(tokens) => Ok(prefix + tokens),
        Err(e) => Err(e),
    }
}

/// The tokens of `s` from `pos` on, or the first error.
pub open spec fn lex_from(s: Seq<char>, pos: int) -> Result<Seq<TokenView>, LexError>
    decreases s.len() - pos,
{
    if !(0 <= pos < s.len()) {
        Ok(Seq::empty())
    } else {
        match scan(s, pos) {
            Err(kind) => Err(
                LexError { kind, line: line_of(s, pos) as usize, col: column_of(s, pos) as usize },
            ),
            Ok((token, next)) => if next <= pos || next > s.len() {
                Ok(Seq::empty())
            } else {
                match token {
                    Some(t) => after(seq![t], lex_from(s, next)),
                    None => lex_from(s, next),
                }
            },
        }
    }
}

/// The tokens of a text.
pub open spec fn lex(s: Seq<char>) -> Result<Seq<TokenView>, LexError> {
    lex_from(s, 0)
}

pub open spec fn scanned_view(r: Result<(Option<Token>, usize), LexErrorKind>) -> Result<
    (Option<TokenView>, int),
    LexErrorKind,
> {
    match r {
        Ok((Some(t), next)) => Ok((Some(t@), next as int)),
        Ok((None, next)) => Ok((None, next as int)),
        Err(k) => Err(k),
    }
}

pub open spec fn lexed_view(r: Result<Vec<Token>, LexError>) -> Result<Seq<TokenView>, LexError> {
    match r {
        Ok(tokens) => Ok(token_views(tokens@)),
        Err(e) => Err(e),
    }
}

pub proof fn lemma_run_end_bounds(s: Seq<char>, pos: int)
    requires
        0 <= pos <= s.len(),
    ensures
        pos <= run_end(s, pos) <= s.len(),
        pos < s.len() && !is_delimiter(s[pos]) ==> pos < run_end(s, pos),
        forall|i: int| pos <= i < run_end(s, pos) ==> !is_delimiter(#[trigger] s[i]),
        run_end(s, pos) < s.len() ==> is_delimiter(s[run_end(s, pos)]),
    decreases s.len() - pos,
{
    if pos < s.len() && !is_delimiter(s[pos]) {
        lemma_run_end_bounds(s, pos + 1);
    }
}

/// A value of a number's digits is at least the value of any prefix of them.
pub proof fn lemma_digits_number_prefix(s: Seq<char>, i: int)
    requires
        0 <= i <= s.len(),
        all_digits(s),
    ensures
        digits_number(s.take(i)) <= digits_number(s),
    decreases s.len() - i,
{
    if i < s.len() {
        lemma_digits_number_prefix(s, i + 1);
        assert(s.take(i + 1).drop_last() =~= s.take(i));
        assert(s.take(i + 1).last() == s[i]);
        assert(is_digit(s[i]));
    } else {
        assert(s.take(i) =~= s);
    }
}

fn check_whitespace(c: char) -> (r: bool)
    ensures
        r == is_whitespace(c),
{
    c == ' ' || c == '\t' || c == '\n' || c == '\r'
}

fn check_delimiter(c: char) -> (r: bool)
    ensures
        r == is_delimiter(c),
{
    check_whitespace(c) || c == '(' || c == ')' || c == '"' || c == ';' || c == '\'' || c == '`'
        || c == ','
}

fn check_digit(c: char) -> (r: bool)
    ensures
        r == is_digit(c),
{
    '0' <= c && c <= '9'
}

fn check_constituent(c: char) -> (r: bool)
    ensures
        r == is_constituent(c),
{
    ('a' <= c && c <= 'z') || ('A' <= c && c <= 'Z') || check_digit(c) || c == '!' || c == '$'
        || c == '%' || c == '&' || c == '*' || c == '+' || c == '-' || c == '.' || c == '/' || c
        == ':' || c == '<' || c == '=' || c == '>' || c == '?' || c == '@' || c == '^' || c == '_'
        || c == '~'
}

fn to_lower(c: char) -> (r: char)
    ensures
        r == lower(c),
{
    if 'A' <= c && c <= 'Z' {
        ((c as u8) + 32) as char
    } else {
        c
    }
}

fn find_run_end(chars: &Vec<char>, pos: usize) -> (r: usize)
    requires
        pos <= chars.len(),
    ensures
        r == run_end(chars@, pos as int),
        pos <= r <= chars.len(),
{
    let mut i: usize = pos;
    while i < chars.len() && !check_delimiter(chars[i])
        invariant
            pos <= i <= chars.len(),
            run_end(chars@, pos as int) == run_end(chars@, i as int),
        decreases chars.len() - i,
    {
        i = i + 1;
    }
    i
}

fn find_line_end(chars: &Vec<char>, pos: usize) -> (r: usize)
    requires
        pos <= chars.len(),
    ensures
        r == line_end(chars@, pos as int),
        pos <= r <= chars.len(),
{
    let mut i: usize = pos;
    while i < chars.len()
        invariant
            pos <= i <= chars.len(),
            line_end(chars@, pos as int) == line_end(chars@, i as int),
        decreases chars.len() - i,
    {
        if chars[i] == '\n' {
            return i + 1;
        }
        i = i + 1;
    }
    i
}

/// `prefix` before the text of `rest`.
spec fn text_after(prefix: Seq<char>, rest: Option<(Seq<char>, int)>) -> Option<(Seq<char>, int)> {
    match rest {
        Some((t, e)) => Some((prefix + t, e)),
        None => None,
    }
}

fn read_string(chars: &Vec<char>, pos: usize) -> (r: Option<(String, usize)>)
    requires
        pos <= chars.len(),
    ensures
        match r {
            Some((text, end)) => string_body(chars@, pos as int) == Some((text@, end as int)) && pos
                < end <= chars.len(),
            None => string_body(chars@, pos as int) is None,
        },
{
    let mut text = String::new();
    let mut i: usize = pos;
    assert(text_after(text@, string_body(chars@, i as int)) =~= string_body(chars@, pos as int))
        by {
        match string_body(chars@, i as int) {
            Some((t, e)) => {
                assert(text@ + t =~= t);
            },
            None => {},
        }
    }
    while i < chars.len()
        invariant
            pos <= i <= chars.len(),
            string_body(chars@, pos as int) == text_after(text@, string_body(chars@, i as int)),
        decreases chars.len() - i,
    {
        let ghost prev = text@;
        let c = chars[i];
        if c == '"' {
            assert(prev + Seq::<char>::empty() =~= prev);
            return Some((text, i + 1));
        } else if c == '\\' {
            if i + 1 < chars.len() {
                text.push(chars[i + 1]);
                proof {
                    match string_body(chars@, i + 2) {
                        Some((t, e)) => {
                            assert(prev + (seq![chars@[i + 1]] + t) =~= text@ + t);
                        },
                        None => {},
                    }
                }
                i = i + 2;
            } else {
                return None;
            }
        } else {
            text.push(c);
            proof {
                match string_body(chars@, i + 1) {
                    Some((t, e)) => {
                        assert(prev + (seq![c] + t) =~= text@ + t);
                    },
                    None => {},
                }
            }
            i = i + 1;
        }
    }
    None
}

fn read_number(chars: &Vec<char>, start: usize, end: usize) -> (r: Result<Token, LexErrorKind>)
    requires
        start < end <= chars.len(),
        looks_numeric(chars@.subrange(start as int, end as int)),
    ensures
        match r {
            Ok(t) => number_token(chars@.subrange(start as int, end as int)) == Ok::<
                TokenView,
                LexErrorKind,
            >(t@),
            Err(k) => number_token(chars@.subrange(start as int, end as int)) == Err::<
                TokenView,
                LexErrorKind,
            >(k),
        },
{
    let ghost t = chars@.subrange(start as int, end as int);
    let first = chars[start];
    assert(first == t[0]);
    let negative = first == '-';
    let from: usize = if first == '+' || first == '-' {
        start + 1
    } else {
        start
    };
    let ghost digits = chars@.subrange(from as int, end as int);
    assert(digits =~= if t[0] == '+' || t[0] == '-' {
        t.skip(1)
    } else {
        t
    });
    let mut i: usize = from;
    while i < end
        invariant
            from <= i <= end <= chars.len(),
            t == chars@.subrange(start as int, end as int),
            start < end,
            digits == chars@.subrange(from as int, end as int),
            digits == if t[0] == '+' || t[0] == '-' {
                t.skip(1)
            } else {
                t
            },
            forall|j: int| 0 <= j < i - from ==> is_digit(#[trigger] digits[j]),
        decreases end - i,
    {
        if !check_digit(chars[i]) {
            assert(!is_digit(digits[i - from]));
            assert(!all_digits(digits));
            return Err(LexErrorKind::InvalidNumber);
        }
        i = i + 1;
    }
    assert(all_digits(digits));
    let limit: i128 = 0x8000_0000_0000_0000;
    let mut acc: i128 = 0;
    i = from;
    assert(digits.take(0) =~= Seq::<char>::empty());
    while i < end
        invariant
            from <= i <= end <= chars.len(),
            t == chars@.subrange(start as int, end as int),
            start < end,
            negative == (t[0] == '-'),
            digits == chars@.subrange(from as int, end as int),
            digits == if t[0] == '+' || t[0] == '-' {
                t.skip(1)
            } else {
                t
            },
            all_digits(digits),
            limit == 0x8000_0000_0000_0000,
            acc == digits_number(digits.take(i - from)),
            0 <= acc <= limit,
        decreases end - i,
    {
        let c = chars[i];
        proof {
            assert(c == digits[i - from]);
            assert(is_digit(digits[i - from]));
        }
        let d: i128 = ((c as u8) - 48) as i128;
        proof {
            assert(digits.take(i - from + 1).drop_last() =~= digits.take(i - from));
            assert(digits.take(i - from + 1).last() == c);
            assert(d == digit_value(c));
            lemma_digits_number_prefix(digits, i - from + 1);
        }
        acc = acc * 10 + d;
        if acc > limit {
            return Err(LexErrorKind::NumberOutOfRange);
        }
        i = i + 1;
    }
    assert(digits.take(end - from) =~= digits);
    if negative {
        Ok(Token::Number((-acc) as i64))
    } else if acc == limit {
        Err(LexErrorKind::NumberOutOfRange)
    } else {
        Ok(Token::Number(acc as i64))
    }
}

fn read_atom(chars: &Vec<char>, start: usize, end: usize) -> (r: Result<Token, LexErrorKind>)
    requires
        start < end <= chars.len(),
    ensures
        match r {
            Ok(t) => atom_token(chars@.subrange(start as int, end as int)) == Ok::<
                TokenView,
                LexErrorKind,
            >(t@),
            Err(k) => atom_token(chars@.subrange(start as int, end as int)) == Err::<
                TokenView,
                LexErrorKind,
            >(k),
        },
{
    let ghost t = chars@.subrange(start as int, end as int);
    let mut i: usize = start;
    while i < end
        invariant
            start <= i <= end <= chars.len(),
            t == chars@.subrange(start as int, end as int),
            forall|j: int| 0 <= j < i - start ==> is_constituent(#[trigger] t[j]),
        decreases end - i,
    {
        if !check_constituent(chars[i]) {
            assert(!is_constituent(t[i - start]));
            return Err(LexErrorKind::InvalidCharacter);
        }
        i = i + 1;
    }
    assert(all_constituents(t));
    let first = chars[start];
    assert(first == t[0]);
    if end - start == 1 && first == '.' {
        assert(t =~= seq!['.']);
        return Ok(Token::Dot);
    }
    assert(t != seq!['.']) by {
        if t == seq!['.'] {
            assert(t.len() == 1);
            assert(seq!['.'][0] == '.');
        }
    }
    let numeric = check_digit(first) || ((first == '+' || first == '-') && end - start > 1
        && check_digit(chars[start + 1]));
    assert(numeric == looks_numeric(t)) by {
        if t.len() > 1 {
            assert(t[1] == chars@[start + 1]);
        }
    }
    if numeric {
        return read_number(chars, start, end);
    }
    let mut name = String::new();
    i = start;
    while i < end
        invariant
            start <= i <= end <= chars.len(),
            t == chars@.subrange(start as int, end as int),
            name@ == lowered(t.take(i - start)),
        decreases end - i,
    {
        let ghost prev = name@;
        name.push(to_lower(chars[i]));
        proof {
            assert(lowered(t.take(i - start + 1)) =~= prev.push(lower(t[i - start])));
        }
        i = i + 1;
    }
    assert(t.take(end - start) =~= t);
    Ok(Token::Symbol(name))
}

fn read_character(chars: &Vec<char>, start: usize, end: usize) -> (r: Result<Token, LexErrorKind>)
    requires
        start < end <= chars.len(),
    ensures
        match r {
            Ok(t) => character_token(chars@.subrange(start as int, end as int)) == Ok::<
                TokenView,
                LexErrorKind,
            >(t@),
            Err(k) => character_token(chars@.subrange(start as int, end as int)) == Err::<
                TokenView,
                LexErrorKind,
            >(k),
        },
{
    let ghost name = chars@.subrange(start as int, end as int);
    if end - start == 1 {
        assert(name[0] == chars@[start as int]);
        return Ok(Token::Character(chars[start]));
    }
    if matches_literal(chars, start, end, "space") {
        Ok(Token::Character(' '))
    } else if matches_literal(chars, start, end, "newline") {
        Ok(Token::Character('\n'))
    } else if matches_literal(chars, start, end, "tab") {
        Ok(Token::Character('\t'))
    } else {
        Err(LexErrorKind::UnknownCharacterName)
    }
}

/// Whether `chars[start..end]` is the text `lit`.
fn matches_literal(chars: &Vec<char>, start: usize, end: usize, lit: &str) -> (r: bool)
    requires
        start <= end <= chars.len(),
    ensures
        r == (chars@.subrange(start as int, end as int) == lit@),
{
    let ghost t = chars@.subrange(start as int, end as int);
    let n = lit.unicode_len();
    if end - start != n {
        return false;
    }
    let mut i: usize = 0;
    while i < n
        invariant
            i <= n,
            n == lit@.len(),
            n == end - start,
            start <= end <= chars.len(),
            t == chars@.subrange(start as int, end as int),
            forall|j: int| 0 <= j < i ==> t[j] == lit@[j],
        decreases n - i,
    {
        if chars[start + i] != lit.get_char(i) {
            assert(t[i as int] != lit@[i as int]);
            return false;
        }
        i = i + 1;
    }
    assert(t =~= lit@);
    true
}

fn read_hash(chars: &Vec<char>, pos: usize) -> (r: Result<(Option<Token>, usize), LexErrorKind>)
    requires
        pos < chars.len(),
        chars@[pos as int] == '#',
    ensures
        scanned_view(r) == scan_hash(chars@, pos as int),
        r matches Ok((_, next)) ==> pos < next <= chars.len(),
{
    let n = chars.len();
    if pos + 1 < n && chars[pos + 1] == '(' {
        Ok((Some(Token::VectorOpen), pos + 2))
    } else if pos + 1 < n && chars[pos + 1] == '\\' {
        if pos + 2 < n {
            let end = find_run_end(chars, pos + 3);
            match read_character(chars, pos + 2, end) {
                Ok(t) => Ok((Some(t), end)),
                Err(k) => Err(k),
            }
        } else {
            Err(LexErrorKind::UnknownCharacterName)
        }
    } else {
        let end = find_run_end(chars, pos + 1);
        let ghost t = chars@.subrange(pos as int, end as int);
        if end - pos == 2 && chars[pos + 1] == 't' {
            assert(t =~= seq!['#', 't']);
            Ok((Some(Token::Boolean(true)), end))
        } else if end - pos == 2 && chars[pos + 1] == 'f' {
            assert(t =~= seq!['#', 'f']);
            assert(seq!['#', 'f'][1] != seq!['#', 't'][1]);
            Ok((Some(Token::Boolean(false)), end))
        } else {
            proof {
                if t == seq!['#', 't'] {
                    assert(t.len() == 2);
                    assert(seq!['#', 't'][1] == 't');
                }
                if t == seq!['#', 'f'] {
                    assert(t.len() == 2);
                    assert(seq!['#', 'f'][1] == 'f');
                }
            }
            Err(LexErrorKind::InvalidHashSyntax)
        }
    }
}

fn read_token(chars: &Vec<char>, pos: usize) -> (r: Result<(Option<Token>, usize), LexErrorKind>)
    requires
        pos < chars.len(),
    ensures
        scanned_view(r) == scan(chars@, pos as int),
        r matches Ok((_, next)) ==> pos < next <= chars.len(),
{
    let c = chars[pos];
    if check_whitespace(c) {
        Ok((None, pos + 1))
    } else if c == ';' {
        Ok((None, find_line_end(chars, pos + 1)))
    } else if c == '(' {
        Ok((Some(Token::LParen), pos + 1))
    } else if c == ')' {
        Ok((Some(Token::RParen), pos + 1))
    } else if c == '\'' {
        Ok((Some(Token::Quote), pos + 1))
    } else if c == '`' {
        Ok((Some(Token::Quasiquote), pos + 1))
    } else if c == ',' {
        if pos + 1 < chars.len() && chars[pos + 1] == '@' {
            Ok((Some(Token::UnquoteSplicing), pos + 2))
        } else {
            Ok((Some(Token::Unquote), pos + 1))
        }
    } else if c == '"' {
        match read_string(chars, pos + 1) {
            Some((text, end)) => Ok((Some(Token::String(text)), end)),
            None => Err(LexErrorKind::UnterminatedString),
        }
    } else if c == '#' {
        read_hash(chars, pos)
    } else {
        proof {
            lemma_run_end_bounds(chars@, pos as int);
        }
        let end = find_run_end(chars, pos);
        match read_atom(chars, pos, end) {
            Ok(t) => Ok((Some(t), end)),
            Err(k) => Err(k),
        }
    }
}

/// The line and the column of `pos`.
fn locate(chars: &Vec<char>, pos: usize) -> (r: (usize, usize))
    requires
        pos < chars.len(),
    ensures
        r.0 == line_of(chars@, pos as int),
        r.1 == column_of(chars@, pos as int),
{
    let mut line: usize = 1;
    let mut col: usize = 1;
    let mut i: usize = 0;
    while i < pos
        invariant
            i <= pos < chars.len(),
            line == line_of(chars@, i as int),
            col == column_of(chars@, i as int),
            1 <= line <= i + 1,
            1 <= col <= i + 1,
        decreases pos - i,
    {
        if chars[i] == '\n' {
            line = line + 1;
            col = 1;
        } else {
            col = col + 1;
        }
        i = i + 1;
    }
    (line, col)
}

/// The characters of a text, one by one.
pub fn chars_of(text: &str) -> (r: Vec<char>)
    ensures
        r@ == text@,
{
    let mut out: Vec<char> = Vec::new();
    for c in it: text.chars()
        invariant
            out@ == it.seq().take(it.index@),
    {
        out.push(c);
    }
    out
}

/// A lexer over a text, at some position in it.
pub struct Lexer {
    chars: Vec<char>,
    pos: usize,
}

impl Lexer {
    /// The text that is being read.
    pub closed spec fn text(&self) -> Seq<char> {
        self.chars@
    }

    /// How many characters have been read.
    pub closed spec fn position(&self) -> int {
        self.pos as int
    }

    /// A lexer at the start of `text`.
    pub fn new(text: &str) -> (r: Lexer)
        ensures
            r.text() == text@,
            r.position() == 0,
    {
        Lexer { chars: chars_of(text), pos: 0 }
    }

    /// Reads to the end of the text: all the tokens from the current
    /// position on, or the first error.
    pub fn lex_all(&mut self) -> (r: Result<Vec<Token>, LexError>)
        ensures
            lexed_view(r) == lex_from(old(self).text(), old(self).position()),
            final(self).text() == old(self).text(),
            r is Ok ==> final(self).position() >= final(self).text().len(),
            r is Err ==> 0 <= final(self).position() < final(self).text().len() && scan(
                final(self).text(),
                final(self).position(),
            ) is Err,
    {
        let mut tokens: Vec<Token> = Vec::new();
        let ghost s = self.chars@;
        let ghost start = self.pos as int;
        proof {
            match lex_from(s, start) {
                Ok(rest) => {
                    assert(token_views(tokens@) + rest =~= rest);
                },
                Err(e) => {},
            }
        }
        while self.pos < self.chars.len()
            invariant
                self.chars@ == s,
                s == old(self).chars@,
                start == old(self).pos,
                start <= self.pos,
                lex_from(s, start) == after(token_views(tokens@), lex_from(s, self.pos as int)),
            decreases self.chars.len() - self.pos,
        {
            let ghost prev = tokens@;
            match read_token(&self.chars, self.pos) {
                Err(kind) => {
                    let (line, col) = locate(&self.chars, self.pos);
                    return Err(LexError { kind, line, col });
                },
                Ok((token, next)) => {
                    match token {
                        Some(t) => {
                            tokens.push(t);
                            proof {
                                assert(token_views(tokens@) =~= token_views(prev).push(
                                    tokens@.last()@,
                                ));
                                match lex_from(s, next as int) {
                                    Ok(rest) => {
                                        assert(token_views(prev) + (seq![tokens@.last()@] + rest)
                                            =~= token_views(tokens@) + rest);
                                    },
                                    Err(e) => {},
                                }
                            }
                        },
                        None => {},
                    }
                    self.pos = next;
                },
            }
        }
        proof {
            assert(token_views(tokens@) + Seq::<TokenView>::empty() =~= token_views(tokens@));
        }
        Ok(tokens)
    }
}

/// The tokens of `text`, or the first error.
pub fn tokenize(text: &str) -> (r: Result<Vec<Token>, LexError>)
    ensures
        lexed_view(r) == lex(text@),
{
    let mut lexer = Lexer::new(text);
    lexer.lex_all()
}

} // verus!
