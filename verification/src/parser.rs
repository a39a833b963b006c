//! The parser: from tokens to data.

use crate::datum::{chain, lemma_chain_push, lemma_values_of_push, values_of, Datum, Value};
use crate::lexer::{token_views, Token, TokenView};
use std::rc::Rc;
use vstd::prelude::*;

verus! {

#[derive(Clone, Copy, PartialEq, Eq, Structural, Debug)]
pub enum ParseErrorKind {
    /// The input ends inside a datum, or where one has to stand.
    UnexpectedEof,
    /// A closing parenthesis that closes nothing.
    UnexpectedCloseParen,
    /// A dot anywhere but behind the first elements of a list.
    MisplacedDot,
    /// A dot in a list that is not followed by one datum and the closing
    /// parenthesis.
    BadDottedTail,
}

#[derive(Clone, Copy, PartialEq, Eq, Structural, Debug)]
pub struct ParseError {
    pub kind: ParseErrorKind,
}

pub open spec fn parse_error_text(kind: ParseErrorKind) -> Seq<char> {
    match kind {
        ParseErrorKind::UnexpectedEof => "unexpected end of input"@,
        ParseErrorKind::UnexpectedCloseParen => "unexpected closing parenthesis"@,
        ParseErrorKind::MisplacedDot => "dot in the wrong position"@,
        ParseErrorKind::BadDottedTail => "a dot must be followed by one datum and a closing parenthesis"@,
    }
}

impl ParseError {
    pub fn msg(&self) -> (r: &'static str)
        ensures
            r@ == parse_error_text(self.kind),
    {
        match self.kind {
            ParseErrorKind::UnexpectedEof => "unexpected end of input",
            ParseErrorKind::UnexpectedCloseParen => "unexpected closing parenthesis",
            ParseErrorKind::MisplacedDot => "dot in the wrong position",
            ParseErrorKind::BadDottedTail => "a dot must be followed by one datum and a closing parenthesis",
        }
    }
}

/// The list `(name d)`: what `'d` and its like are read as.
pub open spec fn quoted(name: Seq<char>, d: Value) -> Value {
    Value::Pair(
        Box::new(Value::Symbol(name)),
        Box::new(Value::Pair(Box::new(d), Box::new(Value::EmptyList))),
    )
}

/// The datum that starts at `pos`, and the position behind it.
pub open spec fn parse_datum(t: Seq<TokenView>, pos: int) -> Result<(Value, int), ParseErrorKind>
    decreases t.len() - pos, 0nat,
{
    if !(0 <= pos < t.len()) {
        Err(ParseErrorKind::UnexpectedEof)
    } else {
        match t[pos] {
            TokenView::LParen => parse_list_rest(t, pos + 1, true),
            TokenView::RParen => Err(ParseErrorKind::UnexpectedCloseParen),
            TokenView::VectorOpen => match parse_vector_rest(t, pos + 1) {
                Ok((items, end)) => Ok((Value::Vector(items), end)),
                Err(k) => Err(k),
            },
            TokenView::Quote => parse_quoted(t, pos + 1, "quote"@),
            TokenView::Quasiquote => parse_quoted(t, pos + 1, "quasiquote"@),
            TokenView::Unquote => parse_quoted(t, pos + 1, "unquote"@),
            TokenView::UnquoteSplicing => parse_quoted(t, pos + 1, "unquote-splicing"@),
            TokenView::Dot => Err(ParseErrorKind::MisplacedDot),
            TokenView::Boolean(b) => Ok((Value::Boolean(b), pos + 1)),
            TokenView::Character(c) => Ok((Value::Character(c), pos + 1)),
            TokenView::String(s) => Ok((Value::String(s), pos + 1)),
            TokenView::Number(n) => Ok((Value::Number(n), pos + 1)),
            TokenView::Symbol(s) => Ok((Value::Symbol(s), pos + 1)),
        }
    }
}

/// The datum at `pos`, wrapped in a list with `name`: what a quoting token
/// before `pos` makes of it.
pub open spec fn parse_quoted(t: Seq<TokenView>, pos: int, name: Seq<char>) -> Result<
    (Value, int),
    ParseErrorKind,
>
    decreases t.len() - pos, 1nat,
{
    match parse_datum(t, pos) {
        Ok((d, end)) => Ok((quoted(name, d), end)),
        Err(k) => Err(k),
    }
}

/// What follows a dot in a list: one datum and the closing parenthesis.
pub open spec fn parse_dotted_tail(t: Seq<TokenView>, pos: int) -> Result<
    (Value, int),
    ParseErrorKind,
>
    decreases t.len() - pos, 1nat,
{
    if !(0 <= pos < t.len()) {
        Err(ParseErrorKind::UnexpectedEof)
    } else if t[pos] is RParen {
        Err(ParseErrorKind::BadDottedTail)
    } else {
        match parse_datum(t, pos) {
            Err(k) => Err(k),
            Ok((d, next)) => if !(0 <= next < t.len()) {
                Err(ParseErrorKind::UnexpectedEof)
            } else if t[next] is RParen {
                Ok((d, next + 1))
            } else {
                Err(ParseErrorKind::BadDottedTail)
            },
        }
    }
}

/// The rest of a list from `pos` to its closing parenthesis; `first` says
/// that no element has been read yet.
pub open spec fn parse_list_rest(t: Seq<TokenView>, pos: int, first: bool) -> Result<
    (Value, int),
    ParseErrorKind,
>
    decreases t.len() - pos, 1nat,
{
    if !(0 <= pos < t.len()) {
        Err(ParseErrorKind::UnexpectedEof)
    } else if t[pos] is RParen {
        Ok((Value::EmptyList, pos + 1))
    } else if t[pos] is Dot {
        if first {
            Err(ParseErrorKind::MisplacedDot)
        } else {
            parse_dotted_tail(t, pos + 1)
        }
    } else {
        match parse_datum(t, pos) {
            Err(k) => Err(k),
            Ok((d, next)) => if next <= pos || next > t.len() {
                Err(ParseErrorKind::UnexpectedEof)
            } else {
                match parse_list_rest(t, next, false) {
                    Ok((rest, end)) => Ok((Value::Pair(Box::new(d), Box::new(rest)), end)),
                    Err(k) => Err(k),
                }
            },
        }
    }
}

/// The rest of a vector from `pos` to its closing parenthesis.
pub open spec fn parse_vector_rest(t: Seq<TokenView>, pos: int) -> Result<
    (Seq<Value>, int),
    ParseErrorKind,
>
    decreases t.len() - pos, 1nat,
{
    if !(0 <= pos < t.len()) {
        Err(ParseErrorKind::UnexpectedEof)
    } else if t[pos] is RParen {
        Ok((Seq::empty(), pos + 1))
    } else {
        match parse_datum(t, pos) {
            Err(k) => Err(k),
            Ok((d, next)) => if next <= pos || next > t.len() {
                Err(ParseErrorKind::UnexpectedEof)
            } else {
                match parse_vector_rest(t, next) {
                    Ok((rest, end)) => Ok((seq![d] + rest, end)),
                    Err(k) => Err(k),
                }
            },
        }
    }
}

/// The data from `pos` to the end of the tokens.
pub open spec fn parse_from(t: Seq<TokenView>, pos: int) -> Result<Seq<Value>, ParseError>
    decreases t.len() - pos,
{
    if !(0 <= pos < t.len()) {
        Ok(Seq::empty())
    } else {
        match parse_datum(t, pos) {
            Err(kind) => Err(ParseError { kind }),
            Ok((d, next)) => if next <= pos || next > t.len() {
                Ok(seq![d])
            } else {
                match parse_from(t, next) {
                    Ok(rest) => Ok(seq![d] + rest),
                    Err(e) => Err(e),
                }
            },
        }
    }
}

/// The data that a sequence of tokens denotes.
pub open spec fn parse(t: Seq<TokenView>) -> Result<Seq<Value>, ParseError> {
    parse_from(t, 0)
}

pub open spec fn datum_result_view(r: Result<(Datum, usize), ParseErrorKind>) -> Result<
    (Value, int),
    ParseErrorKind,
> {
    match r {
        Ok((d, next)) => Ok((d@, next as int)),
        Err(k) => Err(k),
    }
}

pub open spec fn items_result_view(r: Result<(Vec<Datum>, usize), ParseErrorKind>) -> Result<
    (Seq<Value>, int),
    ParseErrorKind,
> {
    match r {
        Ok((items, next)) => Ok((values_of(items@), next as int)),
        Err(k) => Err(k),
    }
}

pub open spec fn parsed_view(r: Result<Vec<Datum>, ParseError>) -> Result<Seq<Value>, ParseError> {
    match r {
        Ok(data) => Ok(values_of(data@)),
        Err(e) => Err(e),
    }
}

spec fn wrap_list(prefix: Seq<Value>, r: Result<(Value, int), ParseErrorKind>) -> Result<
    (Value, int),
    ParseErrorKind,
> {
    match r {
        Ok((rest, end)) => Ok((chain(prefix, rest), end)),
        Err(k) => Err(k),
    }
}

spec fn wrap_items(prefix: Seq<Value>, r: Result<(Seq<Value>, int), ParseErrorKind>) -> Result<
    (Seq<Value>, int),
    ParseErrorKind,
> {
    match r {
        Ok((rest, end)) => Ok((prefix + rest, end)),
        Err(k) => Err(k),
    }
}

spec fn wrap_data(prefix: Seq<Value>, r: Result<Seq<Value>, ParseError>) -> Result<
    Seq<Value>,
    ParseError,
> {
    match r {
        Ok(rest) => Ok(prefix + rest),
        Err(e) => Err(e),
    }
}

fn make_quoted(name: &str, d: Datum) -> (r: Datum)
    ensures
        r@ == quoted(name@, d@),
{
    Datum::cons(Datum::symbol(name), Datum::cons(d, Datum::EmptyList))
}

fn read_datum(tokens: &Vec<Token>, pos: usize) -> (r: Result<(Datum, usize), ParseErrorKind>)
    ensures
        datum_result_view(r) == parse_datum(token_views(tokens@), pos as int),
        r matches Ok((_, next)) ==> pos < next <= tokens.len(),
    decreases tokens.len() - pos, 0nat,
{
    let ghost t = token_views(tokens@);
    if pos >= tokens.len() {
        return Err(ParseErrorKind::UnexpectedEof);
    }
    assert(t[pos as int] == tokens@[pos as int]@);
    match &tokens[pos] {
        Token::LParen => read_list(tokens, pos + 1),
        Token::RParen => Err(ParseErrorKind::UnexpectedCloseParen),
        Token::VectorOpen => match read_vector(tokens, pos + 1) {
            Ok((items, end)) => Ok((Datum::Vector(Rc::new(items)), end)),
            Err(k) => Err(k),
        },
        Token::Quote => match read_datum(tokens, pos + 1) {
            Ok((d, end)) => Ok((make_quoted("quote", d), end)),
            Err(k) => Err(k),
        },
        Token::Quasiquote => match read_datum(tokens, pos + 1) {
            Ok((d, end)) => Ok((make_quoted("quasiquote", d), end)),
            Err(k) => Err(k),
        },
        Token::Unquote => match read_datum(tokens, pos + 1) {
            Ok((d, end)) => Ok((make_quoted("unquote", d), end)),
            Err(k) => Err(k),
        },
        Token::UnquoteSplicing => match read_datum(tokens, pos + 1) {
            Ok((d, end)) => Ok((make_quoted("unquote-splicing", d), end)),
            Err(k) => Err(k),
        },
        Token::Dot => Err(ParseErrorKind::MisplacedDot),
        Token::Boolean(b) => Ok((Datum::Boolean(*b), pos + 1)),
        Token::Character(c) => Ok((Datum::Character(*c), pos + 1)),
        Token::String(s) => Ok((Datum::String(s.clone()), pos + 1)),
        Token::Number(n) => Ok((Datum::Number(*n), pos + 1)),
        Token::Symbol(s) => Ok((Datum::Symbol(s.clone()), pos + 1)),
    }
}

fn read_dotted_tail(tokens: &Vec<Token>, pos: usize) -> (r: Result<(Datum, usize), ParseErrorKind>)
    ensures
        datum_result_view(r) == parse_dotted_tail(token_views(tokens@), pos as int),
        r matches Ok((_, next)) ==> pos < next <= tokens.len(),
    decreases tokens.len() - pos, 1nat,
{
    let ghost t = token_views(tokens@);
    if pos >= tokens.len() {
        return Err(ParseErrorKind::UnexpectedEof);
    }
    assert(t[pos as int] == tokens@[pos as int]@);
    if let Token::RParen = &tokens[pos] {
        return Err(ParseErrorKind::BadDottedTail);
    }
    match read_datum(tokens, pos) {
        Err(k) => Err(k),
        Ok((d, next)) => {
            if next >= tokens.len() {
                return Err(ParseErrorKind::UnexpectedEof);
            }
            assert(t[next as int] == tokens@[next as int]@);
            match &tokens[next] {
                Token::RParen => Ok((d, next + 1)),
                _ => Err(ParseErrorKind::BadDottedTail),
            }
        },
    }
}

fn read_list(tokens: &Vec<Token>, start: usize) -> (r: Result<(Datum, usize), ParseErrorKind>)
    ensures
        datum_result_view(r) == parse_list_rest(token_views(tokens@), start as int, true),
        r matches Ok((_, next)) ==> start < next <= tokens.len(),
    decreases tokens.len() - start, 2nat,
{
    let ghost t = token_views(tokens@);
    let mut items: Vec<Datum> = Vec::new();
    let mut pos: usize = start;
    loop
        invariant
            t == token_views(tokens@),
            start <= pos,
            pos == start <==> items.len() == 0,
            parse_list_rest(t, start as int, true) == wrap_list(
                values_of(items@),
                parse_list_rest(t, pos as int, items.len() == 0),
            ),
        decreases tokens.len() - pos,
    {
        if pos >= tokens.len() {
            return Err(ParseErrorKind::UnexpectedEof);
        }
        assert(t[pos as int] == tokens@[pos as int]@);
        match &tokens[pos] {
            Token::RParen => {
                return Ok((Datum::list_from(&items), pos + 1));
            },
            Token::Dot => {
                if items.len() == 0 {
                    return Err(ParseErrorKind::MisplacedDot);
                }
                return match read_dotted_tail(tokens, pos + 1) {
                    Ok((end, next)) => Ok((Datum::chain_from(&items, end), next)),
                    Err(k) => Err(k),
                };
            },
            _ => {
                match read_datum(tokens, pos) {
                    Err(k) => {
                        return Err(k);
                    },
                    Ok((d, next)) => {
                        let ghost prev = items@;
                        proof {
                            lemma_values_of_push(prev, d);
                            match parse_list_rest(t, next as int, false) {
                                Ok((rest, end)) => {
                                    lemma_chain_push(values_of(prev), d@, rest);
                                },
                                Err(k) => {},
                            }
                        }
                        items.push(d);
                        pos = next;
                    },
                }
            },
        }
    }
}

fn read_vector(tokens: &Vec<Token>, start: usize) -> (r: Result<(Vec<Datum>, usize), ParseErrorKind>)
    ensures
        items_result_view(r) == parse_vector_rest(token_views(tokens@), start as int),
        r matches Ok((_, next)) ==> start < next <= tokens.len(),
    decreases tokens.len() - start, 2nat,
{
    let ghost t = token_views(tokens@);
    let mut items: Vec<Datum> = Vec::new();
    let mut pos: usize = start;
    proof {
        match parse_vector_rest(t, start as int) {
            Ok((rest, end)) => {
                assert(values_of(items@) + rest =~= rest);
            },
            Err(k) => {},
        }
    }
    loop
        invariant
            t == token_views(tokens@),
            start <= pos,
            parse_vector_rest(t, start as int) == wrap_items(
                values_of(items@),
                parse_vector_rest(t, pos as int),
            ),
        decreases tokens.len() - pos,
    {
        if pos >= tokens.len() {
            return Err(ParseErrorKind::UnexpectedEof);
        }
        assert(t[pos as int] == tokens@[pos as int]@);
        match &tokens[pos] {
            Token::RParen => {
                assert(values_of(items@) + Seq::<Value>::empty() =~= values_of(items@));
                return Ok((items, pos + 1));
            },
            _ => {
                match read_datum(tokens, pos) {
                    Err(k) => {
                        return Err(k);
                    },
                    Ok((d, next)) => {
                        let ghost prev = items@;
                        proof {
                            lemma_values_of_push(prev, d);
                            match parse_vector_rest(t, next as int) {
                                Ok((rest, end)) => {
                                    assert(values_of(prev) + (seq![d@] + rest) =~= values_of(
                                        prev,
                                    ).push(d@) + rest);
                                },
                                Err(k) => {},
                            }
                        }
                        items.push(d);
                        pos = next;
                    },
                }
            },
        }
    }
}

/// A parser over a sequence of tokens, at some position in it.
pub struct Parser {
    tokens: Vec<Token>,
    pos: usize,
}

impl Parser {
    /// The tokens that are being read.
    pub closed spec fn tokens(&self) -> Seq<TokenView> {
        token_views(self.tokens@)
    }

    /// How many tokens have been read.
    pub closed spec fn position(&self) -> int {
        self.pos as int
    }

    /// A parser at the start of `tokens`.
    pub fn new(tokens: Vec<Token>) -> (r: Parser)
        ensures
            r.tokens() == token_views(tokens@),
            r.position() == 0,
    {
        Parser { tokens, pos: 0 }
    }

    /// Reads to the end of the tokens: all the data from the current
    /// position on, or the first error.
    pub fn parse_all(&mut self) -> (r: Result<Vec<Datum>, ParseError>)
        ensures
            parsed_view(r) == parse_from(old(self).tokens(), old(self).position()),
            final(self).tokens() == old(self).tokens(),
            r is Ok ==> final(self).position() >= final(self).tokens().len(),
            r is Err ==> parse_datum(final(self).tokens(), final(self).position()) is Err,
    {
        let ghost t = token_views(self.tokens@);
        let ghost start = self.pos as int;
        let mut data: Vec<Datum> = Vec::new();
        proof {
            match parse_from(t, start) {
                Ok(rest) => {
                    assert(values_of(data@) + rest =~= rest);
                },
                Err(e) => {},
            }
        }
        while self.pos < self.tokens.len()
            invariant
                t == token_views(self.tokens@),
                self.tokens == old(self).tokens,
                start == old(self).pos,
                start <= self.pos,
                parse_from(t, start) == wrap_data(values_of(data@), parse_from(t, self.pos as int)),
            decreases self.tokens.len() - self.pos,
        {
            match read_datum(&self.tokens, self.pos) {
                Err(kind) => {
                    return Err(ParseError { kind });
                },
                Ok((d, next)) => {
                    let ghost prev = data@;
                    proof {
                        lemma_values_of_push(prev, d);
                        match parse_from(t, next as int) {
                            Ok(rest) => {
                                assert(values_of(prev) + (seq![d@] + rest) =~= values_of(prev).push(
                                    d@,
                                ) + rest);
                            },
                            Err(e) => {},
                        }
                    }
                    data.push(d);
                    self.pos = next;
                },
            }
        }
        proof {
            assert(values_of(data@) + Seq::<Value>::empty() =~= values_of(data@));
        }
        Ok(data)
    }
}

} // verus!
