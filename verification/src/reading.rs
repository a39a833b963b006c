//! What is printed is read back: the printed form of a datum that can be
//! written down gives back the datum, through the lexer and the parser.

use crate::datum::Value;
use crate::lexer::{
    after, all_constituents, atom_token, character_token, is_constituent, is_delimiter, lex,
    lex_from, looks_numeric, lowered, number_token, run_end, scan, scan_hash, string_body,
    LexError, LexErrorKind, TokenView,
};
use crate::parser::{
    parse, parse_datum, parse_dotted_tail, parse_from, parse_list_rest, parse_vector_rest,
    ParseError, ParseErrorKind,
};
use crate::printer::{character_name, escaped, escaped_char, print, print_items, print_rest};
use crate::text::{decimal, decimal_digits, is_digit, lemma_decimal_digits};
use vstd::prelude::*;

verus! {

/// A name that the lexer reads as a symbol and leaves as it is: made of
/// constituents, without upper case letters, and neither a number nor the
/// dot.
pub open spec fn readable_symbol(s: Seq<char>) -> bool {
    s.len() > 0 && all_constituents(s) && lowered(s) == s && !looks_numeric(s) && s != seq!['.']
}

/// A datum that can be written down: anything but a procedure or a special
/// form, with nothing but readable symbols and readable parts in it.
pub open spec fn readable(v: Value) -> bool
    decreases v, 0nat,
{
    match v {
        Value::Symbol(s) => readable_symbol(s),
        Value::Pair(a, b) => readable(*a) && readable(*b),
        Value::Vector(items) => all_readable(items, 0),
        Value::Procedure(_) => false,
        Value::SpecialForm(_) => false,
        _ => true,
    }
}

/// All of `items[from..]` are readable.
pub open spec fn all_readable(items: Seq<Value>, from: int) -> bool
    decreases items, items.len() - from,
{
    if 0 <= from < items.len() {
        readable(items[from]) && all_readable(items, from + 1)
    } else {
        true
    }
}

/// The tokens that a readable datum is written with.
pub open spec fn tokens(v: Value) -> Seq<TokenView>
    decreases v, 0nat,
{
    match v {
        Value::EmptyList => seq![TokenView::LParen, TokenView::RParen],
        Value::Boolean(b) => seq![TokenView::Boolean(b)],
        Value::Character(c) => seq![TokenView::Character(c)],
        Value::Symbol(s) => seq![TokenView::Symbol(s)],
        Value::String(s) => seq![TokenView::String(s)],
        Value::Number(n) => seq![TokenView::Number(n)],
        Value::Pair(a, b) => seq![TokenView::LParen] + tokens(*a) + rest_tokens(*b),
        Value::Vector(items) => seq![TokenView::VectorOpen] + item_tokens(items, 0),
        _ => Seq::empty(),
    }
}

/// The tokens of the rest of a list, from the cdr `v` to the closing
/// parenthesis.
pub open spec fn rest_tokens(v: Value) -> Seq<TokenView>
    decreases v, 1nat,
{
    match v {
        Value::EmptyList => seq![TokenView::RParen],
        Value::Pair(a, b) => tokens(*a) + rest_tokens(*b),
        _ => seq![TokenView::Dot] + tokens(v) + seq![TokenView::RParen],
    }
}

/// The tokens of `items[from..]` and of the closing parenthesis behind them.
pub open spec fn item_tokens(items: Seq<Value>, from: int) -> Seq<TokenView>
    decreases items, items.len() - from,
{
    if 0 <= from < items.len() {
        tokens(items[from]) + item_tokens(items, from + 1)
    } else {
        seq![TokenView::RParen]
    }
}

/// `part` stands in `whole` at `pos`.
pub open spec fn stands_at<T>(whole: Seq<T>, pos: int, part: Seq<T>) -> bool {
    0 <= pos && pos + part.len() <= whole.len() && whole.subrange(pos, pos + part.len()) == part
}

/// Where two parts stand one behind the other, each of them stands.
pub proof fn lemma_stands_split<T>(whole: Seq<T>, pos: int, a: Seq<T>, b: Seq<T>)
    requires
        stands_at(whole, pos, a + b),
    ensures
        stands_at(whole, pos, a),
        stands_at(whole, pos + a.len(), b),
{
    let both = whole.subrange(pos, pos + (a + b).len());
    assert(whole.subrange(pos, pos + a.len()) =~= both.subrange(0, a.len() as int));
    assert(both.subrange(0, a.len() as int) =~= a);
    assert(whole.subrange(pos + a.len(), pos + a.len() + b.len()) =~= both.subrange(
        a.len() as int,
        (a + b).len() as int,
    ));
    assert(both.subrange(a.len() as int, (a + b).len() as int) =~= b);
}

/// What stands somewhere has its elements there.
pub proof fn lemma_stands_index<T>(whole: Seq<T>, pos: int, part: Seq<T>, i: int)
    requires
        stands_at(whole, pos, part),
        0 <= i < part.len(),
    ensures
        whole[pos + i] == part[i],
{
    assert(whole.subrange(pos, pos + part.len())[i] == whole[pos + i]);
}

/// The tokens of a readable datum start with one that opens a datum.
pub proof fn lemma_first_token(v: Value)
    requires
        readable(v),
    ensures
        tokens(v).len() > 0,
        !(tokens(v)[0] is RParen),
        !(tokens(v)[0] is Dot),
        !(tokens(v)[0] is Quote),
        !(tokens(v)[0] is Quasiquote),
        !(tokens(v)[0] is Unquote),
        !(tokens(v)[0] is UnquoteSplicing),
{
}

/// The tokens of a readable datum are parsed as the datum.
pub proof fn lemma_parse_tokens(t: Seq<TokenView>, pos: int, v: Value)
    requires
        readable(v),
        stands_at(t, pos, tokens(v)),
    ensures
        parse_datum(t, pos) == Ok::<(Value, int), ParseErrorKind>((v, pos + tokens(v).len())),
    decreases v, 0nat,
{
    lemma_first_token(v);
    lemma_stands_index(t, pos, tokens(v), 0);
    match v {
        Value::EmptyList => {
            lemma_stands_index(t, pos, tokens(v), 1);
        },
        Value::Pair(a, b) => {
            let head = seq![TokenView::LParen];
            assert(tokens(v) =~= head + (tokens(*a) + rest_tokens(*b)));
            lemma_stands_split(t, pos, head, tokens(*a) + rest_tokens(*b));
            lemma_first_token(*a);
            lemma_stands_split(t, pos + 1, tokens(*a), rest_tokens(*b));
            lemma_stands_index(t, pos + 1, tokens(*a), 0);
            lemma_parse_tokens(t, pos + 1, *a);
            lemma_parse_rest(t, pos + 1 + tokens(*a).len(), *b, false);
            assert(parse_list_rest(t, pos + 1, true) == Ok::<(Value, int), ParseErrorKind>(
                (v, pos + tokens(v).len()),
            ));
        },
        Value::Vector(items) => {
            let head = seq![TokenView::VectorOpen];
            lemma_stands_split(t, pos, head, item_tokens(items, 0));
            lemma_parse_items(t, pos + 1, items, 0);
            assert(items.skip(0) =~= items);
        },
        _ => {},
    }
}

/// The tokens of the rest of a list are parsed as that rest. A rest that is
/// no list is written behind a dot, which takes an element before it.
pub proof fn lemma_parse_rest(t: Seq<TokenView>, pos: int, v: Value, first: bool)
    requires
        readable(v),
        stands_at(t, pos, rest_tokens(v)),
        first ==> v is Pair || v is EmptyList,
    ensures
        parse_list_rest(t, pos, first) == Ok::<(Value, int), ParseErrorKind>(
            (v, pos + rest_tokens(v).len()),
        ),
    decreases v, 1nat,
{
    match v {
        Value::EmptyList => {
            lemma_stands_index(t, pos, rest_tokens(v), 0);
        },
        Value::Pair(a, b) => {
            lemma_first_token(*a);
            lemma_stands_split(t, pos, tokens(*a), rest_tokens(*b));
            lemma_stands_index(t, pos, tokens(*a), 0);
            lemma_parse_tokens(t, pos, *a);
            lemma_parse_rest(t, pos + tokens(*a).len(), *b, false);
            assert(parse_datum(t, pos) == Ok::<(Value, int), ParseErrorKind>(
                (*a, pos + tokens(*a).len()),
            ));
            assert(parse_list_rest(t, pos + tokens(*a).len(), false) == Ok::<
                (Value, int),
                ParseErrorKind,
            >((*b, pos + rest_tokens(v).len())));
        },
        _ => {
            lemma_first_token(v);
            let dot = seq![TokenView::Dot];
            let close = seq![TokenView::RParen];
            assert(rest_tokens(v) =~= dot + (tokens(v) + close));
            lemma_stands_split(t, pos, dot, tokens(v) + close);
            lemma_stands_split(t, pos + 1, tokens(v), close);
            lemma_stands_index(t, pos, dot, 0);
            lemma_stands_index(t, pos + 1, tokens(v), 0);
            lemma_stands_index(t, pos + 1 + tokens(v).len(), close, 0);
            lemma_parse_tokens(t, pos + 1, v);
            assert(t[pos] is Dot);
            assert(!first);
            assert(parse_dotted_tail(t, pos + 1) == Ok::<(Value, int), ParseErrorKind>(
                (v, pos + rest_tokens(v).len()),
            ));
        },
    }
}

/// The tokens of the elements of a vector and of its closing parenthesis
/// are parsed as those elements.
pub proof fn lemma_parse_items(t: Seq<TokenView>, pos: int, items: Seq<Value>, from: int)
    requires
        0 <= from <= items.len(),
        all_readable(items, from),
        stands_at(t, pos, item_tokens(items, from)),
    ensures
        parse_vector_rest(t, pos) == Ok::<(Seq<Value>, int), ParseErrorKind>(
            (items.skip(from), pos + item_tokens(items, from).len()),
        ),
    decreases items, items.len() - from,
{
    if from < items.len() {
        let x = items[from];
        lemma_first_token(x);
        lemma_stands_split(t, pos, tokens(x), item_tokens(items, from + 1));
        lemma_stands_index(t, pos, tokens(x), 0);
        lemma_parse_tokens(t, pos, x);
        lemma_parse_items(t, pos + tokens(x).len(), items, from + 1);
        assert(seq![x] + items.skip(from + 1) =~= items.skip(from));
    } else {
        lemma_stands_index(t, pos, item_tokens(items, from), 0);
        assert(items.skip(from) =~= Seq::<Value>::empty());
    }
}

/// A token ends at `end`: the text ends there, or a delimiter stands there.
pub open spec fn ends_token(s: Seq<char>, end: int) -> bool {
    end >= s.len() || is_delimiter(s[end])
}

proof fn lemma_run_exact(s: Seq<char>, pos: int, end: int)
    requires
        0 <= pos <= end <= s.len(),
        forall|i: int| pos <= i < end ==> !is_delimiter(#[trigger] s[i]),
        ends_token(s, end),
    ensures
        run_end(s, pos) == end,
    decreases end - pos,
{
    if pos < end {
        lemma_run_exact(s, pos + 1, end);
    }
}

proof fn lemma_lex_token(s: Seq<char>, pos: int, t: TokenView, next: int)
    requires
        0 <= pos < next <= s.len(),
        scan(s, pos) == Ok::<(Option<TokenView>, int), LexErrorKind>((Some(t), next)),
    ensures
        lex_from(s, pos) == after(seq![t], lex_from(s, next)),
{
}

proof fn lemma_lex_skip(s: Seq<char>, pos: int, next: int)
    requires
        0 <= pos < next <= s.len(),
        scan(s, pos) == Ok::<(Option<TokenView>, int), LexErrorKind>((None, next)),
    ensures
        lex_from(s, pos) == lex_from(s, next),
{
}

proof fn lemma_after_after(a: Seq<TokenView>, b: Seq<TokenView>, r: Result<Seq<TokenView>, LexError>)
    ensures
        after(a, after(b, r)) == after(a + b, r),
{
    match r {
        Ok(rest) => {
            assert(a + (b + rest) =~= (a + b) + rest);
        },
        Err(e) => {},
    }
}

/// A run of characters that stands between delimiters and does not start
/// with `#` is scanned as one atom.
proof fn lemma_scan_atom(s: Seq<char>, pos: int, x: Seq<char>)
    requires
        stands_at(s, pos, x),
        x.len() > 0,
        forall|i: int| 0 <= i < x.len() ==> !is_delimiter(#[trigger] x[i]),
        x[0] != '#',
        ends_token(s, pos + x.len()),
    ensures
        scan(s, pos) == match atom_token(x) {
            Ok(t) => Ok::<(Option<TokenView>, int), LexErrorKind>((Some(t), pos + x.len())),
            Err(k) => Err::<(Option<TokenView>, int), LexErrorKind>(k),
        },
{
    assert forall|i: int| pos <= i < pos + x.len() implies !is_delimiter(#[trigger] s[i]) by {
        lemma_stands_index(s, pos, x, i - pos);
    }
    lemma_run_exact(s, pos, pos + x.len());
    lemma_stands_index(s, pos, x, 0);
}

/// The text of a string and its closing quote are read back as the string.
proof fn lemma_string_body_at(text: Seq<char>, pos: int, s: Seq<char>)
    requires
        stands_at(text, pos, escaped(s) + seq!['"']),
    ensures
        string_body(text, pos) == Some((s, pos + escaped(s).len() + 1)),
    decreases s.len(),
{
    let close = seq!['"'];
    if s.len() == 0 {
        assert(escaped(s) =~= Seq::<char>::empty());
        lemma_stands_index(text, pos, escaped(s) + close, 0);
    } else {
        let c = s[0];
        let tail = s.drop_first();
        let first = escaped_char(c);
        assert(escaped(s) + close =~= first + (escaped(tail) + close));
        lemma_stands_split(text, pos, first, escaped(tail) + close);
        lemma_stands_index(text, pos, first, 0);
        if c == '"' || c == '\\' {
            lemma_stands_index(text, pos, first, 1);
        }
        lemma_string_body_at(text, pos + first.len(), tail);
        assert(seq![c] + tail =~= s);
        assert(escaped(s).len() == first.len() + escaped(tail).len());
    }
}

/// The decimal notation of a number is one atom, the number.
proof fn lemma_decimal_atom(n: i64)
    ensures
        decimal(n as int).len() > 0,
        forall|i: int| 0 <= i < decimal(n as int).len() ==> !is_delimiter(#[trigger] decimal(n as int)[i]),
        decimal(n as int)[0] != '#',
        atom_token(decimal(n as int)) == Ok::<TokenView, LexErrorKind>(TokenView::Number(n)),
{
    let s = decimal(n as int);
    let m: nat = if n < 0 {
        (-n) as nat
    } else {
        n as nat
    };
    let digits = decimal_digits(m);
    lemma_decimal_digits(m);
    if n < 0 {
        assert(s == seq!['-'] + digits);
        assert(s[0] == '-');
        assert(s.skip(1) =~= digits);
        assert(s[1] == digits[0]);
        assert forall|i: int| 0 <= i < s.len() implies is_constituent(#[trigger] s[i])
            && !is_delimiter(s[i]) by {
            if i > 0 {
                assert(s[i] == digits[i - 1]);
                assert(is_digit(digits[i - 1]));
            }
        }
    } else {
        assert(s == digits);
        assert(is_digit(digits[0]));
        assert forall|i: int| 0 <= i < s.len() implies is_constituent(#[trigger] s[i])
            && !is_delimiter(s[i]) by {
            assert(is_digit(digits[i]));
        }
    }
    assert(all_constituents(s));
    assert(s != seq!['.']) by {
        assert(seq!['.'][0] == '.');
        assert(s[0] != '.');
    }
    assert(looks_numeric(s));
    assert(number_token(s) == Ok::<TokenView, LexErrorKind>(TokenView::Number(n)));
}

/// An atom that stands between delimiters is scanned as its token.
proof fn lemma_scan_print(s: Seq<char>, pos: int, v: Value)
    requires
        readable(v),
        v is Boolean || v is Character || v is String || v is Number || v is Symbol,
        stands_at(s, pos, print(v)),
        ends_token(s, pos + print(v).len()),
    ensures
        print(v).len() > 0,
        scan(s, pos) == Ok::<(Option<TokenView>, int), LexErrorKind>(
            (Some(tokens(v)[0]), pos + print(v).len()),
        ),
{
    let x = print(v);
    match v {
        Value::Boolean(b) => {
            reveal_strlit("#t");
            reveal_strlit("#f");
            lemma_stands_index(s, pos, x, 0);
            lemma_stands_index(s, pos, x, 1);
            lemma_run_exact(s, pos + 1, pos + 2);
            if b {
                assert(x =~= seq!['#', 't']);
            } else {
                assert(x =~= seq!['#', 'f']);
                assert(seq!['#', 'f'][1] != seq!['#', 't'][1]);
            }
        },
        Value::Character(c) => {
            reveal_strlit("#\\");
            reveal_strlit("space");
            reveal_strlit("newline");
            reveal_strlit("tab");
            let name = character_name(c);
            lemma_stands_split(s, pos, "#\\"@, name);
            lemma_stands_index(s, pos, "#\\"@, 0);
            lemma_stands_index(s, pos, "#\\"@, 1);
            assert forall|i: int| pos + 3 <= i < pos + 2 + name.len() implies !is_delimiter(
                #[trigger] s[i],
            ) by {
                lemma_stands_index(s, pos + 2, name, i - pos - 2);
            }
            lemma_run_exact(s, pos + 3, pos + 2 + name.len());
            assert(character_token(name) == Ok::<TokenView, LexErrorKind>(TokenView::Character(c)))
                by {
                if c == '\n' {
                    assert(name[0] != "space"@[0]);
                } else if c == '\t' {
                    assert(name[0] != "space"@[0]);
                    assert(name[0] != "newline"@[0]);
                }
            }
        },
        Value::String(t) => {
            let open = seq!['"'];
            assert(x =~= open + (escaped(t) + seq!['"']));
            lemma_stands_split(s, pos, open, escaped(t) + seq!['"']);
            lemma_stands_index(s, pos, open, 0);
            lemma_string_body_at(s, pos + 1, t);
        },
        Value::Number(n) => {
            lemma_decimal_atom(n);
            lemma_scan_atom(s, pos, x);
        },
        Value::Symbol(name) => {
            assert forall|i: int| 0 <= i < x.len() implies !is_delimiter(#[trigger] x[i]) by {
                assert(is_constituent(name[i]));
            }
            assert(is_constituent(name[0]));
            lemma_scan_atom(s, pos, x);
        },
        _ => {},
    }
}

/// The rest of a list is printed with a delimiter first.
proof fn lemma_rest_starts(v: Value)
    ensures
        print_rest(v).len() > 0,
        is_delimiter(print_rest(v)[0]),
{
    reveal_strlit(" . ");
    match v {
        Value::EmptyList => {},
        Value::Pair(a, b) => {
            assert(print_rest(v)[0] == ' ');
        },
        _ => {
            assert(print_rest(v)[0] == ' ');
        },
    }
}

/// The printed form of a readable datum is scanned as its tokens.
pub proof fn lemma_lex_print(s: Seq<char>, pos: int, v: Value)
    requires
        readable(v),
        stands_at(s, pos, print(v)),
        ends_token(s, pos + print(v).len()),
    ensures
        print(v).len() > 0,
        lex_from(s, pos) == after(tokens(v), lex_from(s, pos + print(v).len())),
    decreases v, 0nat,
{
    let x = print(v);
    match v {
        Value::EmptyList => {
            reveal_strlit("()");
            lemma_stands_index(s, pos, x, 0);
            lemma_stands_index(s, pos, x, 1);
            lemma_lex_token(s, pos, TokenView::LParen, pos + 1);
            lemma_lex_token(s, pos + 1, TokenView::RParen, pos + 2);
            lemma_after_after(
                seq![TokenView::LParen],
                seq![TokenView::RParen],
                lex_from(s, pos + 2),
            );
            assert(seq![TokenView::LParen] + seq![TokenView::RParen] =~= tokens(v));
        },
        Value::Pair(a, b) => {
            let open = seq!['('];
            assert(x =~= open + (print(*a) + print_rest(*b)));
            lemma_stands_split(s, pos, open, print(*a) + print_rest(*b));
            lemma_stands_split(s, pos + 1, print(*a), print_rest(*b));
            lemma_stands_index(s, pos, open, 0);
            lemma_rest_starts(*b);
            let mid = pos + 1 + print(*a).len();
            lemma_stands_index(s, mid, print_rest(*b), 0);
            lemma_lex_token(s, pos, TokenView::LParen, pos + 1);
            lemma_lex_print(s, pos + 1, *a);
            lemma_lex_rest(s, mid, *b);
            let end = lex_from(s, mid + print_rest(*b).len());
            lemma_after_after(tokens(*a), rest_tokens(*b), end);
            lemma_after_after(seq![TokenView::LParen], tokens(*a) + rest_tokens(*b), end);
            assert(seq![TokenView::LParen] + (tokens(*a) + rest_tokens(*b)) =~= tokens(v));
        },
        Value::Vector(items) => {
            reveal_strlit("#(");
            let open = "#("@;
            let close = seq![')'];
            assert(x =~= open + (print_items(items, 0) + close));
            lemma_stands_split(s, pos, open, print_items(items, 0) + close);
            lemma_stands_index(s, pos, open, 0);
            lemma_stands_index(s, pos, open, 1);
            assert(scan_hash(s, pos) == Ok::<(Option<TokenView>, int), LexErrorKind>(
                (Some(TokenView::VectorOpen), pos + 2),
            ));
            lemma_lex_token(s, pos, TokenView::VectorOpen, pos + 2);
            lemma_lex_items(s, pos + 2, items, 0);
            let end = lex_from(s, pos + 2 + print_items(items, 0).len() + 1);
            lemma_after_after(seq![TokenView::VectorOpen], item_tokens(items, 0), end);
        },
        _ => {
            lemma_scan_print(s, pos, v);
            lemma_lex_token(s, pos, tokens(v)[0], pos + x.len());
            assert(tokens(v) =~= seq![tokens(v)[0]]);
        },
    }
}

/// The printed form of the rest of a list is scanned as its tokens.
pub proof fn lemma_lex_rest(s: Seq<char>, pos: int, v: Value)
    requires
        readable(v),
        stands_at(s, pos, print_rest(v)),
    ensures
        lex_from(s, pos) == after(rest_tokens(v), lex_from(s, pos + print_rest(v).len())),
    decreases v, 1nat,
{
    let x = print_rest(v);
    match v {
        Value::EmptyList => {
            lemma_stands_index(s, pos, x, 0);
            lemma_lex_token(s, pos, TokenView::RParen, pos + 1);
        },
        Value::Pair(a, b) => {
            let space = seq![' '];
            assert(x =~= space + (print(*a) + print_rest(*b)));
            lemma_stands_split(s, pos, space, print(*a) + print_rest(*b));
            lemma_stands_split(s, pos + 1, print(*a), print_rest(*b));
            lemma_stands_index(s, pos, space, 0);
            lemma_rest_starts(*b);
            let mid = pos + 1 + print(*a).len();
            lemma_stands_index(s, mid, print_rest(*b), 0);
            lemma_lex_skip(s, pos, pos + 1);
            lemma_lex_print(s, pos + 1, *a);
            lemma_lex_rest(s, mid, *b);
            lemma_after_after(tokens(*a), rest_tokens(*b), lex_from(s, mid + print_rest(*b).len()));
        },
        _ => {
            reveal_strlit(" . ");
            let dot = " . "@;
            let close = seq![')'];
            assert(x =~= dot + (print(v) + close));
            lemma_stands_split(s, pos, dot, print(v) + close);
            lemma_stands_split(s, pos + 3, print(v), close);
            lemma_stands_index(s, pos, dot, 0);
            lemma_stands_index(s, pos, dot, 1);
            lemma_stands_index(s, pos, dot, 2);
            let last = pos + 3 + print(v).len();
            lemma_stands_index(s, last, close, 0);
            lemma_lex_skip(s, pos, pos + 1);
            let point = seq!['.'];
            assert(s.subrange(pos + 1, pos + 2) =~= point);
            assert(atom_token(point) == Ok::<TokenView, LexErrorKind>(TokenView::Dot));
            lemma_scan_atom(s, pos + 1, point);
            lemma_lex_token(s, pos + 1, TokenView::Dot, pos + 2);
            lemma_lex_skip(s, pos + 2, pos + 3);
            lemma_lex_print(s, pos + 3, v);
            lemma_lex_token(s, last, TokenView::RParen, last + 1);
            let end = lex_from(s, last + 1);
            lemma_after_after(tokens(v), seq![TokenView::RParen], end);
            lemma_after_after(seq![TokenView::Dot], tokens(v) + seq![TokenView::RParen], end);
            assert(seq![TokenView::Dot] + (tokens(v) + seq![TokenView::RParen]) =~= rest_tokens(v));
        },
    }
}

/// The printed forms of the elements of a vector, with the closing
/// parenthesis, are scanned as their tokens.
pub proof fn lemma_lex_items(s: Seq<char>, pos: int, items: Seq<Value>, from: int)
    requires
        0 <= from <= items.len(),
        all_readable(items, from),
        stands_at(s, pos, print_items(items, from) + seq![')']),
    ensures
        lex_from(s, pos) == after(
            item_tokens(items, from),
            lex_from(s, pos + print_items(items, from).len() + 1),
        ),
    decreases items, items.len() - from,
{
    let close = seq![')'];
    if from < items.len() {
        let x = items[from];
        let gap: Seq<char> = if from > 0 {
            seq![' ']
        } else {
            Seq::empty()
        };
        let rest = print_items(items, from + 1) + close;
        assert(print_items(items, from) + close =~= gap + (print(x) + rest));
        lemma_stands_split(s, pos, gap, print(x) + rest);
        let start = pos + gap.len();
        lemma_stands_split(s, start, print(x), rest);
        if from > 0 {
            lemma_stands_index(s, pos, gap, 0);
            lemma_lex_skip(s, pos, pos + 1);
        }
        let mid = start + print(x).len();
        lemma_stands_index(s, mid, rest, 0);
        assert(is_delimiter(rest[0])) by {
            if from + 1 < items.len() {
                assert(print_items(items, from + 1)[0] == ' ');
            } else {
                assert(print_items(items, from + 1) =~= Seq::<char>::empty());
            }
        }
        lemma_lex_print(s, start, x);
        lemma_lex_items(s, mid, items, from + 1);
        lemma_after_after(
            tokens(x),
            item_tokens(items, from + 1),
            lex_from(s, mid + print_items(items, from + 1).len() + 1),
        );
    } else {
        assert(print_items(items, from) =~= Seq::<char>::empty());
        lemma_stands_index(s, pos, print_items(items, from) + close, 0);
        lemma_lex_token(s, pos, TokenView::RParen, pos + 1);
    }
}

/// Reading what was printed: the printed form of a readable datum is
/// scanned and parsed as that datum alone.
pub proof fn law_read_print(v: Value)
    requires
        readable(v),
    ensures
        lex(print(v)) == Ok::<Seq<TokenView>, LexError>(tokens(v)),
        parse(tokens(v)) == Ok::<Seq<Value>, ParseError>(seq![v]),
{
    let s = print(v);
    assert(s.subrange(0, s.len() as int) =~= s);
    lemma_lex_print(s, 0, v);
    assert(lex_from(s, s.len() as int) == Ok::<Seq<TokenView>, LexError>(Seq::empty()));
    assert(tokens(v) + Seq::<TokenView>::empty() =~= tokens(v));
    let t = tokens(v);
    assert(t.subrange(0, t.len() as int) =~= t);
    lemma_first_token(v);
    lemma_parse_tokens(t, 0, v);
    assert(parse_from(t, t.len() as int) == Ok::<Seq<Value>, ParseError>(Seq::empty()));
    assert(seq![v] + Seq::<Value>::empty() =~= seq![v]);
}

} // verus!
