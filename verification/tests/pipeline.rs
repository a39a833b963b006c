use schemer::datum::Datum;
use schemer::environment::{Environment, Lookup};
use schemer::error::{ErrorKind, RuntimeError};
use schemer::lexer::{chars_of, tokenize, LexError, LexErrorKind, Lexer, Token};
use schemer::parser::{ParseError, ParseErrorKind, Parser};
use schemer::text::{push_decimal, text_is};
use schemer::vm::VirtualMachine;

fn kinds(text: &str) -> Vec<String> {
    tokenize(text).unwrap().iter().map(|t| format!("{:?}", t)).collect()
}

fn lex_error(text: &str) -> LexError {
    tokenize(text).unwrap_err()
}

fn parse(text: &str) -> Result<Vec<String>, ParseError> {
    let mut parser = Parser::new(tokenize(text).unwrap());
    parser.parse_all().map(|ds| ds.iter().map(|d| d.to_string()).collect())
}

#[test]
fn tokens_of_every_kind() {
    assert_eq!(
        vec!["LParen", "RParen", "VectorOpen", "Quote", "Quasiquote", "Unquote", "UnquoteSplicing",
            "Dot", "Boolean(true)", "Boolean(false)", "Character('x')", "String(\"s\")",
            "Number(-12)", "Symbol(\"sym\")"],
        kinds("( ) #( ' ` , ,@ . #t #f #\\x \"s\" -12 SYM")
    );
}

#[test]
fn white_space_and_comments_separate_tokens() {
    assert_eq!(vec!["Number(1)", "Number(2)", "Number(3)"], kinds("1\t2 ; three ( \" \n\r3 ; end"));
    assert!(kinds("").is_empty());
    assert!(kinds(" ; only a comment").is_empty());
    assert_eq!(vec!["Symbol(\"a\")", "LParen", "Symbol(\"b\")", "RParen", "Quote", "Symbol(\"c\")"], kinds("a(b)'c"));
}

#[test]
fn numbers_and_symbols() {
    assert_eq!(vec!["Number(0)", "Number(7)", "Number(-7)", "Number(7)"], kinds("0 007 -7 +7"));
    assert_eq!(vec!["Number(9223372036854775807)", "Number(-9223372036854775808)"], kinds("9223372036854775807 -9223372036854775808"));
    assert_eq!(vec!["Symbol(\"+\")", "Symbol(\"-\")", "Symbol(\"...\")", "Symbol(\"-a\")", "Symbol(\".5\")", "Symbol(\"a.b\")"], kinds("+ - ... -a .5 a.b"));
    assert_eq!(vec!["Symbol(\"!$%&*+-./:<=>?@^_~az09\")"], kinds("!$%&*+-./:<=>?@^_~AZ09"));
    assert_eq!(LexErrorKind::InvalidNumber, lex_error("1a").kind);
    assert_eq!(LexErrorKind::InvalidNumber, lex_error("-1-").kind);
    assert_eq!(LexErrorKind::NumberOutOfRange, lex_error("9223372036854775808").kind);
    assert_eq!(LexErrorKind::NumberOutOfRange, lex_error("-9223372036854775809").kind);
    assert_eq!(LexErrorKind::NumberOutOfRange, lex_error("100000000000000000000000000000000000000000").kind);
    assert_eq!(LexErrorKind::InvalidCharacter, lex_error("a#b").kind);
    assert_eq!(LexErrorKind::InvalidCharacter, lex_error("{").kind);
}

#[test]
fn strings_and_characters() {
    assert_eq!(vec!["String(\"a\\\"b\\\\c d\")"], kinds("\"a\\\"b\\\\c d\""));
    assert_eq!(vec!["String(\"\")", "String(\"x;y\")"], kinds("\"\"\"x;y\""));
    assert_eq!(vec!["String(\"n\")"], kinds("\"\\n\""));
    assert_eq!(vec!["Character(' ')", "Character('\\n')", "Character('\\t')", "Character('s')", "Character('(')", "RParen"], kinds("#\\space #\\newline #\\tab #\\s #\\()"));
    assert_eq!(vec!["Character(' ')"], kinds("#\\ "));
    assert_eq!(LexErrorKind::UnterminatedString, lex_error("\"abc\\\"").kind);
    assert_eq!(LexErrorKind::UnterminatedString, lex_error("\"abc\\").kind);
    assert_eq!(LexErrorKind::UnknownCharacterName, lex_error("#\\").kind);
    assert_eq!(LexErrorKind::UnknownCharacterName, lex_error("#\\Space").kind);
    assert_eq!(LexErrorKind::InvalidHashSyntax, lex_error("#").kind);
    assert_eq!(LexErrorKind::InvalidHashSyntax, lex_error("#tt").kind);
}

#[test]
fn lex_errors_carry_line_and_column() {
    assert_eq!(LexError { kind: LexErrorKind::InvalidNumber, line: 1, col: 1 }, lex_error("1x"));
    assert_eq!(LexError { kind: LexErrorKind::UnterminatedString, line: 3, col: 4 }, lex_error("(a\n b\n c \"open"));
    assert_eq!(LexError { kind: LexErrorKind::InvalidHashSyntax, line: 2, col: 1 }, lex_error("x\n#q"));
    assert_eq!("invalid syntax after #", lex_error("x\n#q").msg());
}

#[test]
fn a_lexer_reads_to_the_end() {
    let mut lexer = Lexer::new("(a . b)");
    assert_eq!(5, lexer.lex_all().unwrap().len());
    assert_eq!(0, lexer.lex_all().unwrap().len());
    assert_eq!(vec!['a', 'é', '\n'], chars_of("aé\n"));
}

#[test]
fn data_of_every_shape() {
    assert_eq!(Ok(vec!["()".to_string()]), parse("()"));
    assert_eq!(Ok(vec!["(1 (2 3) . 4)".to_string()]), parse("(1 (2 3) . 4)"));
    assert_eq!(Ok(vec!["(1 2)".to_string()]), parse("(1 . (2 . ()))"));
    assert_eq!(Ok(vec!["#(1 #(2) ())".to_string()]), parse("#(1 #(2) ())"));
    assert_eq!(Ok(vec!["(quote x)".to_string(), "(quasiquote (unquote (unquote-splicing y)))".to_string()]), parse("'x `,,@y"));
    assert_eq!(Ok(vec!["1".to_string(), "a".to_string(), "\"s\"".to_string(), "#\\c".to_string(), "#f".to_string()]), parse("1 a \"s\" #\\c #f"));
    assert_eq!(Ok(vec![]), parse(""));
}

#[test]
fn parse_errors_of_every_kind() {
    for (text, kind) in [
        ("(", ParseErrorKind::UnexpectedEof),
        ("(1 (2)", ParseErrorKind::UnexpectedEof),
        ("#(1", ParseErrorKind::UnexpectedEof),
        ("'", ParseErrorKind::UnexpectedEof),
        ("(1 . 2", ParseErrorKind::UnexpectedEof),
        ("(1 .", ParseErrorKind::UnexpectedEof),
        (")", ParseErrorKind::UnexpectedCloseParen),
        ("1 )", ParseErrorKind::UnexpectedCloseParen),
        ("')", ParseErrorKind::UnexpectedCloseParen),
        (".", ParseErrorKind::MisplacedDot),
        ("( . 1)", ParseErrorKind::MisplacedDot),
        ("#(1 . 2)", ParseErrorKind::MisplacedDot),
        ("(1 . . 2)", ParseErrorKind::MisplacedDot),
        ("(1 . )", ParseErrorKind::BadDottedTail),
        ("(1 . 2 3)", ParseErrorKind::BadDottedTail),
    ] {
        assert_eq!(Err(ParseError { kind }), parse(text), "{}", text);
    }
    assert_eq!("unexpected end of input", ParseError { kind: ParseErrorKind::UnexpectedEof }.msg());
}

#[test]
fn printed_forms() {
    let list = Datum::list_from(&vec![Datum::Number(1), Datum::symbol("b"), Datum::string("c\"d")]);
    assert_eq!("(1 b \"c\\\"d\")", list.to_string());
    assert_eq!("(1 . 2)", Datum::cons(Datum::Number(1), Datum::Number(2)).to_string());
    assert_eq!("((1 . 2) 3 . 4)", Datum::chain_from(&vec![Datum::cons(Datum::Number(1), Datum::Number(2)), Datum::Number(3)], Datum::Number(4)).to_string());
    assert_eq!("#\\space", Datum::Character(' ').to_string());
    assert_eq!("#\\newline", Datum::Character('\n').to_string());
    assert_eq!("#\\tab", Datum::Character('\t').to_string());
    assert_eq!("#\\\"", Datum::Character('"').to_string());
    assert_eq!("\"\\\\\"", Datum::string("\\").to_string());
    assert_eq!("-9223372036854775808", Datum::Number(i64::MIN).to_string());
    assert_eq!("9223372036854775807", Datum::Number(i64::MAX).to_string());
    assert_eq!("0", Datum::Number(0).to_string());
    assert_eq!("1000", Datum::Number(1000).to_string());
    let mut out = String::from("x=");
    push_decimal(&mut out, -120);
    Datum::Boolean(true).write_to(&mut out);
    assert_eq!("x=-120#t", out);
}

#[test]
fn lists_come_apart_as_they_were_put_together() {
    let items = vec![Datum::Number(1), Datum::Number(2)];
    let (spine, end) = Datum::chain_from(&items, Datum::symbol("z")).unchain();
    assert_eq!(2, spine.len());
    assert!(spine[1].equals(&Datum::Number(2)));
    assert!(end.equals(&Datum::symbol("z")));
    assert!(Datum::chain_from(&items, Datum::symbol("z")).list_items().is_none());
    assert_eq!(2, Datum::list_from(&items).list_items().unwrap().len());
    assert_eq!(0, Datum::EmptyList.list_items().unwrap().len());
    let (spine, end) = Datum::Number(5).unchain();
    assert!(spine.is_empty() && end.equals(&Datum::Number(5)));
    assert!(Datum::Boolean(false).clone().equals(&Datum::Boolean(false)));
    assert!(!Datum::Boolean(false).is_true());
    assert!(Datum::EmptyList.is_true());
    assert!(!Datum::string("a").equals(&Datum::symbol("a")));
    assert!(text_is("else", "else") && !text_is("els", "else") && !text_is("elsa", "else"));
}

#[test]
fn scopes_hide_and_share() {
    let mut env = Environment::new();
    assert_eq!(1, env.len());
    let x = "x".to_string();
    assert!(matches!(env.lookup(0, &x), Lookup::Unbound));
    env.define(0, x.clone(), Datum::Number(1));
    let child = env.extend(0);
    let grandchild = env.extend(child);
    assert_eq!((1, 2, 3), (child, grandchild, env.len()));
    assert!(matches!(env.lookup(grandchild, &x), Lookup::Bound(Datum::Number(1))));
    env.define(child, x.clone(), Datum::Number(2));
    assert!(matches!(env.lookup(grandchild, &x), Lookup::Bound(Datum::Number(2))));
    assert!(matches!(env.lookup(0, &x), Lookup::Bound(Datum::Number(1))));
    assert!(env.set(grandchild, x.clone(), Datum::Number(3)));
    assert!(matches!(env.lookup(child, &x), Lookup::Bound(Datum::Number(3))));
    assert!(matches!(env.lookup(0, &x), Lookup::Bound(Datum::Number(1))));
    env.define(child, x.clone(), Datum::Number(4));
    assert!(matches!(env.lookup(child, &x), Lookup::Bound(Datum::Number(4))));
    assert!(!env.set(grandchild, "y".to_string(), Datum::Number(0)));
    env.declare(grandchild, "y".to_string());
    assert!(matches!(env.lookup(grandchild, &"y".to_string()), Lookup::Uninitialized));
    assert!(env.set(grandchild, "y".to_string(), Datum::Number(5)));
    assert!(matches!(env.lookup(grandchild, &"y".to_string()), Lookup::Bound(Datum::Number(5))));
    assert!(matches!(env.lookup(child, &"y".to_string()), Lookup::Unbound));
    assert!(matches!(env.lookup(99, &x), Lookup::Unbound));
    env.define(99, x.clone(), Datum::Number(9));
    assert_eq!(3, env.len());
}

#[test]
fn the_machine_gives_up_at_its_limit() {
    let mut interp = schemer::interpreter::Interpreter::new();
    interp.evaluate("(define (forever) (forever))").unwrap();
    let mut parser = Parser::new(tokenize("(forever)").unwrap());
    let datum = parser.parse_all().unwrap().remove(0);
    let mut env = Environment::new();
    for (name, value) in schemer::builtin::get_builtins() {
        env.define(0, name, value);
    }
    let vm = VirtualMachine::with_limit(1000);
    env.define(0, "forever".to_string(), interp.evaluate("forever").unwrap());
    match vm.run(&mut env, &datum) {
        Err((RuntimeError { kind: ErrorKind::StepLimit, .. }, _)) => (),
        _ => panic!("no step limit"),
    }
    let short = VirtualMachine::with_limit(3);
    let sum = {
        let mut p = Parser::new(tokenize("(+ 1 2)").unwrap());
        p.parse_all().unwrap().remove(0)
    };
    match short.run(&mut env, &sum) {
        Err((e, trace)) => {
            assert_eq!(ErrorKind::StepLimit, e.kind);
            assert_eq!("step limit exceeded", e.msg());
            assert_eq!("+\n", trace);
        },
        Ok(_) => panic!("finished in three steps"),
    }
    assert_eq!("3", VirtualMachine::new().run(&mut env, &sum).unwrap().to_string());
}

#[test]
fn evaluating_a_datum_directly() {
    let mut interp = schemer::interpreter::Interpreter::new();
    let three = Datum::list_from(&vec![Datum::symbol("+"), Datum::Number(1), Datum::Number(2)]);
    assert_eq!("3", interp.evaluate_datum(&three).unwrap().to_string());
    let bad = Datum::list_from(&vec![Datum::symbol("car"), Datum::Number(1)]);
    let (e, trace) = interp.evaluate_datum(&bad).unwrap_err();
    assert_eq!(ErrorKind::WrongType, e.kind);
    assert_eq!("car", e.name);
    assert_eq!("", trace);
    assert!(interp.root().len() >= 1);
    assert!(matches!(interp.root().lookup(0, &"car".to_string()), Lookup::Bound(_)));
}

#[test]
fn the_prelude_loads() {
    let mut interp = schemer::interpreter::Interpreter::with_builtins();
    assert!(interp.evaluate("not").is_err());
    assert_eq!("#<procedure:car>", interp.evaluate("car").unwrap().to_string());
    assert_eq!(Ok(()), interp.load_prelude());
    assert_eq!("#<procedure>", interp.evaluate("not").unwrap().to_string());
    assert!(schemer::interpreter::PRELUDE.contains("(define (reverse l)"));
}

#[test]
fn the_root_can_be_changed_from_outside() {
    let mut interp = schemer::interpreter::Interpreter::new();
    interp.root_mut().define(0, "answer".to_string(), Datum::Number(42));
    assert_eq!("42", interp.evaluate("answer").unwrap().to_string());
    interp.with_root(|env| env.define(0, "answer".to_string(), Datum::Number(43)));
    assert_eq!("43", interp.evaluate("(+ answer 0)").unwrap().to_string());
    let scopes = interp.root().len();
    interp.with_root(|env| {
        env.extend(0);
    });
    assert_eq!(scopes + 1, interp.root().len());
}

#[test]
fn a_line_for_the_shell() {
    let mut interp = schemer::interpreter::Interpreter::new();
    assert_eq!(Ok("(1 \"two\" #\\3)".to_string()), interp.evaluate_line("(list 1 \"two\" #\\3)"));
    assert_eq!(Err(String::new()), interp.evaluate_line("\n"));
    assert_eq!(Err("unexpected end of input".to_string()), interp.evaluate_line("(define x"));
    assert_eq!(Ok("x".to_string()), interp.evaluate_line("(define x 1)"));
    assert_eq!(Ok("1".to_string()), interp.evaluate_line("x"));
}
