use schemer::builtin::{call, get_builtins, MAX_VECTOR_LENGTH};
use schemer::datum::{Builtin, Datum};
use schemer::error::ErrorKind;
use schemer::interpreter::Interpreter;

fn value(input: &str) -> String {
    let mut interp = Interpreter::new();
    match interp.evaluate(input) {
        Ok(d) => d.to_string(),
        Err(e) => panic!("error for {}: {}", input, e),
    }
}

fn message(input: &str) -> String {
    let mut interp = Interpreter::new();
    match interp.evaluate(input) {
        Ok(d) => panic!("expected an error for {}, got {}", input, d.to_string()),
        Err(e) => e,
    }
}

fn numbers(ns: &[i64]) -> Vec<Datum> {
    ns.iter().map(|n| Datum::Number(*n)).collect()
}

#[test]
fn sums_and_differences() {
    assert_eq!("0", value("(+)"));
    assert_eq!("-5", value("(+ 1 -6)"));
    assert_eq!("9223372036854775807", value("(+ 9223372036854775807 1 -1)"));
    assert_eq!("integer overflow: +\n\nStack trace:\n", message("(+ 9223372036854775807 1)"));
    assert_eq!("-9223372036854775808", value("(- -9223372036854775807 1)"));
    assert_eq!("integer overflow: -\n\nStack trace:\n", message("(- -9223372036854775808)"));
    assert_eq!("integer overflow: -\n\nStack trace:\n", message("(- -9223372036854775808 1)"));
    assert_eq!("wrong type of argument: +\n\nStack trace:\n", message("(+ 1 'a)"));
    assert_eq!("wrong type of argument: -\n\nStack trace:\n", message("(- \"1\")"));
}

#[test]
fn products_are_taken_from_left_to_right() {
    assert_eq!("1", value("(*)"));
    assert_eq!("-42", value("(* 2 -3 7)"));
    assert_eq!("0", value("(* 0 9223372036854775807 9223372036854775807)"));
    assert_eq!("integer overflow: *\n\nStack trace:\n", message("(* 9223372036854775807 2 0)"));
    assert_eq!("-9223372036854775808", value("(* -4611686018427387904 2)"));
    assert_eq!("integer overflow: *\n\nStack trace:\n", message("(* 4611686018427387904 2)"));
    assert_eq!("wrong type of argument: *\n\nStack trace:\n", message("(* 9223372036854775807 2 'a)"));
}

#[test]
fn quotients_round_towards_zero() {
    assert_eq!("3", value("(/ 7 2)"));
    assert_eq!("-3", value("(/ -7 2)"));
    assert_eq!("-3", value("(/ 7 -2)"));
    assert_eq!("3", value("(/ -7 -2)"));
    assert_eq!("2", value("(/ 100 7 6)"));
    assert_eq!("1", value("(/ 1)"));
    assert_eq!("-1", value("(/ -1)"));
    assert_eq!("0", value("(/ 5)"));
    assert_eq!("division by zero: /\n\nStack trace:\n", message("(/ 0)"));
    assert_eq!("division by zero: /\n\nStack trace:\n", message("(/ 5 1 0 2)"));
    assert_eq!("integer overflow: /\n\nStack trace:\n", message("(/ -9223372036854775808 -1)"));
    assert_eq!("wrong number of arguments: /\n\nStack trace:\n", message("(/)"));
}

#[test]
fn modulo_remainder_quotient() {
    assert_eq!("(1 -1 1 -1)", value("(list (remainder 13 4) (remainder -13 4) (remainder 13 -4) (remainder -13 -4))"));
    assert_eq!("(1 3 -3 -1)", value("(list (modulo 13 4) (modulo -13 4) (modulo 13 -4) (modulo -13 -4))"));
    assert_eq!("(3 -3 -3 3)", value("(list (quotient 13 4) (quotient -13 4) (quotient 13 -4) (quotient -13 -4))"));
    assert_eq!("(0 0)", value("(list (modulo 12 4) (modulo -12 4))"));
    assert_eq!("0", value("(remainder -9223372036854775808 -1)"));
    assert_eq!("integer overflow: quotient\n\nStack trace:\n", message("(quotient -9223372036854775808 -1)"));
    assert_eq!("division by zero: modulo\n\nStack trace:\n", message("(modulo 1 0)"));
    assert_eq!("division by zero: remainder\n\nStack trace:\n", message("(remainder 1 0)"));
    assert_eq!("division by zero: quotient\n\nStack trace:\n", message("(quotient 1 0)"));
    assert_eq!("wrong type of argument: modulo\n\nStack trace:\n", message("(modulo 1 'a)"));
    assert_eq!("wrong number of arguments: modulo\n\nStack trace:\n", message("(modulo 1)"));
}

#[test]
fn comparisons_chain() {
    assert_eq!("(#t #t #f)", value("(list (<) (< 1 2 3) (< 1 3 2))"));
    assert_eq!("(#t #f)", value("(list (> 3 2 1) (> 3 3))"));
    assert_eq!("(#t #f)", value("(list (<= 1 1 2) (<= 2 1))"));
    assert_eq!("(#t #f)", value("(list (>= 2 2 1) (>= 1 2))"));
    assert_eq!("(#t #f)", value("(list (= 1 1 1) (= 1 1 2))"));
    assert_eq!("wrong type of argument: <\n\nStack trace:\n", message("(< 1 'a)"));
    assert_eq!("wrong type of argument: =\n\nStack trace:\n", message("(= 'a)"));
}

#[test]
fn pairs_and_lists() {
    assert_eq!("wrong type of argument: car\n\nStack trace:\n", message("(car '())"));
    assert_eq!("wrong type of argument: cdr\n\nStack trace:\n", message("(cdr 5)"));
    assert_eq!("(1 2 . 3)", value("(cons 1 (cons 2 3))"));
    assert_eq!("(1 2 3 4 5 . 6)", value("(append '(1) '() '(2 3) '(4 5) 6)"));
    assert_eq!("proper list required: append\n\nStack trace:\n", message("(append '(1 . 2) '(3))"));
    assert_eq!("proper list required: append\n\nStack trace:\n", message("(append 1 2)"));
    assert_eq!("(#t #f #f)", value("(list (null? '()) (null? '(1)) (null? 0))"));
    assert_eq!("(#t #f #t)", value("(list (pair? '(1)) (pair? '()) (pair? '(1 . 2)))"));
    assert_eq!("(#t #t #f #f)", value("(list (list? '()) (list? '(1 2)) (list? '(1 . 2)) (list? 1))"));
}

#[test]
fn type_predicates() {
    assert_eq!("(#t #f)", value("(list (boolean? #f) (boolean? 0))"));
    assert_eq!("(#t #f)", value("(list (string? \"a\") (string? 'a))"));
    assert_eq!("(#t #f)", value("(list (number? -1) (number? \"1\"))"));
    assert_eq!("(#t #t #f #f)", value("(list (procedure? car) (procedure? (lambda () 1)) (procedure? 'car) (procedure? if))"));
    assert_eq!("(#t #f)", value("(list (vector? #(1)) (vector? '(1)))"));
    assert_eq!("(#t #f)", value("(list (char? #\\a) (char? \"a\"))"));
    assert_eq!("wrong number of arguments: null?\n\nStack trace:\n", message("(null?)"));
    assert_eq!("wrong number of arguments: eq?\n\nStack trace:\n", message("(eq? 1)"));
}

#[test]
fn symbols_and_strings() {
    assert_eq!("\"abc\"", value("(symbol->string 'abc)"));
    assert_eq!("abc", value("(string->symbol \"abc\")"));
    assert_eq!("wrong type of argument: symbol->string\n\nStack trace:\n", message("(symbol->string \"a\")"));
    assert_eq!("wrong type of argument: string->symbol\n\nStack trace:\n", message("(string->symbol 'a)"));
}

#[test]
fn vectors() {
    assert_eq!("#()", value("(vector)"));
    assert_eq!("#(1 (2) \"3\")", value("(vector 1 '(2) \"3\")"));
    assert_eq!("#(0 0 0)", value("(make-vector 3)"));
    assert_eq!("#(x x)", value("(make-vector 2 'x)"));
    assert_eq!("#()", value("(make-vector 0 'x)"));
    assert_eq!("3", value("(vector-length #(a b c))"));
    assert_eq!("c", value("(vector-ref #(a b c) 2)"));
    assert_eq!("#(a z c)", value("(vector-set! #(a b c) 1 'z)"));
    assert_eq!("index out of range: vector-ref\n\nStack trace:\n", message("(vector-ref #(a b c) 3)"));
    assert_eq!("index out of range: vector-ref\n\nStack trace:\n", message("(vector-ref #(a b c) -1)"));
    assert_eq!("index out of range: vector-set!\n\nStack trace:\n", message("(vector-set! #() 0 1)"));
    assert_eq!("index out of range: make-vector\n\nStack trace:\n", message("(make-vector -1)"));
    assert_eq!("wrong type of argument: make-vector\n\nStack trace:\n", message("(make-vector 'a)"));
    assert_eq!("wrong type of argument: vector-length\n\nStack trace:\n", message("(vector-length '(1))"));
    assert_eq!("wrong type of argument: vector-ref\n\nStack trace:\n", message("(vector-ref #(1) 'a)"));
    assert_eq!("wrong type of argument: vector-ref\n\nStack trace:\n", message("(vector-ref '(1) 0)"));
    assert_eq!("wrong number of arguments: vector-set!\n\nStack trace:\n", message("(vector-set! #(1) 0)"));
}

#[test]
fn make_vector_is_bounded() {
    let too_long = Datum::Number(MAX_VECTOR_LENGTH as i64 + 1);
    match call(Builtin::MakeVector, &vec![too_long]) {
        Err(e) => assert_eq!(ErrorKind::IndexOutOfRange, e.kind),
        Ok(_) => panic!("a vector beyond the limit"),
    }
    match call(Builtin::MakeVector, &vec![Datum::Number(1000), Datum::Boolean(true)]) {
        Ok(Datum::Vector(ref items)) => {
            assert_eq!(1000, items.len());
            assert!(items.iter().all(|d| d.equals(&Datum::Boolean(true))));
        },
        _ => panic!("no vector"),
    }
}

#[test]
fn natives_called_directly() {
    assert_eq!("6", call(Builtin::Add, &numbers(&[1, 2, 3])).unwrap().to_string());
    assert_eq!("(1 2 3)", call(Builtin::List, &numbers(&[1, 2, 3])).unwrap().to_string());
    let e = call(Builtin::Apply, &numbers(&[1, 2])).unwrap_err();
    assert_eq!(ErrorKind::NotAProcedure, e.kind);
    assert_eq!("not a procedureapply", e.msg());
    let e = call(Builtin::MapList, &numbers(&[1])).unwrap_err();
    assert_eq!(ErrorKind::WrongArgumentCount, e.kind);
    assert_eq!("map", e.name);
}

#[test]
fn the_root_binds_every_native_under_its_name() {
    let all = get_builtins();
    assert_eq!(51, all.len());
    let mut names: Vec<String> = all.iter().map(|(n, _)| n.clone()).collect();
    names.sort();
    names.dedup();
    assert_eq!(51, names.len());
    for (name, datum) in all {
        let printed = value(&name);
        assert_eq!(datum.to_string(), printed);
        assert!(printed == format!("#<procedure:{}>", name) || printed == format!("#<special:{}>", name));
    }
}
