use schemer::interpreter::Interpreter;

fn run(input: &str) -> Result<String, String> {
    let mut interp = Interpreter::new();
    interp.evaluate(input).map(|d| d.to_string())
}

fn value(input: &str) -> String {
    match run(input) {
        Ok(s) => s,
        Err(e) => panic!("error for {}: {}", input, e),
    }
}

fn message(input: &str) -> String {
    match run(input) {
        Ok(s) => panic!("expected an error for {}, got {}", input, s),
        Err(e) => e,
    }
}

#[test]
fn self_evaluating_values_print_and_read_back() {
    for text in ["0", "-17", "9223372036854775807", "-9223372036854775808", "#t", "#f", "#\\a",
        "#\\space", "#\\newline", "#\\tab", "#\\(", "\"\"", "\"a \\\"quoted\\\" \\\\ word\"",
        "#(1 #t \"x\")", "#()"] {
        assert_eq!(text, value(text));
        assert_eq!(text, value(&value(text)));
    }
}

#[test]
fn symbols_are_lowered_by_the_reader_only() {
    assert_eq!("hello", value("'Hello"));
    assert_eq!("(a b)", value("'(A B)"));
    assert_eq!("Hello", value("(string->symbol \"Hello\")"));
    assert_eq!("#f", value("(eq? 'hello (string->symbol \"Hello\"))"));
    assert_eq!("#t", value("(eq? 'hello (string->symbol \"hello\"))"));
}

#[test]
fn tail_calls_do_not_grow_the_stack() {
    assert_eq!("done", value("(define (loop i) (if (= i 0) 'done (loop (- i 1)))) (loop 100000)"));
    assert_eq!(
        "#t",
        value(
            "(define (even? n) (if (= n 0) #t (odd? (- n 1))))
             (define (odd? n) (if (= n 0) #f (even? (- n 1))))
             (even? 100000)"
        )
    );
    assert_eq!(
        "5000050000",
        value("(define (sum i acc) (cond ((= i 0) acc) (else (sum (- i 1) (+ acc i))))) (sum 100000 0)")
    );
    assert_eq!(
        "ok",
        value("(define (f i) (and #t (or #f (begin (let ((j (- i 1))) (if (< j 0) 'ok (f j))))))) (f 100000)")
    );
}

#[test]
fn let_is_parallel_and_letrec_is_recursive() {
    assert_eq!("(1 10)", value("(define a 10) (let ((a 1) (b a)) (list a b))"));
    assert_eq!(
        "#t",
        value(
            "(letrec ((ev? (lambda (n) (if (= n 0) #t (od? (- n 1)))))
                      (od? (lambda (n) (if (= n 0) #f (ev? (- n 1))))))
               (ev? 10))"
        )
    );
    assert_eq!(
        "variable used before its initialization: b\n\nStack trace:\n",
        message("(define b 5) (letrec ((a b) (b 1)) a)")
    );
    assert_eq!("120", value("(letrec ((f (lambda (n) (if (= n 0) 1 (* n (f (- n 1))))))) (f 5))"));
}

#[test]
fn equivalence_predicates() {
    assert_eq!("#t", value("(eq? 'a 'a)"));
    assert_eq!("#f", value("(eq? 'a 'b)"));
    assert_eq!("#t", value("(equal? '(1 2) '(1 2))"));
    assert_eq!("#f", value("(equal? '(1 2) '(1 3))"));
    assert_eq!("#t", value("(eqv? 2 2)"));
    assert_eq!("#f", value("(eqv? 2 #\\2)"));
    assert_eq!("#t", value("(equal? #(1 (2)) #(1 (2)))"));
    assert_eq!("#f", value("(equal? \"a\" 'a)"));
    assert_eq!("#t", value("(eq? '() '())"));
    assert_eq!("#t", value("(eq? car car)"));
    assert_eq!("#f", value("(eq? car cdr)"));
}

#[test]
fn length_counts_the_pairs_of_the_spine() {
    assert_eq!("0", value("(length '())"));
    assert_eq!("4", value("(length '(1 (2 3) () 4))"));
    assert_eq!("proper list required: length\n\nStack trace:\n", message("(length '(1 2 . 3))"));
    assert_eq!("proper list required: length\n\nStack trace:\n", message("(length 5)"));
}

#[test]
fn apply_calls_with_the_elements() {
    assert_eq!(value("(list 1 2 3)"), value("(apply list (list 1 2 3))"));
    assert_eq!(value("(- 10 1 2)"), value("(apply - (list 10 1 2))"));
    assert_eq!(value("((lambda (a . r) r) 1 2 3)"), value("(apply (lambda (a . r) r) (list 1 2 3))"));
    assert_eq!("6", value("(apply apply (list + (list 1 2 3)))"));
    assert_eq!("(2 3)", value("(apply map (list (lambda (x) (+ x 1)) '(1 2)))"));
    assert_eq!("proper list required: apply\n\nStack trace:\n", message("(apply + 1)"));
    assert_eq!("not a procedure\n\nStack trace:\n", message("(apply 1 '(1))"));
}

#[test]
fn map_calls_on_each_element_in_order() {
    assert_eq!("()", value("(map car '())"));
    assert_eq!("(1 3)", value("(map car '((1 2) (3 4)))"));
    assert_eq!("(11 22 33)", value("(map + '(1 2 3) '(10 20 30))"));
    assert_eq!(
        "((1 2 3) (a b c))",
        value("(define seen '()) (define r (map (lambda (x y) (set! seen (cons x seen)) y) '(1 2 3) '(a b c))) (list (reverse seen) r)")
    );
    assert_eq!("((2 3) (4))", value("(map (lambda (l) (map (lambda (x) (+ x 1)) l)) '((1 2) (3)))"));
    assert_eq!("lists of unequal length: map\n\nStack trace:\n", message("(map + '(1 2) '(1))"));
    assert_eq!("proper list required: map\n\nStack trace:\n", message("(map car 5)"));
    assert_eq!("wrong type of argument: car\n\nStack trace:\n", message("(map car '(1))"));
    assert_eq!("4", value("(length (map (lambda (x) x) '(a b c d)))"));
}

#[test]
fn special_forms() {
    assert_eq!("x", value("(define x 5)"));
    assert_eq!("6", value("(define x 5) (set! x 6) x"));
    assert_eq!("unbound variable: y\n\nStack trace:\n", message("(set! y 1)"));
    assert_eq!("7", value("(define (f a b) (+ a b)) (f 3 4)"));
    assert_eq!("(1 2)", value("(define (f . r) r) (f 1 2)"));
    assert_eq!("#t", value("(and)"));
    assert_eq!("3", value("(and 1 2 3)"));
    assert_eq!("#f", value("(and 1 #f never-evaluated)"));
    assert_eq!("#f", value("(or)"));
    assert_eq!("1", value("(or 1 never-evaluated)"));
    assert_eq!("2", value("(or #f 2)"));
    assert_eq!("#f", value("(or #f #f)"));
    assert_eq!("b", value("(cond ((= 1 2) 'a) ((= 1 1) 'b) (else 'c))"));
    assert_eq!("c", value("(cond ((= 1 2) 'a) (else 'b 'c))"));
    assert_eq!("5", value("(cond (5))"));
    assert_eq!("()", value("(cond (#f 1))"));
    assert_eq!("()", value("(if #f 1)"));
    assert_eq!("yes", value("(if '() 'yes 'no)"));
    assert_eq!("yes", value("(if 0 'yes 'no)"));
    assert_eq!("(quote a)", value("''a"));
    assert_eq!("(quasiquote (a (unquote b) (unquote-splicing c)))", value("'`(a ,b ,@c)"));
    assert_eq!("3", value("(define (make-adder n) (lambda (x) (+ x n))) ((make-adder 1) 2)"));
    assert_eq!("(1 2)", value("(define (counter) (define n 0) (lambda () (set! n (+ n 1)) n)) (define c (counter)) (list (c) (c))"));
    for bad in ["(quote)", "(quote 1 2)", "(lambda (1) 1)", "(lambda (x))", "(let ((x)) x)",
        "(let ((1 2)) 3)", "(let x 1)", "(letrec ((x 1)))", "(define)", "(define x)",
        "(define x 1 2)", "(define 5 1)", "(define (f))", "(set! x)", "(set! 5 1)", "(cond 5)",
        "(cond (else))", "(if . 1)", "(begin 1 . 2)"] {
        let m = message(bad);
        assert!(m.starts_with("bad syntax: "), "{} gave {}", bad, m);
    }
    assert_eq!("bad syntax: if\n\nStack trace:\n", message("(if)"));
    assert_eq!("bad syntax: +\n\nStack trace:\n", message("(+ 1 . 2)"));
}

#[test]
fn procedures_and_arity() {
    assert_eq!("wrong number of arguments: lambda\n\nStack trace:\n", message("((lambda (x) x))"));
    assert_eq!("wrong number of arguments: lambda\n\nStack trace:\n", message("((lambda (x) x) 1 2)"));
    assert_eq!("wrong number of arguments: lambda\n\nStack trace:\n", message("((lambda (x y . z) x) 1)"));
    assert_eq!("wrong number of arguments: car\n\nStack trace:\n", message("(car)"));
    assert_eq!("not a procedure\n\nStack trace:\n", message("(1 2)"));
    assert_eq!("the empty combination is no expression\n\nStack trace:\n", message("()"));
    assert_eq!("unbound variable: nope\n\nStack trace:\n", message("nope"));
    assert_eq!("#<procedure:car>", value("car"));
    assert_eq!("#<procedure>", value("(lambda (x) x)"));
    assert_eq!("#<special:if>", value("if"));
    assert_eq!("(1 2 3)", value("((lambda (if) (if 1 2 3)) list)"));
}

#[test]
fn stack_traces_name_the_pending_combinations() {
    assert_eq!("unbound variable: x\n\nStack trace:\n+\n*\n", message("(+ 1 (* 2 x))"));
    assert_eq!(
        "wrong type of argument: car\n\nStack trace:\nlist\n+\n",
        message("(define (f x) (car x)) (list ((lambda (y) (+ 1 (f y))) 5))")
    );
    assert_eq!("unbound variable: g\n\nStack trace:\nlet\ng\n", message("(let ((a (g))) a)"));
    assert_eq!("not a procedure\n\nStack trace:\nlist\n", message("(list 1 ((car '(2)) 3))"));
}

#[test]
fn errors_stop_at_the_first_failing_form() {
    let mut interp = Interpreter::new();
    assert!(interp.evaluate("(define a 1) (car a) (define a 2)").is_err());
    assert_eq!("1", interp.evaluate("a").unwrap().to_string());
    assert_eq!(Err(String::new()), interp.evaluate("").map(|d| d.to_string()));
    assert_eq!(Err(String::new()), interp.evaluate("  ; nothing here\n").map(|d| d.to_string()));
    assert_eq!("1", interp.evaluate("a").unwrap().to_string());
}

#[test]
fn lex_and_parse_errors_are_raw_messages() {
    assert_eq!("unterminated string", message("\"abc"));
    assert_eq!("unknown character name", message("#\\spade"));
    assert_eq!("invalid number", message("12ab"));
    assert_eq!("number out of range", message("9223372036854775808"));
    assert_eq!("invalid character in symbol", message("a[b"));
    assert_eq!("invalid syntax after #", message("#true"));
    assert_eq!("unexpected end of input", message("(1 2"));
    assert_eq!("unexpected closing parenthesis", message(")"));
    assert_eq!("dot in the wrong position", message("(. 1)"));
    assert_eq!("dot in the wrong position", message("#(1 . 2)"));
    assert_eq!("a dot must be followed by one datum and a closing parenthesis", message("(1 . 2 3)"));
    assert_eq!("a dot must be followed by one datum and a closing parenthesis", message("(1 . )"));
}

#[test]
fn prelude_definitions() {
    assert_eq!("#f", value("(not 1)"));
    assert_eq!("#t", value("(not #f)"));
    assert_eq!("(#t #f #t)", value("(list (zero? 0) (positive? -1) (negative? -1))"));
    assert_eq!("(#t #f)", value("(list (even? 10) (odd? 10))"));
    assert_eq!("(3 3)", value("(list (abs -3) (abs 3))"));
    assert_eq!("(2 (3) 1 3)", value("(define l '((1 2) 2 3)) (list (cadr l) (cddr l) (caar l) (caddr l))"));
    assert_eq!("c", value("(list-ref '(a b c d) 2)"));
    assert_eq!("(c d)", value("(list-tail '(a b c d) 2)"));
    assert_eq!("(3 2 1)", value("(reverse '(1 2 3))"));
    assert_eq!("(2 4)", value("(filter even? '(1 2 3 4))"));
    assert_eq!("((((0 . 1) . 2) . 3) (1 2 3 . 0))", value("(list (fold-left cons 0 '(1 2 3)) (fold-right cons 0 '(1 2 3)))"));
    assert_eq!("((b c) #f (b . 2))", value("(list (member 'b '(a b c)) (member 'z '(a)) (assoc 'b '((a . 1) (b . 2))))"));
    assert_eq!("6", value("(define s 0) (for-each (lambda (x) (set! s (+ s x))) '(1 2 3)) s"));
}

#[test]
fn long_lists_are_built_compared_and_given_up() {
    let mut interp = Interpreter::new();
    interp
        .evaluate("(define (build n acc) (if (= n 0) acc (build (- n 1) (cons n acc))))")
        .unwrap();
    assert_eq!("200000", interp.evaluate("(length (build 200000 '()))").unwrap().to_string());
    assert_eq!(
        "50000",
        interp.evaluate("(length (map (lambda (x) (+ x 1)) (build 50000 '())))").unwrap().to_string()
    );
    assert_eq!(
        "#t",
        interp.evaluate("(define big (build 300000 '())) (equal? big (build 300000 '()))").unwrap().to_string()
    );
    assert_eq!("#f", interp.evaluate("(equal? big (build 299999 '()))").unwrap().to_string());
    assert_eq!("300000", interp.evaluate("(length (reverse big))").unwrap().to_string());
    assert_eq!("45000150000", interp.evaluate("(apply + big)").unwrap().to_string());
    assert_eq!("300000", interp.evaluate("(vector-length (apply vector big))").unwrap().to_string());
    let shown = interp.evaluate("(build 100000 '())").unwrap().to_string();
    assert!(shown.starts_with("(1 2 3 ") && shown.ends_with(" 99999 100000)"));
}

#[test]
fn a_shared_list_outlives_one_of_its_holders() {
    let mut interp = Interpreter::new();
    interp.evaluate("(define tail '(3 4)) (define a (cons 1 tail)) (define b (cons 2 tail))").unwrap();
    interp.evaluate("(set! a 0)").unwrap();
    assert_eq!("(2 3 4)", interp.evaluate("b").unwrap().to_string());
    assert_eq!("(3 4)", interp.evaluate("tail").unwrap().to_string());
    let kept = interp.evaluate("(cdr b)").unwrap();
    drop(interp);
    assert_eq!("(3 4)", kept.to_string());
}

#[test]
fn recursion_that_is_no_tail_call_uses_the_machine_stack() {
    let mut interp = Interpreter::new();
    let r = interp.evaluate("(define (count n) (if (= n 0) 0 (+ 1 (count (- n 1))))) (count 200000)");
    assert_eq!("200000", r.unwrap().to_string());
    let r = interp.evaluate(
        "(define (nest n acc) (if (= n 0) acc (nest (- n 1) (list acc)))) (define deep (nest 1000 '())) (equal? deep deep)",
    );
    assert_eq!("#t", r.unwrap().to_string());
}
