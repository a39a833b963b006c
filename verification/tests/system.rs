use schemer::interpreter::Interpreter;

fn expect(input: &str, output: &str) {
    let mut interp = Interpreter::new();
    match interp.evaluate(input) {
        Ok(d) => assert_eq!(output, d.to_string()),
        Err(e) => panic!("Error occurred: {}", e),
    }
}

fn expect_error(input: &str) {
    let mut interp = Interpreter::new();
    match interp.evaluate(input) {
        Ok(d) => panic!("Expected error, got {}", d.to_string()),
        Err(_) => (),
    }
}

#[test]
fn test_basic_evaluation() {
    expect("5", "5");
    expect("#t", "#t");
    expect("#f", "#f");
    expect("#\\a", "#\\a");
    expect("\"hello world\"", "\"hello world\"");
    expect("#(1 2 3)", "#(1 2 3)");
    expect("'a", "a");
    expect_error("()");
    expect("'()", "()");
    expect("(quote ())", "()");
    expect("'(1 2 3)", "(1 2 3)");
}

#[test]
fn test_if_form() {
    expect_error("(if)");
    expect_error("(if (= 2 2))");
    expect("(if (= 2 2) 1 3)", "1");
    expect("(if (= 2 4) 1 3)", "3");
    expect_error("(if (= 2 4) 1 3 5)");
}

#[test]
fn test_let_form() {
    expect_error("(let)");
    expect_error("(let ())");
    expect_error("(let ((x 1)))");
    expect("(let () 5)", "5");
    expect("(let ((x 1)) x)", "1");
    expect("(let ((x 1)) 2 3 4 x)", "1");
    expect("(let ((a 1) (b 2)) (+ a b))", "3");
    expect_error("(let ((a 1) (b a)) (+ a b))");
    expect("(letrec ((a 1) (b a)) (+ a b))", "2");
}

#[test]
fn test_begin_form() {
    expect_error("(begin)");
    expect("(begin 1)", "1");
    expect("(begin 1 2 3)", "3");
}

#[test]
fn test_arithmetic() {
    expect("(+)", "0");
    expect("(+ 2)", "2");
    expect("(+ 2 3 4)", "9");
    expect("(*)", "1");
    expect("(* 2)", "2");
    expect("(* 3 5 2)", "30");
    expect_error("(-)");
    expect("(- 2)", "-2");
    expect("(- 5 3)", "2");
    expect("(- 5 3 1)", "1");
    expect("(=)", "#t");
    expect("(= 2)", "#t");
    expect("(= 2 2)", "#t");
    expect("(= 2 2 2 2)", "#t");
    expect("(= 2 2 3 2)", "#f");
}

#[test]
fn test_car_cdr_cons() {
    expect_error("(car)");
    expect("(car '(1 . 2))", "1");
    expect("(car '(1 2))", "1");
    expect_error("(car '(1 2) '(3 4))");
    expect_error("(cdr)");
    expect("(cdr '(1 . 2))", "2");
    expect("(cdr '(1 2))", "(2)");
    expect_error("(cdr '(1 2) '(3 4))");
    expect_error("(cons)");
    expect_error("(cons 1)");
    expect("(cons 1 2)", "(1 . 2)");
    expect("(cons 1 '(2 3 4))", "(1 2 3 4)");
    expect("(cons '(1 2) '(3 4))", "((1 2) 3 4)");
    expect_error("(cons 1 2 3)");
    expect("(car (cons 1 2))", "1");
    expect("(cdr (cons 1 2))", "2");
}

#[test]
fn test_symbol_string() {
    expect("(symbol->string 'flying-fish)", "\"flying-fish\"");
    expect("(symbol->string 'Martin)", "\"martin\"");
    expect("(symbol->string (string->symbol \"Malvina\"))", "\"Malvina\"");
    expect("(string->symbol \"mISSISSIppi\")", "mISSISSIppi");
}

#[test]
fn test_predicates() {
    expect("(symbol? 'foo)", "#t");
    expect("(symbol? (car '(a b)))", "#t");
    expect("(symbol? \"bar\")", "#f");
    expect("(symbol? 'nil)", "#t");
    expect("(symbol? '())", "#f");
    expect("(symbol? #f)", "#f");
}

#[test]
fn test_list() {
    expect("(list)", "()");
    expect("(list 1)", "(1)");
    expect("(list 1 2 3)", "(1 2 3)");
    expect("(list 'a (+ 3 4) 'c)", "(a 7 c)");
}

#[test]
fn test_length() {
    expect_error("(length)");
    expect_error("(length '(1) '(2))");
    expect("(length '(a b c))", "3");
    expect("(length '(a (b) (c d e)))", "3");
    expect("(length '())", "0");
}

#[test]
fn test_lambda() {
    expect_error("(lambda)");
    expect_error("((lambda ()))");
    expect("((lambda (x . y) y) 1)", "()");
    expect("((lambda () 1 2 3 4))", "4");
    expect("((lambda (x) x) 5)", "5");
    expect("((lambda (x y) (+ x y)) 4 5)", "9");
    expect("((lambda x x) 1 2 3 4 5)", "(1 2 3 4 5)");
    expect("((lambda (x . y) x) 1 2 3 4 5)", "1");
    expect("((lambda (x . y) y) 1 2 3 4 5)", "(2 3 4 5)");
    expect("((lambda (a b c . d) d) 1 2 3 4 5)", "(4 5)");
    expect("((lambda (a . b) b) (+ 1 1) (+ 2 2) (+ 3 3))", "(4 6)");
}

#[test]
fn test_append() {
    expect("(append)", "()");
    expect("(append '())", "()");
    expect("(append '(1 2))", "(1 2)");
    expect("(append '(1 2) '(3 4))", "(1 2 3 4)");
    expect("(append '(a b) '(c . d))", "(a b c . d)");
    expect("(append '(x) '(y))", "(x y)");
    expect("(append '(a) '(b c d))", "(a b c d)");
    expect("(append '(a (b)) '((c)))", "(a (b) (c))");
    expect("(append '() 'a)", "a");
    expect("(append '() 5)", "5");
}

#[test]
fn test_apply() {
    expect_error("(apply)");
    expect_error("(apply +)");
    expect_error("(apply '())");
    expect_error("(apply '(1 2 3))");
    expect("(apply + '(1 2 3))", "6");
    expect("(apply + '())", "0");
    expect("(apply + 4 '(1 2 3))", "10");
    expect("(apply + 4 5 6 '(1 2 3))", "21");
    expect_error("(apply + '(4 5 6) '(1 2 3))");
    expect_error("(apply + '((+ 1 1) 2 3))");
}

#[test]
fn test_map() {
    expect_error("(map)");
    expect_error("(map +)");
    expect("(map (lambda (x) (* x x)) '(1 2 3 4))", "(1 4 9 16)");
    expect("(map + '(1 2 3 4) '(2 3 4 5))", "(3 5 7 9)");
}
