//! The interpreter: text in, value or error message out.

use crate::builtin::{builtin_bindings, get_builtins};
use crate::datum::{values_of, Datum, Value};
use crate::environment::{bind_all, root_only, Environment, ScopeView};
use crate::error::{error_text, RuntimeError};
use crate::lexer::{lex, lex_error_text, tokenize};
use crate::machine::{run, start, Halt};
use crate::parser::{parse, parse_error_text, Parser};
use crate::printer::print;
use crate::vm::{result_view, VirtualMachine};
use vstd::prelude::*;

verus! {

/// The definitions that every interpreter starts with, written in the
/// language itself.
pub const PRELUDE: &'static str = "
(define (not x) (if x #f #t))
(define (zero? n) (= n 0))
(define (positive? n) (> n 0))
(define (negative? n) (< n 0))
(define (even? n) (= (remainder n 2) 0))
(define (odd? n) (not (even? n)))
(define (abs n) (if (< n 0) (- n) n))
(define (caar x) (car (car x)))
(define (cadr x) (car (cdr x)))
(define (cdar x) (cdr (car x)))
(define (cddr x) (cdr (cdr x)))
(define (caddr x) (car (cdr (cdr x))))
(define (list-tail l k) (if (= k 0) l (list-tail (cdr l) (- k 1))))
(define (list-ref l k) (car (list-tail l k)))
(define (reverse l)
  (letrec ((loop (lambda (rest acc)
                   (if (null? rest) acc (loop (cdr rest) (cons (car rest) acc))))))
    (loop l '())))
(define (for-each f l)
  (if (null? l) '() (begin (f (car l)) (for-each f (cdr l)))))
(define (filter keep? l)
  (cond ((null? l) '())
        ((keep? (car l)) (cons (car l) (filter keep? (cdr l))))
        (else (filter keep? (cdr l)))))
(define (fold-left f acc l)
  (if (null? l) acc (fold-left f (f acc (car l)) (cdr l))))
(define (fold-right f acc l)
  (if (null? l) acc (f (car l) (fold-right f acc (cdr l)))))
(define (member x l)
  (cond ((null? l) #f) ((equal? x (car l)) l) (else (member x (cdr l)))))
(define (assoc x l)
  (cond ((null? l) #f) ((equal? x (car (car l))) (car l)) (else (assoc x (cdr l)))))
";

/// How many steps the evaluation of one top-level form may take.
pub open spec fn step_limit() -> nat {
    u64::MAX as nat
}

/// What an evaluation leaves: the scopes, and the value or the message.
pub struct Evaluation {
    pub env: Seq<ScopeView>,
    pub result: Result<Value, Seq<char>>,
}

/// The message for a failure with its stack trace.
pub open spec fn failure_text(f: crate::error::Fault, t: Seq<char>) -> Seq<char> {
    error_text(f) + "\n\nStack trace:\n"@ + t
}

/// The data evaluated one after the other in the root scope, each in the
/// scopes that the one before has left. The first failure ends it; else the
/// value is that of the last datum.
pub open spec fn evaluate_data(data: Seq<Value>, env: Seq<ScopeView>) -> Evaluation
    decreases data.len(),
{
    if data.len() == 0 {
        Evaluation { env, result: Ok(Value::EmptyList) }
    } else {
        let halt = run(start(data[0], env), step_limit());
        match halt.result {
            Err((f, t)) => Evaluation { env: halt.env, result: Err(failure_text(f, t)) },
            Ok(v) => if data.len() == 1 {
                Evaluation { env: halt.env, result: Ok(v) }
            } else {
                evaluate_data(data.drop_first(), halt.env)
            },
        }
    }
}

/// The text read and evaluated in the scopes `env`. A text that does not
/// scan or parse changes nothing and gives the message of that error; a text
/// without any datum gives the empty message.
pub open spec fn evaluate_text(text: Seq<char>, env: Seq<ScopeView>) -> Evaluation {
    match lex(text) {
        Err(e) => Evaluation { env, result: Err(lex_error_text(e.kind)) },
        Ok(tokens) => match parse(tokens) {
            Err(e) => Evaluation { env, result: Err(parse_error_text(e.kind)) },
            Ok(data) => if data.len() == 0 {
                Evaluation { env, result: Err(Seq::empty()) }
            } else {
                evaluate_data(data, env)
            },
        },
    }
}

/// The scopes with the special forms and the native procedures bound in the
/// root scope, and nothing else.
pub open spec fn builtin_scopes() -> Seq<ScopeView> {
    bind_all(root_only(), 0, builtin_bindings())
}

/// The scopes of a new interpreter: those that evaluating the prelude leaves.
pub open spec fn initial_scopes() -> Seq<ScopeView> {
    evaluate_text(PRELUDE@, builtin_scopes()).env
}

pub open spec fn text_result_view(r: Result<Datum, String>) -> Result<Value, Seq<char>> {
    match r {
        Ok(d) => Ok(d@),
        Err(m) => Err(m@),
    }
}

pub struct Interpreter {
    root: Environment,
}

impl View for Interpreter {
    type V = Seq<ScopeView>;

    closed spec fn view(&self) -> Seq<ScopeView> {
        self.root@
    }
}

impl Interpreter {
    /// An interpreter whose root scope holds the special forms and the
    /// native procedures, and nothing else.
    pub fn with_builtins() -> (r: Interpreter)
        ensures
            r@ == builtin_scopes(),
    {
        let mut root = Environment::new();
        root.define_all(0, &get_builtins());
        Interpreter { root }
    }

    /// Evaluates the prelude. Returns the message of the first error, if
    /// there is one; what came before it stays defined.
    pub fn load_prelude(&mut self) -> (r: Result<(), String>)
        ensures
            final(self)@ == evaluate_text(PRELUDE@, old(self)@).env,
            match r {
                Ok(_) => evaluate_text(PRELUDE@, old(self)@).result is Ok,
                Err(m) => evaluate_text(PRELUDE@, old(self)@).result == Err::<Value, Seq<char>>(m@),
            },
    {
        match self.evaluate(PRELUDE) {
            Ok(_) => Ok(()),
            Err(m) => Err(m),
        }
    }

    /// An interpreter whose root scope holds the special forms, the native
    /// procedures and what the prelude defines.
    pub fn new() -> (r: Interpreter)
        ensures
            r@ == initial_scopes(),
    {
        let mut interp = Interpreter::with_builtins();
        let _ = interp.load_prelude();
        interp
    }

    /// The scopes.
    pub fn root(&self) -> (r: &Environment)
        ensures
            r@ == self@,
    {
        &self.root
    }

    /// The scopes, to change them: what is done to them is done to the
    /// interpreter.
    pub fn root_mut(&mut self) -> (r: &mut Environment)
        ensures
            r@ == old(self)@,
            final(self)@ == final(r)@,
    {
        &mut self.root
    }

    /// Hands the scopes to `func`: what it does to them is done to the
    /// interpreter.
    pub fn with_root<F: Fn(&mut Environment)>(&mut self, func: F)
        requires
            forall|e: &mut Environment| (*e)@ == old(self)@ ==> #[trigger] func.requires((e,)),
        ensures
            exists|e: &mut Environment|
                (*e)@ == old(self)@ && (*final(e))@ == final(self)@ && #[trigger] func.ensures(
                    (e,),
                    (),
                ),
    {
        let scopes = &mut self.root;
        assert((*scopes)@ == old(self)@);
        func(scopes);
    }

    /// Reads `s` and evaluates its data one after the other in the root
    /// scope. Returns the value of the last one, or the message of the first
    /// error.
    pub fn evaluate(&mut self, s: &str) -> (r: Result<Datum, String>)
        ensures
            (Evaluation { env: final(self)@, result: text_result_view(r) }) == evaluate_text(
                s@,
                old(self)@,
            ),
    {
        let tokens = match tokenize(s) {
            Ok(t) => t,
            Err(e) => {
                return Err(String::from_str(e.msg()));
            },
        };
        let mut parser = Parser::new(tokens);
        let data = match parser.parse_all() {
            Ok(d) => d,
            Err(e) => {
                return Err(String::from_str(e.msg()));
            },
        };
        if data.len() == 0 {
            return Err(String::new());
        }
        let ghost all = values_of(data@);
        let mut i: usize = 0;
        assert(all.skip(0) =~= all);
        loop
            invariant
                i < data.len(),
                all == values_of(data@),
                evaluate_text(s@, old(self)@) == evaluate_data(all, old(self)@),
                evaluate_data(all, old(self)@) == evaluate_data(all.skip(i as int), self@),
            decreases data.len() - i,
        {
            proof {
                assert(all.skip(i as int)[0] == data@[i as int]@);
                assert(all.skip(i as int).drop_first() =~= all.skip(i + 1));
            }
            match self.evaluate_datum(&data[i]) {
                Ok(v) => {
                    if i + 1 == data.len() {
                        return Ok(v);
                    }
                    i = i + 1;
                },
                Err((e, trace)) => {
                    let mut message = e.msg();
                    message.append("\n\nStack trace:\n");
                    message.append(trace.as_str());
                    assert(message@ =~= failure_text(e@, trace@));
                    return Err(message);
                },
            }
        }
    }

    /// Reads and evaluates `line` as `evaluate` does, for a shell: returns
    /// the printed form of the value, or the message, which is empty
    /// where the line holds no datum.
    pub fn evaluate_line(&mut self, line: &str) -> (r: Result<String, String>)
        ensures
            final(self)@ == evaluate_text(line@, old(self)@).env,
            match r {
                Ok(shown) => evaluate_text(line@, old(self)@).result matches Ok(v) && shown@
                    == print(v),
                Err(m) => evaluate_text(line@, old(self)@).result == Err::<Value, Seq<char>>(m@),
            },
    {
        match self.evaluate(line) {
            Ok(d) => Ok(d.to_string()),
            Err(m) => Err(m),
        }
    }

    /// Evaluates one datum in the root scope.
    pub fn evaluate_datum(&mut self, datum: &Datum) -> (r: Result<Datum, (RuntimeError, String)>)
        ensures
            (Halt { env: final(self)@, result: result_view(r) }) == run(
                start(datum@, old(self)@),
                step_limit(),
            ),
    {
        let vm = VirtualMachine::new();
        vm.run(&mut self.root, datum)
    }
}

} // verus!
