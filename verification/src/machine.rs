//! The machine that evaluates a datum, as a mathematical model: its states
//! and the one step from each state to the next.
//!
//! A state is what is being done (the control), the frames that wait for a
//! value (the stack) and the scopes. A frame is pushed only where a value is
//! needed before the work can go on; what stands in tail position replaces
//! the control and leaves the stack as it is.

use crate::builtin::native;
use crate::datum::{
    chain, is_proper_list, list_of, special_form_name, spine, truthy, Builtin, ProcedureValue,
    SpecialForm, Value,
};
use crate::environment::{assign, bind, bind_all, define, extend, lookup, ScopeView};
use crate::error::{ErrorKind, Fault};
use vstd::prelude::*;

verus! {

/// What the machine is doing.
pub enum ControlView {
    /// Evaluating an expression in a scope.
    Eval(Value, usize),
    /// Calling a procedure with arguments.
    Apply(Value, Seq<Value>),
    /// Handing a value to the frame on top of the stack.
    Return(Value),
}

/// What waits for a value.
pub enum FrameView {
    /// A combination: the operator and the operands evaluated so far, and
    /// the operands still to evaluate.
    Call { head: Seq<char>, done: Seq<Value>, pending: Value, scope: usize },
    /// `if`, and `and`: the test is being evaluated.
    If { consequent: Value, alternative: Option<Value>, scope: usize },
    /// `or`: the expressions behind the one being evaluated.
    Or { rest: Value, scope: usize },
    /// A body: the expressions behind the one being evaluated.
    Sequence { rest: Value, scope: usize },
    /// `define`: the value is being evaluated.
    Define { name: Seq<char>, scope: usize },
    /// `set!`: the value is being evaluated.
    Assign { name: Seq<char>, scope: usize },
    /// `cond`: a test is being evaluated; the body of its clause, and the
    /// clauses behind it.
    Cond { body: Value, rest: Value, scope: usize },
    /// `map`: the procedure is being called on one row; what is left of each
    /// list behind that row (`lists`), and the results so far.
    MapList { procedure: Value, lists: Seq<Value>, done: Seq<Value> },
}

pub struct MachineView {
    pub control: ControlView,
    pub stack: Seq<FrameView>,
    pub env: Seq<ScopeView>,
}

/// Where a transition leads: the new control, the frame that it pushes, if
/// any, and the scopes.
pub struct JumpView {
    pub control: ControlView,
    pub push: Option<FrameView>,
    pub env: Seq<ScopeView>,
}

/// What one step does.
pub enum StepView {
    /// The machine goes on in this state.
    Next(MachineView),
    /// The evaluation has ended with this value.
    Finished(Value),
    /// The evaluation has failed; the frames are those that were waiting.
    Failed(Fault, Seq<FrameView>),
}

pub open spec fn go(control: ControlView, env: Seq<ScopeView>) -> Result<JumpView, Fault> {
    Ok(JumpView { control, push: None, env })
}

pub open spec fn go_push(control: ControlView, frame: FrameView, env: Seq<ScopeView>) -> Result<
    JumpView,
    Fault,
> {
    Ok(JumpView { control, push: Some(frame), env })
}

pub open spec fn fail(kind: ErrorKind, name: Seq<char>) -> Result<JumpView, Fault> {
    Err(Fault { kind, name })
}

pub open spec fn bad_syntax(f: SpecialForm) -> Result<JumpView, Fault> {
    fail(ErrorKind::BadSyntax, special_form_name(f))
}

/// How a combination is called in a stack trace: by its operator where that
/// is a symbol.
pub open spec fn head_name(op: Value) -> Seq<char> {
    match op {
        Value::Symbol(s) => s,
        _ => "<anonymous>"@,
    }
}

/// The formals of a procedure: a list of symbols that ends in the empty
/// list or in a symbol, which takes the arguments that are left.
pub open spec fn valid_formals(v: Value) -> bool
    decreases v,
{
    match v {
        Value::EmptyList => true,
        Value::Symbol(_) => true,
        Value::Pair(p, rest) => *p is Symbol && valid_formals(*rest),
        _ => false,
    }
}

pub open spec fn bindings_after(
    first: (Seq<char>, Value),
    rest: Result<Seq<(Seq<char>, Value)>, ErrorKind>,
) -> Result<Seq<(Seq<char>, Value)>, ErrorKind> {
    match rest {
        Ok(b) => Ok(seq![first] + b),
        Err(k) => Err(k),
    }
}

/// The formals bound to the arguments, in order.
pub open spec fn formal_bindings(formals: Value, args: Seq<Value>) -> Result<
    Seq<(Seq<char>, Value)>,
    ErrorKind,
>
    decreases formals,
{
    match formals {
        Value::EmptyList => if args.len() == 0 {
            Ok(Seq::empty())
        } else {
            Err(ErrorKind::WrongArgumentCount)
        },
        Value::Symbol(name) => Ok(seq![(name, list_of(args))]),
        Value::Pair(p, rest) => match *p {
            Value::Symbol(name) => if args.len() == 0 {
                Err(ErrorKind::WrongArgumentCount)
            } else {
                bindings_after((name, args[0]), formal_bindings(*rest, args.drop_first()))
            },
            _ => Err(ErrorKind::BadSyntax),
        },
        _ => Err(ErrorKind::BadSyntax),
    }
}

/// The name of a symbol; empty for anything else.
pub open spec fn symbol_name(v: Value) -> Seq<char> {
    match v {
        Value::Symbol(s) => s,
        _ => Seq::empty(),
    }
}

/// `env` with all of `names` declared in `scope`, without values.
pub open spec fn declare_all(env: Seq<ScopeView>, scope: int, names: Seq<Value>) -> Seq<ScopeView>
    decreases names.len(),
{
    if names.len() == 0 {
        env
    } else {
        bind(declare_all(env, scope, names.drop_last()), scope, symbol_name(names.last()), None)
    }
}

/// One binding of `let` or `letrec`: a list of a symbol and an expression.
pub open spec fn is_binding(v: Value) -> bool {
    is_proper_list(v) && spine(v).len() == 2 && spine(v)[0] is Symbol
}

/// The bindings of `let` or `letrec`: a proper list of bindings.
pub open spec fn is_binding_list(v: Value) -> bool {
    is_proper_list(v) && forall|i: int| 0 <= i < spine(v).len() ==> is_binding(#[trigger] spine(v)[i])
}

pub open spec fn binding_names(v: Value) -> Seq<Value> {
    spine(v).map_values(|b: Value| spine(b)[0])
}

pub open spec fn binding_inits(v: Value) -> Seq<Value> {
    spine(v).map_values(|b: Value| spine(b)[1])
}

/// For each binding, the form that sets its variable to its expression.
pub open spec fn binding_assignments(v: Value) -> Seq<Value> {
    spine(v).map_values(
        |b: Value|
            list_of(seq![Value::SpecialForm(SpecialForm::Assign), spine(b)[0], spine(b)[1]]),
    )
}

pub open spec fn closure(formals: Value, body: Value, scope: usize) -> Value {
    Value::Procedure(ProcedureValue::Lambda(Box::new(formals), Box::new(body), scope))
}

pub open spec fn all_pairs(s: Seq<Value>) -> bool {
    forall|i: int| 0 <= i < s.len() ==> (#[trigger] s[i]) is Pair
}

pub open spec fn car(v: Value) -> Value {
    match v {
        Value::Pair(a, _) => *a,
        _ => Value::EmptyList,
    }
}

pub open spec fn cdr(v: Value) -> Value {
    match v {
        Value::Pair(_, d) => *d,
        _ => Value::EmptyList,
    }
}

pub open spec fn cars(s: Seq<Value>) -> Seq<Value> {
    s.map_values(|v: Value| car(v))
}

pub open spec fn cdrs(s: Seq<Value>) -> Seq<Value> {
    s.map_values(|v: Value| cdr(v))
}

pub open spec fn all_proper(s: Seq<Value>) -> bool {
    forall|i: int| 0 <= i < s.len() ==> is_proper_list(#[trigger] s[i])
}

pub open spec fn same_lengths(s: Seq<Value>) -> bool {
    forall|i: int| 0 <= i < s.len() ==> spine(#[trigger] s[i]).len() == spine(s[0]).len()
}

/// Evaluating the expressions of `body` in order: the last one stands in
/// tail position. `form` is the form that the body belongs to.
pub open spec fn sequence(body: Value, scope: usize, env: Seq<ScopeView>, form: SpecialForm) -> Result<
    JumpView,
    Fault,
> {
    match body {
        Value::Pair(e, rest) => if *rest is EmptyList {
            go(ControlView::Eval(*e, scope), env)
        } else {
            go_push(ControlView::Eval(*e, scope), FrameView::Sequence { rest: *rest, scope }, env)
        },
        _ => bad_syntax(form),
    }
}

/// Evaluating `expr` in `scope`.
pub open spec fn eval(expr: Value, scope: usize, env: Seq<ScopeView>) -> Result<JumpView, Fault> {
    match expr {
        Value::Symbol(name) => match lookup(env, scope as int, name) {
            Some(Some(v)) => go(ControlView::Return(v), env),
            Some(None) => fail(ErrorKind::UninitializedVariable, name),
            None => fail(ErrorKind::UnboundVariable, name),
        },
        Value::Pair(op, operands) => go_push(
            ControlView::Eval(*op, scope),
            FrameView::Call {
                head: head_name(*op),
                done: Seq::empty(),
                pending: *operands,
                scope,
            },
            env,
        ),
        Value::EmptyList => fail(ErrorKind::EmptyCombination, Seq::empty()),
        _ => go(ControlView::Return(expr), env),
    }
}

/// `define` with the operands `ops`.
pub open spec fn special_define(ops: Value, scope: usize, env: Seq<ScopeView>) -> Result<
    JumpView,
    Fault,
> {
    match ops {
        Value::Pair(target, rest) => match *target {
            Value::Symbol(name) => if spine(*rest).len() == 1 {
                go_push(
                    ControlView::Eval(spine(*rest)[0], scope),
                    FrameView::Define { name, scope },
                    env,
                )
            } else {
                bad_syntax(SpecialForm::Define)
            },
            Value::Pair(f, formals) => match *f {
                Value::Symbol(name) => if valid_formals(*formals) && *rest is Pair {
                    go(
                        ControlView::Return(Value::Symbol(name)),
                        define(env, scope as int, name, closure(*formals, *rest, scope)),
                    )
                } else {
                    bad_syntax(SpecialForm::Define)
                },
                _ => bad_syntax(SpecialForm::Define),
            },
            _ => bad_syntax(SpecialForm::Define),
        },
        _ => bad_syntax(SpecialForm::Define),
    }
}

/// `let` and `letrec` with the operands `ops`. `let` evaluates the
/// expressions in `scope` and then calls a procedure of the variables with
/// them. `letrec` declares the variables in a new scope and there sets them
/// one by one, then evaluates the body.
pub open spec fn special_let(f: SpecialForm, ops: Value, scope: usize, env: Seq<ScopeView>) -> Result<
    JumpView,
    Fault,
> {
    match ops {
        Value::Pair(bindings, body) => if !(*body is Pair) || !is_binding_list(*bindings) {
            bad_syntax(f)
        } else if f == SpecialForm::Let {
            go_push(
                ControlView::Return(closure(list_of(binding_names(*bindings)), *body, scope)),
                FrameView::Call {
                    head: special_form_name(f),
                    done: Seq::empty(),
                    pending: list_of(binding_inits(*bindings)),
                    scope,
                },
                env,
            )
        } else {
            sequence(
                chain(binding_assignments(*bindings), *body),
                env.len() as usize,
                declare_all(extend(env, scope), env.len() as int, binding_names(*bindings)),
                f,
            )
        },
        _ => bad_syntax(f),
    }
}

/// The special form `f` with the operands `ops`, which are not evaluated.
pub open spec fn special(f: SpecialForm, ops: Value, scope: usize, env: Seq<ScopeView>) -> Result<
    JumpView,
    Fault,
> {
    let items = spine(ops);
    if !is_proper_list(ops) {
        bad_syntax(f)
    } else {
        match f {
            SpecialForm::Quote => if items.len() == 1 {
                go(ControlView::Return(items[0]), env)
            } else {
                bad_syntax(f)
            },
            SpecialForm::If => if items.len() == 2 || items.len() == 3 {
                go_push(
                    ControlView::Eval(items[0], scope),
                    FrameView::If {
                        consequent: items[1],
                        alternative: if items.len() == 3 {
                            Some(items[2])
                        } else {
                            None
                        },
                        scope,
                    },
                    env,
                )
            } else {
                bad_syntax(f)
            },
            SpecialForm::Lambda => if items.len() >= 2 && valid_formals(items[0]) {
                go(ControlView::Return(closure(items[0], cdr(ops), scope)), env)
            } else {
                bad_syntax(f)
            },
            SpecialForm::Let | SpecialForm::Letrec => special_let(f, ops, scope, env),
            SpecialForm::Begin => sequence(ops, scope, env, f),
            SpecialForm::Define => special_define(ops, scope, env),
            SpecialForm::Assign => if items.len() == 2 && items[0] is Symbol {
                go_push(
                    ControlView::Eval(items[1], scope),
                    FrameView::Assign { name: symbol_name(items[0]), scope },
                    env,
                )
            } else {
                bad_syntax(f)
            },
            SpecialForm::And => if items.len() == 0 {
                go(ControlView::Return(Value::Boolean(true)), env)
            } else if items.len() == 1 {
                go(ControlView::Eval(items[0], scope), env)
            } else {
                go_push(
                    ControlView::Eval(items[0], scope),
                    FrameView::If {
                        consequent: Value::Pair(
                            Box::new(Value::SpecialForm(SpecialForm::And)),
                            Box::new(cdr(ops)),
                        ),
                        alternative: Some(Value::Boolean(false)),
                        scope,
                    },
                    env,
                )
            },
            SpecialForm::Or => if items.len() == 0 {
                go(ControlView::Return(Value::Boolean(false)), env)
            } else if items.len() == 1 {
                go(ControlView::Eval(items[0], scope), env)
            } else {
                go_push(
                    ControlView::Eval(items[0], scope),
                    FrameView::Or { rest: cdr(ops), scope },
                    env,
                )
            },
            SpecialForm::Cond => if items.len() == 0 {
                go(ControlView::Return(Value::EmptyList), env)
            } else {
                match items[0] {
                    Value::Pair(test, body) => if *test == Value::Symbol("else"@) {
                        sequence(*body, scope, env, f)
                    } else {
                        go_push(
                            ControlView::Eval(*test, scope),
                            FrameView::Cond { body: *body, rest: cdr(ops), scope },
                            env,
                        )
                    },
                    _ => bad_syntax(f),
                }
            },
        }
    }
}

/// `apply` with the arguments `args`: the first is called with the ones
/// between it and the last, followed by the elements of the last.
pub open spec fn apply_spread(args: Seq<Value>, env: Seq<ScopeView>) -> Result<JumpView, Fault> {
    if args.len() < 2 {
        fail(ErrorKind::WrongArgumentCount, "apply"@)
    } else if !is_proper_list(args.last()) {
        fail(ErrorKind::ImproperList, "apply"@)
    } else {
        go(
            ControlView::Apply(args[0], args.subrange(1, args.len() - 1) + spine(args.last())),
            env,
        )
    }
}

/// `map` with the arguments `args`: the first is called on the first
/// elements of the lists, while a frame keeps the rest of them.
pub open spec fn map_start(args: Seq<Value>, env: Seq<ScopeView>) -> Result<JumpView, Fault> {
    let lists = args.skip(1);
    if args.len() < 2 {
        fail(ErrorKind::WrongArgumentCount, "map"@)
    } else if !all_proper(lists) {
        fail(ErrorKind::ImproperList, "map"@)
    } else if !same_lengths(lists) {
        fail(ErrorKind::UnequalLengths, "map"@)
    } else if !all_pairs(lists) {
        go(ControlView::Return(Value::EmptyList), env)
    } else {
        go_push(
            ControlView::Apply(args[0], cars(lists)),
            FrameView::MapList { procedure: args[0], lists: cdrs(lists), done: Seq::empty() },
            env,
        )
    }
}

/// Calling `procedure` with `args`. A closure gets a new scope under the one
/// it was made in, with its formals bound to the arguments, and its body is
/// evaluated there.
pub open spec fn apply(procedure: Value, args: Seq<Value>, env: Seq<ScopeView>) -> Result<
    JumpView,
    Fault,
> {
    match procedure {
        Value::Procedure(ProcedureValue::Native(b)) => if b == Builtin::Apply {
            apply_spread(args, env)
        } else if b == Builtin::MapList {
            map_start(args, env)
        } else {
            match native(b, args) {
                Ok(v) => go(ControlView::Return(v), env),
                Err(f) => Err(f),
            }
        },
        Value::Procedure(ProcedureValue::Lambda(formals, body, captured)) => if !(*body is Pair) {
            bad_syntax(SpecialForm::Lambda)
        } else {
            match formal_bindings(*formals, args) {
                Ok(bindings) => sequence(
                    *body,
                    env.len() as usize,
                    bind_all(extend(env, captured), env.len() as int, bindings),
                    SpecialForm::Lambda,
                ),
                Err(kind) => fail(kind, special_form_name(SpecialForm::Lambda)),
            }
        },
        _ => fail(ErrorKind::NotAProcedure, Seq::empty()),
    }
}

/// Handing the value `v` to `frame`, which has been taken off the stack.
pub open spec fn resume(frame: FrameView, v: Value, env: Seq<ScopeView>) -> Result<JumpView, Fault> {
    match frame {
        FrameView::Call { head, done, pending, scope } => if done.len() == 0 && v is SpecialForm {
            special(v->SpecialForm_0, pending, scope, env)
        } else {
            match pending {
                Value::Pair(e, rest) => go_push(
                    ControlView::Eval(*e, scope),
                    FrameView::Call { head, done: done.push(v), pending: *rest, scope },
                    env,
                ),
                Value::EmptyList => go(
                    ControlView::Apply(done.push(v)[0], done.push(v).skip(1)),
                    env,
                ),
                _ => fail(ErrorKind::BadSyntax, head),
            }
        },
        FrameView::If { consequent, alternative, scope } => if truthy(v) {
            go(ControlView::Eval(consequent, scope), env)
        } else {
            match alternative {
                Some(a) => go(ControlView::Eval(a, scope), env),
                None => go(ControlView::Return(Value::EmptyList), env),
            }
        },
        FrameView::Or { rest, scope } => if truthy(v) {
            go(ControlView::Return(v), env)
        } else {
            special(SpecialForm::Or, rest, scope, env)
        },
        FrameView::Sequence { rest, scope } => sequence(rest, scope, env, SpecialForm::Begin),
        FrameView::Define { name, scope } => go(
            ControlView::Return(Value::Symbol(name)),
            define(env, scope as int, name, v),
        ),
        FrameView::Assign { name, scope } => match assign(env, scope as int, name, v) {
            Some(changed) => go(ControlView::Return(Value::Symbol(name)), changed),
            None => fail(ErrorKind::UnboundVariable, name),
        },
        FrameView::Cond { body, rest, scope } => if truthy(v) {
            if body is EmptyList {
                go(ControlView::Return(v), env)
            } else {
                sequence(body, scope, env, SpecialForm::Cond)
            }
        } else {
            special(SpecialForm::Cond, rest, scope, env)
        },
        FrameView::MapList { procedure, lists, done } => if lists.len() > 0 && all_pairs(lists) {
            go_push(
                ControlView::Apply(procedure, cars(lists)),
                FrameView::MapList { procedure, lists: cdrs(lists), done: done.push(v) },
                env,
            )
        } else {
            go(ControlView::Return(list_of(done.push(v))), env)
        },
    }
}

/// The state that a transition from a state with the frames `stack` leads
/// to.
pub open spec fn land(stack: Seq<FrameView>, r: Result<JumpView, Fault>) -> StepView {
    match r {
        Ok(j) => StepView::Next(
            MachineView {
                control: j.control,
                stack: match j.push {
                    Some(f) => stack.push(f),
                    None => stack,
                },
                env: j.env,
            },
        ),
        Err(f) => StepView::Failed(f, stack),
    }
}

/// One step of the machine.
pub open spec fn step(m: MachineView) -> StepView {
    match m.control {
        ControlView::Eval(e, scope) => land(m.stack, eval(e, scope, m.env)),
        ControlView::Apply(p, args) => land(m.stack, apply(p, args, m.env)),
        ControlView::Return(v) => if m.stack.len() == 0 {
            StepView::Finished(v)
        } else {
            land(m.stack.drop_last(), resume(m.stack.last(), v, m.env))
        },
    }
}

/// One line of a stack trace for each combination among the frames,
/// innermost last.
pub open spec fn trace(stack: Seq<FrameView>) -> Seq<char>
    decreases stack.len(),
{
    if stack.len() == 0 {
        Seq::empty()
    } else {
        trace(stack.drop_last()) + match stack.last() {
            FrameView::Call { head, .. } => head + seq!['\n'],
            _ => Seq::empty(),
        }
    }
}

/// How an evaluation ends: the scopes it leaves, and its value or its
/// failure with the stack trace.
pub struct Halt {
    pub env: Seq<ScopeView>,
    pub result: Result<Value, (Fault, Seq<char>)>,
}

/// The machine run from `m` for at most `fuel` steps.
pub open spec fn run(m: MachineView, fuel: nat) -> Halt
    decreases fuel,
{
    if fuel == 0 {
        Halt {
            env: m.env,
            result: Err(
                (Fault { kind: ErrorKind::StepLimit, name: Seq::empty() }, trace(m.stack)),
            ),
        }
    } else {
        match step(m) {
            StepView::Next(next) => run(next, (fuel - 1) as nat),
            StepView::Finished(v) => Halt { env: m.env, result: Ok(v) },
            StepView::Failed(f, stack) => Halt { env: m.env, result: Err((f, trace(stack))) },
        }
    }
}

/// The state in which the evaluation of `expr` in the root scope starts.
pub open spec fn start(expr: Value, env: Seq<ScopeView>) -> MachineView {
    MachineView { control: ControlView::Eval(expr, 0), stack: Seq::empty(), env }
}

} // verus!
