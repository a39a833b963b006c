//! Laws of the language, proved of the model that the interpreter
//! implements.

use crate::builtin::{failure, fits, native};
use crate::datum::{
    chain, is_proper_list, lemma_spine_of_chain, list_of, special_form_name, spine, spine_end,
    truthy, Builtin, ProcedureValue, SpecialForm, Value,
};
use crate::environment::{bind, bind_all, extend, lookup, ScopeView};
use crate::error::ErrorKind;
use crate::interpreter::{evaluate_text, step_limit, Evaluation};
use crate::machine::{
    apply, binding_inits, binding_names, closure, declare_all, formal_bindings, go, go_push,
    is_binding_list, resume, run, sequence, special, special_let, start, step, symbol_name,
    ControlView, FrameView, Halt, MachineView, StepView,
};
use crate::printer::print;
use crate::reading::{law_read_print, readable};
use vstd::prelude::*;

verus! {

/// Every value is the chain of the cars along its spine and of what the
/// spine ends in, which is no pair.
pub proof fn law_chain_of_spine(v: Value)
    ensures
        chain(spine(v), spine_end(v)) == v,
        !(spine_end(v) is Pair),
    decreases v,
{
    match v {
        Value::Pair(a, b) => {
            law_chain_of_spine(*b);
            let s = seq![*a] + spine(*b);
            assert(s.drop_first() =~= spine(*b));
            assert(s[0] == *a);
        },
        _ => {},
    }
}

/// The three equivalence predicates hold of a value and itself, and of two
/// values exactly when they are the same value.
pub proof fn law_equivalence(b: Builtin, x: Value, y: Value)
    requires
        b == Builtin::IsEq || b == Builtin::IsEqv || b == Builtin::IsEqual,
    ensures
        native(b, seq![x, x]) == Ok::<Value, crate::error::Fault>(Value::Boolean(true)),
        native(b, seq![x, y]) == Ok::<Value, crate::error::Fault>(Value::Boolean(x == y)),
{
}

/// The number of pairs along the spine of `v`.
pub open spec fn pair_count(v: Value) -> nat
    decreases v,
{
    match v {
        Value::Pair(_, rest) => 1 + pair_count(*rest),
        _ => 0,
    }
}

/// The empty list, or a pair whose cdr is a proper list.
pub open spec fn proper(v: Value) -> bool
    decreases v,
{
    match v {
        Value::EmptyList => true,
        Value::Pair(_, rest) => proper(*rest),
        _ => false,
    }
}

proof fn lemma_spine_counts(v: Value)
    ensures
        spine(v).len() == pair_count(v),
        is_proper_list(v) == proper(v),
    decreases v,
{
    match v {
        Value::Pair(_, rest) => {
            lemma_spine_counts(*rest);
        },
        _ => {},
    }
}

/// `length` of a proper list is the number of pairs along its spine;
/// of anything else it is an error.
pub proof fn law_length(l: Value)
    ensures
        proper(l) && fits(pair_count(l) as int) ==> native(Builtin::Length, seq![l]) == Ok::<
            Value,
            crate::error::Fault,
        >(Value::Number(pair_count(l) as i64)),
        !proper(l) ==> native(Builtin::Length, seq![l]) == failure(
            ErrorKind::ImproperList,
            Builtin::Length,
        ),
{
    lemma_spine_counts(l);
}

/// Calling `apply` with a procedure and the list of some values leads, in
/// one step and with nothing else changed, to calling the procedure with
/// those values: whatever the one does, the other does.
pub proof fn law_apply(
    f: Value,
    args: Seq<Value>,
    stack: Seq<FrameView>,
    env: Seq<ScopeView>,
    fuel: nat,
)
    ensures
        step(
            MachineView {
                control: ControlView::Apply(
                    Value::Procedure(ProcedureValue::Native(Builtin::Apply)),
                    seq![f, list_of(args)],
                ),
                stack,
                env,
            },
        ) == StepView::Next(MachineView { control: ControlView::Apply(f, args), stack, env }),
        run(
            MachineView {
                control: ControlView::Apply(
                    Value::Procedure(ProcedureValue::Native(Builtin::Apply)),
                    seq![f, list_of(args)],
                ),
                stack,
                env,
            },
            fuel + 1,
        ) == run(MachineView { control: ControlView::Apply(f, args), stack, env }, fuel),
{
    let given = seq![f, list_of(args)];
    lemma_spine_of_chain(args, Value::EmptyList);
    assert(given.last() == list_of(args));
    assert(given.subrange(1, given.len() - 1) + spine(given.last()) =~= args);
}

/// The values that evaluate to themselves.
pub open spec fn self_evaluating(v: Value) -> bool {
    v is Boolean || v is Character || v is String || v is Number || v is Vector
}

/// Reading the printed form of a self-evaluating value and evaluating it
/// gives the value back and changes nothing. This holds of the values that
/// can be written down: a vector that holds a procedure, or a symbol that
/// the lexer would not leave as it is, is not read back as it was.
pub proof fn law_print_then_evaluate(v: Value, env: Seq<ScopeView>)
    requires
        self_evaluating(v),
        readable(v),
    ensures
        evaluate_text(print(v), env) == (Evaluation { env, result: Ok(v) }),
{
    law_read_print(v);
    let m = start(v, env);
    let returned = MachineView { control: ControlView::Return(v), stack: Seq::empty(), env };
    assert(step(m) == StepView::Next(returned));
    assert(step(returned) == StepView::Finished(v));
    reveal_with_fuel(run, 3);
    assert(run(m, step_limit()) == (Halt { env, result: Ok(v) }));
}

/// The state after `k` steps, if none of them ends the evaluation.
pub open spec fn advance(m: MachineView, k: nat) -> Option<MachineView>
    decreases k,
{
    if k == 0 {
        Some(m)
    } else {
        match step(m) {
            StepView::Next(next) => advance(next, (k - 1) as nat),
            _ => None,
        }
    }
}

/// Steps add up.
pub proof fn lemma_advance_sum(m: MachineView, a: nat, b: nat)
    ensures
        advance(m, a + b) == match advance(m, a) {
            Some(mid) => advance(mid, b),
            None => None,
        },
    decreases a,
{
    if a > 0 {
        match step(m) {
            StepView::Next(next) => {
                lemma_advance_sum(next, (a - 1) as nat, b);
                assert((a + b - 1) as nat == (a - 1) as nat + b);
            },
            _ => {},
        }
    }
}

/// A run that passes through a state ends as the run from that state.
pub proof fn lemma_advance_run(m: MachineView, k: nat, mid: MachineView, fuel: nat)
    requires
        advance(m, k) == Some(mid),
    ensures
        run(m, k + fuel) == run(mid, fuel),
    decreases k,
{
    if k > 0 {
        match step(m) {
            StepView::Next(next) => {
                lemma_advance_run(next, (k - 1) as nat, mid, fuel);
                assert((k + fuel - 1) as nat == (k - 1) as nat + fuel);
            },
            _ => {},
        }
    }
}

/// The frame of `map` while the procedure is called on element `i`.
pub open spec fn map_frame(f: Value, xs: Seq<Value>, results: Seq<Value>, i: int) -> FrameView {
    FrameView::MapList {
        procedure: f,
        lists: seq![list_of(xs.skip(i + 1))],
        done: results.take(i),
    }
}

/// The state in which `map` calls the procedure on element `i`.
pub open spec fn map_call(
    f: Value,
    xs: Seq<Value>,
    results: Seq<Value>,
    stack: Seq<FrameView>,
    env: Seq<ScopeView>,
    i: int,
) -> MachineView {
    MachineView {
        control: ControlView::Apply(f, seq![xs[i]]),
        stack: stack.push(map_frame(f, xs, results, i)),
        env,
    }
}

/// The state in which that call has returned `results[i]`.
pub open spec fn map_return(
    f: Value,
    xs: Seq<Value>,
    results: Seq<Value>,
    stack: Seq<FrameView>,
    env: Seq<ScopeView>,
    i: int,
) -> MachineView {
    MachineView {
        control: ControlView::Return(results[i]),
        stack: stack.push(map_frame(f, xs, results, i)),
        env,
    }
}

/// The call of the procedure on element `i` returns `results[i]` after
/// `steps[i]` steps, and takes the scopes from `envs[i]` to `envs[i + 1]`.
pub open spec fn call_returns(
    f: Value,
    xs: Seq<Value>,
    results: Seq<Value>,
    steps: Seq<nat>,
    envs: Seq<Seq<ScopeView>>,
    stack: Seq<FrameView>,
    i: int,
) -> bool {
    advance(map_call(f, xs, results, stack, envs[i], i), steps[i]) == Some(
        map_return(f, xs, results, stack, envs[i + 1], i),
    )
}

/// The steps that `map` takes from the call on element `from` on.
pub open spec fn map_steps(steps: Seq<nat>, from: int) -> nat
    decreases steps.len() - from,
{
    if 0 <= from < steps.len() {
        steps[from] + 1 + map_steps(steps, from + 1)
    } else {
        0
    }
}

proof fn lemma_map_from(
    f: Value,
    xs: Seq<Value>,
    results: Seq<Value>,
    steps: Seq<nat>,
    envs: Seq<Seq<ScopeView>>,
    stack: Seq<FrameView>,
    i: int,
)
    requires
        0 <= i < xs.len(),
        results.len() == xs.len(),
        steps.len() == xs.len(),
        envs.len() == xs.len() + 1,
        forall|j: int| 0 <= j < xs.len() ==> #[trigger] call_returns(f, xs, results, steps, envs, stack, j),
    ensures
        advance(map_call(f, xs, results, stack, envs[i], i), map_steps(steps, i)) == Some(
            MachineView {
                control: ControlView::Return(list_of(results)),
                stack,
                env: envs[xs.len() as int],
            },
        ),
    decreases xs.len() - i,
{
    let n = xs.len() as int;
    let called = map_call(f, xs, results, stack, envs[i], i);
    let returned = map_return(f, xs, results, stack, envs[i + 1], i);
    let frame = map_frame(f, xs, results, i);
    assert(call_returns(f, xs, results, steps, envs, stack, i));
    let lists = seq![list_of(xs.skip(i + 1))];
    assert(returned.stack.last() == frame);
    assert(returned.stack.drop_last() =~= stack);
    assert(results.take(i).push(results[i]) =~= results.take(i + 1));
    lemma_advance_sum(called, steps[i], 1 + map_steps(steps, i + 1));
    lemma_advance_sum(returned, 1, map_steps(steps, i + 1));
    assert(advance(returned, 1) == match step(returned) {
        StepView::Next(next) => Some(next),
        _ => None::<MachineView>,
    }) by {
        reveal_with_fuel(advance, 2);
    }
    if i + 1 < n {
        let rest = xs.skip(i + 1);
        assert(rest.len() > 0);
        assert(rest[0] == xs[i + 1]);
        assert(rest.drop_first() =~= xs.skip(i + 2));
        assert(list_of(rest) == Value::Pair(Box::new(xs[i + 1]), Box::new(list_of(xs.skip(i + 2)))));
        assert(crate::machine::all_pairs(lists));
        assert(crate::machine::cars(lists) =~= seq![xs[i + 1]]);
        assert(crate::machine::cdrs(lists) =~= seq![list_of(xs.skip(i + 2))]);
        assert(step(returned) == StepView::Next(
            map_call(f, xs, results, stack, envs[i + 1], i + 1),
        ));
        lemma_map_from(f, xs, results, steps, envs, stack, i + 1);
    } else {
        assert(xs.skip(i + 1) =~= Seq::<Value>::empty());
        assert(list_of(xs.skip(i + 1)) == Value::EmptyList);
        assert(!(lists[0] is Pair));
        assert(!crate::machine::all_pairs(lists));
        assert(results.take(i + 1) =~= results);
        assert(step(returned) == StepView::Next(
            MachineView { control: ControlView::Return(list_of(results)), stack, env: envs[n] },
        ));
        assert(map_steps(steps, i + 1) == 0);
    }
}

/// `map` over one list: if the call of the procedure on each element
/// returns a value, `map` returns the list of those values, as many as the
/// list has elements and in their order. The calls are made from left to
/// right, each in the scopes that the one before has left.
pub proof fn law_map(
    f: Value,
    xs: Seq<Value>,
    results: Seq<Value>,
    steps: Seq<nat>,
    envs: Seq<Seq<ScopeView>>,
    stack: Seq<FrameView>,
)
    requires
        results.len() == xs.len(),
        steps.len() == xs.len(),
        envs.len() == xs.len() + 1,
        forall|i: int| 0 <= i < xs.len() ==> #[trigger] call_returns(f, xs, results, steps, envs, stack, i),
    ensures
        advance(
            MachineView {
                control: ControlView::Apply(
                    Value::Procedure(ProcedureValue::Native(Builtin::MapList)),
                    seq![f, list_of(xs)],
                ),
                stack,
                env: envs[0],
            },
            1 + map_steps(steps, 0),
        ) == Some(
            MachineView {
                control: ControlView::Return(list_of(results)),
                stack,
                env: envs[xs.len() as int],
            },
        ),
        spine(list_of(results)).len() == xs.len(),
        forall|i: int| 0 <= i < xs.len() ==> spine(list_of(results))[i] == results[i],
{
    let given = seq![f, list_of(xs)];
    let m = MachineView {
        control: ControlView::Apply(
            Value::Procedure(ProcedureValue::Native(Builtin::MapList)),
            given,
        ),
        stack,
        env: envs[0],
    };
    let lists = given.skip(1);
    assert(lists =~= seq![list_of(xs)]);
    lemma_spine_of_chain(xs, Value::EmptyList);
    lemma_spine_of_chain(results, Value::EmptyList);
    assert(crate::machine::all_proper(lists));
    assert(crate::machine::same_lengths(lists));
    lemma_advance_sum(m, 1, map_steps(steps, 0));
    assert(advance(m, 1) == match step(m) {
        StepView::Next(next) => Some(next),
        _ => None::<MachineView>,
    }) by {
        reveal_with_fuel(advance, 2);
    }
    if xs.len() == 0 {
        assert(list_of(xs) == Value::EmptyList);
        assert(!(lists[0] is Pair));
        assert(!crate::machine::all_pairs(lists));
        assert(list_of(results) == Value::EmptyList);
        assert(map_steps(steps, 0) == 0);
    } else {
        assert(xs.drop_first() =~= xs.skip(1));
        assert(list_of(xs) == Value::Pair(Box::new(xs[0]), Box::new(list_of(xs.skip(1)))));
        assert(crate::machine::all_pairs(lists));
        assert(crate::machine::cars(lists) =~= seq![xs[0]]);
        assert(crate::machine::cdrs(lists) =~= seq![list_of(xs.skip(1))]);
        assert(results.take(0) =~= Seq::<Value>::empty());
        assert(stack.push(map_frame(f, xs, results, 0)) == stack.push(
            FrameView::MapList {
                procedure: f,
                lists: seq![list_of(xs.skip(1))],
                done: Seq::empty(),
            },
        ));
        assert(step(m) == StepView::Next(map_call(f, xs, results, stack, envs[0], 0)));
        lemma_map_from(f, xs, results, steps, envs, stack, 0);
    }
}

/// The list of the one expression `e`.
pub open spec fn only(e: Value) -> Value {
    Value::Pair(Box::new(e), Box::new(Value::EmptyList))
}

/// What stands in tail position is evaluated without a new frame: the last
/// expression of a body, the chosen branch of `if` and of `cond`, the last
/// expression of `and` and of `or`, the body of a procedure that is called,
/// and the call itself once operator and operands are evaluated. So a call
/// in tail position leaves the stack as long as it was.
pub proof fn law_tail_positions(
    e: Value,
    v: Value,
    scope: usize,
    env: Seq<ScopeView>,
    form: SpecialForm,
    consequent: Value,
    alternative: Option<Value>,
    clauses: Value,
    head: Seq<char>,
    done: Seq<Value>,
    formals: Value,
    args: Seq<Value>,
)
    ensures
        sequence(only(e), scope, env, form) == go(ControlView::Eval(e, scope), env),
        resume(FrameView::Sequence { rest: only(e), scope }, v, env) == go(
            ControlView::Eval(e, scope),
            env,
        ),
        resume(FrameView::If { consequent, alternative, scope }, v, env) matches Ok(j)
            && j.push is None,
        truthy(v) ==> resume(FrameView::Cond { body: only(e), rest: clauses, scope }, v, env)
            == go(ControlView::Eval(e, scope), env),
        special(SpecialForm::And, only(e), scope, env) == go(ControlView::Eval(e, scope), env),
        special(SpecialForm::Or, only(e), scope, env) == go(ControlView::Eval(e, scope), env),
        done.len() > 0 || !(v is SpecialForm) ==> resume(
            FrameView::Call { head, done, pending: Value::EmptyList, scope },
            v,
            env,
        ) == go(ControlView::Apply(done.push(v)[0], done.push(v).skip(1)), env),
        formal_bindings(formals, args) matches Ok(bindings) ==> apply(
            closure(formals, only(e), scope),
            args,
            env,
        ) == go(
            ControlView::Eval(e, env.len() as usize),
            bind_all(extend(env, scope), env.len() as int, bindings),
        ),
{
    assert(spine(only(e)) =~= seq![e]) by {
        assert(spine(Value::EmptyList) =~= Seq::<Value>::empty());
    }
}

proof fn lemma_declared(env: Seq<ScopeView>, scope: int, names: Seq<Value>, i: int)
    requires
        0 <= scope < env.len(),
        0 <= i < names.len(),
    ensures
        declare_all(env, scope, names).len() == env.len(),
        declare_all(env, scope, names)[scope].bindings.contains_key(symbol_name(names[i])),
        declare_all(env, scope, names)[scope].bindings[symbol_name(names[i])] == None::<Value>,
        lookup(declare_all(env, scope, names), scope, symbol_name(names[i])) == Some(
            None::<Value>,
        ),
    decreases names.len(),
{
    let before = declare_all(env, scope, names.drop_last());
    let all = declare_all(env, scope, names);
    lemma_declare_all_len(env, scope, names.drop_last());
    assert(all == bind(before, scope, symbol_name(names.last()), None));
    assert(all[scope].bindings == before[scope].bindings.insert(symbol_name(names.last()), None));
    if i < names.len() - 1 {
        lemma_declared(env, scope, names.drop_last(), i);
        assert(names.drop_last()[i] == names[i]);
    }
}

proof fn lemma_declare_all_len(env: Seq<ScopeView>, scope: int, names: Seq<Value>)
    ensures
        declare_all(env, scope, names).len() == env.len(),
    decreases names.len(),
{
    if names.len() > 0 {
        lemma_declare_all_len(env, scope, names.drop_last());
    }
}

/// `let` evaluates the expressions of its bindings in the scope that it
/// stands in and adds no scope before they are evaluated: they see what was
/// visible outside, not the variables of the `let`.
pub proof fn law_let_is_parallel(bindings: Value, body: Value, scope: usize, env: Seq<ScopeView>)
    requires
        is_binding_list(bindings),
        body is Pair,
    ensures
        special_let(
            SpecialForm::Let,
            Value::Pair(Box::new(bindings), Box::new(body)),
            scope,
            env,
        ) == go_push(
            ControlView::Return(closure(list_of(binding_names(bindings)), body, scope)),
            FrameView::Call {
                head: special_form_name(SpecialForm::Let),
                done: Seq::empty(),
                pending: list_of(binding_inits(bindings)),
                scope,
            },
            env,
        ),
{
}

/// `letrec` evaluates the expressions of its bindings in a new scope in
/// which all its variables are declared: they see the variables of the
/// `letrec`, none of which has a value before its expression is evaluated.
pub proof fn law_letrec_is_recursive(
    bindings: Value,
    body: Value,
    scope: usize,
    env: Seq<ScopeView>,
    i: int,
)
    requires
        is_binding_list(bindings),
        body is Pair,
        0 <= i < spine(bindings).len(),
    ensures
        special_let(
            SpecialForm::Letrec,
            Value::Pair(Box::new(bindings), Box::new(body)),
            scope,
            env,
        ) matches Ok(j) && j.env == declare_all(
            extend(env, scope),
            env.len() as int,
            binding_names(bindings),
        ) && j.env.len() == env.len() + 1 && lookup(
            j.env,
            env.len() as int,
            symbol_name(binding_names(bindings)[i]),
        ) == Some(None::<Value>) && match j.control {
            ControlView::Eval(_, inner) => inner == env.len() as usize,
            _ => false,
        },
{
    let names = binding_names(bindings);
    lemma_declared(extend(env, scope), env.len() as int, names, i);
    let forms = crate::machine::binding_assignments(bindings);
    assert(forms.len() > 0);
    assert(chain(forms, body) is Pair);
}

} // verus!
