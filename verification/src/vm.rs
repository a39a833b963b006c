//! The virtual machine: the executable counterpart of the model in
//! `machine`, step by step.

use crate::builtin::{call, check_list};
use crate::datum::{
    is_proper_list, lemma_values_of_push, list_of, spine, values_of, Builtin, Datum, Procedure,
    SpecialForm, Value,
};
use crate::environment::{binding_views, Environment, Lookup, ScopeView};
use crate::error::{ErrorKind, Fault, RuntimeError};
use crate::machine::{
    all_pairs, all_proper, apply, apply_spread, bad_syntax, binding_assignments, binding_inits,
    binding_names, car, cars, cdr, cdrs, closure, declare_all, eval, formal_bindings, head_name,
    is_binding, is_binding_list, map_start, resume, run, same_lengths, sequence, special,
    special_define, special_let, start, step, trace, valid_formals, ControlView, FrameView, Halt,
    JumpView, MachineView, StepView,
};
use crate::text::text_is;
use std::rc::Rc;
use vstd::prelude::*;

verus! {

/// What the machine is doing.
pub enum Control {
    Eval(Datum, usize),
    Apply(Datum, Vec<Datum>),
    Return(Datum),
}

/// What waits for a value.
pub enum Frame {
    Call { head: String, done: Vec<Datum>, pending: Datum, scope: usize },
    If { consequent: Datum, alternative: Option<Datum>, scope: usize },
    Or { rest: Datum, scope: usize },
    Sequence { rest: Datum, scope: usize },
    Define { name: String, scope: usize },
    Assign { name: String, scope: usize },
    Cond { body: Datum, rest: Datum, scope: usize },
    MapList { procedure: Datum, lists: Vec<Datum>, done: Vec<Datum> },
}

/// Where a transition leads: the new control and the frame to push, if any.
pub struct Jump {
    pub control: Control,
    pub push: Option<Frame>,
}

impl View for Control {
    type V = ControlView;

    open spec fn view(&self) -> ControlView {
        match self {
            Control::Eval(e, scope) => ControlView::Eval(e@, *scope),
            Control::Apply(p, args) => ControlView::Apply(p@, values_of(args@)),
            Control::Return(v) => ControlView::Return(v@),
        }
    }
}

impl View for Frame {
    type V = FrameView;

    open spec fn view(&self) -> FrameView {
        match self {
            Frame::Call { head, done, pending, scope } => FrameView::Call {
                head: head@,
                done: values_of(done@),
                pending: pending@,
                scope: *scope,
            },
            Frame::If { consequent, alternative, scope } => FrameView::If {
                consequent: consequent@,
                alternative: match alternative {
                    Some(a) => Some(a@),
                    None => None,
                },
                scope: *scope,
            },
            Frame::Or { rest, scope } => FrameView::Or { rest: rest@, scope: *scope },
            Frame::Sequence { rest, scope } => FrameView::Sequence { rest: rest@, scope: *scope },
            Frame::Define { name, scope } => FrameView::Define { name: name@, scope: *scope },
            Frame::Assign { name, scope } => FrameView::Assign { name: name@, scope: *scope },
            Frame::Cond { body, rest, scope } => FrameView::Cond {
                body: body@,
                rest: rest@,
                scope: *scope,
            },
            Frame::MapList { procedure, lists, done } => FrameView::MapList {
                procedure: procedure@,
                lists: values_of(lists@),
                done: values_of(done@),
            },
        }
    }
}

pub open spec fn frames_of(s: Seq<Frame>) -> Seq<FrameView> {
    s.map_values(|f: Frame| f@)
}

pub open spec fn pushed_view(f: Option<Frame>) -> Option<FrameView> {
    match f {
        Some(f) => Some(f@),
        None => None,
    }
}

/// The executable transition `r`, which found the scopes as `before` and
/// left them as `after`, is the transition `expected` of the model. A
/// failed transition leaves the scopes as they were.
pub open spec fn lands(
    r: Result<Jump, RuntimeError>,
    before: Seq<ScopeView>,
    after: Seq<ScopeView>,
    expected: Result<JumpView, Fault>,
) -> bool {
    match r {
        Ok(j) => expected == Ok::<JumpView, Fault>(
            JumpView { control: j.control@, push: pushed_view(j.push), env: after },
        ),
        Err(e) => expected == Err::<JumpView, Fault>(e@) && after == before,
    }
}

fn jump(control: Control) -> (r: Result<Jump, RuntimeError>)
    ensures
        r == Ok::<Jump, RuntimeError>(Jump { control, push: None }),
{
    Ok(Jump { control, push: None })
}

fn jump_push(control: Control, frame: Frame) -> (r: Result<Jump, RuntimeError>)
    ensures
        r == Ok::<Jump, RuntimeError>(Jump { control, push: Some(frame) }),
{
    Ok(Jump { control, push: Some(frame) })
}

fn bad(f: SpecialForm) -> (r: Result<Jump, RuntimeError>)
    ensures
        r is Err,
        forall|env: Seq<ScopeView>| #[trigger] lands(r, env, env, bad_syntax(f)),
{
    Err(RuntimeError::named(ErrorKind::BadSyntax, f.name()))
}

fn name_of_head(op: &Datum) -> (r: String)
    ensures
        r@ == head_name(op@),
{
    match op {
        Datum::Symbol(s) => s.clone(),
        _ => String::from_str("<anonymous>"),
    }
}

fn rest_of(d: &Datum) -> (r: Datum)
    ensures
        r@ == cdr(d@),
{
    match d {
        Datum::Pair(_, b) => (**b).clone(),
        _ => Datum::EmptyList,
    }
}

/// The car and the cdr, if `d` is a pair.
fn as_pair(d: &Datum) -> (r: Option<(&Datum, &Datum)>)
    ensures
        match r {
            Some((a, b)) => d@ == Value::Pair(Box::new(a@), Box::new(b@)),
            None => !(d@ is Pair),
        },
{
    match d {
        Datum::Pair(a, b) => Some((&**a, &**b)),
        _ => None,
    }
}

/// The name, if `d` is a symbol.
fn as_symbol(d: &Datum) -> (r: Option<&String>)
    ensures
        match r {
            Some(s) => d@ == Value::Symbol(s@),
            None => !(d@ is Symbol),
        },
{
    match d {
        Datum::Symbol(s) => Some(s),
        _ => None,
    }
}

fn is_empty_list(d: &Datum) -> (r: bool)
    ensures
        r == (d@ is EmptyList),
{
    match d {
        Datum::EmptyList => true,
        _ => false,
    }
}

fn is_pair(d: &Datum) -> (r: bool)
    ensures
        r == (d@ is Pair),
{
    match d {
        Datum::Pair(_, _) => true,
        _ => false,
    }
}

fn make_closure(formals: Datum, body: Datum, scope: usize) -> (r: Datum)
    ensures
        r@ == closure(formals@, body@, scope),
{
    Datum::Procedure(Procedure::Lambda(Rc::new(formals), Rc::new(body), scope))
}

fn check_formals(d: &Datum) -> (r: bool)
    ensures
        r == valid_formals(d@),
{
    let mut cur: &Datum = d;
    loop
        invariant
            valid_formals(d@) == valid_formals(cur@),
        decreases spine(cur@).len(),
    {
        match as_pair(cur) {
            Some((p, rest)) => {
                if as_symbol(p).is_none() {
                    return false;
                }
                cur = rest;
            },
            None => {
                return is_empty_list(cur) || as_symbol(cur).is_some();
            },
        }
    }
}

/// Evaluating the expressions of `body` in order.
fn eval_sequence(body: &Datum, scope: usize, form: SpecialForm, env: &Environment) -> (r: Result<
    Jump,
    RuntimeError,
>)
    ensures
        lands(r, env@, env@, sequence(body@, scope, env@, form)),
        body@ is Pair ==> r is Ok,
{
    match as_pair(body) {
        Some((e, rest)) => {
            if is_empty_list(rest) {
                jump(Control::Eval(e.clone(), scope))
            } else {
                jump_push(Control::Eval(e.clone(), scope), Frame::Sequence { rest: rest.clone(), scope })
            }
        },
        None => bad(form),
    }
}

/// Evaluating `expr` in `scope`.
fn eval_datum(expr: Datum, scope: usize, env: &Environment) -> (r: Result<Jump, RuntimeError>)
    ensures
        lands(r, env@, env@, eval(expr@, scope, env@)),
{
    if let Some(name) = as_symbol(&expr) {
        return match env.lookup(scope, name) {
            Lookup::Bound(v) => jump(Control::Return(v)),
            Lookup::Uninitialized => Err(
                RuntimeError { kind: ErrorKind::UninitializedVariable, name: name.clone() },
            ),
            Lookup::Unbound => Err(
                RuntimeError { kind: ErrorKind::UnboundVariable, name: name.clone() },
            ),
        };
    }
    if let Some((op, operands)) = as_pair(&expr) {
        let head = name_of_head(op);
        let done: Vec<Datum> = Vec::new();
        assert(values_of(done@) =~= Seq::<Value>::empty());
        return jump_push(
            Control::Eval(op.clone(), scope),
            Frame::Call { head, done, pending: operands.clone(), scope },
        );
    }
    if is_empty_list(&expr) {
        return Err(RuntimeError::plain(ErrorKind::EmptyCombination));
    }
    jump(Control::Return(expr))
}

/// The variables and the expressions of the bindings of a `let` or
/// `letrec`, if that is what `d` is.
fn split_bindings(d: &Datum) -> (r: Option<(Vec<Datum>, Vec<Datum>)>)
    ensures
        r is Some <==> is_binding_list(d@),
        r matches Some((names, inits)) ==> values_of(names@) == binding_names(d@) && values_of(
            inits@,
        ) == binding_inits(d@),
{
    let items = match d.list_items() {
        Some(items) => items,
        None => {
            return None;
        },
    };
    let ghost all = spine(d@);
    let mut names: Vec<Datum> = Vec::new();
    let mut inits: Vec<Datum> = Vec::new();
    let mut i: usize = 0;
    while i < items.len()
        invariant
            i <= items.len(),
            all == spine(d@),
            all == values_of(items@),
            is_proper_list(d@),
            names.len() == i,
            inits.len() == i,
            forall|j: int| 0 <= j < i ==> is_binding(#[trigger] all[j]),
            forall|j: int| 0 <= j < i ==> (#[trigger] values_of(names@)[j]) == spine(all[j])[0],
            forall|j: int| 0 <= j < i ==> (#[trigger] values_of(inits@)[j]) == spine(all[j])[1],
        decreases items.len() - i,
    {
        assert(all[i as int] == items@[i as int]@);
        let parts = match items[i].list_items() {
            Some(parts) => parts,
            None => {
                assert(!is_binding(all[i as int]));
                return None;
            },
        };
        if parts.len() != 2 {
            assert(!is_binding(all[i as int]));
            return None;
        }
        assert(values_of(parts@)[0] == parts@[0]@);
        assert(values_of(parts@)[1] == parts@[1]@);
        match &parts[0] {
            Datum::Symbol(_) => {},
            _ => {
                assert(!is_binding(all[i as int]));
                return None;
            },
        }
        let ghost prev_names = names@;
        let ghost prev_inits = inits@;
        names.push(parts[0].clone());
        inits.push(parts[1].clone());
        proof {
            lemma_values_of_push(prev_names, names@.last());
            lemma_values_of_push(prev_inits, inits@.last());
        }
        i = i + 1;
    }
    assert(values_of(names@) =~= binding_names(d@));
    assert(values_of(inits@) =~= binding_inits(d@));
    Some((names, inits))
}

/// `let` and `letrec`.
fn do_let(f: SpecialForm, ops: &Datum, scope: usize, env: &mut Environment) -> (r: Result<
    Jump,
    RuntimeError,
>)
    requires
        f == SpecialForm::Let || f == SpecialForm::Letrec,
    ensures
        lands(r, old(env)@, final(env)@, special_let(f, ops@, scope, old(env)@)),
{
    match ops {
        Datum::Pair(bindings, body) => {
            if !is_pair(body) {
                return bad(f);
            }
            let (names, inits) = match split_bindings(bindings) {
                Some(parts) => parts,
                None => {
                    return bad(f);
                },
            };
            if f == SpecialForm::Let {
                let done: Vec<Datum> = Vec::new();
                assert(values_of(done@) =~= Seq::<Value>::empty());
                jump_push(
                    Control::Return(make_closure(Datum::list_from(&names), (**body).clone(), scope)),
                    Frame::Call {
                        head: String::from_str(f.name()),
                        done,
                        pending: Datum::list_from(&inits),
                        scope,
                    },
                )
            } else {
                let ghost before = env@;
                let ghost name_views = values_of(names@);
                let child = env.extend(scope);
                let mut forms: Vec<Datum> = Vec::new();
                let mut i: usize = 0;
                assert(name_views.take(0) =~= Seq::<Value>::empty());
                while i < names.len()
                    invariant
                        i <= names.len(),
                        names.len() == inits.len(),
                        name_views == values_of(names@),
                        name_views == binding_names(bindings@),
                        values_of(inits@) == binding_inits(bindings@),
                        is_binding_list(bindings@),
                        child == before.len(),
                        env@ == declare_all(
                            crate::environment::extend(before, scope),
                            child as int,
                            name_views.take(i as int),
                        ),
                        forms.len() == i,
                        forall|j: int|
                            0 <= j < i ==> (#[trigger] values_of(forms@)[j]) == binding_assignments(
                                bindings@,
                            )[j],
                    decreases names.len() - i,
                {
                    proof {
                        assert(name_views.take(i + 1).drop_last() =~= name_views.take(i as int));
                        assert(name_views.take(i + 1).last() == names@[i as int]@);
                        assert(is_binding(spine(bindings@)[i as int]));
                        assert(names@[i as int]@ == binding_names(bindings@)[i as int]);
                        assert(inits@[i as int]@ == values_of(inits@)[i as int]);
                    }
                    match &names[i] {
                        Datum::Symbol(s) => {
                            env.declare(child, s.clone());
                        },
                        _ => {
                            env.declare(child, String::new());
                        },
                    }
                    let mut parts: Vec<Datum> = Vec::new();
                    parts.push(Datum::SpecialForm(SpecialForm::Assign));
                    parts.push(names[i].clone());
                    parts.push(inits[i].clone());
                    let form = Datum::list_from(&parts);
                    let ghost prev = forms@;
                    proof {
                        assert(values_of(parts@) =~= seq![
                            Value::SpecialForm(SpecialForm::Assign),
                            names@[i as int]@,
                            inits@[i as int]@,
                        ]);
                        lemma_values_of_push(prev, form);
                    }
                    forms.push(form);
                    i = i + 1;
                }
                assert(name_views.take(names.len() as int) =~= name_views);
                assert(values_of(forms@) =~= binding_assignments(bindings@));
                let all = Datum::chain_from(&forms, (**body).clone());
                assert(all@ is Pair);
                eval_sequence(&all, child, f, env)
            }
        },
        _ => bad(f),
    }
}

/// `define`.
fn do_define(ops: &Datum, scope: usize, env: &mut Environment) -> (r: Result<Jump, RuntimeError>)
    ensures
        lands(r, old(env)@, final(env)@, special_define(ops@, scope, old(env)@)),
{
    let f = SpecialForm::Define;
    let (target, rest) = match as_pair(ops) {
        Some(parts) => parts,
        None => {
            return bad(f);
        },
    };
    if let Some(name) = as_symbol(target) {
        match as_pair(rest) {
            Some((e, tail)) => {
                assert(spine(rest@) == seq![e@] + spine(tail@));
                if is_pair(tail) {
                    assert(spine(tail@).len() >= 1);
                    bad(f)
                } else {
                    assert(spine(tail@) =~= Seq::<Value>::empty());
                    assert(spine(rest@) =~= seq![e@]);
                    jump_push(
                        Control::Eval(e.clone(), scope),
                        Frame::Define { name: name.clone(), scope },
                    )
                }
            },
            None => {
                assert(spine(rest@) =~= Seq::<Value>::empty());
                bad(f)
            },
        }
    } else if let Some((fname, formals)) = as_pair(target) {
        match as_symbol(fname) {
            Some(name) => {
                if check_formals(formals) && is_pair(rest) {
                    env.define(scope, name.clone(), make_closure(formals.clone(), rest.clone(), scope));
                    jump(Control::Return(Datum::Symbol(name.clone())))
                } else {
                    bad(f)
                }
            },
            None => bad(f),
        }
    } else {
        bad(f)
    }
}

/// The special form `f` with the operands `ops`.
fn do_special(f: SpecialForm, ops: Datum, scope: usize, env: &mut Environment) -> (r: Result<
    Jump,
    RuntimeError,
>)
    ensures
        lands(r, old(env)@, final(env)@, special(f, ops@, scope, old(env)@)),
{
    let items = match ops.list_items() {
        Some(items) => items,
        None => {
            return bad(f);
        },
    };
    let ghost all = spine(ops@);
    assert(forall|i: int| 0 <= i < items.len() ==> #[trigger] all[i] == items@[i]@);
    match f {
        SpecialForm::Quote => {
            if items.len() == 1 {
                jump(Control::Return(items[0].clone()))
            } else {
                bad(f)
            }
        },
        SpecialForm::If => {
            if items.len() == 2 || items.len() == 3 {
                let alternative = if items.len() == 3 {
                    Some(items[2].clone())
                } else {
                    None
                };
                jump_push(
                    Control::Eval(items[0].clone(), scope),
                    Frame::If { consequent: items[1].clone(), alternative, scope },
                )
            } else {
                bad(f)
            }
        },
        SpecialForm::Lambda => {
            if items.len() >= 2 && check_formals(&items[0]) {
                jump(Control::Return(make_closure(items[0].clone(), rest_of(&ops), scope)))
            } else {
                bad(f)
            }
        },
        SpecialForm::Let | SpecialForm::Letrec => do_let(f, &ops, scope, env),
        SpecialForm::Begin => eval_sequence(&ops, scope, f, env),
        SpecialForm::Define => do_define(&ops, scope, env),
        SpecialForm::Assign => {
            if items.len() == 2 {
                assert(all[0] == items@[0]@ && all[1] == items@[1]@);
                match as_symbol(&items[0]) {
                    Some(name) => jump_push(
                        Control::Eval(items[1].clone(), scope),
                        Frame::Assign { name: name.clone(), scope },
                    ),
                    None => bad(f),
                }
            } else {
                bad(f)
            }
        },
        SpecialForm::And => {
            if items.len() == 0 {
                jump(Control::Return(Datum::Boolean(true)))
            } else if items.len() == 1 {
                jump(Control::Eval(items[0].clone(), scope))
            } else {
                jump_push(
                    Control::Eval(items[0].clone(), scope),
                    Frame::If {
                        consequent: Datum::cons(Datum::SpecialForm(SpecialForm::And), rest_of(&ops)),
                        alternative: Some(Datum::Boolean(false)),
                        scope,
                    },
                )
            }
        },
        SpecialForm::Or => {
            if items.len() == 0 {
                jump(Control::Return(Datum::Boolean(false)))
            } else if items.len() == 1 {
                jump(Control::Eval(items[0].clone(), scope))
            } else {
                jump_push(
                    Control::Eval(items[0].clone(), scope),
                    Frame::Or { rest: rest_of(&ops), scope },
                )
            }
        },
        SpecialForm::Cond => {
            if items.len() == 0 {
                jump(Control::Return(Datum::EmptyList))
            } else {
                assert(all[0] == items@[0]@);
                match as_pair(&items[0]) {
                    Some((test, body)) => {
                        let is_else = match as_symbol(test) {
                            Some(s) => text_is(s.as_str(), "else"),
                            None => false,
                        };
                        assert(is_else == (test@ == Value::Symbol("else"@)));
                        if is_else {
                            eval_sequence(body, scope, f, env)
                        } else {
                            jump_push(
                                Control::Eval(test.clone(), scope),
                                Frame::Cond { body: body.clone(), rest: rest_of(&ops), scope },
                            )
                        }
                    },
                    None => bad(f),
                }
            }
        },
    }
}

spec fn bindings_before(
    prefix: Seq<(Seq<char>, Value)>,
    rest: Result<Seq<(Seq<char>, Value)>, ErrorKind>,
) -> Result<Seq<(Seq<char>, Value)>, ErrorKind> {
    match rest {
        Ok(b) => Ok(prefix + b),
        Err(k) => Err(k),
    }
}

/// A copy of `items[from..to]`.
fn copy_range(items: &Vec<Datum>, from: usize, to: usize) -> (r: Vec<Datum>)
    requires
        from <= to <= items.len(),
    ensures
        r@ == items@.subrange(from as int, to as int),
        values_of(r@) == values_of(items@).subrange(from as int, to as int),
{
    let mut out: Vec<Datum> = Vec::new();
    let mut i: usize = from;
    while i < to
        invariant
            from <= i <= to <= items.len(),
            out@ == items@.subrange(from as int, i as int),
        decreases to - i,
    {
        out.push(items[i].clone());
        assert(out@ =~= items@.subrange(from as int, i + 1));
        i = i + 1;
    }
    assert(values_of(out@) =~= values_of(items@).subrange(from as int, to as int));
    out
}

/// The formals bound to the arguments.
fn bind_formals(formals: &Datum, args: &Vec<Datum>) -> (r: Result<Vec<(String, Datum)>, ErrorKind>)
    ensures
        match r {
            Ok(b) => formal_bindings(formals@, values_of(args@)) == Ok::<
                Seq<(Seq<char>, Value)>,
                ErrorKind,
            >(binding_views(b@)),
            Err(k) => formal_bindings(formals@, values_of(args@)) == Err::<
                Seq<(Seq<char>, Value)>,
                ErrorKind,
            >(k),
        },
{
    let ghost vals = values_of(args@);
    let mut out: Vec<(String, Datum)> = Vec::new();
    let mut cur: &Datum = formals;
    let mut i: usize = 0;
    proof {
        assert(vals.skip(0) =~= vals);
        match formal_bindings(formals@, vals) {
            Ok(b) => {
                assert(binding_views(out@) + b =~= b);
            },
            Err(k) => {},
        }
    }
    loop
        invariant
            i <= args.len(),
            vals == values_of(args@),
            formal_bindings(formals@, vals) == bindings_before(
                binding_views(out@),
                formal_bindings(cur@, vals.skip(i as int)),
            ),
        decreases spine(cur@).len(),
    {
        let ghost here = vals.skip(i as int);
        let ghost prev = out@;
        match as_pair(cur) {
            Some((p, rest)) => match as_symbol(p) {
                Some(name) => {
                    if i >= args.len() {
                        return Err(ErrorKind::WrongArgumentCount);
                    }
                    out.push((name.clone(), args[i].clone()));
                    proof {
                        assert(here.drop_first() =~= vals.skip(i + 1));
                        assert(here[0] == args@[i as int]@);
                        assert(binding_views(out@) =~= binding_views(prev).push(
                            (name@, args@[i as int]@),
                        ));
                        match formal_bindings(rest@, vals.skip(i + 1)) {
                            Ok(b) => {
                                assert(binding_views(prev) + (seq![(name@, here[0])] + b)
                                    =~= binding_views(out@) + b);
                            },
                            Err(k) => {},
                        }
                    }
                    cur = rest;
                    i = i + 1;
                },
                None => {
                    return Err(ErrorKind::BadSyntax);
                },
            },
            None => {
                if let Some(name) = as_symbol(cur) {
                    let left = copy_range(args, i, args.len());
                    assert(values_of(left@) =~= here);
                    out.push((name.clone(), Datum::list_from(&left)));
                    proof {
                        assert(binding_views(out@) =~= binding_views(prev) + seq![
                            (name@, list_of(here)),
                        ]);
                    }
                    return Ok(out);
                } else if is_empty_list(cur) {
                    if i == args.len() {
                        assert(binding_views(out@) + Seq::<(Seq<char>, Value)>::empty()
                            =~= binding_views(out@));
                        return Ok(out);
                    } else {
                        return Err(ErrorKind::WrongArgumentCount);
                    }
                } else {
                    return Err(ErrorKind::BadSyntax);
                }
            },
        }
    }
}

/// `apply`.
fn do_apply_spread(args: Vec<Datum>, env: &Environment) -> (r: Result<Jump, RuntimeError>)
    ensures
        lands(r, env@, env@, apply_spread(values_of(args@), env@)),
{
    let ghost vals = values_of(args@);
    let n = args.len();
    if n < 2 {
        return Err(RuntimeError::named(ErrorKind::WrongArgumentCount, "apply"));
    }
    assert(vals.last() == args@[n - 1]@);
    assert(vals[0] == args@[0]@);
    let items = match args[n - 1].list_items() {
        Some(items) => items,
        None => {
            return Err(RuntimeError::named(ErrorKind::ImproperList, "apply"));
        },
    };
    let mut spread = copy_range(&args, 1, n - 1);
    let ghost front = values_of(spread@);
    let mut i: usize = 0;
    assert(values_of(items@).take(0) =~= Seq::<Value>::empty());
    assert(front + Seq::<Value>::empty() =~= front);
    while i < items.len()
        invariant
            i <= items.len(),
            values_of(spread@) == front + values_of(items@).take(i as int),
        decreases items.len() - i,
    {
        let ghost prev = spread@;
        spread.push(items[i].clone());
        proof {
            lemma_values_of_push(prev, spread@.last());
            assert(values_of(items@).take(i + 1) =~= values_of(items@).take(i as int).push(
                items@[i as int]@,
            ));
            assert((front + values_of(items@).take(i as int)).push(items@[i as int]@) =~= front
                + values_of(items@).take(i + 1));
        }
        i = i + 1;
    }
    assert(values_of(items@).take(items.len() as int) =~= values_of(items@));
    jump(Control::Apply(args[0].clone(), spread))
}

/// The first elements and the rests of `lists`, if all of them are pairs.
fn split_rows(lists: &Vec<Datum>) -> (r: Option<(Vec<Datum>, Vec<Datum>)>)
    ensures
        match r {
            Some((heads, tails)) => all_pairs(values_of(lists@)) && values_of(heads@) == cars(
                values_of(lists@),
            ) && values_of(tails@) == cdrs(values_of(lists@)),
            None => !all_pairs(values_of(lists@)),
        },
{
    let ghost vals = values_of(lists@);
    let mut heads: Vec<Datum> = Vec::new();
    let mut tails: Vec<Datum> = Vec::new();
    let mut i: usize = 0;
    while i < lists.len()
        invariant
            i <= lists.len(),
            vals == values_of(lists@),
            heads.len() == i,
            tails.len() == i,
            forall|j: int| 0 <= j < i ==> (#[trigger] vals[j]) is Pair,
            forall|j: int| 0 <= j < i ==> (#[trigger] values_of(heads@)[j]) == car(vals[j]),
            forall|j: int| 0 <= j < i ==> (#[trigger] values_of(tails@)[j]) == cdr(vals[j]),
        decreases lists.len() - i,
    {
        assert(vals[i as int] == lists@[i as int]@);
        match as_pair(&lists[i]) {
            Some((a, b)) => {
                let ghost prev_heads = heads@;
                let ghost prev_tails = tails@;
                heads.push(a.clone());
                tails.push(b.clone());
                proof {
                    lemma_values_of_push(prev_heads, heads@.last());
                    lemma_values_of_push(prev_tails, tails@.last());
                }
            },
            None => {
                return None;
            },
        }
        i = i + 1;
    }
    assert(values_of(heads@) =~= cars(vals));
    assert(values_of(tails@) =~= cdrs(vals));
    Some((heads, tails))
}

/// `map`.
fn do_map_start(args: Vec<Datum>, env: &Environment) -> (r: Result<Jump, RuntimeError>)
    ensures
        lands(r, env@, env@, map_start(values_of(args@), env@)),
{
    let ghost vals = values_of(args@);
    let n = args.len();
    if n < 2 {
        return Err(RuntimeError::named(ErrorKind::WrongArgumentCount, "map"));
    }
    let lists = copy_range(&args, 1, n);
    let ghost lv = values_of(lists@);
    assert(lv =~= vals.skip(1));
    let mut i: usize = 0;
    while i < lists.len()
        invariant
            i <= lists.len(),
            lv == values_of(lists@),
            lv == values_of(args@).skip(1),
            args.len() >= 2,
            forall|j: int| 0 <= j < i ==> is_proper_list(#[trigger] lv[j]),
        decreases lists.len() - i,
    {
        assert(lv[i as int] == lists@[i as int]@);
        if !check_list(&lists[i]) {
            assert(!is_proper_list(lv[i as int]));
            return Err(RuntimeError::named(ErrorKind::ImproperList, "map"));
        }
        i = i + 1;
    }
    assert(all_proper(lv));
    assert(lv[0] == lists@[0]@);
    let first = match lists[0].list_items() {
        Some(items) => items,
        None => {
            return Err(RuntimeError::named(ErrorKind::ImproperList, "map"));
        },
    };
    assert(values_of(first@).len() == first.len());
    i = 1;
    while i < lists.len()
        invariant
            1 <= i <= lists.len(),
            lv == values_of(lists@),
            lv == values_of(args@).skip(1),
            args.len() >= 2,
            all_proper(lv),
            first.len() == spine(lv[0]).len(),
            forall|j: int| 0 <= j < i ==> spine(#[trigger] lv[j]).len() == spine(lv[0]).len(),
        decreases lists.len() - i,
    {
        assert(lv[i as int] == lists@[i as int]@);
        assert(is_proper_list(lv[i as int]));
        match lists[i].list_items() {
            Some(items) => {
                assert(values_of(items@).len() == items.len());
                if items.len() != first.len() {
                    assert(!same_lengths(lv));
                    return Err(RuntimeError::named(ErrorKind::UnequalLengths, "map"));
                }
            },
            None => {
                return Err(RuntimeError::named(ErrorKind::ImproperList, "map"));
            },
        }
        i = i + 1;
    }
    assert(same_lengths(lv));
    assert(vals[0] == args@[0]@);
    match split_rows(&lists) {
        Some((heads, tails)) => {
            let done: Vec<Datum> = Vec::new();
            assert(values_of(done@) =~= Seq::<Value>::empty());
            jump_push(
                Control::Apply(args[0].clone(), heads),
                Frame::MapList { procedure: args[0].clone(), lists: tails, done },
            )
        },
        None => jump(Control::Return(Datum::EmptyList)),
    }
}

/// Calling `procedure` with `args`.
fn do_apply(procedure: Datum, args: Vec<Datum>, env: &mut Environment) -> (r: Result<
    Jump,
    RuntimeError,
>)
    ensures
        lands(r, old(env)@, final(env)@, apply(procedure@, values_of(args@), old(env)@)),
{
    match &procedure {
        Datum::Procedure(Procedure::Native(b)) => match *b {
            Builtin::Apply => do_apply_spread(args, env),
            Builtin::MapList => do_map_start(args, env),
            _ => match call(*b, &args) {
                Ok(v) => jump(Control::Return(v)),
                Err(e) => Err(e),
            },
        },
        Datum::Procedure(Procedure::Lambda(formals, body, captured)) => {
            if !is_pair(body) {
                return bad(SpecialForm::Lambda);
            }
            match bind_formals(formals, &args) {
                Ok(bindings) => {
                    let child = env.extend_with(*captured, &bindings);
                    eval_sequence(body, child, SpecialForm::Lambda, env)
                },
                Err(kind) => Err(RuntimeError::named(kind, SpecialForm::Lambda.name())),
            }
        },
        _ => Err(RuntimeError::plain(ErrorKind::NotAProcedure)),
    }
}

/// Handing the value `v` to `frame`.
fn do_resume(frame: Frame, v: Datum, env: &mut Environment) -> (r: Result<Jump, RuntimeError>)
    ensures
        lands(r, old(env)@, final(env)@, resume(frame@, v@, old(env)@)),
{
    match frame {
        Frame::Call { head, done, pending, scope } => {
            assert(values_of(done@).len() == done.len());
            if done.len() == 0 {
                if let Datum::SpecialForm(f) = &v {
                    return do_special(*f, pending, scope, env);
                }
            }
            let mut done = done;
            let ghost prev = done@;
            proof {
                lemma_values_of_push(prev, v);
            }
            done.push(v);
            match as_pair(&pending) {
                Some((e, rest)) => jump_push(
                    Control::Eval(e.clone(), scope),
                    Frame::Call { head, done, pending: rest.clone(), scope },
                ),
                None => {
                    if is_empty_list(&pending) {
                        let ghost all = values_of(done@);
                        let procedure = done.remove(0);
                        assert(values_of(done@) =~= all.skip(1));
                        jump(Control::Apply(procedure, done))
                    } else {
                        Err(RuntimeError { kind: ErrorKind::BadSyntax, name: head })
                    }
                },
            }
        },
        Frame::If { consequent, alternative, scope } => {
            if v.is_true() {
                jump(Control::Eval(consequent, scope))
            } else {
                match alternative {
                    Some(a) => jump(Control::Eval(a, scope)),
                    None => jump(Control::Return(Datum::EmptyList)),
                }
            }
        },
        Frame::Or { rest, scope } => {
            if v.is_true() {
                jump(Control::Return(v))
            } else {
                do_special(SpecialForm::Or, rest, scope, env)
            }
        },
        Frame::Sequence { rest, scope } => eval_sequence(&rest, scope, SpecialForm::Begin, env),
        Frame::Define { name, scope } => {
            let result = Datum::Symbol(name.clone());
            env.define(scope, name, v);
            jump(Control::Return(result))
        },
        Frame::Assign { name, scope } => {
            let result = Datum::Symbol(name.clone());
            let failure = RuntimeError { kind: ErrorKind::UnboundVariable, name: name.clone() };
            if env.set(scope, name, v) {
                jump(Control::Return(result))
            } else {
                Err(failure)
            }
        },
        Frame::Cond { body, rest, scope } => {
            if v.is_true() {
                if is_empty_list(&body) {
                    jump(Control::Return(v))
                } else {
                    eval_sequence(&body, scope, SpecialForm::Cond, env)
                }
            } else {
                do_special(SpecialForm::Cond, rest, scope, env)
            }
        },
        Frame::MapList { procedure, lists, done } => {
            let mut done = done;
            let ghost prev = done@;
            proof {
                lemma_values_of_push(prev, v);
            }
            done.push(v);
            assert(values_of(lists@).len() == lists.len());
            if lists.len() > 0 {
                if let Some((heads, tails)) = split_rows(&lists) {
                    return jump_push(
                        Control::Apply(procedure.clone(), heads),
                        Frame::MapList { procedure, lists: tails, done },
                    );
                }
            }
            jump(Control::Return(Datum::list_from(&done)))
        },
    }
}

/// What one step of the machine did.
pub enum Step {
    Next(Control),
    Finished(Datum),
    Failed(RuntimeError),
}

/// The executable step `r`, from the model state `m` to the frames `stack`
/// and the scopes `env`, is the step of the model.
pub open spec fn stepped(m: MachineView, r: Step, stack: Seq<FrameView>, env: Seq<ScopeView>) -> bool {
    match r {
        Step::Next(c) => step(m) == StepView::Next(MachineView { control: c@, stack, env }),
        Step::Finished(v) => step(m) == StepView::Finished(v@) && env == m.env,
        Step::Failed(e) => step(m) == StepView::Failed(e@, stack) && env == m.env,
    }
}

/// One step of the machine.
pub fn step_machine(control: Control, stack: &mut Vec<Frame>, env: &mut Environment) -> (r: Step)
    ensures
        stepped(
            MachineView { control: control@, stack: frames_of(old(stack)@), env: old(env)@ },
            r,
            frames_of(final(stack)@),
            final(env)@,
        ),
{
    let ghost before = stack@;
    let outcome = match control {
        Control::Eval(e, scope) => eval_datum(e, scope, env),
        Control::Apply(p, args) => do_apply(p, args, env),
        Control::Return(v) => {
            assert(frames_of(before).len() == before.len());
            match stack.pop() {
                None => {
                    return Step::Finished(v);
                },
                Some(frame) => {
                    assert(frames_of(stack@) =~= frames_of(before).drop_last());
                    assert(frames_of(before).last() == frame@);
                    do_resume(frame, v, env)
                },
            }
        },
    };
    match outcome {
        Ok(j) => {
            let ghost base = stack@;
            match j.push {
                Some(f) => {
                    stack.push(f);
                    assert(frames_of(stack@) =~= frames_of(base).push(stack@.last()@));
                },
                None => {},
            }
            Step::Next(j.control)
        },
        Err(e) => Step::Failed(e),
    }
}

/// The stack trace for the frames `stack`.
pub fn trace_text(stack: &Vec<Frame>) -> (r: String)
    ensures
        r@ == trace(frames_of(stack@)),
{
    let ghost frames = frames_of(stack@);
    let mut out = String::new();
    let mut i: usize = 0;
    assert(frames.take(0) =~= Seq::<FrameView>::empty());
    while i < stack.len()
        invariant
            i <= stack.len(),
            frames == frames_of(stack@),
            out@ == trace(frames.take(i as int)),
        decreases stack.len() - i,
    {
        let ghost prev = out@;
        proof {
            assert(frames.take(i + 1).drop_last() =~= frames.take(i as int));
            assert(frames.take(i + 1).last() == stack@[i as int]@);
        }
        match &stack[i] {
            Frame::Call { head, .. } => {
                out.append(head.as_str());
                out.push('\n');
                assert(out@ =~= prev + (head@ + seq!['\n']));
            },
            _ => {
                assert(prev + Seq::<char>::empty() =~= prev);
            },
        }
        i = i + 1;
    }
    assert(frames.take(stack.len() as int) =~= frames);
    out
}

pub open spec fn result_view(r: Result<Datum, (RuntimeError, String)>) -> Result<
    Value,
    (Fault, Seq<char>),
> {
    match r {
        Ok(d) => Ok(d@),
        Err((e, t)) => Err((e@, t@)),
    }
}

/// A machine that evaluates one datum at a time, in the scopes it is given.
pub struct VirtualMachine {
    limit: u64,
}

impl VirtualMachine {
    /// How many steps an evaluation may take.
    pub closed spec fn limit(&self) -> nat {
        self.limit as nat
    }

    /// A machine with the largest step limit there is.
    pub fn new() -> (r: VirtualMachine)
        ensures
            r.limit() == u64::MAX,
    {
        VirtualMachine { limit: u64::MAX }
    }

    /// A machine that gives up after `limit` steps.
    pub fn with_limit(limit: u64) -> (r: VirtualMachine)
        ensures
            r.limit() == limit,
    {
        VirtualMachine { limit }
    }

    /// Evaluates `datum` in the root scope of `env`: runs the machine from
    /// its start state until it ends, fails or has taken all its steps.
    pub fn run(&self, env: &mut Environment, datum: &Datum) -> (r: Result<
        Datum,
        (RuntimeError, String),
    >)
        ensures
            (Halt { env: final(env)@, result: result_view(r) }) == run(
                start(datum@, old(env)@),
                self.limit(),
            ),
    {
        let mut stack: Vec<Frame> = Vec::new();
        let mut control = Control::Eval(datum.clone(), 0);
        let mut fuel: u64 = self.limit;
        assert(frames_of(stack@) =~= Seq::<FrameView>::empty());
        loop
            invariant
                run(start(datum@, old(env)@), self.limit()) == run(
                    MachineView { control: control@, stack: frames_of(stack@), env: env@ },
                    fuel as nat,
                ),
            decreases fuel,
        {
            if fuel == 0 {
                return Err((RuntimeError::plain(ErrorKind::StepLimit), trace_text(&stack)));
            }
            match step_machine(control, &mut stack, env) {
                Step::Next(c) => {
                    control = c;
                    fuel = fuel - 1;
                },
                Step::Finished(v) => {
                    return Ok(v);
                },
                Step::Failed(e) => {
                    return Err((e, trace_text(&stack)));
                },
            }
        }
    }
}

} // verus!
