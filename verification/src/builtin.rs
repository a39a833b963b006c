//! The native procedures: what each returns for given arguments.

use crate::datum::{
    builtin_name, chain, is_proper_list, list_of, special_form_name, spine, spine_end, values_of,
    Builtin, Datum, Procedure, ProcedureValue, SpecialForm, Value,
};
use crate::environment::binding_views;
use crate::error::{ErrorKind, Fault, RuntimeError};
use std::rc::Rc;
use vstd::prelude::*;

verus! {

/// No vector is made longer than this.
pub const MAX_VECTOR_LENGTH: usize = 0x100_0000;

pub open spec fn outcome_view(r: Result<Datum, RuntimeError>) -> Result<Value, Fault> {
    match r {
        Ok(d) => Ok(d@),
        Err(e) => Err(e@),
    }
}

/// The failure of kind `kind` in the native procedure `b`.
pub open spec fn failure(kind: ErrorKind, b: Builtin) -> Result<Value, Fault> {
    Err(Fault { kind, name: builtin_name(b) })
}

/// With how many arguments the procedure can be called.
pub open spec fn arity_ok(b: Builtin, n: nat) -> bool {
    match b {
        Builtin::Add | Builtin::Mul | Builtin::NumEq | Builtin::Lt | Builtin::Gt | Builtin::Le
        | Builtin::Ge | Builtin::List | Builtin::Append | Builtin::Vector => true,
        Builtin::Sub | Builtin::Div => n >= 1,
        Builtin::Apply | Builtin::MapList => n >= 2,
        Builtin::Modulo | Builtin::Remainder | Builtin::Quotient | Builtin::Cons | Builtin::IsEq
        | Builtin::IsEqv | Builtin::IsEqual | Builtin::VectorRef => n == 2,
        Builtin::MakeVector => n == 1 || n == 2,
        Builtin::VectorSet => n == 3,
        _ => n == 1,
    }
}

pub open spec fn fits(n: int) -> bool {
    i64::MIN <= n <= i64::MAX
}

/// The number that `v` is; 0 when it is none.
pub open spec fn number_of(v: Value) -> int {
    match v {
        Value::Number(n) => n as int,
        _ => 0,
    }
}

pub open spec fn all_numbers(args: Seq<Value>) -> bool {
    forall|i: int| 0 <= i < args.len() ==> (#[trigger] args[i]) is Number
}

pub open spec fn sum(args: Seq<Value>) -> int
    decreases args.len(),
{
    if args.len() == 0 {
        0
    } else {
        sum(args.drop_last()) + number_of(args.last())
    }
}

pub open spec fn product(args: Seq<Value>) -> int
    decreases args.len(),
{
    if args.len() == 0 {
        1
    } else {
        product(args.drop_last()) * number_of(args.last())
    }
}

/// Whether the product of every prefix of `args` fits in 64 bits: the
/// product is taken from left to right.
pub open spec fn products_fit(args: Seq<Value>) -> bool {
    forall|k: int| 0 <= k <= args.len() ==> fits(#[trigger] product(args.take(k)))
}

pub open spec fn magnitude(n: int) -> int {
    if n < 0 {
        -n
    } else {
        n
    }
}

/// The quotient of `a` by `b`, rounded towards zero.
pub open spec fn truncated_quotient(a: int, b: int) -> int {
    if (a < 0) == (b < 0) {
        magnitude(a) / magnitude(b)
    } else {
        -(magnitude(a) / magnitude(b))
    }
}

/// What is left of `a` after the truncated division by `b`: it has the sign
/// of `a`.
pub open spec fn truncated_remainder(a: int, b: int) -> int {
    a - b * truncated_quotient(a, b)
}

/// The remainder that has the sign of `b`.
pub open spec fn floored_modulo(a: int, b: int) -> int {
    let r = truncated_remainder(a, b);
    if r != 0 && ((r < 0) != (b < 0)) {
        r + b
    } else {
        r
    }
}

/// `first` divided by each of `rest` in turn, every quotient rounded towards
/// zero.
pub open spec fn quotients(first: int, rest: Seq<Value>) -> Result<int, ErrorKind>
    decreases rest.len(),
{
    if rest.len() == 0 {
        Ok(first)
    } else {
        match quotients(first, rest.drop_last()) {
            Err(k) => Err(k),
            Ok(q) => {
                let d = number_of(rest.last());
                if d == 0 {
                    Err(ErrorKind::DivisionByZero)
                } else if !fits(truncated_quotient(q, d)) {
                    Err(ErrorKind::Overflow)
                } else {
                    Ok(truncated_quotient(q, d))
                }
            },
        }
    }
}

pub open spec fn compare(b: Builtin, x: int, y: int) -> bool {
    match b {
        Builtin::NumEq => x == y,
        Builtin::Lt => x < y,
        Builtin::Gt => x > y,
        Builtin::Le => x <= y,
        _ => x >= y,
    }
}

/// Whether the relation holds between each argument and the next.
pub open spec fn ordered(b: Builtin, args: Seq<Value>) -> bool {
    forall|i: int|
        0 <= i < args.len() - 1 ==> compare(b, number_of(#[trigger] args[i]), number_of(args[i + 1]))
}

/// All arguments but the last are proper lists.
pub open spec fn proper_but_last(args: Seq<Value>) -> bool {
    forall|i: int| 0 <= i < args.len() - 1 ==> is_proper_list(#[trigger] args[i])
}

/// The elements of all arguments but the last, in order, in front of the
/// last argument.
pub open spec fn appended(args: Seq<Value>) -> Value
    decreases args.len(),
{
    if args.len() == 0 {
        Value::EmptyList
    } else if args.len() == 1 {
        args[0]
    } else {
        chain(spine(args[0]), appended(args.drop_first()))
    }
}

pub open spec fn arithmetic(b: Builtin, args: Seq<Value>) -> Result<Value, Fault> {
    if !all_numbers(args) {
        failure(ErrorKind::WrongType, b)
    } else {
        match b {
            Builtin::Add => if fits(sum(args)) {
                Ok(Value::Number(sum(args) as i64))
            } else {
                failure(ErrorKind::Overflow, b)
            },
            Builtin::Mul => if products_fit(args) {
                Ok(Value::Number(product(args) as i64))
            } else {
                failure(ErrorKind::Overflow, b)
            },
            Builtin::Sub => {
                let n = if args.len() == 1 {
                    -number_of(args[0])
                } else {
                    number_of(args[0]) - sum(args.skip(1))
                };
                if fits(n) {
                    Ok(Value::Number(n as i64))
                } else {
                    failure(ErrorKind::Overflow, b)
                }
            },
            _ => {
                let q = if args.len() == 1 {
                    quotients(1, args)
                } else {
                    quotients(number_of(args[0]), args.skip(1))
                };
                match q {
                    Ok(n) => Ok(Value::Number(n as i64)),
                    Err(k) => failure(k, b),
                }
            },
        }
    }
}

/// `modulo`, `remainder` and `quotient` of two numbers.
pub open spec fn division(b: Builtin, args: Seq<Value>) -> Result<Value, Fault> {
    let x = number_of(args[0]);
    let y = number_of(args[1]);
    if !all_numbers(args) {
        failure(ErrorKind::WrongType, b)
    } else if y == 0 {
        failure(ErrorKind::DivisionByZero, b)
    } else {
        let n = match b {
            Builtin::Modulo => floored_modulo(x, y),
            Builtin::Remainder => truncated_remainder(x, y),
            _ => truncated_quotient(x, y),
        };
        if fits(n) {
            Ok(Value::Number(n as i64))
        } else {
            failure(ErrorKind::Overflow, b)
        }
    }
}

pub open spec fn type_test(b: Builtin, v: Value) -> bool {
    match b {
        Builtin::IsNull => v is EmptyList,
        Builtin::IsPair => v is Pair,
        Builtin::IsList => is_proper_list(v),
        Builtin::IsBoolean => v is Boolean,
        Builtin::IsSymbol => v is Symbol,
        Builtin::IsString => v is String,
        Builtin::IsNumber => v is Number,
        Builtin::IsProcedure => v is Procedure,
        Builtin::IsVector => v is Vector,
        _ => v is Character,
    }
}

pub open spec fn vector_op(b: Builtin, args: Seq<Value>) -> Result<Value, Fault> {
    match b {
        Builtin::Vector => Ok(Value::Vector(args)),
        Builtin::MakeVector => match args[0] {
            Value::Number(n) => if 0 <= n <= MAX_VECTOR_LENGTH {
                Ok(
                    Value::Vector(
                        Seq::new(
                            n as nat,
                            |i: int|
                                if args.len() == 2 {
                                    args[1]
                                } else {
                                    Value::Number(0)
                                },
                        ),
                    ),
                )
            } else {
                failure(ErrorKind::IndexOutOfRange, b)
            },
            _ => failure(ErrorKind::WrongType, b),
        },
        Builtin::VectorLength => match args[0] {
            Value::Vector(items) => if fits(items.len() as int) {
                Ok(Value::Number(items.len() as i64))
            } else {
                failure(ErrorKind::Overflow, b)
            },
            _ => failure(ErrorKind::WrongType, b),
        },
        Builtin::VectorRef => match args[0] {
            Value::Vector(items) => match args[1] {
                Value::Number(i) => if 0 <= i < items.len() {
                    Ok(items[i as int])
                } else {
                    failure(ErrorKind::IndexOutOfRange, b)
                },
                _ => failure(ErrorKind::WrongType, b),
            },
            _ => failure(ErrorKind::WrongType, b),
        },
        _ => match args[0] {
            Value::Vector(items) => match args[1] {
                Value::Number(i) => if 0 <= i < items.len() {
                    Ok(Value::Vector(items.update(i as int, args[2])))
                } else {
                    failure(ErrorKind::IndexOutOfRange, b)
                },
                _ => failure(ErrorKind::WrongType, b),
            },
            _ => failure(ErrorKind::WrongType, b),
        },
    }
}

/// What the native procedure `b` returns for the arguments `args`.
/// `apply` and `map` call other procedures, which takes the machine: here
/// they are no procedures.
pub open spec fn native(b: Builtin, args: Seq<Value>) -> Result<Value, Fault> {
    if !arity_ok(b, args.len()) {
        failure(ErrorKind::WrongArgumentCount, b)
    } else {
        match b {
            Builtin::Add | Builtin::Mul | Builtin::Sub | Builtin::Div => arithmetic(b, args),
            Builtin::NumEq | Builtin::Lt | Builtin::Gt | Builtin::Le | Builtin::Ge => if all_numbers(
                args,
            ) {
                Ok(Value::Boolean(ordered(b, args)))
            } else {
                failure(ErrorKind::WrongType, b)
            },
            Builtin::Modulo | Builtin::Remainder | Builtin::Quotient => division(b, args),
            Builtin::Cons => Ok(Value::Pair(Box::new(args[0]), Box::new(args[1]))),
            Builtin::Car => match args[0] {
                Value::Pair(a, _) => Ok(*a),
                _ => failure(ErrorKind::WrongType, b),
            },
            Builtin::Cdr => match args[0] {
                Value::Pair(_, d) => Ok(*d),
                _ => failure(ErrorKind::WrongType, b),
            },
            Builtin::List => Ok(list_of(args)),
            Builtin::Length => if !is_proper_list(args[0]) {
                failure(ErrorKind::ImproperList, b)
            } else if fits(spine(args[0]).len() as int) {
                Ok(Value::Number(spine(args[0]).len() as i64))
            } else {
                failure(ErrorKind::Overflow, b)
            },
            Builtin::Append => if proper_but_last(args) {
                Ok(appended(args))
            } else {
                failure(ErrorKind::ImproperList, b)
            },
            Builtin::IsNull | Builtin::IsPair | Builtin::IsList | Builtin::IsBoolean
            | Builtin::IsSymbol | Builtin::IsString | Builtin::IsNumber | Builtin::IsProcedure
            | Builtin::IsVector | Builtin::IsChar => Ok(Value::Boolean(type_test(b, args[0]))),
            Builtin::IsEq | Builtin::IsEqv | Builtin::IsEqual => Ok(
                Value::Boolean(args[0] == args[1]),
            ),
            Builtin::SymbolToString => match args[0] {
                Value::Symbol(s) => Ok(Value::String(s)),
                _ => failure(ErrorKind::WrongType, b),
            },
            Builtin::StringToSymbol => match args[0] {
                Value::String(s) => Ok(Value::Symbol(s)),
                _ => failure(ErrorKind::WrongType, b),
            },
            Builtin::Vector | Builtin::MakeVector | Builtin::VectorLength | Builtin::VectorRef
            | Builtin::VectorSet => vector_op(b, args),
            Builtin::Apply | Builtin::MapList => failure(ErrorKind::NotAProcedure, b),
        }
    }
}

impl Builtin {
    /// Whether the procedure can be called with `n` arguments.
    pub fn accepts(self, n: usize) -> (r: bool)
        ensures
            r == arity_ok(self, n as nat),
    {
        match self {
            Builtin::Add | Builtin::Mul | Builtin::NumEq | Builtin::Lt | Builtin::Gt | Builtin::Le
            | Builtin::Ge | Builtin::List | Builtin::Append | Builtin::Vector => true,
            Builtin::Sub | Builtin::Div => n >= 1,
            Builtin::Apply | Builtin::MapList => n >= 2,
            Builtin::Modulo | Builtin::Remainder | Builtin::Quotient | Builtin::Cons
            | Builtin::IsEq | Builtin::IsEqv | Builtin::IsEqual | Builtin::VectorRef => n == 2,
            Builtin::MakeVector => n == 1 || n == 2,
            Builtin::VectorSet => n == 3,
            _ => n == 1,
        }
    }

    fn fail(self, kind: ErrorKind) -> (r: Result<Datum, RuntimeError>)
        ensures
            outcome_view(r) == failure(kind, self),
    {
        Err(RuntimeError::named(kind, self.name()))
    }
}

fn check_numbers(args: &Vec<Datum>) -> (r: bool)
    ensures
        r == all_numbers(values_of(args@)),
{
    let mut i: usize = 0;
    while i < args.len()
        invariant
            i <= args.len(),
            forall|j: int| 0 <= j < i ==> (#[trigger] values_of(args@)[j]) is Number,
        decreases args.len() - i,
    {
        match &args[i] {
            Datum::Number(_) => {},
            _ => {
                assert(!(values_of(args@)[i as int] is Number));
                return false;
            },
        }
        i = i + 1;
    }
    true
}

/// The number at `i`, as a wide integer.
fn number_at(args: &Vec<Datum>, i: usize) -> (r: i128)
    requires
        i < args.len(),
        all_numbers(values_of(args@)),
    ensures
        r == number_of(values_of(args@)[i as int]),
        fits(r as int),
{
    assert(values_of(args@)[i as int] is Number);
    match &args[i] {
        Datum::Number(n) => *n as i128,
        _ => 0,
    }
}

/// The sum of the numbers from `from` on.
fn sum_from(args: &Vec<Datum>, from: usize) -> (r: i128)
    requires
        from <= args.len(),
        all_numbers(values_of(args@)),
    ensures
        r == sum(values_of(args@).skip(from as int)),
        -(args.len() - from) * 0x8000_0000_0000_0000 <= r <= (args.len() - from)
            * 0x8000_0000_0000_0000,
{
    let ghost rest = values_of(args@).skip(from as int);
    let mut acc: i128 = 0;
    let mut i: usize = from;
    assert(rest.take(0) =~= Seq::<Value>::empty());
    while i < args.len()
        invariant
            from <= i <= args.len(),
            all_numbers(values_of(args@)),
            rest == values_of(args@).skip(from as int),
            acc == sum(rest.take(i - from)),
            -(i - from) * 0x8000_0000_0000_0000 <= acc <= (i - from) * 0x8000_0000_0000_0000,
        decreases args.len() - i,
    {
        let n = number_at(args, i);
        proof {
            assert(rest.take(i - from + 1).drop_last() =~= rest.take(i - from));
            assert(rest.take(i - from + 1).last() == values_of(args@)[i as int]);
        }
        acc = acc + n;
        i = i + 1;
    }
    assert(rest.take(args.len() - from) =~= rest);
    acc
}

fn to_number(b: Builtin, n: i128) -> (r: Result<Datum, RuntimeError>)
    ensures
        outcome_view(r) == if fits(n as int) {
            Ok::<Value, Fault>(Value::Number(n as i64))
        } else {
            failure(ErrorKind::Overflow, b)
        },
{
    if n < -0x8000_0000_0000_0000 || n > 0x7fff_ffff_ffff_ffff {
        b.fail(ErrorKind::Overflow)
    } else {
        Ok(Datum::Number(n as i64))
    }
}

fn multiply(b: Builtin, args: &Vec<Datum>) -> (r: Result<Datum, RuntimeError>)
    requires
        all_numbers(values_of(args@)),
    ensures
        outcome_view(r) == if products_fit(values_of(args@)) {
            Ok::<Value, Fault>(Value::Number(product(values_of(args@)) as i64))
        } else {
            failure(ErrorKind::Overflow, b)
        },
{
    let ghost vals = values_of(args@);
    let mut acc: i128 = 1;
    let mut i: usize = 0;
    assert(vals.take(0) =~= Seq::<Value>::empty());
    while i < args.len()
        invariant
            i <= args.len(),
            vals == values_of(args@),
            all_numbers(vals),
            acc == product(vals.take(i as int)),
            forall|k: int| 0 <= k <= i ==> fits(#[trigger] product(vals.take(k))),
        decreases args.len() - i,
    {
        let n = number_at(args, i);
        proof {
            assert(vals.take(i + 1).drop_last() =~= vals.take(i as int));
            assert(vals.take(i + 1).last() == vals[i as int]);
            assert(fits(product(vals.take(i as int))));
            assert(-0x4000_0000_0000_0000_0000_0000_0000_0000 <= acc * n
                <= 0x4000_0000_0000_0000_0000_0000_0000_0000) by (nonlinear_arith)
                requires
                    -0x8000_0000_0000_0000 <= acc <= 0x8000_0000_0000_0000,
                    -0x8000_0000_0000_0000 <= n <= 0x8000_0000_0000_0000,
            ;
        }
        acc = acc * n;
        if acc < -0x8000_0000_0000_0000 || acc > 0x7fff_ffff_ffff_ffff {
            assert(!fits(product(vals.take(i + 1))));
            return b.fail(ErrorKind::Overflow);
        }
        i = i + 1;
    }
    assert(vals.take(args.len() as int) =~= vals);
    Ok(Datum::Number(acc as i64))
}

fn magnitude_of(n: i128) -> (r: i128)
    requires
        fits(n as int),
    ensures
        r == magnitude(n as int),
        0 <= r <= 0x8000_0000_0000_0000,
{
    if n < 0 {
        -n
    } else {
        n
    }
}

fn truncated_div(a: i128, b: i128) -> (r: i128)
    requires
        fits(a as int),
        fits(b as int),
        b != 0,
    ensures
        r == truncated_quotient(a as int, b as int),
        -0x8000_0000_0000_0000 <= r <= 0x8000_0000_0000_0000,
{
    let ma = magnitude_of(a) as u128;
    let mb = magnitude_of(b) as u128;
    let q = (ma / mb) as i128;
    assert(0 <= q <= ma) by (nonlinear_arith)
        requires
            q == ma as int / mb as int,
            0 <= ma,
            0 < mb,
    ;
    if (a < 0) == (b < 0) {
        q
    } else {
        -q
    }
}

fn divide(args: &Vec<Datum>) -> (r: Result<Datum, RuntimeError>)
    requires
        all_numbers(values_of(args@)),
        args.len() >= 1,
    ensures
        outcome_view(r) == arithmetic(Builtin::Div, values_of(args@)),
{
    let ghost vals = values_of(args@);
    let (mut acc, from): (i128, usize) = if args.len() == 1 {
        (1, 0)
    } else {
        (number_at(args, 0), 1)
    };
    let ghost first = acc as int;
    let ghost rest = vals.skip(from as int);
    let mut i: usize = from;
    assert(rest.take(0) =~= Seq::<Value>::empty());
    assert(args.len() == 1 ==> rest =~= vals);
    while i < args.len()
        invariant
            from <= i <= args.len(),
            vals == values_of(args@),
            all_numbers(vals),
            rest == vals.skip(from as int),
            args.len() >= 1,
            args.len() == 1 ==> rest == vals,
            from == if args.len() == 1 { 0usize } else { 1usize },
            first == if args.len() == 1 { 1 } else { number_of(vals[0]) },
            quotients(first, rest.take(i - from)) == Ok::<int, ErrorKind>(acc as int),
            fits(acc as int),
        decreases args.len() - i,
    {
        let d = number_at(args, i);
        proof {
            assert(rest.take(i - from + 1).drop_last() =~= rest.take(i - from));
            assert(rest.take(i - from + 1).last() == vals[i as int]);
        }
        if d == 0 {
            proof {
                assert(quotients(first, rest.take(i - from + 1)) == Err::<int, ErrorKind>(
                    ErrorKind::DivisionByZero,
                ));
                lemma_quotients_fail(first, rest, i - from + 1);
            }
            return Builtin::Div.fail(ErrorKind::DivisionByZero);
        }
        let q = truncated_div(acc, d);
        if q > 0x7fff_ffff_ffff_ffff {
            proof {
                assert(quotients(first, rest.take(i - from + 1)) == Err::<int, ErrorKind>(
                    ErrorKind::Overflow,
                ));
                lemma_quotients_fail(first, rest, i - from + 1);
            }
            return Builtin::Div.fail(ErrorKind::Overflow);
        }
        acc = q;
        i = i + 1;
    }
    assert(rest.take(args.len() - from) =~= rest);
    Ok(Datum::Number(acc as i64))
}

/// A chain of divisions that fails on a prefix fails the same way on the
/// whole.
proof fn lemma_quotients_fail(first: int, rest: Seq<Value>, k: int)
    requires
        0 <= k <= rest.len(),
        quotients(first, rest.take(k)) is Err,
    ensures
        quotients(first, rest) == quotients(first, rest.take(k)),
    decreases rest.len() - k,
{
    if k < rest.len() {
        assert(rest.take(k + 1).drop_last() =~= rest.take(k));
        lemma_quotients_fail(first, rest, k + 1);
    } else {
        assert(rest.take(k) =~= rest);
    }
}

fn compare_numbers(b: Builtin, x: i128, y: i128) -> (r: bool)
    ensures
        r == compare(b, x as int, y as int),
{
    match b {
        Builtin::NumEq => x == y,
        Builtin::Lt => x < y,
        Builtin::Gt => x > y,
        Builtin::Le => x <= y,
        _ => x >= y,
    }
}

fn check_ordered(b: Builtin, args: &Vec<Datum>) -> (r: bool)
    requires
        all_numbers(values_of(args@)),
    ensures
        r == ordered(b, values_of(args@)),
{
    let ghost vals = values_of(args@);
    let mut i: usize = 1;
    while i < args.len()
        invariant
            1 <= i,
            vals == values_of(args@),
            all_numbers(vals),
            forall|j: int|
                0 <= j < i - 1 ==> compare(b, number_of(#[trigger] vals[j]), number_of(vals[j + 1])),
        decreases args.len() - i,
    {
        let x = number_at(args, i - 1);
        let y = number_at(args, i);
        if !compare_numbers(b, x, y) {
            assert(!compare(b, number_of(vals[i - 1]), number_of(vals[i - 1 + 1])));
            return false;
        }
        i = i + 1;
    }
    true
}

fn divide_two(b: Builtin, args: &Vec<Datum>) -> (r: Result<Datum, RuntimeError>)
    requires
        args.len() == 2,
        b == Builtin::Modulo || b == Builtin::Remainder || b == Builtin::Quotient,
    ensures
        outcome_view(r) == division(b, values_of(args@)),
{
    if !check_numbers(args) {
        return b.fail(ErrorKind::WrongType);
    }
    let x = number_at(args, 0);
    let y = number_at(args, 1);
    if y == 0 {
        return b.fail(ErrorKind::DivisionByZero);
    }
    let q = truncated_div(x, y);
    assert(-0x4000_0000_0000_0000_0000_0000_0000_0000 <= y * q
        <= 0x4000_0000_0000_0000_0000_0000_0000_0000) by (nonlinear_arith)
        requires
            -0x8000_0000_0000_0000 <= q <= 0x8000_0000_0000_0000,
            -0x8000_0000_0000_0000 <= y <= 0x8000_0000_0000_0000,
    ;
    let rem = x - y * q;
    match b {
        Builtin::Modulo => {
            if rem != 0 && ((rem < 0) != (y < 0)) {
                to_number(b, rem + y)
            } else {
                to_number(b, rem)
            }
        },
        Builtin::Remainder => to_number(b, rem),
        _ => to_number(b, q),
    }
}

/// Whether `d` is a proper list.
pub(crate) fn check_list(d: &Datum) -> (r: bool)
    ensures
        r == is_proper_list(d@),
{
    let mut cur: &Datum = d;
    loop
        invariant
            spine_end(d@) == spine_end(cur@),
        decreases spine(cur@).len(),
    {
        match cur {
            Datum::Pair(_, rest) => {
                cur = &**rest;
            },
            Datum::EmptyList => {
                return true;
            },
            _ => {
                return false;
            },
        }
    }
}

fn check_type(b: Builtin, d: &Datum) -> (r: bool)
    ensures
        r == type_test(b, d@),
{
    match b {
        Builtin::IsNull => matches!(d, Datum::EmptyList),
        Builtin::IsPair => matches!(d, Datum::Pair(_, _)),
        Builtin::IsList => check_list(d),
        Builtin::IsBoolean => matches!(d, Datum::Boolean(_)),
        Builtin::IsSymbol => matches!(d, Datum::Symbol(_)),
        Builtin::IsString => matches!(d, Datum::String(_)),
        Builtin::IsNumber => matches!(d, Datum::Number(_)),
        Builtin::IsProcedure => matches!(d, Datum::Procedure(_)),
        Builtin::IsVector => matches!(d, Datum::Vector(_)),
        _ => matches!(d, Datum::Character(_)),
    }
}

fn length(d: &Datum) -> (r: Result<Datum, RuntimeError>)
    ensures
        outcome_view(r) == if !is_proper_list(d@) {
            failure(ErrorKind::ImproperList, Builtin::Length)
        } else if fits(spine(d@).len() as int) {
            Ok::<Value, Fault>(Value::Number(spine(d@).len() as i64))
        } else {
            failure(ErrorKind::Overflow, Builtin::Length)
        },
{
    if !check_list(d) {
        return Builtin::Length.fail(ErrorKind::ImproperList);
    }
    let mut cur: &Datum = d;
    let mut count: i128 = 0;
    loop
        invariant
            spine(d@).len() == count + spine(cur@).len(),
            0 <= count <= 0x7fff_ffff_ffff_ffff,
            is_proper_list(d@),
        decreases spine(cur@).len(),
    {
        match cur {
            Datum::Pair(_, rest) => {
                if count == 0x7fff_ffff_ffff_ffff {
                    return Builtin::Length.fail(ErrorKind::Overflow);
                }
                count = count + 1;
                cur = &**rest;
            },
            _ => {
                return Ok(Datum::Number(count as i64));
            },
        }
    }
}

fn append(args: &Vec<Datum>) -> (r: Result<Datum, RuntimeError>)
    ensures
        outcome_view(r) == if proper_but_last(values_of(args@)) {
            Ok::<Value, Fault>(appended(values_of(args@)))
        } else {
            failure(ErrorKind::ImproperList, Builtin::Append)
        },
{
    let ghost vals = values_of(args@);
    let n = args.len();
    if n == 0 {
        return Ok(Datum::EmptyList);
    }
    let mut acc: Datum = args[n - 1].clone();
    let mut i: usize = n - 1;
    assert(vals.skip(n - 1) =~= seq![vals[n - 1]]);
    while i > 0
        invariant
            i < n == args.len(),
            vals == values_of(args@),
            acc@ == appended(vals.skip(i as int)),
            forall|j: int| i <= j < n - 1 ==> is_proper_list(#[trigger] vals[j]),
        decreases i,
    {
        i = i - 1;
        let (items, end) = args[i].unchain();
        match end {
            Datum::EmptyList => {},
            _ => {
                assert(!is_proper_list(vals[i as int]));
                return Builtin::Append.fail(ErrorKind::ImproperList);
            },
        }
        proof {
            assert(vals.skip(i as int).drop_first() =~= vals.skip(i + 1));
            assert(vals.skip(i as int)[0] == vals[i as int]);
        }
        acc = Datum::chain_from(&items, acc);
    }
    assert(vals.skip(0) =~= vals);
    Ok(acc)
}

/// A copy of `items` that shares what the items share.
pub fn copy_items(items: &Vec<Datum>) -> (r: Vec<Datum>)
    ensures
        r@ == items@,
{
    let mut out: Vec<Datum> = Vec::new();
    let mut i: usize = 0;
    while i < items.len()
        invariant
            i <= items.len(),
            out@ == items@.take(i as int),
        decreases items.len() - i,
    {
        out.push(items[i].clone());
        assert(out@ =~= items@.take(i + 1));
        i = i + 1;
    }
    assert(items@.take(items.len() as int) =~= items@);
    out
}

fn vector(b: Builtin, args: &Vec<Datum>) -> (r: Result<Datum, RuntimeError>)
    requires
        arity_ok(b, args.len() as nat),
        b == Builtin::Vector || b == Builtin::MakeVector || b == Builtin::VectorLength || b
            == Builtin::VectorRef || b == Builtin::VectorSet,
    ensures
        outcome_view(r) == vector_op(b, values_of(args@)),
{
    let ghost vals = values_of(args@);
    match b {
        Builtin::Vector => Ok(Datum::Vector(Rc::new(copy_items(args)))),
        Builtin::MakeVector => {
            assert(vals[0] == args@[0]@);
            match &args[0] {
                Datum::Number(n) => {
                    if *n < 0 || *n > MAX_VECTOR_LENGTH as i64 {
                        return b.fail(ErrorKind::IndexOutOfRange);
                    }
                    let fill = if args.len() == 2 {
                        assert(vals[1] == args@[1]@);
                        args[1].clone()
                    } else {
                        Datum::Number(0)
                    };
                    let count = *n as usize;
                    let mut out: Vec<Datum> = Vec::new();
                    while out.len() < count
                        invariant
                            out.len() <= count,
                            forall|j: int| 0 <= j < out.len() ==> out@[j]@ == fill@,
                            fill@ == if vals.len() == 2 {
                                vals[1]
                            } else {
                                Value::Number(0)
                            },
                        decreases count - out.len(),
                    {
                        out.push(fill.clone());
                    }
                    proof {
                        let expected = vector_op(b, vals);
                        assert(expected is Ok);
                        assert(expected->Ok_0 is Vector);
                        assert(expected->Ok_0->Vector_0 =~= values_of(out@));
                    }
                    Ok(Datum::Vector(Rc::new(out)))
                },
                _ => b.fail(ErrorKind::WrongType),
            }
        },
        Builtin::VectorLength => {
            assert(vals[0] == args@[0]@);
            match &args[0] {
                Datum::Vector(items) => {
                    assert(values_of(items@).len() == items.len());
                    to_number(b, items.len() as i128)
                },
                _ => b.fail(ErrorKind::WrongType),
            }
        },
        _ => {
            assert(vals[0] == args@[0]@);
            assert(vals[1] == args@[1]@);
            match &args[0] {
                Datum::Vector(items) => match &args[1] {
                    Datum::Number(i) => {
                        if *i < 0 || (*i as i128) >= (items.len() as i128) {
                            assert(values_of(items@).len() == items.len());
                            return b.fail(ErrorKind::IndexOutOfRange);
                        }
                        let at = *i as usize;
                        match b {
                            Builtin::VectorRef => {
                                assert(values_of(items@)[at as int] == items@[at as int]@);
                                Ok(items[at].clone())
                            },
                            _ => {
                                assert(vals[2] == args@[2]@);
                                let mut out = copy_items(items);
                                out.set(at, args[2].clone());
                                assert(values_of(out@) =~= values_of(items@).update(
                                    *i as int,
                                    vals[2],
                                ));
                                Ok(Datum::Vector(Rc::new(out)))
                            },
                        }
                    },
                    _ => b.fail(ErrorKind::WrongType),
                },
                _ => b.fail(ErrorKind::WrongType),
            }
        },
    }
}

/// Calls the native procedure `b` with the arguments `args`.
pub fn call(b: Builtin, args: &Vec<Datum>) -> (r: Result<Datum, RuntimeError>)
    ensures
        outcome_view(r) == native(b, values_of(args@)),
{
    let ghost vals = values_of(args@);
    if !b.accepts(args.len()) {
        return b.fail(ErrorKind::WrongArgumentCount);
    }
    match b {
        Builtin::Add => {
            if !check_numbers(args) {
                return b.fail(ErrorKind::WrongType);
            }
            assert(vals.skip(0) =~= vals);
            to_number(b, sum_from(args, 0))
        },
        Builtin::Mul => {
            if !check_numbers(args) {
                return b.fail(ErrorKind::WrongType);
            }
            multiply(b, args)
        },
        Builtin::Sub => {
            if !check_numbers(args) {
                return b.fail(ErrorKind::WrongType);
            }
            let first = number_at(args, 0);
            if args.len() == 1 {
                to_number(b, -first)
            } else {
                to_number(b, first - sum_from(args, 1))
            }
        },
        Builtin::Div => {
            if !check_numbers(args) {
                return b.fail(ErrorKind::WrongType);
            }
            divide(args)
        },
        Builtin::NumEq | Builtin::Lt | Builtin::Gt | Builtin::Le | Builtin::Ge => {
            if !check_numbers(args) {
                return b.fail(ErrorKind::WrongType);
            }
            Ok(Datum::Boolean(check_ordered(b, args)))
        },
        Builtin::Modulo | Builtin::Remainder | Builtin::Quotient => divide_two(b, args),
        Builtin::Cons => {
            assert(vals[0] == args@[0]@ && vals[1] == args@[1]@);
            Ok(Datum::cons(args[0].clone(), args[1].clone()))
        },
        Builtin::Car => {
            assert(vals[0] == args@[0]@);
            match &args[0] {
                Datum::Pair(a, _) => Ok((**a).clone()),
                _ => b.fail(ErrorKind::WrongType),
            }
        },
        Builtin::Cdr => {
            assert(vals[0] == args@[0]@);
            match &args[0] {
                Datum::Pair(_, d) => Ok((**d).clone()),
                _ => b.fail(ErrorKind::WrongType),
            }
        },
        Builtin::List => Ok(Datum::list_from(args)),
        Builtin::Length => {
            assert(vals[0] == args@[0]@);
            length(&args[0])
        },
        Builtin::Append => append(args),
        Builtin::IsNull | Builtin::IsPair | Builtin::IsList | Builtin::IsBoolean
        | Builtin::IsSymbol | Builtin::IsString | Builtin::IsNumber | Builtin::IsProcedure
        | Builtin::IsVector | Builtin::IsChar => {
            assert(vals[0] == args@[0]@);
            Ok(Datum::Boolean(check_type(b, &args[0])))
        },
        Builtin::IsEq | Builtin::IsEqv | Builtin::IsEqual => {
            assert(vals[0] == args@[0]@ && vals[1] == args@[1]@);
            Ok(Datum::Boolean(args[0].equals(&args[1])))
        },
        Builtin::SymbolToString => {
            assert(vals[0] == args@[0]@);
            match &args[0] {
                Datum::Symbol(s) => Ok(Datum::String(s.clone())),
                _ => b.fail(ErrorKind::WrongType),
            }
        },
        Builtin::StringToSymbol => {
            assert(vals[0] == args@[0]@);
            match &args[0] {
                Datum::String(s) => Ok(Datum::Symbol(s.clone())),
                _ => b.fail(ErrorKind::WrongType),
            }
        },
        Builtin::Vector | Builtin::MakeVector | Builtin::VectorLength | Builtin::VectorRef
        | Builtin::VectorSet => vector(b, args),
        Builtin::Apply | Builtin::MapList => b.fail(ErrorKind::NotAProcedure),
    }
}

/// All special forms.
pub open spec fn special_forms() -> Seq<SpecialForm> {
    seq![
        SpecialForm::Quote,
        SpecialForm::If,
        SpecialForm::Lambda,
        SpecialForm::Let,
        SpecialForm::Letrec,
        SpecialForm::Begin,
        SpecialForm::Define,
        SpecialForm::Assign,
        SpecialForm::And,
        SpecialForm::Or,
        SpecialForm::Cond,
    ]
}

/// All native procedures.
pub open spec fn builtins() -> Seq<Builtin> {
    seq![
        Builtin::Add,
        Builtin::Mul,
        Builtin::Sub,
        Builtin::Div,
        Builtin::NumEq,
        Builtin::Lt,
        Builtin::Gt,
        Builtin::Le,
        Builtin::Ge,
        Builtin::Modulo,
        Builtin::Remainder,
        Builtin::Quotient,
        Builtin::Cons,
        Builtin::Car,
        Builtin::Cdr,
        Builtin::List,
        Builtin::Length,
        Builtin::Append,
        Builtin::IsNull,
        Builtin::IsPair,
        Builtin::IsList,
        Builtin::IsBoolean,
        Builtin::IsSymbol,
        Builtin::IsString,
        Builtin::IsNumber,
        Builtin::IsProcedure,
        Builtin::IsVector,
        Builtin::IsChar,
        Builtin::IsEq,
        Builtin::IsEqv,
        Builtin::IsEqual,
        Builtin::Apply,
        Builtin::MapList,
        Builtin::SymbolToString,
        Builtin::StringToSymbol,
        Builtin::Vector,
        Builtin::MakeVector,
        Builtin::VectorLength,
        Builtin::VectorRef,
        Builtin::VectorSet,
    ]
}

/// What the root scope binds before any program has run: each special form
/// and each native procedure under its name.
pub open spec fn builtin_bindings() -> Seq<(Seq<char>, Value)> {
    special_forms().map_values(|f: SpecialForm| (special_form_name(f), Value::SpecialForm(f)))
        + builtins().map_values(
        |b: Builtin| (builtin_name(b), Value::Procedure(ProcedureValue::Native(b))),
    )
}

/// The special forms and the native procedures, each with its name.
pub fn get_builtins() -> (r: Vec<(String, Datum)>)
    ensures
        binding_views(r@) == builtin_bindings(),
{
    let forms = vec![
        SpecialForm::Quote,
        SpecialForm::If,
        SpecialForm::Lambda,
        SpecialForm::Let,
        SpecialForm::Letrec,
        SpecialForm::Begin,
        SpecialForm::Define,
        SpecialForm::Assign,
        SpecialForm::And,
        SpecialForm::Or,
        SpecialForm::Cond,
    ];
    let procedures = vec![
        Builtin::Add,
        Builtin::Mul,
        Builtin::Sub,
        Builtin::Div,
        Builtin::NumEq,
        Builtin::Lt,
        Builtin::Gt,
        Builtin::Le,
        Builtin::Ge,
        Builtin::Modulo,
        Builtin::Remainder,
        Builtin::Quotient,
        Builtin::Cons,
        Builtin::Car,
        Builtin::Cdr,
        Builtin::List,
        Builtin::Length,
        Builtin::Append,
        Builtin::IsNull,
        Builtin::IsPair,
        Builtin::IsList,
        Builtin::IsBoolean,
        Builtin::IsSymbol,
        Builtin::IsString,
        Builtin::IsNumber,
        Builtin::IsProcedure,
        Builtin::IsVector,
        Builtin::IsChar,
        Builtin::IsEq,
        Builtin::IsEqv,
        Builtin::IsEqual,
        Builtin::Apply,
        Builtin::MapList,
        Builtin::SymbolToString,
        Builtin::StringToSymbol,
        Builtin::Vector,
        Builtin::MakeVector,
        Builtin::VectorLength,
        Builtin::VectorRef,
        Builtin::VectorSet,
    ];
    assert(forms@ =~= special_forms());
    assert(procedures@ =~= builtins());
    let ghost first = special_forms().map_values(
        |f: SpecialForm| (special_form_name(f), Value::SpecialForm(f)),
    );
    let ghost second = builtins().map_values(
        |b: Builtin| (builtin_name(b), Value::Procedure(ProcedureValue::Native(b))),
    );
    let mut out: Vec<(String, Datum)> = Vec::new();
    let mut i: usize = 0;
    while i < forms.len()
        invariant
            i <= forms.len(),
            forms@ == special_forms(),
            first == special_forms().map_values(
                |f: SpecialForm| (special_form_name(f), Value::SpecialForm(f)),
            ),
            binding_views(out@) =~= first.take(i as int),
        decreases forms.len() - i,
    {
        let f = forms[i];
        let ghost prev = out@;
        out.push((String::from_str(f.name()), Datum::SpecialForm(f)));
        proof {
            assert(binding_views(out@) =~= binding_views(prev).push(
                (special_form_name(f), Value::SpecialForm(f)),
            ));
            assert(first.take(i + 1) =~= first.take(i as int).push(first[i as int]));
        }
        i = i + 1;
    }
    assert(first.take(forms.len() as int) =~= first);
    assert(first + second.take(0) =~= first);
    i = 0;
    while i < procedures.len()
        invariant
            i <= procedures.len(),
            procedures@ == builtins(),
            second == builtins().map_values(
                |b: Builtin| (builtin_name(b), Value::Procedure(ProcedureValue::Native(b))),
            ),
            binding_views(out@) =~= first + second.take(i as int),
        decreases procedures.len() - i,
    {
        let b = procedures[i];
        let ghost prev = out@;
        out.push((String::from_str(b.name()), Datum::Procedure(Procedure::Native(b))));
        proof {
            assert(binding_views(out@) =~= binding_views(prev).push(
                (builtin_name(b), Value::Procedure(ProcedureValue::Native(b))),
            ));
            assert(second.take(i + 1) =~= second.take(i as int).push(second[i as int]));
            assert((first + second.take(i as int)).push(second[i as int]) =~= first + second.take(
                i + 1,
            ));
        }
        i = i + 1;
    }
    assert(second.take(procedures.len() as int) =~= second);
    assert(builtin_bindings() =~= first + second);
    out
}

} // verus!
