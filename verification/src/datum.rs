//! The unified tagged value: every Scheme value and every piece of syntax is a
//! `Datum`. Its mathematical model is `Value`, in which text is a `Seq<char>`
//! and a vector is a `Seq<Value>`; all contracts are stated over that model.

use std::rc::Rc;
use vstd::prelude::*;

verus! {

/// The syntactic constructs whose operands are not uniformly evaluated.
#[derive(Clone, Copy, PartialEq, Eq, Structural, Debug)]
pub enum SpecialForm {
    Quote,
    If,
    Lambda,
    Let,
    Letrec,
    Begin,
    Define,
    Assign,
    And,
    Or,
    Cond,
}

/// The native procedures.
#[derive(Clone, Copy, PartialEq, Eq, Structural, Debug)]
pub enum Builtin {
    Add,
    Mul,
    Sub,
    Div,
    NumEq,
    Lt,
    Gt,
    Le,
    Ge,
    Modulo,
    Remainder,
    Quotient,
    Cons,
    Car,
    Cdr,
    List,
    Length,
    Append,
    IsNull,
    IsPair,
    IsList,
    IsBoolean,
    IsSymbol,
    IsString,
    IsNumber,
    IsProcedure,
    IsVector,
    IsChar,
    IsEq,
    IsEqv,
    IsEqual,
    Apply,
    MapList,
    SymbolToString,
    StringToSymbol,
    Vector,
    MakeVector,
    VectorLength,
    VectorRef,
    VectorSet,
}

/// A procedure: native, or a closure of formals, body and the index of the
/// scope it was created in.
#[derive(Debug)]
pub enum Procedure {
    Native(Builtin),
    Lambda(Rc<Datum>, Rc<Datum>, usize),
}

#[derive(Debug)]
pub enum Datum {
    EmptyList,
    Boolean(bool),
    Character(char),
    Symbol(String),
    String(String),
    Number(i64),
    Pair(Rc<Datum>, Rc<Datum>),
    Vector(Rc<Vec<Datum>>),
    Procedure(Procedure),
    SpecialForm(SpecialForm),
}

/// Model of `Procedure`.
pub enum ProcedureValue {
    Native(Builtin),
    Lambda(Box<Value>, Box<Value>, usize),
}

/// Model of `Datum`.
pub enum Value {
    EmptyList,
    Boolean(bool),
    Character(char),
    Symbol(Seq<char>),
    String(Seq<char>),
    Number(i64),
    Pair(Box<Value>, Box<Value>),
    Vector(Seq<Value>),
    Procedure(ProcedureValue),
    SpecialForm(SpecialForm),
}

/// The models of a sequence of data, element by element.
pub open spec fn values_of(s: Seq<Datum>) -> Seq<Value>
    decreases s,
{
    Seq::new(s.len(), |i: int| if 0 <= i < s.len() { value_of(s[i]) } else { Value::EmptyList })
}

/// The model of one datum.
pub open spec fn value_of(d: Datum) -> Value
    decreases d,
{
    match d {
        Datum::EmptyList => Value::EmptyList,
        Datum::Boolean(b) => Value::Boolean(b),
        Datum::Character(c) => Value::Character(c),
        Datum::Symbol(s) => Value::Symbol(s@),
        Datum::String(s) => Value::String(s@),
        Datum::Number(n) => Value::Number(n),
        Datum::Pair(a, b) => Value::Pair(Box::new(value_of(*a)), Box::new(value_of(*b))),
        Datum::Vector(v) => Value::Vector(values_of((*v)@)),
        Datum::Procedure(Procedure::Native(b)) => Value::Procedure(ProcedureValue::Native(b)),
        Datum::Procedure(Procedure::Lambda(f, b, e)) => Value::Procedure(
            ProcedureValue::Lambda(Box::new(value_of(*f)), Box::new(value_of(*b)), e),
        ),
        Datum::SpecialForm(f) => Value::SpecialForm(f),
    }
}

impl View for Datum {
    type V = Value;

    open spec fn view(&self) -> Value {
        value_of(*self)
    }
}

/// The cars along the spine of `v`, in order: empty when `v` is not a pair.
pub open spec fn spine(v: Value) -> Seq<Value>
    decreases v,
{
    match v {
        Value::Pair(a, b) => seq![*a] + spine(*b),
        _ => Seq::empty(),
    }
}

/// What the spine of `v` ends in: the first cdr that is not a pair.
pub open spec fn spine_end(v: Value) -> Value
    decreases v,
{
    match v {
        Value::Pair(_, b) => spine_end(*b),
        _ => v,
    }
}

/// A proper list is the empty list, or a pair whose cdr is a proper list.
pub open spec fn is_proper_list(v: Value) -> bool {
    spine_end(v) is EmptyList
}

/// The list with the given items along its spine, ending in `end`.
pub open spec fn chain(items: Seq<Value>, end: Value) -> Value
    decreases items.len(),
{
    if items.len() == 0 {
        end
    } else {
        Value::Pair(Box::new(items[0]), Box::new(chain(items.drop_first(), end)))
    }
}

/// The proper list of the given items.
pub open spec fn list_of(items: Seq<Value>) -> Value {
    chain(items, Value::EmptyList)
}

/// Everything but `#f` counts as true.
pub open spec fn truthy(v: Value) -> bool {
    v != Value::Boolean(false)
}

pub open spec fn special_form_name(f: SpecialForm) -> Seq<char> {
    match f {
        SpecialForm::Quote => "quote"@,
        SpecialForm::If => "if"@,
        SpecialForm::Lambda => "lambda"@,
        SpecialForm::Let => "let"@,
        SpecialForm::Letrec => "letrec"@,
        SpecialForm::Begin => "begin"@,
        SpecialForm::Define => "define"@,
        SpecialForm::Assign => "set!"@,
        SpecialForm::And => "and"@,
        SpecialForm::Or => "or"@,
        SpecialForm::Cond => "cond"@,
    }
}

pub open spec fn builtin_name(b: Builtin) -> Seq<char> {
    match b {
        Builtin::Add => "+"@,
        Builtin::Mul => "*"@,
        Builtin::Sub => "-"@,
        Builtin::Div => "/"@,
        Builtin::NumEq => "="@,
        Builtin::Lt => "<"@,
        Builtin::Gt => ">"@,
        Builtin::Le => "<="@,
        Builtin::Ge => ">="@,
        Builtin::Modulo => "modulo"@,
        Builtin::Remainder => "remainder"@,
        Builtin::Quotient => "quotient"@,
        Builtin::Cons => "cons"@,
        Builtin::Car => "car"@,
        Builtin::Cdr => "cdr"@,
        Builtin::List => "list"@,
        Builtin::Length => "length"@,
        Builtin::Append => "append"@,
        Builtin::IsNull => "null?"@,
        Builtin::IsPair => "pair?"@,
        Builtin::IsList => "list?"@,
        Builtin::IsBoolean => "boolean?"@,
        Builtin::IsSymbol => "symbol?"@,
        Builtin::IsString => "string?"@,
        Builtin::IsNumber => "number?"@,
        Builtin::IsProcedure => "procedure?"@,
        Builtin::IsVector => "vector?"@,
        Builtin::IsChar => "char?"@,
        Builtin::IsEq => "eq?"@,
        Builtin::IsEqv => "eqv?"@,
        Builtin::IsEqual => "equal?"@,
        Builtin::Apply => "apply"@,
        Builtin::MapList => "map"@,
        Builtin::SymbolToString => "symbol->string"@,
        Builtin::StringToSymbol => "string->symbol"@,
        Builtin::Vector => "vector"@,
        Builtin::MakeVector => "make-vector"@,
        Builtin::VectorLength => "vector-length"@,
        Builtin::VectorRef => "vector-ref"@,
        Builtin::VectorSet => "vector-set!"@,
    }
}

impl SpecialForm {
    /// The keyword that names the form.
    pub fn name(self) -> (r: &'static str)
        ensures
            r@ == special_form_name(self),
    {
        match self {
            SpecialForm::Quote => "quote",
            SpecialForm::If => "if",
            SpecialForm::Lambda => "lambda",
            SpecialForm::Let => "let",
            SpecialForm::Letrec => "letrec",
            SpecialForm::Begin => "begin",
            SpecialForm::Define => "define",
            SpecialForm::Assign => "set!",
            SpecialForm::And => "and",
            SpecialForm::Or => "or",
            SpecialForm::Cond => "cond",
        }
    }
}

impl Builtin {
    /// The name under which the procedure is bound in the root scope.
    pub fn name(self) -> (r: &'static str)
        ensures
            r@ == builtin_name(self),
    {
        match self {
            Builtin::Add => "+",
            Builtin::Mul => "*",
            Builtin::Sub => "-",
            Builtin::Div => "/",
            Builtin::NumEq => "=",
            Builtin::Lt => "<",
            Builtin::Gt => ">",
            Builtin::Le => "<=",
            Builtin::Ge => ">=",
            Builtin::Modulo => "modulo",
            Builtin::Remainder => "remainder",
            Builtin::Quotient => "quotient",
            Builtin::Cons => "cons",
            Builtin::Car => "car",
            Builtin::Cdr => "cdr",
            Builtin::List => "list",
            Builtin::Length => "length",
            Builtin::Append => "append",
            Builtin::IsNull => "null?",
            Builtin::IsPair => "pair?",
            Builtin::IsList => "list?",
            Builtin::IsBoolean => "boolean?",
            Builtin::IsSymbol => "symbol?",
            Builtin::IsString => "string?",
            Builtin::IsNumber => "number?",
            Builtin::IsProcedure => "procedure?",
            Builtin::IsVector => "vector?",
            Builtin::IsChar => "char?",
            Builtin::IsEq => "eq?",
            Builtin::IsEqv => "eqv?",
            Builtin::IsEqual => "equal?",
            Builtin::Apply => "apply",
            Builtin::MapList => "map",
            Builtin::SymbolToString => "symbol->string",
            Builtin::StringToSymbol => "string->symbol",
            Builtin::Vector => "vector",
            Builtin::MakeVector => "make-vector",
            Builtin::VectorLength => "vector-length",
            Builtin::VectorRef => "vector-ref",
            Builtin::VectorSet => "vector-set!",
        }
    }
}

/// `Rc::try_unwrap` hands the value out when no other pointer shares it,
/// and gives the pointer up otherwise. It never unwinds.
#[verifier::external_body]
fn take_unshared(shared: Rc<Datum>) -> (r: Option<Datum>)
    ensures
        r matches Some(d) ==> d == *shared,
    opens_invariants none
    no_unwind
{
    Rc::try_unwrap(shared).ok()
}

impl Drop for Datum {
    /// Takes a list apart pair by pair, so that a long list is not given up
    /// through as many nested calls as it has elements. The cdr of each
    /// pair that nothing else shares is taken out of it; the car stands in
    /// for it.
    fn drop(&mut self)
        opens_invariants none
        no_unwind
    {
        let mut next: Rc<Datum> = match self {
            Datum::Pair(car, cdr) => {
                let mut taken = car.clone();
                core::mem::swap(cdr, &mut taken);
                taken
            },
            _ => {
                return ;
            },
        };
        loop
            decreases spine((*next)@).len(),
        {
            match take_unshared(next) {
                Some(mut node) => {
                    match &mut node {
                        Datum::Pair(car, cdr) => {
                            let mut taken = car.clone();
                            core::mem::swap(cdr, &mut taken);
                            next = taken;
                        },
                        _ => {
                            return ;
                        },
                    }
                },
                None => {
                    return ;
                },
            }
        }
    }
}

impl Clone for Procedure {
    fn clone(&self) -> (r: Self)
        ensures
            r == *self,
    {
        match self {
            Procedure::Native(b) => Procedure::Native(*b),
            Procedure::Lambda(f, b, e) => Procedure::Lambda(f.clone(), b.clone(), *e),
        }
    }
}

impl Clone for Datum {
    /// A copy that shares pairs, vectors and closures with `self`.
    fn clone(&self) -> (r: Self)
        ensures
            r == *self,
    {
        match self {
            Datum::EmptyList => Datum::EmptyList,
            Datum::Boolean(b) => Datum::Boolean(*b),
            Datum::Character(c) => Datum::Character(*c),
            Datum::Symbol(s) => Datum::Symbol(s.clone()),
            Datum::String(s) => Datum::String(s.clone()),
            Datum::Number(n) => Datum::Number(*n),
            Datum::Pair(a, b) => Datum::Pair(a.clone(), b.clone()),
            Datum::Vector(v) => Datum::Vector(v.clone()),
            Datum::Procedure(p) => Datum::Procedure(p.clone()),
            Datum::SpecialForm(f) => Datum::SpecialForm(*f),
        }
    }
}

/// The model of a sequence grows with the sequence.
pub proof fn lemma_values_of_push(s: Seq<Datum>, d: Datum)
    ensures
        values_of(s.push(d)) == values_of(s).push(d@),
{
    assert(values_of(s.push(d)) =~= values_of(s).push(d@));
}

/// A chain is taken apart by `spine` and `spine_end`, whatever it ends in,
/// as long as the end is not itself a pair.
pub proof fn lemma_spine_of_chain(items: Seq<Value>, end: Value)
    requires
        !(end is Pair),
    ensures
        spine(chain(items, end)) == items,
        spine_end(chain(items, end)) == end,
    decreases items.len(),
{
    if items.len() > 0 {
        lemma_spine_of_chain(items.drop_first(), end);
        assert(seq![items[0]] + items.drop_first() =~= items);
    } else {
        assert(spine(end) =~= items);
    }
}

/// Extending a chain at its far end.
pub proof fn lemma_chain_push(items: Seq<Value>, x: Value, end: Value)
    ensures
        chain(items.push(x), end) == chain(items, Value::Pair(Box::new(x), Box::new(end))),
    decreases items.len(),
{
    if items.len() == 0 {
        assert(items.push(x).drop_first() =~= Seq::<Value>::empty());
        assert(chain(items.push(x).drop_first(), end) == end);
    } else {
        lemma_chain_push(items.drop_first(), x, end);
        assert(items.push(x).drop_first() =~= items.drop_first().push(x));
    }
}

impl Datum {
    /// A symbol with the given name, taken as it is.
    pub fn symbol(name: &str) -> (r: Datum)
        ensures
            r@ == Value::Symbol(name@),
    {
        Datum::Symbol(String::from_str(name))
    }

    /// A string with the given text.
    pub fn string(text: &str) -> (r: Datum)
        ensures
            r@ == Value::String(text@),
    {
        Datum::String(String::from_str(text))
    }

    /// The pair of `car` and `cdr`.
    pub fn cons(car: Datum, cdr: Datum) -> (r: Datum)
        ensures
            r@ == Value::Pair(Box::new(car@), Box::new(cdr@)),
    {
        Datum::Pair(Rc::new(car), Rc::new(cdr))
    }

    /// Whether the datum counts as true in a test: everything but `#f` does.
    pub fn is_true(&self) -> (r: bool)
        ensures
            r == truthy(self@),
    {
        match self {
            Datum::Boolean(b) => *b,
            _ => true,
        }
    }

    /// The items along the spine, and what the spine ends in.
    pub fn unchain(&self) -> (r: (Vec<Datum>, Datum))
        ensures
            values_of(r.0@) == spine(self@),
            r.1@ == spine_end(self@),
    {
        let mut items: Vec<Datum> = Vec::new();
        let mut cur: &Datum = self;
        loop
            invariant
                spine(self@) == values_of(items@) + spine(cur@),
                spine_end(self@) == spine_end(cur@),
            decreases spine(cur@).len(),
        {
            match cur {
                Datum::Pair(a, b) => {
                    let ghost before = items@;
                    items.push((**a).clone());
                    proof {
                        lemma_values_of_push(before, items@.last());
                        assert(values_of(before).push(a@) + spine(b@) =~= values_of(before) + (
                        seq![a@] + spine(b@)));
                    }
                    cur = &**b;
                },
                _ => {
                    assert(values_of(items@) + spine(cur@) =~= values_of(items@));
                    return (items, cur.clone());
                },
            }
        }
    }

    /// The elements, if the datum is a proper list.
    pub fn list_items(&self) -> (r: Option<Vec<Datum>>)
        ensures
            r is Some <==> is_proper_list(self@),
            r matches Some(items) ==> values_of(items@) == spine(self@),
    {
        let (items, end) = self.unchain();
        match end {
            Datum::EmptyList => Some(items),
            _ => None,
        }
    }

    /// The list of `items` that ends in `end`.
    pub fn chain_from(items: &Vec<Datum>, end: Datum) -> (r: Datum)
        ensures
            r@ == chain(values_of(items@), end@),
    {
        let mut acc = end;
        let mut i: usize = items.len();
        assert(values_of(items@).take(i as int) =~= values_of(items@));
        while i > 0
            invariant
                i <= items.len(),
                chain(values_of(items@), end@) == chain(values_of(items@).take(i as int), acc@),
            decreases i,
        {
            i = i - 1;
            proof {
                let all = values_of(items@);
                assert(all.take(i + 1) =~= all.take(i as int).push(all[i as int]));
                lemma_chain_push(all.take(i as int), all[i as int], acc@);
            }
            acc = Datum::cons(items[i].clone(), acc);
        }
        proof {
            assert(values_of(items@).take(0) =~= Seq::<Value>::empty());
        }
        acc
    }

    /// The proper list of `items`.
    pub fn list_from(items: &Vec<Datum>) -> (r: Datum)
        ensures
            r@ == list_of(values_of(items@)),
    {
        Datum::chain_from(items, Datum::EmptyList)
    }

    /// Structural equality: the two data denote the same value.
    pub fn equals(&self, other: &Datum) -> (r: bool)
        ensures
            r == (self@ == other@),
        decreases *self, 1nat,
    {
        let mut a: &Datum = self;
        let mut b: &Datum = other;
        loop
            invariant
                (self@ == other@) == (a@ == b@),
                *a == *self || decreases_to!(*self => *a),
            decreases spine(a@).len(),
        {
            match a {
                Datum::Pair(a1, a2) => match b {
                    Datum::Pair(b1, b2) => {
                        if !a1.equals(b1) {
                            return false;
                        }
                        a = &**a2;
                        b = &**b2;
                    },
                    _ => {
                        return false;
                    },
                },
                _ => {
                    return a.equals_unpaired(b);
                },
            }
        }
    }

    /// Structural equality with a datum that is no pair.
    fn equals_unpaired(&self, other: &Datum) -> (r: bool)
        requires
            !(*self is Pair),
        ensures
            r == (self@ == other@),
        decreases *self, 0nat,
    {
        match self {
            Datum::EmptyList => match other {
                Datum::EmptyList => true,
                _ => false,
            },
            Datum::Boolean(x) => match other {
                Datum::Boolean(y) => *x == *y,
                _ => false,
            },
            Datum::Character(x) => match other {
                Datum::Character(y) => *x == *y,
                _ => false,
            },
            Datum::Symbol(x) => match other {
                Datum::Symbol(y) => *x == *y,
                _ => false,
            },
            Datum::String(x) => match other {
                Datum::String(y) => *x == *y,
                _ => false,
            },
            Datum::Number(x) => match other {
                Datum::Number(y) => *x == *y,
                _ => false,
            },
            Datum::Pair(_, _) => false,
            Datum::Vector(x) => match other {
                Datum::Vector(y) => {
                    if x.len() != y.len() {
                        assert(values_of(x@).len() != values_of(y@).len());
                        return false;
                    }
                    let mut i: usize = 0;
                    while i < x.len()
                        invariant
                            i <= x.len(),
                            x.len() == y.len(),
                            *self == Datum::Vector(*x),
                            *other == Datum::Vector(*y),
                            forall|j: int| 0 <= j < i ==> x@[j]@ == y@[j]@,
                        decreases x.len() - i,
                    {
                        let xi: &Datum = &x[i];
                        assert(decreases_to!((**x)@ => (**x)@[i as int]));
                        assert(decreases_to!(*self => self->Vector_0));
                        assert(decreases_to!(*self => *xi));
                        if !xi.equals(&y[i]) {
                            assert(values_of(x@)[i as int] != values_of(y@)[i as int]);
                            return false;
                        }
                        i = i + 1;
                    }
                    assert(values_of(x@) =~= values_of(y@));
                    true
                },
                _ => false,
            },
            Datum::Procedure(Procedure::Native(x)) => match other {
                Datum::Procedure(Procedure::Native(y)) => *x == *y,
                _ => false,
            },
            Datum::Procedure(Procedure::Lambda(f1, b1, e1)) => match other {
                Datum::Procedure(Procedure::Lambda(f2, b2, e2)) => *e1 == *e2 && f1.equals(f2)
                    && b1.equals(b2),
                _ => false,
            },
            Datum::SpecialForm(x) => match other {
                Datum::SpecialForm(y) => *x == *y,
                _ => false,
            },
        }
    }
}

} // verus!
