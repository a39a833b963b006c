//! The printed form of a datum.

use crate::datum::{
    builtin_name, special_form_name, values_of, Datum, Procedure, ProcedureValue, Value,
};
use crate::text::{decimal, push_decimal};
use vstd::prelude::*;

verus! {

/// What follows `#\` in the printed form of a character.
pub open spec fn character_name(c: char) -> Seq<char> {
    if c == ' ' {
        "space"@
    } else if c == '\n' {
        "newline"@
    } else if c == '\t' {
        "tab"@
    } else {
        seq![c]
    }
}

/// One character of a string as it stands between the quotes.
pub open spec fn escaped_char(c: char) -> Seq<char> {
    if c == '"' || c == '\\' {
        seq!['\\', c]
    } else {
        seq![c]
    }
}

/// The text of a string as it stands between the quotes: `"` and `\` are
/// preceded by a backslash, everything else stands for itself.
pub open spec fn escaped(s: Seq<char>) -> Seq<char>
    decreases s.len(),
{
    if s.len() == 0 {
        Seq::empty()
    } else {
        escaped_char(s[0]) + escaped(s.drop_first())
    }
}

/// The printed form of a value.
pub open spec fn print(v: Value) -> Seq<char>
    decreases v, 0nat,
{
    match v {
        Value::EmptyList => "()"@,
        Value::Boolean(b) => if b {
            "#t"@
        } else {
            "#f"@
        },
        Value::Character(c) => "#\\"@ + character_name(c),
        Value::Symbol(s) => s,
        Value::String(s) => seq!['"'] + escaped(s) + seq!['"'],
        Value::Number(n) => decimal(n as int),
        Value::Pair(a, b) => seq!['('] + print(*a) + print_rest(*b),
        Value::Vector(items) => "#("@ + print_items(items, 0) + seq![')'],
        Value::Procedure(ProcedureValue::Native(b)) => "#<procedure:"@ + builtin_name(b) + seq![
            '>',
        ],
        Value::Procedure(ProcedureValue::Lambda(_, _, _)) => "#<procedure>"@,
        Value::SpecialForm(f) => "#<special:"@ + special_form_name(f) + seq!['>'],
    }
}

/// The printed form of the rest of a list, from the cdr `v` to the closing
/// parenthesis.
pub open spec fn print_rest(v: Value) -> Seq<char>
    decreases v, 1nat,
{
    match v {
        Value::EmptyList => seq![')'],
        Value::Pair(a, b) => seq![' '] + print(*a) + print_rest(*b),
        _ => " . "@ + print(v) + seq![')'],
    }
}

/// The printed forms of `items[from..]`, separated by single spaces.
pub open spec fn print_items(items: Seq<Value>, from: int) -> Seq<char>
    decreases items, items.len() - from,
{
    if 0 <= from < items.len() {
        (if from > 0 {
            seq![' ']
        } else {
            Seq::empty()
        }) + print(items[from]) + print_items(items, from + 1)
    } else {
        Seq::empty()
    }
}

/// Appends the text of a string as it stands between the quotes.
fn push_escaped(out: &mut String, s: &String)
    ensures
        final(out)@ == old(out)@ + escaped(s@),
{
    let ghost base = out@;
    let text = s.as_str();
    let n = text.unicode_len();
    let mut i: usize = 0;
    assert(s@.skip(0) =~= s@);
    while i < n
        invariant
            i <= n,
            n == text@.len(),
            text@ == s@,
            base + escaped(s@) == out@ + escaped(s@.skip(i as int)),
        decreases n - i,
    {
        let c = text.get_char(i);
        let ghost prev = out@;
        proof {
            assert(s@.skip(i as int).drop_first() =~= s@.skip(i + 1));
            assert(s@.skip(i as int)[0] == c);
        }
        if c == '"' || c == '\\' {
            out.push('\\');
        }
        out.push(c);
        proof {
            assert(out@ =~= prev + escaped_char(c));
            assert((prev + escaped_char(c)) + escaped(s@.skip(i + 1)) =~= prev + (escaped_char(c)
                + escaped(s@.skip(i + 1))));
        }
        i = i + 1;
    }
    proof {
        assert(s@.skip(n as int) =~= Seq::<char>::empty());
        assert(out@ + Seq::<char>::empty() =~= out@);
    }
}

impl Datum {
    /// Appends the printed form to `out`.
    pub fn write_to(&self, out: &mut String)
        ensures
            final(out)@ == old(out)@ + print(self@),
        decreases *self,
    {
        let ghost base = out@;
        match self {
            Datum::EmptyList => {
                out.append("()");
            },
            Datum::Boolean(b) => {
                if *b {
                    out.append("#t");
                } else {
                    out.append("#f");
                }
            },
            Datum::Character(c) => {
                out.append("#\\");
                if *c == ' ' {
                    out.append("space");
                } else if *c == '\n' {
                    out.append("newline");
                } else if *c == '\t' {
                    out.append("tab");
                } else {
                    out.push(*c);
                    assert(out@ =~= base + ("#\\"@ + seq![*c]));
                }
                assert(out@ =~= base + ("#\\"@ + character_name(*c)));
            },
            Datum::Symbol(s) => {
                out.append(s.as_str());
            },
            Datum::String(s) => {
                out.push('"');
                push_escaped(out, s);
                out.push('"');
                assert(out@ =~= base + (seq!['"'] + escaped(s@) + seq!['"']));
            },
            Datum::Number(n) => {
                push_decimal(out, *n);
            },
            Datum::Pair(a, b) => {
                out.push('(');
                a.write_to(out);
                let mut cur: &Datum = b;
                assert(base + print(self@) =~= out@ + print_rest(cur@));
                loop
                    invariant
                        base == old(out)@,
                        base + print(self@) == out@ + print_rest(cur@),
                        decreases_to!(*self => *cur),
                    decreases *cur,
                {
                    let ghost prev = out@;
                    match cur {
                        Datum::EmptyList => {
                            out.push(')');
                            assert(out@ =~= prev + print_rest(cur@));
                            return ;
                        },
                        Datum::Pair(x, rest) => {
                            out.push(' ');
                            x.write_to(out);
                            assert(prev + print_rest(cur@) =~= out@ + print_rest(rest@));
                            cur = rest;
                        },
                        _ => {
                            out.append(" . ");
                            cur.write_to(out);
                            out.push(')');
                            assert(out@ =~= prev + print_rest(cur@));
                            return ;
                        },
                    }
                }
            },
            Datum::Vector(v) => {
                out.append("#(");
                let mut i: usize = 0;
                assert(base + print(self@) =~= out@ + (print_items(values_of(v@), 0) + seq![')']));
                while i < v.len()
                    invariant
                        i <= v.len(),
                        *self == Datum::Vector(*v),
                        base + print(self@) == out@ + (print_items(values_of(v@), i as int)
                            + seq![')']),
                    decreases v.len() - i,
                {
                    let ghost prev = out@;
                    if i > 0 {
                        out.push(' ');
                    }
                    let item: &Datum = &v[i];
                    assert(decreases_to!((**v)@ => (**v)@[i as int]));
                    assert(decreases_to!(*self => self->Vector_0));
                    item.write_to(out);
                    proof {
                        let items = values_of(v@);
                        assert(items[i as int] == item@);
                        assert(prev + (print_items(items, i as int) + seq![')']) =~= out@ + (
                        print_items(items, i + 1) + seq![')']));
                    }
                    i = i + 1;
                }
                out.push(')');
                assert(out@ =~= base + print(self@));
            },
            Datum::Procedure(Procedure::Native(b)) => {
                out.append("#<procedure:");
                out.append(b.name());
                out.push('>');
                assert(out@ =~= base + ("#<procedure:"@ + builtin_name(*b) + seq!['>']));
            },
            Datum::Procedure(Procedure::Lambda(_, _, _)) => {
                out.append("#<procedure>");
            },
            Datum::SpecialForm(f) => {
                out.append("#<special:");
                out.append(f.name());
                out.push('>');
                assert(out@ =~= base + ("#<special:"@ + special_form_name(*f) + seq!['>']));
            },
        }
    }

    /// The printed form.
    pub fn to_string(&self) -> (r: String)
        ensures
            r@ == print(self@),
    {
        let mut out = String::new();
        self.write_to(&mut out);
        assert(Seq::<char>::empty() + print(self@) =~= print(self@));
        out
    }
}

} // verus!
