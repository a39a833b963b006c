//! Text helpers: comparing a name with a literal, and decimal notation.

use vstd::prelude::*;

verus! {

/// `String::push` appends one character at the end and changes nothing else.
pub assume_specification[ std::string::String::push ](s: &mut std::string::String, c: char)
    ensures
        final(s)@ == old(s)@.push(c),
;

/// The character for a decimal digit.
pub open spec fn digit_char(d: int) -> char {
    ((48 + d) as u8) as char
}

/// The digit that a character stands for, if it is one.
pub open spec fn is_digit(c: char) -> bool {
    '0' <= c <= '9'
}

pub open spec fn digit_value(c: char) -> int {
    (c as int) - 48
}

/// The decimal digits of `n`, most significant first, without leading zeros.
pub open spec fn decimal_digits(n: nat) -> Seq<char>
    decreases n,
{
    if n < 10 {
        seq![digit_char(n as int)]
    } else {
        decimal_digits(n / 10).push(digit_char((n % 10) as int))
    }
}

/// Decimal notation of an integer, with a leading `-` when it is negative.
pub open spec fn decimal(n: int) -> Seq<char> {
    if n < 0 {
        seq!['-'] + decimal_digits((-n) as nat)
    } else {
        decimal_digits(n as nat)
    }
}

/// The number that a sequence of digits denotes, most significant first.
pub open spec fn digits_number(s: Seq<char>) -> nat
    decreases s.len(),
{
    if s.len() == 0 {
        0
    } else {
        (digits_number(s.drop_last()) * 10 + digit_value(s.last())) as nat
    }
}

pub open spec fn all_digits(s: Seq<char>) -> bool {
    forall|i: int| 0 <= i < s.len() ==> is_digit(#[trigger] s[i])
}

/// `s` read back to front.
pub open spec fn reversed(s: Seq<char>) -> Seq<char> {
    Seq::new(s.len(), |i: int| s[s.len() - 1 - i])
}

/// Decimal digits are digits, and denote the number they were made from.
pub proof fn lemma_decimal_digits(n: nat)
    ensures
        decimal_digits(n).len() >= 1,
        all_digits(decimal_digits(n)),
        digits_number(decimal_digits(n)) == n,
        n > 0 ==> decimal_digits(n)[0] != '0',
    decreases n,
{
    if n < 10 {
        let s = decimal_digits(n);
        assert(s.drop_last() =~= Seq::<char>::empty());
        assert(digits_number(s.drop_last()) == 0);
    } else {
        lemma_decimal_digits(n / 10);
        let s = decimal_digits(n);
        assert(s.drop_last() =~= decimal_digits(n / 10));
    }
}

/// Whether `s` is the same text as `lit`.
pub fn text_is(s: &str, lit: &str) -> (r: bool)
    ensures
        r == (s@ == lit@),
{
    let n = lit.unicode_len();
    if s.unicode_len() != n {
        return false;
    }
    let mut i: usize = 0;
    while i < n
        invariant
            i <= n,
            n == lit@.len(),
            n == s@.len(),
            forall|j: int| 0 <= j < i ==> s@[j] == lit@[j],
        decreases n - i,
    {
        if s.get_char(i) != lit.get_char(i) {
            return false;
        }
        i = i + 1;
    }
    assert(s@ =~= lit@);
    true
}

/// Appends the decimal notation of `n`.
pub fn push_decimal(out: &mut String, n: i64)
    ensures
        final(out)@ == old(out)@ + decimal(n as int),
{
    let ghost base = out@;
    let mag: u64 = if n < 0 {
        out.push('-');
        (-(n as i128)) as u64
    } else {
        n as u64
    };
    let ghost start = out@;
    let mut buf: Vec<char> = Vec::new();
    let mut rem: u64 = mag;
    while rem >= 10
        invariant
            decimal_digits(mag as nat) == decimal_digits(rem as nat) + reversed(buf@),
        decreases rem,
    {
        let d: u8 = (rem % 10) as u8;
        let ghost before = buf@;
        buf.push((48u8 + d) as char);
        proof {
            let c = digit_char((rem % 10) as int);
            assert(decimal_digits(rem as nat) == decimal_digits((rem / 10) as nat).push(c));
            assert(decimal_digits((rem / 10) as nat).push(c) + reversed(before)
                =~= decimal_digits((rem / 10) as nat) + reversed(buf@));
        }
        rem = rem / 10;
    }
    let ghost before = buf@;
    buf.push((48u8 + (rem as u8)) as char);
    proof {
        assert(decimal_digits(rem as nat) + reversed(before) =~= reversed(buf@));
    }
    let mut i: usize = buf.len();
    while i > 0
        invariant
            i <= buf.len(),
            out@ == start + reversed(buf@).take(buf.len() - i),
        decreases i,
    {
        i = i - 1;
        let ghost prev = out@;
        out.push(buf[i]);
        proof {
            let r = reversed(buf@);
            assert(r.take(buf.len() - i) =~= r.take(buf.len() - i - 1).push(buf@[i as int]));
            assert(prev.push(buf@[i as int]) =~= start + r.take(buf.len() - i));
        }
    }
    proof {
        assert(reversed(buf@).take(buf.len() as int) =~= reversed(buf@));
        if n < 0 {
            assert((base + seq!['-']) + decimal_digits((-n) as nat) =~= base + (seq!['-']
                + decimal_digits((-n) as nat)));
            assert(base.push('-') =~= base + seq!['-']);
        }
    }
}

} // verus!
