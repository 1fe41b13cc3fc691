use vstd::prelude::*;
use crate::tokenizer::{pow10, lemma_pow10_mono};

verus! {

/// A fraction `num / den` with a positive denominator: the exact value of a
/// decimal literal and of every non-integer result computed from one.
#[derive(Clone, Copy, Debug, PartialEq, Eq, Structural)]
pub struct Ratio {
    pub num: i64,
    pub den: i64,
}

impl Ratio {
    pub open spec fn wf(self) -> bool {
        self.den > 0
    }
}

/// The failures of every stage of the pipeline.
#[derive(Clone, Copy, Debug, PartialEq, Eq, Structural)]
pub enum Error {
    UnrecognizedCharacter,
    UnbalancedParenthesis,
    MalformedExpression,
    TypeMismatch,
    DivisionByZero,
    UndefinedVariable,
    UnknownFunction,
    MaxIterationsExceeded,
    /// A literal or an intermediate result does not fit in 64 bits.
    Overflow,
}

/// The single runtime value type of expressions and statements.
#[derive(Debug, PartialEq, Clone)]
pub enum ReturnValue {
    String_(String),
    Int(i64),
    Float(Ratio),
    Bool(bool),
    Null,
}

/// What a value is, with text seen as its characters.
pub enum ValueView {
    Text(Seq<char>),
    Int(i64),
    Float(Ratio),
    Bool(bool),
    Null,
}

impl View for ReturnValue {
    type V = ValueView;

    open spec fn view(&self) -> ValueView {
        match self {
            ReturnValue::String_(s) => ValueView::Text(s@),
            ReturnValue::Int(i) => ValueView::Int(*i),
            ReturnValue::Float(r) => ValueView::Float(*r),
            ReturnValue::Bool(b) => ValueView::Bool(*b),
            ReturnValue::Null => ValueView::Null,
        }
    }
}

impl ReturnValue {
    pub open spec fn wf(self) -> bool {
        match self {
            ReturnValue::Float(r) => r.wf(),
            _ => true,
        }
    }
}

pub open spec fn digit_char(d: int) -> char {
    if d == 0 { '0' }
    else if d == 1 { '1' }
    else if d == 2 { '2' }
    else if d == 3 { '3' }
    else if d == 4 { '4' }
    else if d == 5 { '5' }
    else if d == 6 { '6' }
    else if d == 7 { '7' }
    else if d == 8 { '8' }
    else { '9' }
}

/// Decimal digits of a natural number, most significant first.
pub open spec fn nat_chars(n: nat) -> Seq<char>
    decreases n,
{
    if n < 10 {
        seq![digit_char(n as int)]
    } else {
        nat_chars(n / 10).push(digit_char((n % 10) as int))
    }
}

pub open spec fn int_chars(i: int) -> Seq<char> {
    if i < 0 {
        seq!['-'] + nat_chars((-i) as nat)
    } else {
        nat_chars(i as nat)
    }
}

/// The smallest number of decimal places, from `k` up to 18, that writes
/// `1 / den` exactly.
pub open spec fn decimal_places(den: int, k: nat) -> Option<nat>
    decreases 19 - k,
{
    if den <= 0 || k > 18 {
        Option::None
    } else if pow10(k) % den == 0 {
        Option::Some(k)
    } else {
        decimal_places(den, k + 1)
    }
}

/// The last `k` decimal digits of `x`, with leading zeros.
pub open spec fn padded_digits(x: nat, k: nat) -> Seq<char>
    decreases k,
{
    if k == 0 { Seq::empty() } else { padded_digits(x / 10, (k - 1) as nat).push(digit_char((x % 10) as int)) }
}

/// A fraction written in decimal with `k` places (at least one).
pub open spec fn decimal_chars(r: Ratio, k: nat) -> Seq<char> {
    let places: nat = if k == 0 { 1 } else { k };
    let p = pow10(places);
    let m = (abs_int(r.num as int) * (p / (r.den as int))) as nat;
    let sign = if r.num < 0 { seq!['-'] } else { Seq::empty() };
    sign + nat_chars(m / (p as nat)) + seq!['.'] + padded_digits(m % (p as nat), places)
}

pub open spec fn abs_int(x: int) -> int {
    if x < 0 { -x } else { x }
}

/// How a fraction renders: in decimal where that is exact, else as the
/// quotient `(n.0/d)`. Either form reads back as the same value.
pub open spec fn ratio_chars(r: Ratio) -> Seq<char> {
    match decimal_places(r.den as int, 0) {
        Option::Some(k) => decimal_chars(r, k),
        Option::None => seq!['('] + int_chars(r.num as int) + seq!['.', '0', '/'] + int_chars(r.den as int) + seq![')'],
    }
}

/// The text that a value renders to, in output and in variable expansion.
pub open spec fn render(v: ValueView) -> Seq<char> {
    match v {
        ValueView::Text(s) => s,
        ValueView::Int(i) => int_chars(i as int),
        ValueView::Float(r) => ratio_chars(r),
        ValueView::Bool(b) => if b { seq!['t', 'r', 'u', 'e'] } else { seq!['f', 'a', 'l', 's', 'e'] },
        ValueView::Null => seq!['N', 'o', 'n', 'e'],
    }
}

fn digit_of(d: u128) -> (c: char)
    requires
        d < 10,
    ensures
        c == digit_char(d as int),
{
    if d == 0 { '0' }
    else if d == 1 { '1' }
    else if d == 2 { '2' }
    else if d == 3 { '3' }
    else if d == 4 { '4' }
    else if d == 5 { '5' }
    else if d == 6 { '6' }
    else if d == 7 { '7' }
    else if d == 8 { '8' }
    else { '9' }
}

fn push_nat(out: &mut Vec<char>, n: u128)
    ensures
        final(out)@ == old(out)@ + nat_chars(n as nat),
    decreases n,
{
    if n < 10 {
        out.push(digit_of(n));
    } else {
        push_nat(out, n / 10);
        out.push(digit_of(n % 10));
    }
}

fn push_int(out: &mut Vec<char>, i: i64)
    ensures
        final(out)@ == old(out)@ + int_chars(i as int),
{
    if i < 0 {
        out.push('-');
        let m: u128 = (-(i as i128)) as u128;
        push_nat(out, m);
    } else {
        push_nat(out, i as u128);
    }
}

fn push_padded(out: &mut Vec<char>, x: u128, k: usize)
    ensures
        final(out)@ == old(out)@ + padded_digits(x as nat, k as nat),
    decreases k,
{
    if k > 0 {
        push_padded(out, x / 10, k - 1);
        out.push(digit_of(x % 10));
        proof {
            assert(final(out)@ =~= old(out)@ + padded_digits(x as nat, k as nat));
        }
    } else {
        assert(old(out)@ + Seq::<char>::empty() =~= old(out)@);
    }
}

fn push_ratio(out: &mut Vec<char>, r: Ratio)
    ensures
        final(out)@ == old(out)@ + ratio_chars(r),
{
    if r.den > 0 {
        let mut k: usize = 0;
        let mut p: u128 = 1;
        while k <= 18 && p % (r.den as u128) != 0
            invariant
                r.den > 0,
                k <= 19,
                p == pow10(k as nat),
                decimal_places(r.den as int, 0) == decimal_places(r.den as int, k as nat),
            decreases 19 - k,
        {
            proof {
                lemma_pow10_mono(k as nat, 18);
                reveal_with_fuel(pow10, 19);
                assert(pow10(18) == 1000000000000000000);
            }
            p = p * 10;
            k += 1;
        }
        if k <= 18 {
            let places: usize = if k == 0 { 1 } else { k };
            let pp: u128 = if k == 0 { 10 } else { p };
            proof {
                lemma_pow10_mono(places as nat, 18);
                reveal_with_fuel(pow10, 19);
                assert(pow10(1) == 10);
                assert(pow10(18) == 1000000000000000000);
            }
            let a: u128 = if r.num < 0 { (-(r.num as i128)) as u128 } else { r.num as u128 };
            let q: u128 = pp / (r.den as u128);
            assert(q <= pp) by (nonlinear_arith)
                requires q == pp / (r.den as u128), r.den >= 1;
            assert(a * q <= 0x8000_0000_0000_0000u128 * 1000000000000000000u128) by (nonlinear_arith)
                requires a <= 0x8000_0000_0000_0000u128, q <= 1000000000000000000u128;
            let m: u128 = a * q;
            if r.num < 0 {
                out.push('-');
            }
            push_nat(out, m / pp);
            out.push('.');
            push_padded(out, m % pp, places);
            proof {
                assert(final(out)@ =~= old(out)@ + ratio_chars(r));
            }
            return;
        }
    }
    out.push('(');
    push_int(out, r.num);
    out.push('.');
    out.push('0');
    out.push('/');
    push_int(out, r.den);
    out.push(')');
    proof {
        assert(final(out)@ =~= old(out)@ + ratio_chars(r));
    }
}

fn push_str(out: &mut Vec<char>, s: &Vec<char>)
    ensures
        final(out)@ == old(out)@ + s@,
{
    let mut k: usize = 0;
    while k < s.len()
        invariant
            k <= s@.len(),
            out@ == old(out)@ + s@.subrange(0, k as int),
        decreases s@.len() - k,
    {
        out.push(s[k]);
        k += 1;
    }
    assert(s@.subrange(0, s@.len() as int) =~= s@);
}

/// Appends the rendering of `v` to `out`.
pub fn push_rendered(out: &mut Vec<char>, v: &ReturnValue)
    ensures
        final(out)@ == old(out)@ + render(v@),
{
    match v {
        ReturnValue::String_(s) => {
            let cs = crate::text::chars_of(s.as_str());
            push_str(out, &cs);
        },
        ReturnValue::Int(i) => push_int(out, *i),
        ReturnValue::Float(r) => push_ratio(out, *r),
        ReturnValue::Bool(b) => {
            if *b {
                out.push('t'); out.push('r'); out.push('u'); out.push('e');
            } else {
                out.push('f'); out.push('a'); out.push('l'); out.push('s'); out.push('e');
            }
        },
        ReturnValue::Null => {
            out.push('N'); out.push('o'); out.push('n'); out.push('e');
        },
    }
    proof {
        assert(final(out)@ =~= old(out)@ + render(v@));
    }
}

} // verus!
