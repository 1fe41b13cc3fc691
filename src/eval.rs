use vstd::prelude::*;
use crate::value::{Error, Ratio, ReturnValue};
use crate::tokenizer::Operation;
use crate::parser::MathNode;

verus! {

pub open spec fn fits(x: int) -> bool {
    i64::MIN <= x <= i64::MAX
}

pub open spec fn abs(x: int) -> int {
    if x < 0 { -x } else { x }
}

/// Quotient rounded toward zero.
pub open spec fn trunc_div(a: int, b: int) -> int {
    let q = abs(a) / abs(b);
    if (a < 0) != (b < 0) { -q } else { q }
}

/// Remainder of the division rounded toward zero: it takes the sign of `a`.
pub open spec fn trunc_rem(a: int, b: int) -> int {
    let r = abs(a) % abs(b);
    if a < 0 { -r } else { r }
}

/// Modulo in the mathematical convention: never negative.
pub open spec fn modulo(a: int, b: int) -> int {
    let r = trunc_rem(a, b);
    if r < 0 { r + abs(b) } else { r }
}

/// `b` to the power `e`, or `None` as soon as a partial product leaves `i64`.
pub open spec fn checked_pow(b: int, e: nat) -> Option<int>
    decreases e,
{
    if e == 0 {
        Option::Some(1)
    } else {
        match checked_pow(b, (e - 1) as nat) {
            Option::None => Option::None,
            Option::Some(p) => if fits(p * b) { Option::Some(p * b) } else { Option::None },
        }
    }
}

/// Greatest common divisor, by Euclid's algorithm.
pub open spec fn gcd(a: nat, b: nat) -> nat
    decreases b,
{
    if b == 0 { a } else { gcd(b, a % b) }
}

/// The fraction `n / d` in lowest terms, with its sign on the numerator.
pub open spec fn make_ratio(n: int, d: int) -> Result<ReturnValue, Error> {
    if d == 0 {
        Err(Error::DivisionByZero)
    } else {
        let sn = if d > 0 { n } else { -n };
        let sd = if d > 0 { d } else { -d };
        let g = gcd(abs(sn) as nat, sd as nat) as int;
        let rn = if sn < 0 { -(abs(sn) / g) } else { abs(sn) / g };
        let rd = sd / g;
        if fits(rn) && fits(rd) {
            Ok(ReturnValue::Float(Ratio { num: rn as i64, den: rd as i64 }))
        } else {
            Err(Error::Overflow)
        }
    }
}

pub open spec fn int_result(x: int) -> Result<ReturnValue, Error> {
    if fits(x) { Ok(ReturnValue::Int(x as i64)) } else { Err(Error::Overflow) }
}

/// An arithmetic operator on two integers.
pub open spec fn int_apply(op: Operation, a: int, b: int) -> Result<ReturnValue, Error> {
    match op {
        Operation::Addition => int_result(a + b),
        Operation::Substraction => int_result(a - b),
        Operation::Multiplication => int_result(a * b),
        Operation::Division => if b == 0 { Err(Error::DivisionByZero) } else { int_result(trunc_div(a, b)) },
        Operation::Modulo => if b == 0 { Err(Error::DivisionByZero) } else { int_result(modulo(a, b)) },
        Operation::Remaining => if b == 0 { Err(Error::DivisionByZero) } else { int_result(trunc_rem(a, b)) },
        _ => if b >= 0 {
            match checked_pow(a, b as nat) {
                Option::Some(p) => Ok(ReturnValue::Int(p as i64)),
                Option::None => Err(Error::Overflow),
            }
        } else if a == 0 {
            Err(Error::DivisionByZero)
        } else {
            match checked_pow(a, (-b) as nat) {
                Option::Some(p) => make_ratio(1, p),
                Option::None => Err(Error::Overflow),
            }
        },
    }
}

/// A fraction to an integer power.
pub open spec fn ratio_pow(n: int, d: int, e: int) -> Result<ReturnValue, Error> {
    if e < 0 && n == 0 {
        Err(Error::DivisionByZero)
    } else {
        match (checked_pow(n, abs(e) as nat), checked_pow(d, abs(e) as nat)) {
            (Option::Some(p), Option::Some(q)) => if e >= 0 { make_ratio(p, q) } else { make_ratio(q, p) },
            _ => Err(Error::Overflow),
        }
    }
}

/// An arithmetic operator other than power on `n1/d1` and `n2/d2`; modulo and
/// remainder work on the numerators over the common denominator `d1 * d2`.
pub open spec fn ratio_apply(op: Operation, n1: int, d1: int, n2: int, d2: int) -> Result<ReturnValue, Error> {
    match op {
        Operation::Addition => make_ratio(n1 * d2 + n2 * d1, d1 * d2),
        Operation::Substraction => make_ratio(n1 * d2 - n2 * d1, d1 * d2),
        Operation::Multiplication => make_ratio(n1 * n2, d1 * d2),
        Operation::Modulo => if n2 == 0 { Err(Error::DivisionByZero) } else { make_ratio(modulo(n1 * d2, n2 * d1), d1 * d2) },
        Operation::Remaining => if n2 == 0 { Err(Error::DivisionByZero) } else { make_ratio(trunc_rem(n1 * d2, n2 * d1), d1 * d2) },
        _ => if n2 == 0 { Err(Error::DivisionByZero) } else { make_ratio(n1 * d2, d1 * n2) },
    }
}

/// A numeric value as a fraction.
pub open spec fn num_of(v: ReturnValue) -> Option<(int, int)> {
    match v {
        ReturnValue::Int(i) => Option::Some((i as int, 1)),
        ReturnValue::Float(r) => Option::Some((r.num as int, r.den as int)),
        _ => Option::None,
    }
}

pub open spec fn compare(op: Operation, x: int, y: int) -> bool {
    match op {
        Operation::Greater => x > y,
        Operation::Lesser => x < y,
        Operation::EqGreater => x >= y,
        _ => x <= y,
    }
}

/// The value of `x op y`.
pub open spec fn apply(op: Operation, x: ReturnValue, y: ReturnValue) -> Result<ReturnValue, Error> {
    match op {
        Operation::OpenParenthesis | Operation::CloseParenthesis => Err(Error::MalformedExpression),
        Operation::And | Operation::Or => match (x, y) {
            (ReturnValue::Bool(a), ReturnValue::Bool(b)) =>
                Ok(ReturnValue::Bool(if op == Operation::And { a && b } else { a || b })),
            _ => Err(Error::TypeMismatch),
        },
        Operation::Greater | Operation::Lesser | Operation::EqGreater | Operation::EqLesser =>
            match (num_of(x), num_of(y)) {
                (Option::Some((n1, d1)), Option::Some((n2, d2))) =>
                    Ok(ReturnValue::Bool(compare(op, n1 * d2, n2 * d1))),
                _ => Err(Error::TypeMismatch),
            },
        _ => match (x, y) {
            (ReturnValue::Int(a), ReturnValue::Int(b)) => int_apply(op, a as int, b as int),
            (ReturnValue::Float(r), ReturnValue::Int(e)) if op == Operation::Power =>
                ratio_pow(r.num as int, r.den as int, e as int),
            _ => if op == Operation::Power {
                Err(Error::TypeMismatch)
            } else {
                match (num_of(x), num_of(y)) {
                    (Option::Some((n1, d1)), Option::Some((n2, d2))) => ratio_apply(op, n1, d1, n2, d2),
                    _ => Err(Error::TypeMismatch),
                }
            },
        },
    }
}

/// The value of an expression tree: both sides first, then the operator.
pub open spec fn eval(n: MathNode) -> Result<ReturnValue, Error>
    decreases n,
{
    match n {
        MathNode::Int(i) => Ok(ReturnValue::Int(i)),
        MathNode::Float(r) => make_ratio(r.num as int, r.den as int),
        MathNode::Operation(l, op, r) => match eval(*l) {
            Err(e) => Err(e),
            Ok(a) => match eval(*r) {
                Err(e) => Err(e),
                Ok(b) => apply(op, a, b),
            },
        },
    }
}

proof fn lemma_mul_bound(x: int, y: int)
    requires
        -0x8000_0000_0000_0000 <= x <= 0x8000_0000_0000_0000,
        -0x8000_0000_0000_0000 <= y <= 0x8000_0000_0000_0000,
    ensures
        -0x4000_0000_0000_0000_0000_0000_0000_0000 <= x * y <= 0x4000_0000_0000_0000_0000_0000_0000_0000,
{
    assert(abs(x * y) == abs(x) * abs(y)) by (nonlinear_arith);
    assert(abs(x) * abs(y) <= 0x8000_0000_0000_0000 * 0x8000_0000_0000_0000) by (nonlinear_arith)
        requires 0 <= abs(x) <= 0x8000_0000_0000_0000, 0 <= abs(y) <= 0x8000_0000_0000_0000;
}

proof fn lemma_mul_bound_den(x: int, y: int)
    requires
        -0x8000_0000_0000_0000 <= x <= 0x8000_0000_0000_0000,
        1 <= y < 0x8000_0000_0000_0000,
    ensures
        -0x3fff_ffff_ffff_ffff_8000_0000_0000_0000 <= x * y <= 0x3fff_ffff_ffff_ffff_8000_0000_0000_0000,
{
    assert(abs(x * y) == abs(x) * y) by (nonlinear_arith)
        requires y >= 1;
    assert(abs(x) * y <= 0x8000_0000_0000_0000 * 0x7fff_ffff_ffff_ffff) by (nonlinear_arith)
        requires 0 <= abs(x) <= 0x8000_0000_0000_0000, 1 <= y <= 0x7fff_ffff_ffff_ffff;
}

proof fn lemma_pow_small(b: int, e: nat)
    requires
        -1 <= b <= 1,
    ensures
        checked_pow(b, e) == Option::Some(
            if b == 0 { if e == 0 { 1int } else { 0int } } else if b == 1 { 1int } else if e % 2 == 0 { 1int } else { -1int },
        ),
    decreases e,
{
    if e > 0 {
        lemma_pow_small(b, (e - 1) as nat);
        assert((e % 2 == 0) == ((e - 1) % 2 == 1));
        let p = checked_pow(b, (e - 1) as nat)->0;
        assert(-1 <= p <= 1);
        assert(p * b == if b == 0 { 0 } else if b == 1 { p } else { -p }) by (nonlinear_arith)
            requires -1 <= b <= 1;
    }
}

proof fn lemma_pow_none(b: int, k: nat, e: nat)
    requires
        k <= e,
        checked_pow(b, k) is None,
    ensures
        checked_pow(b, e) is None,
    decreases e,
{
    if k < e {
        lemma_pow_none(b, k, (e - 1) as nat);
    }
}

fn pow_exec(b: i64, e: u64) -> (r: Option<i64>)
    ensures
        match checked_pow(b as int, e as nat) {
            Option::Some(p) => r == Option::Some(p as i64) && fits(p),
            Option::None => r is None,
        },
{
    if -1 <= b && b <= 1 {
        proof {
            lemma_pow_small(b as int, e as nat);
        }
        if b == 0 {
            return if e == 0 { Some(1) } else { Some(0) };
        } else if b == 1 {
            return Some(1);
        } else {
            return if e % 2 == 0 { Some(1) } else { Some(-1) };
        }
    }
    let mut acc: i64 = 1;
    let mut k: u64 = 0;
    while k < e
        invariant
            k <= e,
            checked_pow(b as int, k as nat) == Option::Some(acc as int),
        decreases e - k,
    {
        proof {
            lemma_mul_bound(acc as int, b as int);
        }
        let p: i128 = acc as i128 * b as i128;
        if p < i64::MIN as i128 || p > i64::MAX as i128 {
            proof {
                lemma_pow_none(b as int, (k + 1) as nat, e as nat);
            }
            return None;
        }
        acc = p as i64;
        k += 1;
    }
    Some(acc)
}

fn int_result_exec(x: i128) -> (r: Result<ReturnValue, Error>)
    ensures
        r == int_result(x as int),
{
    if x < i64::MIN as i128 || x > i64::MAX as i128 {
        Err(Error::Overflow)
    } else {
        Ok(ReturnValue::Int(x as i64))
    }
}

proof fn lemma_gcd_positive(a: nat, b: nat)
    requires
        b > 0,
    ensures
        0 < gcd(a, b) <= b,
    decreases b,
{
    assert(gcd(b, 0) == b);
    if a % b > 0 {
        lemma_gcd_positive(b, a % b);
    }
}

fn gcd_exec(a: u128, b: u128) -> (g: u128)
    requires
        b > 0,
    ensures
        g == gcd(a as nat, b as nat),
        0 < g <= b,
{
    proof {
        lemma_gcd_positive(a as nat, b as nat);
    }
    let mut x = a;
    let mut y = b;
    while y != 0
        invariant
            gcd(x as nat, y as nat) == gcd(a as nat, b as nat),
        decreases y,
    {
        let t = x % y;
        x = y;
        y = t;
    }
    x
}

fn make_ratio_exec(n: i128, d: i128) -> (r: Result<ReturnValue, Error>)
    requires
        n > i128::MIN,
        d > i128::MIN,
    ensures
        r == make_ratio(n as int, d as int),
        r is Ok ==> r->Ok_0.wf(),
{
    if d == 0 {
        return Err(Error::DivisionByZero);
    }
    let sn: i128 = if d > 0 { n } else { -n };
    let sd: i128 = if d > 0 { d } else { -d };
    let a: u128 = if sn < 0 { (-sn) as u128 } else { sn as u128 };
    let g = gcd_exec(a, sd as u128);
    let qa = a / g;
    let qd = (sd as u128) / g;
    assert(qa <= a) by (nonlinear_arith)
        requires qa == a / g, g >= 1;
    assert(qd <= sd) by (nonlinear_arith)
        requires qd == (sd as u128) / g, g >= 1, sd > 0;
    assert(qd >= 1) by (nonlinear_arith)
        requires qd == (sd as u128) / g, g <= sd, g >= 1;
    let rn: i128 = if sn < 0 { -(qa as i128) } else { qa as i128 };
    let rd: i128 = qd as i128;
    if rn >= i64::MIN as i128 && rn <= i64::MAX as i128 && rd <= i64::MAX as i128 {
        Ok(ReturnValue::Float(Ratio { num: rn as i64, den: rd as i64 }))
    } else {
        Err(Error::Overflow)
    }
}

fn abs_exec(a: i128) -> (r: u128)
    requires
        a > i128::MIN,
    ensures
        r == abs(a as int),
{
    if a < 0 { (-a) as u128 } else { a as u128 }
}

fn trunc_rem_exec(a: i128, b: i128) -> (r: i128)
    requires
        a > i128::MIN,
        b > i128::MIN,
        b != 0,
    ensures
        r == trunc_rem(a as int, b as int),
        abs(r as int) < abs(b as int),
{
    let m = abs_exec(a) % abs_exec(b);
    if a < 0 { -(m as i128) } else { m as i128 }
}

fn modulo_exec(a: i128, b: i128) -> (r: i128)
    requires
        a > i128::MIN,
        b > i128::MIN,
        b != 0,
    ensures
        r == modulo(a as int, b as int),
        0 <= r < abs(b as int),
{
    let t = trunc_rem_exec(a, b);
    if t < 0 { t + abs_exec(b) as i128 } else { t }
}

fn int_apply_exec(op: Operation, a: i64, b: i64) -> (r: Result<ReturnValue, Error>)
    ensures
        r == int_apply(op, a as int, b as int),
        r is Ok ==> r->Ok_0.wf(),
{
    match op {
        Operation::Addition => int_result_exec(a as i128 + b as i128),
        Operation::Substraction => int_result_exec(a as i128 - b as i128),
        Operation::Multiplication => {
            proof {
                lemma_mul_bound(a as int, b as int);
            }
            int_result_exec(a as i128 * b as i128)
        },
        Operation::Division => {
            if b == 0 {
                return Err(Error::DivisionByZero);
            }
            let q = abs_exec(a as i128) / abs_exec(b as i128);
            assert(q <= abs(a as int)) by (nonlinear_arith)
                requires q == abs(a as int) / abs(b as int), abs(b as int) >= 1, abs(a as int) >= 0;
            let t: i128 = if (a < 0) != (b < 0) { -(q as i128) } else { q as i128 };
            int_result_exec(t)
        },
        Operation::Modulo => {
            if b == 0 {
                return Err(Error::DivisionByZero);
            }
            int_result_exec(modulo_exec(a as i128, b as i128))
        },
        Operation::Remaining => {
            if b == 0 {
                return Err(Error::DivisionByZero);
            }
            int_result_exec(trunc_rem_exec(a as i128, b as i128))
        },
        _ => {
            if b >= 0 {
                match pow_exec(a, b as u64) {
                    Option::Some(p) => Ok(ReturnValue::Int(p)),
                    Option::None => Err(Error::Overflow),
                }
            } else if a == 0 {
                Err(Error::DivisionByZero)
            } else {
                let e: u64 = (-(b as i128)) as u64;
                match pow_exec(a, e) {
                    Option::Some(p) => make_ratio_exec(1, p as i128),
                    Option::None => Err(Error::Overflow),
                }
            }
        },
    }
}

fn ratio_pow_exec(n: i64, d: i64, e: i64) -> (r: Result<ReturnValue, Error>)
    ensures
        r == ratio_pow(n as int, d as int, e as int),
        r is Ok ==> r->Ok_0.wf(),
{
    if e < 0 && n == 0 {
        return Err(Error::DivisionByZero);
    }
    let k: u64 = if e < 0 { (-(e as i128)) as u64 } else { e as u64 };
    match (pow_exec(n, k), pow_exec(d, k)) {
        (Option::Some(p), Option::Some(q)) => {
            if e >= 0 {
                make_ratio_exec(p as i128, q as i128)
            } else {
                make_ratio_exec(q as i128, p as i128)
            }
        },
        _ => Err(Error::Overflow),
    }
}

fn ratio_apply_exec(op: Operation, n1: i64, d1: i64, n2: i64, d2: i64) -> (r: Result<ReturnValue, Error>)
    requires
        d1 > 0,
        d2 > 0,
    ensures
        r == ratio_apply(op, n1 as int, d1 as int, n2 as int, d2 as int),
        r is Ok ==> r->Ok_0.wf(),
{
    proof {
        lemma_mul_bound_den(n1 as int, d2 as int);
        lemma_mul_bound_den(n2 as int, d1 as int);
        lemma_mul_bound(n1 as int, n2 as int);
        lemma_mul_bound(d1 as int, d2 as int);
        lemma_mul_bound(d1 as int, n2 as int);
    }
    let a: i128 = n1 as i128 * d2 as i128;
    let b: i128 = n2 as i128 * d1 as i128;
    let dd: i128 = d1 as i128 * d2 as i128;
    match op {
        Operation::Addition => make_ratio_exec(a + b, dd),
        Operation::Substraction => make_ratio_exec(a - b, dd),
        Operation::Multiplication => make_ratio_exec(n1 as i128 * n2 as i128, dd),
        Operation::Modulo | Operation::Remaining => {
            if n2 == 0 {
                return Err(Error::DivisionByZero);
            }
            assert(b != 0) by (nonlinear_arith)
                requires b == n2 * d1, n2 != 0, d1 > 0;
            let is_mod = match op { Operation::Modulo => true, _ => false };
            let m = if is_mod { modulo_exec(a, b) } else { trunc_rem_exec(a, b) };
            make_ratio_exec(m, dd)
        },
        _ => {
            if n2 == 0 {
                Err(Error::DivisionByZero)
            } else {
                make_ratio_exec(a, d1 as i128 * n2 as i128)
            }
        },
    }
}

fn num_exec(v: &ReturnValue) -> (r: Option<(i64, i64)>)
    ensures
        match num_of(*v) {
            Option::Some((n, d)) => r == Option::Some((n as i64, d as i64)),
            Option::None => r is None,
        },
{
    match v {
        ReturnValue::Int(i) => Some((*i, 1)),
        ReturnValue::Float(x) => Some((x.num, x.den)),
        _ => None,
    }
}

/// Applies `op` to two evaluated operands.
pub fn apply_exec(op: Operation, x: &ReturnValue, y: &ReturnValue) -> (r: Result<ReturnValue, Error>)
    requires
        x.wf(),
        y.wf(),
    ensures
        r == apply(op, *x, *y),
        r is Ok ==> r->Ok_0.wf(),
{
    match op {
        Operation::OpenParenthesis | Operation::CloseParenthesis => Err(Error::MalformedExpression),
        Operation::And | Operation::Or => match (x, y) {
            (ReturnValue::Bool(a), ReturnValue::Bool(b)) => {
                let is_and = match op { Operation::And => true, _ => false };
                Ok(ReturnValue::Bool(if is_and { *a && *b } else { *a || *b }))
            },
            _ => Err(Error::TypeMismatch),
        },
        Operation::Greater | Operation::Lesser | Operation::EqGreater | Operation::EqLesser => {
            match (num_exec(x), num_exec(y)) {
                (Option::Some((n1, d1)), Option::Some((n2, d2))) => {
                    proof {
                        lemma_mul_bound(n1 as int, d2 as int);
                        lemma_mul_bound(n2 as int, d1 as int);
                    }
                    let p: i128 = n1 as i128 * d2 as i128;
                    let q: i128 = n2 as i128 * d1 as i128;
                    let b = match op {
                        Operation::Greater => p > q,
                        Operation::Lesser => p < q,
                        Operation::EqGreater => p >= q,
                        _ => p <= q,
                    };
                    Ok(ReturnValue::Bool(b))
                },
                _ => Err(Error::TypeMismatch),
            }
        },
        _ => {
            match (x, y) {
                (ReturnValue::Int(a), ReturnValue::Int(b)) => {
                    return int_apply_exec(op, *a, *b);
                },
                _ => {},
            }
            let is_pow = match op { Operation::Power => true, _ => false };
            if is_pow {
                match (x, y) {
                    (ReturnValue::Float(f), ReturnValue::Int(e)) => {
                        return ratio_pow_exec(f.num, f.den, *e);
                    },
                    _ => {},
                }
            }
            if is_pow {
                return Err(Error::TypeMismatch);
            }
            match (num_exec(x), num_exec(y)) {
                (Option::Some((n1, d1)), Option::Some((n2, d2))) => ratio_apply_exec(op, n1, d1, n2, d2),
                _ => Err(Error::TypeMismatch),
            }
        },
    }
}

/// Evaluates an expression tree to a value.
pub fn execute_ast(node: &MathNode) -> (r: Result<ReturnValue, Error>)
    ensures
        r == eval(*node),
        r is Ok ==> r->Ok_0.wf(),
    decreases node,
{
    match node {
        MathNode::Int(i) => Ok(ReturnValue::Int(*i)),
        MathNode::Float(x) => make_ratio_exec(x.num as i128, x.den as i128),
        MathNode::Operation(l, op, r) => {
            let a = match execute_ast(l) {
                Ok(a) => a,
                Err(e) => return Err(e),
            };
            let b = match execute_ast(r) {
                Ok(b) => b,
                Err(e) => return Err(e),
            };
            apply_exec(*op, &a, &b)
        },
    }
}

} // verus!
