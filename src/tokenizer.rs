use vstd::prelude::*;
use crate::value::{Error, Ratio};
use crate::text::chars_of;

verus! {

/// The binary operator symbols, from the lowest precedence tier to the highest.
#[derive(Clone, Copy, Debug, PartialEq, Eq, Structural)]
pub enum Operation {
    OpenParenthesis,
    CloseParenthesis,
    Power,
    Multiplication,
    Division,
    Modulo,
    Remaining,
    Addition,
    Substraction,
    Greater,
    Lesser,
    EqGreater,
    EqLesser,
    And,
    Or,
}

#[derive(Clone, Copy, Debug, PartialEq, Eq, Structural)]
pub enum Token {
    Int(i64),
    Float(Ratio),
    Operation(Operation),
}

pub open spec fn is_space(c: char) -> bool {
    c == ' ' || c == '\t' || c == '\n' || c == '\r'
}

pub open spec fn is_digit(c: char) -> bool {
    '0' <= c && c <= '9'
}

pub open spec fn digit_val(c: char) -> int {
    (c as u32) as int - ('0' as u32) as int
}

/// The first index at or after `i` that does not hold a digit.
pub open spec fn digits_end(s: Seq<char>, i: int) -> int
    decreases s.len() - i,
{
    if 0 <= i < s.len() && is_digit(s[i]) {
        digits_end(s, i + 1)
    } else {
        i
    }
}

/// Reads decimal digits after the value `init`, failing as soon as the value
/// leaves the range of `i64`.
pub open spec fn read_digits(init: Option<int>, ds: Seq<char>) -> Option<int>
    decreases ds.len(),
{
    if ds.len() == 0 {
        init
    } else {
        match read_digits(init, ds.drop_last()) {
            Option::None => Option::None,
            Option::Some(v) => {
                let w = v * 10 + digit_val(ds.last());
                if w > i64::MAX { Option::None } else { Option::Some(w) }
            },
        }
    }
}

pub open spec fn pow10(k: nat) -> int
    decreases k,
{
    if k == 0 { 1 } else { 10 * pow10((k - 1) as nat) }
}

/// The largest number of digits after a decimal point.
pub const MAX_FRACTION_DIGITS: usize = 18;

/// The number literal that starts at `i`: its token and how many characters
/// it takes beyond the first.
pub open spec fn number_at(s: Seq<char>, i: int) -> Result<(Option<Token>, nat), Error> {
    let j = digits_end(s, i);
    if j < s.len() && s[j] == '.' {
        let k = digits_end(s, j + 1);
        let frac = (k - j - 1) as nat;
        let num = read_digits(read_digits(Option::Some(0), s.subrange(i, j)), s.subrange(j + 1, k));
        if frac > MAX_FRACTION_DIGITS || num is None {
            Err(Error::Overflow)
        } else {
            Ok((Option::Some(Token::Float(Ratio { num: num->0 as i64, den: pow10(frac) as i64 })), (k - i - 1) as nat))
        }
    } else {
        match read_digits(Option::Some(0), s.subrange(i, j)) {
            Option::None => Err(Error::Overflow),
            Option::Some(v) => Ok((Option::Some(Token::Int(v as i64)), (j - i - 1) as nat)),
        }
    }
}

pub open spec fn op_token(o: Operation) -> Result<(Option<Token>, nat), Error> {
    Ok((Option::Some(Token::Operation(o)), 0))
}

pub open spec fn op2_token(o: Operation) -> Result<(Option<Token>, nat), Error> {
    Ok((Option::Some(Token::Operation(o)), 1))
}

/// What the character at `i` starts: a token or nothing (whitespace), and how
/// many more characters it takes.
pub open spec fn lex_step(s: Seq<char>, i: int) -> Result<(Option<Token>, nat), Error> {
    let c = s[i];
    let next_is = |d: char| i + 1 < s.len() && s[i + 1] == d;
    if is_space(c) {
        Ok((Option::None, 0))
    } else if is_digit(c) {
        number_at(s, i)
    } else if c == '<' && next_is('=') {
        op2_token(Operation::EqLesser)
    } else if c == '>' && next_is('=') {
        op2_token(Operation::EqGreater)
    } else if c == '&' && next_is('&') {
        op2_token(Operation::And)
    } else if c == '|' && next_is('|') {
        op2_token(Operation::Or)
    } else if c == '/' && next_is('/') {
        op2_token(Operation::Remaining)
    } else if c == '(' {
        op_token(Operation::OpenParenthesis)
    } else if c == ')' {
        op_token(Operation::CloseParenthesis)
    } else if c == '^' {
        op_token(Operation::Power)
    } else if c == '*' {
        op_token(Operation::Multiplication)
    } else if c == '/' {
        op_token(Operation::Division)
    } else if c == '%' {
        op_token(Operation::Modulo)
    } else if c == '+' {
        op_token(Operation::Addition)
    } else if c == '-' {
        op_token(Operation::Substraction)
    } else if c == '>' {
        op_token(Operation::Greater)
    } else if c == '<' {
        op_token(Operation::Lesser)
    } else {
        Err(Error::UnrecognizedCharacter)
    }
}

pub open spec fn prepend(t: Option<Token>, r: Result<Seq<Token>, Error>) -> Result<Seq<Token>, Error> {
    match r {
        Ok(ts) => match t {
            Option::Some(t) => Ok(seq![t] + ts),
            Option::None => Ok(ts),
        },
        Err(e) => Err(e),
    }
}

/// The tokens of `s` from index `i` on.
pub open spec fn lex_from(s: Seq<char>, i: nat) -> Result<Seq<Token>, Error>
    decreases s.len() - i,
{
    if i >= s.len() {
        Ok(Seq::empty())
    } else {
        match lex_step(s, i as int) {
            Err(e) => Err(e),
            Ok((t, extra)) => if i + 1 + extra >= s.len() {
                prepend(t, Ok(Seq::empty()))
            } else {
                prepend(t, lex_from(s, i + 1 + extra))
            },
        }
    }
}

pub open spec fn lex(s: Seq<char>) -> Result<Seq<Token>, Error> {
    lex_from(s, 0)
}

pub open spec fn append_result(acc: Seq<Token>, r: Result<Seq<Token>, Error>) -> Result<Seq<Token>, Error> {
    match r {
        Ok(ts) => Ok(acc + ts),
        Err(e) => Err(e),
    }
}

pub(crate) proof fn lemma_pow10_mono(a: nat, b: nat)
    requires
        a <= b,
    ensures
        1 <= pow10(a) <= pow10(b),
    decreases b,
{
    if a < b {
        lemma_pow10_mono(a, (b - 1) as nat);
    } else if a > 0 {
        lemma_pow10_mono((a - 1) as nat, (a - 1) as nat);
    }
}

fn digits_end_exec(s: &Vec<char>, i: usize) -> (j: usize)
    requires
        i <= s@.len(),
    ensures
        j == digits_end(s@, i as int),
        i <= j <= s@.len(),
        i < s@.len() && is_digit(s@[i as int]) ==> j > i,
{
    let mut k = i;
    while k < s.len() && '0' <= s[k] && s[k] <= '9'
        invariant
            i <= k <= s@.len(),
            digits_end(s@, i as int) == digits_end(s@, k as int),
        decreases s@.len() - k,
    {
        k += 1;
    }
    k
}

fn read_digits_exec(s: &Vec<char>, init: Option<i64>, a: usize, b: usize) -> (r: Option<i64>)
    requires
        a <= b <= s@.len(),
        init is Some ==> init->0 >= 0,
        forall|k: int| a <= k < b ==> is_digit(#[trigger] s@[k]),
    ensures
        read_digits(match init { Option::Some(v) => Option::Some(v as int), Option::None => Option::None }, s@.subrange(a as int, b as int))
            == match r { Option::Some(v) => Option::Some(v as int), Option::None => Option::None },
        r is Some ==> r->0 >= 0,
{
    let ghost init_i = match init { Option::Some(v) => Option::Some(v as int), Option::None => Option::None };
    let mut acc = init;
    let mut k = a;
    assert(s@.subrange(a as int, a as int).len() == 0);
    while k < b
        invariant
            a <= k <= b <= s@.len(),
            forall|k: int| a <= k < b ==> is_digit(#[trigger] s@[k]),
            acc is Some ==> acc->0 >= 0,
            read_digits(init_i, s@.subrange(a as int, k as int))
                == match acc { Option::Some(v) => Option::Some(v as int), Option::None => Option::None },
        decreases b - k,
    {
        assert(s@.subrange(a as int, k + 1).drop_last() =~= s@.subrange(a as int, k as int));
        assert(is_digit(s@[k as int]));
        let d = (s[k] as u32 - '0' as u32) as i64;
        acc = match acc {
            Option::None => Option::None,
            Option::Some(v) => {
                if v > (i64::MAX - d) / 10 {
                    Option::None
                } else {
                    Option::Some(v * 10 + d)
                }
            },
        };
        k += 1;
    }
    acc
}

fn number_exec(s: &Vec<char>, i: usize) -> (r: Result<(Option<Token>, usize), Error>)
    requires
        i < s@.len(),
        is_digit(s@[i as int]),
    ensures
        match (r, number_at(s@, i as int)) {
            (Ok((t, e)), Ok((ts, es))) => t == ts && e == es && i + 1 + e <= s@.len(),
            (Err(e), Err(es)) => e == es,
            _ => false,
        },
{
    let j = digits_end_exec(s, i);
    if j < s.len() && s[j] == '.' {
        let k = digits_end_exec(s, j + 1);
        proof {
            assert forall|m: int| i <= m < j implies is_digit(#[trigger] s@[m]) by {
                lemma_digits_end_all(s@, i as int, m);
            }
            assert forall|m: int| j + 1 <= m < k implies is_digit(#[trigger] s@[m]) by {
                lemma_digits_end_all(s@, j + 1, m);
            }
        }
        let whole = read_digits_exec(s, Some(0), i, j);
        let num = read_digits_exec(s, whole, j + 1, k);
        let frac = k - j - 1;
        if frac > MAX_FRACTION_DIGITS || num.is_none() {
            return Err(Error::Overflow);
        }
        let mut den: i64 = 1;
        let mut m: usize = 0;
        while m < frac
            invariant
                m <= frac <= MAX_FRACTION_DIGITS,
                den as int == pow10(m as nat),
            decreases frac - m,
        {
            proof {
                lemma_pow10_mono(m as nat, 17);
                reveal_with_fuel(pow10, 18);
                assert(pow10(17) == 100000000000000000);
            }
            den = den * 10;
            m += 1;
        }
        let n = match num { Option::Some(v) => v, Option::None => 0 };
        Ok((Option::Some(Token::Float(Ratio { num: n, den })), k - i - 1))
    } else {
        proof {
            assert forall|m: int| i <= m < j implies is_digit(#[trigger] s@[m]) by {
                lemma_digits_end_all(s@, i as int, m);
            }
        }
        match read_digits_exec(s, Some(0), i, j) {
            Option::None => Err(Error::Overflow),
            Option::Some(v) => Ok((Option::Some(Token::Int(v)), j - i - 1)),
        }
    }
}

proof fn lemma_digits_end_all(s: Seq<char>, i: int, m: int)
    requires
        0 <= i <= m < digits_end(s, i),
    ensures
        is_digit(s[m]),
    decreases s.len() - i,
{
    if i < m {
        lemma_digits_end_all(s, i + 1, m);
    }
}

fn lex_step_exec(s: &Vec<char>, i: usize) -> (r: Result<(Option<Token>, usize), Error>)
    requires
        i < s@.len(),
    ensures
        match (r, lex_step(s@, i as int)) {
            (Ok((t, e)), Ok((ts, es))) => t == ts && e == es && i + 1 + e <= s@.len(),
            (Err(e), Err(es)) => e == es,
            _ => false,
        },
{
    let c = s[i];
    let two = i < s.len() - 1;
    let nxt: char = if two { s[i + 1] } else { ' ' };
    if c == ' ' || c == '\t' || c == '\n' || c == '\r' {
        Ok((Option::None, 0))
    } else if '0' <= c && c <= '9' {
        number_exec(s, i)
    } else if c == '<' && two && nxt == '=' {
        Ok((Option::Some(Token::Operation(Operation::EqLesser)), 1))
    } else if c == '>' && two && nxt == '=' {
        Ok((Option::Some(Token::Operation(Operation::EqGreater)), 1))
    } else if c == '&' && two && nxt == '&' {
        Ok((Option::Some(Token::Operation(Operation::And)), 1))
    } else if c == '|' && two && nxt == '|' {
        Ok((Option::Some(Token::Operation(Operation::Or)), 1))
    } else if c == '/' && two && nxt == '/' {
        Ok((Option::Some(Token::Operation(Operation::Remaining)), 1))
    } else if c == '(' {
        Ok((Option::Some(Token::Operation(Operation::OpenParenthesis)), 0))
    } else if c == ')' {
        Ok((Option::Some(Token::Operation(Operation::CloseParenthesis)), 0))
    } else if c == '^' {
        Ok((Option::Some(Token::Operation(Operation::Power)), 0))
    } else if c == '*' {
        Ok((Option::Some(Token::Operation(Operation::Multiplication)), 0))
    } else if c == '/' {
        Ok((Option::Some(Token::Operation(Operation::Division)), 0))
    } else if c == '%' {
        Ok((Option::Some(Token::Operation(Operation::Modulo)), 0))
    } else if c == '+' {
        Ok((Option::Some(Token::Operation(Operation::Addition)), 0))
    } else if c == '-' {
        Ok((Option::Some(Token::Operation(Operation::Substraction)), 0))
    } else if c == '>' {
        Ok((Option::Some(Token::Operation(Operation::Greater)), 0))
    } else if c == '<' {
        Ok((Option::Some(Token::Operation(Operation::Lesser)), 0))
    } else {
        Err(Error::UnrecognizedCharacter)
    }
}

/// Splits `expression` into tokens, skipping whitespace.
pub fn tokenize_expression(expression: &str) -> (r: Result<Vec<Token>, Error>)
    ensures
        match (r, lex(expression@)) {
            (Ok(ts), Ok(sts)) => ts@ == sts,
            (Err(e), Err(se)) => e == se,
            _ => false,
        },
{
    let s = chars_of(expression);
    let mut acc: Vec<Token> = Vec::new();
    let mut i: usize = 0;
    while i < s.len()
        invariant
            i <= s@.len(),
            s@ == expression@,
            lex_from(s@, 0) == append_result(acc@, lex_from(s@, i as nat)),
        decreases s@.len() - i,
    {
        match lex_step_exec(&s, i) {
            Err(e) => {
                return Err(e);
            },
            Ok((t, extra)) => {
                match t {
                    Option::Some(tok) => {
                        proof {
                            let rest = lex_from(s@, (i + 1 + extra) as nat);
                            if rest is Ok {
                                assert(acc@ + (seq![tok] + rest->Ok_0) =~= acc@.push(tok) + rest->Ok_0);
                            }
                        }
                        acc.push(tok);
                    },
                    Option::None => {},
                }
                i = i + 1 + extra;
            },
        }
    }
    assert(acc@ + Seq::<Token>::empty() =~= acc@);
    Ok(acc)
}

} // verus!
