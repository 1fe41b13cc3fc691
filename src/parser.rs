use vstd::prelude::*;
use crate::value::{Error, Ratio};
use crate::tokenizer::{Operation, Token};

verus! {

/// An expression tree: a literal, or an operator applied to two owned subtrees.
#[derive(Debug)]
pub enum MathNode {
    Operation(Box<MathNode>, Operation, Box<MathNode>),
    Float(Ratio),
    Int(i64),
}

/// How a token changes the parenthesis depth.
pub open spec fn delta(t: Token) -> int {
    match t {
        Token::Operation(Operation::OpenParenthesis) => 1,
        Token::Operation(Operation::CloseParenthesis) => -1,
        _ => 0,
    }
}

/// The parenthesis depth just before index `i`.
pub open spec fn depth_before(ts: Seq<Token>, i: int) -> int
    decreases i,
{
    if i <= 0 { 0 } else { depth_before(ts, i - 1) + delta(ts[i - 1]) }
}

/// No closing parenthesis comes before its opening one, and every one that opens closes.
pub open spec fn balanced(ts: Seq<Token>) -> bool {
    &&& forall|i: int| 0 <= i <= ts.len() ==> #[trigger] depth_before(ts, i) >= 0
    &&& depth_before(ts, ts.len() as int) == 0
}

/// Precedence tier of an operator, from 0 (binds loosest) to 4; parentheses are never split on.
pub open spec fn tier(o: Operation) -> int {
    match o {
        Operation::And | Operation::Or => 0,
        Operation::Greater | Operation::Lesser | Operation::EqGreater | Operation::EqLesser => 1,
        Operation::Addition | Operation::Substraction => 2,
        Operation::Multiplication | Operation::Division | Operation::Modulo | Operation::Remaining => 3,
        Operation::Power => 4,
        Operation::OpenParenthesis | Operation::CloseParenthesis => 5,
    }
}

pub open spec fn eligible(ts: Seq<Token>, i: int, t: int) -> bool {
    &&& ts[i] is Operation
    &&& tier(ts[i]->Operation_0) == t
    &&& depth_before(ts, i) == 0
}

/// The last index below `n` of an operator of tier `t` outside any parenthesis.
pub open spec fn rightmost(ts: Seq<Token>, t: int, n: int) -> Option<int>
    decreases n,
{
    if n <= 0 {
        Option::None
    } else if eligible(ts, n - 1, t) {
        Option::Some(n - 1)
    } else {
        rightmost(ts, t, n - 1)
    }
}

/// Where the expression splits: the rightmost eligible operator of the lowest
/// tier that has one, so that operators of one tier group from the left.
pub open spec fn split_of(ts: Seq<Token>, t: int) -> Option<int>
    decreases 5 - t,
{
    if t > 4 {
        Option::None
    } else {
        match rightmost(ts, t, ts.len() as int) {
            Option::Some(i) => Option::Some(i),
            Option::None => split_of(ts, t + 1),
        }
    }
}

pub open spec fn is_open(t: Token) -> bool {
    t == Token::Operation(Operation::OpenParenthesis)
}

pub open spec fn is_close(t: Token) -> bool {
    t == Token::Operation(Operation::CloseParenthesis)
}

/// The tree of a token sequence; any malformed part fails with `MalformedExpression`.
pub open spec fn parse_slice(ts: Seq<Token>) -> Result<MathNode, Error>
    decreases ts.len(),
{
    if ts.len() == 0 || !balanced(ts) {
        Err(Error::MalformedExpression)
    } else {
        match split_of(ts, 0) {
            Option::Some(i) => if 0 <= i < ts.len() {
                match parse_slice(ts.subrange(0, i)) {
                    Err(e) => Err(e),
                    Ok(l) => match parse_slice(ts.subrange(i + 1, ts.len() as int)) {
                        Err(e) => Err(e),
                        Ok(r) => Ok(MathNode::Operation(Box::new(l), ts[i]->Operation_0, Box::new(r))),
                    },
                }
            } else {
                Err(Error::MalformedExpression)
            },
            Option::None => if ts.len() == 1 {
                match ts[0] {
                    Token::Int(v) => Ok(MathNode::Int(v)),
                    Token::Float(r) => Ok(MathNode::Float(r)),
                    Token::Operation(_) => Err(Error::MalformedExpression),
                }
            } else if is_open(ts[0]) && is_close(ts[ts.len() - 1]) {
                parse_slice(ts.subrange(1, ts.len() - 1))
            } else {
                Err(Error::MalformedExpression)
            },
        }
    }
}

/// The tree of a whole token sequence: unbalanced parentheses are told apart
/// from other malformed input.
pub open spec fn parse(ts: Seq<Token>) -> Result<MathNode, Error> {
    if !balanced(ts) {
        Err(Error::UnbalancedParenthesis)
    } else {
        parse_slice(ts)
    }
}

proof fn lemma_rightmost_range(ts: Seq<Token>, t: int, n: int)
    ensures
        rightmost(ts, t, n) is Some ==> 0 <= rightmost(ts, t, n)->0 < n
            && ts[rightmost(ts, t, n)->0] is Operation,
    decreases n,
{
    if n > 0 {
        lemma_rightmost_range(ts, t, n - 1);
    }
}

proof fn lemma_split_range(ts: Seq<Token>, t: int)
    ensures
        split_of(ts, t) is Some ==> 0 <= split_of(ts, t)->0 < ts.len()
            && ts[split_of(ts, t)->0] is Operation,
    decreases 5 - t,
{
    if t <= 4 {
        lemma_rightmost_range(ts, t, ts.len() as int);
        lemma_split_range(ts, t + 1);
    }
}

proof fn lemma_depth_bound(ts: Seq<Token>, k: int)
    requires
        0 <= k,
    ensures
        -k <= depth_before(ts, k) <= k,
    decreases k,
{
    if k > 0 {
        lemma_depth_bound(ts, k - 1);
    }
}

fn delta_exec(t: &Token) -> (d: i128)
    ensures
        d == delta(*t),
{
    match t {
        Token::Operation(Operation::OpenParenthesis) => 1,
        Token::Operation(Operation::CloseParenthesis) => -1,
        _ => 0,
    }
}

fn tier_exec(o: Operation) -> (t: usize)
    ensures
        t == tier(o),
{
    match o {
        Operation::And | Operation::Or => 0,
        Operation::Greater | Operation::Lesser | Operation::EqGreater | Operation::EqLesser => 1,
        Operation::Addition | Operation::Substraction => 2,
        Operation::Multiplication | Operation::Division | Operation::Modulo | Operation::Remaining => 3,
        Operation::Power => 4,
        Operation::OpenParenthesis | Operation::CloseParenthesis => 5,
    }
}

fn balanced_exec(ts: &Vec<Token>, lo: usize, hi: usize) -> (b: bool)
    requires
        lo <= hi <= ts@.len(),
    ensures
        b == balanced(ts@.subrange(lo as int, hi as int)),
{
    let ghost sub = ts@.subrange(lo as int, hi as int);
    let mut d: i128 = 0;
    let mut k: usize = lo;
    while k < hi
        invariant
            lo <= k <= hi <= ts@.len(),
            sub == ts@.subrange(lo as int, hi as int),
            d == depth_before(sub, k - lo),
            forall|j: int| 0 <= j <= k - lo ==> #[trigger] depth_before(sub, j) >= 0,
        decreases hi - k,
    {
        proof {
            lemma_depth_bound(sub, k - lo);
        }
        assert(sub[k - lo] == ts@[k as int]);
        d = d + delta_exec(&ts[k]);
        k += 1;
        assert(d == depth_before(sub, k - lo));
        if d < 0 {
            return false;
        }
    }
    d == 0
}

fn rightmost_exec(ts: &Vec<Token>, lo: usize, hi: usize, t: usize) -> (r: Option<usize>)
    requires
        lo <= hi <= ts@.len(),
        balanced(ts@.subrange(lo as int, hi as int)),
    ensures
        match rightmost(ts@.subrange(lo as int, hi as int), t as int, hi - lo) {
            Option::Some(i) => r is Some && r->0 == lo + i,
            Option::None => r is None,
        },
        r is Some ==> lo <= r->0 < hi,
{
    let ghost sub = ts@.subrange(lo as int, hi as int);
    let mut d: i128 = 0;
    let mut k: usize = hi;
    while k > lo
        invariant
            lo <= k <= hi <= ts@.len(),
            sub == ts@.subrange(lo as int, hi as int),
            d == depth_before(sub, k - lo),
            rightmost(sub, t as int, hi - lo) == rightmost(sub, t as int, k - lo),
        decreases k - lo,
    {
        proof {
            lemma_depth_bound(sub, k - lo);
        }
        assert(sub[k - 1 - lo] == ts@[k - 1]);
        let d2 = d - delta_exec(&ts[k - 1]);
        assert(d2 == depth_before(sub, k - 1 - lo));
        let hit = match ts[k - 1] {
            Token::Operation(o) => tier_exec(o) == t && d2 == 0,
            _ => false,
        };
        if hit {
            return Some(k - 1);
        }
        d = d2;
        k -= 1;
    }
    None
}

fn split_exec(ts: &Vec<Token>, lo: usize, hi: usize) -> (r: Option<usize>)
    requires
        lo <= hi <= ts@.len(),
        balanced(ts@.subrange(lo as int, hi as int)),
    ensures
        match split_of(ts@.subrange(lo as int, hi as int), 0) {
            Option::Some(i) => r is Some && r->0 == lo + i,
            Option::None => r is None,
        },
        r is Some ==> lo <= r->0 < hi,
{
    let ghost sub = ts@.subrange(lo as int, hi as int);
    proof {
        lemma_split_range(sub, 0);
    }
    let mut t: usize = 0;
    while t < 5
        invariant
            t <= 5,
            lo <= hi <= ts@.len(),
            sub == ts@.subrange(lo as int, hi as int),
            balanced(sub),
            split_of(sub, 0) == split_of(sub, t as int),
        decreases 5 - t,
    {
        match rightmost_exec(ts, lo, hi, t) {
            Option::Some(i) => {
                return Some(i);
            },
            Option::None => {},
        }
        t += 1;
    }
    None
}

fn parse_range(ts: &Vec<Token>, lo: usize, hi: usize) -> (r: Result<MathNode, Error>)
    requires
        lo <= hi <= ts@.len(),
    ensures
        r == parse_slice(ts@.subrange(lo as int, hi as int)),
    decreases hi - lo,
{
    let ghost sub = ts@.subrange(lo as int, hi as int);
    if lo == hi || !balanced_exec(ts, lo, hi) {
        return Err(Error::MalformedExpression);
    }
    proof {
        lemma_split_range(sub, 0);
    }
    match split_exec(ts, lo, hi) {
        Option::Some(i) => {
            assert(sub.subrange(0, i - lo) =~= ts@.subrange(lo as int, i as int));
            assert(sub.subrange(i - lo + 1, sub.len() as int) =~= ts@.subrange(i + 1, hi as int));
            assert(sub[i - lo] == ts@[i as int]);
            let l = match parse_range(ts, lo, i) {
                Ok(l) => l,
                Err(e) => return Err(e),
            };
            let r = match parse_range(ts, i + 1, hi) {
                Ok(r) => r,
                Err(e) => return Err(e),
            };
            let op = match ts[i] {
                Token::Operation(o) => o,
                _ => Operation::Addition,
            };
            Ok(MathNode::Operation(Box::new(l), op, Box::new(r)))
        },
        Option::None => {
            if hi - lo == 1 {
                assert(sub[0] == ts@[lo as int]);
                match ts[lo] {
                    Token::Int(v) => Ok(MathNode::Int(v)),
                    Token::Float(x) => Ok(MathNode::Float(x)),
                    Token::Operation(_) => Err(Error::MalformedExpression),
                }
            } else {
                assert(sub[0] == ts@[lo as int]);
                assert(sub[sub.len() - 1] == ts@[hi - 1]);
                let first_open = match ts[lo] {
                    Token::Operation(Operation::OpenParenthesis) => true,
                    _ => false,
                };
                let last_close = match ts[hi - 1] {
                    Token::Operation(Operation::CloseParenthesis) => true,
                    _ => false,
                };
                if first_open && last_close {
                    assert(sub.subrange(1, sub.len() - 1) =~= ts@.subrange(lo + 1, hi - 1));
                    parse_range(ts, lo + 1, hi - 1)
                } else {
                    Err(Error::MalformedExpression)
                }
            }
        },
    }
}

/// Builds the expression tree of `tokens` by splitting at the loosest-binding
/// operator outside any parenthesis and recursing on both sides.
pub fn parse_math_expression(tokens: Vec<Token>) -> (r: Result<MathNode, Error>)
    ensures
        r == parse(tokens@),
{
    if !balanced_exec(&tokens, 0, tokens.len()) {
        assert(tokens@.subrange(0, tokens@.len() as int) =~= tokens@);
        return Err(Error::UnbalancedParenthesis);
    }
    assert(tokens@.subrange(0, tokens@.len() as int) =~= tokens@);
    parse_range(&tokens, 0, tokens.len())
}

} // verus!
