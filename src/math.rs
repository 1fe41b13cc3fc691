use vstd::prelude::*;
use crate::value::{Error, ReturnValue};
use crate::tokenizer::{lex, tokenize_expression};
use crate::parser::{parse, parse_math_expression};
use crate::eval::{eval, execute_ast};

verus! {

/// The value of an expression text: tokenized, parsed, then evaluated.
pub open spec fn evaluate(s: Seq<char>) -> Result<ReturnValue, Error> {
    match lex(s) {
        Err(e) => Err(e),
        Ok(ts) => match parse(ts) {
            Err(e) => Err(e),
            Ok(tree) => eval(tree),
        },
    }
}

/// Whether `expression` tokenizes; it may still fail to parse.
pub fn is_math_parsable(expression: &str) -> (r: bool)
    ensures
        r == lex(expression@) is Ok,
{
    match tokenize_expression(expression) {
        Ok(_) => true,
        Err(_) => false,
    }
}

/// Tokenizes, parses and evaluates `expression`.
pub fn math_expression(expression: &str) -> (r: Result<ReturnValue, Error>)
    ensures
        r == evaluate(expression@),
        r is Ok ==> r->Ok_0.wf(),
{
    let tokens = match tokenize_expression(expression) {
        Ok(v) => v,
        Err(e) => return Err(e),
    };
    let tree = match parse_math_expression(tokens) {
        Ok(t) => t,
        Err(e) => return Err(e),
    };
    execute_ast(&tree)
}

} // verus!
