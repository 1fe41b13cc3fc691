use vstd::prelude::*;
use crate::value::{Error, ReturnValue, ValueView, render, push_rendered};
use crate::tokenizer::{lex, tokenize_expression};
use crate::parser::{parse, parse_math_expression};
use crate::eval::{eval, execute_ast};
use crate::variables::{Variables, expand, expand_chars};
use crate::text::string_of;

verus! {

/// A statement of a script.
pub enum ASTNode {
    Sequence(Vec<ASTNode>),
    /// Post-condition form flag, condition, body.
    While(bool, Box<ASTNode>, Vec<ASTNode>),
    IfElse(IfElse),
    Value(String),
    VariableAssignment(String, Box<ASTNode>),
    FunctionCall(Function),
}

/// A condition and the body that runs when it holds.
pub struct If {
    pub condition: Box<ASTNode>,
    pub sequence: Vec<ASTNode>,
}

/// A primary branch, secondary branches tried in order, and a default body
/// that runs when no condition held.
pub struct IfElse {
    pub if_: If,
    pub elif: Option<Vec<If>>,
    pub else_: Option<Vec<ASTNode>>,
}

pub struct Function {
    pub name: String,
    pub is_builtin: bool,
    pub argv: Vec<ASTNode>,
}

/// The limits of one execution: how many times a loop body may run, and how
/// deeply statements may nest.
pub struct Config {
    pub max_iterations: usize,
    pub max_depth: usize,
}

/// The state that execution threads through: the bindings and the lines written so far.
pub struct State {
    pub vars: Map<Seq<char>, ValueView>,
    pub out: Seq<Seq<char>>,
}

/// What an execution step returns: its result and the state after it.
pub struct Outcome {
    pub result: Result<ValueView, Error>,
    pub state: State,
}

pub open spec fn done(result: Result<ValueView, Error>, state: State) -> Outcome {
    Outcome { result, state }
}

/// Whether an outcome lets the enclosing statement go on: it succeeded without a value.
pub open spec fn goes_on(o: Outcome) -> bool {
    o.result == Ok::<ValueView, Error>(ValueView::Null)
}

/// A condition's value as a boolean.
pub open spec fn truthy(v: ValueView) -> Result<bool, Error> {
    match v {
        ValueView::Bool(b) => Ok(b),
        ValueView::Null => Ok(false),
        ValueView::Int(i) => Ok(i != 0),
        ValueView::Float(r) => Ok(r.num != 0),
        ValueView::Text(_) => Err(Error::TypeMismatch),
    }
}

/// A `Value` statement: expanded, then evaluated if it tokenizes (a failure to
/// parse or evaluate is its result), else kept as text.
pub open spec fn value_of(s: Seq<char>, m: Map<Seq<char>, ValueView>) -> Result<ValueView, Error> {
    match expand(s, m) {
        Err(e) => Err(e),
        Ok(t) => match lex(t) {
            Ok(ts) => match parse(ts) {
                Err(e) => Err(e),
                Ok(tree) => match eval(tree) {
                    Err(e) => Err(e),
                    Ok(v) => Ok(v@),
                },
            },
            Err(_) => Ok(ValueView::Text(t)),
        },
    }
}

pub open spec fn print_name() -> Seq<char> {
    seq!['p', 'r', 'i', 'n', 't']
}

/// Runs a statement.
pub open spec fn run(node: ASTNode, st: State, cap: nat, depth: nat) -> Outcome
    decreases depth, 0nat, 0nat,
{
    if depth == 0 {
        done(Err(Error::MalformedExpression), st)
    } else {
        let d = (depth - 1) as nat;
        match node {
            ASTNode::Sequence(v) => run_seq(v@, 0, st, cap, d),
            ASTNode::While(is_do, cond, body) => if is_do {
                let first = run_seq(body@, 0, st, cap, d);
                if goes_on(first) { run_loop(*cond, body@, 0, first.state, cap, d) } else { first }
            } else {
                run_loop(*cond, body@, 0, st, cap, d)
            },
            ASTNode::IfElse(ie) => {
                let c = run(*ie.if_.condition, st, cap, d);
                match c.result {
                    Err(e) => done(Err(e), c.state),
                    Ok(v) => match truthy(v) {
                        Err(e) => done(Err(e), c.state),
                        Ok(true) => run_seq(ie.if_.sequence@, 0, c.state, cap, d),
                        Ok(false) => run_branches(
                            match ie.elif { Option::Some(b) => b@, Option::None => Seq::empty() },
                            0,
                            ie.else_,
                            c.state,
                            cap,
                            d,
                        ),
                    },
                }
            },
            ASTNode::Value(s) => done(value_of(s@, st.vars), st),
            ASTNode::VariableAssignment(name, e) => {
                let o = run(*e, st, cap, d);
                match o.result {
                    Err(e) => o,
                    Ok(v) => done(Ok(ValueView::Null), State { vars: o.state.vars.insert(name@, v), out: o.state.out }),
                }
            },
            ASTNode::FunctionCall(f) => if f.is_builtin && f.name@ == print_name() {
                run_print(f.argv@, 0, st, cap, d)
            } else {
                done(Err(Error::UnknownFunction), st)
            },
        }
    }
}

/// Runs statements in order from `i`, stopping at the first that fails or returns a value.
pub open spec fn run_seq(v: Seq<ASTNode>, i: int, st: State, cap: nat, depth: nat) -> Outcome
    decreases depth, 1nat, v.len() - i,
{
    if i < 0 || i >= v.len() {
        done(Ok(ValueView::Null), st)
    } else {
        let o = run(v[i], st, cap, depth);
        if goes_on(o) { run_seq(v, i + 1, o.state, cap, depth) } else { o }
    }
}

/// A loop after `k` runs of its body.
pub open spec fn run_loop(cond: ASTNode, body: Seq<ASTNode>, k: nat, st: State, cap: nat, depth: nat) -> Outcome
    decreases depth, 2nat, cap - k,
{
    let c = run(cond, st, cap, depth);
    match c.result {
        Err(e) => done(Err(e), c.state),
        Ok(v) => match truthy(v) {
            Err(e) => done(Err(e), c.state),
            Ok(false) => done(Ok(ValueView::Null), c.state),
            Ok(true) => if k >= cap {
                done(Err(Error::MaxIterationsExceeded), c.state)
            } else {
                let o = run_seq(body, 0, c.state, cap, depth);
                if goes_on(o) { run_loop(cond, body, k + 1, o.state, cap, depth) } else { o }
            },
        },
    }
}

/// The secondary branches from `i`, then the default body.
pub open spec fn run_branches(bs: Seq<If>, i: int, default: Option<Vec<ASTNode>>, st: State, cap: nat, depth: nat) -> Outcome
    decreases depth, 2nat, bs.len() - i,
{
    if i < 0 || i >= bs.len() {
        match default {
            Option::Some(b) => run_seq(b@, 0, st, cap, depth),
            Option::None => done(Ok(ValueView::Null), st),
        }
    } else {
        let c = run(*bs[i].condition, st, cap, depth);
        match c.result {
            Err(e) => done(Err(e), c.state),
            Ok(v) => match truthy(v) {
                Err(e) => done(Err(e), c.state),
                Ok(true) => run_seq(bs[i].sequence@, 0, c.state, cap, depth),
                Ok(false) => run_branches(bs, i + 1, default, c.state, cap, depth),
            },
        }
    }
}

/// Evaluates the arguments from `i` in order, writing one line for each.
pub open spec fn run_print(args: Seq<ASTNode>, i: int, st: State, cap: nat, depth: nat) -> Outcome
    decreases depth, 1nat, args.len() - i,
{
    if i < 0 || i >= args.len() {
        done(Ok(ValueView::Null), st)
    } else {
        let o = run(args[i], st, cap, depth);
        match o.result {
            Err(e) => o,
            Ok(v) => run_print(args, i + 1, State { vars: o.state.vars, out: o.state.out.push(render(v)) }, cap, depth),
        }
    }
}

pub open spec fn lines(out: Seq<String>) -> Seq<Seq<char>> {
    out.map_values(|s: String| s@)
}

pub open spec fn state_of(vars: Variables, out: Seq<String>) -> State {
    State { vars: vars@, out: lines(out) }
}

pub open spec fn result_view(r: Result<ReturnValue, Error>) -> Result<ValueView, Error> {
    match r {
        Ok(v) => Ok(v@),
        Err(e) => Err(e),
    }
}

pub open spec fn matches(r: Result<ReturnValue, Error>, vars: Variables, out: Seq<String>, o: Outcome) -> bool {
    &&& result_view(r) == o.result
    &&& state_of(vars, out) == o.state
}

fn truthy_exec(v: &ReturnValue) -> (r: Result<bool, Error>)
    ensures
        r == truthy(v@),
{
    match v {
        ReturnValue::Bool(b) => Ok(*b),
        ReturnValue::Null => Ok(false),
        ReturnValue::Int(i) => Ok(*i != 0),
        ReturnValue::Float(x) => Ok(x.num != 0),
        ReturnValue::String_(_) => Err(Error::TypeMismatch),
    }
}

fn value_exec(s: &String, vars: &Variables) -> (r: Result<ReturnValue, Error>)
    ensures
        result_view(r) == value_of(s@, vars@),
{
    let cs = crate::text::chars_of(s.as_str());
    let t = match expand_chars(&cs, vars) {
        Ok(t) => t,
        Err(e) => return Err(e),
    };
    let text = string_of(&t);
    match tokenize_expression(text.as_str()) {
        Ok(ts) => {
            let tree = match parse_math_expression(ts) {
                Ok(tree) => tree,
                Err(e) => return Err(e),
            };
            execute_ast(&tree)
        },
        Err(_) => Ok(ReturnValue::String_(text)),
    }
}

fn is_print(name: &String) -> (r: bool)
    ensures
        r == (name@ == print_name()),
{
    let cs = crate::text::chars_of(name.as_str());
    if cs.len() != 5 {
        return false;
    }
    let r = cs[0] == 'p' && cs[1] == 'r' && cs[2] == 'i' && cs[3] == 'n' && cs[4] == 't';
    assert(r ==> cs@ =~= print_name());
    r
}

fn exec_node(node: &ASTNode, vars: &mut Variables, out: &mut Vec<String>, cap: usize, depth: usize) -> (r: Result<ReturnValue, Error>)
    ensures
        matches(r, *final(vars), final(out)@, run(*node, state_of(*old(vars), old(out)@), cap as nat, depth as nat)),
    decreases depth, 0nat, 0nat,
{
    if depth == 0 {
        return Err(Error::MalformedExpression);
    }
    let d = depth - 1;
    match node {
        ASTNode::Sequence(v) => exec_seq(v, 0, vars, out, cap, d),
        ASTNode::While(is_do, cond, body) => {
            if *is_do {
                let first = exec_seq(body, 0, vars, out, cap, d);
                match first {
                    Ok(ReturnValue::Null) => {},
                    _ => return first,
                }
            }
            exec_loop(cond, body, 0, vars, out, cap, d)
        },
        ASTNode::IfElse(ie) => {
            let c = match exec_node(&ie.if_.condition, vars, out, cap, d) {
                Ok(c) => c,
                Err(e) => return Err(e),
            };
            match truthy_exec(&c) {
                Err(e) => Err(e),
                Ok(true) => exec_seq(&ie.if_.sequence, 0, vars, out, cap, d),
                Ok(false) => {
                    let empty: Vec<If> = Vec::new();
                    let bs: &Vec<If> = match &ie.elif {
                        Option::Some(b) => b,
                        Option::None => &empty,
                    };
                    exec_branches(bs, 0, &ie.else_, vars, out, cap, d)
                },
            }
        },
        ASTNode::Value(s) => value_exec(s, vars),
        ASTNode::VariableAssignment(name, e) => {
            let v = match exec_node(e, vars, out, cap, d) {
                Ok(v) => v,
                Err(e) => return Err(e),
            };
            vars.set(name.as_str(), v);
            Ok(ReturnValue::Null)
        },
        ASTNode::FunctionCall(f) => {
            if f.is_builtin && is_print(&f.name) {
                exec_print(&f.argv, 0, vars, out, cap, d)
            } else {
                Err(Error::UnknownFunction)
            }
        },
    }
}

fn exec_seq(v: &Vec<ASTNode>, i: usize, vars: &mut Variables, out: &mut Vec<String>, cap: usize, depth: usize) -> (r: Result<ReturnValue, Error>)
    ensures
        matches(r, *final(vars), final(out)@, run_seq(v@, i as int, state_of(*old(vars), old(out)@), cap as nat, depth as nat)),
    decreases depth, 1nat, v@.len() - i,
{
    if i >= v.len() {
        return Ok(ReturnValue::Null);
    }
    let o = exec_node(&v[i], vars, out, cap, depth);
    match o {
        Ok(ReturnValue::Null) => exec_seq(v, i + 1, vars, out, cap, depth),
        _ => o,
    }
}

fn exec_loop(cond: &ASTNode, body: &Vec<ASTNode>, k: usize, vars: &mut Variables, out: &mut Vec<String>, cap: usize, depth: usize) -> (r: Result<ReturnValue, Error>)
    requires
        k <= cap,
    ensures
        matches(r, *final(vars), final(out)@, run_loop(*cond, body@, k as nat, state_of(*old(vars), old(out)@), cap as nat, depth as nat)),
    decreases depth, 2nat, cap - k,
{
    let c = match exec_node(cond, vars, out, cap, depth) {
        Ok(c) => c,
        Err(e) => return Err(e),
    };
    match truthy_exec(&c) {
        Err(e) => Err(e),
        Ok(false) => Ok(ReturnValue::Null),
        Ok(true) => {
            if k >= cap {
                return Err(Error::MaxIterationsExceeded);
            }
            let o = exec_seq(body, 0, vars, out, cap, depth);
            match o {
                Ok(ReturnValue::Null) => exec_loop(cond, body, k + 1, vars, out, cap, depth),
                _ => o,
            }
        },
    }
}

fn exec_branches(bs: &Vec<If>, i: usize, default: &Option<Vec<ASTNode>>, vars: &mut Variables, out: &mut Vec<String>, cap: usize, depth: usize) -> (r: Result<ReturnValue, Error>)
    ensures
        matches(r, *final(vars), final(out)@, run_branches(bs@, i as int, *default, state_of(*old(vars), old(out)@), cap as nat, depth as nat)),
    decreases depth, 2nat, bs@.len() - i,
{
    if i >= bs.len() {
        return match default {
            Option::Some(b) => exec_seq(b, 0, vars, out, cap, depth),
            Option::None => Ok(ReturnValue::Null),
        };
    }
    let c = match exec_node(&bs[i].condition, vars, out, cap, depth) {
        Ok(c) => c,
        Err(e) => return Err(e),
    };
    match truthy_exec(&c) {
        Err(e) => Err(e),
        Ok(true) => exec_seq(&bs[i].sequence, 0, vars, out, cap, depth),
        Ok(false) => exec_branches(bs, i + 1, default, vars, out, cap, depth),
    }
}

fn exec_print(args: &Vec<ASTNode>, i: usize, vars: &mut Variables, out: &mut Vec<String>, cap: usize, depth: usize) -> (r: Result<ReturnValue, Error>)
    ensures
        matches(r, *final(vars), final(out)@, run_print(args@, i as int, state_of(*old(vars), old(out)@), cap as nat, depth as nat)),
    decreases depth, 1nat, args@.len() - i,
{
    if i >= args.len() {
        return Ok(ReturnValue::Null);
    }
    let v = match exec_node(&args[i], vars, out, cap, depth) {
        Ok(v) => v,
        Err(e) => return Err(e),
    };
    let mut line: Vec<char> = Vec::new();
    push_rendered(&mut line, &v);
    let ghost before = out@;
    out.push(string_of(&line));
    assert(lines(out@) =~= lines(before).push(render(v@)));
    exec_print(args, i + 1, vars, out, cap, depth)
}

/// Runs `ast` against `variables`, appending each printed line to `out`.
/// Bindings made before a failure stay made.
pub fn exec_ast(ast: &ASTNode, variables: &mut Variables, out: &mut Vec<String>, config: &Config) -> (r: Result<ReturnValue, Error>)
    ensures
        matches(r, *final(variables), final(out)@,
            run(*ast, state_of(*old(variables), old(out)@), config.max_iterations as nat, config.max_depth as nat)),
{
    exec_node(ast, variables, out, config.max_iterations, config.max_depth)
}

/// The state after `n` rounds of a loop: each round evaluates the condition,
/// then runs `body` from the state the condition left.
pub open spec fn loop_rounds(cond: ASTNode, body: Seq<ASTNode>, n: nat, st: State, cap: nat, depth: nat) -> State
    decreases n,
{
    if n == 0 {
        st
    } else {
        let after_cond = run(cond, st, cap, depth).state;
        loop_rounds(cond, body, (n - 1) as nat, run_seq(body, 0, after_cond, cap, depth).state, cap, depth)
    }
}

proof fn lemma_loop_runs(cond: ASTNode, body: Seq<ASTNode>, k: nat, st: State, cap: nat, depth: nat)
    requires
        k <= cap,
        forall|s: State| #[trigger] run(cond, s, cap, depth).result matches Ok(v) && truthy(v) == Ok::<bool, Error>(true),
        forall|s: State| #[trigger] goes_on(run_seq(body, 0, s, cap, depth)),
    ensures
        run_loop(cond, body, k, st, cap, depth) == done(
            Err(Error::MaxIterationsExceeded),
            run(cond, loop_rounds(cond, body, (cap - k) as nat, st, cap, depth), cap, depth).state,
        ),
    decreases cap - k,
{
    let c = run(cond, st, cap, depth);
    if k < cap {
        let o = run_seq(body, 0, c.state, cap, depth);
        assert(goes_on(o));
        lemma_loop_runs(cond, body, k + 1, o.state, cap, depth);
    }
}

/// A loop whose condition always holds and whose body never returns a value
/// or fails stops with `MaxIterationsExceeded` after exactly as many rounds
/// as the iteration cap allows, then one last check of the condition.
pub proof fn lemma_loop_cap(cond: Box<ASTNode>, body: Vec<ASTNode>, st: State, cap: nat, depth: nat)
    requires
        forall|s: State| #[trigger] run(*cond, s, cap, depth).result matches Ok(v) && truthy(v) == Ok::<bool, Error>(true),
        forall|s: State| #[trigger] goes_on(run_seq(body@, 0, s, cap, depth)),
    ensures
        run(ASTNode::While(false, cond, body), st, cap, depth + 1) == done(
            Err(Error::MaxIterationsExceeded),
            run(*cond, loop_rounds(*cond, body@, cap, st, cap, depth), cap, depth).state,
        ),
{
    lemma_loop_runs(*cond, body@, 0, st, cap, depth);
}

proof fn lemma_rounds_lines(cond: ASTNode, body: Seq<ASTNode>, n: nat, st: State, cap: nat, depth: nat)
    requires
        forall|s: State| (#[trigger] run(cond, s, cap, depth)).state.out == s.out,
        forall|s: State| (#[trigger] run_seq(body, 0, s, cap, depth)).state.out.len() == s.out.len() + 1,
    ensures
        loop_rounds(cond, body, n, st, cap, depth).out.len() == st.out.len() + n,
    decreases n,
{
    if n > 0 {
        let after_cond = run(cond, st, cap, depth).state;
        lemma_rounds_lines(cond, body, (n - 1) as nat, run_seq(body, 0, after_cond, cap, depth).state, cap, depth);
    }
}

/// When the condition writes nothing and each run of the body writes one line,
/// a loop stopped by its cap has written exactly as many lines as the cap.
pub proof fn lemma_loop_cap_lines(cond: Box<ASTNode>, body: Vec<ASTNode>, st: State, cap: nat, depth: nat)
    requires
        forall|s: State| #[trigger] run(*cond, s, cap, depth).result matches Ok(v) && truthy(v) == Ok::<bool, Error>(true),
        forall|s: State| #[trigger] goes_on(run_seq(body@, 0, s, cap, depth)),
        forall|s: State| (#[trigger] run(*cond, s, cap, depth)).state.out == s.out,
        forall|s: State| (#[trigger] run_seq(body@, 0, s, cap, depth)).state.out.len() == s.out.len() + 1,
    ensures
        run(ASTNode::While(false, cond, body), st, cap, depth + 1).result == Err::<ValueView, Error>(Error::MaxIterationsExceeded),
        run(ASTNode::While(false, cond, body), st, cap, depth + 1).state.out.len() == st.out.len() + cap,
{
    lemma_loop_cap(cond, body, st, cap, depth);
    lemma_rounds_lines(*cond, body@, cap, st, cap, depth);
}

proof fn lemma_seq_shift(v: Seq<ASTNode>, w: Seq<ASTNode>, j: int, st: State, cap: nat, depth: nat)
    requires
        0 <= j <= w.len(),
    ensures
        run_seq(v + w, v.len() + j, st, cap, depth) == run_seq(w, j, st, cap, depth),
    decreases w.len() - j,
{
    if j < w.len() {
        assert((v + w)[v.len() + j] == w[j]);
        let o = run(w[j], st, cap, depth);
        lemma_seq_shift(v, w, j + 1, o.state, cap, depth);
    }
}

proof fn lemma_seq_concat_from(v: Seq<ASTNode>, w: Seq<ASTNode>, i: int, st: State, cap: nat, depth: nat)
    requires
        0 <= i <= v.len(),
    ensures
        run_seq(v + w, i, st, cap, depth) == if goes_on(run_seq(v, i, st, cap, depth)) {
            run_seq(w, 0, run_seq(v, i, st, cap, depth).state, cap, depth)
        } else {
            run_seq(v, i, st, cap, depth)
        },
    decreases v.len() - i,
{
    if i == v.len() {
        lemma_seq_shift(v, w, 0, st, cap, depth);
    } else {
        assert((v + w)[i] == v[i]);
        let o = run(v[i], st, cap, depth);
        lemma_seq_concat_from(v, w, i + 1, o.state, cap, depth);
    }
}

/// Running `v` then `w` as one sequence: once `v` fails or returns a value,
/// nothing of `w` runs; otherwise `w` runs from the state `v` left.
pub proof fn lemma_seq_concat(v: Seq<ASTNode>, w: Seq<ASTNode>, st: State, cap: nat, depth: nat)
    ensures
        run_seq(v + w, 0, st, cap, depth) == if goes_on(run_seq(v, 0, st, cap, depth)) {
            run_seq(w, 0, run_seq(v, 0, st, cap, depth).state, cap, depth)
        } else {
            run_seq(v, 0, st, cap, depth)
        },
{
    lemma_seq_concat_from(v, w, 0, st, cap, depth);
}

} // verus!
