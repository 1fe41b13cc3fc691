use benday_rust::{exec_ast, expand_variables, fuzzy_find};
use benday_rust::{ASTNode, Config, Error, Function, If, IfElse, Ratio, ReturnValue, Variables};

fn value(s: &str) -> ASTNode {
    ASTNode::Value(s.to_string())
}

fn assign(name: &str, e: ASTNode) -> ASTNode {
    ASTNode::VariableAssignment(name.to_string(), Box::new(e))
}

fn print(args: Vec<ASTNode>) -> ASTNode {
    ASTNode::FunctionCall(Function { name: "print".to_string(), is_builtin: true, argv: args })
}

fn config(max_iterations: usize) -> Config {
    Config { max_iterations, max_depth: 64 }
}

#[test]
fn ast_executor_test() {
    let ast = ASTNode::Sequence(vec![
        assign("age de Bob", value("6")),
        ASTNode::While(
            false,
            Box::new(value("{age de Bob} < 13")),
            vec![
                assign("age de Bob", value("{age de Bob} + 1")),
                print(vec![value("Bravo Bob ! tu as maintenant {age de Bob} ans !")]),
            ],
        ),
        print(vec![value("Bob est parti a l'age de {age de Bob} !")]),
    ]);
    let mut variables = Variables::new();
    let mut out: Vec<String> = Vec::new();
    let r = exec_ast(&ast, &mut variables, &mut out, &config(100));
    assert_eq!(r, Ok(ReturnValue::Null));
    assert_eq!(variables.get("age de Bob"), Some(&ReturnValue::Int(13)));
    assert_eq!(out.len(), 8);
    assert_eq!(out[0], "Bravo Bob ! tu as maintenant 7 ans !");
    assert_eq!(out[6], "Bravo Bob ! tu as maintenant 13 ans !");
    assert_eq!(out[7], "Bob est parti a l'age de 13 !");
}

#[test]
fn loop_cap_stops_after_exactly_n_runs() {
    let ast = ASTNode::While(false, Box::new(value("1")), vec![print(vec![value("tick")])]);
    let mut variables = Variables::new();
    let mut out: Vec<String> = Vec::new();
    let r = exec_ast(&ast, &mut variables, &mut out, &config(5));
    assert_eq!(r, Err(Error::MaxIterationsExceeded));
    assert_eq!(out.len(), 5);
}

#[test]
fn do_loop_runs_body_before_the_condition() {
    let ast = ASTNode::While(true, Box::new(value("0")), vec![print(vec![value("once")])]);
    let mut variables = Variables::new();
    let mut out: Vec<String> = Vec::new();
    assert_eq!(exec_ast(&ast, &mut variables, &mut out, &config(5)), Ok(ReturnValue::Null));
    assert_eq!(out, vec!["once".to_string()]);
}

#[test]
fn assignment_then_expansion() {
    let ast = ASTNode::Sequence(vec![assign("x", value("5")), value("{x} + 1")]);
    let mut variables = Variables::new();
    let mut out: Vec<String> = Vec::new();
    assert_eq!(exec_ast(&ast, &mut variables, &mut out, &config(100)), Ok(ReturnValue::Int(6)));
    let unbound = value("{y} + 1");
    assert_eq!(exec_ast(&unbound, &mut variables, &mut out, &config(100)), Err(Error::UndefinedVariable));
}

#[test]
fn sequence_runs_all_when_nothing_returns() {
    let ast = ASTNode::Sequence(vec![
        assign("a", value("1")),
        print(vec![value("{a}")]),
        assign("b", value("2")),
    ]);
    let mut variables = Variables::new();
    let mut out: Vec<String> = Vec::new();
    assert_eq!(exec_ast(&ast, &mut variables, &mut out, &config(100)), Ok(ReturnValue::Null));
    assert_eq!(out, vec!["1".to_string()]);
    assert_eq!(variables.get("b"), Some(&ReturnValue::Int(2)));
}

#[test]
fn sequence_stops_at_a_returning_statement() {
    let ast = ASTNode::Sequence(vec![
        assign("a", value("1")),
        print(vec![value("{a}")]),
        value("{a} + 41"),
        assign("b", value("2")),
        print(vec![value("never")]),
    ]);
    let mut variables = Variables::new();
    let mut out: Vec<String> = Vec::new();
    assert_eq!(exec_ast(&ast, &mut variables, &mut out, &config(100)), Ok(ReturnValue::Int(42)));
    assert_eq!(out, vec!["1".to_string()]);
    assert_eq!(variables.get("b"), None);
}

#[test]
fn branches_pick_the_first_true_condition() {
    let branch = |x: &str| {
        ASTNode::Sequence(vec![
            assign("x", value(x)),
            ASTNode::IfElse(IfElse {
                if_: If { condition: Box::new(value("{x} < 1")), sequence: vec![print(vec![value("negative")])] },
                elif: Some(vec![
                    If { condition: Box::new(value("{x} < 10")), sequence: vec![print(vec![value("small")])] },
                    If { condition: Box::new(value("{x} < 100")), sequence: vec![print(vec![value("medium")])] },
                ]),
                else_: Some(vec![print(vec![value("large")])]),
            }),
        ])
    };
    for (x, expected) in [("0", "negative"), ("5", "small"), ("50", "medium"), ("500", "large")] {
        let mut variables = Variables::new();
        let mut out: Vec<String> = Vec::new();
        assert_eq!(exec_ast(&branch(x), &mut variables, &mut out, &config(100)), Ok(ReturnValue::Null));
        assert_eq!(out, vec![expected.to_string()]);
    }
}

#[test]
fn empty_value_is_a_malformed_expression() {
    let mut variables = Variables::new();
    let mut out: Vec<String> = Vec::new();
    assert_eq!(exec_ast(&value(""), &mut variables, &mut out, &config(10)), Err(Error::MalformedExpression));
    assert_eq!(exec_ast(&value("  "), &mut variables, &mut out, &config(10)), Err(Error::MalformedExpression));
}

#[test]
fn text_condition_and_unknown_function_fail() {
    let mut variables = Variables::new();
    let mut out: Vec<String> = Vec::new();
    let text_cond = ASTNode::While(false, Box::new(value("hello")), vec![]);
    assert_eq!(exec_ast(&text_cond, &mut variables, &mut out, &config(10)), Err(Error::TypeMismatch));
    let call = ASTNode::FunctionCall(Function { name: "launch".to_string(), is_builtin: false, argv: vec![] });
    assert_eq!(exec_ast(&call, &mut variables, &mut out, &config(10)), Err(Error::UnknownFunction));
}

#[test]
fn nesting_past_the_depth_limit_fails() {
    let mut node = value("1");
    for _ in 0..10 {
        node = ASTNode::Sequence(vec![node]);
    }
    let mut variables = Variables::new();
    let mut out: Vec<String> = Vec::new();
    let shallow = Config { max_iterations: 10, max_depth: 5 };
    assert_eq!(exec_ast(&node, &mut variables, &mut out, &shallow), Err(Error::MalformedExpression));
    assert_eq!(exec_ast(&node, &mut variables, &mut out, &config(10)), Ok(ReturnValue::Int(1)));
}

#[test]
fn values_render_in_expansion() {
    let mut variables = Variables::new();
    variables.set("n", ReturnValue::Int(-12));
    variables.set("b", ReturnValue::Bool(true));
    variables.set("t", ReturnValue::String_("hi".to_string()));
    variables.set("z", ReturnValue::Null);
    assert_eq!(expand_variables("{n} {b} {t} {z}", &variables), Ok("-12 true hi None".to_string()));
    assert_eq!(expand_variables("no braces", &variables), Ok("no braces".to_string()));
    assert_eq!(expand_variables("open { only", &variables), Ok("open { only".to_string()));
    assert_eq!(expand_variables("{missing}", &variables), Err(Error::UndefinedVariable));
    variables.set("n", ReturnValue::Int(3));
    assert_eq!(expand_variables("{n}", &variables), Ok("3".to_string()));
}

#[test]
fn fractions_render_in_decimal_where_exact() {
    let mut variables = Variables::new();
    variables.set("h", ReturnValue::Float(Ratio { num: 1, den: 2 }));
    variables.set("w", ReturnValue::Float(Ratio { num: 3, den: 1 }));
    variables.set("q", ReturnValue::Float(Ratio { num: -1, den: 4 }));
    variables.set("e", ReturnValue::Float(Ratio { num: 1, den: 8 }));
    variables.set("t", ReturnValue::Float(Ratio { num: 1, den: 3 }));
    variables.set("c", ReturnValue::Float(Ratio { num: 7, den: 100 }));
    assert_eq!(
        expand_variables("{h} {w} {q} {e} {t} {c}", &variables),
        Ok("0.5 3.0 -0.25 0.125 (1.0/3) 0.07".to_string())
    );
}

#[test]
fn fractions_read_back_after_expansion() {
    let ast = ASTNode::Sequence(vec![assign("h", value("1.0 / 2")), value("{h} * 4")]);
    let third = ASTNode::Sequence(vec![assign("t", value("1.0 / 3")), value("{t} * 3")]);
    let mut vars = Variables::new();
    let mut lines: Vec<String> = Vec::new();
    assert_eq!(
        exec_ast(&third, &mut vars, &mut lines, &config(10)),
        Ok(ReturnValue::Float(Ratio { num: 1, den: 1 }))
    );
    let mut variables = Variables::new();
    let mut out: Vec<String> = Vec::new();
    match exec_ast(&ast, &mut variables, &mut out, &config(10)) {
        Ok(ReturnValue::Float(r)) => assert_eq!(r.num as f64 / r.den as f64, 2.0),
        other => panic!("unexpected {:?}", other),
    }
}

#[test]
fn fuzzy_substring_and_empty_query() {
    let cands = vec!["apple".to_string(), "banana".to_string(), "grape".to_string()];
    assert_eq!(fuzzy_find(cands.clone(), "nan".to_string()), vec!["banana".to_string()]);
    assert_eq!(fuzzy_find(cands.clone(), "ape".to_string()), vec!["apple".to_string(), "grape".to_string()]);
    assert_eq!(fuzzy_find(cands.clone(), "".to_string()), cands);
    assert_eq!(fuzzy_find(cands, "xyz".to_string()), Vec::<String>::new());
}
