use doodlang::compiler::Expr;
use doodlang::compiler::FunctionManager;
use doodlang::interpreter::classify_statement;
use doodlang::interpreter::parse_variable;
use doodlang::interpreter::process;
use doodlang::interpreter::split_statements;
use doodlang::interpreter::BlockError;
use doodlang::interpreter::Statement;
use doodlang::interpreter::StatementError;
use doodlang::parser::smart_generate_tree;

fn eval(e: &Expr, vars: &Vec<f64>) -> f64 {
    match e {
        Expr::Variable { id } => vars[*id],
        Expr::Constant { literal } => {
            std::str::from_utf8(literal).unwrap().parse::<f64>().unwrap()
        }
        Expr::Sum { left, right } => eval(left, vars) + eval(right, vars),
        Expr::Sub { left, right } => eval(left, vars) - eval(right, vars),
        Expr::Mul { left, right } => eval(left, vars) * eval(right, vars),
        Expr::Div { left, right } => eval(left, vars) / eval(right, vars),
        Expr::Pow { base, power } => eval(base, vars).powf(eval(power, vars)),
        Expr::Log { base, input } => eval(input, vars).log(eval(base, vars)),
        Expr::Ln { input } => eval(input, vars).ln(),
        Expr::Sine { input } => eval(input, vars).sin(),
        Expr::Cosine { input } => eval(input, vars).cos(),
    }
}

#[test]
fn one_block_is_recorded() {
    let blocks = process(b"{x:2;}").unwrap();
    assert_eq!(blocks.len(), 1);
    assert_eq!(blocks[0].as_slice(), b"x:2;}");
}

#[test]
fn spaces_are_stripped() {
    let blocks = process(b"{ x : 2 ; }").unwrap();
    assert_eq!(blocks.len(), 1);
    assert_eq!(blocks[0].as_slice(), b"x:2;}");
}

#[test]
fn nested_block_is_seen_by_both() {
    let blocks = process(b"{a;{b;}}").unwrap();
    // the inner block closes first; the outer one also records the
    // inner text
    assert_eq!(blocks.len(), 2);
    assert_eq!(blocks[0].as_slice(), b"b;}");
    assert_eq!(blocks[1].as_slice(), b"a;{b;}}");
}

#[test]
fn text_outside_braces_is_dropped() {
    let blocks = process(b"abc{x;}def").unwrap();
    assert_eq!(blocks.len(), 1);
    assert_eq!(blocks[0].as_slice(), b"x;}");
}

#[test]
fn unmatched_closing_brace_is_an_error() {
    assert_eq!(process(b"}x{").unwrap_err(), BlockError::UnmatchedBrace);
    assert_eq!(process(b"{a;}}").unwrap_err(), BlockError::UnmatchedBrace);
}

// An empty block runs without error and produces no statements.
#[test]
fn empty_block_has_no_statements() {
    let blocks = process(b"{}").unwrap();
    assert_eq!(blocks.len(), 1);
    let stmts = split_statements(blocks[0].as_slice());
    assert!(stmts.is_empty());
}

#[test]
fn statements_split_on_semicolons() {
    let stmts = split_statements(b"a;b;");
    assert_eq!(stmts.len(), 2);
    assert_eq!(stmts[0].as_slice(), b"a");
    assert_eq!(stmts[1].as_slice(), b"b");
}

#[test]
fn tail_after_last_semicolon_is_dropped() {
    let stmts = split_statements(b"x:2;}");
    assert_eq!(stmts.len(), 1);
    assert_eq!(stmts[0].as_slice(), b"x:2");
}

#[test]
fn assignment_is_classified() {
    match classify_statement(b"x:2.5").unwrap() {
        Statement::Assignment { name, literal } => {
            assert_eq!(name.as_slice(), b"x");
            assert_eq!(literal.as_slice(), b"2.5");
        }
        _ => panic!("expected an assignment"),
    }
}

#[test]
fn solve_is_classified() {
    match classify_statement(b"solve(y)<-y-x*3").unwrap() {
        Statement::Solve { variable, formula } => {
            assert_eq!(variable.as_slice(), b"y");
            assert_eq!(formula.as_slice(), b"y-x*3");
        }
        _ => panic!("expected a solve directive"),
    }
}

#[test]
fn statement_with_neither_marker_is_ignored() {
    assert!(matches!(
        classify_statement(b"whatever").unwrap(),
        Statement::Ignored
    ));
}

#[test]
fn solve_without_parenthesis_is_an_error() {
    assert_eq!(
        classify_statement(b"solvey<-f").unwrap_err(),
        StatementError::MissingParenthesis
    );
    assert_eq!(
        classify_statement(b"solve(y<-f").unwrap_err(),
        StatementError::MissingParenthesis
    );
}

#[test]
fn solve_without_arrow_is_an_error() {
    assert_eq!(
        classify_statement(b"solve(y)x-3").unwrap_err(),
        StatementError::MissingArrow
    );
    assert_eq!(
        classify_statement(b"solve(y)").unwrap_err(),
        StatementError::MissingArrow
    );
}

#[test]
fn parse_variable_spans_the_parentheses() {
    assert_eq!(parse_variable(b"(xy)rest"), Ok(4));
    assert_eq!(parse_variable(b"()"), Ok(2));
    assert_eq!(
        parse_variable(b"xy)"),
        Err(StatementError::MissingParenthesis)
    );
}

// Assignment then reuse: a block assigns x, declares y, and solves
// y-x*3 for y; the value that zeroes the formula is 6, and the compiled
// formula evaluates to 0 exactly there.
#[test]
fn assignment_then_solve_pipeline() {
    let blocks = process(b"{x:2;y:0;solve(y)<-y-x*3;}").unwrap();
    assert_eq!(blocks.len(), 1);
    let stmts = split_statements(blocks[0].as_slice());
    assert_eq!(stmts.len(), 3);

    let mut names: Vec<Vec<u8>> = Vec::new();
    let mut values: Vec<f64> = Vec::new();
    for k in 0..2 {
        match classify_statement(stmts[k].as_slice()).unwrap() {
            Statement::Assignment { name, literal } => {
                let v: f64 = std::str::from_utf8(&literal).unwrap().parse().unwrap();
                names.push(name);
                values.push(v);
            }
            _ => panic!("expected an assignment"),
        }
    }
    match classify_statement(stmts[2].as_slice()).unwrap() {
        Statement::Solve { variable, formula } => {
            assert_eq!(variable.as_slice(), b"y");
            let tree = smart_generate_tree(formula.as_slice()).unwrap();
            let manager = FunctionManager::new(names.clone());
            let id = manager.get_id(&variable).unwrap();
            assert_eq!(id, 1);
            let expr = manager.generate_func(formula.as_slice(), &tree).unwrap();
            // the solver hunts for the value that zeroes the formula;
            // install the answer in the unknown's slot and check it
            values[id] = 6.0;
            let residual = eval(&expr, &values);
            assert!(residual.abs() < 1e-9);
            // any other value leaves a nonzero residual
            values[id] = 5.0;
            assert!(eval(&expr, &values).abs() > 0.5);
        }
        _ => panic!("expected a solve directive"),
    }
}
