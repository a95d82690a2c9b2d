use doodlang::compiler::CompileError;
use doodlang::compiler::Expr;
use doodlang::compiler::FunctionManager;
use doodlang::parser::smart_generate_tree;
use doodlang::parser::Node;

/// Evaluates a compiled expression over the given variable values,
/// reading each constant's literal text as a floating-point number.
fn eval(e: &Expr, vars: &Vec<f64>) -> f64 {
    match e {
        Expr::Variable { id } => vars[*id],
        Expr::Constant { literal } => {
            std::str::from_utf8(literal).unwrap().parse::<f64>().unwrap()
        }
        Expr::Sum { left, right } => eval(left, vars) + eval(right, vars),
        Expr::Sub { left, right } => eval(left, vars) - eval(right, vars),
        Expr::Mul { left, right } => eval(left, vars) * eval(right, vars),
        Expr::Div { left, right } => eval(left, vars) / eval(right, vars),
        Expr::Pow { base, power } => eval(base, vars).powf(eval(power, vars)),
        Expr::Log { base, input } => eval(input, vars).log(eval(base, vars)),
        Expr::Ln { input } => eval(input, vars).ln(),
        Expr::Sine { input } => eval(input, vars).sin(),
        Expr::Cosine { input } => eval(input, vars).cos(),
    }
}

/// Parses and compiles a formula over the given variables, handing back
/// the expression tree and the parallel value sequence.
fn compile(formula: &str, vars: &[(&str, f64)]) -> (Expr, Vec<f64>) {
    let tree = smart_generate_tree(formula.as_bytes()).unwrap();
    let names: Vec<Vec<u8>> = vars.iter().map(|p| p.0.as_bytes().to_vec()).collect();
    let manager = FunctionManager::new(names);
    let expr = manager.generate_func(formula.as_bytes(), &tree).unwrap();
    let values: Vec<f64> = vars.iter().map(|p| p.1).collect();
    (expr, values)
}

fn close(a: f64, b: f64) -> bool {
    (a - b).abs() < 1e-9
}

// Round-trip: a compiled constant evaluates to exactly its literal value,
// and a compiled variable evaluates to the store's value at its index.
#[test]
fn constant_round_trip() {
    let (e, vals) = compile("2.5", &[]);
    assert!(matches!(e, Expr::Constant { .. }));
    assert_eq!(eval(&e, &vals), 2.5);
}

#[test]
fn variable_round_trip() {
    let (e, vals) = compile("x", &[("x", 7.0)]);
    match &e {
        Expr::Variable { id } => assert_eq!(*id, 0),
        _ => panic!("expected a variable node"),
    }
    assert_eq!(eval(&e, &vals), 7.0);
}

// Precedence: multiplication binds tighter than addition, and
// parentheses override that.
#[test]
fn precedence_mul_over_add() {
    let (e, vals) = compile("2+3*4", &[]);
    assert!(matches!(e, Expr::Sum { .. }));
    assert!(close(eval(&e, &vals), 14.0));
}

#[test]
fn precedence_parentheses_override() {
    let (e, vals) = compile("(2+3)*4", &[]);
    assert!(matches!(e, Expr::Mul { .. }));
    assert!(close(eval(&e, &vals), 20.0));
}

// A chain of same-tier operators associates left to right.
#[test]
fn subtraction_chain_associates_left() {
    let (e, vals) = compile("a-b-c", &[("a", 10.0), ("b", 3.0), ("c", 2.0)]);
    assert!(close(eval(&e, &vals), 5.0));
}

#[test]
fn natural_log_of_one_is_zero() {
    let (e, vals) = compile("ln(x)", &[("x", 1.0)]);
    assert!(matches!(e, Expr::Ln { .. }));
    assert!(close(eval(&e, &vals), 0.0));
}

#[test]
fn log_base_two_of_eight_is_three() {
    let (e, vals) = compile("log(2,8)", &[]);
    assert!(matches!(e, Expr::Log { .. }));
    assert!(close(eval(&e, &vals), 3.0));
}

#[test]
fn power_and_division() {
    let (e, vals) = compile("2^3/4", &[]);
    assert!(close(eval(&e, &vals), 2.0));
}

#[test]
fn trig_functions() {
    let (e, vals) = compile("sin(x)+cos(x)", &[("x", 0.0)]);
    assert!(close(eval(&e, &vals), 1.0));
}

#[test]
fn equality_compiles_as_subtraction() {
    // a solve of lhs=rhs is root-found as lhs-rhs
    let (e, vals) = compile("x=3", &[("x", 5.0)]);
    assert!(matches!(e, Expr::Sub { .. }));
    assert!(close(eval(&e, &vals), 2.0));
}

// A leading minus has no left operand; the tree builder makes a leaf of
// the whole slice and the compiler then finds an operator but no
// children to put under it.
#[test]
fn leading_minus_is_rejected() {
    let tree = smart_generate_tree(b"-5").unwrap();
    let manager = FunctionManager::new(Vec::new());
    assert_eq!(
        manager.generate_func(b"-5", &tree).unwrap_err(),
        CompileError::MissingOperand
    );
}

#[test]
fn node_range_outside_formula_is_rejected() {
    let bad: Node<[usize; 2]> = Node::new([0, 99]);
    let manager = FunctionManager::new(Vec::new());
    assert_eq!(
        manager.generate_func(b"abc", &bad).unwrap_err(),
        CompileError::BadRange
    );
}

#[test]
fn node_over_unbalanced_text_is_rejected() {
    let bad: Node<[usize; 2]> = Node::new([0, 3]);
    let manager = FunctionManager::new(Vec::new());
    assert_eq!(
        manager.generate_func(b")ab", &bad).unwrap_err(),
        CompileError::Unbalanced
    );
}

#[test]
fn later_declaration_shadows_earlier() {
    let names: Vec<Vec<u8>> = vec![b"x".to_vec(), b"y".to_vec(), b"x".to_vec()];
    let manager = FunctionManager::new(names);
    assert_eq!(manager.get_id(b"x"), Some(2));
    assert_eq!(manager.get_id(b"y"), Some(1));
    assert_eq!(manager.get_id(b"z"), None);
}

#[test]
fn undeclared_name_becomes_constant_literal() {
    let (e, _) = compile("banana", &[]);
    match &e {
        Expr::Constant { literal } => assert_eq!(literal.as_slice(), b"banana"),
        _ => panic!("expected a constant node"),
    }
}
