use doodlang::parser::find_index;
use doodlang::parser::find_min_local_scope;
use doodlang::parser::function_in_scope;
use doodlang::parser::generate_tree;
use doodlang::parser::is_balanced;
use doodlang::parser::operator_in_scope;
use doodlang::parser::parse_csv;
use doodlang::parser::recursive_generate;
use doodlang::parser::smart_generate_tree;
use doodlang::parser::Node;
use doodlang::parser::ParseError;

#[test]
fn balance_checks() {
    assert!(is_balanced(b"(a+b)*(c)"));
    assert!(!is_balanced(b"(a+b"));
    assert!(!is_balanced(b")a("));
    assert!(is_balanced(b""));
}

#[test]
fn rightmost_operator_wins() {
    assert_eq!(operator_in_scope(b"a+b+c", b'+', 0), Some(3));
    assert_eq!(operator_in_scope(b"a+b", b'*', 0), None);
}

#[test]
fn operator_hidden_in_parens_is_skipped() {
    // the + sits at depth 1, so at depth 0 there is none
    assert_eq!(operator_in_scope(b"(a+b)", b'+', 0), None);
    assert_eq!(operator_in_scope(b"(a+b)", b'+', 1), Some(2));
}

#[test]
fn function_found_at_scope() {
    assert_eq!(function_in_scope(b"ln(x)", b"ln", 0), Some(0));
    assert_eq!(function_in_scope(b"zln(x)", b"ln", 0), Some(1));
    assert_eq!(function_in_scope(b"(ln(x))", b"ln", 0), None);
}

#[test]
fn min_scope_of_parenthesized() {
    assert_eq!(find_min_local_scope(b"(a)"), 1);
    assert_eq!(find_min_local_scope(b"a+b"), 0);
    assert_eq!(find_min_local_scope(b"(a)+(b)"), 0);
}

#[test]
fn find_index_is_leftmost() {
    assert_eq!(find_index(b"a-b-c", b'-', 0), Some(1));
    assert_eq!(find_index(b"(a-b)", b'-', 0), None);
}

// A bare token — no operator, no parenthesis, no function name — must
// come back as a leaf spanning the full input range.
#[test]
fn plain_token_is_leaf() {
    let n = smart_generate_tree(b"abc123").unwrap();
    assert_eq!(n.value, [0, 6]);
    assert!(n.children.is_empty());
    let n = smart_generate_tree(b"x").unwrap();
    assert_eq!(n.value, [0, 1]);
    assert!(n.children.is_empty());
}

#[test]
fn operator_split_gives_two_children() {
    let n = smart_generate_tree(b"2+3*4").unwrap();
    assert_eq!(n.value, [0, 5]);
    assert_eq!(n.children.len(), 2);
    // the split happens at '+', the lowest tier present
    assert_eq!(n.children[0].value, [0, 1]);
    assert_eq!(n.children[1].value, [2, 5]);
    // the right operand splits again at '*'
    assert_eq!(n.children[1].children.len(), 2);
    assert_eq!(n.children[1].children[0].value, [2, 3]);
    assert_eq!(n.children[1].children[1].value, [4, 5]);
}

#[test]
fn same_tier_chain_splits_at_rightmost() {
    let n = smart_generate_tree(b"a-b-c").unwrap();
    assert_eq!(n.children.len(), 2);
    // rightmost '-' is the split, so the left child spans "a-b"
    assert_eq!(n.children[0].value, [0, 3]);
    assert_eq!(n.children[1].value, [4, 5]);
}

#[test]
fn parenthesis_strip_gives_pass_through_child() {
    let n = smart_generate_tree(b"(a)").unwrap();
    assert_eq!(n.value, [0, 3]);
    assert_eq!(n.children.len(), 1);
    assert_eq!(n.children[0].value, [1, 2]);
    assert!(n.children[0].children.is_empty());
}

#[test]
fn function_arguments_become_children() {
    let n = smart_generate_tree(b"log(2,8)").unwrap();
    assert_eq!(n.children.len(), 2);
    assert_eq!(n.children[0].value, [4, 5]);
    assert_eq!(n.children[1].value, [6, 7]);
}

#[test]
fn unary_function_argument_becomes_child() {
    let n = smart_generate_tree(b"ln(x)").unwrap();
    assert_eq!(n.children.len(), 1);
    assert_eq!(n.children[0].value, [3, 4]);
}

#[test]
fn empty_formula_is_an_error() {
    assert_eq!(smart_generate_tree(b"").unwrap_err(), ParseError::EmptyFormula);
}

#[test]
fn unbalanced_formula_is_an_error() {
    assert_eq!(smart_generate_tree(b"(a+b").unwrap_err(), ParseError::Unbalanced);
    assert_eq!(smart_generate_tree(b"a)b(").unwrap_err(), ParseError::Unbalanced);
}

#[test]
fn dangling_function_name_is_an_error() {
    // "log" at the very end has no argument list to delimit
    assert_eq!(smart_generate_tree(b"zzzlog").unwrap_err(), ParseError::BadFunctionCall);
}

#[test]
fn node_new_and_set_value() {
    let mut n: Node<[usize; 2]> = Node::new([1, 4]);
    assert_eq!(n.value, [1, 4]);
    assert!(n.children.is_empty());
    n.set_value([2, 9]);
    assert_eq!(n.value, [2, 9]);
}

#[test]
fn recursive_generate_splits_directly() {
    // a parenthesis-free formula needs only zero scopes
    let mut parent: Node<[usize; 2]> = Node::new([0, 3]);
    let scopes: Vec<usize> = vec![0, 0, 0];
    recursive_generate(0, &mut parent, b"a+b", &scopes).unwrap();
    assert_eq!(parent.children.len(), 2);
    assert_eq!(parent.children[0].value, [0, 1]);
    assert_eq!(parent.children[1].value, [2, 3]);
}

#[test]
fn parse_csv_makes_one_child_per_argument() {
    let mut node: Node<[usize; 2]> = Node::new([0, 0]);
    let scopes: Vec<usize> = vec![0, 0, 0];
    parse_csv(10, &mut node, b"a,b", &scopes).unwrap();
    assert_eq!(node.children.len(), 2);
    assert_eq!(node.children[0].value, [10, 11]);
    assert_eq!(node.children[1].value, [12, 13]);
}

#[test]
fn generate_tree_groups_parentheses() {
    let n = generate_tree(b"a(b(c))d");
    assert_eq!(n.value, [0, 8]);
    assert_eq!(n.children.len(), 1);
    assert_eq!(n.children[0].value, [1, 7]);
    assert_eq!(n.children[0].children.len(), 1);
    assert_eq!(n.children[0].children[0].value, [3, 6]);
}

#[test]
fn generate_tree_sibling_groups() {
    let n = generate_tree(b"(a)(b)");
    assert_eq!(n.value, [0, 6]);
    assert_eq!(n.children.len(), 2);
    assert_eq!(n.children[0].value, [0, 3]);
    assert_eq!(n.children[1].value, [3, 6]);
}
