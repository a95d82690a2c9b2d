//! The expression compiler: walks a range tree over a formula and emits
//! the evaluable expression tree it denotes — variables by their stable
//! index, constants by their literal text, operators and functions as
//! recursively owned nodes.

use vstd::prelude::*;

use crate::parser::find_index;
use crate::parser::find_min_local_scope;
use crate::parser::function_in_scope;
use crate::parser::has_shape;
use crate::parser::lemma_has_shape_unique;
use crate::parser::lemma_shapes_of_index;
use crate::parser::lemma_shapes_of_len;
use crate::parser::shape_of;
use crate::parser::is_prefix_ok;
use crate::parser::pat_cos;
use crate::parser::pat_ln;
use crate::parser::pat_log;
use crate::parser::pat_sin;
use crate::parser::prefix_ok;
use crate::parser::spec_find_index;
use crate::parser::spec_function_in_scope;
use crate::parser::spec_min_local_scope;
use crate::parser::Node;
use crate::parser::TreeShape;
use crate::parser::OP_DIV;
use crate::parser::OP_EQ;
use crate::parser::OP_MINUS;
use crate::parser::OP_MUL;
use crate::parser::OP_PLUS;
use crate::parser::OP_POW;

verus! {

broadcast use vstd::std_specs::vec::axiom_vec_index_decreases, vstd::seq::axiom_seq_index_decreases;

/// A compiled expression: a closed tree of the fixed operator and function
/// set, each node exclusively owning its operands. A variable carries its
/// stable index into the variable store; a constant carries its literal
/// text, to be read as a number by whoever evaluates the tree.
#[derive(Debug)]
pub enum Expr {
    Variable { id: usize },
    Constant { literal: Vec<u8> },
    Sum { left: Box<Expr>, right: Box<Expr> },
    Sub { left: Box<Expr>, right: Box<Expr> },
    Mul { left: Box<Expr>, right: Box<Expr> },
    Div { left: Box<Expr>, right: Box<Expr> },
    Pow { base: Box<Expr>, power: Box<Expr> },
    Log { base: Box<Expr>, input: Box<Expr> },
    Ln { input: Box<Expr> },
    Sine { input: Box<Expr> },
    Cosine { input: Box<Expr> },
}

/// Why a range tree cannot be compiled.
#[derive(Clone, Copy, Debug, PartialEq, Eq, Structural)]
pub enum CompileError {
    /// A node's range does not lie inside the formula.
    BadRange,
    /// A node's substring closes parentheses it never opened.
    Unbalanced,
    /// An operator or two-argument function node lacks its two children.
    MissingOperand,
}

/// The variable store's name table: index `i` of the sequence is the
/// stable id of the variable named `names[i]`, in first-declaration order.
pub struct FunctionManager {
    pub names: Vec<Vec<u8>>,
}

/// The index the name `name` resolves to when scanning `names[..j)`: the
/// highest index carrying the name, a later declaration shadowing an
/// earlier one.
pub open spec fn lookup_scan(names: Seq<Vec<u8>>, name: Seq<u8>, j: int) -> Option<int>
    decreases j,
{
    if j <= 0 {
        None
    } else if names[j - 1]@ == name {
        Some(j - 1)
    } else {
        lookup_scan(names, name, j - 1)
    }
}

pub open spec fn spec_lookup(names: Seq<Vec<u8>>, name: Seq<u8>) -> Option<int> {
    lookup_scan(names, name, names.len() as int)
}

/// The first error the compiler's walk of shape `t` runs into, if any.
pub open spec fn comp_err(f: Seq<u8>, names: Seq<Vec<u8>>, t: TreeShape) -> Option<CompileError>
    decreases t, 1int,
{
    if !(0 <= t.lo <= t.hi <= f.len()) {
        Some(CompileError::BadRange)
    } else {
        let nf = f.subrange(t.lo, t.hi);
        if !prefix_ok(nf) {
            Some(CompileError::Unbalanced)
        } else {
            let ms = spec_min_local_scope(nf);
            if t.kids.len() == 1 {
                comp_err(f, names, t.kids[0])
            } else {
                if spec_find_index(nf, OP_MINUS, ms) is Some || spec_find_index(nf, OP_EQ, ms)
                    is Some {
                    comp_err2(f, names, t)
                } else if spec_find_index(nf, OP_PLUS, ms) is Some {
                    comp_err2(f, names, t)
                } else if spec_find_index(nf, OP_DIV, ms) is Some {
                    comp_err2(f, names, t)
                } else if spec_find_index(nf, OP_MUL, ms) is Some {
                    comp_err2(f, names, t)
                } else if spec_find_index(nf, OP_POW, ms) is Some {
                    comp_err2(f, names, t)
                } else if spec_function_in_scope(nf, pat_log(), ms) is Some {
                    comp_err2(f, names, t)
                } else {
                    None
                }
            }
        }
    }
}

/// The first error of a binary node: a missing child, or the first error
/// of the left then the right subtree.
pub open spec fn comp_err2(f: Seq<u8>, names: Seq<Vec<u8>>, t: TreeShape) -> Option<CompileError>
    decreases t, 0int,
{
    if t.kids.len() < 2 {
        Some(CompileError::MissingOperand)
    } else {
        match comp_err(f, names, t.kids[0]) {
            Some(c) => Some(c),
            None => comp_err(f, names, t.kids[1]),
        }
    }
}

/// Whether `e` is the expression the compiler emits for the shape `t`:
/// the node kind is decided by the operator or function name found in the
/// node's substring at its minimum scope, a leaf resolving to a declared
/// variable's index or else to a constant holding the literal text.
pub open spec fn comp_ok(f: Seq<u8>, names: Seq<Vec<u8>>, t: TreeShape, e: Expr) -> bool
    decreases t,
{
    &&& 0 <= t.lo <= t.hi <= f.len()
    &&& {
        let nf = f.subrange(t.lo, t.hi);
        &&& prefix_ok(nf)
        &&& {
            let ms = spec_min_local_scope(nf);
            if t.kids.len() == 1 {
                if spec_function_in_scope(nf, pat_ln(), ms) is Some {
                    e matches Expr::Ln { input } && comp_ok(f, names, t.kids[0], *input)
                } else if spec_function_in_scope(nf, pat_sin(), ms) is Some {
                    e matches Expr::Sine { input } && comp_ok(f, names, t.kids[0], *input)
                } else if spec_function_in_scope(nf, pat_cos(), ms) is Some {
                    e matches Expr::Cosine { input } && comp_ok(f, names, t.kids[0], *input)
                } else {
                    comp_ok(f, names, t.kids[0], e)
                }
            } else if spec_find_index(nf, OP_MINUS, ms) is Some || spec_find_index(nf, OP_EQ, ms)
                is Some {
                &&& t.kids.len() >= 2
                &&& e matches Expr::Sub { left, right } && comp_ok(f, names, t.kids[0], *left)
                    && comp_ok(f, names, t.kids[1], *right)
            } else if spec_find_index(nf, OP_PLUS, ms) is Some {
                &&& t.kids.len() >= 2
                &&& e matches Expr::Sum { left, right } && comp_ok(f, names, t.kids[0], *left)
                    && comp_ok(f, names, t.kids[1], *right)
            } else if spec_find_index(nf, OP_DIV, ms) is Some {
                &&& t.kids.len() >= 2
                &&& e matches Expr::Div { left, right } && comp_ok(f, names, t.kids[0], *left)
                    && comp_ok(f, names, t.kids[1], *right)
            } else if spec_find_index(nf, OP_MUL, ms) is Some {
                &&& t.kids.len() >= 2
                &&& e matches Expr::Mul { left, right } && comp_ok(f, names, t.kids[0], *left)
                    && comp_ok(f, names, t.kids[1], *right)
            } else if spec_find_index(nf, OP_POW, ms) is Some {
                &&& t.kids.len() >= 2
                &&& e matches Expr::Pow { base, power } && comp_ok(f, names, t.kids[0], *base)
                    && comp_ok(f, names, t.kids[1], *power)
            } else if spec_function_in_scope(nf, pat_log(), ms) is Some {
                &&& t.kids.len() >= 2
                &&& e matches Expr::Log { base, input } && comp_ok(f, names, t.kids[0], *base)
                    && comp_ok(f, names, t.kids[1], *input)
            } else {
                match spec_lookup(names, nf) {
                    Some(id) => e matches Expr::Variable { id: vid } && vid as int == id,
                    None => e matches Expr::Constant { literal } && literal@ == nf,
                }
            }
        }
    }
}

/// What compiling shape `t` returns: the error `comp_err` names, else an
/// expression `comp_ok` accepts.
pub open spec fn compiled(
    f: Seq<u8>,
    names: Seq<Vec<u8>>,
    t: TreeShape,
    r: Result<Expr, CompileError>,
) -> bool {
    match comp_err(f, names, t) {
        Some(c) => r == Err::<Expr, CompileError>(c),
        None => match r {
            Result::Ok(e) => comp_ok(f, names, t, e),
            Result::Err(_) => false,
        },
    }
}


/// The leftward scan finds nothing when the byte is absent.
proof fn lemma_find_scan_absent(f: Seq<u8>, op: u8, ls: int, i: int)
    requires
        forall|k: int| 0 <= k < f.len() ==> f[k] != op,
    ensures
        crate::parser::find_scan(f, op, ls, i) is None,
    decreases f.len() - i,
{
    if 0 <= i < f.len() {
        lemma_find_scan_absent(f, op, ls, i + 1);
    }
}

proof fn lemma_func_scan_absent(f: Seq<u8>, pat: Seq<u8>, cs: int, i: int)
    requires
        forall|k: int|
            0 <= k && k + pat.len() <= f.len() ==> #[trigger] f.subrange(k, k + pat.len() as int)
                != pat,
    ensures
        crate::parser::func_scan(f, pat, cs, i) is None,
    decreases f.len() + 1 - i,
{
    if !(i < 0 || i + pat.len() > f.len()) {
        assert(f.subrange(i, i + pat.len() as int) != pat);
        lemma_func_scan_absent(f, pat, cs, i + 1);
    }
}

/// Round trip of a bare name through the compiler: a leaf spanning a
/// whole plain token that is a declared variable compiles to the
/// `Variable` node carrying that variable's stable index — the value the
/// evaluator then reads back from the store's slot of that index.
pub proof fn lemma_leaf_compiles_to_variable(
    f: Seq<u8>,
    names: Seq<Vec<u8>>,
    t: TreeShape,
    e: Expr,
)
    requires
        f.len() > 0,
        crate::parser::plain_token(f),
        t == (TreeShape { lo: 0, hi: f.len() as int, kids: Seq::<TreeShape>::empty() }),
        spec_lookup(names, f) is Some,
        comp_ok(f, names, t, e),
    ensures
        e matches Expr::Variable { id } && Some(id as int) == spec_lookup(names, f),
{
    lemma_leaf_compiled_shape(f, names, t, e);
}

/// Round trip of a bare literal through the compiler: a leaf spanning a
/// whole plain token that is not a declared variable compiles to the
/// `Constant` node carrying exactly that literal text — the value the
/// evaluator then reads as a number.
pub proof fn lemma_leaf_compiles_to_constant(
    f: Seq<u8>,
    names: Seq<Vec<u8>>,
    t: TreeShape,
    e: Expr,
)
    requires
        f.len() > 0,
        crate::parser::plain_token(f),
        t == (TreeShape { lo: 0, hi: f.len() as int, kids: Seq::<TreeShape>::empty() }),
        spec_lookup(names, f) is None,
        comp_ok(f, names, t, e),
    ensures
        e matches Expr::Constant { literal } && literal@ == f,
{
    lemma_leaf_compiled_shape(f, names, t, e);
}

/// A leaf over a plain token compiles straight to the outcome of the
/// store lookup: no operator, parenthesis or function name is in it.
proof fn lemma_leaf_compiled_shape(f: Seq<u8>, names: Seq<Vec<u8>>, t: TreeShape, e: Expr)
    requires
        f.len() > 0,
        crate::parser::plain_token(f),
        t == (TreeShape { lo: 0, hi: f.len() as int, kids: Seq::<TreeShape>::empty() }),
        comp_ok(f, names, t, e),
    ensures
        match spec_lookup(names, f) {
            Some(id) => e matches Expr::Variable { id: vid } && vid as int == id,
            None => e matches Expr::Constant { literal } && literal@ == f,
        },
{
    let nf = f.subrange(t.lo, t.hi);
    assert(nf =~= f);
    let ms = spec_min_local_scope(nf);
    lemma_find_scan_absent(f, OP_MINUS, ms, 0);
    lemma_find_scan_absent(f, OP_EQ, ms, 0);
    lemma_find_scan_absent(f, OP_PLUS, ms, 0);
    lemma_find_scan_absent(f, OP_DIV, ms, 0);
    lemma_find_scan_absent(f, OP_MUL, ms, 0);
    lemma_find_scan_absent(f, OP_POW, ms, 0);
    lemma_func_scan_absent(f, pat_log(), ms, 0);
}

/// Whether two byte strings hold the same bytes.
fn bytes_eq(a: &[u8], b: &[u8]) -> (r: bool)
    ensures
        r == (a@ == b@),
{
    if a.len() != b.len() {
        assert(a@ != b@);
        return false;
    }
    let n = a.len();
    let mut i: usize = 0;
    while i < n
        invariant
            i <= n,
            n == a@.len() == b@.len(),
            forall|k: int| 0 <= k < i ==> a@[k] == b@[k],
        decreases n - i,
    {
        if *vstd::slice::slice_index_get(a, i) != *vstd::slice::slice_index_get(b, i) {
            assert(a@[i as int] != b@[i as int]);
            return false;
        }
        i = i + 1;
    }
    assert(a@ =~= b@);
    true
}

impl FunctionManager {
    /// A name table over the given declarations, in order: the variable
    /// declared `i`-th gets index `i`.
    pub fn new(names: Vec<Vec<u8>>) -> (r: FunctionManager)
        ensures
            r.names == names,
    {
        FunctionManager { names }
    }

    /// The stable index of `name`, the latest declaration winning, or
    /// `None` when the name was never declared.
    pub fn get_id(&self, name: &[u8]) -> (r: Option<usize>)
        ensures
            match r {
                Some(id) => spec_lookup(self.names@, name@) == Some(id as int) && id
                    < self.names@.len(),
                None => spec_lookup(self.names@, name@) is None,
            },
    {
        let mut j: usize = self.names.len();
        while j > 0
            invariant
                j <= self.names@.len(),
                spec_lookup(self.names@, name@) == lookup_scan(self.names@, name@, j as int),
            decreases j,
        {
            let i = j - 1;
            if bytes_eq(self.names[i].as_slice(), name) {
                return Some(i);
            }
            j = i;
        }
        None
    }

    /// Compiles the range tree `node` over `formula` into an expression
    /// tree: exactly the result `compiled` describes.
    pub fn generate_func(&self, formula: &[u8], node: &Node<[usize; 2]>) -> (r: Result<
        Expr,
        CompileError,
    >)
        ensures
            compiled(formula@, self.names@, shape_of(*node), r),
            forall|t: TreeShape|
                has_shape(*node, t) ==> compiled(formula@, self.names@, t, r),
    {
        let r = self.recursive_parse(formula, node);
        proof {
            assert forall|t: TreeShape|
                has_shape(*node, t) implies compiled(formula@, self.names@, t, r) by {
                lemma_has_shape_unique(*node, t);
            }
        }
        r
    }

    #[verifier::rlimit(100)]
    fn recursive_parse(&self, formula: &[u8], node: &Node<[usize; 2]>) -> (r: Result<
        Expr,
        CompileError,
    >)
        ensures
            compiled(formula@, self.names@, shape_of(*node), r),
        decreases *node,
    {
        let ghost fv = formula@;
        proof {
            lemma_shapes_of_len(node.children@);
            if node.children@.len() > 0 {
                lemma_shapes_of_index(node.children@, 0);
            }
            if node.children@.len() > 1 {
                lemma_shapes_of_index(node.children@, 1);
            }
        }
        let start_index = node.value[0];
        let end_index = node.value[1];
        if !(start_index <= end_index && end_index <= formula.len()) {
            return Err(CompileError::BadRange);
        }
        let node_formula = vstd::slice::slice_subrange(formula, start_index, end_index);
        if !is_prefix_ok(node_formula) {
            return Err(CompileError::Unbalanced);
        }
        let min_local_scope = find_min_local_scope(node_formula);
        if node.children.len() == 1 {
            let nb = crate::parser::ln_bytes();
            if function_in_scope(node_formula, nb.as_slice(), min_local_scope).is_some() {
                let inner = match self.recursive_parse(formula, &node.children[0]) {
                    Ok(e) => e,
                    Err(c) => {
                        return Err(c);
                    },
                };
                return Ok(Expr::Ln { input: Box::new(inner) });
            }
            let sb = crate::parser::sin_bytes();
            if function_in_scope(node_formula, sb.as_slice(), min_local_scope).is_some() {
                let inner = match self.recursive_parse(formula, &node.children[0]) {
                    Ok(e) => e,
                    Err(c) => {
                        return Err(c);
                    },
                };
                return Ok(Expr::Sine { input: Box::new(inner) });
            }
            let cb = crate::parser::cos_bytes();
            if function_in_scope(node_formula, cb.as_slice(), min_local_scope).is_some() {
                let inner = match self.recursive_parse(formula, &node.children[0]) {
                    Ok(e) => e,
                    Err(c) => {
                        return Err(c);
                    },
                };
                return Ok(Expr::Cosine { input: Box::new(inner) });
            }
            return self.recursive_parse(formula, &node.children[0]);
        }
        let minus = find_index(node_formula, OP_MINUS, min_local_scope).is_some() || find_index(
            node_formula,
            OP_EQ,
            min_local_scope,
        ).is_some();
        if minus {
            if node.children.len() < 2 {
                proof {
                    let t = shape_of(*node);
                    assert(t.kids.len() == node.children@.len());
                    assert(t.kids.len() != 1);
                    assert(0 <= t.lo <= t.hi <= fv.len());
                    let nf = fv.subrange(t.lo, t.hi);
                    assert(nf == node_formula@);
                    assert(prefix_ok(nf));
                    let ms = spec_min_local_scope(nf);
                    assert(spec_find_index(nf, OP_MINUS, ms) is Some || spec_find_index(nf, OP_EQ, ms) is Some);
                    assert(comp_err2(fv, self.names@, t) == Some(CompileError::MissingOperand));
                    assert(comp_err(fv, self.names@, t) == Some(CompileError::MissingOperand));
                }
                return Err(CompileError::MissingOperand);
            }
            let l = match self.recursive_parse(formula, &node.children[0]) {
                Ok(e) => e,
                Err(c) => {
                    return Err(c);
                },
            };
            let r2 = match self.recursive_parse(formula, &node.children[1]) {
                Ok(e) => e,
                Err(c) => {
                    return Err(c);
                },
            };
            return Ok(Expr::Sub { left: Box::new(l), right: Box::new(r2) });
        }
        if find_index(node_formula, OP_PLUS, min_local_scope).is_some() {
            if node.children.len() < 2 {
                return Err(CompileError::MissingOperand);
            }
            let l = match self.recursive_parse(formula, &node.children[0]) {
                Ok(e) => e,
                Err(c) => {
                    return Err(c);
                },
            };
            let r2 = match self.recursive_parse(formula, &node.children[1]) {
                Ok(e) => e,
                Err(c) => {
                    return Err(c);
                },
            };
            return Ok(Expr::Sum { left: Box::new(l), right: Box::new(r2) });
        }
        if find_index(node_formula, OP_DIV, min_local_scope).is_some() {
            if node.children.len() < 2 {
                return Err(CompileError::MissingOperand);
            }
            let l = match self.recursive_parse(formula, &node.children[0]) {
                Ok(e) => e,
                Err(c) => {
                    return Err(c);
                },
            };
            let r2 = match self.recursive_parse(formula, &node.children[1]) {
                Ok(e) => e,
                Err(c) => {
                    return Err(c);
                },
            };
            return Ok(Expr::Div { left: Box::new(l), right: Box::new(r2) });
        }
        if find_index(node_formula, OP_MUL, min_local_scope).is_some() {
            if node.children.len() < 2 {
                return Err(CompileError::MissingOperand);
            }
            let l = match self.recursive_parse(formula, &node.children[0]) {
                Ok(e) => e,
                Err(c) => {
                    return Err(c);
                },
            };
            let r2 = match self.recursive_parse(formula, &node.children[1]) {
                Ok(e) => e,
                Err(c) => {
                    return Err(c);
                },
            };
            return Ok(Expr::Mul { left: Box::new(l), right: Box::new(r2) });
        }
        if find_index(node_formula, OP_POW, min_local_scope).is_some() {
            if node.children.len() < 2 {
                return Err(CompileError::MissingOperand);
            }
            let l = match self.recursive_parse(formula, &node.children[0]) {
                Ok(e) => e,
                Err(c) => {
                    return Err(c);
                },
            };
            let r2 = match self.recursive_parse(formula, &node.children[1]) {
                Ok(e) => e,
                Err(c) => {
                    return Err(c);
                },
            };
            return Ok(Expr::Pow { base: Box::new(l), power: Box::new(r2) });
        }
        let lb = crate::parser::log_bytes();
        if function_in_scope(node_formula, lb.as_slice(), min_local_scope).is_some() {
            if node.children.len() < 2 {
                return Err(CompileError::MissingOperand);
            }
            let l = match self.recursive_parse(formula, &node.children[0]) {
                Ok(e) => e,
                Err(c) => {
                    return Err(c);
                },
            };
            let r2 = match self.recursive_parse(formula, &node.children[1]) {
                Ok(e) => e,
                Err(c) => {
                    return Err(c);
                },
            };
            return Ok(Expr::Log { base: Box::new(l), input: Box::new(r2) });
        }
        match self.get_id(node_formula) {
            Some(id) => Ok(Expr::Variable { id }),
            None => Ok(
                Expr::Constant { literal: vstd::slice::slice_to_vec(node_formula) },
            ),
        }
    }
}

} // verus!
