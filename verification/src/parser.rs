//! The range-tree builder: splits a formula byte string into a tree of
//! `[start, end)` ranges honoring operator precedence, parenthesis scope
//! and function-call syntax, without a separate tokenizing pass.

use vstd::prelude::*;

verus! {

broadcast use vstd::std_specs::vec::axiom_vec_index_decreases, vstd::seq::axiom_seq_index_decreases, vstd::seq::axiom_seq_subrange_decreases, vstd::std_specs::vec::axiom_vec_decreases_to_view;

/// Byte constants for the characters the grammar gives a meaning.
pub const LPAREN: u8 = 40;

pub const RPAREN: u8 = 41;

pub const COMMA: u8 = 44;

pub const OP_EQ: u8 = 61;

pub const OP_MINUS: u8 = 45;

pub const OP_PLUS: u8 = 43;

pub const OP_DIV: u8 = 47;

pub const OP_MUL: u8 = 42;

pub const OP_POW: u8 = 94;

/// A node of a range tree. The payload of a parse node is a half-open
/// `[start, end)` byte-offset pair into the original formula string;
/// children are stored in source order.
#[derive(Debug)]
pub struct Node<T> {
    pub value: T,
    pub children: Vec<Node<T>>,
}

/// The shape of a range tree: the mathematical value a `Node<[usize; 2]>`
/// stands for, used by all contracts about trees.
#[verifier::ext_equal]
pub ghost struct TreeShape {
    pub lo: int,
    pub hi: int,
    pub kids: Seq<TreeShape>,
}

/// Whether a concrete range-tree node denotes the shape `t`: same range,
/// and children matching `t`'s children pointwise.
pub open spec fn has_shape(n: Node<[usize; 2]>, t: TreeShape) -> bool
    decreases t,
{
    &&& n.value[0] == t.lo
    &&& n.value[1] == t.hi
    &&& n.children@.len() == t.kids.len()
    &&& forall|i: int| 0 <= i < t.kids.len() ==> has_shape(n.children[i], #[trigger] t.kids[i])
}

/// The canonical shape of a node.
pub open spec fn shape_of(n: Node<[usize; 2]>) -> TreeShape
    decreases n, 0int,
{
    TreeShape {
        lo: n.value[0] as int,
        hi: n.value[1] as int,
        kids: shapes_of(n.children@),
    }
}

/// The canonical shapes of a sequence of nodes, in order.
pub open spec fn shapes_of(ns: Seq<Node<[usize; 2]>>) -> Seq<TreeShape>
    decreases ns, 0int,
{
    if ns.len() == 0 {
        Seq::empty()
    } else {
        seq![shape_of(ns[0])] + shapes_of(ns.subrange(1, ns.len() as int))
    }
}

pub proof fn lemma_shapes_of_index(ns: Seq<Node<[usize; 2]>>, i: int)
    requires
        0 <= i < ns.len(),
    ensures
        shapes_of(ns).len() == ns.len(),
        shapes_of(ns)[i] == shape_of(ns[i]),
    decreases ns.len(),
{
    lemma_shapes_of_len(ns);
    if i > 0 {
        lemma_shapes_of_index(ns.subrange(1, ns.len() as int), i - 1);
        assert(ns.subrange(1, ns.len() as int)[i - 1] == ns[i]);
    }
}

pub proof fn lemma_shapes_of_len(ns: Seq<Node<[usize; 2]>>)
    ensures
        shapes_of(ns).len() == ns.len(),
    decreases ns.len(),
{
    if ns.len() > 0 {
        lemma_shapes_of_len(ns.subrange(1, ns.len() as int));
    }
}

pub proof fn lemma_shapes_of_push(ns: Seq<Node<[usize; 2]>>, n: Node<[usize; 2]>)
    ensures
        shapes_of(ns.push(n)) =~= shapes_of(ns) + seq![shape_of(n)],
{
    lemma_shapes_of_len(ns);
    lemma_shapes_of_len(ns.push(n));
    assert forall|i: int| 0 <= i < ns.len() + 1 implies shapes_of(ns.push(n))[i] == (shapes_of(ns)
        + seq![shape_of(n)])[i] by {
        lemma_shapes_of_index(ns.push(n), i);
        if i < ns.len() {
            lemma_shapes_of_index(ns, i);
            assert(ns.push(n)[i] == ns[i]);
        } else {
            assert(ns.push(n)[i] == n);
        }
    }
}

/// A node matches exactly one shape: its canonical one.
pub proof fn lemma_has_shape_unique(n: Node<[usize; 2]>, t: TreeShape)
    requires
        has_shape(n, t),
    ensures
        t == shape_of(n),
    decreases t,
{
    lemma_shapes_of_len(n.children@);
    assert forall|i: int| 0 <= i < t.kids.len() implies t.kids[i] == shapes_of(n.children@)[i] by {
        lemma_shapes_of_index(n.children@, i);
        lemma_has_shape_unique(n.children[i], t.kids[i]);
    }
    assert(t.kids =~= shapes_of(n.children@));
    assert(t =~= shape_of(n));
}

impl<T> Node<T> {
    pub fn new(value: T) -> (n: Node<T>)
        ensures
            n.value == value,
            n.children@ =~= Seq::<Node<T>>::empty(),
    {
        Node { value, children: Vec::new() }
    }

    pub fn set_value(&mut self, value: T)
        ensures
            final(self).value == value,
            final(self).children == old(self).children,
    {
        self.value = value;
    }
}

/// The tokenless parser: its functions build a range tree straight from a
/// formula string, tracking parenthesis depth instead of tokenizing.
pub struct Parser;

/// Why a formula cannot be turned into a range tree.
#[derive(Clone, Copy, Debug, PartialEq, Eq, Structural)]
pub enum ParseError {
    /// A (sub)formula of length zero was reached.
    EmptyFormula,
    /// The parentheses of the formula do not balance.
    Unbalanced,
    /// A function name is not followed by a well-delimited argument list.
    BadFunctionCall,
}

/// The number of occurrences of byte `b` in `f[i..j)`.
pub open spec fn cnt(f: Seq<u8>, b: u8, i: int, j: int) -> int
    decreases j - i,
{
    if i >= j {
        0
    } else {
        (if 0 <= i < f.len() && f[i] == b {
            1int
        } else {
            0int
        }) + cnt(f, b, i + 1, j)
    }
}

pub proof fn lemma_cnt_snoc(f: Seq<u8>, b: u8, i: int, j: int)
    requires
        i <= j,
    ensures
        cnt(f, b, i, j + 1) == cnt(f, b, i, j) + (if 0 <= j < f.len() && f[j] == b {
            1int
        } else {
            0int
        }),
    decreases j - i,
{
    if i < j {
        lemma_cnt_snoc(f, b, i + 1, j);
    } else {
        assert(cnt(f, b, i, j) == 0);
        assert(cnt(f, b, j + 1, j + 1) == 0);
    }
}

/// Every prefix of `f` contains at least as many `(` as `)`.
pub open spec fn prefix_ok(f: Seq<u8>) -> bool {
    forall|k: int| 0 <= k <= f.len() ==> cnt(f, LPAREN, 0, k) >= cnt(f, RPAREN, 0, k)
}

/// The parentheses of `f` balance: no prefix closes more than it has
/// opened, and the whole string closes everything it opens.
pub open spec fn balanced(f: Seq<u8>) -> bool {
    prefix_ok(f) && cnt(f, LPAREN, 0, f.len() as int) == cnt(f, RPAREN, 0, f.len() as int)
}

/// The byte of `f` at index `i`.
pub(crate) fn at(f: &[u8], i: usize) -> (r: u8)
    requires
        i < f@.len(),
    ensures
        r == f@[i as int],
{
    *vstd::slice::slice_index_get(f, i)
}

/// Whether the parentheses of `f` balance.
pub fn is_balanced(f: &[u8]) -> (r: bool)
    ensures
        r == balanced(f@),
{
    let mut i: usize = 0;
    let mut o: usize = 0;
    let mut c: usize = 0;
    while i < f.len()
        invariant
            i <= f@.len(),
            o == cnt(f@, LPAREN, 0, i as int),
            c == cnt(f@, RPAREN, 0, i as int),
            o <= i,
            c <= i,
            forall|k: int| 0 <= k <= i ==> cnt(f@, LPAREN, 0, k) >= cnt(f@, RPAREN, 0, k),
        decreases f@.len() - i,
    {
        let ch = at(f, i);
        proof {
            lemma_cnt_snoc(f@, LPAREN, 0, i as int);
            lemma_cnt_snoc(f@, RPAREN, 0, i as int);
        }
        if ch == LPAREN {
            o = o + 1;
        } else if ch == RPAREN {
            c = c + 1;
        }
        i = i + 1;
        if c > o {
            assert(cnt(f@, LPAREN, 0, i as int) < cnt(f@, RPAREN, 0, i as int));
            return false;
        }
    }
    o == c
}

/// Whether no prefix of `f` closes more parentheses than it has opened.
pub fn is_prefix_ok(f: &[u8]) -> (r: bool)
    ensures
        r == prefix_ok(f@),
{
    let mut i: usize = 0;
    let mut o: usize = 0;
    let mut c: usize = 0;
    while i < f.len()
        invariant
            i <= f@.len(),
            o == cnt(f@, LPAREN, 0, i as int),
            c == cnt(f@, RPAREN, 0, i as int),
            o <= i,
            c <= i,
            forall|k: int| 0 <= k <= i ==> cnt(f@, LPAREN, 0, k) >= cnt(f@, RPAREN, 0, k),
        decreases f@.len() - i,
    {
        let ch = at(f, i);
        proof {
            lemma_cnt_snoc(f@, LPAREN, 0, i as int);
            lemma_cnt_snoc(f@, RPAREN, 0, i as int);
        }
        if ch == LPAREN {
            o = o + 1;
        } else if ch == RPAREN {
            c = c + 1;
        }
        i = i + 1;
        if c > o {
            assert(cnt(f@, LPAREN, 0, i as int) < cnt(f@, RPAREN, 0, i as int));
            return false;
        }
    }
    true
}

/// Scope of position `i` as seen from the right end: closing minus opening
/// parentheses in `f[i..)`, the byte at `i` included.
pub open spec fn srs(f: Seq<u8>, i: int) -> int {
    cnt(f, RPAREN, i, f.len() as int) - cnt(f, LPAREN, i, f.len() as int)
}

/// Right-to-left search below position `j` for the byte `op` standing at
/// right-scope `cs`; the result of `operator_in_scope` once `j` is `f.len()`.
pub open spec fn oper_scan(f: Seq<u8>, op: u8, cs: int, j: int) -> Option<int>
    decreases j,
{
    if j <= 0 {
        None
    } else if srs(f, j - 1) == cs && f[j - 1] == op {
        Some(j - 1)
    } else {
        oper_scan(f, op, cs, j - 1)
    }
}

pub open spec fn spec_oper_in_scope(f: Seq<u8>, op: u8, cs: int) -> Option<int> {
    oper_scan(f, op, cs, f.len() as int)
}

/// The rightmost position of `operator` whose scope, counted from the right
/// end of the formula, equals `current_scope`.
pub fn operator_in_scope(formula: &[u8], operator: u8, current_scope: usize) -> (r: Option<usize>)
    ensures
        match r {
            Some(i) => spec_oper_in_scope(formula@, operator, current_scope as int) == Some(
                i as int,
            ) && i < formula@.len(),
            None => spec_oper_in_scope(formula@, operator, current_scope as int) is None,
        },
{
    let ghost fv = formula@;
    let mut j: usize = formula.len();
    let mut o: usize = 0;
    let mut c: usize = 0;
    while j > 0
        invariant
            j <= fv.len(),
            o == cnt(fv, LPAREN, j as int, fv.len() as int),
            c == cnt(fv, RPAREN, j as int, fv.len() as int),
            o <= fv.len() - j,
            c <= fv.len() - j,
            oper_scan(fv, operator, current_scope as int, fv.len() as int) == oper_scan(
                fv,
                operator,
                current_scope as int,
                j as int,
            ),
        decreases j,
    {
        let i = j - 1;
        let ch = at(formula, i);
        if ch == RPAREN {
            c = c + 1;
        } else if ch == LPAREN {
            o = o + 1;
        }
        if c >= o && c - o == current_scope && ch == operator {
            return Some(i);
        }
        j = i;
    }
    None
}

/// Scope after the first `k` bytes of `f`: opening minus closing
/// parentheses in `f[0..k)`.
pub open spec fn sfl(f: Seq<u8>, k: int) -> int {
    cnt(f, LPAREN, 0, k) - cnt(f, RPAREN, 0, k)
}

/// Left-to-right search from position `i` for the pattern `pat` whose first
/// byte stands at left-scope `cs`; the result of `function_in_scope` once
/// `i` is `0`.
pub open spec fn func_scan(f: Seq<u8>, pat: Seq<u8>, cs: int, i: int) -> Option<int>
    decreases f.len() + 1 - i,
{
    if i < 0 || i + pat.len() > f.len() {
        None
    } else if sfl(f, i + 1) == cs && f.subrange(i, i + pat.len() as int) == pat {
        Some(i)
    } else {
        func_scan(f, pat, cs, i + 1)
    }
}

pub open spec fn spec_function_in_scope(f: Seq<u8>, pat: Seq<u8>, cs: int) -> Option<int> {
    func_scan(f, pat, cs, 0)
}

/// Whether `pat` occurs in `f` starting at position `i`.
pub(crate) fn starts_with_at(f: &[u8], i: usize, pat: &[u8]) -> (r: bool)
    requires
        i + pat@.len() <= f@.len(),
    ensures
        r == (f@.subrange(i as int, i + pat@.len()) == pat@),
{
    let n = f.len();
    let mut k: usize = 0;
    while k < pat.len()
        invariant
            k <= pat@.len(),
            i + pat@.len() <= f@.len(),
            forall|m: int| 0 <= m < k ==> f@[i + m] == pat@[m],
        decreases pat@.len() - k,
    {
        if at(f, i + k) != at(pat, k) {
            assert(f@.subrange(i as int, i + pat@.len())[k as int] != pat@[k as int]);
            return false;
        }
        k = k + 1;
    }
    assert(f@.subrange(i as int, i + pat@.len()) =~= pat@);
    true
}

/// The leftmost position where the byte string `function` occurs with its
/// first byte at left-scope `current_scope`.
pub fn function_in_scope(formula: &[u8], function: &[u8], current_scope: usize) -> (r: Option<
    usize,
>)
    requires
        function@.len() >= 1,
    ensures
        match r {
            Some(i) => spec_function_in_scope(formula@, function@, current_scope as int) == Some(
                i as int,
            ) && i + function@.len() <= formula@.len(),
            None => spec_function_in_scope(formula@, function@, current_scope as int) is None,
        },
{
    let ghost fv = formula@;
    let ghost pv = function@;
    if formula.len() < function.len() {
        return None;
    }
    let bound = formula.len() - function.len();
    let mut i: usize = 0;
    let mut o: usize = 0;
    let mut c: usize = 0;
    while i <= bound
        invariant
            i <= bound + 1,
            bound == fv.len() - pv.len(),
            o == cnt(fv, LPAREN, 0, i as int),
            c == cnt(fv, RPAREN, 0, i as int),
            o <= i,
            c <= i,
            func_scan(fv, pv, current_scope as int, 0) == func_scan(
                fv,
                pv,
                current_scope as int,
                i as int,
            ),
        decreases bound + 1 - i,
    {
        let ch = at(formula, i);
        proof {
            lemma_cnt_snoc(fv, LPAREN, 0, i as int);
            lemma_cnt_snoc(fv, RPAREN, 0, i as int);
        }
        if ch == LPAREN {
            o = o + 1;
        } else if ch == RPAREN {
            c = c + 1;
        }
        if o >= c && o - c == current_scope && starts_with_at(formula, i, function) {
            return Some(i);
        }
        i = i + 1;
    }
    None
}

/// Left-to-right search from position `i` for the byte `op` standing at
/// left-scope `ls`; the result of `find_index` once `i` is `0`.
pub open spec fn find_scan(f: Seq<u8>, op: u8, ls: int, i: int) -> Option<int>
    decreases f.len() - i,
{
    if i < 0 || i >= f.len() {
        None
    } else if f[i] == op && sfl(f, i + 1) == ls {
        Some(i)
    } else {
        find_scan(f, op, ls, i + 1)
    }
}

pub open spec fn spec_find_index(f: Seq<u8>, op: u8, ls: int) -> Option<int> {
    find_scan(f, op, ls, 0)
}

/// The leftmost position of `operation` standing at left-scope `local_scope`.
pub fn find_index(formula: &[u8], operation: u8, local_scope: usize) -> (r: Option<usize>)
    ensures
        match r {
            Some(i) => spec_find_index(formula@, operation, local_scope as int) == Some(i as int)
                && i < formula@.len(),
            None => spec_find_index(formula@, operation, local_scope as int) is None,
        },
{
    let ghost fv = formula@;
    let mut i: usize = 0;
    let mut o: usize = 0;
    let mut c: usize = 0;
    while i < formula.len()
        invariant
            i <= fv.len(),
            o == cnt(fv, LPAREN, 0, i as int),
            c == cnt(fv, RPAREN, 0, i as int),
            o <= i,
            c <= i,
            find_scan(fv, operation, local_scope as int, 0) == find_scan(
                fv,
                operation,
                local_scope as int,
                i as int,
            ),
        decreases fv.len() - i,
    {
        let ch = at(formula, i);
        proof {
            lemma_cnt_snoc(fv, LPAREN, 0, i as int);
            lemma_cnt_snoc(fv, RPAREN, 0, i as int);
        }
        if ch == LPAREN {
            o = o + 1;
        } else if ch == RPAREN {
            c = c + 1;
        }
        if ch == operation && o >= c && o - c == local_scope {
            return Some(i);
        }
        i = i + 1;
    }
    None
}

/// One fold step of the minimum-scope scan: position `i` is considered
/// unless it is the first one or follows an opening parenthesis, and the
/// scope *before* its byte is taken.
pub open spec fn mls_scan(f: Seq<u8>, i: int, cur: int) -> int
    decreases f.len() - i,
{
    if i < 0 || i >= f.len() {
        cur
    } else {
        let considered = i >= 1 && f[i - 1] != LPAREN;
        let next = if considered && sfl(f, i) < cur {
            sfl(f, i)
        } else {
            cur
        };
        mls_scan(f, i + 1, next)
    }
}

/// The minimum parenthesis scope occurring in `f`, `usize::MAX` when no
/// position is considered at all.
pub open spec fn spec_min_local_scope(f: Seq<u8>) -> int {
    mls_scan(f, 0, usize::MAX as int)
}

/// The minimum parenthesis nesting depth spanned by `formula`; operators
/// and functions are matched only at this depth.
pub fn find_min_local_scope(formula: &[u8]) -> (r: usize)
    requires
        prefix_ok(formula@),
    ensures
        r as int == spec_min_local_scope(formula@),
{
    let ghost fv = formula@;
    let mut i: usize = 0;
    let mut o: usize = 0;
    let mut c: usize = 0;
    let mut min_scope: usize = usize::MAX;
    let mut last = true;
    while i < formula.len()
        invariant
            i <= fv.len(),
            o == cnt(fv, LPAREN, 0, i as int),
            c == cnt(fv, RPAREN, 0, i as int),
            o <= i,
            c <= i,
            o >= c,
            last == (i == 0 || fv[i as int - 1] == LPAREN),
            prefix_ok(fv),
            mls_scan(fv, 0, usize::MAX as int) == mls_scan(fv, i as int, min_scope as int),
        decreases fv.len() - i,
    {
        let ch = at(formula, i);
        proof {
            lemma_cnt_snoc(fv, LPAREN, 0, i as int);
            lemma_cnt_snoc(fv, RPAREN, 0, i as int);
            assert(cnt(fv, LPAREN, 0, i + 1) >= cnt(fv, RPAREN, 0, i + 1));
        }
        if !last {
            let scope = o - c;
            if scope < min_scope {
                min_scope = scope;
            }
        }
        if ch == LPAREN {
            o = o + 1;
            last = true;
        } else {
            last = false;
            if ch == RPAREN {
                c = c + 1;
            }
        }
        i = i + 1;
    }
    min_scope
}

/// State of the operator-tier search: found flag, best (rightmost) index,
/// priority of the best find, and whether the search has stopped because a
/// strictly higher tier was reached.
pub open spec fn pick_step(f: Seq<u8>, ms: int, op: u8, prio: int, st: (bool, int, int, bool)) -> (
    bool,
    int,
    int,
    bool,
) {
    if st.3 {
        st
    } else {
        match spec_oper_in_scope(f, op, ms) {
            None => st,
            Some(idx) => if prio > st.2 {
                (st.0, st.1, st.2, true)
            } else if idx > st.1 {
                (true, idx, prio, false)
            } else {
                st
            },
        }
    }
}

/// The split position chosen among the six operators, examined from the
/// lowest tier (`=`) to the highest (`^`): the rightmost occurrence within
/// the lowest tier that has one, an occurrence at position 0 never counting.
pub open spec fn spec_pick(f: Seq<u8>, ms: int) -> Option<int> {
    let s0 = (false, 0int, usize::MAX as int, false);
    let s1 = pick_step(f, ms, OP_EQ, 0, s0);
    let s2 = pick_step(f, ms, OP_MINUS, 1, s1);
    let s3 = pick_step(f, ms, OP_PLUS, 1, s2);
    let s4 = pick_step(f, ms, OP_DIV, 2, s3);
    let s5 = pick_step(f, ms, OP_MUL, 2, s4);
    let s6 = pick_step(f, ms, OP_POW, 3, s5);
    if s6.0 {
        Some(s6.1)
    } else {
        None
    }
}

/// Rightward extension of an operand: the first position after `j` (both
/// counts starting as given) whose running parenthesis balance closes more
/// than it opens, or the full length.
pub open spec fn ext_right_from(f: Seq<u8>, j: int, o: int, c: int) -> int
    decreases f.len() - j,
{
    if j < 0 || j >= f.len() {
        f.len() as int
    } else {
        let o2 = o + if f[j] == LPAREN {
            1int
        } else {
            0int
        };
        let c2 = c + if f[j] == RPAREN {
            1int
        } else {
            0int
        };
        if c2 > o2 {
            j
        } else {
            ext_right_from(f, j + 1, o2, c2)
        }
    }
}

pub open spec fn ext_right(f: Seq<u8>, idx: int) -> int {
    ext_right_from(f, idx + 1, 0, 0)
}

/// Leftward extension of an operand: one past the last position below `j`
/// whose running balance (read right to left) opens more than it closes,
/// or zero.
pub open spec fn ext_left_from(f: Seq<u8>, j: int, o: int, c: int) -> int
    decreases j,
{
    if j <= 0 {
        0
    } else {
        let i = j - 1;
        let o2 = o + if 0 <= i < f.len() && f[i] == LPAREN {
            1int
        } else {
            0int
        };
        let c2 = c + if 0 <= i < f.len() && f[i] == RPAREN {
            1int
        } else {
            0int
        };
        if o2 > c2 {
            j
        } else {
            ext_left_from(f, i, o2, c2)
        }
    }
}

pub open spec fn ext_left(f: Seq<u8>, idx: int) -> int {
    ext_left_from(f, idx, 0, 0)
}

/// The recognized function names, as byte strings.
pub open spec fn pat_log() -> Seq<u8> {
    seq![108u8, 111u8, 103u8]
}

pub open spec fn pat_ln() -> Seq<u8> {
    seq![108u8, 110u8]
}

pub open spec fn pat_sin() -> Seq<u8> {
    seq![115u8, 105u8, 110u8]
}

pub open spec fn pat_cos() -> Seq<u8> {
    seq![99u8, 111u8, 115u8]
}

/// A function pattern counts only when the formula is long enough to hold
/// the name, parentheses and an argument.
pub open spec fn try_pat(f: Seq<u8>, ms: int, pat: Seq<u8>) -> Option<int> {
    if f.len() > pat.len() + 2 {
        spec_function_in_scope(f, pat, ms)
    } else {
        None
    }
}

/// The first recognized function name found at minimum scope, tried in the
/// fixed order log, ln, sin, cos; the pair is (name length, position).
pub open spec fn func_hit(f: Seq<u8>, ms: int) -> Option<(int, int)> {
    match try_pat(f, ms, pat_log()) {
        Some(p) => Some((3int, p)),
        None => match try_pat(f, ms, pat_ln()) {
            Some(p) => Some((2int, p)),
            None => match try_pat(f, ms, pat_sin()) {
                Some(p) => Some((3int, p)),
                None => match try_pat(f, ms, pat_cos()) {
                    Some(p) => Some((3int, p)),
                    None => None,
                },
            },
        },
    }
}

/// The last position in `[start, j)` whose recorded scope differs from
/// `ss`, or the full length when none differs: the end of a function's
/// argument list.
pub open spec fn fend(scopes: Seq<usize>, ss: usize, start: int, j: int) -> int
    decreases j - start,
{
    if j <= start {
        scopes.len() as int
    } else if scopes[j - 1] != ss {
        j - 1
    } else {
        fend(scopes, ss, start, j - 1)
    }
}

/// A slice is a leaf when it holds no parenthesis and never dips into a
/// deeper scope than its first position.
pub open spec fn leaf_ok(f: Seq<u8>, scopes: Seq<usize>) -> bool {
    forall|i: int|
        0 <= i < f.len() ==> f[i] != LPAREN && f[i] != RPAREN && scopes[i] <= scopes[0]
}

/// The first comma at or after position `i`.
pub open spec fn first_comma_from(v: Seq<u8>, i: int) -> Option<int>
    decreases v.len() - i,
{
    if i < 0 || i >= v.len() {
        None
    } else if v[i] == COMMA {
        Some(i)
    } else {
        first_comma_from(v, i + 1)
    }
}

pub open spec fn first_comma(v: Seq<u8>) -> Option<int> {
    first_comma_from(v, 0)
}

/// What `recursive_generate` appends to its parent node for the slice `f`
/// whose precomputed scopes are `scopes` and whose absolute offset is
/// `refpt`: the children of the range tree of `f`, or the error on which
/// the build is abandoned.
///
/// The `Err` guards on index bounds are never reached on the inputs the
/// builder accepts; they keep the recursion well-founded.
pub open spec fn gen(refpt: int, f: Seq<u8>, scopes: Seq<usize>) -> Result<
    Seq<TreeShape>,
    ParseError,
>
    decreases f.len(), 0int,
{
    if f.len() == 0 {
        Err(ParseError::EmptyFormula)
    } else if !balanced(f) {
        Err(ParseError::Unbalanced)
    } else {
        let ms = spec_min_local_scope(f);
        match spec_pick(f, ms) {
            Some(idx) => {
                let e = ext_right(f, idx);
                let s = ext_left(f, idx);
                if !(0 <= s && s <= idx && idx < f.len() && idx + 1 <= e && e <= f.len()) {
                    Err(ParseError::Unbalanced)
                } else {
                    match gen(refpt + s, f.subrange(s, idx), scopes.subrange(s, idx)) {
                        Err(er) => Err(er),
                        Ok(lk) => match gen(
                            refpt + idx + 1,
                            f.subrange(idx + 1, e),
                            scopes.subrange(idx + 1, e),
                        ) {
                            Err(er) => Err(er),
                            Ok(rk) => Ok(
                                seq![
                                    TreeShape { lo: refpt + s, hi: refpt + idx, kids: lk },
                                    TreeShape { lo: refpt + idx + 1, hi: refpt + e, kids: rk },
                                ],
                            ),
                        },
                    }
                }
            },
            None => match func_hit(f, ms) {
                Some(hit) => {
                    let start = hit.1 + hit.0;
                    if !(2 <= start && start < f.len()) {
                        Err(ParseError::BadFunctionCall)
                    } else {
                        let e = fend(scopes, scopes[start], start, f.len() as int);
                        if !(start + 2 <= e && e <= f.len()) {
                            Err(ParseError::BadFunctionCall)
                        } else {
                            csv(
                                refpt + start + 1,
                                f.subrange(start + 1, e - 1),
                                scopes.subrange(start + 1, e - 1),
                            )
                        }
                    }
                },
                None => {
                    if leaf_ok(f, scopes) {
                        Ok(Seq::empty())
                    } else if f.len() > 2 {
                        match gen(
                            refpt + 1,
                            f.subrange(1, f.len() - 1),
                            scopes.subrange(1, f.len() - 1),
                        ) {
                            Err(er) => Err(er),
                            Ok(k) => Ok(
                                seq![
                                    TreeShape {
                                        lo: refpt + 1,
                                        hi: refpt + f.len() - 1,
                                        kids: k,
                                    },
                                ],
                            ),
                        }
                    } else {
                        Ok(Seq::empty())
                    }
                },
            },
        }
    }
}

/// What `parse_csv` appends for the comma-separated argument list
/// `values`: one child per argument, in source order.
pub open spec fn csv(refpt: int, values: Seq<u8>, scopes: Seq<usize>) -> Result<
    Seq<TreeShape>,
    ParseError,
>
    decreases values.len(), 1int,
{
    match first_comma(values) {
        None => match gen(refpt, values, scopes) {
            Err(e) => Err(e),
            Ok(k) => Ok(seq![TreeShape { lo: refpt, hi: refpt + values.len(), kids: k }]),
        },
        Some(pos) => {
            if !(0 <= pos && pos < values.len()) {
                Err(ParseError::BadFunctionCall)
            } else {
                match gen(refpt, values.subrange(0, pos), scopes.subrange(0, pos)) {
                    Err(e) => Err(e),
                    Ok(k) => match csv(
                        refpt + pos + 1,
                        values.subrange(pos + 1, values.len() as int),
                        scopes.subrange(pos + 1, scopes.len() as int),
                    ) {
                        Err(e) => Err(e),
                        Ok(rest) => Ok(
                            seq![TreeShape { lo: refpt, hi: refpt + pos, kids: k }] + rest,
                        ),
                    },
                }
            }
        },
    }
}

/// The children of `after` extend those of `before` by nodes matching the
/// shapes `ks`, in order.
pub open spec fn appended(
    before: Seq<Node<[usize; 2]>>,
    after: Seq<Node<[usize; 2]>>,
    ks: Seq<TreeShape>,
) -> bool {
    &&& after.len() == before.len() + ks.len()
    &&& after.subrange(0, before.len() as int) == before
    &&& forall|i: int| 0 <= i < ks.len() ==> has_shape(after[before.len() + i], #[trigger] ks[i])
}

/// State of the executable operator-tier search.
struct PickState {
    found: bool,
    max_index: usize,
    min_prio: usize,
    stopped: bool,
}

spec fn pview(st: PickState) -> (bool, int, int, bool) {
    (st.found, st.max_index as int, st.min_prio as int, st.stopped)
}

/// One tier-search step: consider operator `op` of priority `prio`.
fn step_op(formula: &[u8], ms: usize, op: u8, prio: usize, st: &mut PickState)
    requires
        old(st).found ==> old(st).max_index < formula@.len(),
    ensures
        pview(*final(st)) == pick_step(formula@, ms as int, op, prio as int, pview(*old(st))),
        final(st).found ==> final(st).max_index < formula@.len(),
{
    if st.stopped {
        return ;
    }
    match operator_in_scope(formula, op, ms) {
        Some(idx) => {
            if prio > st.min_prio {
                st.stopped = true;
            } else if idx > st.max_index {
                st.found = true;
                st.max_index = idx;
                st.min_prio = prio;
            }
        },
        None => {},
    }
}

/// Rightward operand extension, one past the region balanced around the
/// operator at `index`.
fn scan_end(formula: &[u8], index: usize) -> (e: usize)
    requires
        index < formula@.len(),
    ensures
        e as int == ext_right(formula@, index as int),
        index < e <= formula@.len(),
{
    let n = formula.len();
    let mut j: usize = index + 1;
    let mut o: usize = 0;
    let mut c: usize = 0;
    while j < n
        invariant
            index + 1 <= j <= formula@.len(),
            o <= j,
            c <= j,
            ext_right(formula@, index as int) == ext_right_from(
                formula@,
                j as int,
                o as int,
                c as int,
            ),
        decreases formula@.len() - j,
    {
        let ch = at(formula, j);
        if ch == LPAREN {
            o = o + 1;
        } else if ch == RPAREN {
            c = c + 1;
        }
        if c > o {
            return j;
        }
        j = j + 1;
    }
    formula.len()
}

/// Leftward operand extension, the start of the region balanced around the
/// operator at `index`.
fn scan_start(formula: &[u8], index: usize) -> (s: usize)
    requires
        index <= formula@.len(),
    ensures
        s as int == ext_left(formula@, index as int),
        s <= index,
{
    let mut j: usize = index;
    let mut o: usize = 0;
    let mut c: usize = 0;
    while j > 0
        invariant
            j <= index,
            o <= index - j,
            c <= index - j,
            ext_left(formula@, index as int) == ext_left_from(formula@, j as int, o as int, c as int),
        decreases j,
    {
        let i = j - 1;
        let ch = at(formula, i);
        if ch == LPAREN {
            o = o + 1;
        } else if ch == RPAREN {
            c = c + 1;
        }
        if o > c {
            return j;
        }
        j = i;
    }
    0
}

/// The end of a function's argument list: the last position whose recorded
/// scope differs from the scope right after the name, or the full length.
fn scan_func_end(scopes: &[usize], start: usize, start_scope: usize) -> (e: usize)
    requires
        start < scopes@.len(),
    ensures
        e as int == fend(scopes@, start_scope, start as int, scopes@.len() as int),
        start <= e <= scopes@.len(),
{
    let ghost sv = scopes@;
    let mut i: usize = start;
    let mut e: usize = scopes.len();
    while i < scopes.len()
        invariant
            start <= i <= sv.len(),
            start <= e <= sv.len(),
            e as int == fend(sv, start_scope, start as int, i as int),
        decreases sv.len() - i,
    {
        if *vstd::slice::slice_index_get(scopes, i) != start_scope {
            e = i;
        }
        i = i + 1;
    }
    e
}

/// Whether the slice is a leaf: no parentheses, and no position deeper
/// than the first.
fn leaf_check(formula: &[u8], scopes: &[usize]) -> (r: bool)
    requires
        scopes@.len() == formula@.len(),
        formula@.len() > 0,
    ensures
        r == leaf_ok(formula@, scopes@),
{
    let cs = *vstd::slice::slice_index_get(scopes, 0);
    let mut i: usize = 0;
    while i < formula.len()
        invariant
            i <= formula@.len(),
            cs == scopes@[0],
            forall|k: int|
                0 <= k < i ==> formula@[k] != LPAREN && formula@[k] != RPAREN && scopes@[k]
                    <= scopes@[0],
        decreases formula@.len() - i,
    {
        let ch = at(formula, i);
        let sc = *vstd::slice::slice_index_get(scopes, i);
        if ch == LPAREN || ch == RPAREN || cs < sc {
            assert(!(formula@[i as int] != LPAREN && formula@[i as int] != RPAREN && scopes@[i as int]
                <= scopes@[0]));
            return false;
        }
        i = i + 1;
    }
    true
}

/// The first comma of `values`.
fn find_comma(values: &[u8]) -> (r: Option<usize>)
    ensures
        match r {
            Some(i) => first_comma(values@) == Some(i as int) && i < values@.len(),
            None => first_comma(values@) is None,
        },
{
    let mut i: usize = 0;
    while i < values.len()
        invariant
            i <= values@.len(),
            first_comma(values@) == first_comma_from(values@, i as int),
        decreases values@.len() - i,
    {
        if at(values, i) == COMMA {
            return Some(i);
        }
        i = i + 1;
    }
    None
}

/// The recognized function names as executable byte strings.
pub(crate) fn log_bytes() -> (v: Vec<u8>)
    ensures
        v@ == pat_log(),
{
    let mut v: Vec<u8> = Vec::new();
    v.push(108u8);
    v.push(111u8);
    v.push(103u8);
    proof {
        assert(v@ =~= pat_log());
    }
    v
}

pub(crate) fn ln_bytes() -> (v: Vec<u8>)
    ensures
        v@ == pat_ln(),
{
    let mut v: Vec<u8> = Vec::new();
    v.push(108u8);
    v.push(110u8);
    proof {
        assert(v@ =~= pat_ln());
    }
    v
}

pub(crate) fn sin_bytes() -> (v: Vec<u8>)
    ensures
        v@ == pat_sin(),
{
    let mut v: Vec<u8> = Vec::new();
    v.push(115u8);
    v.push(105u8);
    v.push(110u8);
    proof {
        assert(v@ =~= pat_sin());
    }
    v
}

pub(crate) fn cos_bytes() -> (v: Vec<u8>)
    ensures
        v@ == pat_cos(),
{
    let mut v: Vec<u8> = Vec::new();
    v.push(99u8);
    v.push(111u8);
    v.push(115u8);
    proof {
        assert(v@ =~= pat_cos());
    }
    v
}

/// Splits `formula` at the chosen operator, or hands it to the function /
/// leaf / parenthesis-stripping cases, appending the resulting children to
/// `parent`; `scopes` holds the precomputed scope of each byte and
/// `reference_point` the absolute offset of the slice in the original
/// formula. Appends exactly the children `gen` describes, or returns the
/// error `gen` describes and leaves `parent` unchanged.
#[verifier::rlimit(100)]
pub fn recursive_generate(
    reference_point: usize,
    parent: &mut Node<[usize; 2]>,
    formula: &[u8],
    scopes: &[usize],
) -> (r: Result<(), ParseError>)
    requires
        scopes@.len() == formula@.len(),
        old(parent).value[0] == reference_point,
        old(parent).value[1] as int == reference_point + formula@.len(),
    ensures
        final(parent).value == old(parent).value,
        ({
            let g = gen(reference_point as int, formula@, scopes@);
            match g {
                Result::Err(e) => r == Err::<(), ParseError>(e) && final(parent).children == old(
                    parent,
                ).children,
                Result::Ok(ks) => r == Ok::<(), ParseError>(()) && appended(
                    old(parent).children@,
                    final(parent).children@,
                    ks,
                ),
            }
        }),
    decreases formula@.len(), 0int,
{
    let ghost fv = formula@;
    let ghost sv = scopes@;
    let ghost oldkids = parent.children@;
    if formula.len() == 0 {
        return Err(ParseError::EmptyFormula);
    }
    if !is_balanced(formula) {
        return Err(ParseError::Unbalanced);
    }
    let ms = find_min_local_scope(formula);
    let mut st = PickState { found: false, max_index: 0, min_prio: usize::MAX, stopped: false };
    step_op(formula, ms, OP_EQ, 0, &mut st);
    step_op(formula, ms, OP_MINUS, 1, &mut st);
    step_op(formula, ms, OP_PLUS, 1, &mut st);
    step_op(formula, ms, OP_DIV, 2, &mut st);
    step_op(formula, ms, OP_MUL, 2, &mut st);
    step_op(formula, ms, OP_POW, 3, &mut st);
    proof {
        assert(spec_pick(fv, ms as int) == if st.found {
            Some(st.max_index as int)
        } else {
            None::<int>
        });
    }
    if st.found {
        let index = st.max_index;
        let end_index = scan_end(formula, index);
        let start_index = scan_start(formula, index);
        let mut left = Node::new([start_index + reference_point, index + reference_point]);
        let mut right = Node::new([index + reference_point + 1, end_index + reference_point]);
        let lf = vstd::slice::slice_subrange(formula, start_index, index);
        let lsc = vstd::slice::slice_subrange(scopes, start_index, index);
        match recursive_generate(reference_point + start_index, &mut left, lf, lsc) {
            Err(er) => {
                return Err(er);
            },
            Ok(()) => {},
        }
        let rf = vstd::slice::slice_subrange(formula, index + 1, end_index);
        let rsc = vstd::slice::slice_subrange(scopes, index + 1, end_index);
        match recursive_generate(reference_point + index + 1, &mut right, rf, rsc) {
            Err(er) => {
                return Err(er);
            },
            Ok(()) => {},
        }
        parent.children.push(left);
        parent.children.push(right);
        proof {
            assert(final(parent).children@.subrange(0, oldkids.len() as int) =~= oldkids);
        }
        return Ok(());
    }
    let lb = log_bytes();
    let nb = ln_bytes();
    let sb = sin_bytes();
    let cb = cos_bytes();
    let mut hit: Option<(usize, usize)> = None;
    if formula.len() > 5 {
        match function_in_scope(formula, lb.as_slice(), ms) {
            Some(p) => {
                hit = Some((3, p));
            },
            None => {},
        }
    }
    if hit.is_none() && formula.len() > 4 {
        match function_in_scope(formula, nb.as_slice(), ms) {
            Some(p) => {
                hit = Some((2, p));
            },
            None => {},
        }
    }
    if hit.is_none() && formula.len() > 5 {
        match function_in_scope(formula, sb.as_slice(), ms) {
            Some(p) => {
                hit = Some((3, p));
            },
            None => {},
        }
    }
    if hit.is_none() && formula.len() > 5 {
        match function_in_scope(formula, cb.as_slice(), ms) {
            Some(p) => {
                hit = Some((3, p));
            },
            None => {},
        }
    }
    proof {
        assert(func_hit(fv, ms as int) == match hit {
            Some(h) => Some((h.0 as int, h.1 as int)),
            None => None::<(int, int)>,
        });
    }
    match hit {
        Some((flen, fstart)) => {
            let start = fstart + flen;
            if start >= formula.len() {
                return Err(ParseError::BadFunctionCall);
            }
            let start_scope = *vstd::slice::slice_index_get(scopes, start);
            let e = scan_func_end(scopes, start, start_scope);
            if e - start < 2 {
                return Err(ParseError::BadFunctionCall);
            }
            let vals = vstd::slice::slice_subrange(formula, start + 1, e - 1);
            let vsc = vstd::slice::slice_subrange(scopes, start + 1, e - 1);
            parse_csv(reference_point + start + 1, parent, vals, vsc)
        },
        None => {
            if leaf_check(formula, scopes) {
                proof {
                    assert(final(parent).children@.subrange(0, oldkids.len() as int) =~= oldkids);
                }
                return Ok(());
            }
            let start = parent.value[0] + 1;
            let end = parent.value[1] - 1;
            if end > start {
                let mut sub_node = Node::new([start, end]);
                let sf = vstd::slice::slice_subrange(formula, 1, formula.len() - 1);
                let ssc = vstd::slice::slice_subrange(scopes, 1, formula.len() - 1);
                match recursive_generate(reference_point + 1, &mut sub_node, sf, ssc) {
                    Err(er) => {
                        return Err(er);
                    },
                    Ok(()) => {},
                }
                parent.children.push(sub_node);
                proof {
                    assert(final(parent).children@.subrange(0, oldkids.len() as int) =~= oldkids);
                }
                return Ok(());
            }
            proof {
                assert(final(parent).children@.subrange(0, oldkids.len() as int) =~= oldkids);
            }
            Ok(())
        },
    }
}

/// Splits a function's argument list at its commas and appends one child
/// per argument to `node`, each argument parsed as a sub-formula. Appends
/// exactly the children `csv` describes, or returns the error `csv`
/// describes and leaves `node` unchanged.
pub fn parse_csv(
    reference_point: usize,
    node: &mut Node<[usize; 2]>,
    values: &[u8],
    scopes: &[usize],
) -> (r: Result<(), ParseError>)
    requires
        scopes@.len() == values@.len(),
        reference_point + values@.len() <= usize::MAX,
    ensures
        final(node).value == old(node).value,
        ({
            let g = csv(reference_point as int, values@, scopes@);
            match g {
                Result::Err(e) => r == Err::<(), ParseError>(e) && final(node).children == old(
                    node,
                ).children,
                Result::Ok(ks) => r == Ok::<(), ParseError>(()) && appended(
                    old(node).children@,
                    final(node).children@,
                    ks,
                ),
            }
        }),
    decreases values@.len(), 2int,
{
    let ghost oldkids = node.children@;
    match find_comma(values) {
        None => {
            let mut inner = Node::new([reference_point, reference_point + values.len()]);
            match recursive_generate(reference_point, &mut inner, values, scopes) {
                Err(e) => Err(e),
                Ok(()) => {
                    node.children.push(inner);
                    proof {
                        assert(final(node).children@.subrange(0, oldkids.len() as int)
                            =~= oldkids);
                    }
                    Ok(())
                },
            }
        },
        Some(pos) => {
            let mut inner = Node::new([reference_point, reference_point + pos]);
            let pf = vstd::slice::slice_subrange(values, 0, pos);
            let psc = vstd::slice::slice_subrange(scopes, 0, pos);
            match recursive_generate(reference_point, &mut inner, pf, psc) {
                Err(e) => {
                    return Err(e);
                },
                Ok(()) => {},
            }
            let rest = vstd::slice::slice_subrange(values, pos + 1, values.len());
            let rsc = vstd::slice::slice_subrange(scopes, pos + 1, scopes.len());
            let mut tail = Node::new([0, 0]);
            match parse_csv(reference_point + pos + 1, &mut tail, rest, rsc) {
                Err(e) => {
                    return Err(e);
                },
                Ok(()) => {},
            }
            node.children.push(inner);
            node.children.append(&mut tail.children);
            proof {
                assert(final(node).children@.subrange(0, oldkids.len() as int) =~= oldkids);
            }
            Ok(())
        },
    }
}

/// The scope value the tree builder records for position `k`: opening
/// parentheses counted through `k`, closing ones counted before `k`.
pub open spec fn scope_val(f: Seq<u8>, k: int) -> int {
    cnt(f, LPAREN, 0, k + 1) - cnt(f, RPAREN, 0, k)
}

pub open spec fn scope_seq(f: Seq<u8>) -> Seq<usize> {
    Seq::new(f.len(), |i: int| scope_val(f, i) as usize)
}

/// Builds the range tree of `formula`: computes every byte's parenthesis
/// scope in one pass, then splits recursively. The root spans the whole
/// formula; its descendants are as `gen` describes.
pub fn smart_generate_tree(formula: &[u8]) -> (r: Result<Node<[usize; 2]>, ParseError>)
    ensures
        ({
            let g = gen(0, formula@, scope_seq(formula@));
            match g {
                Result::Err(e) => r == Err::<Node<[usize; 2]>, ParseError>(e),
                Result::Ok(ks) => match r {
                    Result::Ok(n) => has_shape(
                        n,
                        TreeShape { lo: 0, hi: formula@.len() as int, kids: ks },
                    ),
                    Result::Err(_) => false,
                },
            }
        }),
{
    let ghost fv = formula@;
    if !is_balanced(formula) {
        return Err(ParseError::Unbalanced);
    }
    let mut scopes: Vec<usize> = Vec::new();
    let mut i: usize = 0;
    let mut cur: usize = 0;
    while i < formula.len()
        invariant
            i <= fv.len(),
            scopes@.len() == i,
            balanced(fv),
            cur as int == sfl(fv, i as int),
            cur <= i,
            forall|k: int| 0 <= k < i ==> scopes@[k] as int == scope_val(fv, k),
        decreases fv.len() - i,
    {
        let ch = at(formula, i);
        proof {
            lemma_cnt_snoc(fv, LPAREN, 0, i as int);
            lemma_cnt_snoc(fv, RPAREN, 0, i as int);
            assert(cnt(fv, LPAREN, 0, i + 1) >= cnt(fv, RPAREN, 0, i + 1));
        }
        if ch == LPAREN {
            cur = cur + 1;
            scopes.push(cur);
        } else if ch == RPAREN {
            scopes.push(cur);
            cur = cur - 1;
        } else {
            scopes.push(cur);
        }
        i = i + 1;
    }
    proof {
        assert(scopes@ =~= scope_seq(fv));
    }
    let mut parent = Node::new([0, formula.len()]);
    match recursive_generate(0, &mut parent, formula, scopes.as_slice()) {
        Ok(()) => Ok(parent),
        Err(e) => Err(e),
    }
}

/// One step of the parenthesis-tree scan: every `(` opens a pending node,
/// every `)` completes the innermost one with the range from its opening
/// brace through the closing one and hangs it under the node around it.
pub open spec fn gt_go(f: Seq<u8>, i: int, rp: Seq<int>, stack: Seq<TreeShape>) -> TreeShape
    decreases f.len() - i,
{
    if i < 0 || i >= f.len() {
        stack.last()
    } else if f[i] == LPAREN {
        gt_go(f, i + 1, rp + seq![i], stack + seq![TreeShape { lo: 0, hi: 0, kids: Seq::empty() }])
    } else if f[i] == RPAREN {
        let done = TreeShape { lo: rp.last(), hi: i + 1, kids: stack.last().kids };
        let stack2 = stack.drop_last();
        let top = stack2.last();
        gt_go(
            f,
            i + 1,
            rp.drop_last(),
            stack2.drop_last() + seq![
                TreeShape { lo: top.lo, hi: top.hi, kids: top.kids.push(done) },
            ],
        )
    } else {
        gt_go(f, i + 1, rp, stack)
    }
}

/// What `generate_tree` builds for `f`.
pub open spec fn spec_generate_tree(f: Seq<u8>) -> TreeShape {
    gt_go(f, 0, Seq::empty(), seq![TreeShape { lo: 0, hi: f.len() as int, kids: Seq::empty() }])
}

/// Builds the tree of parenthesized groups of `formula`: the root spans
/// the whole formula, and each matched `(`..`)` pair becomes a node under
/// the group enclosing it, holding the pair's full byte range.
pub fn generate_tree(formula: &[u8]) -> (r: Node<[usize; 2]>)
    requires
        prefix_ok(formula@),
    ensures
        has_shape(r, spec_generate_tree(formula@)),
{
    let ghost fv = formula@;
    let mut record_positions: Vec<usize> = Vec::new();
    let root_node: Node<[usize; 2]> = Node::new([0, formula.len()]);
    let mut nodes: Vec<Node<[usize; 2]>> = Vec::new();
    nodes.push(root_node);
    let mut i: usize = 0;
    let mut o: usize = 0;
    let mut c: usize = 0;
    proof {
        lemma_shapes_of_len(nodes@);
        lemma_shapes_of_index(nodes@, 0);
        assert(shapes_of(nodes@[0].children@) =~= Seq::<TreeShape>::empty());
        assert(shape_of(nodes@[0]) =~= TreeShape { lo: 0, hi: fv.len() as int, kids: Seq::empty() });
        assert(shapes_of(nodes@) =~= seq![
            TreeShape { lo: 0, hi: fv.len() as int, kids: Seq::empty() },
        ]);
        assert(int_positions(record_positions@) =~= Seq::<int>::empty());
    }
    while i < formula.len()
        invariant
            i <= fv.len(),
            o == cnt(fv, LPAREN, 0, i as int),
            c == cnt(fv, RPAREN, 0, i as int),
            o <= i,
            c <= i,
            o >= c,
            prefix_ok(fv),
            nodes@.len() == 1 + o - c,
            record_positions@.len() == o - c,
            spec_generate_tree(fv) == gt_go(
                fv,
                i as int,
                int_positions(record_positions@),
                shapes_of(nodes@),
            ),
        decreases fv.len() - i,
    {
        let ch = at(formula, i);
        proof {
            lemma_cnt_snoc(fv, LPAREN, 0, i as int);
            lemma_cnt_snoc(fv, RPAREN, 0, i as int);
            assert(cnt(fv, LPAREN, 0, i + 1) >= cnt(fv, RPAREN, 0, i + 1));
        }
        let ghost pre_rp = record_positions@;
        let ghost pre_nodes = nodes@;
        if ch == LPAREN {
            o = o + 1;
            record_positions.push(i);
            nodes.push(Node::new([0, 0]));
            proof {
                assert(int_positions(record_positions@) =~= int_positions(pre_rp) + seq![i as int]);
                assert(nodes@ =~= pre_nodes.push(nodes@.last()));
                lemma_shapes_of_push(pre_nodes, nodes@.last());
                assert(shape_of(nodes@.last()) =~= TreeShape { lo: 0, hi: 0, kids: Seq::empty() });
                assert(shapes_of(nodes@) =~= shapes_of(pre_nodes) + seq![
                    TreeShape { lo: 0, hi: 0, kids: Seq::empty() },
                ]);
            }
        } else if ch == RPAREN {
            c = c + 1;
            let mut node = match nodes.pop() {
                Some(nd) => nd,
                None => {
                    return Node::new([0, 0]);
                },
            };
            proof {
                assert(node == pre_nodes.last());
                assert(nodes@ =~= pre_nodes.drop_last());
            }
            let start = match record_positions.pop() {
                Some(p) => p,
                None => {
                    return Node::new([0, 0]);
                },
            };
            node.set_value([start, i + 1]);
            let ghost nodes_after1 = nodes@;
            let mut par = match nodes.pop() {
                Some(nd) => nd,
                None => {
                    return Node::new([0, 0]);
                },
            };
            proof {
                assert(par == pre_nodes[pre_nodes.len() - 2]);
                assert(nodes@ =~= nodes_after1.drop_last());
            }
            let ghost mid_nodes = nodes@;
            let ghost done_shape = shape_of(node);
            let ghost par_orig = par;
            par.children.push(node);
            proof {
                lemma_shapes_of_push(par_orig.children@, node);
                assert(par.children@ =~= par_orig.children@.push(node));
                assert(shapes_of(par.children@) =~= shapes_of(par_orig.children@) + seq![
                    done_shape,
                ]);
            }
            nodes.push(par);
            proof {
                let stack = shapes_of(pre_nodes);
                let rpz = int_positions(pre_rp);
                let done = TreeShape { lo: rpz.last(), hi: i + 1, kids: stack.last().kids };
                let stack2 = stack.drop_last();
                let top = stack2.last();
                lemma_shapes_of_len(pre_nodes);
                lemma_shapes_of_index(pre_nodes, pre_nodes.len() - 1);
                lemma_shapes_of_index(pre_nodes, pre_nodes.len() - 2);
                assert(rpz.last() == start as int);
                assert(stack.last().kids == shapes_of(node.children@));
                assert(done =~= done_shape);
                assert(top == shape_of(par_orig));
                assert(top.kids.push(done) =~= shapes_of(par_orig.children@) + seq![done_shape]);
                assert(par.value == par_orig.value);
                assert(shape_of(par) =~= TreeShape {
                    lo: top.lo,
                    hi: top.hi,
                    kids: top.kids.push(done),
                });
                assert(int_positions(record_positions@) =~= rpz.drop_last());
                assert forall|k: int| 0 <= k < mid_nodes.len() implies stack2.drop_last()[k]
                    == shapes_of(mid_nodes)[k] by {
                    lemma_shapes_of_index(pre_nodes, k);
                    lemma_shapes_of_index(mid_nodes, k);
                }
                lemma_shapes_of_len(mid_nodes);
                assert(stack2.drop_last() =~= shapes_of(mid_nodes));
                assert(nodes@ =~= mid_nodes.push(par));
                lemma_shapes_of_push(mid_nodes, par);
                assert(shapes_of(nodes@) =~= shapes_of(mid_nodes) + seq![shape_of(par)]);
                assert(gt_go(fv, i as int, rpz, stack) == gt_go(
                    fv,
                    i + 1,
                    int_positions(record_positions@),
                    shapes_of(nodes@),
                ));
            }
        }
        i = i + 1;
    }
    let ghost all_nodes = nodes@;
    let last = match nodes.pop() {
        Some(nd) => nd,
        None => Node::new([0, 0]),
    };
    proof {
        assert(all_nodes =~= nodes@.push(last));
        lemma_shapes_of_len(all_nodes);
        lemma_shapes_of_index(all_nodes, all_nodes.len() - 1);
        assert(shapes_of(all_nodes).last() == shape_of(last));
        lemma_has_shape_canonical(last);
    }
    last
}

/// A byte the grammar treats specially when splitting: a parenthesis or
/// one of the six operators.
pub open spec fn is_special(b: u8) -> bool {
    b == LPAREN || b == RPAREN || b == OP_EQ || b == OP_MINUS || b == OP_PLUS || b == OP_DIV || b
        == OP_MUL || b == OP_POW
}

/// A formula that is a bare token: no operator or parenthesis anywhere,
/// and no recognized function name as a substring.
pub open spec fn plain_token(f: Seq<u8>) -> bool {
    &&& forall|i: int| 0 <= i < f.len() ==> !is_special(#[trigger] f[i])
    &&& forall|i: int| 0 <= i && i + 2 <= f.len() ==> #[trigger] f.subrange(i, i + 2) != pat_ln()
    &&& forall|i: int|
        0 <= i && i + 3 <= f.len() ==> #[trigger] f.subrange(i, i + 3) != pat_log() && f.subrange(
            i,
            i + 3,
        ) != pat_sin() && f.subrange(i, i + 3) != pat_cos()
}

proof fn lemma_cnt_absent(f: Seq<u8>, b: u8, i: int, j: int)
    requires
        forall|k: int| 0 <= k < f.len() ==> f[k] != b,
    ensures
        cnt(f, b, i, j) == 0,
    decreases j - i,
{
    if i < j {
        lemma_cnt_absent(f, b, i + 1, j);
    }
}

proof fn lemma_oper_absent(f: Seq<u8>, op: u8, cs: int, j: int)
    requires
        j <= f.len(),
        forall|k: int| 0 <= k < f.len() ==> f[k] != op,
    ensures
        oper_scan(f, op, cs, j) is None,
    decreases j,
{
    if j > 0 {
        lemma_oper_absent(f, op, cs, j - 1);
    }
}

proof fn lemma_func_absent(f: Seq<u8>, pat: Seq<u8>, cs: int, i: int)
    requires
        forall|k: int|
            0 <= k && k + pat.len() <= f.len() ==> #[trigger] f.subrange(k, k + pat.len() as int)
                != pat,
    ensures
        func_scan(f, pat, cs, i) is None,
    decreases f.len() + 1 - i,
{
    if !(i < 0 || i + pat.len() > f.len()) {
        assert(f.subrange(i, i + pat.len() as int) != pat);
        lemma_func_absent(f, pat, cs, i + 1);
    }
}

/// A well-formed formula holding no operator, no parenthesis and no
/// function name — a bare variable name or numeric literal — parses to a
/// leaf: the tree builder gives the root the full input range and no
/// children.
pub proof fn lemma_plain_token_is_leaf(f: Seq<u8>)
    requires
        f.len() > 0,
        plain_token(f),
    ensures
        gen(0, f, scope_seq(f)) == Ok::<Seq<TreeShape>, ParseError>(Seq::empty()),
{
    assert forall|k: int| 0 <= k <= f.len() implies cnt(f, LPAREN, 0, k) >= cnt(
        f,
        RPAREN,
        0,
        k,
    ) by {
        lemma_cnt_absent(f, LPAREN, 0, k);
        lemma_cnt_absent(f, RPAREN, 0, k);
    }
    lemma_cnt_absent(f, LPAREN, 0, f.len() as int);
    lemma_cnt_absent(f, RPAREN, 0, f.len() as int);
    assert(balanced(f));
    let ms = spec_min_local_scope(f);
    lemma_oper_absent(f, OP_EQ, ms, f.len() as int);
    lemma_oper_absent(f, OP_MINUS, ms, f.len() as int);
    lemma_oper_absent(f, OP_PLUS, ms, f.len() as int);
    lemma_oper_absent(f, OP_DIV, ms, f.len() as int);
    lemma_oper_absent(f, OP_MUL, ms, f.len() as int);
    lemma_oper_absent(f, OP_POW, ms, f.len() as int);
    assert(spec_pick(f, ms) is None);
    lemma_func_absent(f, pat_log(), ms, 0);
    lemma_func_absent(f, pat_ln(), ms, 0);
    lemma_func_absent(f, pat_sin(), ms, 0);
    lemma_func_absent(f, pat_cos(), ms, 0);
    assert(func_hit(f, ms) is None);
    assert forall|i: int| 0 <= i < f.len() implies f[i] != LPAREN && f[i] != RPAREN && scope_seq(
        f,
    )[i] <= scope_seq(f)[0] by {
        lemma_cnt_absent(f, LPAREN, 0, i + 1);
        lemma_cnt_absent(f, RPAREN, 0, i);
        lemma_cnt_absent(f, LPAREN, 0, 1);
        lemma_cnt_absent(f, RPAREN, 0, 0);
    }
    assert(leaf_ok(f, scope_seq(f)));
}

/// Positions as mathematical integers.
pub open spec fn int_positions(s: Seq<usize>) -> Seq<int> {
    s.map_values(|x: usize| x as int)
}

/// Every node matches its canonical shape.
pub proof fn lemma_has_shape_canonical(n: Node<[usize; 2]>)
    ensures
        has_shape(n, shape_of(n)),
    decreases n,
{
    lemma_shapes_of_len(n.children@);
    assert forall|i: int| 0 <= i < shape_of(n).kids.len() implies has_shape(
        n.children[i],
        shape_of(n).kids[i],
    ) by {
        lemma_shapes_of_index(n.children@, i);
        lemma_has_shape_canonical(n.children[i]);
    }
}

} // verus!
