//! The block and statement layer: strips spaces from a program, splits it
//! into brace-scoped blocks and semicolon-terminated statements, and
//! classifies each statement as an assignment, a solve directive, or
//! something to ignore.

use vstd::prelude::*;

use crate::parser::at;
use crate::parser::starts_with_at;
use crate::parser::LPAREN;
use crate::parser::OP_MINUS;
use crate::parser::RPAREN;

verus! {

/// Byte constants of the statement grammar.
pub const SPACE: u8 = 32;

pub const SEMI: u8 = 59;

pub const COLON: u8 = 58;

pub const LBRACE: u8 = 123;

pub const RBRACE: u8 = 125;

pub const LT: u8 = 60;

/// Why a program cannot be split into blocks.
#[derive(Clone, Copy, Debug, PartialEq, Eq, Structural)]
pub enum BlockError {
    /// A closing brace without a block open.
    UnmatchedBrace,
}

/// Why a statement cannot be read as a solve directive.
#[derive(Clone, Copy, Debug, PartialEq, Eq, Structural)]
pub enum StatementError {
    /// The solve keyword is not followed by a parenthesized variable name.
    MissingParenthesis,
    /// The solve parameter is not followed by the arrow.
    MissingArrow,
}

/// A classified statement. Values are byte strings sliced out of the
/// statement; what a literal means as a number is the evaluator's affair.
#[derive(Debug)]
pub enum Statement {
    Assignment { name: Vec<u8>, literal: Vec<u8> },
    Solve { variable: Vec<u8>, formula: Vec<u8> },
    Ignored,
}

/// The mathematical value of a classified statement.
pub ghost enum StatementShape {
    Assignment { name: Seq<u8>, literal: Seq<u8> },
    Solve { variable: Seq<u8>, formula: Seq<u8> },
    Ignored,
}

pub open spec fn stmt_shape(s: Statement) -> StatementShape {
    match s {
        Statement::Assignment { name, literal } => StatementShape::Assignment {
            name: name@,
            literal: literal@,
        },
        Statement::Solve { variable, formula } => StatementShape::Solve {
            variable: variable@,
            formula: formula@,
        },
        Statement::Ignored => StatementShape::Ignored,
    }
}

/// The views of a sequence of byte vectors.
pub open spec fn views(s: Seq<Vec<u8>>) -> Seq<Seq<u8>> {
    s.map_values(|v: Vec<u8>| v@)
}

/// `s[0..i)` with every space removed.
pub open spec fn strip_to(s: Seq<u8>, i: int) -> Seq<u8>
    decreases i,
{
    if i <= 0 {
        Seq::empty()
    } else {
        strip_to(s, i - 1) + (if 0 <= i - 1 < s.len() && s[i - 1] == SPACE {
            Seq::empty()
        } else if 0 <= i - 1 < s.len() {
            seq![s[i - 1]]
        } else {
            Seq::empty()
        })
    }
}

pub open spec fn spec_strip(s: Seq<u8>) -> Seq<u8> {
    strip_to(s, s.len() as int)
}

/// The block-splitting scan over the stripped program `s`, from position
/// `i`, with the open blocks' brace positions on the stack `starts` and
/// the closed blocks so far in `done`. A block's recorded text runs from
/// just after its opening brace through its closing brace; blocks are
/// recorded in closing order, so an inner block comes before the block
/// around it. Text outside every block is dropped; blocks left open at
/// the end are dropped too.
pub open spec fn blocks_go(s: Seq<u8>, i: int, starts: Seq<int>, done: Seq<Seq<u8>>) -> Result<
    Seq<Seq<u8>>,
    BlockError,
>
    decreases s.len() - i,
{
    if i < 0 || i >= s.len() {
        Ok(done)
    } else if s[i] == LBRACE {
        blocks_go(s, i + 1, starts + seq![i], done)
    } else if s[i] == RBRACE {
        if starts.len() == 0 {
            Err(BlockError::UnmatchedBrace)
        } else {
            blocks_go(
                s,
                i + 1,
                starts.drop_last(),
                done + seq![s.subrange(starts.last() + 1, i + 1)],
            )
        }
    } else {
        blocks_go(s, i + 1, starts, done)
    }
}

/// What `process` returns for the program text `code`.
pub open spec fn spec_process(code: Seq<u8>) -> Result<Seq<Seq<u8>>, BlockError> {
    blocks_go(spec_strip(code), 0, Seq::empty(), Seq::empty())
}

/// Strips spaces from the program and splits it into brace-scoped blocks,
/// innermost-closed first; a closing brace with no block open is an error.
pub fn process(code: &[u8]) -> (r: Result<Vec<Vec<u8>>, BlockError>)
    ensures
        match r {
            Result::Ok(blocks) => spec_process(code@) == Ok::<Seq<Seq<u8>>, BlockError>(
                views(blocks@),
            ),
            Result::Err(e) => spec_process(code@) == Err::<Seq<Seq<u8>>, BlockError>(e),
        },
{
    let ghost cv = code@;
    let mut stripped: Vec<u8> = Vec::new();
    let mut i: usize = 0;
    while i < code.len()
        invariant
            i <= cv.len(),
            stripped@ == strip_to(cv, i as int),
        decreases cv.len() - i,
    {
        let ch = at(code, i);
        if ch != SPACE {
            stripped.push(ch);
        }
        i = i + 1;
    }
    let ghost sv = stripped@;
    proof {
        assert(sv == spec_strip(cv));
    }
    let n = stripped.len();
    let mut starts: Vec<usize> = Vec::new();
    let mut done: Vec<Vec<u8>> = Vec::new();
    proof {
        assert(crate::parser::int_positions(starts@) =~= Seq::<int>::empty());
        assert(views(done@) =~= Seq::<Seq<u8>>::empty());
    }
    let mut j: usize = 0;
    while j < n
        invariant
            j <= n,
            n == sv.len(),
            stripped@ == sv,
            forall|k: int| 0 <= k < starts@.len() ==> starts@[k] < j,
            blocks_go(sv, 0, Seq::empty(), Seq::empty()) == blocks_go(
                sv,
                j as int,
                crate::parser::int_positions(starts@),
                views(done@),
            ),
        decreases n - j,
    {
        let ch = at(stripped.as_slice(), j);
        let ghost pre_starts = starts@;
        let ghost pre_done = done@;
        if ch == LBRACE {
            starts.push(j);
            proof {
                assert(crate::parser::int_positions(starts@) =~= crate::parser::int_positions(pre_starts) + seq![j as int]);
            }
        } else if ch == RBRACE {
            if starts.len() == 0 {
                proof {
                    assert(crate::parser::int_positions(starts@).len() == 0);
                }
                return Err(BlockError::UnmatchedBrace);
            }
            match starts.pop() {
                None => {
                    return Err(BlockError::UnmatchedBrace);
                },
                Some(start) => {
                    let piece = vstd::slice::slice_to_vec(
                        vstd::slice::slice_subrange(stripped.as_slice(), start + 1, j + 1),
                    );
                    done.push(piece);
                    proof {
                        assert(crate::parser::int_positions(pre_starts).len() == pre_starts.len());
                        assert(crate::parser::int_positions(pre_starts).drop_last() =~= crate::parser::int_positions(starts@));
                        assert(crate::parser::int_positions(pre_starts).last() == start as int);
                        assert(views(done@) =~= views(pre_done) + seq![
                            sv.subrange(start + 1, j + 1),
                        ]);
                        assert(blocks_go(sv, j as int, crate::parser::int_positions(pre_starts), views(pre_done))
                            == blocks_go(sv, j + 1, crate::parser::int_positions(starts@), views(done@)));
                    }
                },
            }
        }
        j = j + 1;
    }
    proof {
        assert(blocks_go(sv, n as int, crate::parser::int_positions(starts@), views(done@)) == Ok::<
            Seq<Seq<u8>>,
            BlockError,
        >(views(done@)));
    }
    Ok(done)
}

/// The statement-splitting scan: statements are the stretches between
/// semicolons, the tail after the last semicolon being dropped.
pub open spec fn stmts_go(s: Seq<u8>, i: int, cur: Seq<u8>, done: Seq<Seq<u8>>) -> Seq<Seq<u8>>
    decreases s.len() - i,
{
    if i < 0 || i >= s.len() {
        done
    } else if s[i] == SEMI {
        stmts_go(s, i + 1, Seq::empty(), done + seq![cur])
    } else {
        stmts_go(s, i + 1, cur + seq![s[i]], done)
    }
}

pub open spec fn spec_split(s: Seq<u8>) -> Seq<Seq<u8>> {
    stmts_go(s, 0, Seq::empty(), Seq::empty())
}

/// Splits a block's text into its semicolon-terminated statements; what
/// follows the last semicolon (at least the closing brace) is dropped.
pub fn split_statements(scope: &[u8]) -> (r: Vec<Vec<u8>>)
    ensures
        views(r@) == spec_split(scope@),
{
    let ghost sv = scope@;
    let mut record: Vec<u8> = Vec::new();
    let mut done: Vec<Vec<u8>> = Vec::new();
    proof {
        assert(record@ =~= Seq::<u8>::empty());
        assert(views(done@) =~= Seq::<Seq<u8>>::empty());
    }
    let mut i: usize = 0;
    while i < scope.len()
        invariant
            i <= sv.len(),
            spec_split(sv) == stmts_go(sv, i as int, record@, views(done@)),
        decreases sv.len() - i,
    {
        let ch = at(scope, i);
        let ghost old_done = done@;
        let ghost old_record = record@;
        if ch == SEMI {
            done.push(record);
            record = Vec::new();
            proof {
                assert(views(done@) =~= views(old_done) + seq![old_record]);
                assert(record@ =~= Seq::<u8>::empty());
            }
        } else {
            record.push(ch);
            proof {
                assert(record@ =~= old_record + seq![sv[i as int]]);
            }
        }
        i = i + 1;
    }
    done
}

/// The first position of byte `b` at or after `i`.
pub open spec fn byte_from(s: Seq<u8>, b: u8, i: int) -> Option<int>
    decreases s.len() - i,
{
    if i < 0 || i >= s.len() {
        None
    } else if s[i] == b {
        Some(i)
    } else {
        byte_from(s, b, i + 1)
    }
}

/// The first position of byte `b` in `s`.
pub fn find_byte(s: &[u8], b: u8) -> (r: Option<usize>)
    ensures
        match r {
            Some(i) => byte_from(s@, b, 0) == Some(i as int) && i < s@.len(),
            None => byte_from(s@, b, 0) is None,
        },
{
    let mut i: usize = 0;
    while i < s.len()
        invariant
            i <= s@.len(),
            byte_from(s@, b, 0) == byte_from(s@, b, i as int),
        decreases s@.len() - i,
    {
        if at(s, i) == b {
            return Some(i);
        }
        i = i + 1;
    }
    None
}

/// The first position where `pat` occurs as a substring, from `i` on.
pub open spec fn sub_scan(s: Seq<u8>, pat: Seq<u8>, i: int) -> Option<int>
    decreases s.len() + 1 - i,
{
    if i < 0 || i + pat.len() > s.len() {
        None
    } else if s.subrange(i, i + pat.len() as int) == pat {
        Some(i)
    } else {
        sub_scan(s, pat, i + 1)
    }
}

pub open spec fn spec_find_sub(s: Seq<u8>, pat: Seq<u8>) -> Option<int> {
    sub_scan(s, pat, 0)
}

/// The first position where `pat` occurs as a substring of `s`.
pub fn find_sub(s: &[u8], pat: &[u8]) -> (r: Option<usize>)
    requires
        pat@.len() >= 1,
    ensures
        match r {
            Some(i) => spec_find_sub(s@, pat@) == Some(i as int) && i + pat@.len() <= s@.len(),
            None => spec_find_sub(s@, pat@) is None,
        },
{
    if s.len() < pat.len() {
        return None;
    }
    let bound = s.len() - pat.len();
    let mut i: usize = 0;
    while i <= bound
        invariant
            i <= bound + 1,
            bound == s@.len() - pat@.len(),
            sub_scan(s@, pat@, 0) == sub_scan(s@, pat@, i as int),
        decreases bound + 1 - i,
    {
        if starts_with_at(s, i, pat) {
            return Some(i);
        }
        i = i + 1;
    }
    None
}

/// The solve keyword, as bytes.
pub open spec fn solve_pat() -> Seq<u8> {
    seq![115u8, 111u8, 108u8, 118u8, 101u8]
}

fn solve_bytes() -> (v: Vec<u8>)
    ensures
        v@ == solve_pat(),
{
    let mut v: Vec<u8> = Vec::new();
    v.push(115u8);
    v.push(111u8);
    v.push(108u8);
    v.push(118u8);
    v.push(101u8);
    proof {
        assert(v@ =~= solve_pat());
    }
    v
}

/// Whether `b` is an ASCII letter or digit.
pub open spec fn is_alnum(b: u8) -> bool {
    (48 <= b < 58) || (65 <= b < 91) || (97 <= b < 123)
}

fn alnum(b: u8) -> (r: bool)
    ensures
        r == is_alnum(b),
{
    (48 <= b && b < 58) || (65 <= b && b < 91) || (97 <= b && b < 123)
}

/// The first alphanumeric position before `e`, or 0 when there is none:
/// where an assignment's variable name starts.
pub open spec fn alnum_scan(s: Seq<u8>, e: int, i: int) -> int
    decreases e - i,
{
    if i < 0 || i >= e || i >= s.len() {
        0
    } else if is_alnum(s[i]) {
        i
    } else {
        alnum_scan(s, e, i + 1)
    }
}

/// How many bytes of `line` a parenthesized solve parameter takes: the
/// opening parenthesis through the first closing one.
pub open spec fn spec_parse_variable(s: Seq<u8>) -> Result<int, StatementError> {
    if s.len() == 0 || s[0] != LPAREN {
        Err(StatementError::MissingParenthesis)
    } else {
        match byte_from(s, RPAREN, 1) {
            None => Err(StatementError::MissingParenthesis),
            Some(q) => Ok(q + 1),
        }
    }
}

/// Reads a solve directive's parenthesized parameter and returns how many
/// bytes it spans, the parentheses included.
pub fn parse_variable(line: &[u8]) -> (r: Result<usize, StatementError>)
    ensures
        match r {
            Result::Ok(k) => spec_parse_variable(line@) == Ok::<int, StatementError>(k as int) && 2
                <= k <= line@.len(),
            Result::Err(e) => spec_parse_variable(line@) == Err::<int, StatementError>(e),
        },
{
    if line.len() == 0 {
        return Err(StatementError::MissingParenthesis);
    }
    if at(line, 0) != LPAREN {
        return Err(StatementError::MissingParenthesis);
    }
    let mut i: usize = 1;
    while i < line.len()
        invariant
            1 <= i <= line@.len(),
            byte_from(line@, RPAREN, 1) == byte_from(line@, RPAREN, i as int),
        decreases line@.len() - i,
    {
        if at(line, i) == RPAREN {
            return Ok(i + 1);
        }
        i = i + 1;
    }
    Err(StatementError::MissingParenthesis)
}

/// What `classify_statement` decides for `line`.
pub open spec fn spec_classify(line: Seq<u8>) -> Result<StatementShape, StatementError> {
    match byte_from(line, COLON, 0) {
        Some(e) => {
            let s = alnum_scan(line, e, 0);
            Ok(
                StatementShape::Assignment {
                    name: line.subrange(s, e),
                    literal: line.subrange(e + 1, line.len() as int),
                },
            )
        },
        None => match spec_find_sub(line, solve_pat()) {
            Some(p) => {
                let endx = p + 5;
                match spec_parse_variable(line.subrange(endx, line.len() as int)) {
                    Err(er) => Err(er),
                    Ok(consumed) => {
                        let idx = endx + consumed;
                        if idx + 2 > line.len() || line[idx] != LT || line[idx + 1] != OP_MINUS {
                            Err(StatementError::MissingArrow)
                        } else {
                            Ok(
                                StatementShape::Solve {
                                    variable: line.subrange(endx + 1, idx - 1),
                                    formula: line.subrange(idx + 2, line.len() as int),
                                },
                            )
                        }
                    },
                }
            },
            None => Ok(StatementShape::Ignored),
        },
    }
}

/// Classifies one statement: a statement with a colon assigns the literal
/// after the colon to the name before it; one with the solve keyword
/// names a variable in parentheses, an arrow, and a formula; anything
/// else is silently ignored.
pub fn classify_statement(line: &[u8]) -> (r: Result<Statement, StatementError>)
    ensures
        match spec_classify(line@) {
            Result::Ok(shape) => match r {
                Result::Ok(st) => stmt_shape(st) == shape,
                Result::Err(_) => false,
            },
            Result::Err(e) => r == Err::<Statement, StatementError>(e),
        },
{
    let ghost lv = line@;
    let n = line.len();
    match find_byte(line, COLON) {
        Some(end_index) => {
            let mut start_index: usize = 0;
            let mut i: usize = 0;
            let mut found = false;
            while !found && i < end_index
                invariant
                    i <= end_index,
                    end_index < lv.len(),
                    start_index <= end_index,
                    !found ==> start_index == 0,
                    found ==> start_index as int == alnum_scan(lv, end_index as int, 0),
                    !found ==> alnum_scan(lv, end_index as int, 0) == alnum_scan(
                        lv,
                        end_index as int,
                        i as int,
                    ),
                decreases end_index - i + (if found { 0int } else { 1int }),
            {
                if alnum(at(line, i)) {
                    start_index = i;
                    found = true;
                } else {
                    i = i + 1;
                }
            }
            proof {
                if !found {
                    assert(alnum_scan(lv, end_index as int, end_index as int) == 0);
                }
            }
            proof {
                assert(start_index as int == alnum_scan(lv, end_index as int, 0));
            }
            let name = vstd::slice::slice_to_vec(
                vstd::slice::slice_subrange(line, start_index, end_index),
            );
            let literal = vstd::slice::slice_to_vec(
                vstd::slice::slice_subrange(line, end_index + 1, line.len()),
            );
            Ok(Statement::Assignment { name, literal })
        },
        None => {
            let sb = solve_bytes();
            match find_sub(line, sb.as_slice()) {
                Some(p) => {
                    let endx = p + 5;
                    let suffix = vstd::slice::slice_subrange(line, endx, line.len());
                    let consumed = match parse_variable(suffix) {
                        Ok(k) => k,
                        Err(er) => {
                            return Err(er);
                        },
                    };
                    let idx = endx + consumed;
                    if line.len() - idx < 2 {
                        return Err(StatementError::MissingArrow);
                    }
                    if at(line, idx) != LT || at(line, idx + 1) != OP_MINUS {
                        return Err(StatementError::MissingArrow);
                    }
                    let variable = vstd::slice::slice_to_vec(
                        vstd::slice::slice_subrange(line, endx + 1, idx - 1),
                    );
                    let formula = vstd::slice::slice_to_vec(
                        vstd::slice::slice_subrange(line, idx + 2, line.len()),
                    );
                    Ok(Statement::Solve { variable, formula })
                },
                None => Ok(Statement::Ignored),
            }
        },
    }
}

} // verus!
