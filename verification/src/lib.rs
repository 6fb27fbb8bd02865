//! A tiny expression language: a recursive-descent parser working directly on
//! the remaining input text, and an evaluator over lexically scoped
//! environments.

pub mod binding_def;
pub mod decimal;
pub mod env;
pub mod expr;
pub mod grammar;
pub mod stmt;
pub mod util;
pub mod val;

pub use env::Env;
pub use val::Val;

use crate::binding_def::parse_binding_def;
use crate::decimal::{decimal_text, lemma_decimal_text_value};
use crate::env::Scope;
use crate::expr::{
    apply_op, arithmetic_overflow, division_by_zero, lemma_parse_number_before,
    lemma_parse_number_of_decimal_text, parse_number, parse_op, parse_operation, ExprView, Number,
    Op,
};
use crate::stmt::{eval_stmt, parse_stmt, Stmt, StmtView};
use crate::util::{is_whitespace, lemma_run_len_unique, scan_tag, scan_whitespace};
use vstd::prelude::*;

verus! {

/// Parses the statement that `s` begins with. Input behind the statement is
/// no error: a caller to whom it matters parses with `Stmt::new`, which hands
/// the remainder back.
pub fn parse(s: &str) -> (res: Result<Stmt, String>)
    ensures
        match res {
            Ok(stmt) => parse_stmt(s@) matches Ok((_, parsed)) && parsed == stmt@,
            Err(e) => parse_stmt(s@) matches Err(msg) && msg == e@,
        },
{
    match Stmt::new(s) {
        Ok((_, stmt)) => Ok(stmt),
        Err(e) => Err(e),
    }
}

/// What one line of input comes to in a chain of scopes, and the scopes after
/// it: a parse error or an evaluation error under its heading, nothing for
/// `Unit`, or else the value. A statement that fails leaves what it had bound
/// before.
pub open spec fn run_line(input: Seq<char>, scopes: Seq<Scope>) -> (
    Result<Option<Val>, Seq<char>>,
    Seq<Scope>,
) {
    match parse_stmt(input) {
        Err(e) => (Err("Parse error: "@ + e), scopes),
        Ok((_, stmt)) => {
            let (outcome, scopes) = eval_stmt(stmt, scopes);
            match outcome {
                Err(e) => (Err("Evaluation error: "@ + e), scopes),
                Ok(Val::Unit) => (Ok(None), scopes),
                Ok(val) => (Ok(Some(val)), scopes),
            }
        },
    }
}

/// The view of what `run` returned.
pub open spec fn line_outcome(res: Result<Option<Val>, String>) -> Result<Option<Val>, Seq<char>> {
    match res {
        Ok(val) => Ok(val),
        Err(e) => Err(e@),
    }
}

/// Parses and evaluates one line of input in `env`.
pub fn run(input: &str, env: &mut Env) -> (res: Result<Option<Val>, String>)
    ensures
        (line_outcome(res), final(env)@) == run_line(input@, old(env)@),
{
    let stmt = match parse(input) {
        Ok(stmt) => stmt,
        Err(msg) => {
            return Err("Parse error: ".to_owned().concat(msg.as_str()));
        },
    };
    let evaluated = match stmt.eval(env) {
        Ok(val) => val,
        Err(msg) => {
            return Err("Evaluation error: ".to_owned().concat(msg.as_str()));
        },
    };
    match evaluated {
        Val::Unit => Ok(None),
        val => Ok(Some(val)),
    }
}

/// The character of an operator.
pub open spec fn op_char(op: Op) -> char {
    match op {
        Op::Add => '+',
        Op::Sub => '-',
        Op::Mul => '*',
        Op::Div => '/',
    }
}

/// The text of an operation on two natural numbers: their decimal notations
/// around the operator, one space on either side of it.
pub open spec fn operation_text(lhs: nat, op: Op, rhs: nat) -> Seq<char> {
    decimal_text(lhs) + seq![' ', op_char(op), ' '] + decimal_text(rhs)
}

/// The text of an operation on two numbers that `i32` holds parses, to the
/// end, as that operation.
pub proof fn lemma_parse_operation_text(lhs: nat, op: Op, rhs: nat)
    requires
        lhs <= i32::MAX,
        rhs <= i32::MAX,
    ensures
        parse_stmt(operation_text(lhs, op, rhs)) == Ok::<(Seq<char>, StmtView), Seq<char>>(
            (
                Seq::empty(),
                StmtView::Expr(
                    ExprView::Operation { lhs: Number(lhs as i32), rhs: Number(rhs as i32), op },
                ),
            ),
        ),
{
    let text = operation_text(lhs, op, rhs);
    let after_lhs = seq![' ', op_char(op), ' '] + decimal_text(rhs);
    let at_op = seq![op_char(op), ' '] + decimal_text(rhs);
    let after_op = seq![' '] + decimal_text(rhs);
    lemma_decimal_text_value(lhs);
    lemma_decimal_text_value(rhs);
    reveal_strlit("let");
    reveal_strlit("+");
    reveal_strlit("-");
    reveal_strlit("*");
    reveal_strlit("/");

    assert(text =~= decimal_text(lhs) + after_lhs);
    lemma_parse_number_before(lhs, after_lhs);
    assert(parse_number(text) == Ok::<(Seq<char>, Number), Seq<char>>(
        (after_lhs, Number(lhs as i32)),
    ));

    lemma_run_len_unique(|c: char| is_whitespace(c), after_lhs, 1);
    assert(after_lhs.skip(1) =~= at_op);
    assert(scan_whitespace(after_lhs).0 == at_op);

    assert(at_op.subrange(0, 1) =~= seq![op_char(op)]);
    assert(at_op.skip(1) =~= after_op);
    assert(at_op.subrange(0, 1)[0] == op_char(op));
    assert(parse_op(at_op) == Ok::<(Seq<char>, Op), Seq<char>>((after_op, op)));

    assert(decimal_text(rhs)[0] == after_op[1]);
    lemma_run_len_unique(|c: char| is_whitespace(c), after_op, 1);
    assert(after_op.skip(1) =~= decimal_text(rhs));
    assert(scan_whitespace(after_op).0 == decimal_text(rhs));
    lemma_parse_number_of_decimal_text(rhs);

    assert(parse_operation(text) is Ok);
    assert(text[0] == decimal_text(lhs)[0]);
    assert(scan_tag("let"@, text) is Err) by {
        if "let"@.is_prefix_of(text) {
            assert(text.subrange(0, 3)[0] == 'l');
        }
    }
    assert(parse_binding_def(text) is Err);
}

/// Arithmetic from text: a line that holds an operation on two numbers that
/// `i32` holds runs to the exact result of the operation, the quotient
/// rounded towards zero, and leaves the scopes as they are. Where the result
/// is no `i32`, or the divisor is zero, the line fails with an evaluation
/// error.
pub proof fn lemma_run_operation_text(lhs: nat, op: Op, rhs: nat, scopes: Seq<Scope>)
    requires
        lhs <= i32::MAX,
        rhs <= i32::MAX,
    ensures
        run_line(operation_text(lhs, op, rhs), scopes) == (
            if op is Div && rhs == 0 {
                Err::<Option<Val>, Seq<char>>("Evaluation error: "@ + division_by_zero())
            } else if apply_op(op, lhs as int, rhs as int) <= i32::MAX {
                Ok(Some(Val::Number(apply_op(op, lhs as int, rhs as int) as i32)))
            } else {
                Err("Evaluation error: "@ + arithmetic_overflow(op))
            },
            scopes,
        ),
{
    lemma_parse_operation_text(lhs, op, rhs);
    if op is Div && rhs != 0 {
        assert(0 <= (lhs as int) / (rhs as int) <= lhs) by (nonlinear_arith)
            requires
                lhs >= 0,
                rhs > 0,
        ;
    }
    if op is Mul {
        assert(0 <= lhs * rhs) by (nonlinear_arith)
            requires
                lhs >= 0,
                rhs >= 0,
        ;
    }
}

} // verus!
