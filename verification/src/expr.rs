//! Expressions: number literals, one binary operation on two literals, the
//! use of a binding, and blocks.

pub mod binding_usage;
pub mod block;

use crate::decimal::{decimal_text, decimal_value, lemma_decimal_text_value, parse_decimal};
use crate::env::{binding_value, Env, Scope};
use crate::expr::binding_usage::BindingUsage;
use crate::expr::block::{eval_block, lemma_parse_block_consumes, parse_block, Block};
use crate::stmt::StmtView;
use crate::util::{
    extract_digits, extract_whitespace, is_alphanumeric, is_digit, is_whitespace, lemma_run_len,
    lemma_run_len_unique, scan_digits, scan_ident, scan_tag, scan_whitespace, tag,
};
use crate::val::Val;
use vstd::prelude::*;

verus! {

/// A number literal.
#[derive(Debug, PartialEq, Eq)]
pub struct Number(pub i32);

/// The four binary operators.
#[derive(Debug, PartialEq, Eq)]
pub enum Op {
    Add,
    Sub,
    Mul,
    Div,
}

/// An expression of the language.
#[derive(Debug, PartialEq, Eq)]
pub enum Expr {
    Number(Number),
    Operation { lhs: Number, rhs: Number, op: Op },
    BindingUsage(BindingUsage),
    Block(Block),
}

/// The mathematical content of an expression: names as character sequences,
/// a block as the sequence of its statements.
pub enum ExprView {
    Number(Number),
    Operation { lhs: Number, rhs: Number, op: Op },
    BindingUsage { name: Seq<char> },
    Block { stmts: Seq<StmtView> },
}

impl View for Number {
    type V = Number;

    open spec fn view(&self) -> Number {
        *self
    }
}

impl View for Op {
    type V = Op;

    open spec fn view(&self) -> Op {
        *self
    }
}

impl Expr {
    /// The content of the expression, with the block's statements in order.
    pub open spec fn content(&self) -> ExprView
        decreases self,
    {
        match self {
            Expr::Number(number) => ExprView::Number(*number),
            Expr::Operation { lhs, rhs, op } => ExprView::Operation {
                lhs: *lhs,
                rhs: *rhs,
                op: *op,
            },
            Expr::BindingUsage(usage) => ExprView::BindingUsage { name: usage.name@ },
            Expr::Block(block) => ExprView::Block { stmts: block.content() },
        }
    }
}

impl View for Expr {
    type V = ExprView;

    open spec fn view(&self) -> ExprView {
        self.content()
    }
}

/// What a parser yields: the unconsumed remainder with the parsed node, or an
/// error message.
pub type Parsed<T> = Result<(Seq<char>, T), Seq<char>>;

/// The views of what an executable parser returned.
pub open spec fn parsed<T: View>(res: Result<(&str, T), String>) -> Parsed<T::V> {
    match res {
        Ok((rest, node)) => Ok((rest@, node@)),
        Err(e) => Err(e@),
    }
}

/// The view of what an evaluation returned.
pub open spec fn outcome(res: Result<Val, String>) -> Result<Val, Seq<char>> {
    match res {
        Ok(val) => Ok(val),
        Err(e) => Err(e@),
    }
}

/// A successful parse leaves less than it was given.
pub open spec fn consumes<T>(s: Seq<char>, res: Parsed<T>) -> bool {
    res matches Ok((rest, _)) ==> rest.len() < s.len()
}

/// The message for a digit run that denotes more than a signed 32-bit integer
/// holds.
pub open spec fn number_too_large() -> Seq<char> {
    "number too large to fit in target type"@
}

/// A number literal: a run of digits, without a sign, that fits `i32`.
pub open spec fn parse_number(s: Seq<char>) -> Parsed<Number> {
    match scan_digits(s) {
        Ok((rest, digits)) => if decimal_value(digits) <= i32::MAX {
            Ok((rest, Number(decimal_value(digits) as i32)))
        } else {
            Err(number_too_large())
        },
        Err(e) => Err(e),
    }
}

/// An operator: `+`, `-`, `*` and `/` are tried in this order, and the error
/// is that of the last one.
pub open spec fn parse_op(s: Seq<char>) -> Parsed<Op> {
    if let Ok(rest) = scan_tag("+"@, s) {
        Ok((rest, Op::Add))
    } else if let Ok(rest) = scan_tag("-"@, s) {
        Ok((rest, Op::Sub))
    } else if let Ok(rest) = scan_tag("*"@, s) {
        Ok((rest, Op::Mul))
    } else {
        match scan_tag("/"@, s) {
            Ok(rest) => Ok((rest, Op::Div)),
            Err(e) => Err(e),
        }
    }
}

/// An operation: a number, an operator and a number, with optional whitespace
/// around the operator.
pub open spec fn parse_operation(s: Seq<char>) -> Parsed<ExprView> {
    match parse_number(s) {
        Err(e) => Err(e),
        Ok((s, lhs)) => match parse_op(scan_whitespace(s).0) {
            Err(e) => Err(e),
            Ok((s, op)) => match parse_number(scan_whitespace(s).0) {
                Err(e) => Err(e),
                Ok((s, rhs)) => Ok((s, ExprView::Operation { lhs, rhs, op })),
            },
        },
    }
}

/// A number literal as an expression.
pub open spec fn parse_number_expr(s: Seq<char>) -> Parsed<ExprView> {
    match parse_number(s) {
        Ok((rest, number)) => Ok((rest, ExprView::Number(number))),
        Err(e) => Err(e),
    }
}

/// An identifier as the use of a binding.
pub open spec fn parse_binding_usage(s: Seq<char>) -> Parsed<ExprView> {
    match scan_ident(s) {
        Ok((rest, name)) => Ok((rest, ExprView::BindingUsage { name })),
        Err(e) => Err(e),
    }
}

/// A block as an expression.
pub open spec fn parse_block_expr(s: Seq<char>) -> Parsed<ExprView>
    decreases s.len(), 1nat,
{
    match parse_block(s) {
        Ok((rest, stmts)) => Ok((rest, ExprView::Block { stmts })),
        Err(e) => Err(e),
    }
}

/// An expression: the alternatives are tried in the order operation, number,
/// binding usage, block. The first that succeeds wins; if none does, the
/// error is that of the block.
pub open spec fn parse_expr(s: Seq<char>) -> Parsed<ExprView>
    decreases s.len(), 2nat,
{
    if parse_operation(s) is Ok {
        parse_operation(s)
    } else if parse_number_expr(s) is Ok {
        parse_number_expr(s)
    } else if parse_binding_usage(s) is Ok {
        parse_binding_usage(s)
    } else {
        parse_block_expr(s)
    }
}

/// The quotient of `lhs` by `rhs`, rounded towards zero.
pub open spec fn truncating_quotient(lhs: int, rhs: int) -> int
    recommends
        rhs != 0,
{
    if lhs >= 0 && rhs > 0 {
        lhs / rhs
    } else if lhs < 0 && rhs < 0 {
        (-lhs) / (-rhs)
    } else if lhs < 0 {
        -((-lhs) / rhs)
    } else {
        -(lhs / (-rhs))
    }
}

/// The exact result of an operation on integers.
pub open spec fn apply_op(op: Op, lhs: int, rhs: int) -> int
    recommends
        op is Div ==> rhs != 0,
{
    match op {
        Op::Add => lhs + rhs,
        Op::Sub => lhs - rhs,
        Op::Mul => lhs * rhs,
        Op::Div => truncating_quotient(lhs, rhs),
    }
}

/// The message for a division whose divisor is zero.
pub open spec fn division_by_zero() -> Seq<char> {
    "attempt to divide by zero"@
}

/// The message for an operation whose exact result no `i32` holds.
pub open spec fn arithmetic_overflow(op: Op) -> Seq<char> {
    match op {
        Op::Add => "attempt to add with overflow"@,
        Op::Sub => "attempt to subtract with overflow"@,
        Op::Mul => "attempt to multiply with overflow"@,
        Op::Div => "attempt to divide with overflow"@,
    }
}

/// The value of an operation: the exact result where it is a signed 32-bit
/// integer. A zero divisor and a result out of range are errors.
pub open spec fn eval_operation(lhs: Number, rhs: Number, op: Op) -> Result<Val, Seq<char>> {
    if op is Div && rhs.0 == 0 {
        Err(division_by_zero())
    } else if i32::MIN <= apply_op(op, lhs.0 as int, rhs.0 as int) <= i32::MAX {
        Ok(Val::Number(apply_op(op, lhs.0 as int, rhs.0 as int) as i32))
    } else {
        Err(arithmetic_overflow(op))
    }
}

/// The value of an expression in a chain of scopes.
pub open spec fn eval_expr(e: ExprView, scopes: Seq<Scope>) -> Result<Val, Seq<char>>
    decreases e, 0nat,
{
    match e {
        ExprView::Number(number) => Ok(Val::Number(number.0)),
        ExprView::Operation { lhs, rhs, op } => eval_operation(lhs, rhs, op),
        ExprView::BindingUsage { name } => binding_value(scopes, name),
        ExprView::Block { stmts } => eval_block(stmts, scopes),
    }
}

/// A number is never empty.
pub proof fn lemma_parse_number_consumes(s: Seq<char>)
    ensures
        consumes(s, parse_number(s)),
{
    lemma_run_len(|c: char| is_digit(c), s);
}

/// An operator is never empty.
pub proof fn lemma_parse_op_consumes(s: Seq<char>)
    ensures
        consumes(s, parse_op(s)),
{
    reveal_strlit("+");
    reveal_strlit("-");
    reveal_strlit("*");
    reveal_strlit("/");
}

/// An operation is never empty.
pub proof fn lemma_parse_operation_consumes(s: Seq<char>)
    ensures
        consumes(s, parse_operation(s)),
{
    lemma_parse_number_consumes(s);
    if let Ok((s1, _)) = parse_number(s) {
        lemma_run_len(|c: char| is_whitespace(c), s1);
        let s2 = scan_whitespace(s1).0;
        lemma_parse_op_consumes(s2);
        if let Ok((s3, _)) = parse_op(s2) {
            lemma_run_len(|c: char| is_whitespace(c), s3);
            lemma_parse_number_consumes(scan_whitespace(s3).0);
        }
    }
}

/// An identifier is never empty.
pub proof fn lemma_scan_ident_consumes(s: Seq<char>)
    ensures
        consumes(s, scan_ident(s)),
{
    lemma_run_len(|c: char| is_alphanumeric(c), s);
}

/// An expression is never empty.
pub proof fn lemma_parse_expr_consumes(s: Seq<char>)
    ensures
        consumes(s, parse_expr(s)),
    decreases s.len(), 2nat,
{
    lemma_parse_operation_consumes(s);
    lemma_parse_number_consumes(s);
    lemma_scan_ident_consumes(s);
    lemma_parse_block_consumes(s);
}

impl Number {
    /// Parses a number literal: the leading digits, read as a decimal number.
    /// There is no sign. A digit run too large for `i32` is an error.
    pub fn new(s: &str) -> (res: Result<(&str, Self), String>)
        ensures
            parsed(res) == parse_number(s@),
    {
        let (rest, number) = extract_digits(s)?;
        proof {
            lemma_run_len(|c: char| is_digit(c), s@);
        }
        match parse_decimal(number) {
            Some(n) => Ok((rest, Number(n))),
            None => Err("number too large to fit in target type".to_owned()),
        }
    }
}

impl Op {
    /// Parses an operator character.
    pub fn new(s: &str) -> (res: Result<(&str, Self), String>)
        ensures
            parsed(res) == parse_op(s@),
    {
        if let Ok(rest) = tag("+", s) {
            return Ok((rest, Op::Add));
        }
        if let Ok(rest) = tag("-", s) {
            return Ok((rest, Op::Sub));
        }
        if let Ok(rest) = tag("*", s) {
            return Ok((rest, Op::Mul));
        }
        match tag("/", s) {
            Ok(rest) => Ok((rest, Op::Div)),
            Err(e) => Err(e),
        }
    }
}

impl Expr {
    /// Parses an expression, trying operation, number, binding usage and
    /// block in this order.
    pub fn new(s: &str) -> (res: Result<(&str, Self), String>)
        ensures
            parsed(res) == parse_expr(s@),
        decreases s@.len(), 2nat,
    {
        if let Ok(found) = Self::new_operation(s) {
            return Ok(found);
        }
        if let Ok(found) = Self::new_number(s) {
            return Ok(found);
        }
        if let Ok((rest, usage)) = BindingUsage::new(s) {
            return Ok((rest, Expr::BindingUsage(usage)));
        }
        match Block::new(s) {
            Ok((rest, block)) => Ok((rest, Expr::Block(block))),
            Err(e) => Err(e),
        }
    }

    /// Parses a number, an operator and a number.
    pub fn new_operation(s: &str) -> (res: Result<(&str, Self), String>)
        ensures
            parsed(res) == parse_operation(s@),
    {
        let (rest, lhs) = Number::new(s)?;
        let (rest, _) = extract_whitespace(rest);
        let (rest, op) = Op::new(rest)?;
        let (rest, _) = extract_whitespace(rest);
        let (rest, rhs) = Number::new(rest)?;
        Ok((rest, Expr::Operation { lhs, rhs, op }))
    }

    /// Parses a number literal as an expression.
    pub fn new_number(s: &str) -> (res: Result<(&str, Self), String>)
        ensures
            parsed(res) == parse_number_expr(s@),
    {
        match Number::new(s) {
            Ok((rest, number)) => Ok((rest, Expr::Number(number))),
            Err(e) => Err(e),
        }
    }

    /// Evaluates the expression in `env`. A block gets a scope of its own, so
    /// `env` itself is never changed.
    pub fn eval(&self, env: &Env) -> (res: Result<Val, String>)
        ensures
            outcome(res) == eval_expr(self@, env@),
        decreases self,
    {
        match self {
            Expr::Number(Number(n)) => Ok(Val::Number(*n)),
            Expr::Operation { lhs, rhs, op } => {
                let Number(lhs) = lhs;
                let Number(rhs) = rhs;
                let result = match op {
                    Op::Add => lhs.checked_add(*rhs),
                    Op::Sub => lhs.checked_sub(*rhs),
                    Op::Mul => lhs.checked_mul(*rhs),
                    Op::Div => {
                        if *rhs == 0 {
                            return Err("attempt to divide by zero".to_owned());
                        }
                        lhs.checked_div(*rhs)
                    },
                };
                match result {
                    Some(n) => Ok(Val::Number(n)),
                    None => Err(
                        match op {
                            Op::Add => "attempt to add with overflow".to_owned(),
                            Op::Sub => "attempt to subtract with overflow".to_owned(),
                            Op::Mul => "attempt to multiply with overflow".to_owned(),
                            Op::Div => "attempt to divide with overflow".to_owned(),
                        },
                    ),
                }
            },
            Expr::BindingUsage(usage) => usage.eval(env),
            Expr::Block(block) => block.eval(env),
        }
    }
}

/// A number's decimal notation, followed by anything that does not begin
/// with a digit, parses as that number and leaves what follows.
pub proof fn lemma_parse_number_before(n: nat, rest: Seq<char>)
    requires
        n <= i32::MAX,
        rest.len() > 0 ==> !is_digit(rest[0]),
    ensures
        parse_number(decimal_text(n) + rest) == Ok::<(Seq<char>, Number), Seq<char>>(
            (rest, Number(n as i32)),
        ),
{
    let digits = decimal_text(n);
    let s = digits + rest;
    lemma_decimal_text_value(n);
    lemma_run_len_unique(|c: char| is_digit(c), s, digits.len());
    assert(s.take(digits.len() as int) =~= digits);
    assert(s.skip(digits.len() as int) =~= rest);
}

/// The decimal notation of a number that `i32` holds parses as that number,
/// and nothing is left.
pub proof fn lemma_parse_number_of_decimal_text(n: nat)
    requires
        n <= i32::MAX,
    ensures
        parse_number(decimal_text(n)) == Ok::<(Seq<char>, Number), Seq<char>>(
            (Seq::empty(), Number(n as i32)),
        ),
{
    lemma_parse_number_before(n, Seq::empty());
    assert(decimal_text(n) + Seq::<char>::empty() =~= decimal_text(n));
}

} // verus!
