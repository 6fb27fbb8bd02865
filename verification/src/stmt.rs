//! Statements: binding definitions and bare expressions.

use crate::binding_def::{lemma_parse_binding_def_consumes, parse_binding_def, BindingDef};
use crate::env::{store, Env, Scope};
use crate::expr::{
    consumes, eval_expr, lemma_parse_expr_consumes, outcome, parse_expr, parsed, Expr, ExprView,
    Parsed,
};
use crate::val::Val;
use vstd::prelude::*;

verus! {

/// A statement of the language.
#[derive(Debug, PartialEq, Eq)]
pub enum Stmt {
    BindingDef(BindingDef),
    Expr(Expr),
}

/// The mathematical content of a statement.
pub enum StmtView {
    BindingDef { name: Seq<char>, val: ExprView },
    Expr(ExprView),
}

impl Stmt {
    /// The content of the statement.
    pub open spec fn content(&self) -> StmtView
        decreases self,
    {
        match self {
            Stmt::BindingDef(binding_def) => StmtView::BindingDef {
                name: binding_def.name@,
                val: binding_def.val.content(),
            },
            Stmt::Expr(e) => StmtView::Expr(e.content()),
        }
    }
}

impl View for Stmt {
    type V = StmtView;

    open spec fn view(&self) -> StmtView {
        self.content()
    }
}

/// A statement: a binding definition if one parses, else an expression, with
/// the expression's error if neither does.
pub open spec fn parse_stmt(s: Seq<char>) -> Parsed<StmtView>
    decreases s.len(), 3nat,
{
    match parse_binding_def(s) {
        Ok((rest, (name, val))) => Ok((rest, StmtView::BindingDef { name, val })),
        Err(_) => match parse_expr(s) {
            Ok((rest, e)) => Ok((rest, StmtView::Expr(e))),
            Err(e) => Err(e),
        },
    }
}

/// The outcome of a statement and the scopes after it. A binding definition
/// evaluates its expression in the scopes as they are, binds the name in the
/// innermost scope and yields `Unit`; if the expression fails nothing is
/// bound. An expression statement leaves the scopes as they are.
pub open spec fn eval_stmt(stmt: StmtView, scopes: Seq<Scope>) -> (
    Result<Val, Seq<char>>,
    Seq<Scope>,
)
    decreases stmt, 0nat,
{
    match stmt {
        StmtView::BindingDef { name, val } => match eval_expr(val, scopes) {
            Ok(v) => (Ok(Val::Unit), store(scopes, name, v)),
            Err(e) => (Err(e), scopes),
        },
        StmtView::Expr(e) => (eval_expr(e, scopes), scopes),
    }
}

/// A statement is never empty.
pub proof fn lemma_parse_stmt_consumes(s: Seq<char>)
    ensures
        consumes(s, parse_stmt(s)),
    decreases s.len(), 3nat,
{
    lemma_parse_binding_def_consumes(s);
    lemma_parse_expr_consumes(s);
}

/// A statement binds in the innermost scope only: the number of scopes and
/// the enclosing scopes are after it what they were before.
pub proof fn lemma_eval_stmt_keeps_enclosing(stmt: StmtView, scopes: Seq<Scope>)
    requires
        scopes.len() > 0,
    ensures
        eval_stmt(stmt, scopes).1.len() == scopes.len(),
        eval_stmt(stmt, scopes).1.skip(1) == scopes.skip(1),
{
    assert(eval_stmt(stmt, scopes).1.skip(1) =~= scopes.skip(1));
}

impl Stmt {
    /// Parses a statement: a binding definition, or else an expression.
    pub fn new(s: &str) -> (res: Result<(&str, Self), String>)
        ensures
            parsed(res) == parse_stmt(s@),
        decreases s@.len(), 3nat,
    {
        if let Ok((rest, binding_def)) = BindingDef::new(s) {
            return Ok((rest, Stmt::BindingDef(binding_def)));
        }
        match Expr::new(s) {
            Ok((rest, e)) => Ok((rest, Stmt::Expr(e))),
            Err(e) => Err(e),
        }
    }

    /// Evaluates the statement in `env`. A binding definition yields `Unit`
    /// and binds its name in `env`; an expression yields its value and leaves
    /// `env` as it is.
    pub fn eval(&self, env: &mut Env) -> (res: Result<Val, String>)
        ensures
            (outcome(res), final(env)@) == eval_stmt(self@, old(env)@),
        decreases self,
    {
        match self {
            Stmt::BindingDef(binding_def) => {
                binding_def.eval(env)?;
                Ok(Val::Unit)
            },
            Stmt::Expr(e) => e.eval(env),
        }
    }
}

} // verus!
