//! Binding definitions: `let`, a name, `=` and an expression.

use crate::env::{store, Env};
use crate::expr::{
    consumes, eval_expr, lemma_parse_expr_consumes, parse_expr, parsed, Expr, ExprView, Parsed,
};
use crate::util::{
    extract_ident, extract_whitespace, extract_whitespace1, is_alphanumeric, is_whitespace,
    lemma_run_len, scan_ident, scan_tag, scan_whitespace, scan_whitespace1, tag,
};
use vstd::prelude::*;

verus! {

/// The definition of a binding.
#[derive(Debug, PartialEq, Eq)]
pub struct BindingDef {
    pub name: String,
    pub val: Expr,
}

impl View for BindingDef {
    type V = (Seq<char>, ExprView);

    /// The name and the content of the expression.
    open spec fn view(&self) -> (Seq<char>, ExprView) {
        (self.name@, self.val@)
    }
}

/// A binding definition: `let`, at least one whitespace character, an
/// identifier, `=` with optional whitespace around it, and an expression.
pub open spec fn parse_binding_def(s: Seq<char>) -> Parsed<(Seq<char>, ExprView)>
    decreases s.len(), 1nat,
{
    match scan_tag("let"@, s) {
        Err(e) => Err(e),
        Ok(s1) => match scan_whitespace1(s1) {
            Err(e) => Err(e),
            Ok((s2, _)) => match scan_ident(s2) {
                Err(e) => Err(e),
                Ok((s3, name)) => match scan_tag("="@, scan_whitespace(s3).0) {
                    Err(e) => Err(e),
                    Ok(s4) => {
                        proof {
                            lemma_run_len(|c: char| is_whitespace(c), s1);
                            lemma_run_len(|c: char| is_alphanumeric(c), s2);
                            lemma_run_len(|c: char| is_whitespace(c), s3);
                            lemma_run_len(|c: char| is_whitespace(c), s4);
                        }
                        match parse_expr(scan_whitespace(s4).0) {
                            Err(e) => Err(e),
                            Ok((rest, val)) => Ok((rest, (name, val))),
                        }
                    },
                },
            },
        },
    }
}

/// A binding definition is never empty.
pub proof fn lemma_parse_binding_def_consumes(s: Seq<char>)
    ensures
        consumes(s, parse_binding_def(s)),
    decreases s.len(), 1nat,
{
    if let Ok(s1) = scan_tag("let"@, s) {
        lemma_run_len(|c: char| is_whitespace(c), s1);
        if let Ok((s2, _)) = scan_whitespace1(s1) {
            lemma_run_len(|c: char| is_alphanumeric(c), s2);
            if let Ok((s3, _)) = scan_ident(s2) {
                lemma_run_len(|c: char| is_whitespace(c), s3);
                if let Ok(s4) = scan_tag("="@, scan_whitespace(s3).0) {
                    lemma_run_len(|c: char| is_whitespace(c), s4);
                    lemma_parse_expr_consumes(scan_whitespace(s4).0);
                }
            }
        }
    }
}

impl BindingDef {
    /// Parses `let`, whitespace, a name, `=` and an expression. The
    /// whitespace behind `let` is required; around `=` it is optional.
    pub fn new(s: &str) -> (res: Result<(&str, Self), String>)
        ensures
            parsed(res) == parse_binding_def(s@),
        decreases s@.len(), 1nat,
    {
        let s1 = tag("let", s)?;
        let (s2, _) = extract_whitespace1(s1)?;
        let (s3, name) = extract_ident(s2)?;
        let (s4, _) = extract_whitespace(s3);
        let s5 = tag("=", s4)?;
        let (s6, _) = extract_whitespace(s5);
        proof {
            lemma_run_len(|c: char| is_whitespace(c), s1@);
            lemma_run_len(|c: char| is_alphanumeric(c), s2@);
            lemma_run_len(|c: char| is_whitespace(c), s3@);
            lemma_run_len(|c: char| is_whitespace(c), s5@);
        }
        let (rest, val) = Expr::new(s6)?;
        Ok((rest, BindingDef { name: name.to_owned(), val }))
    }

    /// Evaluates the expression in `env` as it is, then binds the name to its
    /// value in the innermost scope. If the expression fails, `env` stays as
    /// it is.
    pub fn eval(&self, env: &mut Env) -> (res: Result<(), String>)
        ensures
            match eval_expr(self.val@, old(env)@) {
                Ok(val) => res is Ok && final(env)@ == store(old(env)@, self.name@, val),
                Err(e) => res matches Err(m) && m@ == e && final(env)@ == old(env)@,
            },
        decreases self,
    {
        let val = self.val.eval(env)?;
        env.store_binding(self.name.as_str(), val);
        Ok(())
    }
}

} // verus!
