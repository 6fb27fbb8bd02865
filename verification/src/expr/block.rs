//! Blocks: statements between braces, evaluated one after the other in a
//! scope of their own.

use crate::env::{child, lookup, Env, Scope};
use crate::expr::{consumes, outcome, parsed, ExprView, Parsed};
use crate::stmt::{
    eval_stmt, lemma_eval_stmt_keeps_enclosing, lemma_parse_stmt_consumes, parse_stmt, Stmt,
    StmtView,
};
use crate::util::{extract_whitespace, is_whitespace, lemma_run_len, scan_tag, scan_whitespace, tag};
use crate::val::Val;
use vstd::prelude::*;

verus! {

/// A sequence of statements in braces.
#[derive(Debug, PartialEq, Eq)]
pub struct Block {
    pub stmts: Vec<Stmt>,
}

/// The contents of statements, in order.
pub open spec fn stmts_view(stmts: Seq<Stmt>) -> Seq<StmtView>
    decreases stmts,
{
    Seq::new(
        stmts.len(),
        |i: int|
            if 0 <= i < stmts.len() {
                stmts[i].content()
            } else {
                arbitrary()
            },
    )
}

impl Block {
    /// The contents of the block's statements, in order.
    pub open spec fn content(&self) -> Seq<StmtView>
        decreases self,
    {
        stmts_view(self.stmts@)
    }
}

impl View for Block {
    type V = Seq<StmtView>;

    open spec fn view(&self) -> Seq<StmtView> {
        self.content()
    }
}

/// The statements that `s` begins with, each followed by optional whitespace:
/// as many as parse, with what is left behind the last of them.
pub open spec fn parse_stmts(s: Seq<char>) -> (Seq<char>, Seq<StmtView>)
    decreases s.len(), 4nat,
{
    match parse_stmt(s) {
        Err(_) => (s, Seq::empty()),
        Ok((rest, stmt)) => {
            let rest = scan_whitespace(rest).0;
            // A statement is never empty, so the remainder is always shorter:
            // see `lemma_parse_stmts_step`.
            if rest.len() < s.len() {
                let (rest, stmts) = parse_stmts(rest);
                (rest, seq![stmt] + stmts)
            } else {
                (rest, seq![stmt])
            }
        },
    }
}

/// A block: `{`, optional whitespace, statements, optional whitespace, `}`.
pub open spec fn parse_block(s: Seq<char>) -> Parsed<Seq<StmtView>>
    decreases s.len(), 0nat,
{
    match scan_tag("{"@, s) {
        Err(e) => Err(e),
        Ok(rest) => {
            proof {
                reveal_strlit("{");
                lemma_run_len(|c: char| is_whitespace(c), rest);
            }
            let (rest, stmts) = parse_stmts(scan_whitespace(rest).0);
            match scan_tag("}"@, scan_whitespace(rest).0) {
                Err(e) => Err(e),
                Ok(rest) => Ok((rest, stmts)),
            }
        },
    }
}

/// The statements of `stmts` from index `from` on, evaluated in turn in
/// `scopes`: the outcome of the last one evaluated, which is the first that
/// fails or else the last of the block, and the scopes as they are then.
pub open spec fn eval_stmts(stmts: Seq<StmtView>, from: nat, scopes: Seq<Scope>) -> (
    Result<Val, Seq<char>>,
    Seq<Scope>,
)
    decreases stmts, stmts.len() - from,
{
    if from >= stmts.len() {
        (Ok(Val::Unit), scopes)
    } else {
        let (outcome, scopes) = eval_stmt(stmts[from as int], scopes);
        if outcome is Err || from + 1 == stmts.len() {
            (outcome, scopes)
        } else {
            eval_stmts(stmts, from + 1, scopes)
        }
    }
}

/// The value of a block: `Unit` if it is empty, else the outcome of its
/// statements in a fresh scope inside `scopes`.
pub open spec fn eval_block(stmts: Seq<StmtView>, scopes: Seq<Scope>) -> Result<Val, Seq<char>>
    decreases stmts, stmts.len() + 1,
{
    if stmts.len() == 0 {
        Ok(Val::Unit)
    } else {
        eval_stmts(stmts, 0, child(scopes)).0
    }
}

/// Where a statement parses, the statements of a block are that statement
/// and the statements behind it and its trailing whitespace.
pub proof fn lemma_parse_stmts_step(s: Seq<char>)
    ensures
        parse_stmt(s) matches Ok((rest, stmt)) ==> parse_stmts(s) == (
            parse_stmts(scan_whitespace(rest).0).0,
            seq![stmt] + parse_stmts(scan_whitespace(rest).0).1,
        ),
        parse_stmt(s) is Err ==> parse_stmts(s) == (s, Seq::<StmtView>::empty()),
{
    lemma_parse_stmt_consumes(s);
    if let Ok((rest, _)) = parse_stmt(s) {
        lemma_run_len(|c: char| is_whitespace(c), rest);
    }
}

/// The statements of a block leave no more than they were given.
pub proof fn lemma_parse_stmts_remainder(s: Seq<char>)
    ensures
        parse_stmts(s).0.len() <= s.len(),
    decreases s.len(), 4nat,
{
    lemma_parse_stmt_consumes(s);
    if let Ok((rest, _)) = parse_stmt(s) {
        lemma_run_len(|c: char| is_whitespace(c), rest);
        lemma_parse_stmts_remainder(scan_whitespace(rest).0);
    }
}

/// A block is never empty.
pub proof fn lemma_parse_block_consumes(s: Seq<char>)
    ensures
        consumes(s, parse_block(s)),
    decreases s.len(), 0nat,
{
    reveal_strlit("{");
    if let Ok(s1) = scan_tag("{"@, s) {
        lemma_run_len(|c: char| is_whitespace(c), s1);
        let s2 = scan_whitespace(s1).0;
        lemma_parse_stmts_remainder(s2);
        let s3 = parse_stmts(s2).0;
        lemma_run_len(|c: char| is_whitespace(c), s3);
    }
}

/// Statements bind in the innermost scope only: the number of scopes and
/// the enclosing scopes are after them what they were before.
pub proof fn lemma_eval_stmts_keeps_enclosing(stmts: Seq<StmtView>, from: nat, scopes: Seq<Scope>)
    requires
        scopes.len() > 0,
    ensures
        eval_stmts(stmts, from, scopes).1.len() == scopes.len(),
        eval_stmts(stmts, from, scopes).1.skip(1) == scopes.skip(1),
    decreases stmts.len() - from,
{
    if from < stmts.len() {
        lemma_eval_stmt_keeps_enclosing(stmts[from as int], scopes);
        let (outcome, after) = eval_stmt(stmts[from as int], scopes);
        if !(outcome is Err || from + 1 == stmts.len()) {
            lemma_eval_stmts_keeps_enclosing(stmts, from + 1, after);
        }
    }
}

/// Lexical scoping. Inside a block a name that the block has not bound has
/// the value that the enclosing scopes give it; what the block's statements
/// bind stays in the block's own scope; and after the block, evaluated as a
/// statement, the scopes are what they were before it.
pub proof fn lemma_block_scoping(stmts: Seq<StmtView>, scopes: Seq<Scope>, name: Seq<char>)
    ensures
        lookup(child(scopes), name) == lookup(scopes, name),
        eval_stmts(stmts, 0, child(scopes)).1.skip(1) == scopes,
        eval_stmt(StmtView::Expr(ExprView::Block { stmts }), scopes).1 == scopes,
{
    assert(child(scopes).skip(1) =~= scopes);
    lemma_eval_stmts_keeps_enclosing(stmts, 0, child(scopes));
}

impl Block {
    /// Parses a block: `{`, then statements separated by optional whitespace
    /// for as long as one parses, then `}`. Why the first statement that does
    /// not parse failed is not reported.
    pub fn new(s: &str) -> (res: Result<(&str, Self), String>)
        ensures
            parsed(res) == parse_block(s@),
        decreases s@.len(), 0nat,
    {
        let inner = tag("{", s)?;
        let (body, _) = extract_whitespace(inner);
        proof {
            reveal_strlit("{");
            lemma_run_len(|c: char| is_whitespace(c), inner@);
        }
        let mut rest = body;
        let mut stmts: Vec<Stmt> = Vec::new();
        assert(stmts_view(stmts@) + parse_stmts(rest@).1 =~= parse_stmts(body@).1);
        loop
            invariant
                rest@.len() < s@.len(),
                parse_stmts(body@).0 == parse_stmts(rest@).0,
                parse_stmts(body@).1 == stmts_view(stmts@) + parse_stmts(rest@).1,
            ensures
                parse_stmts(body@) == (rest@, stmts_view(stmts@)),
            decreases rest@.len(),
        {
            match Stmt::new(rest) {
                Ok((after, stmt)) => {
                    let (next, _) = extract_whitespace(after);
                    proof {
                        lemma_parse_stmt_consumes(rest@);
                        lemma_parse_stmts_step(rest@);
                        lemma_run_len(|c: char| is_whitespace(c), after@);
                        assert(stmts_view(stmts@.push(stmt)) =~= stmts_view(stmts@).push(stmt@));
                        assert(stmts_view(stmts@).push(stmt@) + parse_stmts(next@).1 =~= stmts_view(
                            stmts@,
                        ) + (seq![stmt@] + parse_stmts(next@).1));
                    }
                    stmts.push(stmt);
                    rest = next;
                },
                Err(_) => {
                    assert(stmts_view(stmts@) + Seq::<StmtView>::empty() =~= stmts_view(stmts@));
                    break ;
                },
            }
        }
        let (rest, _) = extract_whitespace(rest);
        let rest = tag("}", rest)?;
        Ok((rest, Block { stmts }))
    }

    /// Evaluates the block: `Unit` if it is empty; else its statements in
    /// turn, in a new scope inside `env`, up to the first that fails. The
    /// value of the last statement is the value of the block.
    pub fn eval(&self, env: &Env) -> (res: Result<Val, String>)
        ensures
            outcome(res) == eval_block(self@, env@),
        decreases self,
    {
        if self.stmts.len() == 0 {
            Ok(Val::Unit)
        } else {
            let mut child_env = env.create_child();
            let last: usize = self.stmts.len() - 1;
            let mut i: usize = 0;
            while i < last
                invariant
                    last + 1 == self.stmts.len(),
                    i <= last,
                    eval_stmts(self@, 0, child(env@)) == eval_stmts(self@, i as nat, child_env@),
                decreases last - i,
            {
                proof {
                    vstd::std_specs::vec::axiom_vec_index_decreases(self.stmts, i as int);
                }
                self.stmts[i].eval(&mut child_env)?;
                i += 1;
            }
            proof {
                vstd::std_specs::vec::axiom_vec_index_decreases(self.stmts, last as int);
            }
            self.stmts[last].eval(&mut child_env)
        }
    }
}

} // verus!
