//! The grammar of the language as a relation, and the proof that the parser
//! takes every text of the grammar in full.
//!
//! ```text
//! stmt          := binding_def | expr
//! binding_def   := "let" ws+ ident ws* "=" ws* expr
//! expr          := operation | number | binding_usage | block
//! operation     := number ws* op ws* number
//! number        := digit+
//! op            := "+" | "-" | "*" | "/"
//! binding_usage := ident
//! block         := "{" ws* (stmt ws*)* "}"
//! ident         := alpha alphanum*
//! ws            := " " | "\n"
//! ```
//!
//! Each predicate relates a text to what follows the phrase at its start.
//! Tokens are the longest possible: a number is the whole run of digits that
//! it begins, an identifier the whole run of letters and digits, and
//! whitespace is skipped to its end. A number must fit a signed 32-bit
//! integer.
//!
//! So two statements of a block that stand side by side without whitespace
//! are read as they run together: `{12}` holds the number 12, not 1 and 2,
//! and `{alet x = 1}` is no block, because `alet` is one identifier and a
//! statement cannot begin with `=`.

use crate::binding_def::parse_binding_def;
use crate::decimal::decimal_value;
use crate::expr::block::{parse_block, parse_stmts};
use crate::expr::{parse_binding_usage, parse_expr, parse_number, parse_op, parse_operation};
use crate::stmt::parse_stmt;
use crate::util::{
    alphanumeric_len, digits_len, is_alphabetic, is_alphanumeric, is_digit, is_op_char,
    is_whitespace, lemma_run_len, lemma_run_len_unique, scan_ident, scan_tag, scan_whitespace,
    scan_whitespace1, whitespace_len,
};
use vstd::prelude::*;

verus! {

/// `number := digit+`, in range.
pub open spec fn is_number(s: Seq<char>, rest: Seq<char>) -> bool {
    let n = digits_len(s) as int;
    n > 0 && decimal_value(s.take(n)) <= i32::MAX && rest == s.skip(n)
}

/// `ident := alpha alphanum*`.
pub open spec fn is_ident(s: Seq<char>, rest: Seq<char>) -> bool {
    s.len() > 0 && is_alphabetic(s[0]) && rest == s.skip(alphanumeric_len(s) as int)
}

/// `operation := number ws* op ws* number`.
pub open spec fn is_operation(s: Seq<char>, rest: Seq<char>) -> bool {
    let at_op = scan_whitespace(s.skip(digits_len(s) as int)).0;
    &&& is_number(s, s.skip(digits_len(s) as int))
    &&& at_op.len() > 0
    &&& is_op_char(at_op[0])
    &&& is_number(scan_whitespace(at_op.skip(1)).0, rest)
}

/// `expr := operation | number | binding_usage | block`.
pub open spec fn is_expr(s: Seq<char>, rest: Seq<char>) -> bool
    decreases s.len(), 2nat,
{
    is_operation(s, rest) || is_number(s, rest) || is_ident(s, rest) || is_block(s, rest)
}

/// `block := "{" ws* (stmt ws*)* "}"`.
pub open spec fn is_block(s: Seq<char>, rest: Seq<char>) -> bool
    decreases s.len(), 1nat,
{
    s.len() > 0 && s[0] == '{' && is_body(s.skip(1), seq!['}'] + rest)
}

/// `ws* (stmt ws*)*`, followed by `end`.
pub open spec fn is_body(s: Seq<char>, end: Seq<char>) -> bool
    decreases s.len(), 4nat,
{
    proof {
        lemma_run_len(|c: char| is_whitespace(c), s);
    }
    let t = scan_whitespace(s).0;
    t == end || exists|mid: Seq<char>|
        #[trigger] mid.len() < t.len() && is_stmt(t, mid) && is_body(mid, end)
}

/// `stmt := binding_def | expr`.
pub open spec fn is_stmt(s: Seq<char>, rest: Seq<char>) -> bool
    decreases s.len(), 3nat,
{
    is_binding_def(s, rest) || is_expr(s, rest)
}

/// `binding_def := "let" ws+ ident ws* "=" ws* expr`.
pub open spec fn is_binding_def(s: Seq<char>, rest: Seq<char>) -> bool
    decreases s.len(), 1nat,
{
    let at_name = scan_whitespace(s.skip(3)).0;
    let at_eq = scan_whitespace(at_name.skip(alphanumeric_len(at_name) as int)).0;
    &&& seq!['l', 'e', 't'].is_prefix_of(s)
    &&& whitespace_len(s.skip(3)) > 0
    &&& at_name.len() > 0
    &&& is_alphabetic(at_name[0])
    &&& at_eq.len() > 0
    &&& at_eq[0] == '='
    &&& {
        proof {
            lemma_run_len(|c: char| is_whitespace(c), s.skip(3));
            lemma_run_len(|c: char| is_alphanumeric(c), at_name);
            lemma_run_len(
                |c: char| is_whitespace(c),
                at_name.skip(alphanumeric_len(at_name) as int),
            );
            lemma_run_len(|c: char| is_whitespace(c), at_eq.skip(1));
        }
        is_expr(scan_whitespace(at_eq.skip(1)).0, rest)
    }
}

/// A text that is one statement from its first character to its last.
pub open spec fn is_statement_text(text: Seq<char>) -> bool {
    is_stmt(text, Seq::empty())
}

/// What follows a phrase lets it end there: nothing, or the rest of a block's
/// body up to the closing brace.
spec fn closes(rest: Seq<char>) -> bool {
    rest.len() == 0 || exists|end: Seq<char>|
        end.len() > 0 && end[0] == '}' && #[trigger] is_body(rest, end)
}

/// The characters that a statement can begin with.
spec fn begins_stmt(c: char) -> bool {
    is_digit(c) || is_alphabetic(c) || c == '{'
}

/// A literal of one character is matched by its character alone.
proof fn lemma_scan_tag_char(lit: Seq<char>, s: Seq<char>)
    requires
        lit.len() == 1,
    ensures
        scan_tag(lit, s) is Ok <==> s.len() > 0 && s[0] == lit[0],
        scan_tag(lit, s) is Ok ==> scan_tag(lit, s) == Ok::<Seq<char>, Seq<char>>(s.skip(1)),
{
    if s.len() > 0 {
        assert(s.subrange(0, 1)[0] == s[0]);
        if s[0] == lit[0] {
            assert(lit =~= s.subrange(0, 1));
        }
    }
}

/// `let` is matched by its three letters.
proof fn lemma_scan_tag_let(s: Seq<char>)
    ensures
        scan_tag("let"@, s) is Ok <==> seq!['l', 'e', 't'].is_prefix_of(s),
        scan_tag("let"@, s) is Ok ==> scan_tag("let"@, s) == Ok::<Seq<char>, Seq<char>>(
            s.skip(3),
        ) && s.len() >= 3 && s[0] == 'l' && s[1] == 'e' && s[2] == 't',
{
    reveal_strlit("let");
    assert("let"@ =~= seq!['l', 'e', 't']);
    if seq!['l', 'e', 't'].is_prefix_of(s) {
        assert(s.subrange(0, 3)[0] == s[0]);
        assert(s.subrange(0, 3)[1] == s[1]);
        assert(s.subrange(0, 3)[2] == s[2]);
    }
}

/// An operator is matched by its character alone.
proof fn lemma_parse_op_char(s: Seq<char>)
    ensures
        parse_op(s) is Ok <==> s.len() > 0 && is_op_char(s[0]),
        parse_op(s) matches Ok((rest, _)) ==> rest == s.skip(1),
{
    reveal_strlit("+");
    reveal_strlit("-");
    reveal_strlit("*");
    reveal_strlit("/");
    lemma_scan_tag_char("+"@, s);
    lemma_scan_tag_char("-"@, s);
    lemma_scan_tag_char("*"@, s);
    lemma_scan_tag_char("/"@, s);
}

/// A statement begins with a digit, a letter or an opening brace.
proof fn lemma_stmt_begins(s: Seq<char>, rest: Seq<char>)
    requires
        is_stmt(s, rest),
    ensures
        s.len() > 0,
        begins_stmt(s[0]),
{
    if is_binding_def(s, rest) {
        assert(s.subrange(0, 3)[0] == s[0]);
    }
}

/// Behind its leading whitespace, a body that a brace closes goes on with a
/// statement or with that brace.
proof fn lemma_body_begins(s: Seq<char>, end: Seq<char>)
    requires
        is_body(s, end),
        end.len() > 0,
        end[0] == '}',
    ensures
        scan_whitespace(s).0.len() > 0,
        scan_whitespace(s).0[0] == '}' || begins_stmt(scan_whitespace(s).0[0]),
{
    let t = scan_whitespace(s).0;
    if t != end {
        let mid = choose|mid: Seq<char>|
            #[trigger] mid.len() < t.len() && is_stmt(t, mid) && is_body(mid, end);
        lemma_stmt_begins(t, mid);
    }
}

/// Where a phrase may end, no operator and no `=` comes next.
proof fn lemma_closes_begins(rest: Seq<char>)
    requires
        closes(rest),
    ensures
        scan_whitespace(rest).0.len() == 0 || scan_whitespace(rest).0[0] == '}' || begins_stmt(
            scan_whitespace(rest).0[0],
        ),
{
    lemma_run_len(|c: char| is_whitespace(c), rest);
    if rest.len() > 0 {
        let end = choose|end: Seq<char>|
            end.len() > 0 && end[0] == '}' && #[trigger] is_body(rest, end);
        lemma_body_begins(rest, end);
    }
}

/// No statement begins with a closing brace.
proof fn lemma_no_stmt_at_brace(s: Seq<char>)
    requires
        s.len() > 0,
        s[0] == '}',
    ensures
        parse_stmt(s) is Err,
{
    reveal_strlit("{");
    lemma_scan_tag_let(s);
    lemma_scan_tag_char("{"@, s);
}

/// A number of the grammar parses as a number.
proof fn lemma_number_parses(s: Seq<char>, rest: Seq<char>)
    requires
        is_number(s, rest),
    ensures
        parse_number(s) matches Ok((r, _)) && r == rest,
{
}

/// An operation of the grammar parses as an operation.
proof fn lemma_operation_parses(s: Seq<char>, rest: Seq<char>)
    requires
        is_operation(s, rest),
    ensures
        parse_operation(s) matches Ok((r, _)) && r == rest,
{
    let after_lhs = s.skip(digits_len(s) as int);
    let at_op = scan_whitespace(after_lhs).0;
    lemma_number_parses(s, after_lhs);
    lemma_parse_op_char(at_op);
    lemma_number_parses(scan_whitespace(at_op.skip(1)).0, rest);
}

/// A number that may end where it does is not the beginning of an operation.
proof fn lemma_number_is_no_operation(s: Seq<char>, rest: Seq<char>)
    requires
        is_number(s, rest),
        closes(rest),
    ensures
        parse_operation(s) is Err,
{
    lemma_number_parses(s, rest);
    lemma_closes_begins(rest);
    lemma_parse_op_char(scan_whitespace(rest).0);
}

/// An expression that may end where it does is not the beginning of a
/// binding definition.
proof fn lemma_expr_is_no_binding_def(s: Seq<char>, rest: Seq<char>)
    requires
        is_expr(s, rest),
        closes(rest),
    ensures
        parse_binding_def(s) is Err,
{
    lemma_scan_tag_let(s);
    reveal_strlit("=");
    if let Ok(s1) = scan_tag("let"@, s) {
        // The expression begins with a letter, so it is an identifier.
        assert(is_ident(s, rest));
        if let Ok((s2, _)) = scan_whitespace1(s1) {
            lemma_run_len(|c: char| is_whitespace(c), s1);
            // The identifier is `let`, and `rest` is what follows it.
            lemma_run_len_unique(|c: char| is_alphanumeric(c), s, 3);
            assert(rest == s1);
            if let Ok((s3, _)) = scan_ident(s2) {
                let s4 = scan_whitespace(s3).0;
                lemma_scan_tag_char("="@, s4);
                let end = choose|end: Seq<char>|
                    end.len() > 0 && end[0] == '}' && #[trigger] is_body(s1, end);
                assert(s2 != end);
                let mid = choose|mid: Seq<char>|
                    #[trigger] mid.len() < s2.len() && is_stmt(s2, mid) && is_body(mid, end);
                if is_binding_def(s2, mid) {
                    lemma_scan_tag_let(s2);
                    lemma_run_len(|c: char| is_whitespace(c), s2.skip(3));
                    lemma_run_len_unique(|c: char| is_alphanumeric(c), s2, 3);
                    assert(s3 == s2.skip(3));
                } else {
                    assert(is_ident(s2, mid));
                    lemma_body_begins(s3, end);
                }
            }
        }
    }
}

/// An expression of the grammar that may end where it does parses as an
/// expression, up to that place.
proof fn lemma_expr_parses(s: Seq<char>, rest: Seq<char>)
    requires
        is_expr(s, rest),
        closes(rest),
    ensures
        parse_expr(s) matches Ok((r, _)) && r == rest,
    decreases s.len(), 2nat,
{
    if is_operation(s, rest) {
        lemma_operation_parses(s, rest);
    } else if is_number(s, rest) {
        lemma_number_is_no_operation(s, rest);
        lemma_number_parses(s, rest);
    } else if is_ident(s, rest) {
        assert(parse_number(s) is Err);
        assert(parse_binding_usage(s) is Ok);
    } else {
        assert(parse_number(s) is Err);
        assert(parse_binding_usage(s) is Err);
        lemma_block_parses(s, rest);
    }
}

/// A block of the grammar parses as a block.
proof fn lemma_block_parses(s: Seq<char>, rest: Seq<char>)
    requires
        is_block(s, rest),
    ensures
        parse_block(s) matches Ok((r, _)) && r == rest,
    decreases s.len(), 1nat,
{
    reveal_strlit("{");
    reveal_strlit("}");
    lemma_scan_tag_char("{"@, s);
    let end = seq!['}'] + rest;
    lemma_body_parses(s.skip(1), end);
    lemma_run_len_unique(|c: char| is_whitespace(c), end, 0);
    assert(scan_whitespace(end).0 =~= end);
    lemma_scan_tag_char("}"@, end);
    assert(end.skip(1) =~= rest);
}

/// The statements of a body that a brace closes are parsed up to that brace.
proof fn lemma_body_parses(s: Seq<char>, end: Seq<char>)
    requires
        is_body(s, end),
        end.len() > 0,
        end[0] == '}',
    ensures
        parse_stmts(scan_whitespace(s).0).0 == end,
    decreases s.len(), 4nat,
{
    let t = scan_whitespace(s).0;
    lemma_run_len(|c: char| is_whitespace(c), s);
    if t == end {
        lemma_no_stmt_at_brace(t);
    } else {
        let mid = choose|mid: Seq<char>|
            #[trigger] mid.len() < t.len() && is_stmt(t, mid) && is_body(mid, end);
        lemma_stmt_parses(t, mid);
        lemma_run_len(|c: char| is_whitespace(c), mid);
        lemma_body_parses(mid, end);
    }
}

/// A statement of the grammar that may end where it does parses as a
/// statement, up to that place.
proof fn lemma_stmt_parses(s: Seq<char>, rest: Seq<char>)
    requires
        is_stmt(s, rest),
        closes(rest),
    ensures
        parse_stmt(s) matches Ok((r, _)) && r == rest,
    decreases s.len(), 3nat,
{
    if is_binding_def(s, rest) {
        lemma_binding_def_parses(s, rest);
    } else {
        lemma_expr_is_no_binding_def(s, rest);
        lemma_expr_parses(s, rest);
    }
}

/// A binding definition of the grammar that may end where it does parses as
/// a binding definition, up to that place.
proof fn lemma_binding_def_parses(s: Seq<char>, rest: Seq<char>)
    requires
        is_binding_def(s, rest),
        closes(rest),
    ensures
        parse_binding_def(s) matches Ok((r, _)) && r == rest,
    decreases s.len(), 1nat,
{
    reveal_strlit("=");
    lemma_scan_tag_let(s);
    let s1 = s.skip(3);
    let at_name = scan_whitespace(s1).0;
    let after_name = at_name.skip(alphanumeric_len(at_name) as int);
    let at_eq = scan_whitespace(after_name).0;
    lemma_scan_tag_char("="@, at_eq);
    lemma_run_len(|c: char| is_whitespace(c), s1);
    lemma_run_len(|c: char| is_alphanumeric(c), at_name);
    lemma_run_len(|c: char| is_whitespace(c), after_name);
    lemma_run_len(|c: char| is_whitespace(c), at_eq.skip(1));
    lemma_expr_parses(scan_whitespace(at_eq.skip(1)).0, rest);
}

/// The parser takes every statement of the grammar in full: for a text that
/// is one statement from beginning to end, parsing succeeds and nothing is
/// left.
pub proof fn lemma_statement_text_parses_whole(text: Seq<char>)
    requires
        is_statement_text(text),
    ensures
        parse_stmt(text) matches Ok((rest, _)) && rest.len() == 0,
{
    lemma_stmt_parses(text, Seq::empty());
}

/// Skipping whitespace leaves a text that begins with none.
proof fn lemma_whitespace_skipped(s: Seq<char>)
    ensures
        scan_whitespace(scan_whitespace(s).0).0 == scan_whitespace(s).0,
{
    let t = scan_whitespace(s).0;
    lemma_run_len(|c: char| is_whitespace(c), s);
    if t.len() > 0 {
        assert(t[0] == s[whitespace_len(s) as int]);
    }
    assert(t.skip(0) =~= t);
}

/// What parses as an operation is an operation of the grammar.
proof fn lemma_parsed_operation(s: Seq<char>)
    ensures
        parse_operation(s) matches Ok((rest, _)) ==> is_operation(s, rest),
{
    if let Ok((s1, _)) = parse_number(s) {
        lemma_parse_op_char(scan_whitespace(s1).0);
    }
}

/// What parses as an expression is an expression of the grammar.
proof fn lemma_parsed_expr(s: Seq<char>)
    ensures
        parse_expr(s) matches Ok((rest, _)) ==> is_expr(s, rest),
    decreases s.len(), 2nat,
{
    lemma_parsed_operation(s);
    lemma_parsed_block(s);
}

/// What parses as a block is a block of the grammar.
proof fn lemma_parsed_block(s: Seq<char>)
    ensures
        parse_block(s) matches Ok((rest, _)) ==> is_block(s, rest),
    decreases s.len(), 1nat,
{
    reveal_strlit("{");
    reveal_strlit("}");
    lemma_scan_tag_char("{"@, s);
    if let Ok((rest, _)) = parse_block(s) {
        let s1 = s.skip(1);
        let end = scan_whitespace(parse_stmts(scan_whitespace(s1).0).0).0;
        lemma_scan_tag_char("}"@, end);
        assert(end =~= seq!['}'] + rest);
        lemma_parsed_body(s1, end);
    }
}

/// What the statements of a block are parsed from is a body of the grammar.
proof fn lemma_parsed_body(s: Seq<char>, end: Seq<char>)
    requires
        scan_whitespace(parse_stmts(scan_whitespace(s).0).0).0 == end,
    ensures
        is_body(s, end),
    decreases s.len(), 4nat,
{
    let t = scan_whitespace(s).0;
    lemma_run_len(|c: char| is_whitespace(c), s);
    lemma_whitespace_skipped(s);
    match parse_stmt(t) {
        Err(_) => {},
        Ok((mid, _)) => {
            crate::stmt::lemma_parse_stmt_consumes(t);
            lemma_run_len(|c: char| is_whitespace(c), mid);
            lemma_parsed_stmt(t);
            lemma_parsed_body(mid, end);
            assert(mid.len() < t.len() && is_stmt(t, mid) && is_body(mid, end));
        },
    }
}

/// What parses as a statement is a statement of the grammar.
proof fn lemma_parsed_stmt(s: Seq<char>)
    ensures
        parse_stmt(s) matches Ok((rest, _)) ==> is_stmt(s, rest),
    decreases s.len(), 3nat,
{
    lemma_parsed_binding_def(s);
    lemma_parsed_expr(s);
}

/// What parses as a binding definition is a binding definition of the
/// grammar.
proof fn lemma_parsed_binding_def(s: Seq<char>)
    ensures
        parse_binding_def(s) matches Ok((rest, _)) ==> is_binding_def(s, rest),
    decreases s.len(), 1nat,
{
    reveal_strlit("=");
    lemma_scan_tag_let(s);
    if let Ok(s1) = scan_tag("let"@, s) {
        lemma_run_len(|c: char| is_whitespace(c), s1);
        if let Ok((s2, _)) = scan_whitespace1(s1) {
            lemma_run_len(|c: char| is_alphanumeric(c), s2);
            if let Ok((s3, _)) = scan_ident(s2) {
                let s4 = scan_whitespace(s3).0;
                lemma_run_len(|c: char| is_whitespace(c), s3);
                lemma_scan_tag_char("="@, s4);
                if let Ok(s5) = scan_tag("="@, s4) {
                    lemma_run_len(|c: char| is_whitespace(c), s5);
                    lemma_parsed_expr(scan_whitespace(s5).0);
                }
            }
        }
    }
}

/// The parser takes nothing but the grammar: what it parses as a statement
/// is a statement of the grammar, and what it leaves is what follows that
/// statement.
pub proof fn lemma_parsed_statement_is_of_grammar(s: Seq<char>)
    ensures
        parse_stmt(s) matches Ok((rest, _)) ==> is_stmt(s, rest),
{
    lemma_parsed_stmt(s);
}

/// The texts that the parser takes as one statement, with nothing left, are
/// the statement texts of the grammar.
pub proof fn lemma_statement_texts(text: Seq<char>)
    ensures
        is_statement_text(text) <==> (parse_stmt(text) matches Ok((rest, _)) && rest.len() == 0),
{
    if is_statement_text(text) {
        lemma_statement_text_parses_whole(text);
    }
    if let Ok((rest, _)) = parse_stmt(text) {
        lemma_parsed_stmt(text);
        if rest.len() == 0 {
            assert(rest =~= Seq::<char>::empty());
        }
    }
}

} // verus!
