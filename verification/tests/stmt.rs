use tlang::binding_def::BindingDef;
use tlang::env::Env;
use tlang::expr::{Expr, Number, Op};
use tlang::stmt::Stmt;
use tlang::val::Val;

#[test]
fn stmt_parse_binding_def() {
    assert_eq!(
        Stmt::new("let a = 10"),
        Ok((
            "",
            Stmt::BindingDef(BindingDef {
                name: "a".to_string(),
                val: Expr::Number(Number(10)),
            }),
        )),
    );
}

#[test]
fn parse_expr() {
    assert_eq!(
        Stmt::new("1+1"),
        Ok((
            "",
            Stmt::Expr(Expr::Operation {
                lhs: Number(1),
                rhs: Number(1),
                op: Op::Add,
            }),
        )),
    );
}

#[test]
fn eval_binding_def() {
    assert_eq!(
        Stmt::BindingDef(BindingDef {
            name: "whatever".to_string(),
            val: Expr::Number(Number(-10)),
        })
        .eval(&mut Env::default()),
        Ok(Val::Unit),
    );
}

#[test]
fn eval_expr() {
    assert_eq!(
        Stmt::Expr(Expr::Number(Number(5))).eval(&mut Env::default()),
        Ok(Val::Number(5)),
    );
}
