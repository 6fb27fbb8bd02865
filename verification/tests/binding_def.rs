use tlang::binding_def::BindingDef;
use tlang::expr::{Expr, Number, Op};

#[test]
fn binding_def_parse_binding_def() {
    assert_eq!(
        BindingDef::new("let a = 10 / 2"),
        Ok((
            "",
            BindingDef {
                name: "a".to_string(),
                val: Expr::Operation {
                    lhs: Number(10),
                    rhs: Number(2),
                    op: Op::Div
                }
            }
        ))
    );
}

#[test]
fn cannot_parse_binding_def_without_space_after_let() {
    assert_eq!(
        BindingDef::new("letaaa=1+2"),
        Err("expected whitespace".to_string()),
    );
}
