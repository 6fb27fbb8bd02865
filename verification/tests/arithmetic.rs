use tlang::expr::{Expr, Number, Op};
use tlang::stmt::Stmt;
use tlang::binding_def::BindingDef;
use tlang::{run, Env, Val};

fn operation(lhs: i32, op: Op, rhs: i32) -> Expr {
    Expr::Operation {
        lhs: Number(lhs),
        rhs: Number(rhs),
        op,
    }
}

#[test]
fn operations_from_text_give_exact_results() {
    let mut env = Env::default();
    assert_eq!(run("17 + 25", &mut env), Ok(Some(Val::Number(42))));
    assert_eq!(run("17 - 25", &mut env), Ok(Some(Val::Number(-8))));
    assert_eq!(run("17 * 25", &mut env), Ok(Some(Val::Number(425))));
    assert_eq!(run("17 / 5", &mut env), Ok(Some(Val::Number(3))));
    assert_eq!(run("0 / 5", &mut env), Ok(Some(Val::Number(0))));
    assert_eq!(run("4 / 5", &mut env), Ok(Some(Val::Number(0))));
    assert_eq!(run("2147483647 - 0", &mut env), Ok(Some(Val::Number(i32::MAX))));
    assert_eq!(run("0 - 2147483647", &mut env), Ok(Some(Val::Number(-i32::MAX))));
    assert_eq!(run("46341 * 46340", &mut env), Ok(Some(Val::Number(2147441940))));
}

#[test]
fn division_rounds_towards_zero() {
    let env = Env::default();
    assert_eq!(operation(7, Op::Div, 2).eval(&env), Ok(Val::Number(3)));
    assert_eq!(operation(-7, Op::Div, 2).eval(&env), Ok(Val::Number(-3)));
    assert_eq!(operation(7, Op::Div, -2).eval(&env), Ok(Val::Number(-3)));
    assert_eq!(operation(-7, Op::Div, -2).eval(&env), Ok(Val::Number(3)));
    assert_eq!(operation(-1, Op::Div, 2).eval(&env), Ok(Val::Number(0)));
    assert_eq!(operation(i32::MIN, Op::Div, 1).eval(&env), Ok(Val::Number(i32::MIN)));
    assert_eq!(operation(i32::MIN, Op::Div, 2).eval(&env), Ok(Val::Number(-1073741824)));
}

#[test]
fn division_by_zero_is_an_error() {
    let env = Env::default();
    assert_eq!(
        operation(1, Op::Div, 0).eval(&env),
        Err("attempt to divide by zero".to_string()),
    );
    assert_eq!(
        operation(0, Op::Div, 0).eval(&env),
        Err("attempt to divide by zero".to_string()),
    );
    assert_eq!(
        run("1 / 0", &mut Env::default()),
        Err("Evaluation error: attempt to divide by zero".to_string()),
    );
}

#[test]
fn overflow_is_an_error() {
    let env = Env::default();
    assert_eq!(
        operation(i32::MAX, Op::Add, 1).eval(&env),
        Err("attempt to add with overflow".to_string()),
    );
    assert_eq!(
        operation(i32::MIN, Op::Add, -1).eval(&env),
        Err("attempt to add with overflow".to_string()),
    );
    assert_eq!(
        operation(i32::MIN, Op::Sub, 1).eval(&env),
        Err("attempt to subtract with overflow".to_string()),
    );
    assert_eq!(
        operation(0, Op::Sub, i32::MIN).eval(&env),
        Err("attempt to subtract with overflow".to_string()),
    );
    assert_eq!(
        operation(46341, Op::Mul, 46341).eval(&env),
        Err("attempt to multiply with overflow".to_string()),
    );
    assert_eq!(
        operation(i32::MIN, Op::Mul, -1).eval(&env),
        Err("attempt to multiply with overflow".to_string()),
    );
    assert_eq!(
        operation(i32::MIN, Op::Div, -1).eval(&env),
        Err("attempt to divide with overflow".to_string()),
    );
    assert_eq!(
        run("2147483647 + 1", &mut Env::default()),
        Err("Evaluation error: attempt to add with overflow".to_string()),
    );
}

#[test]
fn results_at_the_limits_are_no_overflow() {
    let env = Env::default();
    assert_eq!(operation(i32::MAX, Op::Add, 0).eval(&env), Ok(Val::Number(i32::MAX)));
    assert_eq!(operation(i32::MAX - 1, Op::Add, 1).eval(&env), Ok(Val::Number(i32::MAX)));
    assert_eq!(operation(i32::MIN + 1, Op::Sub, 1).eval(&env), Ok(Val::Number(i32::MIN)));
    assert_eq!(operation(-1, Op::Sub, i32::MAX).eval(&env), Ok(Val::Number(i32::MIN)));
    assert_eq!(operation(i32::MIN, Op::Mul, 1).eval(&env), Ok(Val::Number(i32::MIN)));
    assert_eq!(operation(-1073741824, Op::Mul, 2).eval(&env), Ok(Val::Number(i32::MIN)));
}

#[test]
fn run_reports_parse_errors_under_their_heading() {
    let mut env = Env::default();
    assert_eq!(run("", &mut env), Err("Parse error: expected {".to_string()));
    assert_eq!(run("{ 1", &mut env), Err("Parse error: expected }".to_string()));
}

#[test]
fn run_yields_nothing_for_unit() {
    let mut env = Env::default();
    assert_eq!(run("let a = 1", &mut env), Ok(None));
    assert_eq!(run("{}", &mut env), Ok(None));
    assert_eq!(run("a", &mut env), Ok(Some(Val::Number(1))));
}

#[test]
fn run_keeps_bindings_across_lines_and_after_a_failure() {
    let mut env = Env::default();
    assert_eq!(run("let a = 2 * 3", &mut env), Ok(None));
    assert_eq!(
        run("let b = c", &mut env),
        Err("Evaluation error: binding with name 'c' does not exist".to_string()),
    );
    assert_eq!(run("a", &mut env), Ok(Some(Val::Number(6))));
    assert_eq!(
        run("b", &mut env),
        Err("Evaluation error: binding with name 'b' does not exist".to_string()),
    );
    assert_eq!(run("let a = 7", &mut env), Ok(None));
    assert_eq!(run("a", &mut env), Ok(Some(Val::Number(7))));
}

#[test]
fn failing_binding_definition_binds_nothing() {
    let mut env = Env::default();
    let def = BindingDef {
        name: "a".to_string(),
        val: operation(1, Op::Div, 0),
    };
    assert_eq!(def.eval(&mut env), Err("attempt to divide by zero".to_string()));
    assert_eq!(env.get_binding_value_without_error_msg("a"), None);
    assert_eq!(
        Stmt::BindingDef(def).eval(&mut env),
        Err("attempt to divide by zero".to_string()),
    );
}

#[test]
fn binding_definition_binds_the_value() {
    let mut env = Env::default();
    let def = BindingDef {
        name: "a".to_string(),
        val: operation(6, Op::Mul, 7),
    };
    assert_eq!(def.eval(&mut env), Ok(()));
    assert_eq!(env.get_binding_value("a"), Ok(Val::Number(42)));
}
