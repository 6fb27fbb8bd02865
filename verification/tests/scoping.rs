use tlang::expr::block::Block;
use tlang::{run, Env, Val};

#[test]
fn later_binding_shadows_earlier_one() {
    let mut env = Env::default();
    assert_eq!(
        run("{ let a = 1 let a = 2 a }", &mut env),
        Ok(Some(Val::Number(2))),
    );
}

#[test]
fn inner_block_reads_outer_binding_and_keeps_its_own() {
    let mut env = Env::default();
    assert_eq!(
        run("{ let a = 1 { let b = a let a = 9 } a }", &mut env),
        Ok(Some(Val::Number(1))),
    );
}

#[test]
fn inner_block_sees_outer_binding() {
    let mut env = Env::default();
    assert_eq!(
        run("{ let a = 4 { let b = a b } }", &mut env),
        Ok(Some(Val::Number(4))),
    );
}

#[test]
fn binding_of_a_block_is_gone_after_it() {
    let mut env = Env::default();
    assert_eq!(run("{ let inner = 1 }", &mut env), Ok(None));
    assert_eq!(
        run("inner", &mut env),
        Err("Evaluation error: binding with name 'inner' does not exist".to_string()),
    );
}

#[test]
fn empty_block_parses_to_no_statements_and_evaluates_to_unit() {
    let (rest, block) = Block::new("{}").unwrap();
    assert_eq!(rest, "");
    assert_eq!(block.stmts.len(), 0);
    assert_eq!(block.eval(&Env::default()), Ok(Val::Unit));
}

#[test]
fn block_yields_the_value_of_its_last_statement() {
    let mut env = Env::default();
    assert_eq!(run("{ 100 30 10-7 }", &mut env), Ok(Some(Val::Number(3))));
}

#[test]
fn unknown_binding_is_named_in_the_error() {
    let (_, block) = Block::new("{ unknownVar }").unwrap();
    let err = block.eval(&Env::default()).unwrap_err();
    assert!(err.contains("unknownVar"));
    assert_eq!(err, "binding with name 'unknownVar' does not exist");
}

#[test]
fn binding_definition_sees_the_outer_binding_of_its_own_name() {
    let mut env = Env::default();
    assert_eq!(run("let a = 3", &mut env), Ok(None));
    assert_eq!(run("{ let a = a a }", &mut env), Ok(Some(Val::Number(3))));
    assert_eq!(
        run("let b = b", &mut env),
        Err("Evaluation error: binding with name 'b' does not exist".to_string()),
    );
}

#[test]
fn block_stops_at_the_first_failing_statement() {
    let mut env = Env::default();
    assert_eq!(
        run("{ let a = 1 missing 1/0 }", &mut env),
        Err("Evaluation error: binding with name 'missing' does not exist".to_string()),
    );
}

#[test]
fn block_of_binding_definitions_only_yields_unit() {
    let mut env = Env::default();
    assert_eq!(run("{ let a = 1 let b = 2 }", &mut env), Ok(None));
}
