use tlang::{Env, Val};

#[test]
fn default_env_has_no_bindings() {
    let env = Env::default();
    assert_eq!(
        env.get_binding_value("a"),
        Err("binding with name 'a' does not exist".to_string()),
    );
    assert_eq!(env.get_binding_value_without_error_msg("a"), None);
}

#[test]
fn stored_binding_is_found() {
    let mut env = Env::default();
    env.store_binding("a", Val::Number(7));
    env.store_binding("u", Val::Unit);
    assert_eq!(env.get_binding_value("a"), Ok(Val::Number(7)));
    assert_eq!(env.get_binding_value("u"), Ok(Val::Unit));
    assert_eq!(env.get_binding_value_without_error_msg("a"), Some(Val::Number(7)));
}

#[test]
fn storing_again_overwrites() {
    let mut env = Env::default();
    env.store_binding("a", Val::Number(7));
    env.store_binding("a", Val::Number(8));
    assert_eq!(env.get_binding_value("a"), Ok(Val::Number(8)));
}

#[test]
fn names_are_compared_exactly() {
    let mut env = Env::default();
    env.store_binding("abc", Val::Number(1));
    assert_eq!(
        env.get_binding_value("ab"),
        Err("binding with name 'ab' does not exist".to_string()),
    );
    assert_eq!(
        env.get_binding_value("Abc"),
        Err("binding with name 'Abc' does not exist".to_string()),
    );
    assert_eq!(
        env.get_binding_value(""),
        Err("binding with name '' does not exist".to_string()),
    );
}

#[test]
fn child_delegates_to_parent() {
    let mut root = Env::default();
    root.store_binding("a", Val::Number(1));
    let child = root.create_child();
    assert_eq!(child.get_binding_value("a"), Ok(Val::Number(1)));
    let grandchild = child.create_child();
    assert_eq!(grandchild.get_binding_value("a"), Ok(Val::Number(1)));
    assert_eq!(
        grandchild.get_binding_value("b"),
        Err("binding with name 'b' does not exist".to_string()),
    );
}

#[test]
fn child_shadows_parent_without_changing_it() {
    let mut root = Env::default();
    root.store_binding("a", Val::Number(1));
    {
        let mut child = root.create_child();
        child.store_binding("a", Val::Number(2));
        child.store_binding("b", Val::Number(3));
        assert_eq!(child.get_binding_value("a"), Ok(Val::Number(2)));
        assert_eq!(child.get_binding_value("b"), Ok(Val::Number(3)));
    }
    assert_eq!(root.get_binding_value("a"), Ok(Val::Number(1)));
    assert_eq!(
        root.get_binding_value("b"),
        Err("binding with name 'b' does not exist".to_string()),
    );
}
