use rlox::environment::{Environment, UndefinedVariable};
use rlox::value::LoxValue;

fn number(value: &Result<LoxValue, UndefinedVariable>) -> u64 {
    match value {
        Ok(LoxValue::Number(bits)) => *bits,
        _ => panic!("no number"),
    }
}

#[test]
fn a_new_environment_has_one_empty_frame() {
    let env = Environment::new();
    assert_eq!(env.frames(), 1);
    assert_eq!(env.current(), 0);
    assert_eq!(env.depth(), 0);
    assert!(env.get("a").is_err());
}

#[test]
fn define_binds_and_binds_again() {
    let mut env = Environment::new();
    env.define("a", LoxValue::Number(1));
    assert_eq!(number(&env.get("a")), 1);
    env.define("a", LoxValue::Number(2));
    assert_eq!(number(&env.get("a")), 2);
    env.define("b", LoxValue::Number(3));
    assert_eq!(number(&env.get("a")), 2);
    assert_eq!(number(&env.get("b")), 3);
}

#[test]
fn get_goes_through_the_ancestors() {
    let mut env = Environment::new();
    env.define("a", LoxValue::Number(1));
    env.define("b", LoxValue::Number(2));
    env.enter_scope(false);
    env.define("b", LoxValue::Number(3));
    env.enter_scope(false);
    assert_eq!(env.depth(), 2);
    assert_eq!(env.current(), 2);
    assert_eq!(number(&env.get("a")), 1);
    assert_eq!(number(&env.get("b")), 3);
    assert!(env.get("c").is_err());
    env.exit_scope();
    env.exit_scope();
    assert_eq!(env.depth(), 0);
    assert_eq!(env.current(), 0);
    assert_eq!(number(&env.get("b")), 2);
    assert_eq!(env.frames(), 3);
}

#[test]
fn assign_changes_the_first_binding_and_makes_none() {
    let mut env = Environment::new();
    env.define("a", LoxValue::Number(1));
    env.enter_scope(false);
    assert_eq!(env.assign("a", LoxValue::Number(5)), Ok(()));
    assert_eq!(env.assign("z", LoxValue::Number(5)), Err(UndefinedVariable));
    assert!(env.get("z").is_err());
    env.define("a", LoxValue::Number(7));
    assert_eq!(env.assign("a", LoxValue::Number(8)), Ok(()));
    assert_eq!(number(&env.get("a")), 8);
    env.exit_scope();
    assert_eq!(number(&env.get("a")), 5);
}

#[test]
fn get_at_looks_at_one_frame_only() {
    let mut env = Environment::new();
    env.define("a", LoxValue::Number(1));
    env.enter_scope(false);
    env.define("b", LoxValue::Number(2));
    env.enter_scope(false);
    env.define("a", LoxValue::Number(3));
    assert_eq!(number(&env.get_at(0, "a")), 3);
    assert_eq!(number(&env.get_at(1, "b")), 2);
    assert_eq!(number(&env.get_at(2, "a")), 1);
    assert!(env.get_at(0, "b").is_err());
    assert!(env.get_at(1, "a").is_err());
    assert!(env.get_at(3, "a").is_err());
    assert_eq!(env.assign_at(2, "a", LoxValue::Number(9)), Ok(()));
    assert_eq!(env.assign_at(1, "a", LoxValue::Number(9)), Err(UndefinedVariable));
    assert_eq!(env.assign_at(7, "a", LoxValue::Number(9)), Err(UndefinedVariable));
    assert_eq!(number(&env.get_at(0, "a")), 3);
    assert_eq!(number(&env.get_at(2, "a")), 9);
}

#[test]
fn the_global_frame_can_be_reached_from_anywhere() {
    let mut env = Environment::new();
    env.define("a", LoxValue::Number(1));
    env.enter_scope(false);
    env.define("a", LoxValue::Number(2));
    env.define("b", LoxValue::Number(3));
    assert_eq!(number(&env.get_global("a")), 1);
    assert!(env.get_global("b").is_err());
    assert_eq!(env.assign_global("a", LoxValue::Number(4)), Ok(()));
    assert_eq!(env.assign_global("b", LoxValue::Number(4)), Err(UndefinedVariable));
    assert_eq!(number(&env.get("a")), 2);
    assert_eq!(number(&env.get_global("a")), 4);
}

#[test]
fn a_scope_may_hang_off_the_global_frame_or_off_any_frame() {
    let mut env = Environment::new();
    env.define("a", LoxValue::Number(1));
    env.enter_scope(false);
    env.define("a", LoxValue::Number(2));
    env.enter_scope(true);
    assert_eq!(number(&env.get("a")), 1);
    env.exit_scope();
    assert_eq!(env.current(), 0);
    assert_eq!(env.depth(), 1);
    let caller = env.enter(1);
    assert_eq!(caller, 0);
    assert_eq!(env.current(), 3);
    assert_eq!(number(&env.get("a")), 2);
    env.leave(caller);
    assert_eq!(env.current(), 0);
    assert_eq!(env.depth(), 1);
}
