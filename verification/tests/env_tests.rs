use lisp::env::Env;
use lisp::error::LispErr;
use lisp::lispval::LispVal;

#[test]
fn new_environment_has_one_empty_root_frame() {
    let env = Env::new();
    assert_eq!(env.frame_count(), 1);
    assert_eq!(env.get(0, "x"), None);
    assert_eq!(env.resource("x"), None);
}

#[test]
fn define_binds_and_overwrites_in_the_frame_itself() {
    let mut env = Env::new();
    assert_eq!(env.define(0, "x", LispVal::Number(1)), Ok(LispVal::Number(1)));
    assert_eq!(env.get(0, "x"), Some(LispVal::Number(1)));
    assert_eq!(env.define(0, "y", LispVal::Boolean(true)), Ok(LispVal::Boolean(true)));
    assert_eq!(env.define(0, "x", LispVal::Number(2)), Ok(LispVal::Number(2)));
    assert_eq!(env.get(0, "x"), Some(LispVal::Number(2)));
    assert_eq!(env.get(0, "y"), Some(LispVal::Boolean(true)));
    assert_eq!(env.frame_count(), 1);
}

#[test]
fn child_frames_are_numbered_in_order() {
    let mut env = Env::new();
    assert_eq!(env.child(0), 1);
    assert_eq!(env.child(0), 2);
    assert_eq!(env.child(2), 3);
    assert_eq!(env.frame_count(), 4);
}

#[test]
fn get_searches_the_chain_outwards() {
    let mut env = Env::new();
    env.define(0, "a", LispVal::Number(1)).unwrap();
    let mid = env.child(0);
    env.define(mid, "b", LispVal::Number(2)).unwrap();
    let inner = env.child(mid);
    env.define(inner, "c", LispVal::Number(3)).unwrap();
    let side = env.child(0);
    assert_eq!(env.get(inner, "a"), Some(LispVal::Number(1)));
    assert_eq!(env.get(inner, "b"), Some(LispVal::Number(2)));
    assert_eq!(env.get(inner, "c"), Some(LispVal::Number(3)));
    assert_eq!(env.get(mid, "c"), None);
    assert_eq!(env.get(side, "b"), None);
    assert_eq!(env.get(side, "a"), Some(LispVal::Number(1)));
    assert_eq!(env.get(0, "b"), None);
}

#[test]
fn define_in_child_shadows_and_leaves_the_parent() {
    let mut env = Env::new();
    env.define(0, "x", LispVal::Number(1)).unwrap();
    let child = env.child(0);
    env.define(child, "x", LispVal::Number(2)).unwrap();
    assert_eq!(env.get(child, "x"), Some(LispVal::Number(2)));
    assert_eq!(env.get(0, "x"), Some(LispVal::Number(1)));
}

#[test]
fn set_rebinds_the_nearest_binding() {
    let mut env = Env::new();
    env.define(0, "x", LispVal::Number(1)).unwrap();
    env.define(0, "y", LispVal::Number(10)).unwrap();
    let child = env.child(0);
    env.define(child, "x", LispVal::Number(2)).unwrap();
    assert_eq!(env.set(child, "x", LispVal::Number(3)), Ok(LispVal::Number(3)));
    assert_eq!(env.get(child, "x"), Some(LispVal::Number(3)));
    assert_eq!(env.get(0, "x"), Some(LispVal::Number(1)));
    assert_eq!(env.set(child, "y", LispVal::Number(11)), Ok(LispVal::Number(11)));
    assert_eq!(env.get(0, "y"), Some(LispVal::Number(11)));
    assert_eq!(env.get(child, "y"), Some(LispVal::Number(11)));
    let grandchild = env.child(child);
    assert_eq!(env.set(grandchild, "y", LispVal::Number(12)), Ok(LispVal::Number(12)));
    assert_eq!(env.get(0, "y"), Some(LispVal::Number(12)));
    assert_eq!(env.get(grandchild, "z"), None);
}

#[test]
fn set_never_creates_a_binding() {
    let mut env = Env::new();
    let child = env.child(0);
    assert_eq!(
        env.set(child, "nowhere", LispVal::Number(1)),
        Err(LispErr::UnboundVariable("nowhere".to_owned()))
    );
    assert_eq!(env.get(child, "nowhere"), None);
    assert_eq!(env.get(0, "nowhere"), None);
    env.define(child, "inner", LispVal::Number(1)).unwrap();
    assert_eq!(
        env.set(0, "inner", LispVal::Number(2)),
        Err(LispErr::UnboundVariable("inner".to_owned()))
    );
    assert_eq!(env.get(child, "inner"), Some(LispVal::Number(1)));
}

#[test]
fn resources_are_kept_by_name() {
    let mut env = Env::new();
    env.add_resource("a.scm", "(define a 1)");
    env.add_resource("b.scm", "b");
    assert_eq!(env.resource("a.scm"), Some("(define a 1)".to_owned()));
    assert_eq!(env.resource("b.scm"), Some("b".to_owned()));
    env.add_resource("a.scm", "changed");
    assert_eq!(env.resource("a.scm"), Some("changed".to_owned()));
    assert_eq!(env.resource("c.scm"), None);
    assert_eq!(env.get(0, "a.scm"), None);
}
