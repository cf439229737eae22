#![allow(unused_imports, dead_code, unused_variables, unused_mut)]

use fp_rs::identity::{Identity, IdentityKind};
use fp_rs::functor::Functor;
use fp_rs::apply::Apply;
use fp_rs::applicative::Applicative;
use fp_rs::monad::{Bind, Monad};
use fp_rs::function::CFn;

#[test]
fn test_identity_hkt_functor_map() {
    let id_val: Identity<String> = Identity(String::from("hello"));
    let mapped_id: Identity<usize> = IdentityKind::map(id_val, |s: String| s.len());
    assert_eq!(mapped_id, Identity(5));

    let id_num: Identity<i32> = Identity(10);
    let mapped_id_num: Identity<i32> = IdentityKind::map(id_num, |x| x * x);
    assert_eq!(mapped_id_num, Identity(100));
}

#[test]
fn test_identity_hkt_apply() {
    let id_val: Identity<i32> = Identity(5);
    let id_fn: Identity<CFn<i32, i32>> = Identity(CFn::new(|x| x * 2));
    let result: Identity<i32> = IdentityKind::apply(id_val, id_fn);
    assert_eq!(result, Identity(10));
}

#[test]
fn test_identity_hkt_applicative_pure() {
    let pure_val: Identity<i32> = IdentityKind::pure(42);
    assert_eq!(pure_val, Identity(42));
}

#[test]
fn test_identity_hkt_monad_bind() {
    let id_val: Identity<i32> = Identity(3);
    let f = |x: i32| -> Identity<i32> { Identity(x + 7) };
    let result: Identity<i32> = IdentityKind::bind(id_val, f);
    assert_eq!(result, Identity(10));
}

#[test]
fn test_identity_hkt_monad_join() {
    let nested_id: Identity<Identity<i32>> = Identity(Identity(42));
    let joined_id: Identity<i32> = IdentityKind::join(nested_id);
    assert_eq!(joined_id, Identity(42));

    let nested_str_id: Identity<Identity<String>> = Identity(Identity(String::from("test")));
    let joined_str_id: Identity<String> = IdentityKind::join(nested_str_id);
    assert_eq!(joined_str_id, Identity(String::from("test")));
}

#[test]
fn test_identity_hkt_left_identity() {
    let a = 10;
    let f = |x: i32| -> Identity<i32> { Identity(x * x) };
    let lhs: Identity<i32> = IdentityKind::bind(
        IdentityKind::pure(a),
        f
    );
    let rhs: Identity<i32> = f(a);
    assert_eq!(lhs, rhs);
}

#[test]
fn test_identity_hkt_right_identity() {
    let m: Identity<i32> = Identity(20);
    let pure_fn = |x: i32| -> Identity<i32> { IdentityKind::pure(x) };
    let lhs = IdentityKind::bind(m.clone(), pure_fn);
    let rhs = m;
    assert_eq!(lhs, rhs);
}

#[test]
fn test_identity_hkt_associativity() {
    let m: Identity<i32> = Identity(5);
    let f = |x: i32| -> Identity<i32> { Identity(x + 1) };
    let g = |y: i32| -> Identity<i32> { Identity(y * 2) };

    let lhs = IdentityKind::bind(IdentityKind::bind(m.clone(), f), g);
    let rhs_fn = move |x: i32| -> Identity<i32> { IdentityKind::bind(f(x), g) };
    let rhs = IdentityKind::bind(m, rhs_fn);
    assert_eq!(lhs, rhs);
}
