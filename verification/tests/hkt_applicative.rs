#![allow(unused_imports, dead_code, unused_variables, unused_mut)]

use fp_rs::kind_based::kind::Kind;
use fp_rs::applicative::{lift_a1, Applicative};
use fp_rs::apply::Apply;
use fp_rs::functor::Functor;
use fp_rs::kind_based::kind::{OptionKind, ResultKind, VecKind, CFnKind, CFnOnceKind};
use fp_rs::identity::{Identity as IdType, IdentityKind};
use fp_rs::transformers::reader::{ReaderT, ReaderTHKTMarker};
use fp_rs::function::{CFn, CFnOnce};
use core::convert::identity;

#[test]
fn option_hkt_applicative_law_identity() {
    let v_some: Option<i32> = Some(10);
    let v_none: Option<i32> = None;

    let id_cfn_creator = || CFn::new(identity::<i32>);
    let pure_id_cfn_creator = || OptionKind::pure(id_cfn_creator());

    assert_eq!(OptionKind::apply(v_some.clone(), pure_id_cfn_creator()), v_some);
    assert_eq!(OptionKind::apply(v_none.clone(), pure_id_cfn_creator()), v_none);
}

#[test]
fn option_hkt_applicative_law_homomorphism() {
    let x: i32 = 10;
    let f = |val: i32| val * 2;

    let f_cfn_creator = || CFn::new(f);
    let pure_f_cfn: Option<CFn<i32, i32>> = OptionKind::pure(f_cfn_creator());

    let pure_x: Option<i32> = OptionKind::pure(x);

    assert_eq!(
        OptionKind::apply(pure_x, pure_f_cfn),
        OptionKind::pure(f(x))
    );
}

#[test]
fn option_hkt_applicative_law_interchange() {
    type A = i32;
    type B = String;

    let y_val: A = 10;

    let concrete_f_creator = || CFn::new(|val: A| format!("val:{}", val));
    let u_some_creator = || Some(concrete_f_creator());
    let u_none_creator = || None::<CFn<A,B>>;

    let pure_y: Option<A> = OptionKind::pure(y_val);

    let lhs_some = OptionKind::apply(pure_y.clone(), u_some_creator());
    let lhs_none = OptionKind::apply(pure_y.clone(), u_none_creator());

    let y_val_clone_for_rhs = y_val.clone();
    let interchange_fn_creator = || CFn::new(move |f_map_fn: CFn<A, B>| f_map_fn.call(y_val_clone_for_rhs.clone()));
    let pure_interchange_fn_wrapper_creator = || OptionKind::pure(interchange_fn_creator());

    let rhs_some = OptionKind::apply(u_some_creator(), pure_interchange_fn_wrapper_creator());
    let rhs_none = OptionKind::apply(u_none_creator(), pure_interchange_fn_wrapper_creator());

    assert_eq!(lhs_some, rhs_some);
    assert_eq!(lhs_none, rhs_none);
    assert_eq!(lhs_some, Some("val:10".to_string()));
}

#[test]
fn option_hkt_lift_a1_functor_identity() {
    let fa_some: Option<i32> = Some(10);
    let fa_none: Option<i32> = None;

    let id_fn_static = identity::<i32>;

    assert_eq!(lift_a1::<OptionKind, _, _, _>(id_fn_static, fa_some.clone()), fa_some);
    assert_eq!(lift_a1::<OptionKind, _, _, _>(id_fn_static, fa_none.clone()), fa_none);
}

#[test]
fn option_hkt_lift_a1_functor_composition() {
    let fa_some: Option<i32> = Some(10);
    let fa_none: Option<i32> = None;

    let f = |x: i32| x * 2;
    let g = |y: i32| y.to_string();

    let g_compose_f = move |x: i32| g(f(x));

    let lhs_some = lift_a1::<OptionKind, _, _, _>(g_compose_f, fa_some.clone());
    let lhs_none = lift_a1::<OptionKind, _, _, _>(g_compose_f, fa_none.clone());

    let map_f_fa_some = lift_a1::<OptionKind, _, _, _>(f, fa_some.clone());
    let rhs_some = lift_a1::<OptionKind, _, _, _>(g, map_f_fa_some);

    let map_f_fa_none = lift_a1::<OptionKind, _, _, _>(f, fa_none.clone());
    let rhs_none = lift_a1::<OptionKind, _, _, _>(g, map_f_fa_none);

    assert_eq!(lhs_some, rhs_some);
    assert_eq!(lhs_none, rhs_none);
    assert_eq!(lhs_some, Some("20".to_string()));
}

type TestError = String;

#[test]
fn result_hkt_applicative_law_identity() {
    let v_ok: Result<i32, TestError> = Ok(10);
    let v_err: Result<i32, TestError> = Err("Error".to_string());

    let id_cfn_creator = || CFn::new(identity::<i32>);
    let pure_id_cfn_creator = || ResultKind::<TestError>::pure(id_cfn_creator());

    assert_eq!(ResultKind::<TestError>::apply(v_ok.clone(), pure_id_cfn_creator()), v_ok);
    assert_eq!(ResultKind::<TestError>::apply(v_err.clone(), pure_id_cfn_creator()), v_err);
}

#[test]
fn result_hkt_applicative_law_homomorphism() {
    let x: i32 = 10;
    let f = |val: i32| val * 2;

    let f_cfn_creator = || CFn::new(f);
    let pure_f_cfn = ResultKind::<TestError>::pure(f_cfn_creator());
    let pure_x = ResultKind::<TestError>::pure(x);

    assert_eq!(
        ResultKind::<TestError>::apply(pure_x, pure_f_cfn),
        ResultKind::<TestError>::pure(f(x))
    );
}

#[test]
fn result_hkt_applicative_law_interchange() {
    type A = i32;
    type B = String;

    let y_val: A = 10;

    let concrete_f_creator = || CFn::new(|val: A| format!("val:{}", val));
    let u_ok_creator = || Ok(concrete_f_creator());
    let u_err_creator = || Err::<CFn<A,B>, TestError>("Error in u".to_string());

    let pure_y = ResultKind::<TestError>::pure(y_val);

    let lhs_ok = ResultKind::<TestError>::apply(pure_y.clone(), u_ok_creator());
    let lhs_err = ResultKind::<TestError>::apply(pure_y.clone(), u_err_creator());

    let y_val_clone_for_rhs = y_val.clone();
    let interchange_fn_creator = || CFn::new(move |f_map_fn: CFn<A, B>| f_map_fn.call(y_val_clone_for_rhs.clone()));
    let pure_interchange_fn_wrapper_creator = || ResultKind::<TestError>::pure(interchange_fn_creator());

    let rhs_ok = ResultKind::<TestError>::apply(u_ok_creator(), pure_interchange_fn_wrapper_creator());
    let rhs_err = ResultKind::<TestError>::apply(u_err_creator(), pure_interchange_fn_wrapper_creator());

    assert_eq!(lhs_ok, rhs_ok);
    assert_eq!(lhs_err, rhs_err);
    assert_eq!(lhs_ok, Ok("val:10".to_string()));
    assert_eq!(lhs_err, Err("Error in u".to_string()));
}

#[test]
fn result_hkt_lift_a1_functor_identity() {
    let fa_ok: Result<i32, TestError> = Ok(10);
    let fa_err: Result<i32, TestError> = Err("Error".to_string());
    let id_fn_static = identity::<i32>;

    assert_eq!(lift_a1::<ResultKind<TestError>, _, _, _>(id_fn_static, fa_ok.clone()), fa_ok);
    assert_eq!(lift_a1::<ResultKind<TestError>, _, _, _>(id_fn_static, fa_err.clone()), fa_err);
}

#[test]
fn result_hkt_lift_a1_functor_composition() {
    let fa_ok: Result<i32, TestError> = Ok(10);
    let fa_err: Result<i32, TestError> = Err("Error".to_string());

    let f = |x: i32| x * 2;
    let g = |y: i32| y.to_string();
    let g_compose_f = move |x: i32| g(f(x));

    let lhs_ok = lift_a1::<ResultKind<TestError>, _, _, _>(g_compose_f, fa_ok.clone());
    let lhs_err = lift_a1::<ResultKind<TestError>, _, _, _>(g_compose_f, fa_err.clone());

    let map_f_fa_ok = lift_a1::<ResultKind<TestError>, _, _, _>(f, fa_ok.clone());
    let rhs_ok = lift_a1::<ResultKind<TestError>, _, _, _>(g, map_f_fa_ok);

    let map_f_fa_err = lift_a1::<ResultKind<TestError>, _, _, _>(f, fa_err.clone());
    let rhs_err = lift_a1::<ResultKind<TestError>, _, _, _>(g, map_f_fa_err);

    assert_eq!(lhs_ok, rhs_ok);
    assert_eq!(lhs_err, rhs_err);
    assert_eq!(lhs_ok, Ok("20".to_string()));
    assert_eq!(lhs_err, Err("Error".to_string()));
}

#[test]
fn vec_hkt_applicative_law_identity() {

    println!("NOTE: VecKind Applicative Identity law is untestable with CFn due to pure's Clone constraint.");
}

#[test]
fn vec_hkt_applicative_law_homomorphism() {

    println!("NOTE: VecKind Applicative Homomorphism law is untestable with CFn due to pure's Clone constraint.");
}

#[test]
fn vec_hkt_applicative_law_interchange() {

    type A = i32;

    let y_val: A = 10;

    let concrete_f1_creator = || CFn::new(|val: A| format!("f1:{}", val));
    let concrete_f2_creator = || CFn::new(|val: A| format!("f2:{}", val * 2));
    let u_vec_creator = || vec![concrete_f1_creator(), concrete_f2_creator()];

    let pure_y_vec: Vec<A> = VecKind::pure(y_val);

    let lhs = VecKind::apply(pure_y_vec.clone(), u_vec_creator());
    assert_eq!(lhs, vec!["f1:10".to_string(), "f2:20".to_string()]);

}

#[test]
fn vec_hkt_functor_identity_via_map() {
    let fa_vec: Vec<i32> = vec![10, 20];
    let fa_empty: Vec<i32> = vec![];
    let id_fn_static = identity::<i32>;

    assert_eq!(VecKind::map(fa_vec.clone(), id_fn_static), fa_vec);
    assert_eq!(VecKind::map(fa_empty.clone(), id_fn_static), fa_empty);
}

#[test]
fn vec_hkt_functor_composition_via_map() {
    let fa_vec: Vec<i32> = vec![10, 20];
    let fa_empty: Vec<i32> = vec![];

    let f = |x: i32| x * 2;
    let g = |y: i32| y.to_string();
    let g_compose_f = move |x: i32| g(f(x));

    let lhs_vec = VecKind::map(fa_vec.clone(), g_compose_f);
    let lhs_empty = VecKind::map(fa_empty.clone(), g_compose_f);

    let map_f_fa_vec = VecKind::map(fa_vec.clone(), f);
    let rhs_vec = VecKind::map(map_f_fa_vec, g);

    let map_f_fa_empty = VecKind::map(fa_empty.clone(), f);
    let rhs_empty = VecKind::map(map_f_fa_empty, g);

    assert_eq!(lhs_vec, rhs_vec);
    assert_eq!(lhs_empty, rhs_empty);
    assert_eq!(lhs_vec, vec!["20".to_string(), "40".to_string()]);
    assert_eq!(lhs_empty, Vec::<String>::new());
}

#[test]
fn identity_hkt_applicative_law_identity() {
    let v: IdType<i32> = IdType(10);

    let id_cfn_creator = || CFn::new(identity::<i32>);
    let pure_id_cfn: IdType<CFn<i32,i32>> = IdentityKind::pure(id_cfn_creator());

    assert_eq!(IdentityKind::apply(v.clone(), pure_id_cfn), v);
}

#[test]
fn identity_hkt_applicative_law_homomorphism() {
    let x: i32 = 10;
    let f = |val: i32| val * 2;

    let f_cfn_creator = || CFn::new(f);
    let pure_f_cfn: IdType<CFn<i32,i32>> = IdentityKind::pure(f_cfn_creator());
    let pure_x: IdType<i32> = IdentityKind::pure(x);

    assert_eq!(
        IdentityKind::apply(pure_x, pure_f_cfn),
        IdentityKind::pure(f(x))
    );
}

#[test]
fn identity_hkt_applicative_law_interchange() {
    type A = i32;
    type B = String;

    let y_val: A = 10;

    let concrete_f_creator = || CFn::new(|val: A| format!("val:{}", val));
    let u_identity_creator = || IdType(concrete_f_creator());

    let pure_y: IdType<A> = IdentityKind::pure(y_val);

    let lhs = IdentityKind::apply(pure_y.clone(), u_identity_creator());

    let y_val_clone_for_rhs = y_val.clone();
    let interchange_fn_creator = || CFn::new(move |f_map_fn: CFn<A, B>| f_map_fn.call(y_val_clone_for_rhs.clone()));
    let pure_interchange_fn_wrapper_creator = || IdentityKind::pure(interchange_fn_creator());

    let rhs = IdentityKind::apply(u_identity_creator(), pure_interchange_fn_wrapper_creator());

    assert_eq!(lhs, rhs);
    assert_eq!(lhs, IdType("val:10".to_string()));
}

#[test]
fn identity_hkt_lift_a1_functor_identity() {
    let fa_id: IdType<i32> = IdType(10);
    let id_fn_static = identity::<i32>;

    assert_eq!(lift_a1::<IdentityKind, _, _, _>(id_fn_static, fa_id.clone()), fa_id);
}

#[test]
fn identity_hkt_lift_a1_functor_composition() {
    let fa_id: IdType<i32> = IdType(10);

    let f = |x: i32| x * 2;
    let g = |y: i32| y.to_string();
    let g_compose_f = move |x: i32| g(f(x));

    let lhs = lift_a1::<IdentityKind, _, _, _>(g_compose_f, fa_id.clone());
    let map_f_fa = lift_a1::<IdentityKind, _, _, _>(f, fa_id.clone());
    let rhs = lift_a1::<IdentityKind, _, _, _>(g, map_f_fa);

    assert_eq!(lhs, rhs);
    assert_eq!(lhs, IdType("20".to_string()));
}

type Env = i32;

#[test]
fn cfn_hkt_applicative_law_identity() {

    println!("NOTE: CFnKind Applicative Identity law is untestable with CFn due to pure's Clone constraint.");
}

#[test]
fn cfn_hkt_applicative_law_homomorphism() {
    println!("NOTE: CFnKind Applicative Homomorphism law is untestable due to CFn not being Clone.");
}

#[test]
fn cfn_hkt_applicative_law_interchange() {
    println!("NOTE: CFnKind Applicative Interchange law is untestable due to CFn not being Clone.");
}

#[test]
fn cfn_hkt_functor_identity_via_map() {
    let fa_creator = || CFn::new(|_e: Env| 10);
    let id_fn_static = identity::<i32>;

    let mapped_val = CFnKind::<Env>::map(fa_creator(), id_fn_static);

    assert_eq!(mapped_val.call(100), fa_creator().call(100));
}

#[test]
fn cfn_hkt_functor_composition_via_map() {
    let fa_creator = || CFn::new(|_e: Env| 10);

    let f = |x: i32| x * 2;
    let g = |y: i32| y.to_string();
    let g_compose_f = move |x: i32| g(f(x));

    let lhs = CFnKind::<Env>::map(fa_creator(), g_compose_f);

    let map_f_fa: CFn<Env, i32> = CFnKind::<Env>::map(fa_creator(), f);
    let rhs: CFn<Env, String> = CFnKind::<Env>::map(map_f_fa, g);

    assert_eq!(lhs.call(100), rhs.call(100));
    assert_eq!(lhs.call(100), "20".to_string());
}

#[test]
fn cfn_once_hkt_applicative_law_identity() {
    println!("NOTE: CFnOnceKind Applicative Identity law is untestable due to CFnOnce not being Clone and pure's Clone requirement.");
}

#[test]
fn cfn_once_hkt_applicative_law_homomorphism() {
    println!("NOTE: CFnOnceKind Applicative Homomorphism law is untestable due to CFnOnce not being Clone and pure's Clone requirement.");
}

#[test]
fn cfn_once_hkt_applicative_law_interchange() {
    println!("NOTE: CFnOnceKind Applicative Interchange law is untestable due to CFnOnce not being Clone and pure's Clone requirement.");
}

#[test]
fn cfn_once_hkt_functor_identity_via_map() {
    let fa_creator = || CFnOnce::new(|_e: Env| 10);
    let id_fn_static = identity::<i32>;

    let mapped = CFnOnceKind::<Env>::map(fa_creator(), id_fn_static);
    assert_eq!(mapped.call_once(100), fa_creator().call_once(100));
}

#[test]
fn cfn_once_hkt_functor_composition_via_map() {
    let fa_creator = || CFnOnce::new(|_e: Env| 10);

    let f = |x: i32| x * 2;
    let g = |y: i32| y.to_string();
    let g_compose_f = move |x: i32| g(f(x));

    let lhs = CFnOnceKind::<Env>::map(fa_creator(), g_compose_f);
    let lhs_result_for_0 = lhs.call_once(0);

    let map_f_fa = CFnOnceKind::<Env>::map(fa_creator(), f);
    let rhs = CFnOnceKind::<Env>::map(map_f_fa, g);

    assert_eq!(lhs_result_for_0.clone(), rhs.call_once(100));
    assert_eq!(lhs_result_for_0, "20".to_string());
}

type ReaderEnv = i32;

#[test]
fn reader_t_hkt_applicative_law_identity() {

    println!("NOTE: ReaderTHKTMarker Applicative Identity law is untestable with CFn due to pure's Clone constraint.");
}

#[test]
fn reader_t_hkt_applicative_law_homomorphism() {

    println!("NOTE: ReaderTHKTMarker Applicative Homomorphism law is untestable with CFn due to pure's Clone constraint.");
}

#[test]
fn reader_t_hkt_applicative_law_interchange() {
    println!("NOTE: ReaderTHKTMarker Applicative Interchange law is untestable with CFn due to Clone constraints.");
}

#[test]
fn reader_t_hkt_functor_identity_via_map() {
    let fa_creator = || ReaderT::<ReaderEnv, <IdentityKind as Kind<i32>>::Of, i32>::new(
        |_e: ReaderEnv| IdType(10)
    );
    let id_fn_static = identity::<i32>;

    let mapped = ReaderTHKTMarker::<ReaderEnv, IdentityKind>::map(fa_creator(), id_fn_static);

    let env_val = 100;
    assert_eq!(mapped.run(env_val.clone()), fa_creator().run(env_val));
}

#[test]
fn reader_t_hkt_functor_composition_via_map() {
    let fa_creator = || ReaderT::<ReaderEnv, <IdentityKind as Kind<i32>>::Of, i32>::new(
        |_e: ReaderEnv| IdType(10)
    );

    let f = |x: i32| x * 2;
    let g = |y: i32| y.to_string();
    let g_compose_f = move |x: i32| g(f(x));

    let lhs = ReaderTHKTMarker::<ReaderEnv, IdentityKind>::map(fa_creator(), g_compose_f);

    let map_f_fa = ReaderTHKTMarker::<ReaderEnv, IdentityKind>::map(fa_creator(), f);
    let rhs = ReaderTHKTMarker::<ReaderEnv, IdentityKind>::map(map_f_fa, g);

    let env_val = 100;
    assert_eq!(lhs.run(env_val.clone()), rhs.run(env_val.clone()));
    assert_eq!(lhs.run(env_val), IdType("20".to_string()));
}
