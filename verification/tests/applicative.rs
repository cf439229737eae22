#![allow(unused_imports, dead_code, unused_variables, unused_mut)]

use fp_rs::applicative::lift_a1;
use fp_rs::function::CFn;
use fp_rs::kind_based::kind::OptionKind;
use fp_rs::{Applicative, Apply, Functor};

#[test]
fn applicative_check_some() {
    assert_eq!(Option::pure(1), Some(1))
}

#[test]
fn test_lift_a1() {
    let c = |x: i32| format!("{x}");
    let result = lift_a1::<OptionKind, _, _, _>(c, Some(1));
    assert_eq!(result, Some("1".to_string()))
}

fn identity<T>(x: T) -> T {
    x
}

#[test]
fn applicative_option_applicative_identity_some() {
    let v = Some(10);
    assert_eq!(v.apply(Option::pure(CFn::new(identity::<i32>))), v);
}

#[test]
fn applicative_option_applicative_identity_none() {
    let v: Option<i32> = None;
    assert_eq!(v.apply(Option::pure(CFn::new(identity::<i32>))), v);
}

#[test]
fn applicative_option_applicative_homomorphism() {
    let x = 10;
    let f = |y: i32| y * 2;
    let pure_x = Option::pure(x);

    assert_eq!(
        pure_x.clone().apply(Option::pure(CFn::new(f))),
        Option::pure(f(x))
    );
    assert_eq!(pure_x.apply(Option::pure(CFn::new(f))), Some(20));
}

#[test]
fn applicative_option_applicative_interchange_some_fn() {
    let y = 10;
    let f = |x: i32| x + 5;

    let lhs = Option::pure(y).apply(Some(CFn::new(f)));

    let u_for_rhs = Some(CFn::new(f));
    let eval_at_y = move |f_func: CFn<i32, i32>| f_func.call(y);
    let rhs_interchange = u_for_rhs.map(eval_at_y);

    assert_eq!(lhs, rhs_interchange);
    assert_eq!(lhs, Some(15));
}

#[test]
fn applicative_option_applicative_interchange_none_fn() {
    let y = 10;
    let u: Option<CFn<i32, i32>> = None;

    let lhs = Option::pure(y).apply(None::<CFn<i32, i32>>);

    let eval_at_y = move |f_func: CFn<i32, i32>| f_func.call(y);
    let rhs_interchange = u.map(eval_at_y);

    assert_eq!(lhs, rhs_interchange);
    assert_eq!(lhs, None);
}

#[test]
fn applicative_option_applicative_map_some() {
    let v = Some(10);
    let f = |x: i32| x.to_string();
    let pure_f = Option::pure(CFn::new(f));

    let lhs = v.map(f);
    let rhs = Some(10).apply(pure_f);

    assert_eq!(lhs, rhs);
    assert_eq!(lhs, Some("10".to_string()));
}

#[test]
fn applicative_option_applicative_map_none() {
    let v: Option<i32> = None;
    let f = |x: i32| x.to_string();
    let pure_f = Option::pure(CFn::new(f));

    let lhs = v.map(f);
    let rhs = None::<i32>.apply(pure_f);

    assert_eq!(lhs, rhs);
    assert_eq!(lhs, None);
}


#[test]
fn applicative_result_applicative_identity_ok() {
    let v: Result<i32, String> = Ok(10);
    assert_eq!(v.clone().apply(Result::pure(CFn::new(identity::<i32>))), v);
}

#[test]
fn applicative_result_applicative_identity_err() {
    let v: Result<i32, String> = Err("error".to_string());
    assert_eq!(v.clone().apply(Result::pure(CFn::new(identity::<i32>))), v);
}

#[test]
fn applicative_result_applicative_identity_ok_apply_err() {
    let v: Result<i32, String> = Ok(10);
    let f_err: Result<CFn<i32, i32>, String> = Err("function error".to_string());
    assert_eq!(v.apply(f_err), Err("function error".to_string()));
}

#[test]
fn applicative_result_applicative_homomorphism_ok() {
    let x = 10;
    let f = |y: i32| y * 2;
    let pure_x: Result<i32, String> = Result::pure(x);

    assert_eq!(
        pure_x.clone().apply(Result::pure(CFn::new(f))),
        Result::pure(f(x))
    );
    assert_eq!(
        Result::pure(x).apply(Result::pure(CFn::new(f))),
        Ok::<i32, String>(20)
    );
}

#[test]
fn applicative_result_applicative_homomorphism_err_val() {
    let x = 10;
    let _f = |y: i32| y * 2;
    let pure_f_err: Result<CFn<i32, i32>, String> = Err("function error".to_string());
    let pure_x: Result<i32, String> = Result::pure(x);
    assert_eq!(pure_x.apply(pure_f_err), Err("function error".to_string()));
}

#[test]
fn applicative_result_applicative_interchange_ok_fn() {
    let y = 10;
    let f = move |x: i32| x + y;

    let lhs = Result::pure(y).apply(Ok(CFn::new(f)));

    let u_for_rhs: Result<CFn<i32, i32>, String> = Ok(CFn::new(f));
    let rhs = u_for_rhs.map(move |f_func: CFn<i32, i32>| f_func.call(y));

    assert_eq!(lhs, rhs);
    assert_eq!(lhs, Ok(20));
}

#[test]
fn applicative_result_applicative_interchange_err_fn() {
    let y = 10;
    let u: Result<CFn<i32, i32>, String> = Err("function error".to_string());

    let lhs = Result::pure(y).apply(Err("function error".to_string()));
    let rhs = u.map(move |f_func: CFn<i32, i32>| f_func.call(y));

    assert_eq!(lhs, rhs);
    assert_eq!(lhs, Err("function error".to_string()));
}

#[test]
fn applicative_result_applicative_map_ok() {
    let v: Result<i32, String> = Ok(10);
    let f = |x: i32| x.to_string();

    let lhs = v.clone().map(f);
    let rhs = v.apply(Result::pure(CFn::new(f)));

    assert_eq!(lhs, rhs);
    assert_eq!(lhs, Ok("10".to_string()));
}

#[test]
fn applicative_result_applicative_map_err() {
    let v: Result<i32, String> = Err("error".to_string());
    let f = |x: i32| x.to_string();

    let lhs = v.clone().map(f);
    let rhs = v.apply(Result::pure(CFn::new(f)));

    assert_eq!(lhs, rhs);
    assert_eq!(lhs, Err("error".to_string()));
}

fn identity_cloned<T: Clone>(x: T) -> T {
    x.clone()
}

#[test]
fn applicative_vec_applicative_identity_non_empty() {
    let v = vec![10, 20];
    let pure_identity_fn_vec = vec![CFn::new(identity_cloned::<i32>)];
    assert_eq!(v.clone().apply(pure_identity_fn_vec), v);
}

#[test]
fn applicative_vec_applicative_identity_empty() {
    let v: Vec<i32> = vec![];
    let pure_identity_fn_vec = vec![CFn::new(identity_cloned::<i32>)];
    assert_eq!(v.clone().apply(pure_identity_fn_vec), v);
}

#[test]
fn applicative_vec_applicative_homomorphism() {
    let x = 10;
    let f = |y: i32| y * 2;
    let pure_x_vec = Vec::pure(x);

    let pure_f_vec = vec![CFn::new(f)];
    let lhs = pure_x_vec.apply(pure_f_vec);
    let rhs = Vec::pure(f(x));
    assert_eq!(lhs, rhs);
    assert_eq!(lhs, vec![20]);
}

#[test]
fn applicative_vec_applicative_interchange() {
    let y = 10;
    let add_5 = |x: i32| x + 5;
    let mul_2 = |x: i32| x * 2;

    let _u: Vec<CFn<i32, i32>> = vec![CFn::new(add_5), CFn::new(mul_2)];

    let u_lhs: Vec<CFn<i32, i32>> = vec![CFn::new(add_5), CFn::new(mul_2)];
    let lhs = Vec::pure(y).apply(u_lhs);

    let y_cloned = y.clone();
    let u_rhs: Vec<CFn<i32, i32>> = vec![CFn::new(add_5), CFn::new(mul_2)];
    let rhs = u_rhs.map(move |f_val: CFn<i32, i32>| f_val.call(y_cloned.clone()));

    assert_eq!(lhs, rhs);
    assert_eq!(lhs, vec![15, 20]);
}

#[test]
fn applicative_vec_applicative_interchange_empty_u() {
    let y = 10;
    let u_lhs: Vec<CFn<i32, i32>> = vec![];
    let u_rhs: Vec<CFn<i32, i32>> = vec![];

    let lhs = Vec::pure(y).apply(u_lhs);

    let y_cloned = y.clone();
    let rhs = u_rhs.map(move |f_val: CFn<i32, i32>| f_val.call(y_cloned.clone()));

    assert_eq!(lhs, rhs);
    assert_eq!(lhs, Vec::<i32>::new());
}

#[test]
fn applicative_vec_applicative_map_non_empty() {
    let v = vec![10, 20];
    let f = |x: i32| x.to_string();

    let lhs = v.clone().map(f);

    let pure_f_vec = vec![CFn::new(f)];
    let rhs = v.apply(pure_f_vec);

    assert_eq!(lhs, rhs);
    assert_eq!(lhs, vec!["10".to_string(), "20".to_string()]);
}

#[test]
fn applicative_vec_applicative_map_empty() {
    let v: Vec<i32> = vec![];
    let f = |x: i32| x.to_string();

    let lhs = v.clone().map(f);
    let pure_f_vec = vec![CFn::new(f)];
    let rhs = v.apply(pure_f_vec);

    assert_eq!(lhs, rhs);
    assert_eq!(lhs, Vec::<String>::new());
}
