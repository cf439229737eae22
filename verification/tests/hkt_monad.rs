#![allow(unused_imports, dead_code, unused_variables, unused_mut)]

use fp_rs::monad::{Bind, Monad};
use fp_rs::applicative::Applicative;
use fp_rs::functor::Functor;
use fp_rs::kind_based::kind::{ResultKind, OptionKind, VecKind, CFnKind, CFnOnceKind};
use fp_rs::function::{CFn, CFnOnce};

type TestError = String;
type TestResult<T> = Result<T, TestError>;

fn clone_fn<A, B, F>(f: F) -> impl Fn(A) -> B + Clone + 'static
where
    F: Fn(A) -> B + Clone + 'static,
    A: 'static,
    B: 'static,
{
    f
}

#[test]
fn result_hkt_monad_left_identity_ok() {
    let a: i32 = 10;
    let f = clone_fn(|x: i32| -> TestResult<String> { Ok((x * 2).to_string()) });

    let lhs = ResultKind::<TestError>::bind(
        ResultKind::<TestError>::pure(a),
        f.clone(),
    );
    let rhs = f.clone()(a);

    assert_eq!(lhs, rhs);
    assert_eq!(lhs, Ok("20".to_string()));
}

#[test]
fn result_hkt_monad_left_identity_f_returns_err() {
    let a: i32 = 10;
    let f = clone_fn(|_x: i32| -> TestResult<String> { Err("f_error".to_string()) });

    let lhs = ResultKind::<TestError>::bind(
        ResultKind::<TestError>::pure(a),
        f.clone(),
    );
    let rhs = f.clone()(a);

    assert_eq!(lhs, rhs);
    assert_eq!(lhs, Err("f_error".to_string()));
}

#[test]
fn result_hkt_monad_right_identity_ok() {
    let m: TestResult<i32> = Ok(10);
    let pure_fn = clone_fn(|val: i32| ResultKind::<TestError>::pure(val));

    let lhs = ResultKind::<TestError>::bind(m.clone(), pure_fn);
    let rhs = m;

    assert_eq!(lhs, rhs);
}

#[test]
fn result_hkt_monad_right_identity_err() {
    let m: TestResult<i32> = Err("m_error".to_string());
    let pure_fn = clone_fn(|val: i32| ResultKind::<TestError>::pure(val));

    let lhs = ResultKind::<TestError>::bind(m.clone(), pure_fn);
    let rhs = m;

    assert_eq!(lhs, rhs);
}

#[test]
fn result_hkt_monad_associativity_all_ok() {
    let m: TestResult<i32> = Ok(10);
    let f = clone_fn(|x: i32| -> TestResult<f64> { Ok((x * 2) as f64) });
    let g = clone_fn(|y: f64| -> TestResult<String> { Ok(y.to_string()) });

    let lhs = ResultKind::<TestError>::bind(
        ResultKind::<TestError>::bind(m.clone(), f.clone()),
        g.clone(),
    );

    let f_inner = f.clone();
    let g_inner = g.clone();
    let composed_func = clone_fn(move |x: i32| {
            ResultKind::<TestError>::bind(f_inner.clone()(x), g_inner.clone())
    });
    let rhs = ResultKind::<TestError>::bind(m.clone(), composed_func);

    assert_eq!(lhs, rhs);
    assert_eq!(lhs, Ok("20".to_string()));
}

#[test]
fn result_hkt_monad_associativity_m_is_err() {
    let m: TestResult<i32> = Err("m_error".to_string());
    let f = clone_fn(|x: i32| -> TestResult<f64> { Ok((x * 2) as f64) });
    let g = clone_fn(|y: f64| -> TestResult<String> { Ok(y.to_string()) });

    let lhs = ResultKind::<TestError>::bind(
        ResultKind::<TestError>::bind(m.clone(), f.clone()),
        g.clone(),
    );

    let f_inner = f.clone();
    let g_inner = g.clone();
    let composed_func = clone_fn(move |x: i32| {
            ResultKind::<TestError>::bind(f_inner.clone()(x), g_inner.clone())
    });
    let rhs = ResultKind::<TestError>::bind(m.clone(), composed_func);

    assert_eq!(lhs, rhs);
    assert_eq!(lhs, Err("m_error".to_string()));
}

#[test]
fn result_hkt_monad_associativity_f_returns_err() {
    let m: TestResult<i32> = Ok(10);
    let f = clone_fn(|_x: i32| -> TestResult<f64> { Err("f_error".to_string()) });
    let g = clone_fn(|y: f64| -> TestResult<String> { Ok(y.to_string()) });

    let lhs = ResultKind::<TestError>::bind(
        ResultKind::<TestError>::bind(m.clone(), f.clone()),
        g.clone(),
    );

    let f_inner = f.clone();
    let g_inner = g.clone();
    let composed_func = clone_fn(move |x: i32| {
            ResultKind::<TestError>::bind(f_inner.clone()(x), g_inner.clone())
    });
    let rhs = ResultKind::<TestError>::bind(m.clone(), composed_func);

    assert_eq!(lhs, rhs);
    assert_eq!(lhs, Err("f_error".to_string()));
}

#[test]
fn result_hkt_monad_associativity_g_returns_err() {
    let m: TestResult<i32> = Ok(10);
    let f = clone_fn(|x: i32| -> TestResult<f64> { Ok((x * 2) as f64) });
    let g = clone_fn(|_y: f64| -> TestResult<String> { Err("g_error".to_string()) });

    let lhs = ResultKind::<TestError>::bind(
        ResultKind::<TestError>::bind(m.clone(), f.clone()),
        g.clone(),
    );

    let f_inner = f.clone();
    let g_inner = g.clone();
    let composed_func = clone_fn(move |x: i32| {
            ResultKind::<TestError>::bind(f_inner.clone()(x), g_inner.clone())
    });
    let rhs = ResultKind::<TestError>::bind(m.clone(), composed_func);

    assert_eq!(lhs, rhs);
    assert_eq!(lhs, Err("g_error".to_string()));
}

#[test]
fn result_hkt_monad_join_law1() {
    let x = 10;
    let mma: TestResult<TestResult<i32>> =
    ResultKind::<TestError>::pure(ResultKind::<TestError>::pure(x));

    let lhs = ResultKind::<TestError>::join(mma);
    let rhs = ResultKind::<TestError>::pure(x);
    assert_eq!(lhs, rhs);
    assert_eq!(lhs, Ok(10));
}

#[test]
fn result_hkt_monad_join_law1_outer_err() {
    let mma: TestResult<TestResult<i32>> = Err("outer_error".to_string());
    let lhs = ResultKind::<TestError>::join(mma);
    assert_eq!(lhs, Err("outer_error".to_string()));
}

#[test]
fn result_hkt_monad_join_law1_inner_err() {
    let mma: TestResult<TestResult<i32>> =
    ResultKind::<TestError>::pure(Err("inner_error".to_string()));
    let lhs = ResultKind::<TestError>::join(mma);
    assert_eq!(lhs, Err("inner_error".to_string()));
}

#[test]
fn result_hkt_monad_join_law2() {
    let m_ok: TestResult<i32> = Ok(10);
    let m_err: TestResult<i32> = Err("m_error".to_string());

    let pure_fn = clone_fn(|val: i32| ResultKind::<TestError>::pure(val));

    let mapped_m_ok = ResultKind::<TestError>::map(m_ok.clone(), pure_fn.clone());
    assert_eq!(ResultKind::<TestError>::join(mapped_m_ok), m_ok);

    let mapped_m_err = ResultKind::<TestError>::map(m_err.clone(), pure_fn.clone());
    assert_eq!(ResultKind::<TestError>::join(mapped_m_err), m_err);
}

#[test]
fn result_hkt_monad_join_law3() {
    let m_ok: TestResult<i32> = Ok(10);
    let m_err: TestResult<i32> = Err("m_error".to_string());

    let pure_m_ok = ResultKind::<TestError>::pure(m_ok.clone());
    assert_eq!(ResultKind::<TestError>::join(pure_m_ok), m_ok);

    let pure_m_err = ResultKind::<TestError>::pure(m_err.clone());
    assert_eq!(ResultKind::<TestError>::join(pure_m_err), m_err);
}

#[test]
fn option_hkt_join_some_some() {
    let mma: Option<Option<i32>> = Some(Some(10));
    assert_eq!(OptionKind::join(mma), Some(10));
}

#[test]
fn option_hkt_join_some_none() {
    let mma: Option<Option<i32>> = Some(None);
    assert_eq!(OptionKind::join(mma), None);
}

#[test]
fn option_hkt_join_none() {
    let mma: Option<Option<i32>> = None;
    assert_eq!(OptionKind::join(mma), None);
}

#[test]
fn vec_hkt_monad_left_identity() {
    let a: i32 = 10;
    let f = clone_fn(|x: i32| -> Vec<String> { vec![x.to_string(), (x + 1).to_string()] });

    let lhs = VecKind::bind(VecKind::pure(a), f.clone());
    let rhs = f.clone()(a);

    assert_eq!(lhs, rhs);
    assert_eq!(lhs, vec!["10".to_string(), "11".to_string()]);
}

#[test]
fn vec_hkt_monad_left_identity_f_returns_empty() {
    let a: i32 = 10;
    let f = clone_fn(|_x: i32| -> Vec<String> { vec![] });

    let lhs = VecKind::bind(VecKind::pure(a), f.clone());
    let rhs = f.clone()(a);

    assert_eq!(lhs, rhs);
    assert_eq!(lhs, Vec::<String>::new());
}

#[test]
fn vec_hkt_monad_right_identity_non_empty() {
    let m: Vec<i32> = vec![10, 20];
    let pure_fn = clone_fn(|val: i32| VecKind::pure(val));

    let lhs = VecKind::bind(m.clone(), pure_fn);
    let rhs = m;

    assert_eq!(lhs, rhs);
}

#[test]
fn vec_hkt_monad_right_identity_empty() {
    let m: Vec<i32> = vec![];
    let pure_fn = clone_fn(|val: i32| VecKind::pure(val));

    let lhs = VecKind::bind(m.clone(), pure_fn);
    let rhs = m;

    assert_eq!(lhs, rhs);
}

#[test]
fn vec_hkt_monad_associativity() {
    let m: Vec<i32> = vec![1, 2];
    let f = clone_fn(|x: i32| -> Vec<i32> { vec![x, x * 10] });
    let g = clone_fn(|y: i32| -> Vec<String> { vec![y.to_string(), (y + 1).to_string()] });

    let lhs = VecKind::bind(
        VecKind::bind(m.clone(), f.clone()),
        g.clone(),
    );

    let f_inner = f.clone();
    let g_inner = g.clone();
    let composed_func = clone_fn(move |x: i32| {
            VecKind::bind(f_inner.clone()(x), g_inner.clone())
    });
    let rhs = VecKind::bind(m.clone(), composed_func);

    assert_eq!(lhs, rhs);
    assert_eq!(
        lhs,
        vec![
            "1".to_string(), "2".to_string(), "10".to_string(), "11".to_string(),
            "2".to_string(), "3".to_string(), "20".to_string(), "21".to_string()
        ]
    );
}

#[test]
fn vec_hkt_monad_associativity_empty_start() {
    let m: Vec<i32> = vec![];
    let f = clone_fn(|x: i32| -> Vec<i32> { vec![x, x * 10] });
    let g = clone_fn(|y: i32| -> Vec<String> { vec![y.to_string(), (y + 1).to_string()] });

    let lhs = VecKind::bind(VecKind::bind(m.clone(), f.clone()), g.clone());
    let f_inner = f.clone();
    let g_inner = g.clone();
    let composed_func = clone_fn(move |x: i32| VecKind::bind(f_inner.clone()(x), g_inner.clone()));
    let rhs = VecKind::bind(m.clone(), composed_func);

    assert_eq!(lhs, rhs);
    assert_eq!(lhs, Vec::<String>::new());
}

#[test]
fn vec_hkt_monad_associativity_f_returns_empty() {
    let m: Vec<i32> = vec![1, 2];
    let f = clone_fn(|_x: i32| -> Vec<i32> { vec![] });
    let g = clone_fn(|y: i32| -> Vec<String> { vec![y.to_string(), (y + 1).to_string()] });

    let lhs = VecKind::bind(VecKind::bind(m.clone(), f.clone()), g.clone());
    let f_inner = f.clone();
    let g_inner = g.clone();
    let composed_func = clone_fn(move |x: i32| VecKind::bind(f_inner.clone()(x), g_inner.clone()));
    let rhs = VecKind::bind(m.clone(), composed_func);

    assert_eq!(lhs, rhs);
    assert_eq!(lhs, Vec::<String>::new());
}

#[test]
fn vec_hkt_monad_associativity_g_returns_empty() {
    let m: Vec<i32> = vec![1, 2];
    let f = clone_fn(|x: i32| -> Vec<i32> { vec![x, x * 10] });
    let g = clone_fn(|_y: i32| -> Vec<String> { vec![] });

    let lhs = VecKind::bind(VecKind::bind(m.clone(), f.clone()), g.clone());
    let f_inner = f.clone();
    let g_inner = g.clone();
    let composed_func = clone_fn(move |x: i32| VecKind::bind(f_inner.clone()(x), g_inner.clone()));
    let rhs = VecKind::bind(m.clone(), composed_func);

    assert_eq!(lhs, rhs);
    assert_eq!(lhs, Vec::<String>::new());
}

#[test]
fn vec_hkt_monad_join_law1() {
    let x = 10;
    let mma: Vec<Vec<i32>> = VecKind::pure(VecKind::pure(x));

    let lhs = VecKind::join(mma);
    let rhs = VecKind::pure(x);
    assert_eq!(lhs, rhs);
}

#[test]
fn vec_hkt_monad_join_law2() {
    let m_non_empty: Vec<i32> = vec![10, 20];
    let m_empty: Vec<i32> = vec![];

    let pure_fn = clone_fn(|val: i32| VecKind::pure(val));

    let mapped_m_non_empty = VecKind::map(m_non_empty.clone(), pure_fn.clone());
    assert_eq!(VecKind::join(mapped_m_non_empty), m_non_empty);

    let mapped_m_empty = VecKind::map(m_empty.clone(), pure_fn.clone());
    assert_eq!(VecKind::join(mapped_m_empty), m_empty);
}

#[test]
fn vec_hkt_monad_join_law3() {
    let m_non_empty: Vec<i32> = vec![10, 20];
    let m_empty: Vec<i32> = vec![];

    let pure_m_non_empty = VecKind::pure(m_non_empty.clone());
    assert_eq!(VecKind::join(pure_m_non_empty), m_non_empty);

    let pure_m_empty = VecKind::pure(m_empty.clone());
    assert_eq!(VecKind::join(pure_m_empty), m_empty);
}

#[test]
fn vec_hkt_join_specific_examples() {
    assert_eq!(VecKind::join(vec![vec![1, 2], vec![3, 4]]), vec![1, 2, 3, 4]);
    assert_eq!(VecKind::join(vec![vec![], vec![3, 4]]), vec![3, 4]);
    assert_eq!(VecKind::join(vec![vec![1, 2], vec![]]), vec![1, 2]);
    assert_eq!(VecKind::join(Vec::<Vec<i32>>::new()), Vec::<i32>::new());
    assert_eq!(VecKind::join(vec![Vec::<i32>::new(), Vec::<i32>::new()]), Vec::<i32>::new());
}

type Env = i32;

#[test]
fn cfn_hkt_monad_left_identity() {
    let env_val: Env = 5;
    let a: i32 = 10;

    let f = clone_fn(move |x: i32| -> CFn<Env, String> {
            CFn::new(move |env: Env| (x + env).to_string())
    });

    let pure_a_cfn: CFn<Env, i32> = CFnKind::<Env>::pure(a);
    let lhs_cfn: CFn<Env, String> = CFnKind::<Env>::bind(pure_a_cfn, f.clone());

    let rhs_cfn: CFn<Env, String> = f.clone()(a);

    assert_eq!(lhs_cfn.call(env_val), rhs_cfn.call(env_val));
    assert_eq!(lhs_cfn.call(env_val), "15".to_string());
}

#[test]
fn cfn_hkt_monad_right_identity() {
    let env_val: Env = 7;
    let m_creator = || CFn::new(move |env: Env| env * 2);

    let pure_fn = clone_fn(|val: i32| CFnKind::<Env>::pure(val));

    let lhs_cfn: CFn<Env, i32> = CFnKind::<Env>::bind(m_creator(), pure_fn);
    let rhs_cfn: CFn<Env, i32> = m_creator();

    assert_eq!(lhs_cfn.call(env_val), rhs_cfn.call(env_val));
    assert_eq!(lhs_cfn.call(env_val), 14);
}

#[test]
fn cfn_hkt_monad_associativity() {
    let env_val: Env = 3;
    let m_creator = || CFn::new(move |env: Env| env + 1);

    let f = clone_fn(move |x: i32| -> CFn<Env, f64> {
            CFn::new(move |env: Env| (x * env) as f64)
    });

    let g = clone_fn(move |y: f64| -> CFn<Env, String> {
            CFn::new(move |env: Env| (y + (env as f64)).to_string())
    });

    let bound_f: CFn<Env, f64> = CFnKind::<Env>::bind(m_creator(), f.clone());
    let lhs_cfn: CFn<Env, String> = CFnKind::<Env>::bind(bound_f, g.clone());

    let f_inner = f.clone();
    let g_inner = g.clone();
    let composed_func = clone_fn(move |x_val: i32| -> CFn<Env, String> {
            let fx: CFn<Env, f64> = f_inner.clone()(x_val);
            CFnKind::<Env>::bind(fx, g_inner.clone())
    });
    let rhs_cfn: CFn<Env, String> = CFnKind::<Env>::bind(m_creator(), composed_func);

    assert_eq!(lhs_cfn.call(env_val), rhs_cfn.call(env_val));
    assert_eq!(lhs_cfn.call(env_val), "15".to_string());
}

#[test]
fn cfn_hkt_monad_join_law1() {
    let env_val: Env = 5;
    let x: i32 = 10;

    let mma: CFn<Env, CFn<Env, i32>> =
    CFn::new(move |_env_outer: Env| CFnKind::<Env>::pure(x.clone()));

    let lhs_cfn: CFn<Env, i32> = CFnKind::<Env>::join(mma);
    let rhs_cfn: CFn<Env, i32> = CFnKind::<Env>::pure(x);

    assert_eq!(lhs_cfn.call(env_val), rhs_cfn.call(env_val));
    assert_eq!(lhs_cfn.call(env_val), 10);
}

#[test]
fn cfn_hkt_monad_join_law2() {
    let env_val: Env = 7;
    let m_creator = || CFn::new(move |env: Env| env * 3);

    let pure_fn = clone_fn(|val: i32| CFnKind::<Env>::pure(val));

    let mapped_m_cfn: CFn<Env, CFn<Env, i32>> = CFnKind::<Env>::map(m_creator(), pure_fn);

    let lhs_cfn: CFn<Env, i32> = CFnKind::<Env>::join(mapped_m_cfn);
    let rhs_cfn: CFn<Env, i32> = m_creator();

    assert_eq!(lhs_cfn.call(env_val), rhs_cfn.call(env_val));
    assert_eq!(lhs_cfn.call(env_val), 21);
}




#[test]
fn cfn_once_hkt_monad_left_identity() {
    let env_val: Env = 5;
    let a: i32 = 10;

    let f = |x: i32| -> CFnOnce<Env, String> {
        CFnOnce::new(move |env: Env| (x + env).to_string())
    };

    let pure_a_cfn_once: CFnOnce<Env, i32> = CFnOnceKind::<Env>::pure(a);
    let lhs_cfn_once: CFnOnce<Env, String> = CFnOnceKind::<Env>::bind(pure_a_cfn_once, f);

    let f_for_rhs = |x: i32| -> CFnOnce<Env, String> {
        CFnOnce::new(move |env: Env| (x + env).to_string())
    };
    let rhs_cfn_once: CFnOnce<Env, String> = f_for_rhs(a);

    assert_eq!(lhs_cfn_once.call_once(env_val), rhs_cfn_once.call_once(env_val));
    let f_for_assert = |x: i32| -> CFnOnce<Env, String> {
        CFnOnce::new(move |env: Env| (x + env).to_string())
    };
    let pure_a_for_assert: CFnOnce<Env, i32> = CFnOnceKind::<Env>::pure(a);
    assert_eq!(CFnOnceKind::<Env>::bind(pure_a_for_assert, f_for_assert).call_once(env_val), "15".to_string());
}

#[test]
fn cfn_once_hkt_monad_right_identity() {
    let env_val: Env = 7;
    let m_creator = || CFnOnce::new(move |env: Env| env * 2);

    let pure_fn = |val: i32| CFnOnceKind::<Env>::pure(val);

    let lhs_cfn_once: CFnOnce<Env, i32> = CFnOnceKind::<Env>::bind(m_creator(), pure_fn);
    let rhs_cfn_once: CFnOnce<Env, i32> = m_creator();

    assert_eq!(lhs_cfn_once.call_once(env_val), rhs_cfn_once.call_once(env_val));
    assert_eq!(m_creator().call_once(env_val), 14);
}

#[test]
fn cfn_once_hkt_monad_associativity() {
    let env_val: Env = 3;
    let m_creator = || CFnOnce::new(move |env: Env| env + 1);

    let f = |x: i32| -> CFnOnce<Env, f64> {
        CFnOnce::new(move |env: Env| (x * env) as f64)
    };
    let g = |y: f64| -> CFnOnce<Env, String> {
        CFnOnce::new(move |env: Env| (y + (env as f64)).to_string())
    };

    let bound_f: CFnOnce<Env, f64> = CFnOnceKind::<Env>::bind(m_creator(), f);
    let lhs_cfn_once: CFnOnce<Env, String> = CFnOnceKind::<Env>::bind(bound_f, g);

    let f_for_rhs = |x: i32| -> CFnOnce<Env, f64> {
        CFnOnce::new(move |env: Env| (x * env) as f64)
    };
    let g_for_rhs = |y: f64| -> CFnOnce<Env, String> {
        CFnOnce::new(move |env: Env| (y + (env as f64)).to_string())
    };
    let composed_func = move |x_val: i32| -> CFnOnce<Env, String> {
        let fx: CFnOnce<Env, f64> = f_for_rhs(x_val);
        CFnOnceKind::<Env>::bind(fx, g_for_rhs)
    };
    let rhs_cfn_once: CFnOnce<Env, String> = CFnOnceKind::<Env>::bind(m_creator(), composed_func);

    assert_eq!(lhs_cfn_once.call_once(env_val), rhs_cfn_once.call_once(env_val));
    let m_check = || CFnOnce::new(move |env: Env| env + 1);
    let f_check = |x: i32| -> CFnOnce<Env, f64> { CFnOnce::new(move |env: Env| (x * env) as f64) };
    let g_check = |y: f64| -> CFnOnce<Env, String> { CFnOnce::new(move |env: Env| (y + (env as f64)).to_string()) };
    let bound_f_check = CFnOnceKind::<Env>::bind(m_check(), f_check);
    assert_eq!(CFnOnceKind::<Env>::bind(bound_f_check, g_check).call_once(env_val), "15".to_string());
}

#[test]
fn cfn_once_hkt_monad_join_law1() {
    let env_val: Env = 5;
    let x: i32 = 10;

    let mma: CFnOnce<Env, CFnOnce<Env, i32>> =
    CFnOnce::new(move |_env_outer: Env| CFnOnceKind::<Env>::pure(x.clone()));

    let lhs_cfn_once: CFnOnce<Env, i32> = CFnOnceKind::<Env>::join(mma);
    let rhs_cfn_once: CFnOnce<Env, i32> = CFnOnceKind::<Env>::pure(x);

    assert_eq!(lhs_cfn_once.call_once(env_val), rhs_cfn_once.call_once(env_val));
    assert_eq!(CFnOnceKind::<Env>::pure(x).call_once(env_val), 10);
}

#[test]
fn cfn_once_hkt_monad_join_law2() {
    let env_val: Env = 7;
    let m_creator = || CFnOnce::new(move |env: Env| env * 3);

    let pure_fn = |val: i32| CFnOnceKind::<Env>::pure(val);

    let mapped_m_cfn_once: CFnOnce<Env, CFnOnce<Env, i32>> = CFnOnceKind::<Env>::map(m_creator(), pure_fn);

    let lhs_cfn_once: CFnOnce<Env, i32> = CFnOnceKind::<Env>::join(mapped_m_cfn_once);
    let rhs_cfn_once: CFnOnce<Env, i32> = m_creator();

    assert_eq!(lhs_cfn_once.call_once(env_val), rhs_cfn_once.call_once(env_val));
    assert_eq!(m_creator().call_once(env_val), 21);
}
