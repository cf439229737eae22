#![allow(unused_imports, dead_code, unused_variables, unused_mut)]

use fp_rs::kind_based::kind::{Kind, OptionKind, ResultKind};

pub trait FunctorExample<A, B>: Kind<A> + Kind<B> {
    fn map_example(input: <Self as Kind<A>>::Of, func: impl Fn(A) -> B) -> <Self as Kind<B>>::Of;
}

impl<A, B> FunctorExample<A, B> for OptionKind {
    fn map_example(input: Option<A>, func: impl Fn(A) -> B) -> Option<B> {
        input.map(func)
    }
}

impl<A, B, E> FunctorExample<A, B> for ResultKind<E> {
    fn map_example(input: Result<A, E>, func: impl Fn(A) -> B) -> Result<B, E> {
        input.map(func)
    }
}

#[test]
fn test_functor_example_option() {
    let option_a: Option<i32> = Some(5);
    let option_b = OptionKind::map_example(option_a, |x| x * 2);
    assert_eq!(option_b, Some(10));

    let option_n: Option<i32> = None;
    let option_n_mapped = OptionKind::map_example(option_n, |x: i32| x * 2);
    assert_eq!(option_n_mapped, None);
}

#[test]
fn test_functor_example_result() {
    type MyResult<T> = Result<T, String>;
    type MyResultHKT = ResultKind<String>;

    let result_a: MyResult<i32> = Ok(5);
    let result_b = MyResultHKT::map_example(result_a, |x| x * 2);
    assert_eq!(result_b, Ok(10));

    let result_e: MyResult<i32> = Err("error".to_string());
    let result_e_mapped = MyResultHKT::map_example(result_e, |x: i32| x * 2);
    assert_eq!(result_e_mapped, Err("error".to_string()));
}
