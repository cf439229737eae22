#![allow(unused_imports, dead_code, unused_variables, unused_mut)]

use fp_rs::function::CFn;

#[test]
fn legacy_apply_apply_on_option() {
    let closure = |x: i32| CFn::new(move |y: i8| format!("{x}{y}"));
    let some_closure = <Option<i32> as fp_rs::legacy::functor::Functor<i32, CFn<i8, String>>>::map(Some(1), closure.clone());
    let none_closure = <Option<i32> as fp_rs::legacy::functor::Functor<i32, CFn<i8, String>>>::map(None, closure);

    assert_eq!(<Option<i8> as fp_rs::legacy::apply::Apply<i8, String>>::apply(Some(2), some_closure), Some("12".to_string()));
    assert_eq!(<Option<i8> as fp_rs::legacy::apply::Apply<i8, String>>::apply(Some(2), none_closure), None);

    let closure_lift = |x: i32| CFn::new(move |y: i8| format!("{x}{y}"));
    assert_eq!(fp_rs::legacy::apply::lift2(closure_lift.clone(), Some(1), Some(2)), Some("12".to_string()));
    assert_eq!(fp_rs::legacy::apply::lift2(closure_lift, None, Some(2)), None);

    let closure_lift3 = |x: i32| CFn::new(move |y: i8| CFn::new(move |z: i32| x + y as i32 + z));
    assert_eq!(fp_rs::legacy::apply::lift3(closure_lift3, Some(1), Some(2), Some(3)), Some(6));
}
