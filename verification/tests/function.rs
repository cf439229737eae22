use fp_rs::function::CFn;

#[test]
fn cfn_call_repeatable() {
    let add_one = CFn::new(|x: i32| x + 1);
    assert_eq!(add_one.call(5), 6);
    assert_eq!(add_one.call(10), 11);
}
