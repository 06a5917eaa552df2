use buffer_pool::Cacher;

#[test]
fn call_with_different_values() {
    let mut closure_result = Cacher::new(|n| n * n);
    let v = closure_result.value(3);
    let v2 = closure_result.value(4);

    assert_eq!(v, 9);
    assert_eq!(v2, 16);
}

#[test]
fn call_with_strings() {
    let mut closure_result = Cacher::new(|n: &str| -> String {
        let m = n.to_string();
        m + "でがんす"
    });
    let v = closure_result.value("こんにちわ");
    let v2 = closure_result.value("こんばんわ");

    assert_eq!(v, "こんにちわでがんす");
    assert_eq!(v2, "こんばんわでがんす");
}

#[test]
fn call_with_slice() {
    let mut closure_result = Cacher::new(|n: &str| -> usize { n.len() });
    let res = closure_result.value("abcd");
    assert_eq!(res, 4);
}

#[test]
fn cacher_computes_each_argument_once() {
    let calls = std::cell::Cell::new(0u32);
    let mut cacher = Cacher::new(|n: u64| {
        calls.set(calls.get() + 1);
        n + 1
    });
    assert_eq!(cacher.value(5), 6);
    assert_eq!(cacher.value(5), 6);
    assert_eq!(cacher.value(7), 8);
    assert_eq!(calls.get(), 2);
}
