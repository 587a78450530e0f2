use kimari::{ToValue, Value};

#[test]
fn eq_string_string() {
    assert_eq!(Value::from("abc"), Value::from("abc"));
    assert_eq!(Value::from("abc"), Value::from(Some("abc")));
    assert_eq!(Value::from(Some("abc")), Value::from("abc"));
    assert_eq!(Value::from(Some("abc")), Value::from(Some("abc")));

    assert_ne!(Value::from("abc"), Value::from("def"));
    assert_ne!(Value::from("abc"), Value::from(Some("def")));
    assert_ne!(Value::from("abc"), Value::from(None::<String>));
}

#[test]
fn eq_array() {
    assert_eq!(
        Value::from(vec![Value::from(123), Value::from("abc")]),
        Value::from(vec![Value::from(123), Value::from("abc")]),
    );
    assert_eq!(
        Value::from(vec![Value::from(123), Value::from(None::<String>)]),
        Value::from(vec![Value::from(Some(123)), Value::from(None::<String>)]),
    );

    assert_ne!(
        Value::from(vec![Value::from(123), Value::from("abc")]),
        Value::from(vec![Value::from("abc"), Value::from(123)]),
    );
}

#[test]
fn eq_optional() {
    assert_eq!(Value::from(None::<String>), Value::from(None::<String>));
}

#[test]
fn integer_equals_the_optional_that_holds_it() {
    for x in [0_isize, 1, -1, isize::MAX, isize::MIN] {
        let bare = Value::Integer(x);
        let held = Value::Optional(Some(Box::new(Value::Integer(x))));
        assert!(bare == held);
        assert!(held == bare);
        assert!(bare != Value::Optional(Some(Box::new(Value::Integer(x.wrapping_add(1))))));
    }
}

#[test]
fn empty_optional_equals_no_other_value() {
    let empty = Value::Optional(None);
    let others = vec![
        Value::from(0_i32),
        Value::from(""),
        Value::from(Vec::<Value>::new()),
        Value::from(Some(0_i32)),
        Value::Optional(Some(Box::new(Value::Optional(None)))),
    ];
    for other in others.iter() {
        assert!(empty != *other, "{:?}", other);
        assert!(*other != empty, "{:?}", other);
    }
    assert!(empty == Value::Optional(None));
}

#[test]
fn arrays_are_equal_item_by_item() {
    let a = Value::from(vec![1_i32, 2, 3]);
    assert!(a == Value::from(vec![1_i32, 2, 3]));
    assert!(a != Value::from(vec![1_i32, 2]));
    assert!(a != Value::from(vec![1_i32, 2, 3, 4]));
    assert!(a != Value::from(vec![1_i32, 2, 4]));
    assert!(a == Value::from(vec![Some(1_i32), Some(2), Some(3)]));
    assert!(Value::from(Vec::<i32>::new()) == Value::from(Vec::<String>::new()));
    assert!(a != Value::from(1_i32));
    assert!(a != Value::from("1,2,3"));
}

#[test]
fn array_equals_the_optional_that_holds_it_in_both_orders() {
    let bare = Value::from(vec![1_i32, 2]);
    let held = Value::from(Some(vec![1_i32, 2]));
    assert!(bare == held);
    assert!(held == bare);
    assert!(bare != Value::from(Some(vec![1_i32])));
    assert!(Value::from(Some(vec![1_i32])) != bare);
}

#[test]
fn equality_is_reflexive_and_symmetric() {
    let values = vec![
        Value::from(1_i32),
        Value::from("1"),
        Value::from(Some(1_i32)),
        Value::from(Some(Some(1_i32))),
        Value::from(None::<i32>),
        Value::from(Some(None::<i32>)),
        Value::from(vec![Value::from(1_i32), Value::from(Some("x"))]),
        Value::from(vec![Value::from(Some(1_i32)), Value::from("x")]),
        Value::from(Some(vec![1_i32])),
    ];
    for a in values.iter() {
        assert!(a == a, "{:?}", a);
        for b in values.iter() {
            assert_eq!(a == b, b == a, "{:?} {:?}", a, b);
        }
    }
}

#[test]
fn nested_optionals_are_unwrapped_level_by_level() {
    let one = Value::from(1_i32);
    assert!(one == Value::from(Some(Some(1_i32))));
    assert!(Value::from(Some(1_i32)) == Value::from(Some(Some(1_i32))));
    assert!(Value::from(None::<i32>) != Value::from(Some(None::<i32>)));
}

#[test]
fn integers_are_brought_to_one_type() {
    assert!(matches!(Value::from(7_i32), Value::Integer(7)));
    assert!(matches!(Value::from(7_u32), Value::Integer(7)));
    assert!(matches!(Value::from(-7_i64), Value::Integer(-7)));
    assert!(matches!(Value::from(7_u64), Value::Integer(7)));
    assert!(matches!(Value::from(7_usize), Value::Integer(7)));
    assert!(matches!(Value::from(-7_isize), Value::Integer(-7)));
    assert!(matches!(Value::from(u64::MAX), Value::Integer(-1)));
    assert!(matches!(Value::from(usize::MAX), Value::Integer(-1)));
    assert!(matches!(Value::from(i32::MIN), Value::Integer(-2147483648)));
    assert!(matches!(Value::from(i32::MAX), Value::Integer(2147483647)));
    assert!(matches!(Value::from(u32::MAX), Value::Integer(4294967295)));
    assert!(matches!(Value::from(i64::MIN), Value::Integer(isize::MIN)));
    assert!(matches!(Value::from(i64::MAX), Value::Integer(isize::MAX)));
    assert!(matches!(Value::from(u64::MAX - 1), Value::Integer(-2)));
    assert!(matches!(Value::from(1_u64 << 63), Value::Integer(isize::MIN)));
    assert!(matches!(Value::from((1_u64 << 63) - 1), Value::Integer(isize::MAX)));
    assert!(matches!(Value::from((1_usize << 63) + 5), Value::Integer(n) if n == isize::MIN + 5));
    assert!(matches!(Value::from(0_u64), Value::Integer(0)));
    for n in [0_u64, 1, 1 << 31, 1 << 32, (1 << 63) - 1, 1 << 63, u64::MAX] {
        assert!(matches!(Value::from(n), Value::Integer(m) if m == n as isize));
        assert!(matches!(n.to_value(), Value::Integer(m) if m == n as isize));
    }
    for n in [i64::MIN, -1, 0, 1, i64::MAX] {
        assert!(matches!(Value::from(n), Value::Integer(m) if m == n as isize));
        assert!(matches!(n.to_value(), Value::Integer(m) if m == n as isize));
    }
}

#[test]
fn conversions_keep_the_shape() {
    assert!(matches!(Value::from("abc".to_string()), Value::String(s) if s == "abc"));
    assert!(matches!(Value::from("abc"), Value::String(s) if s == "abc"));
    assert!(matches!(Value::from(&5_i32), Value::Integer(5)));
    assert!(matches!(Value::from(None::<i32>), Value::Optional(None)));
    match Value::from(Some("x")) {
        Value::Optional(Some(held)) => assert!(matches!(*held, Value::String(s) if s == "x")),
        other => panic!("{:?}", other),
    }
    match Value::from(vec![Some(1_i32), None]) {
        Value::Array(items) => {
            assert_eq!(2, items.len());
            assert!(matches!(&items[0], Value::Optional(Some(_))));
            assert!(matches!(&items[1], Value::Optional(None)));
        }
        other => panic!("{:?}", other),
    }
    match Value::from_iter(vec![3_i32, 4].into_iter()) {
        Value::Array(items) => {
            assert_eq!(2, items.len());
            assert!(matches!(items[0], Value::Integer(3)));
            assert!(matches!(items[1], Value::Integer(4)));
        }
        other => panic!("{:?}", other),
    }
    assert!(matches!(Value::from_iter(Vec::<i32>::new().into_iter()), Value::Array(items) if items.is_empty()));
}

#[test]
fn to_value_and_clone_give_the_same_value() {
    let value = Value::from(vec![
        Value::from(1_i32),
        Value::from(Some("x")),
        Value::from(None::<i32>),
    ]);
    assert_eq!(value, value.clone());
    assert_eq!(value, value.to_value());
    assert_eq!(Value::from(9_i32), 9_u64.to_value());
    assert_eq!(Value::from("s"), "s".to_value());
    assert_eq!(Value::from("s"), "s".to_string().to_value());
    assert_eq!(Value::from(vec![1_i32]), vec![1_usize].to_value());
    assert_eq!(Value::from(Some(1_i32)), Some(1_isize).to_value());
}

#[test]
fn value_equals_the_boxed_optional_that_holds_an_equal_value() {
    let one = Value::from(1_i32);
    assert!(one == Some(Box::new(Value::from(1_i32))));
    assert!(one == Some(Box::new(Value::from(Some(1_i32)))));
    assert!(one != Some(Box::new(Value::from(2_i32))));
    assert!(one != None::<Box<Value>>);
    assert!(Value::Optional(None) != None::<Box<Value>>);
}
