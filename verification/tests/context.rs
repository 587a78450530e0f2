use kimari::context::path::{is_index_text, read_index, split_path};
use kimari::context::{Context, ErroredPath, Error};
use kimari::Value;

#[test]
fn context_primitives() {
    assert_eq!(Value::from(123_i32), 123_i32.get_from_context(&[]).unwrap());
    assert_eq!(Value::from(123_u32), 123_u32.get_from_context(&[]).unwrap());
    assert_eq!(Value::from(123_i64), 123_i64.get_from_context(&[]).unwrap());
    assert_eq!(Value::from(123_u64), 123_u64.get_from_context(&[]).unwrap());
    assert_eq!(
        Value::from(123_isize),
        123_isize.get_from_context(&[]).unwrap(),
    );
    assert_eq!(
        Value::from(123_usize),
        123_usize.get_from_context(&[]).unwrap(),
    );
    assert_eq!(Value::from("abc"), "abc".get_from_context(&[]).unwrap());
    assert_eq!(
        Value::from("abc"),
        "abc".to_string().get_from_context(&[]).unwrap(),
    );
}

#[test]
fn context_optional() {
    assert_eq!(
        Value::from(Some("abc")),
        Some("abc").get_from_context(&[]).unwrap(),
    );
}

#[test]
fn context_array() {
    assert_eq!(
        Value::from(vec![Value::from("abc"), Value::from("def")]),
        vec!["abc", "def"].get_from_context(&[]).unwrap(),
    );

    assert_eq!(
        Value::from("abc"),
        vec!["abc", "def"].get_from_context(&["0"]).unwrap(),
    );
    assert_eq!(
        Value::from("def"),
        vec!["abc", "def"].get_from_context(&["1"]).unwrap(),
    );
    assert_eq!(
        Value::Optional(None),
        vec!["abc", "def"].get_from_context(&["2"]).unwrap(),
    );

    assert!(matches!(
        vec!["abc", "def"].get_from_context(&["abc"]).unwrap_err(),
        Error::UnexpectedIndex(_),
    ));
}

struct Host {
    foo: isize,
}

impl Context for Host {
    fn get_from_context(&self, path: &[&str]) -> Result<Value, Error> {
        match path.first() {
            Some(&"foo") => self.foo.get_from_context(&path[1..]),
            _ => Err(Error::Other("no such field".to_string())),
        }
    }
}

#[test]
fn host_field_is_resolved() {
    let host = Host { foo: 123 };
    assert_eq!(Value::Integer(123), host.get_from_context_at("foo").unwrap());
    assert!(matches!(host.get_from_context_at("foo.bar"), Err(Error::UnexpectedPath(_))));
}

#[test]
fn primitive_rejects_any_longer_path() {
    let error = 123_i32.get_from_context(&["foo"]).unwrap_err();
    match error {
        Error::UnexpectedPath(path) => assert_eq!("foo", path.to_string()),
        other => panic!("unexpected error: {:?}", other),
    }
    assert!(matches!(
        "abc".get_from_context(&["0"]),
        Err(Error::UnexpectedPath(_))
    ));
    assert!(matches!(
        "abc".to_string().get_from_context(&["a", "b"]),
        Err(Error::UnexpectedPath(_))
    ));
}

#[test]
fn errored_path_escapes_dots_inside_segments() {
    let path = ErroredPath::from(&["a.b", "c", "", ".."]);
    assert_eq!("a\\.b.c..\\.\\.", path.to_string());
    assert_eq!("a\\.b.c..\\.\\.", path.as_str());
    assert_eq!("", ErroredPath::from(&[]).to_string());
    assert_eq!("é.ü", ErroredPath::from(&["é", "ü"]).to_string());

    let error = 1_u64.get_from_context(&["x.y", "z"]).unwrap_err();
    match error {
        Error::UnexpectedPath(path) => assert_eq!("x\\.y.z", path.to_string()),
        other => panic!("unexpected error: {:?}", other),
    }
}

#[test]
fn split_path_cuts_at_every_dot() {
    assert_eq!(vec!["foo", "bar", "0"], split_path("foo.bar.0"));
    assert_eq!(vec!["foo"], split_path("foo"));
    assert_eq!(vec![""], split_path(""));
    assert_eq!(vec!["", ""], split_path("."));
    assert_eq!(vec!["a", "", "b", ""], split_path("a..b."));
    assert_eq!(vec!["é", "日本"], split_path("é.日本"));
}

#[test]
fn dotted_path_is_split_before_it_is_resolved() {
    let nested = vec![vec![1_i32, 2], vec![3]];
    assert_eq!(Value::from(2_i32), nested.get_from_context_at("0.1").unwrap());
    assert_eq!(Value::from(3_i32), nested.get_from_context_at("1.0").unwrap());
    assert_eq!(Value::Optional(None), nested.get_from_context_at("1.1").unwrap());
    assert_eq!(Value::Optional(None), nested.get_from_context_at("2.0.7").unwrap());
    assert!(matches!(
        nested.get_from_context_at("0.1.2"),
        Err(Error::UnexpectedPath(_))
    ));
    // the empty text is one empty segment, which is no index
    assert!(matches!(
        nested.get_from_context_at(""),
        Err(Error::UnexpectedIndex(_))
    ));
    assert!(matches!(
        1_i32.get_from_context_at(""),
        Err(Error::UnexpectedPath(_))
    ));
}

#[test]
fn index_segment_is_decimal_digits_after_an_optional_plus() {
    let items = vec!["a", "b", "c"];
    assert_eq!(Value::from("b"), items.get_from_context(&["1"]).unwrap());
    assert_eq!(Value::from("b"), items.get_from_context(&["+1"]).unwrap());
    assert_eq!(Value::from("b"), items.get_from_context(&["001"]).unwrap());
    assert_eq!(Value::Optional(None), items.get_from_context(&["3"]).unwrap());
    assert_eq!(
        Value::Optional(None),
        items.get_from_context(&["18446744073709551615"]).unwrap()
    );
    assert_eq!(
        Value::from("b"),
        items.get_from_context(&["00000000000000000000000001"]).unwrap()
    );
    // a number too large for any sequence lies behind the end like any other
    for beyond in [
        "18446744073709551616",
        "+18446744073709551616",
        "99999999999999999999999999",
        "000099999999999999999999999999",
    ] {
        assert_eq!(
            Value::Optional(None),
            items.get_from_context(&[beyond]).unwrap(),
            "{:?}",
            beyond
        );
        assert_eq!(
            Value::Optional(None),
            items.get_from_context(&[beyond, "rest"]).unwrap(),
            "{:?}",
            beyond
        );
        assert_eq!(
            Value::Optional(None),
            Value::from(vec!["a", "b"]).get_from_context(&[beyond]).unwrap(),
            "{:?}",
            beyond
        );
    }
    for bad in [
        "", "+", "-", "-0", "-1", "++1", "1 ", " 1", "1_0", "0x1", "1.0", "１", "one",
        "9999999999999999999999999x", "+-1",
    ] {
        assert!(
            matches!(items.get_from_context(&[bad]), Err(Error::UnexpectedIndex(_))),
            "{:?}",
            bad
        );
    }
}

#[test]
fn optional_context_resolves_as_what_it_holds() {
    assert_eq!(Value::from(5_i32), Some(5_i32).get_from_context(&[]).unwrap());
    assert_eq!(
        Value::Optional(None),
        None::<i32>.get_from_context(&[]).unwrap()
    );
    // an empty optional has no leaves to run past
    assert_eq!(
        Value::Optional(None),
        None::<i32>.get_from_context(&["a", "b"]).unwrap()
    );
    assert!(matches!(
        Some(5_i32).get_from_context(&["a"]),
        Err(Error::UnexpectedPath(_))
    ));
    assert_eq!(
        Value::from(7_i32),
        Some(vec![6_i32, 7]).get_from_context(&["1"]).unwrap()
    );
}

#[test]
fn value_is_a_context() {
    let value = Value::from(vec![
        Value::from(1_i32),
        Value::from(Some("x")),
        Value::from(vec![Value::from("deep")]),
        Value::from(None::<String>),
    ]);
    assert_eq!(value.clone(), value.get_from_context(&[]).unwrap());
    assert_eq!(Value::from(1_i32), value.get_from_context(&["0"]).unwrap());
    assert_eq!(Value::from("x"), value.get_from_context(&["1"]).unwrap());
    assert_eq!(Value::from("deep"), value.get_from_context_at("2.0").unwrap());
    assert_eq!(Value::Optional(None), value.get_from_context_at("3.anything").unwrap());
    assert_eq!(Value::Optional(None), value.get_from_context_at("4").unwrap());
    assert!(matches!(value.get_from_context_at("x"), Err(Error::UnexpectedIndex(_))));
    assert!(matches!(value.get_from_context_at("0.0"), Err(Error::UnexpectedPath(_))));
    assert_eq!(Value::from(1_i32), (&value).get_from_context(&["0"]).unwrap());
    // what an optional holds is found by the empty path
    assert!(matches!(
        Value::from(Some(3_i32)).get_from_context(&[]).unwrap(),
        Value::Integer(3)
    ));
    // a sequence of values resolves as the array of them
    let items = vec![Value::from(1_i32), Value::from("x")];
    assert_eq!(
        Value::Array(items.clone()).get_from_context(&["1"]).unwrap(),
        items.get_from_context(&["1"]).unwrap()
    );
}

#[test]
fn parse_failure_becomes_unexpected_index() {
    let failure = "x".parse::<usize>().unwrap_err();
    assert!(matches!(Error::from(failure), Error::UnexpectedIndex(_)));
}

#[test]
fn index_text_is_digits_after_an_optional_plus() {
    for written in ["0", "7", "+7", "007", "18446744073709551616", "99999999999999999999999999"] {
        assert!(is_index_text(written), "{:?}", written);
    }
    for other in ["", "+", "-", "-1", "++1", "1+", "1 ", " 1", "1_0", "１", "a", "1a", "+a"] {
        assert!(!is_index_text(other), "{:?}", other);
    }
}

#[test]
fn read_index_tells_a_number_from_what_is_none() {
    assert_eq!(Ok(Some(0)), read_index("0"));
    assert_eq!(Ok(Some(12)), read_index("+012"));
    assert_eq!(Ok(Some(usize::MAX)), read_index(&usize::MAX.to_string()));
    assert_eq!(Ok(None), read_index("340282366920938463463374607431768211456"));
    assert_eq!(Ok(None), read_index("+340282366920938463463374607431768211456"));
    assert!(read_index("").is_err());
    assert!(read_index("+").is_err());
    assert!(read_index("-1").is_err());
    assert!(read_index("1x").is_err());
    assert_eq!("x".parse::<usize>().unwrap_err(), read_index("x").unwrap_err());
}
