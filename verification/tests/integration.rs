use kimari::context::{Context, Error, ErroredPath};
use kimari::operator::{All, Equals};
use kimari::{Decision, Operator, Rule, Rules, Value};

struct NestedContext {
    baz: String,
    array: Vec<usize>,
}

impl Context for NestedContext {
    fn get_from_context(&self, path: &[&str]) -> Result<Value, Error> {
        match path.split_first() {
            Some((&"baz", rest)) => self.baz.get_from_context(rest),
            Some((&"array", rest)) => self.array.get_from_context(rest),
            Some((other, _)) => Err(Error::UnexpectedPath(ErroredPath::from(&[*other]))),
            None => Err(Error::Other("a struct has no value of its own".to_string())),
        }
    }
}

struct MyContext {
    foo: usize,
    bar: NestedContext,
}

impl Context for MyContext {
    fn get_from_context(&self, path: &[&str]) -> Result<Value, Error> {
        match path.split_first() {
            Some((&"foo", rest)) => self.foo.get_from_context(rest),
            Some((&"bar", rest)) => self.bar.get_from_context(rest),
            Some((other, _)) => Err(Error::UnexpectedPath(ErroredPath::from(&[*other]))),
            None => Err(Error::Other("a struct has no value of its own".to_string())),
        }
    }
}

fn equals(path: &str, to: Value) -> Operator {
    Operator::Equals(Equals { where_: path.to_string(), to })
}

fn context() -> MyContext {
    MyContext {
        foo: 123,
        bar: NestedContext { baz: "abc".to_string(), array: vec![456, 789] },
    }
}

fn rules() -> Rules {
    let mut rules = Rules::new();
    rules.insert("foo_is_123".to_string(), Rule::new(equals("foo", Value::from(123))));
    rules.insert(
        "bar_array_is_456_and_789".to_string(),
        Rule::new(Operator::All(All {
            operators: vec![
                equals("bar.array.0", Value::from(456)),
                equals("bar.array.1", Value::from(789)),
            ],
        })),
    );
    rules.insert("bar_baz_is_def".to_string(), Rule::new(equals("bar.baz", Value::from("def"))));
    rules
}

#[test]
fn integration_test() {
    let ctx = context();

    assert_eq!(Value::from(123), ctx.get_from_context_at("foo").unwrap());
    assert_eq!(
        Value::from("abc"),
        ctx.get_from_context_at("bar.baz").unwrap(),
    );

    let rules = rules();

    assert_eq!(
        vec!["bar_array_is_456_and_789", "foo_is_123"],
        rules
            .find_all(&ctx)
            .into_iter()
            .map(|r| r.unwrap().0)
            .collect::<Vec<_>>(),
    )
}

#[test]
fn each_rule_of_the_scenario_decides_as_expected() {
    let ctx = context();
    let rules = rules();
    assert_eq!(
        Decision::Accept,
        rules.get("foo_is_123").unwrap().is_satisfied_by(&ctx).unwrap()
    );
    assert_eq!(
        Decision::Accept,
        rules.get("bar_array_is_456_and_789").unwrap().is_satisfied_by(&ctx).unwrap()
    );
    assert_eq!(
        Decision::Reject,
        rules.get("bar_baz_is_def").unwrap().is_satisfied_by(&ctx).unwrap()
    );
    assert_eq!("bar_array_is_456_and_789", rules.find(&ctx).unwrap().unwrap().0);
}

#[test]
fn unknown_field_is_an_unexpected_path() {
    let ctx = context();
    match ctx.get_from_context_at("bar.qux") {
        Err(Error::UnexpectedPath(path)) => assert_eq!("qux", path.to_string()),
        other => panic!("{:?}", other),
    }
    assert_eq!(
        Value::from(vec![456_usize, 789]),
        ctx.get_from_context_at("bar.array").unwrap()
    );
    assert_eq!(Value::Optional(None), ctx.get_from_context_at("bar.array.2").unwrap());
    assert!(matches!(
        ctx.get_from_context_at("bar.array.first"),
        Err(Error::UnexpectedIndex(_))
    ));
}
