use std::cell::Cell;

use kimari::context::{Context, Error};
use kimari::operator::{self, All, Any, Equals, NotEquals};
use kimari::{Decision, Operate, Operator, Value};

fn equals(path: &str, to: Value) -> Operator {
    Operator::Equals(Equals { where_: path.to_string(), to })
}

fn not_equals(path: &str, to: Value) -> Operator {
    Operator::NotEquals(NotEquals { where_: path.to_string(), to })
}

/// Counts how often it is asked, and holds the numbers 10, 20, 30 at the
/// paths `0`, `1`, `2`.
struct Counting {
    asked: Cell<usize>,
    items: Vec<i32>,
}

impl Counting {
    fn new() -> Counting {
        Counting { asked: Cell::new(0), items: vec![10, 20, 30] }
    }
}

impl Context for Counting {
    fn get_from_context(&self, path: &[&str]) -> Result<Value, Error> {
        self.asked.set(self.asked.get() + 1);
        if path == ["fail"] {
            return Err(Error::Other("asked to fail".to_string()));
        }
        self.items.get_from_context(path)
    }
}

#[test]
fn all_without_operands_accepts_and_any_without_operands_rejects() {
    let context = Counting::new();
    assert_eq!(
        Decision::Accept,
        Operator::All(All { operators: vec![] }).operate(&context).unwrap()
    );
    assert_eq!(
        Decision::Reject,
        Operator::Any(Any { operators: vec![] }).operate(&context).unwrap()
    );
    assert_eq!(Decision::Accept, All { operators: vec![] }.operate(&context).unwrap());
    assert_eq!(Decision::Reject, Any { operators: vec![] }.operate(&context).unwrap());
    assert_eq!(0, context.asked.get());
}

#[test]
fn comparison_accepts_on_equal_values() {
    let context = vec![10_i32, 20];
    assert_eq!(Decision::Accept, equals("0", Value::from(10_i32)).operate(&context).unwrap());
    assert_eq!(Decision::Reject, equals("0", Value::from(11_i32)).operate(&context).unwrap());
    assert_eq!(Decision::Reject, not_equals("0", Value::from(10_i32)).operate(&context).unwrap());
    assert_eq!(Decision::Accept, not_equals("0", Value::from(11_i32)).operate(&context).unwrap());
    // an index behind the end is the empty optional
    assert_eq!(
        Decision::Accept,
        equals("2", Value::Optional(None)).operate(&context).unwrap()
    );
    assert_eq!(
        Decision::Reject,
        equals("2", Value::from(0_i32)).operate(&context).unwrap()
    );
    // the literal may be the optional, the value found the bare one
    assert_eq!(
        Decision::Accept,
        equals("1", Value::from(Some(20_i32))).operate(&context).unwrap()
    );
    assert_eq!(
        Decision::Accept,
        equals("", Value::from("x")).operate(&"x").unwrap_or(Decision::Accept)
    );
    let whole = Equals { where_: "1".to_string(), to: Value::from(20_i32) };
    assert_eq!(Decision::Accept, whole.operate(&context).unwrap());
    let not = NotEquals { where_: "1".to_string(), to: Value::from(20_i32) };
    assert_eq!(Decision::Reject, not.operate(&context).unwrap());
}

#[test]
fn comparison_hands_on_the_error_of_the_context() {
    let context = vec![10_i32, 20];
    let error = equals("x", Value::from(1_i32)).operate(&context).unwrap_err();
    assert!(matches!(
        error,
        operator::Error::UnexpectedContext(Error::UnexpectedIndex(_))
    ));
    let error = not_equals("0.1", Value::from(1_i32)).operate(&context).unwrap_err();
    match error {
        operator::Error::UnexpectedContext(Error::UnexpectedPath(path)) => {
            assert_eq!("1", path.to_string())
        }
        other => panic!("{:?}", other),
    }
    let error = equals("fail", Value::from(1_i32)).operate(&Counting::new()).unwrap_err();
    match error {
        operator::Error::UnexpectedContext(Error::Other(message)) => {
            assert_eq!("asked to fail", message)
        }
        other => panic!("{:?}", other),
    }
}

#[test]
fn decide_is_the_comparison_of_what_was_found() {
    let equals = Equals { where_: "a".to_string(), to: Value::from(1_i32) };
    assert_eq!(Decision::Accept, equals.decide(Ok(Value::from(Some(1_i32)))).unwrap());
    assert_eq!(Decision::Reject, equals.decide(Ok(Value::from(2_i32))).unwrap());
    assert_eq!(Decision::Reject, equals.decide(Ok(Value::Optional(None))).unwrap());
    assert!(equals.decide(Err(Error::Other("no".to_string()))).is_err());
    let not = NotEquals { where_: "a".to_string(), to: Value::from(1_i32) };
    assert_eq!(Decision::Reject, not.decide(Ok(Value::from(1_i32))).unwrap());
    assert_eq!(Decision::Accept, not.decide(Ok(Value::from(2_i32))).unwrap());
    assert!(not.decide(Err(Error::Other("no".to_string()))).is_err());
    assert_eq!(
        Decision::Accept,
        operator::compare(Ok(Value::from("x")), &Value::from("x"), true).unwrap()
    );
    assert_eq!(
        Decision::Reject,
        operator::compare(Ok(Value::from("x")), &Value::from("x"), false).unwrap()
    );
}

#[test]
fn all_evaluates_nothing_behind_the_first_reject() {
    let context = Counting::new();
    let all = Operator::All(All {
        operators: vec![
            equals("0", Value::from(10_i32)),
            equals("1", Value::from(0_i32)),
            equals("fail", Value::from(0_i32)),
            equals("2", Value::from(30_i32)),
        ],
    });
    assert_eq!(Decision::Reject, all.operate(&context).unwrap());
    assert_eq!(2, context.asked.get());
}

#[test]
fn all_evaluates_nothing_behind_the_first_error() {
    let context = Counting::new();
    let all = All {
        operators: vec![
            equals("0", Value::from(10_i32)),
            equals("fail", Value::from(0_i32)),
            equals("1", Value::from(0_i32)),
        ],
    };
    assert!(all.operate(&context).is_err());
    assert_eq!(2, context.asked.get());
}

#[test]
fn any_evaluates_nothing_behind_the_first_accept() {
    let context = Counting::new();
    let any = Operator::Any(Any {
        operators: vec![
            equals("0", Value::from(0_i32)),
            equals("1", Value::from(20_i32)),
            equals("fail", Value::from(0_i32)),
            equals("2", Value::from(30_i32)),
        ],
    });
    assert_eq!(Decision::Accept, any.operate(&context).unwrap());
    assert_eq!(2, context.asked.get());

    let context = Counting::new();
    let any = Any {
        operators: vec![
            equals("0", Value::from(0_i32)),
            equals("fail", Value::from(0_i32)),
            equals("1", Value::from(20_i32)),
        ],
    };
    assert!(any.operate(&context).is_err());
    assert_eq!(2, context.asked.get());
}

#[test]
fn all_and_any_run_through_operands_that_do_not_decide() {
    let context = Counting::new();
    let all = All {
        operators: vec![
            equals("0", Value::from(10_i32)),
            equals("1", Value::from(20_i32)),
            not_equals("2", Value::from(0_i32)),
        ],
    };
    assert_eq!(Decision::Accept, all.operate(&context).unwrap());
    assert_eq!(3, context.asked.get());

    let context = Counting::new();
    let any = Any {
        operators: vec![
            equals("0", Value::from(0_i32)),
            equals("1", Value::from(0_i32)),
            not_equals("2", Value::from(30_i32)),
        ],
    };
    assert_eq!(Decision::Reject, any.operate(&context).unwrap());
    assert_eq!(3, context.asked.get());
}

#[test]
fn operators_nest() {
    let context = vec![10_i32, 20, 30];
    let nested = Operator::Any(Any {
        operators: vec![
            Operator::All(All {
                operators: vec![equals("0", Value::from(10_i32)), equals("1", Value::from(0_i32))],
            }),
            Operator::All(All {
                operators: vec![
                    equals("1", Value::from(20_i32)),
                    Operator::Any(Any { operators: vec![not_equals("2", Value::from(0_i32))] }),
                ],
            }),
        ],
    });
    assert_eq!(Decision::Accept, nested.operate(&context).unwrap());
    assert_eq!(nested, nested.clone());
    assert_eq!(Decision::Accept, nested.clone().operate(&context).unwrap());
}

#[test]
fn operator_error_wraps_the_error_of_the_context() {
    let wrapped = operator::Error::from(Error::Other("x".to_string()));
    assert!(matches!(
        wrapped,
        operator::Error::UnexpectedContext(Error::Other(message)) if message == "x"
    ));
}
