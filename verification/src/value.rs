use vstd::prelude::*;
use vstd::std_specs::cmp::PartialEqSpecImpl;

verus! {

/// The mathematical model of a [`Value`]: the same tree, over unbounded
/// integers and sequences.
pub ghost enum ValueView {
    Integer(int),
    String(Seq<char>),
    Array(Seq<ValueView>),
    Optional(Option<Box<ValueView>>),
}

impl ValueView {
    /// The equality of values. An optional that holds a value equals what it
    /// holds, on either side; an empty optional equals only an empty
    /// optional; two optionals are equal when both are empty or both hold
    /// equal values; arrays are equal when they have the same length and
    /// equal items at each position; integers and strings are equal when
    /// they are the same.
    pub open spec fn equals(self, other: ValueView) -> bool
        decreases self, other,
    {
        match (self, other) {
            (ValueView::Optional(a), ValueView::Optional(b)) => match (a, b) {
                (None, None) => true,
                (Some(x), Some(y)) => (*x).equals(*y),
                _ => false,
            },
            (ValueView::Optional(a), _) => a matches Some(x) && (*x).equals(other),
            (_, ValueView::Optional(b)) => b matches Some(y) && self.equals(*y),
            (ValueView::Integer(x), ValueView::Integer(y)) => x == y,
            (ValueView::String(x), ValueView::String(y)) => x == y,
            (ValueView::Array(x), ValueView::Array(y)) => x.len() == y.len() && forall|i: int|
                0 <= i < x.len() ==> (#[trigger] x[i]).equals(y[i]),
            _ => false,
        }
    }
}

/// A dynamically typed leaf of a context, and the literal that a rule
/// compares it with.
#[derive(Debug)]
pub enum Value {
    Integer(isize),
    String(String),
    Array(Vec<Value>),
    Optional(Option<Box<Value>>),
}

impl Value {
    /// The model of this value.
    pub open spec fn model(&self) -> ValueView
        decreases self,
    {
        match self {
            Value::Integer(i) => ValueView::Integer(*i as int),
            Value::String(s) => ValueView::String(s@),
            Value::Array(a) => ValueView::Array(
                Seq::new(
                    a@.len(),
                    |i: int|
                        if 0 <= i < a@.len() {
                            a@[i].model()
                        } else {
                            ValueView::Optional(None)
                        },
                ),
            ),
            Value::Optional(None) => ValueView::Optional(None),
            Value::Optional(Some(b)) => ValueView::Optional(Some(Box::new(b.model()))),
        }
    }
}

impl View for Value {
    type V = ValueView;

    open spec fn view(&self) -> ValueView {
        self.model()
    }
}

/// The models of a sequence of values, item by item.
pub open spec fn views(items: Seq<Value>) -> Seq<ValueView> {
    Seq::new(items.len(), |i: int| items[i]@)
}

/// The model of an array is the array of its items' models.
pub proof fn lemma_array_view(items: Vec<Value>)
    ensures
        Value::Array(items)@ == ValueView::Array(views(items@)),
{
    assert(Value::Array(items)@->Array_0 =~= views(items@));
}

impl Value {
    /// Whether two arrays of these items are equal.
    fn same_items(x: &Vec<Value>, y: &Vec<Value>) -> (same: bool)
        ensures
            same == ValueView::Array(views(x@)).equals(ValueView::Array(views(y@))),
        decreases x, y,
    {
        if x.len() != y.len() {
            return false;
        }
        let mut i: usize = 0;
        while i < x.len()
            invariant
                x.len() == y.len(),
                i <= x.len(),
                forall|j: int| 0 <= j < i ==> (#[trigger] views(x@)[j]).equals(views(y@)[j]),
            decreases x.len() - i,
        {
            if !x[i].same(&y[i]) {
                assert(!views(x@)[i as int].equals(views(y@)[i as int]));
                return false;
            }
            i += 1;
        }
        true
    }

    /// Whether the two values are equal.
    fn same(&self, other: &Value) -> (same: bool)
        ensures
            same == self@.equals(other@),
        decreases self, other,
    {
        match self {
            Value::Optional(a) => match other {
                Value::Optional(b) => match (a, b) {
                    (None, None) => true,
                    (Some(x), Some(y)) => x.same(y),
                    _ => false,
                },
                _ => match a {
                    Some(x) => x.same(other),
                    None => false,
                },
            },
            _ => match other {
                Value::Optional(b) => match b {
                    Some(y) => self.same(y),
                    None => false,
                },
                _ => match (self, other) {
                    (Value::Integer(x), Value::Integer(y)) => *x == *y,
                    (Value::String(x), Value::String(y)) => *x == *y,
                    (Value::Array(x), Value::Array(y)) => {
                        proof {
                            lemma_array_view(*x);
                            lemma_array_view(*y);
                        }
                        Value::same_items(x, y)
                    },
                    _ => false,
                },
            },
        }
    }

    /// Copies `items` one by one.
    fn duplicate_items(items: &Vec<Value>) -> (copy: Vec<Value>)
        ensures
            views(copy@) == views(items@),
        decreases items,
    {
        let mut copy: Vec<Value> = Vec::new();
        let mut i: usize = 0;
        while i < items.len()
            invariant
                i <= items.len(),
                copy@.len() == i,
                forall|j: int| 0 <= j < i ==> (#[trigger] copy@[j])@ == items@[j]@,
            decreases items.len() - i,
        {
            copy.push(items[i].duplicate());
            i += 1;
        }
        assert(views(copy@) =~= views(items@));
        copy
    }

    /// A copy of this value.
    fn duplicate(&self) -> (copy: Value)
        ensures
            copy@ == self@,
        decreases self,
    {
        match self {
            Value::Integer(i) => Value::Integer(*i),
            Value::String(s) => Value::String(s.clone()),
            Value::Array(a) => {
                let copy = Value::duplicate_items(a);
                proof {
                    lemma_array_view(*a);
                    lemma_array_view(copy);
                }
                Value::Array(copy)
            },
            Value::Optional(None) => Value::Optional(None),
            Value::Optional(Some(b)) => Value::Optional(Some(Box::new(b.duplicate()))),
        }
    }
}

impl Clone for Value {
    /// A copy with the same model.
    fn clone(&self) -> (copy: Value)
        ensures
            copy@ == self@,
    {
        self.duplicate()
    }
}

impl PartialEq for Value {
    /// Whether the two values are equal as [`ValueView::equals`] defines it.
    fn eq(&self, other: &Value) -> (same: bool) {
        self.same(other)
    }
}

impl PartialEqSpecImpl for Value {
    open spec fn obeys_eq_spec() -> bool {
        true
    }

    open spec fn eq_spec(&self, other: &Value) -> bool {
        self@.equals(other@)
    }
}

impl Eq for Value {

}

impl PartialEq<Option<Box<Value>>> for Value {
    /// Whether `other` holds a value that this value equals.
    fn eq(&self, other: &Option<Box<Value>>) -> (same: bool) {
        match other {
            Some(held) => self.same(held),
            None => false,
        }
    }
}

impl PartialEqSpecImpl<Option<Box<Value>>> for Value {
    open spec fn obeys_eq_spec() -> bool {
        true
    }

    open spec fn eq_spec(&self, other: &Option<Box<Value>>) -> bool {
        match other {
            Some(held) => self@.equals(held@),
            None => false,
        }
    }
}

/// Some function of `subject` and `given`, the same wherever it is named;
/// nothing else is known of it.
pub closed spec fn unstated<S, G, R>(subject: S, given: G) -> R {
    (arbitrary::<spec_fn(S, G) -> R>())(subject, given)
}

/// Something that stands for a value of its own: a primitive, a string, an
/// optional or a sequence of such.
pub trait ToValue: Sized {
    /// The model of the value that this stands for. An implementation
    /// that does not say which is taken to have one all the same.
    open spec fn value(&self) -> ValueView {
        unstated(*self, ())
    }

    /// The value that this stands for.
    fn to_value(&self) -> (made: Value)
        ensures
            made@ == self.value(),
    ;
}

/// The models of the values that the items of a sequence stand for.
pub open spec fn values<T: ToValue>(items: Seq<T>) -> Seq<ValueView> {
    Seq::new(items.len(), |i: int| items[i].value())
}

/// Every value equals itself.
pub proof fn lemma_equals_reflexive(value: ValueView)
    ensures
        value.equals(value),
    decreases value,
{
    match value {
        ValueView::Optional(Some(inner)) => {
            lemma_equals_reflexive(*inner);
        },
        ValueView::Array(items) => {
            assert forall|i: int| 0 <= i < items.len() implies (#[trigger] items[i]).equals(
                items[i],
            ) by {
                lemma_equals_reflexive(items[i]);
            }
        },
        _ => {},
    }
}

/// Equality does not depend on the order of the two operands.
pub proof fn lemma_equals_symmetric(a: ValueView, b: ValueView)
    ensures
        a.equals(b) == b.equals(a),
    decreases a, b,
{
    match (a, b) {
        (ValueView::Optional(Some(x)), ValueView::Optional(Some(y))) => {
            lemma_equals_symmetric(*x, *y);
        },
        (ValueView::Optional(_), ValueView::Optional(_)) => {},
        (ValueView::Optional(Some(x)), _) => {
            lemma_equals_symmetric(*x, b);
        },
        (_, ValueView::Optional(Some(y))) => {
            lemma_equals_symmetric(a, *y);
        },
        (ValueView::Array(x), ValueView::Array(y)) => {
            if x.len() == y.len() {
                assert forall|i: int| 0 <= i < x.len() implies (#[trigger] x[i]).equals(y[i])
                    == y[i].equals(x[i]) by {
                    lemma_equals_symmetric(x[i], y[i]);
                }
                if a.equals(b) {
                    assert forall|i: int| 0 <= i < y.len() implies (#[trigger] y[i]).equals(
                        x[i],
                    ) by {
                        assert(x[i].equals(y[i]));
                    }
                }
                if b.equals(a) {
                    assert forall|i: int| 0 <= i < x.len() implies (#[trigger] x[i]).equals(
                        y[i],
                    ) by {
                        assert(y[i].equals(x[i]));
                    }
                }
            }
        },
        _ => {},
    }
}

/// A value that is no optional equals an optional exactly where the
/// optional holds a value that it equals, whichever of the two stands
/// first. So an integer equals the optional that holds it, and nothing but
/// an optional equals the empty optional.
pub proof fn lemma_equals_optional(value: ValueView, held: Option<Box<ValueView>>)
    requires
        !(value is Optional),
    ensures
        value.equals(ValueView::Optional(held)) == (held matches Some(inner) && value.equals(
            *inner,
        )),
        ValueView::Optional(held).equals(value) == value.equals(ValueView::Optional(held)),
        value.equals(ValueView::Optional(Some(Box::new(value)))),
        !value.equals(ValueView::Optional(None)),
{
    lemma_equals_symmetric(value, ValueView::Optional(held));
    lemma_equals_reflexive(value);
}

/// Two arrays are equal exactly where they have the same length and, at
/// each position, equal items.
pub proof fn lemma_equals_arrays(a: Seq<ValueView>, b: Seq<ValueView>)
    ensures
        ValueView::Array(a).equals(ValueView::Array(b)) <==> a.len() == b.len() && forall|i: int|
            0 <= i < a.len() ==> (#[trigger] a[i]).equals(b[i]),
{
}

} // verus!
