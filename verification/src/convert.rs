use vstd::arithmetic::div_mod::{
    lemma_fundamental_div_mod, lemma_fundamental_div_mod_converse, lemma_small_mod,
};
use vstd::prelude::*;
use vstd::std_specs::convert::FromSpecImpl;
use vstd::std_specs::iter::IteratorSpec;

use crate::value::{lemma_array_view, values, views, ToValue, Value, ValueView};

verus! {

/// The number that an integer becomes in the one integer type of values,
/// `isize`: the number itself where `isize` holds it, and else the one
/// number that `isize` holds and that lies a multiple of the count of
/// `usize` values away from it. This is what `as isize` computes.
pub open spec fn wrapped(number: int) -> int {
    let size = usize::MAX + 1;
    let low = number % size;
    if low <= isize::MAX {
        low
    } else {
        low - size
    }
}

/// The wrapped number is one that `isize` holds, it lies a multiple of the
/// count of `usize` values away from the number, and a number that `isize`
/// holds is left as it is.
pub proof fn lemma_wrapped(number: int)
    ensures
        isize::MIN <= wrapped(number) <= isize::MAX,
        (wrapped(number) - number) % (usize::MAX + 1) == 0,
        isize::MIN <= number <= isize::MAX ==> wrapped(number) == number,
{
    let size = usize::MAX + 1;
    let low = number % size;
    lemma_fundamental_div_mod(number, size);
    let q = number / size;
    if low <= isize::MAX {
        assert(wrapped(number) - number == (-q) * size + 0) by (nonlinear_arith)
            requires
                number == size * q + low,
                wrapped(number) == low,
        ;
        lemma_fundamental_div_mod_converse(wrapped(number) - number, size, -q, 0);
    } else {
        assert(wrapped(number) - number == (-q - 1) * size + 0) by (nonlinear_arith)
            requires
                number == size * q + low,
                wrapped(number) == low - size,
        ;
        lemma_fundamental_div_mod_converse(wrapped(number) - number, size, -q - 1, 0);
    }
    if isize::MIN <= number <= isize::MAX {
        if number >= 0 {
            lemma_small_mod(number as nat, size as nat);
        } else {
            assert(number == (-1) * size + (number + size)) by (nonlinear_arith);
            lemma_fundamental_div_mod_converse(number, size, -1, number + size);
        }
    }
}

/// A number that `isize` holds and that lies `turns` times the count of
/// `usize` values below `number` is what `number` wraps to. So the largest
/// `usize` wraps to -1.
pub proof fn lemma_wrapped_is(number: int, turns: int, target: int)
    requires
        isize::MIN <= target <= isize::MAX,
        number == target + turns * (usize::MAX + 1),
    ensures
        wrapped(number) == target,
{
    let size = usize::MAX + 1;
    if target >= 0 {
        assert(number == turns * size + target) by (nonlinear_arith)
            requires
                number == target + turns * size,
        ;
        lemma_fundamental_div_mod_converse(number, size, turns, target);
    } else {
        assert(number == (turns - 1) * size + (target + size)) by (nonlinear_arith)
            requires
                number == target + turns * size,
        ;
        lemma_fundamental_div_mod_converse(number, size, turns - 1, target + size);
    }
}

/// Brings an integer of one of the primitive types to `isize`.
fn wrap(value: i128) -> (number: isize)
    requires
        i64::MIN <= value <= u64::MAX,
    ensures
        number == wrapped(value as int),
{
    let size: i128 = usize::MAX as i128 + 1;
    let half: i128 = isize::MAX as i128 + 1;
    let low: i128 = if value >= 0 {
        value % size
    } else {
        let behind: i128 = (-value) % size;
        proof {
            let q = (-value) as int / size as int;
            lemma_fundamental_div_mod((-value) as int, size as int);
            if behind == 0 {
                assert(value as int == (-q) * size + 0) by (nonlinear_arith)
                    requires
                        -value == size * q + behind,
                        behind == 0,
                ;
                lemma_fundamental_div_mod_converse(value as int, size as int, -q, 0);
            } else {
                assert(value as int == (-q - 1) * size + (size - behind)) by (nonlinear_arith)
                    requires
                        -value == size * q + behind,
                ;
                lemma_fundamental_div_mod_converse(
                    value as int,
                    size as int,
                    -q - 1,
                    size - behind,
                );
            }
        }
        if behind == 0 {
            0
        } else {
            size - behind
        }
    };
    if low < half {
        low as isize
    } else {
        let above: isize = (low - half) as isize;
        above + isize::MIN
    }
}

impl From<i32> for Value {
    /// The integer that `value` wraps to in the one integer type of values.
    fn from(value: i32) -> (made: Value) {
        Value::Integer(wrap(value as i128))
    }
}

impl FromSpecImpl<i32> for Value {
    open spec fn obeys_from_spec() -> bool {
        true
    }

    open spec fn from_spec(value: i32) -> Value {
        Value::Integer(wrapped(value as int) as isize)
    }
}

impl ToValue for i32 {
    open spec fn value(&self) -> ValueView {
        ValueView::Integer(wrapped(*self as int))
    }

    fn to_value(&self) -> (made: Value) {
        Value::Integer(wrap(*self as i128))
    }
}

impl From<u32> for Value {
    /// The integer that `value` wraps to in the one integer type of values.
    fn from(value: u32) -> (made: Value) {
        Value::Integer(wrap(value as i128))
    }
}

impl FromSpecImpl<u32> for Value {
    open spec fn obeys_from_spec() -> bool {
        true
    }

    open spec fn from_spec(value: u32) -> Value {
        Value::Integer(wrapped(value as int) as isize)
    }
}

impl ToValue for u32 {
    open spec fn value(&self) -> ValueView {
        ValueView::Integer(wrapped(*self as int))
    }

    fn to_value(&self) -> (made: Value) {
        Value::Integer(wrap(*self as i128))
    }
}

impl From<i64> for Value {
    /// The integer that `value` wraps to in the one integer type of values.
    fn from(value: i64) -> (made: Value) {
        Value::Integer(wrap(value as i128))
    }
}

impl FromSpecImpl<i64> for Value {
    open spec fn obeys_from_spec() -> bool {
        true
    }

    open spec fn from_spec(value: i64) -> Value {
        Value::Integer(wrapped(value as int) as isize)
    }
}

impl ToValue for i64 {
    open spec fn value(&self) -> ValueView {
        ValueView::Integer(wrapped(*self as int))
    }

    fn to_value(&self) -> (made: Value) {
        Value::Integer(wrap(*self as i128))
    }
}

impl From<u64> for Value {
    /// The integer that `value` wraps to in the one integer type of values.
    fn from(value: u64) -> (made: Value) {
        Value::Integer(wrap(value as i128))
    }
}

impl FromSpecImpl<u64> for Value {
    open spec fn obeys_from_spec() -> bool {
        true
    }

    open spec fn from_spec(value: u64) -> Value {
        Value::Integer(wrapped(value as int) as isize)
    }
}

impl ToValue for u64 {
    open spec fn value(&self) -> ValueView {
        ValueView::Integer(wrapped(*self as int))
    }

    fn to_value(&self) -> (made: Value) {
        Value::Integer(wrap(*self as i128))
    }
}

impl From<usize> for Value {
    /// The integer that `value` wraps to in the one integer type of values.
    fn from(value: usize) -> (made: Value) {
        Value::Integer(wrap(value as i128))
    }
}

impl FromSpecImpl<usize> for Value {
    open spec fn obeys_from_spec() -> bool {
        true
    }

    open spec fn from_spec(value: usize) -> Value {
        Value::Integer(wrapped(value as int) as isize)
    }
}

impl ToValue for usize {
    open spec fn value(&self) -> ValueView {
        ValueView::Integer(wrapped(*self as int))
    }

    fn to_value(&self) -> (made: Value) {
        Value::Integer(wrap(*self as i128))
    }
}

impl From<isize> for Value {
    /// The integer `value`.
    fn from(value: isize) -> (made: Value) {
        Value::Integer(value)
    }
}

impl FromSpecImpl<isize> for Value {
    open spec fn obeys_from_spec() -> bool {
        true
    }

    open spec fn from_spec(value: isize) -> Value {
        Value::Integer(value)
    }
}

impl ToValue for isize {
    open spec fn value(&self) -> ValueView {
        ValueView::Integer((*self) as int)
    }

    fn to_value(&self) -> (made: Value) {
        Value::Integer(*self)
    }
}

impl From<String> for Value {
    /// The string `value`.
    fn from(value: String) -> (made: Value) {
        Value::String(value)
    }
}

impl FromSpecImpl<String> for Value {
    open spec fn obeys_from_spec() -> bool {
        true
    }

    open spec fn from_spec(value: String) -> Value {
        Value::String(value)
    }
}

impl ToValue for String {
    open spec fn value(&self) -> ValueView {
        ValueView::String(self@)
    }

    fn to_value(&self) -> (made: Value) {
        Value::String(self.clone())
    }
}

impl<'a> From<&'a str> for Value {
    /// The string with the chars of `value`.
    fn from(value: &'a str) -> (made: Value)
        ensures
            made@ == ValueView::String(value@),
    {
        Value::String(value.to_owned())
    }
}

impl<'a> FromSpecImpl<&'a str> for Value {
    open spec fn obeys_from_spec() -> bool {
        false
    }

    open spec fn from_spec(value: &'a str) -> Value {
        arbitrary()
    }
}

impl<'a> ToValue for &'a str {
    open spec fn value(&self) -> ValueView {
        ValueView::String(self@)
    }

    fn to_value(&self) -> (made: Value) {
        Value::String((*self).to_owned())
    }
}

impl ToValue for Value {
    open spec fn value(&self) -> ValueView {
        self@
    }

    fn to_value(&self) -> (made: Value) {
        self.clone()
    }
}

impl<T: ToValue> ToValue for Option<T> {
    open spec fn value(&self) -> ValueView {
        match self {
            Some(inner) => ValueView::Optional(Some(Box::new(inner.value()))),
            None => ValueView::Optional(None),
        }
    }

    fn to_value(&self) -> (made: Value) {
        match self {
            Some(inner) => Value::Optional(Some(Box::new(inner.to_value()))),
            None => Value::Optional(None),
        }
    }
}

impl<T: ToValue> ToValue for Vec<T> {
    open spec fn value(&self) -> ValueView {
        ValueView::Array(values(self@))
    }

    fn to_value(&self) -> (made: Value) {
        let mut items: Vec<Value> = Vec::new();
        let mut i: usize = 0;
        while i < self.len()
            invariant
                i <= self.len(),
                items@.len() == i,
                forall|j: int| 0 <= j < i ==> (#[trigger] items@[j])@ == self@[j].value(),
            decreases self.len() - i,
        {
            items.push(self[i].to_value());
            i += 1;
        }
        proof {
            lemma_array_view(items);
            assert(views(items@) =~= values(self@));
            assert(Value::Array(items)@ == ValueView::Array(views(items@)));
            assert(self.value() == ValueView::Array(values(self@)));
        }
        Value::Array(items)
    }
}

impl<T: ToValue> From<Vec<T>> for Value {
    /// The array of the values that the items of `value` stand for.
    fn from(value: Vec<T>) -> (made: Value)
        ensures
            made@ == ValueView::Array(values(value@)),
    {
        value.to_value()
    }
}

impl<T: ToValue> FromSpecImpl<Vec<T>> for Value {
    open spec fn obeys_from_spec() -> bool {
        false
    }

    open spec fn from_spec(value: Vec<T>) -> Value {
        arbitrary()
    }
}

impl<T: ToValue> From<Option<T>> for Value {
    /// The optional that holds the value that `value` holds, or nothing.
    fn from(value: Option<T>) -> (made: Value)
        ensures
            made@ == value.value(),
    {
        value.to_value()
    }
}

impl<T: ToValue> FromSpecImpl<Option<T>> for Value {
    open spec fn obeys_from_spec() -> bool {
        false
    }

    open spec fn from_spec(value: Option<T>) -> Value {
        arbitrary()
    }
}

impl<'a, T: ToValue> From<&'a T> for Value {
    /// The value that `value` stands for.
    fn from(value: &'a T) -> (made: Value)
        ensures
            made@ == value.value(),
    {
        value.to_value()
    }
}

impl<'a, T: ToValue> FromSpecImpl<&'a T> for Value {
    open spec fn obeys_from_spec() -> bool {
        false
    }

    open spec fn from_spec(value: &'a T) -> Value {
        arbitrary()
    }
}

impl Value {
    /// The array of the values that the items of `iter` stand for, in the
    /// order in which `iter` hands them out.
    pub fn from_iter<I, V>(iter: I) -> (made: Value) where I: Iterator<Item = V>, V: ToValue
        requires
            iter.obeys_prophetic_iter_laws(),
            iter.decrease() is Some,
        ensures
            made@ == ValueView::Array(values(iter.remaining())),
    {
        let mut source = iter;
        let ghost all = source.remaining();
        let mut items: Vec<Value> = Vec::new();
        proof {
            assert(all.skip(0) =~= all);
        }
        loop
            invariant
                source.obeys_prophetic_iter_laws(),
                source.decrease() is Some,
                all == iter.remaining(),
                items@.len() <= all.len(),
                source.remaining() == all.skip(items@.len() as int),
                forall|j: int| 0 <= j < items@.len() ==> (#[trigger] items@[j])@ == all[j].value(),
            decreases source.decrease()->0,
        {
            match source.next() {
                None => {
                    proof {
                        lemma_array_view(items);
                        assert(views(items@) =~= values(all));
                    }
                    return Value::Array(items);
                },
                Some(item) => {
                    assert(item == all[items@.len() as int]);
                    assert(source.remaining() =~= all.skip(items@.len() as int + 1));
                    items.push(item.to_value());
                },
            }
        }
    }
}

} // verus!
