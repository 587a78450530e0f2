use vstd::prelude::*;
use vstd::slice::slice_subrange;

use crate::context::path::{
    decimal, index_failure, index_number, lemma_index_of_decimal, read_index, segments, PathView,
};
use crate::context::{leaf_resolution, resolve_leaf, resolved, Context, Error, ErrorView, Resolution};
use crate::value::{lemma_array_view, values, views, ToValue, Value, ValueView};

verus! {

/// The resolution of a path against a sequence whose value is `whole` and
/// whose items resolve paths as `items` say. The empty path leads to the
/// whole sequence. Any other path must begin with a segment that writes a
/// number, in decimal digits after one `+` at most: a first segment that
/// writes none fails, with the error that parsing it gives. Where the
/// number is the position of an item, the rest of the path is resolved
/// against that item. Where it is the length of the sequence or more,
/// however large, the result is the empty optional, whatever the rest of
/// the path.
pub open spec fn sequence_resolution(
    whole: ValueView,
    items: Seq<spec_fn(PathView) -> Resolution>,
    path: PathView,
) -> Resolution {
    if path.len() == 0 {
        Ok(whole)
    } else {
        match index_number(path[0]) {
            None => Err(ErrorView::UnexpectedIndex(index_failure(path[0]))),
            Some(position) => if position < items.len() {
                (items[position as int])(path.drop_first())
            } else {
                Ok(ValueView::Optional(None))
            },
        }
    }
}

/// The rest of a path behind its first segment.
fn rest<'a, 'b>(path: &'b [&'a str]) -> (behind: &'b [&'a str])
    requires
        path@.len() > 0,
    ensures
        segments(behind@) == segments(path@).drop_first(),
{
    let behind = slice_subrange(path, 1, path.len());
    assert(segments(behind@) =~= segments(path@).drop_first());
    behind
}

impl<T: Context> Context for Option<T> {
    /// An optional that holds a context resolves as that context does; an
    /// empty one resolves every path to the empty optional.
    open spec fn resolution(&self, path: PathView) -> Resolution {
        match self {
            Some(inner) => inner.resolution(path),
            None => Ok(ValueView::Optional(None)),
        }
    }

    fn get_from_context(&self, path: &[&str]) -> (found: Result<Value, Error>) {
        match self {
            Some(inner) => inner.get_from_context(path),
            None => Ok(Value::Optional(None)),
        }
    }
}

impl<T: Context + ToValue> Context for Vec<T> {
    open spec fn resolution(&self, path: PathView) -> Resolution {
        sequence_resolution(
            ValueView::Array(values(self@)),
            Seq::new(self@.len(), |i: int| |rest: PathView| self@[i].resolution(rest)),
            path,
        )
    }

    fn get_from_context(&self, path: &[&str]) -> (found: Result<Value, Error>) {
        if path.len() == 0 {
            return Ok(self.to_value());
        }
        let count = self.len();
        match read_index(path[0]) {
            Err(failure) => Err(Error::UnexpectedIndex(failure)),
            Ok(Some(index)) if index < count => self[index].get_from_context(rest(path)),
            Ok(_) => Ok(Value::Optional(None)),
        }
    }
}

/// The resolution of a path against a value. An integer and a string are
/// leaves. An array resolves as a sequence of its items. An optional that
/// holds a value resolves as that value does, so that the empty path leads
/// to what it holds, and an empty optional resolves every path to the empty
/// optional.
pub open spec fn value_resolution(value: ValueView, path: PathView) -> Resolution
    decreases value,
{
    match value {
        ValueView::Integer(_) => leaf_resolution(value, path),
        ValueView::String(_) => leaf_resolution(value, path),
        ValueView::Array(items) => sequence_resolution(
            value,
            Seq::new(
                items.len(),
                |i: int|
                    |rest: PathView|
                        if 0 <= i < items.len() {
                            value_resolution(items[i], rest)
                        } else {
                            Ok(ValueView::Optional(None))
                        },
            ),
            path,
        ),
        ValueView::Optional(None) => Ok(ValueView::Optional(None)),
        ValueView::Optional(Some(inner)) => value_resolution(*inner, path),
    }
}

impl Value {
    /// Resolves `path` against this value.
    fn resolve(&self, path: &[&str]) -> (found: Result<Value, Error>)
        ensures
            resolved(found) == value_resolution(self@, segments(path@)),
        decreases self,
    {
        match self {
            Value::Integer(_) => resolve_leaf(self.clone(), path),
            Value::String(_) => resolve_leaf(self.clone(), path),
            Value::Array(items) => {
                proof {
                    lemma_array_view(*items);
                }
                if path.len() == 0 {
                    return Ok(self.clone());
                }
                match read_index(path[0]) {
                    Err(failure) => Err(Error::UnexpectedIndex(failure)),
                    Ok(Some(index)) if index < items.len() => {
                        assert(views(items@)[index as int] == items@[index as int]@);
                        items[index].resolve(rest(path))
                    },
                    Ok(_) => Ok(Value::Optional(None)),
                }
            },
            Value::Optional(None) => Ok(Value::Optional(None)),
            Value::Optional(Some(inner)) => inner.resolve(path),
        }
    }
}

impl Context for Value {
    open spec fn resolution(&self, path: PathView) -> Resolution {
        value_resolution(self@, path)
    }

    fn get_from_context(&self, path: &[&str]) -> (found: Result<Value, Error>) {
        self.resolve(path)
    }
}

impl<'a> Context for &'a Value {
    open spec fn resolution(&self, path: PathView) -> Resolution {
        value_resolution(self@, path)
    }

    fn get_from_context(&self, path: &[&str]) -> (found: Result<Value, Error>) {
        (*self).resolve(path)
    }
}

/// Resolution against a sequence. The empty path leads to the whole
/// sequence as an array. A path whose first segment writes the position of
/// an item in decimal leads where the rest of the path leads from that
/// item; one whose first segment writes the length of the sequence or any
/// larger number, of whatever size, leads to the empty optional; one whose
/// first segment writes no number fails.
pub proof fn lemma_sequence_resolution<T: Context + ToValue>(
    items: Vec<T>,
    path: PathView,
    position: nat,
)
    ensures
        path.len() == 0 ==> items.resolution(path) == Ok::<ValueView, ErrorView>(
            ValueView::Array(values(items@)),
        ),
        path.len() > 0 && path[0] == decimal(position) && position < items@.len()
            ==> items.resolution(path) == items@[position as int].resolution(path.drop_first()),
        path.len() > 0 && path[0] == decimal(position) && position >= items@.len()
            ==> items.resolution(path) == Ok::<ValueView, ErrorView>(ValueView::Optional(None)),
        path.len() > 0 && index_number(path[0]) is None ==> items.resolution(path) == Err::<
            ValueView,
            ErrorView,
        >(ErrorView::UnexpectedIndex(index_failure(path[0]))),
{
    lemma_index_of_decimal(position);
}

/// Resolution against a value. An integer and a string are leaves. An
/// array resolves as the sequence of its items, an optional that holds a
/// value as that value, and an empty optional leads to itself by every
/// path.
pub proof fn lemma_value_resolution(value: ValueView, path: PathView, position: nat)
    ensures
        value is Integer || value is String ==> value_resolution(value, path) == leaf_resolution(
            value,
            path,
        ),
        value is Array && path.len() == 0 ==> value_resolution(value, path) == Ok::<
            ValueView,
            ErrorView,
        >(value),
        value is Array && path.len() > 0 && path[0] == decimal(position) && position
            < value->Array_0.len() ==> value_resolution(value, path) == value_resolution(
            value->Array_0[position as int],
            path.drop_first(),
        ),
        value is Array && path.len() > 0 && path[0] == decimal(position) && position
            >= value->Array_0.len() ==> value_resolution(value, path) == Ok::<
            ValueView,
            ErrorView,
        >(ValueView::Optional(None)),
        value is Array && path.len() > 0 && index_number(path[0]) is None ==> value_resolution(
            value,
            path,
        ) == Err::<ValueView, ErrorView>(ErrorView::UnexpectedIndex(index_failure(path[0]))),
        value matches ValueView::Optional(Some(inner)) ==> value_resolution(value, path)
            == value_resolution(*inner, path),
        value == ValueView::Optional(None) ==> value_resolution(value, path) == Ok::<
            ValueView,
            ErrorView,
        >(value),
{
    lemma_index_of_decimal(position);
}

/// A sequence of values resolves paths as the array of those values does.
pub proof fn lemma_array_as_sequence(items: Vec<Value>, path: PathView)
    ensures
        items.resolution(path) == Value::Array(items).resolution(path),
{
    lemma_array_view(items);
    let seen = views(items@);
    assert(values(items@) =~= seen);
    if path.len() > 0 {
        match index_number(path[0]) {
            Some(position) => {
                if position < items@.len() {
                    assert(seen[position as int] == items@[position as int]@);
                }
            },
            None => {},
        }
    }
}

} // verus!
