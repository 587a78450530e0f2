use vstd::prelude::*;

use crate::context::path::split_dots;
use crate::context::{resolved, Context, Resolution, Resolver};
use crate::decision::Decision;
use crate::operator::{outcome_of, Error, ErrorView, Operate, Outcome};
use crate::value::{Value, ValueView};

verus! {

/// Holds where the value found at a path equals a literal.
#[derive(Debug, PartialEq, Eq)]
pub struct Equals {
    /// The dot-delimited path to resolve against the context.
    pub where_: String,
    /// The literal that the value found there is compared with.
    pub to: Value,
}

/// What a comparison decides once its path has been resolved: an error of
/// the resolution is handed on, wrapped; a value found is `Accept` where
/// its being equal to `to` is what is `wanted`, and `Reject` otherwise.
pub open spec fn compared(found: Resolution, to: ValueView, wanted: bool) -> Outcome {
    match found {
        Ok(value) => Ok(
            if value.equals(to) == wanted {
                Decision::Accept
            } else {
                Decision::Reject
            },
        ),
        Err(error) => Err(ErrorView::UnexpectedContext(error)),
    }
}

/// What a comparison of the value at the dot-delimited path `at` with `to`
/// gives against a context that resolves paths as `resolve` does.
pub open spec fn comparison(at: Seq<char>, to: ValueView, wanted: bool, resolve: Resolver) -> Outcome {
    compared(resolve(split_dots(at)), to, wanted)
}

/// Decides a comparison from what the resolution of its path gave.
pub fn compare(found: Result<Value, crate::context::Error>, to: &Value, wanted: bool) -> (decided:
    Result<Decision, Error>)
    ensures
        outcome_of(decided) == compared(resolved(found), to@, wanted),
{
    match found {
        Ok(value) => {
            let equal = value == *to;
            if equal == wanted {
                Ok(Decision::Accept)
            } else {
                Ok(Decision::Reject)
            }
        },
        Err(error) => Err(Error::UnexpectedContext(error)),
    }
}

impl View for Equals {
    type V = (Seq<char>, ValueView);

    /// The path, and the model of the literal.
    open spec fn view(&self) -> (Seq<char>, ValueView) {
        (self.where_@, self.to@)
    }
}

impl Clone for Equals {
    fn clone(&self) -> (copy: Equals)
        ensures
            copy@ == self@,
    {
        Equals { where_: self.where_.clone(), to: self.to.clone() }
    }
}

impl Equals {
    /// Decides from what the resolution of `where_` gave: `Accept` exactly
    /// where a value was found and equals `to`.
    pub fn decide(&self, found: Result<Value, crate::context::Error>) -> (decided: Result<
        Decision,
        Error,
    >)
        ensures
            outcome_of(decided) == compared(resolved(found), self.to@, true),
    {
        compare(found, &self.to, true)
    }
}

impl Operate for Equals {
    open spec fn outcome(&self, resolve: Resolver) -> Outcome {
        comparison(self.where_@, self.to@, true, resolve)
    }

    fn operate<C: Context>(&self, context: &C) -> (decided: Result<Decision, Error>) {
        self.decide(context.get_from_context_at(self.where_.as_str()))
    }
}

} // verus!
