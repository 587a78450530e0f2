use vstd::prelude::*;

use crate::context::{resolved, Context, Resolver};
use crate::decision::Decision;
use crate::operator::equals::{compare, compared, comparison};
use crate::operator::{outcome_of, Error, Operate, Outcome};
use crate::value::{Value, ValueView};

verus! {

/// Holds where the value found at a path does not equal a literal.
#[derive(Debug, PartialEq, Eq)]
pub struct NotEquals {
    /// The dot-delimited path to resolve against the context.
    pub where_: String,
    /// The literal that the value found there is compared with.
    pub to: Value,
}

impl View for NotEquals {
    type V = (Seq<char>, ValueView);

    /// The path, and the model of the literal.
    open spec fn view(&self) -> (Seq<char>, ValueView) {
        (self.where_@, self.to@)
    }
}

impl Clone for NotEquals {
    fn clone(&self) -> (copy: NotEquals)
        ensures
            copy@ == self@,
    {
        NotEquals { where_: self.where_.clone(), to: self.to.clone() }
    }
}

impl NotEquals {
    /// Decides from what the resolution of `where_` gave: `Accept` exactly
    /// where a value was found and does not equal `to`.
    pub fn decide(&self, found: Result<Value, crate::context::Error>) -> (decided: Result<
        Decision,
        Error,
    >)
        ensures
            outcome_of(decided) == compared(resolved(found), self.to@, false),
    {
        compare(found, &self.to, false)
    }
}

impl Operate for NotEquals {
    open spec fn outcome(&self, resolve: Resolver) -> Outcome {
        comparison(self.where_@, self.to@, false, resolve)
    }

    fn operate<C: Context>(&self, context: &C) -> (decided: Result<Decision, Error>) {
        self.decide(context.get_from_context_at(self.where_.as_str()))
    }
}

} // verus!
