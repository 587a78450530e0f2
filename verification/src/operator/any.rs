use vstd::prelude::*;

use crate::context::{Context, Resolver};
use crate::decision::Decision;
use crate::operator::{operands, Error, Operate, Operator, OperatorView, Outcome};

verus! {

/// Holds where one of its operands holds. The operands are evaluated
/// in order, and none after the first that fails or is accepted.
#[derive(Debug, PartialEq, Eq)]
pub struct Any {
    pub operators: Vec<Operator>,
}

impl View for Any {
    type V = Seq<OperatorView>;

    /// The models of the operands.
    open spec fn view(&self) -> Seq<OperatorView> {
        operands(self.operators@)
    }
}

impl Clone for Any {
    fn clone(&self) -> (copy: Any)
        ensures
            copy@ == self@,
    {
        Any { operators: Operator::duplicate_each(&self.operators) }
    }
}

impl Operate for Any {
    open spec fn outcome(&self, resolve: Resolver) -> Outcome {
        OperatorView::Any(self@).evaluation(resolve)
    }

    fn operate<C: Context>(&self, context: &C) -> (decided: Result<Decision, Error>) {
        Operator::evaluate_each(&self.operators, context, Decision::Reject)
    }
}

} // verus!
