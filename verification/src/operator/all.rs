use vstd::prelude::*;

use crate::context::{Context, Resolver};
use crate::decision::Decision;
use crate::operator::{operands, Error, Operate, Operator, OperatorView, Outcome};

verus! {

/// Holds where every one of its operands holds. The operands are evaluated
/// in order, and none after the first that fails or is rejected.
#[derive(Debug, PartialEq, Eq)]
pub struct All {
    pub operators: Vec<Operator>,
}

impl View for All {
    type V = Seq<OperatorView>;

    /// The models of the operands.
    open spec fn view(&self) -> Seq<OperatorView> {
        operands(self.operators@)
    }
}

impl Clone for All {
    fn clone(&self) -> (copy: All)
        ensures
            copy@ == self@,
    {
        All { operators: Operator::duplicate_each(&self.operators) }
    }
}

impl Operate for All {
    open spec fn outcome(&self, resolve: Resolver) -> Outcome {
        OperatorView::All(self@).evaluation(resolve)
    }

    fn operate<C: Context>(&self, context: &C) -> (decided: Result<Decision, Error>) {
        Operator::evaluate_each(&self.operators, context, Decision::Accept)
    }
}

} // verus!
