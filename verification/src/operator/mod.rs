mod all;
mod any;
mod equals;
mod not_equals;

pub use all::All;
pub use any::Any;
pub use equals::{compare, compared, comparison, Equals};
pub use not_equals::NotEquals;

use vstd::prelude::*;
use vstd::std_specs::convert::FromSpecImpl;

use crate::context::{resolver, Context, Resolver};
use crate::value::ValueView;
use crate::decision::{
    fold_outcome, fold_stop, fold_taken, lemma_fold_ignores_tail, lemma_fold_stop,
    lemma_fold_stop_is, Decision,
};

verus! {

/// Why an operator could not be evaluated.
#[derive(Debug)]
pub enum Error {
    /// The context could not resolve the path that the operator reads.
    UnexpectedContext(crate::context::Error),
}

/// The model of an [`Error`].
pub ghost enum ErrorView {
    UnexpectedContext(crate::context::ErrorView),
}

impl View for Error {
    type V = ErrorView;

    open spec fn view(&self) -> ErrorView {
        match self {
            Error::UnexpectedContext(error) => ErrorView::UnexpectedContext(error@),
        }
    }
}

impl From<crate::context::Error> for Error {
    fn from(error: crate::context::Error) -> (wrapped: Error) {
        Error::UnexpectedContext(error)
    }
}

impl FromSpecImpl<crate::context::Error> for Error {
    open spec fn obeys_from_spec() -> bool {
        true
    }

    open spec fn from_spec(error: crate::context::Error) -> Error {
        Error::UnexpectedContext(error)
    }
}

/// What an evaluation gives, as contracts see it.
pub type Outcome = Result<Decision, ErrorView>;

/// The model of the result of an evaluation.
pub open spec fn outcome_of(decided: Result<Decision, Error>) -> Outcome {
    match decided {
        Ok(decision) => Ok(decision),
        Err(error) => Err(error@),
    }
}

/// A predicate that can be evaluated against a context.
pub trait Operate: Sized {
    /// What evaluating this predicate gives against a context that
    /// resolves paths as `resolve` does. An implementation that does not
    /// say what is taken to have such a function all the same.
    open spec fn outcome(&self, resolve: Resolver) -> Outcome {
        crate::value::unstated(*self, resolve)
    }

    /// Evaluates this predicate against `context`.
    fn operate<C: Context>(&self, context: &C) -> (decided: Result<Decision, Error>)
        ensures
            outcome_of(decided) == self.outcome(resolver(context)),
    ;
}

/// A predicate over a context: a comparison of the value at a path with a
/// literal, or a conjunction or disjunction of predicates.
#[derive(Debug, PartialEq, Eq)]
pub enum Operator {
    All(All),
    Any(Any),
    Equals(Equals),
    NotEquals(NotEquals),
}

/// The model of an [`Operator`]: the same tree, over sequences and the
/// models of the literals.
pub ghost enum OperatorView {
    All(Seq<OperatorView>),
    Any(Seq<OperatorView>),
    Equals(Seq<char>, ValueView),
    NotEquals(Seq<char>, ValueView),
}

impl OperatorView {
    /// What evaluating this operator gives against a context that resolves
    /// paths as `resolve` does. `All` is the fold of its operands' outcomes
    /// that goes on over `Accept`, `Any` the one that goes on over `Reject`:
    /// the first operand that fails or decides otherwise is the outcome, and
    /// what stands after it does not count.
    pub open spec fn evaluation(self, resolve: Resolver) -> Outcome
        decreases self, 0nat,
    {
        match self {
            OperatorView::All(operands) => fold_outcome(
                evaluations(operands, resolve),
                Decision::Accept,
            ),
            OperatorView::Any(operands) => fold_outcome(
                evaluations(operands, resolve),
                Decision::Reject,
            ),
            OperatorView::Equals(at, to) => comparison(at, to, true, resolve),
            OperatorView::NotEquals(at, to) => comparison(at, to, false, resolve),
        }
    }
}

/// The outcomes of `operands`, one by one.
pub open spec fn evaluations(operands: Seq<OperatorView>, resolve: Resolver) -> Seq<Outcome>
    decreases operands, 1nat,
{
    Seq::new(
        operands.len(),
        |i: int|
            if 0 <= i < operands.len() {
                operands[i].evaluation(resolve)
            } else {
                Ok(Decision::Accept)
            },
    )
}

impl Operator {
    /// The model of this operator.
    pub open spec fn model(&self) -> OperatorView
        decreases self,
    {
        match self {
            Operator::All(all) => OperatorView::All(
                Seq::new(
                    all.operators@.len(),
                    |i: int|
                        if 0 <= i < all.operators@.len() {
                            all.operators@[i].model()
                        } else {
                            OperatorView::All(Seq::empty())
                        },
                ),
            ),
            Operator::Any(any) => OperatorView::Any(
                Seq::new(
                    any.operators@.len(),
                    |i: int|
                        if 0 <= i < any.operators@.len() {
                            any.operators@[i].model()
                        } else {
                            OperatorView::All(Seq::empty())
                        },
                ),
            ),
            Operator::Equals(equals) => OperatorView::Equals(equals.where_@, equals.to@),
            Operator::NotEquals(not_equals) => OperatorView::NotEquals(
                not_equals.where_@,
                not_equals.to@,
            ),
        }
    }
}

impl View for Operator {
    type V = OperatorView;

    open spec fn view(&self) -> OperatorView {
        self.model()
    }
}

/// The models of a sequence of operators, one by one.
pub open spec fn operands(operators: Seq<Operator>) -> Seq<OperatorView> {
    Seq::new(operators.len(), |i: int| operators[i]@)
}

/// The model of `All` and of `Any` holds the models of their operands.
pub proof fn lemma_operands(operators: Vec<Operator>)
    ensures
        Operator::All(All { operators })@ == OperatorView::All(operands(operators@)),
        Operator::Any(Any { operators })@ == OperatorView::Any(operands(operators@)),
{
    assert(Operator::All(All { operators })@->All_0 =~= operands(operators@));
    assert(Operator::Any(Any { operators })@->Any_0 =~= operands(operators@));
}

impl Operator {
    /// Evaluates `operators` one after the other for as long as they decide
    /// `neutral`, and stops at the first one that fails or decides otherwise.
    pub(crate) fn evaluate_each<C: Context>(
        operators: &Vec<Operator>,
        context: &C,
        neutral: Decision,
    ) -> (decided: Result<Decision, Error>)
        ensures
            outcome_of(decided) == fold_outcome(
                evaluations(operands(operators@), resolver(context)),
                neutral,
            ),
        decreases operators,
    {
        let ghost outcomes = evaluations(operands(operators@), resolver(context));
        let mut i: usize = 0;
        while i < operators.len()
            invariant
                i <= operators.len(),
                outcomes == evaluations(operands(operators@), resolver(context)),
                forall|j: int| 0 <= j < i ==> #[trigger] outcomes[j] == Ok::<Decision, ErrorView>(
                    neutral,
                ),
            decreases operators.len() - i,
        {
            let decided = operators[i].evaluate(context);
            let goes_on = match &decided {
                Ok(decision) => *decision == neutral,
                Err(_) => false,
            };
            if !goes_on {
                proof {
                    lemma_fold_stop_is(outcomes, neutral, i as int);
                }
                return decided;
            }
            i += 1;
        }
        proof {
            lemma_fold_stop_is(outcomes, neutral, i as int);
        }
        Ok(neutral)
    }

    /// Evaluates this operator against `context`.
    pub(crate) fn evaluate<C: Context>(&self, context: &C) -> (decided: Result<Decision, Error>)
        ensures
            outcome_of(decided) == self@.evaluation(resolver(context)),
        decreases self,
    {
        match self {
            Operator::All(all) => {
                proof {
                    lemma_operands(all.operators);
                }
                Operator::evaluate_each(&all.operators, context, Decision::Accept)
            },
            Operator::Any(any) => {
                proof {
                    lemma_operands(any.operators);
                }
                Operator::evaluate_each(&any.operators, context, Decision::Reject)
            },
            Operator::Equals(equals) => equals.operate(context),
            Operator::NotEquals(not_equals) => not_equals.operate(context),
        }
    }

    /// Copies `operators` one by one.
    pub(crate) fn duplicate_each(operators: &Vec<Operator>) -> (copy: Vec<Operator>)
        ensures
            operands(copy@) == operands(operators@),
        decreases operators,
    {
        let mut copy: Vec<Operator> = Vec::new();
        let mut i: usize = 0;
        while i < operators.len()
            invariant
                i <= operators.len(),
                copy@.len() == i,
                forall|j: int| 0 <= j < i ==> (#[trigger] copy@[j])@ == operators@[j]@,
            decreases operators.len() - i,
        {
            copy.push(operators[i].duplicate());
            i += 1;
        }
        assert(operands(copy@) =~= operands(operators@));
        copy
    }

    /// A copy of this operator.
    fn duplicate(&self) -> (copy: Operator)
        ensures
            copy@ == self@,
        decreases self,
    {
        match self {
            Operator::All(all) => {
                let operators = Operator::duplicate_each(&all.operators);
                proof {
                    lemma_operands(all.operators);
                    lemma_operands(operators);
                }
                Operator::All(All { operators })
            },
            Operator::Any(any) => {
                let operators = Operator::duplicate_each(&any.operators);
                proof {
                    lemma_operands(any.operators);
                    lemma_operands(operators);
                }
                Operator::Any(Any { operators })
            },
            Operator::Equals(equals) => Operator::Equals(equals.clone()),
            Operator::NotEquals(not_equals) => Operator::NotEquals(not_equals.clone()),
        }
    }
}

impl Clone for Operator {
    /// A copy with the same model.
    fn clone(&self) -> (copy: Operator)
        ensures
            copy@ == self@,
    {
        self.duplicate()
    }
}

impl Operate for Operator {
    open spec fn outcome(&self, resolve: Resolver) -> Outcome {
        self@.evaluation(resolve)
    }

    fn operate<C: Context>(&self, context: &C) -> (decided: Result<Decision, Error>) {
        self.evaluate(context)
    }
}

/// Without operands `All` holds and `Any` does not, whatever the context.
pub proof fn lemma_no_operands(resolve: Resolver)
    ensures
        OperatorView::All(Seq::empty()).evaluation(resolve) == Ok::<Decision, ErrorView>(
            Decision::Accept,
        ),
        OperatorView::Any(Seq::empty()).evaluation(resolve) == Ok::<Decision, ErrorView>(
            Decision::Reject,
        ),
{
}

/// `All` and `Any` do not depend on the operands behind the one that
/// decides them. Let `first` and `second` have the same operands up to and
/// including the first operand of `first` that fails or is rejected (or the
/// same operands throughout, where there is none): then `All` gives the
/// same over both. The same holds of `Any` and the first operand that
/// fails or is accepted.
pub proof fn lemma_operands_behind_the_deciding_one(
    first: Seq<OperatorView>,
    second: Seq<OperatorView>,
    resolve: Resolver,
    neutral: Decision,
)
    requires
        fold_taken(evaluations(first, resolve), neutral) <= second.len(),
        fold_stop(evaluations(first, resolve), neutral) == first.len() ==> second.len()
            == first.len(),
        forall|i: int|
            0 <= i < fold_taken(evaluations(first, resolve), neutral) ==> #[trigger] first[i]
                == second[i],
    ensures
        neutral == Decision::Accept ==> OperatorView::All(first).evaluation(resolve)
            == OperatorView::All(second).evaluation(resolve),
        neutral == Decision::Reject ==> OperatorView::Any(first).evaluation(resolve)
            == OperatorView::Any(second).evaluation(resolve),
{
    let one = evaluations(first, resolve);
    let other = evaluations(second, resolve);
    lemma_fold_stop(one, neutral);
    assert forall|i: int| 0 <= i < fold_taken(one, neutral) implies #[trigger] one[i]
        == other[i] by {
        assert(first[i] == second[i]);
    }
    lemma_fold_ignores_tail(one, other, neutral);
}

} // verus!
