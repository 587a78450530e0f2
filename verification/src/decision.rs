use vstd::prelude::*;
use vstd::std_specs::iter::IteratorSpec;

verus! {

/// The outcome of evaluating a predicate: it holds (`Accept`) or it does not
/// (`Reject`).
#[derive(Debug, Copy, Clone, PartialEq, Eq, Structural)]
pub enum Decision {
    Accept,
    Reject,
}

/// The position of the first item of `items` that is not `Ok(neutral)`, or
/// the length of `items` where every item is `Ok(neutral)`.
///
/// A fold walks its items from the left for as long as they are
/// `Ok(neutral)`; this is where it stops.
pub open spec fn fold_stop<E>(items: Seq<Result<Decision, E>>, neutral: Decision) -> int
    decreases items.len(),
{
    if items.len() == 0 {
        0
    } else if items[0] != Ok::<Decision, E>(neutral) {
        0
    } else {
        1 + fold_stop(items.drop_first(), neutral)
    }
}

/// What a fold over `items` returns: the item it stops at, or `Ok(neutral)`
/// where it runs through all of them.
pub open spec fn fold_outcome<E>(items: Seq<Result<Decision, E>>, neutral: Decision) -> Result<
    Decision,
    E,
> {
    let stop = fold_stop(items, neutral);
    if stop < items.len() {
        items[stop]
    } else {
        Ok(neutral)
    }
}

/// How many items a fold over `items` takes from its source: the items up to
/// and including the one it stops at.
pub open spec fn fold_taken<E>(items: Seq<Result<Decision, E>>, neutral: Decision) -> int {
    let stop = fold_stop(items, neutral);
    if stop < items.len() {
        stop + 1
    } else {
        stop
    }
}

/// A sequence of plain decisions, each seen as an evaluation that succeeded.
pub open spec fn succeeded<E>(decisions: Seq<Decision>) -> Seq<Result<Decision, E>> {
    decisions.map_values(|d: Decision| Ok::<Decision, E>(d))
}

/// `fold_stop` is the one position that has only `Ok(neutral)` before it and
/// holds something else, or is the end.
pub proof fn lemma_fold_stop<E>(items: Seq<Result<Decision, E>>, neutral: Decision)
    ensures
        0 <= fold_stop(items, neutral) <= items.len(),
        forall|i: int|
            0 <= i < fold_stop(items, neutral) ==> #[trigger] items[i] == Ok::<Decision, E>(
                neutral,
            ),
        fold_stop(items, neutral) < items.len() ==> items[fold_stop(items, neutral)] != Ok::<
            Decision,
            E,
        >(neutral),
    decreases items.len(),
{
    if items.len() > 0 && items[0] == Ok::<Decision, E>(neutral) {
        let rest = items.drop_first();
        lemma_fold_stop(rest, neutral);
        assert forall|i: int| 0 <= i < fold_stop(items, neutral) implies #[trigger] items[i] == Ok::<
            Decision,
            E,
        >(neutral) by {
            if i > 0 {
                assert(items[i] == rest[i - 1]);
            }
        }
    }
}

/// A position that has only `Ok(neutral)` before it, and holds something
/// else or is the end, is `fold_stop`.
pub proof fn lemma_fold_stop_is<E>(items: Seq<Result<Decision, E>>, neutral: Decision, stop: int)
    requires
        0 <= stop <= items.len(),
        forall|i: int| 0 <= i < stop ==> #[trigger] items[i] == Ok::<Decision, E>(neutral),
        stop < items.len() ==> items[stop] != Ok::<Decision, E>(neutral),
    ensures
        fold_stop(items, neutral) == stop,
    decreases items.len(),
{
    if stop > 0 {
        let rest = items.drop_first();
        assert(items[0] == Ok::<Decision, E>(neutral));
        assert forall|i: int| 0 <= i < stop - 1 implies #[trigger] rest[i] == Ok::<Decision, E>(
            neutral,
        ) by {
            assert(rest[i] == items[i + 1]);
        }
        lemma_fold_stop_is(rest, neutral, stop - 1);
    }
}

/// A fold does not depend on what follows the item it stops at: two
/// sequences that agree on the items a fold over the first one takes give
/// the same outcome, and the fold takes as many items from either.
pub proof fn lemma_fold_ignores_tail<E>(
    items: Seq<Result<Decision, E>>,
    other: Seq<Result<Decision, E>>,
    neutral: Decision,
)
    requires
        fold_taken(items, neutral) <= other.len(),
        fold_stop(items, neutral) == items.len() ==> other.len() == items.len(),
        forall|i: int| 0 <= i < fold_taken(items, neutral) ==> #[trigger] items[i] == other[i],
    ensures
        fold_outcome(other, neutral) == fold_outcome(items, neutral),
        fold_taken(other, neutral) == fold_taken(items, neutral),
{
    lemma_fold_stop(items, neutral);
    let stop = fold_stop(items, neutral);
    assert forall|i: int| 0 <= i < stop implies #[trigger] other[i] == Ok::<Decision, E>(
        neutral,
    ) by {
        assert(items[i] == other[i]);
    }
    if stop < items.len() {
        assert(items[stop] == other[stop]);
    }
    lemma_fold_stop_is(other, neutral, stop);
}

/// A conjunction of plain decisions is `Accept` exactly where every one of
/// them is `Accept`, and a disjunction is `Accept` exactly where one of them
/// is; neither ever fails.
pub proof fn lemma_fold_of_decisions(decisions: Seq<Decision>)
    ensures
        fold_outcome(succeeded::<()>(decisions), Decision::Accept) == Ok::<Decision, ()>(
            if forall|i: int| 0 <= i < decisions.len() ==> decisions[i] == Decision::Accept {
                Decision::Accept
            } else {
                Decision::Reject
            },
        ),
        fold_outcome(succeeded::<()>(decisions), Decision::Reject) == Ok::<Decision, ()>(
            if exists|i: int| 0 <= i < decisions.len() && decisions[i] == Decision::Accept {
                Decision::Accept
            } else {
                Decision::Reject
            },
        ),
{
    let items = succeeded::<()>(decisions);
    assert forall|i: int| 0 <= i < decisions.len() implies #[trigger] items[i] == Ok::<
        Decision,
        (),
    >(decisions[i]) by {}
    lemma_fold_stop(items, Decision::Accept);
    lemma_fold_stop(items, Decision::Reject);
    let stop_all = fold_stop(items, Decision::Accept);
    if stop_all < items.len() {
        assert(items[stop_all] == Ok::<Decision, ()>(decisions[stop_all]));
        assert(decisions[stop_all] == Decision::Reject);
    } else {
        assert forall|i: int| 0 <= i < decisions.len() implies decisions[i]
            == Decision::Accept by {
            assert(items[i] == Ok::<Decision, ()>(Decision::Accept));
        }
    }
    let stop_any = fold_stop(items, Decision::Reject);
    if stop_any < items.len() {
        assert(items[stop_any] == Ok::<Decision, ()>(decisions[stop_any]));
        assert(decisions[stop_any] == Decision::Accept);
    } else {
        assert forall|i: int| 0 <= i < decisions.len() implies decisions[i]
            != Decision::Accept by {
            assert(items[i] == Ok::<Decision, ()>(Decision::Reject));
        }
    }
}

impl Decision {
    /// Takes items from `source` for as long as they are `Ok(neutral)` and
    /// returns the first one that is not, or `Ok(neutral)` at the end.
    fn fold<I, E>(source: &mut I, neutral: Decision) -> (outcome: Result<Decision, E>) where
        I: Iterator<Item = Result<Decision, E>>,

        requires
            (*old(source)).obeys_prophetic_iter_laws(),
            (*old(source)).decrease() is Some,
        ensures
            outcome == fold_outcome((*old(source)).remaining(), neutral),
            (*final(source)).remaining() == (*old(source)).remaining().skip(
                fold_taken((*old(source)).remaining(), neutral),
            ),
    {
        let ghost items = (*source).remaining();
        let ghost mut taken: int = 0;
        proof {
            assert(items.skip(0) =~= items);
        }
        loop
            invariant
                (*source).obeys_prophetic_iter_laws(),
                (*source).decrease() is Some,
                items == (*old(source)).remaining(),
                0 <= taken <= items.len(),
                (*source).remaining() == items.skip(taken),
                forall|i: int| 0 <= i < taken ==> #[trigger] items[i] == Ok::<Decision, E>(neutral),
            decreases (*source).decrease()->0,
        {
            match source.next() {
                None => {
                    proof {
                        lemma_fold_stop_is(items, neutral, taken);
                    }
                    return Ok(neutral);
                },
                Some(item) => {
                    proof {
                        assert(item == items[taken]);
                        assert((*source).remaining() =~= items.skip(taken + 1));
                    }
                    let goes_on = match &item {
                        Ok(decision) => *decision == neutral,
                        Err(_) => false,
                    };
                    if !goes_on {
                        proof {
                            lemma_fold_stop_is(items, neutral, taken);
                        }
                        return item;
                    }
                    proof {
                        taken = taken + 1;
                    }
                },
            }
        }
    }

    /// Folds fallible decisions as a conjunction. Items are taken from
    /// `iter` one at a time, from the left. The first item that is an error
    /// or `Reject` is returned as it is and nothing is taken after it; where
    /// every item is `Ok(Accept)`, and so for an empty source, the result is
    /// `Ok(Accept)`.
    pub fn try_from_iter_all<I, E>(iter: &mut I) -> (outcome: Result<Decision, E>) where
        I: Iterator<Item = Result<Decision, E>>,

        requires
            (*old(iter)).obeys_prophetic_iter_laws(),
            (*old(iter)).decrease() is Some,
        ensures
            outcome == fold_outcome((*old(iter)).remaining(), Decision::Accept),
            (*final(iter)).remaining() == (*old(iter)).remaining().skip(
                fold_taken((*old(iter)).remaining(), Decision::Accept),
            ),
    {
        Decision::fold(iter, Decision::Accept)
    }

    /// Folds fallible decisions as a disjunction. Items are taken from
    /// `iter` one at a time, from the left. The first item that is an error
    /// or `Accept` is returned as it is and nothing is taken after it; where
    /// every item is `Ok(Reject)`, and so for an empty source, the result is
    /// `Ok(Reject)`.
    pub fn try_from_iter_any<I, E>(iter: &mut I) -> (outcome: Result<Decision, E>) where
        I: Iterator<Item = Result<Decision, E>>,

        requires
            (*old(iter)).obeys_prophetic_iter_laws(),
            (*old(iter)).decrease() is Some,
        ensures
            outcome == fold_outcome((*old(iter)).remaining(), Decision::Reject),
            (*final(iter)).remaining() == (*old(iter)).remaining().skip(
                fold_taken((*old(iter)).remaining(), Decision::Reject),
            ),
    {
        Decision::fold(iter, Decision::Reject)
    }
    /// Takes decisions from `source` for as long as they are `neutral` and
    /// returns the first one that is not, or `neutral` at the end.
    fn fold_plain<I>(source: &mut I, neutral: Decision) -> (outcome: Decision) where
        I: Iterator<Item = Decision>,

        requires
            (*old(source)).obeys_prophetic_iter_laws(),
            (*old(source)).decrease() is Some,
        ensures
            Ok::<Decision, ()>(outcome) == fold_outcome(
                succeeded::<()>((*old(source)).remaining()),
                neutral,
            ),
            (*final(source)).remaining() == (*old(source)).remaining().skip(
                fold_taken(succeeded::<()>((*old(source)).remaining()), neutral),
            ),
    {
        let ghost decisions = (*source).remaining();
        let ghost items = succeeded::<()>(decisions);
        let ghost mut taken: int = 0;
        proof {
            assert(decisions.skip(0) =~= decisions);
        }
        loop
            invariant
                (*source).obeys_prophetic_iter_laws(),
                (*source).decrease() is Some,
                decisions == (*old(source)).remaining(),
                items == succeeded::<()>(decisions),
                0 <= taken <= decisions.len(),
                (*source).remaining() == decisions.skip(taken),
                forall|i: int| 0 <= i < taken ==> #[trigger] items[i] == Ok::<Decision, ()>(neutral),
            decreases (*source).decrease()->0,
        {
            match source.next() {
                None => {
                    proof {
                        lemma_fold_stop_is(items, neutral, taken);
                    }
                    return neutral;
                },
                Some(decision) => {
                    proof {
                        assert(decision == decisions[taken]);
                        assert(items[taken] == Ok::<Decision, ()>(decision));
                        assert((*source).remaining() =~= decisions.skip(taken + 1));
                    }
                    if decision != neutral {
                        proof {
                            lemma_fold_stop_is(items, neutral, taken);
                        }
                        return decision;
                    }
                    proof {
                        taken = taken + 1;
                    }
                },
            }
        }
    }

    /// Folds decisions as a conjunction: `Reject` as soon as one item is
    /// `Reject`, with nothing taken from `iter` after that item, and
    /// `Accept` where there is none, so for an empty source too.
    pub fn from_iter_all<I>(iter: &mut I) -> (outcome: Decision) where
        I: Iterator<Item = Decision>,

        requires
            (*old(iter)).obeys_prophetic_iter_laws(),
            (*old(iter)).decrease() is Some,
        ensures
            Ok::<Decision, ()>(outcome) == fold_outcome(
                succeeded::<()>((*old(iter)).remaining()),
                Decision::Accept,
            ),
            (*final(iter)).remaining() == (*old(iter)).remaining().skip(
                fold_taken(succeeded::<()>((*old(iter)).remaining()), Decision::Accept),
            ),
    {
        Decision::fold_plain(iter, Decision::Accept)
    }

    /// Folds decisions as a disjunction: `Accept` as soon as one item is
    /// `Accept`, with nothing taken from `iter` after that item, and
    /// `Reject` where there is none, so for an empty source too.
    pub fn from_iter_any<I>(iter: &mut I) -> (outcome: Decision) where
        I: Iterator<Item = Decision>,

        requires
            (*old(iter)).obeys_prophetic_iter_laws(),
            (*old(iter)).decrease() is Some,
        ensures
            Ok::<Decision, ()>(outcome) == fold_outcome(
                succeeded::<()>((*old(iter)).remaining()),
                Decision::Reject,
            ),
            (*final(iter)).remaining() == (*old(iter)).remaining().skip(
                fold_taken(succeeded::<()>((*old(iter)).remaining()), Decision::Reject),
            ),
    {
        Decision::fold_plain(iter, Decision::Reject)
    }
}

impl From<bool> for Decision {
    /// `Accept` for `true`, `Reject` for `false`.
    fn from(value: bool) -> (decision: Decision) {
        if value {
            Decision::Accept
        } else {
            Decision::Reject
        }
    }
}

impl vstd::std_specs::convert::FromSpecImpl<bool> for Decision {
    open spec fn obeys_from_spec() -> bool {
        true
    }

    open spec fn from_spec(value: bool) -> Decision {
        if value {
            Decision::Accept
        } else {
            Decision::Reject
        }
    }
}

impl From<Decision> for bool {
    /// `true` for `Accept`, `false` for `Reject`.
    fn from(value: Decision) -> (accepted: bool) {
        match value {
            Decision::Accept => true,
            Decision::Reject => false,
        }
    }
}

impl vstd::std_specs::convert::FromSpecImpl<Decision> for bool {
    open spec fn obeys_from_spec() -> bool {
        true
    }

    open spec fn from_spec(value: Decision) -> bool {
        value == Decision::Accept
    }
}

} // verus!
