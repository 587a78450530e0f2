use vstd::prelude::*;

use crate::context::{resolver, Context, Resolver};
use crate::decision::Decision;
use crate::operator::{outcome_of, Error, ErrorView, Operate, Operator, OperatorView};
use crate::order::{ascending, lemma_precedes_total, lemma_precedes_transitive, place, precedes, Place};

verus! {

/// A predicate over a context, to be stored under a name.
#[derive(Debug, PartialEq, Eq)]
pub struct Rule {
    operator: Operator,
}

impl View for Rule {
    type V = OperatorView;

    /// The model of the rule's operator.
    closed spec fn view(&self) -> OperatorView {
        self.operator@
    }
}

impl Clone for Rule {
    fn clone(&self) -> (copy: Rule)
        ensures
            copy@ == self@,
    {
        Rule { operator: self.operator.clone() }
    }
}

impl Rule {
    /// The rule that holds where `operator` holds.
    pub fn new(operator: Operator) -> (rule: Rule)
        ensures
            rule@ == operator@,
    {
        Rule { operator }
    }

    /// The operator of this rule.
    pub fn operator(&self) -> (operator: &Operator)
        ensures
            operator@ == self@,
    {
        &self.operator
    }

    /// Determines whether the context satisfies the rule.
    pub fn is_satisfied_by<C: Context>(&self, context: &C) -> (decided: Result<Decision, Error>)
        ensures
            outcome_of(decided) == self@.evaluation(resolver(context)),
    {
        self.operator.operate(context)
    }
}

/// A named rule as contracts see it: the name's chars, and the model of
/// the rule.
pub type Entry = (Seq<char>, OperatorView);

/// One item of a search: a rule that the context satisfies, with its name,
/// or the failure of a rule's evaluation.
pub type Hit = Result<Entry, ErrorView>;

/// What one entry adds to a search: itself where its rule is satisfied,
/// nothing where it is not, and the error where its evaluation fails.
pub open spec fn hit(entry: Entry, resolve: Resolver) -> Seq<Hit> {
    match entry.1.evaluation(resolve) {
        Ok(Decision::Accept) => seq![Ok(entry)],
        Ok(Decision::Reject) => Seq::empty(),
        Err(error) => seq![Err(error)],
    }
}

/// What a search over `entries` finds: what each entry adds, in the order
/// of the entries.
pub open spec fn hits(entries: Seq<Entry>, resolve: Resolver) -> Seq<Hit>
    decreases entries.len(),
{
    if entries.len() == 0 {
        Seq::empty()
    } else {
        hit(entries[0], resolve) + hits(entries.drop_first(), resolve)
    }
}

/// The first thing that a search over `entries` finds: nothing where it
/// finds nothing, else the first satisfied rule, or the first failure where
/// that comes before any satisfied rule.
pub open spec fn first_hit(entries: Seq<Entry>, resolve: Resolver) -> Result<Option<Entry>, ErrorView> {
    let found = hits(entries, resolve);
    if found.len() == 0 {
        Ok(None)
    } else {
        match found[0] {
            Ok(entry) => Ok(Some(entry)),
            Err(error) => Err(error),
        }
    }
}

/// Whether the rules among `found` stand in the ascending order of their
/// names.
pub open spec fn in_order(found: Seq<Hit>) -> bool {
    forall|i: int, j: int|
        0 <= i < j < found.len() && (#[trigger] found[i]) is Ok && (#[trigger] found[j]) is Ok
            ==> precedes(found[i]->Ok_0.0, found[j]->Ok_0.0)
}

/// The names of `entries`, in their order.
pub open spec fn names(entries: Seq<Entry>) -> Seq<Seq<char>> {
    Seq::new(entries.len(), |i: int| entries[i].0)
}

/// A search over entries put one after the other finds what it finds over
/// the first ones, then what it finds over the others.
pub proof fn lemma_hits_concat(first: Seq<Entry>, then: Seq<Entry>, resolve: Resolver)
    ensures
        hits(first + then, resolve) == hits(first, resolve) + hits(then, resolve),
    decreases first.len(),
{
    if first.len() == 0 {
        assert(first + then =~= then);
        assert(hits(first, resolve) + hits(then, resolve) =~= hits(then, resolve));
    } else {
        let whole = first + then;
        assert(whole.drop_first() =~= first.drop_first() + then);
        lemma_hits_concat(first.drop_first(), then, resolve);
        assert(hits(whole, resolve) =~= hits(first, resolve) + hits(then, resolve));
    }
}

/// A position at which `name` stands among `entries`, where it stands
/// among them.
pub open spec fn position(entries: Seq<Entry>, name: Seq<char>) -> int {
    choose|i: int| 0 <= i < entries.len() && entries[i].0 == name
}

/// The map that `entries` list: each name that occurs among them, with the
/// rule that stands beside it.
pub open spec fn listed(entries: Seq<Entry>) -> Map<Seq<char>, OperatorView> {
    Map::new(
        |name: Seq<char>| exists|i: int| 0 <= i < entries.len() && entries[i].0 == name,
        |name: Seq<char>| entries[position(entries, name)].1,
    )
}

/// Among entries in ascending order of their names no name occurs twice,
/// so the map they list holds each entry's rule under its name.
pub proof fn lemma_listed(entries: Seq<Entry>, i: int)
    requires
        ascending(names(entries)),
        0 <= i < entries.len(),
    ensures
        listed(entries).contains_key(entries[i].0),
        listed(entries)[entries[i].0] == entries[i].1,
{
    let name = entries[i].0;
    assert(exists|j: int| 0 <= j < entries.len() && entries[j].0 == name);
    let j = position(entries, name);
    lemma_precedes_total(name, name);
    if j != i {
        assert(names(entries)[i] == name && names(entries)[j] == name);
        if i < j {
            assert(precedes(names(entries)[i], names(entries)[j]));
        } else {
            assert(precedes(names(entries)[j], names(entries)[i]));
        }
    }
}

/// The views of what a search handed out.
pub open spec fn shown(found: Seq<Result<(&str, &Rule), Error>>) -> Seq<Hit> {
    Seq::new(
        found.len(),
        |i: int|
            match found[i] {
                Ok((name, rule)) => Ok((name@, rule@)),
                Err(error) => Err(error@),
            },
    )
}

/// The views of stored entries.
pub open spec fn entry_views(stored: Seq<(String, Rule)>) -> Seq<Entry> {
    Seq::new(stored.len(), |i: int| (stored[i].0@, stored[i].1@))
}

/// Named rules, kept in the ascending lexical order of their names; no name
/// occurs twice.
#[derive(Debug, PartialEq, Eq)]
pub struct Rules {
    entries: Vec<(String, Rule)>,
}

impl Clone for Rules {
    /// A copy with the same rules under the same names.
    fn clone(&self) -> (copy: Rules)
        ensures
            copy.entries() == self.entries(),
    {
        proof {
            use_type_invariant(self);
        }
        let mut entries: Vec<(String, Rule)> = Vec::new();
        let mut i: usize = 0;
        while i < self.entries.len()
            invariant
                i <= self.entries.len(),
                entries@.len() == i,
                forall|j: int|
                    0 <= j < i ==> (#[trigger] entries@[j]).0@ == self.entries@[j].0@ && entries@[j].1@
                        == self.entries@[j].1@,
            decreases self.entries.len() - i,
        {
            let stored = &self.entries[i];
            entries.push((stored.0.clone(), stored.1.clone()));
            i += 1;
        }
        assert(entry_views(entries@) =~= self.entries());
        Rules { entries }
    }
}

impl View for Rules {
    type V = Map<Seq<char>, OperatorView>;

    /// The rules by their names.
    open spec fn view(&self) -> Map<Seq<char>, OperatorView> {
        listed(self.entries())
    }
}

impl Rules {
    /// The rules with their names, in the order in which they are searched.
    pub closed spec fn entries(&self) -> Seq<Entry> {
        entry_views(self.entries@)
    }

    #[verifier::type_invariant]
    closed spec fn ordered(&self) -> bool {
        ascending(names(self.entries()))
    }

    /// No rules.
    pub fn new() -> (rules: Rules)
        ensures
            rules.entries() == Seq::<Entry>::empty(),
    {
        let rules = Rules { entries: Vec::new() };
        assert(rules.entries() =~= Seq::<Entry>::empty());
        rules
    }

    /// Whether there are no rules.
    pub fn is_empty(&self) -> (empty: bool)
        ensures
            empty == (self.entries().len() == 0),
    {
        self.entries.len() == 0
    }

    /// The name and the rule at `position` in the ascending order of the
    /// names, where there are that many rules.
    pub fn at(&self, position: usize) -> (entry: Option<(&str, &Rule)>)
        ensures
            match entry {
                Some((name, rule)) => position < self.entries().len() && self.entries()[position as int]
                    == (name@, rule@),
                None => position >= self.entries().len(),
            },
            ascending(names(self.entries())),
    {
        proof {
            use_type_invariant(self);
        }
        if position < self.entries.len() {
            let stored = &self.entries[position];
            Some((stored.0.as_str(), &stored.1))
        } else {
            None
        }
    }

    /// The number of rules.
    pub fn len(&self) -> (count: usize)
        ensures
            count == self.entries().len(),
            ascending(names(self.entries())),
    {
        proof {
            use_type_invariant(self);
        }
        self.entries.len()
    }

    /// Finds all rules that are satisfied by the context. Every rule is
    /// evaluated, in the ascending order of the names. A satisfied rule is
    /// handed out with its name, and a rule whose evaluation fails as that
    /// failure, each at its place among the others; a failure does not end
    /// the search.
    pub fn find_all<'a, C: Context>(&'a self, context: &C) -> (found: Vec<
        Result<(&'a str, &'a Rule), Error>,
    >)
        ensures
            shown(found@) == hits(self.entries(), resolver(context)),
            in_order(shown(found@)),
            ascending(names(self.entries())),
    {
        proof {
            use_type_invariant(self);
            lemma_hits_ascending(self.entries(), resolver(context));
        }
        let ghost resolve = resolver(context);
        let ghost entries = self.entries();
        let mut found: Vec<Result<(&'a str, &'a Rule), Error>> = Vec::new();
        let mut i: usize = 0;
        proof {
            assert(entries.take(0) =~= Seq::<Entry>::empty());
            assert(shown(found@) =~= hits(entries.take(0), resolve));
        }
        while i < self.entries.len()
            invariant
                i <= self.entries.len(),
                entries == self.entries(),
                resolve == resolver(context),
                shown(found@) == hits(entries.take(i as int), resolve),
            decreases self.entries.len() - i,
        {
            let entry = &self.entries[i];
            let ghost before = shown(found@);
            proof {
                lemma_hits_concat(entries.take(i as int), seq![entries[i as int]], resolve);
                assert(entries.take(i as int) + seq![entries[i as int]] =~= entries.take(i + 1));
                assert(seq![entries[i as int]].drop_first() =~= Seq::<Entry>::empty());
                assert(hits(seq![entries[i as int]], resolve) =~= hit(entries[i as int], resolve)) by {
                    let one = seq![entries[i as int]];
                    assert(one[0] == entries[i as int]);
                    assert(hits(one.drop_first(), resolve) =~= Seq::<Hit>::empty());
                    assert(hit(one[0], resolve) + Seq::<Hit>::empty() =~= hit(one[0], resolve));
                }
            }
            match entry.1.is_satisfied_by(context) {
                Ok(Decision::Accept) => {
                    found.push(Ok((entry.0.as_str(), &entry.1)));
                    assert(shown(found@) =~= before + seq![Ok::<Entry, ErrorView>(entries[i as int])]);
                },
                Ok(Decision::Reject) => {
                    assert(before + Seq::<Hit>::empty() =~= before);
                },
                Err(error) => {
                    let ghost failure = error@;
                    found.push(Err(error));
                    assert(shown(found@) =~= before + seq![Err::<Entry, ErrorView>(failure)]);
                },
            }
            i += 1;
        }
        proof {
            assert(entries.take(i as int) =~= entries);
        }
        found
    }
    /// Finds a rule that is satisfied by the context: the first one in the
    /// ascending order of the names. Rules are evaluated in that order, and
    /// none after the first that is satisfied or whose evaluation fails; such
    /// a failure is the result.
    pub fn find<'a, C: Context>(&'a self, context: &C) -> (found: Result<
        Option<(&'a str, &'a Rule)>,
        Error,
    >)
        ensures
            match found {
                Ok(Some((name, rule))) => first_hit(self.entries(), resolver(context)) == Ok::<
                    Option<Entry>,
                    ErrorView,
                >(Some((name@, rule@))),
                Ok(None) => first_hit(self.entries(), resolver(context)) == Ok::<
                    Option<Entry>,
                    ErrorView,
                >(None),
                Err(error) => first_hit(self.entries(), resolver(context)) == Err::<
                    Option<Entry>,
                    ErrorView,
                >(error@),
            },
            ascending(names(self.entries())),
    {
        proof {
            use_type_invariant(self);
        }
        let ghost resolve = resolver(context);
        let ghost entries = self.entries();
        let mut i: usize = 0;
        proof {
            assert(entries.take(0) =~= Seq::<Entry>::empty());
        }
        while i < self.entries.len()
            invariant
                i <= self.entries.len(),
                entries == self.entries(),
                resolve == resolver(context),
                ascending(names(entries)),
                hits(entries.take(i as int), resolve).len() == 0,
            decreases self.entries.len() - i,
        {
            let entry = &self.entries[i];
            proof {
                let one = seq![entries[i as int]];
                assert(one[0] == entries[i as int]);
                assert(hits(one.drop_first(), resolve) =~= Seq::<Hit>::empty());
                assert(hits(one, resolve) =~= hit(entries[i as int], resolve));
                lemma_hits_concat(entries.take(i as int), one, resolve);
                assert(entries.take(i as int) + one =~= entries.take(i + 1));
                lemma_hits_concat(entries.take(i + 1), entries.skip(i + 1), resolve);
                assert(entries.take(i + 1) + entries.skip(i + 1) =~= entries);
            }
            match entry.1.is_satisfied_by(context) {
                Ok(Decision::Accept) => {
                    proof {
                        let here = hit(entries[i as int], resolve);
                        assert(hits(entries.take(i + 1), resolve) =~= here);
                        assert(hits(entries, resolve)[0] == here[0]);
                    }
                    return Ok(Some((entry.0.as_str(), &entry.1)));
                },
                Ok(Decision::Reject) => {},
                Err(error) => {
                    proof {
                        let here = hit(entries[i as int], resolve);
                        assert(hits(entries.take(i + 1), resolve) =~= here);
                        assert(hits(entries, resolve)[0] == here[0]);
                    }
                    return Err(error);
                },
            }
            i += 1;
        }
        proof {
            assert(entries.take(i as int) =~= entries);
        }
        Ok(None)
    }
    /// The position of the first entry whose name does not come before
    /// `name`, and how that entry's name stands to `name`; the number of
    /// entries, and `After`, where there is none.
    fn seek(&self, name: &str) -> (at: (usize, Place))
        ensures
            at.0 <= self.entries().len(),
            ascending(names(self.entries())),
            forall|j: int| 0 <= j < at.0 ==> precedes(#[trigger] self.entries()[j].0, name@),
            at.0 < self.entries().len() ==> at.1 != Place::After,
            at.1 == Place::Same ==> at.0 < self.entries().len() && self.entries()[at.0 as int].0
                == name@,
            at.1 == Place::Before ==> at.0 < self.entries().len() && precedes(
                name@,
                self.entries()[at.0 as int].0,
            ),
    {
        proof {
            use_type_invariant(self);
        }
        let mut i: usize = 0;
        while i < self.entries.len()
            invariant
                i <= self.entries.len(),
                ascending(names(self.entries())),
                forall|j: int| 0 <= j < i ==> precedes(#[trigger] self.entries()[j].0, name@),
            decreases self.entries.len() - i,
        {
            match place(name, self.entries[i].0.as_str()) {
                Place::After => {},
                found => {
                    return (i, found);
                },
            }
            i += 1;
        }
        (i, Place::After)
    }

    /// The rule that is stored under `name`, where there is one.
    pub fn get(&self, name: &str) -> (rule: Option<&Rule>)
        ensures
            match rule {
                Some(rule) => self@.contains_key(name@) && self@[name@] == rule@,
                None => !self@.contains_key(name@),
            },
    {
        let (at, found) = self.seek(name);
        match found {
            Place::Same => {
                proof {
                    lemma_listed(self.entries(), at as int);
                }
                Some(&self.entries[at].1)
            },
            _ => {
                proof {
                    lemma_absent(self.entries(), name@, at as int);
                }
                None
            },
        }
    }

    /// Stores `rule` under `name`, in place of the rule that was stored
    /// under that name, if there was one; that rule is returned.
    pub fn insert(&mut self, name: String, rule: Rule) -> (replaced: Option<Rule>)
        ensures
            final(self)@ == old(self)@.insert(name@, rule@),
            match replaced {
                Some(before) => old(self)@.contains_key(name@) && old(self)@[name@] == before@
                    && exists|position: int|
                    0 <= position < old(self).entries().len() && old(self).entries()[position].0
                        == name@ && final(self).entries() == #[trigger] old(
                        self,
                    ).entries().update(position, (name@, rule@)),
                None => !old(self)@.contains_key(name@) && exists|position: int|
                    0 <= position <= old(self).entries().len() && final(self).entries()
                        == #[trigger] old(self).entries().insert(position, (name@, rule@)),
            },
            ascending(names(final(self).entries())),
    {
        let (at, found) = self.seek(name.as_str());
        let ghost before = self.entries();
        let ghost entry = (name@, rule@);
        match found {
            Place::Same => {
                proof {
                    lemma_listed(before, at as int);
                    lemma_replaced(before, at as int, entry);
                }
                let mut entries: Vec<(String, Rule)> = Vec::new();
                core::mem::swap(&mut entries, &mut self.entries);
                let old = entries.remove(at);
                entries.insert(at, (name, rule));
                assert(entry_views(entries@) =~= before.update(at as int, entry));
                core::mem::swap(&mut entries, &mut self.entries);
                Some(old.1)
            },
            _ => {
                proof {
                    lemma_absent(before, name@, at as int);
                    lemma_inserted(before, at as int, entry);
                }
                let mut entries: Vec<(String, Rule)> = Vec::new();
                core::mem::swap(&mut entries, &mut self.entries);
                entries.insert(at, (name, rule));
                assert(entry_views(entries@) =~= before.insert(at as int, entry));
                core::mem::swap(&mut entries, &mut self.entries);
                None
            },
        }
    }
}

/// A name that falls between two neighbours of entries in ascending order
/// of their names is not among them.
pub proof fn lemma_absent(entries: Seq<Entry>, name: Seq<char>, at: int)
    requires
        ascending(names(entries)),
        0 <= at <= entries.len(),
        forall|j: int| 0 <= j < at ==> precedes(#[trigger] entries[j].0, name),
        at < entries.len() ==> precedes(name, entries[at].0),
    ensures
        !listed(entries).contains_key(name),
        forall|j: int| at <= j < entries.len() ==> precedes(name, #[trigger] entries[j].0),
{
    assert forall|j: int| at <= j < entries.len() implies precedes(
        name,
        #[trigger] entries[j].0,
    ) by {
        if j > at {
            assert(precedes(names(entries)[at], names(entries)[j]));
            lemma_precedes_transitive(name, entries[at].0, entries[j].0);
        }
    }
    assert forall|j: int| 0 <= j < entries.len() implies entries[j].0 != name by {
        lemma_precedes_total(name, name);
        if j < at {
            assert(precedes(entries[j].0, name));
        } else {
            assert(precedes(name, entries[j].0));
        }
    }
}

/// Putting an entry where its name falls keeps the order, and adds the
/// entry to what is listed.
pub proof fn lemma_inserted(entries: Seq<Entry>, at: int, entry: Entry)
    requires
        ascending(names(entries)),
        0 <= at <= entries.len(),
        forall|j: int| 0 <= j < at ==> precedes(#[trigger] entries[j].0, entry.0),
        forall|j: int| at <= j < entries.len() ==> precedes(entry.0, #[trigger] entries[j].0),
    ensures
        ascending(names(entries.insert(at, entry))),
        listed(entries.insert(at, entry)) == listed(entries).insert(entry.0, entry.1),
{
    let after = entries.insert(at, entry);
    assert forall|i: int, j: int| 0 <= i < j < after.len() implies precedes(
        names(after)[i],
        names(after)[j],
    ) by {
        let from_i = if i < at { i } else { i - 1 };
        let from_j = if j < at { j } else { j - 1 };
        if i != at && j != at {
            assert(after[i] == entries[from_i] && after[j] == entries[from_j]);
            assert(precedes(names(entries)[from_i], names(entries)[from_j]));
        } else if i == at {
            assert(after[j] == entries[j - 1]);
        } else {
            assert(after[i] == entries[i]);
        }
    }
    let target = listed(entries).insert(entry.0, entry.1);
    assert forall|name: Seq<char>| listed(after).contains_key(name) == target.contains_key(
        name,
    ) by {
        if listed(after).contains_key(name) {
            let i = choose|i: int| 0 <= i < after.len() && after[i].0 == name;
            if i != at {
                let from = if i < at { i } else { i - 1 };
                assert(entries[from].0 == name);
            }
        }
        if listed(entries).contains_key(name) {
            let j = choose|j: int| 0 <= j < entries.len() && entries[j].0 == name;
            let to = if j < at { j } else { j + 1 };
            assert(after[to].0 == name);
        }
        if name == entry.0 {
            assert(after[at].0 == name);
        }
    }
    assert forall|name: Seq<char>| listed(after).contains_key(name) implies listed(after)[name]
        == target[name] by {
        let i = choose|i: int| 0 <= i < after.len() && after[i].0 == name;
        lemma_listed(after, i);
        if i != at {
            let from = if i < at { i } else { i - 1 };
            assert(after[i] == entries[from]);
            lemma_listed(entries, from);
            lemma_precedes_total(name, entry.0);
        }
    }
    assert(listed(after) =~= target);
}

/// Putting an entry in the place of one of the same name keeps the order,
/// and stores the entry's rule under that name in what is listed.
pub proof fn lemma_replaced(entries: Seq<Entry>, at: int, entry: Entry)
    requires
        ascending(names(entries)),
        0 <= at < entries.len(),
        entries[at].0 == entry.0,
    ensures
        ascending(names(entries.update(at, entry))),
        listed(entries.update(at, entry)) == listed(entries).insert(entry.0, entry.1),
{
    let after = entries.update(at, entry);
    assert(names(after) =~= names(entries));
    let target = listed(entries).insert(entry.0, entry.1);
    assert forall|name: Seq<char>| listed(after).contains_key(name) == target.contains_key(
        name,
    ) by {
        if listed(after).contains_key(name) {
            let i = choose|i: int| 0 <= i < after.len() && after[i].0 == name;
            assert(entries[i].0 == name);
        }
        if listed(entries).contains_key(name) {
            let j = choose|j: int| 0 <= j < entries.len() && entries[j].0 == name;
            assert(after[j].0 == name);
        }
        if name == entry.0 {
            assert(after[at].0 == name);
        }
    }
    assert forall|name: Seq<char>| listed(after).contains_key(name) implies listed(after)[name]
        == target[name] by {
        let i = choose|i: int| 0 <= i < after.len() && after[i].0 == name;
        lemma_listed(after, i);
        if i != at {
            assert(after[i] == entries[i]);
            lemma_listed(entries, i);
            lemma_listed(entries, at);
            lemma_precedes_total(name, name);
            if i < at {
                assert(precedes(names(entries)[i], names(entries)[at]));
            } else {
                assert(precedes(names(entries)[at], names(entries)[i]));
            }
        }
    }
    assert(listed(after) =~= target);
}

/// What a search over entries in ascending order of their names finds,
/// it finds in that order: every rule found is one of the entries, and of
/// two rules found the name of the earlier one comes before the name of the
/// later one.
pub proof fn lemma_hits_ascending(entries: Seq<Entry>, resolve: Resolver)
    requires
        ascending(names(entries)),
    ensures
        forall|i: int|
            0 <= i < hits(entries, resolve).len() && (#[trigger] hits(entries, resolve)[i]) is Ok
                ==> exists|k: int|
                0 <= k < entries.len() && #[trigger] entries[k] == hits(entries, resolve)[i]->Ok_0
                    && entries[k].1.evaluation(resolve) == Ok::<Decision, ErrorView>(Decision::Accept),
        forall|i: int, j: int|
            0 <= i < j < hits(entries, resolve).len() && (#[trigger] hits(entries, resolve)[i]) is Ok
                && (#[trigger] hits(entries, resolve)[j]) is Ok ==> precedes(
                hits(entries, resolve)[i]->Ok_0.0,
                hits(entries, resolve)[j]->Ok_0.0,
            ),
    decreases entries.len(),
{
    if entries.len() > 0 {
        let rest = entries.drop_first();
        let here = hit(entries[0], resolve);
        let behind = hits(rest, resolve);
        let found = hits(entries, resolve);
        assert forall|i: int, j: int| 0 <= i < j < rest.len() implies precedes(
            names(rest)[i],
            names(rest)[j],
        ) by {
            assert(precedes(names(entries)[i + 1], names(entries)[j + 1]));
        }
        lemma_hits_ascending(rest, resolve);
        assert forall|i: int| 0 <= i < found.len() && (#[trigger] found[i]) is Ok implies exists|
            k: int,
        |
            0 <= k < entries.len() && #[trigger] entries[k] == found[i]->Ok_0
                && entries[k].1.evaluation(resolve) == Ok::<Decision, ErrorView>(
                Decision::Accept,
            ) by {
            if i < here.len() {
                assert(entries[0] == found[i]->Ok_0);
            } else {
                assert(found[i] == behind[i - here.len()]);
                let k = choose|k: int|
                    0 <= k < rest.len() && #[trigger] rest[k] == behind[i - here.len()]->Ok_0
                        && rest[k].1.evaluation(resolve) == Ok::<Decision, ErrorView>(
                        Decision::Accept,
                    );
                assert(entries[k + 1] == rest[k]);
            }
        }
        assert forall|i: int, j: int|
            0 <= i < j < found.len() && (#[trigger] found[i]) is Ok && (#[trigger] found[j]) is Ok
        implies precedes(found[i]->Ok_0.0, found[j]->Ok_0.0) by {
            if i < here.len() {
                assert(found[i]->Ok_0 == entries[0]);
                assert(found[j] == behind[j - here.len()]);
                let k = choose|k: int|
                    0 <= k < rest.len() && #[trigger] rest[k] == behind[j - here.len()]->Ok_0
                        && rest[k].1.evaluation(resolve) == Ok::<Decision, ErrorView>(
                        Decision::Accept,
                    );
                assert(precedes(names(entries)[0], names(entries)[k + 1]));
            } else {
                assert(found[i] == behind[i - here.len()]);
                assert(found[j] == behind[j - here.len()]);
            }
        }
    }
}

/// There is one way only to list a map in ascending order of the names: two
/// sequences of entries in that order that list the same map are the same.
/// So the order in which rules were stored does not show in a search.
pub proof fn lemma_listing_unique(a: Seq<Entry>, b: Seq<Entry>)
    requires
        ascending(names(a)),
        ascending(names(b)),
        listed(a) == listed(b),
    ensures
        a == b,
    decreases a.len(),
{
    if a.len() == 0 {
        if b.len() > 0 {
            lemma_listed(b, 0);
            assert(listed(a).contains_key(b[0].0));
        }
        assert(a =~= b);
    } else {
        let last = a.len() - 1;
        let name = a[last].0;
        lemma_listed(a, last);
        assert(listed(b).contains_key(name));
        let j = choose|j: int| 0 <= j < b.len() && b[j].0 == name;
        let b_last = b.len() - 1;
        lemma_listed(b, b_last);
        assert(listed(a).contains_key(b[b_last].0));
        let k = choose|k: int| 0 <= k < a.len() && a[k].0 == b[b_last].0;
        lemma_precedes_total(name, b[b_last].0);
        if j < b_last {
            assert(precedes(names(b)[j], names(b)[b_last]));
            if k < last {
                assert(precedes(names(a)[k], names(a)[last]));
            }
        }
        assert(j == b_last);
        lemma_listed(b, j);
        assert(a[last] == b[b_last]);
        let a_front = a.drop_last();
        let b_front = b.drop_last();
        assert(names(a_front) =~= names(a).drop_last());
        assert(names(b_front) =~= names(b).drop_last());
        assert forall|key: Seq<char>| listed(a_front).contains_key(key) == listed(
            b_front,
        ).contains_key(key) by {
            lemma_precedes_total(key, key);
            if listed(a_front).contains_key(key) {
                let i = choose|i: int| 0 <= i < a_front.len() && a_front[i].0 == key;
                assert(a[i].0 == key);
                assert(precedes(names(a)[i], names(a)[last]));
                assert(listed(b).contains_key(key));
                let m = choose|m: int| 0 <= m < b.len() && b[m].0 == key;
                assert(m != b_last);
                assert(b_front[m].0 == key);
            }
            if listed(b_front).contains_key(key) {
                let i = choose|i: int| 0 <= i < b_front.len() && b_front[i].0 == key;
                assert(b[i].0 == key);
                assert(precedes(names(b)[i], names(b)[b_last]));
                assert(listed(a).contains_key(key));
                let m = choose|m: int| 0 <= m < a.len() && a[m].0 == key;
                assert(m != last);
                assert(a_front[m].0 == key);
            }
        }
        assert forall|key: Seq<char>| listed(a_front).contains_key(key) implies listed(
            a_front,
        )[key] == listed(b_front)[key] by {
            let i = choose|i: int| 0 <= i < a_front.len() && a_front[i].0 == key;
            let m = choose|m: int| 0 <= m < b_front.len() && b_front[m].0 == key;
            lemma_listed(a_front, i);
            lemma_listed(b_front, m);
            assert(a[i] == a_front[i] && b[m] == b_front[m]);
            lemma_listed(a, i);
            lemma_listed(b, m);
        }
        assert(listed(a_front) =~= listed(b_front));
        lemma_listing_unique(a_front, b_front);
        assert(a =~= a_front.push(a[last]));
        assert(b =~= b_front.push(b[b_last]));
    }
}

/// A search finds the same over rules that hold the same rules under the
/// same names, in whatever order those were stored.
pub proof fn lemma_search_by_names(a: Seq<Entry>, b: Seq<Entry>, resolve: Resolver)
    requires
        ascending(names(a)),
        ascending(names(b)),
        listed(a) == listed(b),
    ensures
        hits(a, resolve) == hits(b, resolve),
        first_hit(a, resolve) == first_hit(b, resolve),
{
    lemma_listing_unique(a, b);
}

} // verus!
