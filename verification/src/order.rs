use vstd::prelude::*;
use vstd::std_specs::iter::IteratorSpec;

verus! {

/// Whether `a` comes before `b` in lexical order: at the first position
/// where they differ `a` has the smaller char, or `a` ends there and `b`
/// goes on. This is the order of `str`.
pub open spec fn precedes(a: Seq<char>, b: Seq<char>) -> bool
    decreases a.len(),
{
    if b.len() == 0 {
        false
    } else if a.len() == 0 {
        true
    } else if a[0] != b[0] {
        a[0] < b[0]
    } else {
        precedes(a.drop_first(), b.drop_first())
    }
}

/// Whether each name of `names` comes before the next one, and so before
/// all that follow it.
pub open spec fn ascending(names: Seq<Seq<char>>) -> bool {
    forall|i: int, j: int| 0 <= i < j < names.len() ==> precedes(names[i], names[j])
}

/// No text comes before itself.
pub proof fn lemma_precedes_irreflexive(a: Seq<char>)
    ensures
        !precedes(a, a),
    decreases a.len(),
{
    if a.len() > 0 {
        lemma_precedes_irreflexive(a.drop_first());
    }
}

/// Of two different texts one comes before the other, and never both.
pub proof fn lemma_precedes_total(a: Seq<char>, b: Seq<char>)
    ensures
        a != b ==> (precedes(a, b) <==> !precedes(b, a)),
        a == b ==> !precedes(a, b) && !precedes(b, a),
    decreases a.len(),
{
    if a == b {
        lemma_precedes_irreflexive(a);
    } else if a.len() > 0 && b.len() > 0 {
        if a[0] == b[0] {
            assert(a.drop_first() != b.drop_first()) by {
                if a.drop_first() == b.drop_first() {
                    assert(a =~= seq![a[0]] + a.drop_first());
                    assert(b =~= seq![b[0]] + b.drop_first());
                }
            }
            lemma_precedes_total(a.drop_first(), b.drop_first());
        }
    } else {
        if a.len() == 0 && b.len() == 0 {
            assert(a =~= b);
        }
    }
}

/// Coming before is transitive.
pub proof fn lemma_precedes_transitive(a: Seq<char>, b: Seq<char>, c: Seq<char>)
    requires
        precedes(a, b),
        precedes(b, c),
    ensures
        precedes(a, c),
    decreases a.len(),
{
    if a.len() > 0 {
        if a[0] == b[0] && b[0] == c[0] {
            lemma_precedes_transitive(a.drop_first(), b.drop_first(), c.drop_first());
        }
    }
}

/// How one name stands to another in lexical order.
#[derive(Debug, Clone, Copy, PartialEq, Eq, Structural)]
pub enum Place {
    Before,
    Same,
    After,
}

/// Compares two names in lexical order.
pub fn place(a: &str, b: &str) -> (found: Place)
    ensures
        found == Place::Before <==> precedes(a@, b@),
        found == Place::Same <==> a@ == b@,
        found == Place::After <==> precedes(b@, a@),
{
    let total = a.unicode_len();
    let mut at: usize = 0;
    let mut left = a.chars();
    let mut right = b.chars();
    proof {
        assert(a@.skip(0) =~= a@);
        assert(b@.skip(0) =~= b@);
        lemma_precedes_total(a@, b@);
    }
    loop
        invariant
            total == a@.len(),
            at <= total,
            at <= b@.len(),
            left.remaining() == a@.skip(at as int),
            right.remaining() == b@.skip(at as int),
            precedes(a@, b@) == precedes(a@.skip(at as int), b@.skip(at as int)),
            precedes(b@, a@) == precedes(b@.skip(at as int), a@.skip(at as int)),
            (a@ == b@) == (a@.skip(at as int) == b@.skip(at as int)),
        decreases total - at,
    {
        let ghost rest_a = a@.skip(at as int);
        let ghost rest_b = b@.skip(at as int);
        proof {
            lemma_precedes_total(rest_a, rest_b);
        }
        match (left.next(), right.next()) {
            (None, None) => {
                assert(rest_a =~= rest_b);
                return Place::Same;
            },
            (None, Some(_)) => {
                return Place::Before;
            },
            (Some(_), None) => {
                return Place::After;
            },
            (Some(x), Some(y)) => {
                assert(x == rest_a[0] && y == rest_b[0]);
                if x != y {
                    if x < y {
                        return Place::Before;
                    } else {
                        return Place::After;
                    }
                }
                proof {
                    assert(rest_a.drop_first() =~= a@.skip(at + 1));
                    assert(rest_b.drop_first() =~= b@.skip(at + 1));
                    if rest_a.drop_first() == rest_b.drop_first() {
                        assert(rest_a =~= seq![x] + rest_a.drop_first());
                        assert(rest_b =~= seq![y] + rest_b.drop_first());
                    }
                }
                at = at + 1;
            },
        }
    }
}

} // verus!
