use vstd::prelude::*;

verus! {

/// Outcome of a three-way comparison.
pub enum Cmp {
    Lt,
    Eq,
    Gt,
}

/// A total order on a type: a specification-level `le` relation satisfying
/// the laws of a total order, together with an executable three-way
/// comparison that agrees with it.
pub trait TotalOrder: Sized {
    /// `self` comes before `other`, or equals it.
    spec fn le(self, other: Self) -> bool;

    proof fn lemma_reflexive(a: Self)
        ensures
            a.le(a),
    ;

    proof fn lemma_transitive(a: Self, b: Self, c: Self)
        requires
            a.le(b),
            b.le(c),
        ensures
            a.le(c),
    ;

    proof fn lemma_antisymmetric(a: Self, b: Self)
        requires
            a.le(b),
            b.le(a),
        ensures
            a == b,
    ;

    proof fn lemma_total(a: Self, b: Self)
        ensures
            a.le(b) || b.le(a),
    ;

    /// Executable comparison, tied to `le`.
    fn compare(&self, other: &Self) -> (c: Cmp)
        ensures
            (match c {
                Cmp::Lt => self.le(*other) && *self != *other,
                Cmp::Eq => *self == *other,
                Cmp::Gt => other.le(*self) && *self != *other,
            }),
    ;
}

/// A sequence is sorted ascending under the type's total order.
pub open spec fn sorted<T: TotalOrder>(s: Seq<T>) -> bool {
    forall|i: int, j: int| 0 <= i < j < s.len() ==> s[i].le(s[j])
}

/// The sequence a stable two-pointer merge produces: the heads of the
/// two inputs are compared and the smaller goes first, the first
/// input's head winning a tie; once one input is exhausted, the rest of
/// the other follows unchanged.
pub open spec fn merge_seqs<T: TotalOrder>(a: Seq<T>, b: Seq<T>) -> Seq<T>
    decreases a.len() + b.len(),
{
    if a.len() == 0 {
        b
    } else if b.len() == 0 {
        a
    } else if a.first().le(b.first()) {
        seq![a.first()] + merge_seqs(a.drop_first(), b)
    } else {
        seq![b.first()] + merge_seqs(a, b.drop_first())
    }
}

impl TotalOrder for i32 {
    open spec fn le(self, other: Self) -> bool {
        self <= other
    }

    proof fn lemma_reflexive(a: Self) {
    }

    proof fn lemma_transitive(a: Self, b: Self, c: Self) {
    }

    proof fn lemma_antisymmetric(a: Self, b: Self) {
    }

    proof fn lemma_total(a: Self, b: Self) {
    }

    fn compare(&self, other: &Self) -> (c: Cmp) {
        if *self < *other {
            Cmp::Lt
        } else if *self == *other {
            Cmp::Eq
        } else {
            Cmp::Gt
        }
    }
}

} // verus!
