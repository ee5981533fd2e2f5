use vstd::prelude::*;

use vstd::seq_lib::lemma_multiset_commutative;

use crate::order::TotalOrder;
use crate::order::merge_seqs;
use crate::order::sorted;

verus! {

/// The merge of two sequences is as long as the two together.
pub proof fn lemma_merge_length<T: TotalOrder>(a: Seq<T>, b: Seq<T>)
    ensures
        merge_seqs(a, b).len() == a.len() + b.len(),
    decreases a.len() + b.len(),
{
    if a.len() == 0 {
    } else if b.len() == 0 {
    } else if a.first().le(b.first()) {
        lemma_merge_length(a.drop_first(), b);
    } else {
        lemma_merge_length(a, b.drop_first());
    }
}

/// The merge of two sequences holds exactly their elements: its
/// multiset is the multiset union of the two inputs'.
pub proof fn lemma_merge_multiset<T: TotalOrder>(a: Seq<T>, b: Seq<T>)
    ensures
        merge_seqs(a, b).to_multiset() == a.to_multiset().add(b.to_multiset()),
    decreases a.len() + b.len(),
{
    broadcast use vstd::seq_lib::group_to_multiset_ensures;

    if a.len() == 0 {
        assert forall|x: T| a.to_multiset().count(x) == 0 by {
            assert(!a.contains(x));
        }
        assert(a.to_multiset().add(b.to_multiset()) =~= b.to_multiset());
    } else if b.len() == 0 {
        assert forall|x: T| b.to_multiset().count(x) == 0 by {
            assert(!b.contains(x));
        }
        assert(a.to_multiset().add(b.to_multiset()) =~= a.to_multiset());
    } else if a.first().le(b.first()) {
        lemma_merge_multiset(a.drop_first(), b);
        lemma_multiset_commutative(seq![a.first()], merge_seqs(a.drop_first(), b));
        lemma_multiset_commutative(seq![a.first()], a.drop_first());
        assert(seq![a.first()] + a.drop_first() =~= a);
        assert(merge_seqs(a, b).to_multiset() =~= a.to_multiset().add(b.to_multiset()));
    } else {
        lemma_merge_multiset(a, b.drop_first());
        lemma_multiset_commutative(seq![b.first()], merge_seqs(a, b.drop_first()));
        lemma_multiset_commutative(seq![b.first()], b.drop_first());
        assert(seq![b.first()] + b.drop_first() =~= b);
        assert(merge_seqs(a, b).to_multiset() =~= a.to_multiset().add(b.to_multiset()));
    }
}

proof fn lemma_sorted_drop_first<T: TotalOrder>(s: Seq<T>)
    requires
        sorted(s),
        s.len() > 0,
    ensures
        sorted(s.drop_first()),
{
    assert forall|i: int, j: int|
        0 <= i < j < s.drop_first().len() implies s.drop_first()[i].le(s.drop_first()[j]) by {
        assert(s.drop_first()[i] == s[i + 1]);
        assert(s.drop_first()[j] == s[j + 1]);
    }
}

/// Merging two ascending sequences gives an ascending sequence.
pub proof fn lemma_merge_sorted<T: TotalOrder>(a: Seq<T>, b: Seq<T>)
    requires
        sorted(a),
        sorted(b),
    ensures
        sorted(merge_seqs(a, b)),
    decreases a.len() + b.len(),
{
    broadcast use vstd::seq_lib::group_to_multiset_ensures;

    if a.len() == 0 || b.len() == 0 {
    } else {
        let m = merge_seqs(a, b);
        if a.first().le(b.first()) {
            let rest = merge_seqs(a.drop_first(), b);
            lemma_sorted_drop_first(a);
            lemma_merge_sorted(a.drop_first(), b);
            lemma_merge_multiset(a.drop_first(), b);
            assert forall|j: int| 0 <= j < rest.len() implies a.first().le(rest[j]) by {
                let x = rest[j];
                assert(rest.contains(x));
                assert(rest.to_multiset().count(x) > 0);
                if a.drop_first().to_multiset().count(x) > 0 {
                    assert(a.drop_first().contains(x));
                    let k = choose|k: int|
                        0 <= k < a.drop_first().len() && a.drop_first()[k] == x;
                    assert(a[k + 1] == x);
                    assert(a.first().le(a[k + 1]));
                } else {
                    assert(b.to_multiset().count(x) > 0);
                    assert(b.contains(x));
                    let k = choose|k: int| 0 <= k < b.len() && b[k] == x;
                    if k == 0 {
                        assert(a.first().le(x));
                    } else {
                        assert(b.first().le(b[k]));
                        TotalOrder::lemma_transitive(a.first(), b.first(), b[k]);
                    }
                }
            }
            assert forall|i: int, j: int| 0 <= i < j < m.len() implies m[i].le(m[j]) by {
                if i == 0 {
                    assert(m[j] == rest[j - 1]);
                } else {
                    assert(m[i] == rest[i - 1]);
                    assert(m[j] == rest[j - 1]);
                }
            }
        } else {
            TotalOrder::lemma_total(a.first(), b.first());
            let rest = merge_seqs(a, b.drop_first());
            lemma_sorted_drop_first(b);
            lemma_merge_sorted(a, b.drop_first());
            lemma_merge_multiset(a, b.drop_first());
            assert forall|j: int| 0 <= j < rest.len() implies b.first().le(rest[j]) by {
                let x = rest[j];
                assert(rest.contains(x));
                assert(rest.to_multiset().count(x) > 0);
                if a.to_multiset().count(x) > 0 {
                    assert(a.contains(x));
                    let k = choose|k: int| 0 <= k < a.len() && a[k] == x;
                    if k == 0 {
                        assert(b.first().le(x));
                    } else {
                        assert(a.first().le(a[k]));
                        TotalOrder::lemma_transitive(b.first(), a.first(), a[k]);
                    }
                } else {
                    assert(b.drop_first().to_multiset().count(x) > 0);
                    assert(b.drop_first().contains(x));
                    let k = choose|k: int|
                        0 <= k < b.drop_first().len() && b.drop_first()[k] == x;
                    assert(b[k + 1] == x);
                    assert(b.first().le(b[k + 1]));
                }
            }
            assert forall|i: int, j: int| 0 <= i < j < m.len() implies m[i].le(m[j]) by {
                if i == 0 {
                    assert(m[j] == rest[j - 1]);
                } else {
                    assert(m[i] == rest[i - 1]);
                    assert(m[j] == rest[j - 1]);
                }
            }
        }
    }
}

/// The merge is stable: on a tie between the two heads, the first
/// sequence's element is emitted first.
pub proof fn lemma_merge_stable_tie<T: TotalOrder>(a: Seq<T>, b: Seq<T>)
    requires
        a.len() > 0,
        b.len() > 0,
        a.first() == b.first(),
    ensures
        merge_seqs(a, b) == seq![a.first()] + merge_seqs(a.drop_first(), b),
{
    TotalOrder::lemma_reflexive(a.first());
}

/// Reversal is an involution: reversing a sequence twice restores it.
pub proof fn lemma_reverse_involution<T>(s: Seq<T>)
    ensures
        s.reverse().reverse() == s,
{
    assert(s.reverse().reverse() =~= s);
}

/// Reversing an empty or single-element sequence changes nothing.
pub proof fn lemma_reverse_short<T>(s: Seq<T>)
    requires
        s.len() <= 1,
    ensures
        s.reverse() == s,
{
    assert(s.reverse() =~= s);
}

} // verus!
