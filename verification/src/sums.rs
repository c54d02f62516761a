//! Sums of byte sizes, used by the layout arithmetic of the calling
//! convention.

use vstd::prelude::*;

verus! {

/// The sum of a sequence of byte sizes, as an unbounded integer.
pub open spec fn seq_sum_u64(s: Seq<u64>) -> int
    decreases s.len(),
{
    if s.len() == 0 {
        0
    } else {
        s[0] + seq_sum_u64(s.skip(1))
    }
}

/// The sum of the size components of a name-to-size sequence.
pub open spec fn sizes_sum(m: Seq<(Seq<char>, u64)>) -> int {
    seq_sum_u64(m.map_values(|e: (Seq<char>, u64)| e.1))
}

/// A sum of unsigned sizes is non-negative.
pub proof fn lemma_seq_sum_nonneg(s: Seq<u64>)
    ensures
        seq_sum_u64(s) >= 0,
    decreases s.len(),
{
    if s.len() > 0 {
        lemma_seq_sum_nonneg(s.skip(1));
    }
}

/// Extending a summed prefix by one element adds exactly that element.
pub proof fn lemma_seq_sum_take_snoc(s: Seq<u64>, i: int)
    requires
        0 <= i < s.len(),
    ensures
        seq_sum_u64(s.take(i + 1)) == seq_sum_u64(s.take(i)) + s[i],
    decreases i,
{
    let a = s.take(i + 1);
    if i == 0 {
        assert(a.skip(1) =~= Seq::<u64>::empty());
        assert(a[0] == s[0]);
        assert(seq_sum_u64(a) == a[0] + seq_sum_u64(a.skip(1)));
        assert(seq_sum_u64(a.skip(1)) == 0);
        assert(s.take(0).len() == 0);
        assert(seq_sum_u64(s.take(0)) == 0);
    } else {
        lemma_seq_sum_take_snoc(s.skip(1), i - 1);
        let b = s.take(i);
        assert(a.skip(1) =~= s.skip(1).take(i));
        assert(b.skip(1) =~= s.skip(1).take(i - 1));
        assert(a[0] == s[0] && b[0] == s[0]);
        assert(s.skip(1)[i - 1] == s[i]);
        assert(seq_sum_u64(a) == a[0] + seq_sum_u64(s.skip(1).take(i)));
        assert(seq_sum_u64(b) == b[0] + seq_sum_u64(s.skip(1).take(i - 1)));
    }
}

/// A sequence sums to its summed prefix plus its summed remainder.
pub proof fn lemma_seq_sum_split(s: Seq<u64>, i: int)
    requires
        0 <= i <= s.len(),
    ensures
        seq_sum_u64(s) == seq_sum_u64(s.take(i)) + seq_sum_u64(s.skip(i)),
    decreases i,
{
    if i == 0 {
        assert(s.take(0).len() == 0);
        assert(s.skip(0) =~= s);
    } else {
        lemma_seq_sum_split(s, i - 1);
        lemma_seq_sum_take_snoc(s, i - 1);
        let t = s.skip(i - 1);
        assert(t[0] == s[i - 1]);
        assert(t.skip(1) =~= s.skip(i));
        assert(seq_sum_u64(t) == s[i - 1] + seq_sum_u64(s.skip(i)));
    }
}

/// A sum of unsigned sizes is zero exactly when every size is zero.
pub proof fn lemma_seq_sum_zero_iff(s: Seq<u64>)
    ensures
        (seq_sum_u64(s) == 0) <==> (forall|i: int| 0 <= i < s.len() ==> s[i] == 0),
    decreases s.len(),
{
    if s.len() > 0 {
        lemma_seq_sum_zero_iff(s.skip(1));
        lemma_seq_sum_nonneg(s.skip(1));
        if seq_sum_u64(s) == 0 {
            assert forall|i: int| 0 <= i < s.len() implies s[i] == 0 by {
                if i > 0 {
                    assert(s.skip(1)[i - 1] == s[i]);
                }
            }
        } else {
            if s[0] == 0 {
                let j = choose|j: int| 0 <= j < s.skip(1).len() && s.skip(1)[j] != 0;
                assert(s[j + 1] == s.skip(1)[j]);
            }
        }
    }
}

} // verus!
