//! Reading the recorded sets of one session exercise, in ascending set
//! number order.

use vstd::prelude::*;

use crate::db::store_wf;
use crate::db::Database;
use crate::db::StoreView;
use crate::models::SetEntry;

verus! {

/// Membership test for the set list of session exercise `se_id`; drop sets
/// are kept only when `include_drops` holds.
pub open spec fn set_filter_pred(se_id: int, include_drops: bool) -> spec_fn(SetEntry) -> bool {
    |e: SetEntry| e.session_exercise_id == se_id && (include_drops || !e.is_drop)
}

/// The set entries of session exercise `se_id`, in store order.
pub open spec fn sets_of(s: StoreView, se_id: int, include_drops: bool) -> Seq<SetEntry> {
    s.set_entries.filter(set_filter_pred(se_id, include_drops))
}

/// Set numbers never decrease along the sequence.
pub open spec fn sets_sorted(s: Seq<SetEntry>) -> bool {
    forall|i: int, j: int|
        0 <= i < j < s.len() ==> (#[trigger] s[i]).set_number <= (#[trigger] s[j]).set_number
}

/// In a filter of a sequence, two positions come from two store positions
/// in the same order.
pub(crate) proof fn lemma_filter_index_order<A>(
    sq: Seq<A>,
    pred: spec_fn(A) -> bool,
    t1: int,
    t2: int,
)
    requires
        0 <= t1 < t2 < sq.filter(pred).len(),
    ensures
        exists|i1: int, i2: int|
            {
                &&& 0 <= i1 < i2 < sq.len()
                &&& #[trigger] sq[i1] == sq.filter(pred)[t1]
                &&& #[trigger] sq[i2] == sq.filter(pred)[t2]
            },
    decreases sq.len(),
{
    if sq.len() > 0 {
        let prefix = sq.drop_last();
        let last = sq.last();
        assert(sq =~= prefix.push(last));
        prefix.lemma_filter_push(last, pred);
        let fp = prefix.filter(pred);
        let f = sq.filter(pred);
        if pred(last) && t2 == fp.len() {
            assert(f == fp.push(last));
            assert(fp.contains(fp[t1]));
            prefix.lemma_filter_contains_rev(pred, fp[t1]);
            let i1 = prefix.lemma_contains_to_index(fp[t1]);
            assert(sq[i1] == f[t1]);
            assert(sq[sq.len() - 1] == f[t2]);
        } else {
            lemma_filter_index_order(prefix, pred, t1, t2);
            let (i1, i2): (int, int) = choose|i1: int, i2: int|
                {
                    &&& 0 <= i1 < i2 < prefix.len()
                    &&& #[trigger] prefix[i1] == fp[t1]
                    &&& #[trigger] prefix[i2] == fp[t2]
                };
            assert(sq[i1] == sq.filter(pred)[t1]);
            assert(sq[i2] == sq.filter(pred)[t2]);
        }
    }
}

/// In a well-formed store the set list of one session exercise carries
/// pairwise distinct set numbers.
proof fn lemma_sets_of_distinct_numbers(
    s: StoreView,
    se_id: int,
    include_drops: bool,
    t1: int,
    t2: int,
)
    requires
        store_wf(s),
        0 <= t1 < t2 < sets_of(s, se_id, include_drops).len(),
    ensures
        sets_of(s, se_id, include_drops)[t1].set_number != sets_of(
            s,
            se_id,
            include_drops,
        )[t2].set_number,
{
    let pred = set_filter_pred(se_id, include_drops);
    let f = sets_of(s, se_id, include_drops);
    s.set_entries.lemma_filter_pred(pred, t1);
    s.set_entries.lemma_filter_pred(pred, t2);
    lemma_filter_index_order(s.set_entries, pred, t1, t2);
    let (i1, i2): (int, int) = choose|i1: int, i2: int|
        {
            &&& 0 <= i1 < i2 < s.set_entries.len()
            &&& #[trigger] s.set_entries[i1] == f[t1]
            &&& #[trigger] s.set_entries[i2] == f[t2]
        };
    assert(!(s.set_entries[i1].session_exercise_id == s.set_entries[i2].session_exercise_id
        && s.set_entries[i1].set_number == s.set_entries[i2].set_number));
}

/// An arrangement of the set list with non-descending numbers has strictly
/// ascending numbers, the numbers being pairwise distinct.
proof fn lemma_sorted_sets_strict(s: StoreView, se_id: int, include_drops: bool, r: Seq<SetEntry>)
    requires
        store_wf(s),
        r.to_multiset() == sets_of(s, se_id, include_drops).to_multiset(),
        sets_sorted(r),
    ensures
        forall|i: int, j: int|
            0 <= i < j < r.len() ==> (#[trigger] r[i]).set_number < (#[trigger] r[j]).set_number,
{
    broadcast use vstd::multiset::group_multiset_axioms;

    let f = sets_of(s, se_id, include_drops);
    assert(f.no_duplicates()) by {
        assert forall|t1: int, t2: int| 0 <= t1 < t2 < f.len() implies f[t1] != f[t2] by {
            lemma_sets_of_distinct_numbers(s, se_id, include_drops, t1, t2);
        }
    }
    f.lemma_multiset_has_no_duplicates();
    assert forall|x: SetEntry| r.to_multiset().count(x) <= 1 by {
        assert(f.to_multiset().count(x) <= 1);
    }
    r.lemma_multiset_has_no_duplicates_conv();
    assert forall|i: int, j: int|
        0 <= i < j < r.len() implies (#[trigger] r[i]).set_number < (#[trigger] r[j]).set_number by {
        assert(r[i] != r[j]);
        assert(r.contains(r[i]));
        assert(r.contains(r[j]));
        vstd::seq_lib::to_multiset_contains(r, r[i]);
        vstd::seq_lib::to_multiset_contains(r, r[j]);
        vstd::seq_lib::to_multiset_contains(f, r[i]);
        vstd::seq_lib::to_multiset_contains(f, r[j]);
        let ti = f.lemma_contains_to_index(r[i]);
        let tj = f.lemma_contains_to_index(r[j]);
        assert(ti != tj);
        if ti < tj {
            lemma_sets_of_distinct_numbers(s, se_id, include_drops, ti, tj);
        } else {
            lemma_sets_of_distinct_numbers(s, se_id, include_drops, tj, ti);
        }
        assert(r[i].set_number != r[j].set_number);
    }
}

impl Database {
    /// Returns the set entries of session exercise `se_id`, ordered by set
    /// number ascending; drop sets are left out unless `include_drops`.
    pub fn collect_sets(&self, se_id: i64, include_drops: bool) -> (r: Vec<SetEntry>)
        requires
            self.wf(),
        ensures
            r@.to_multiset() == sets_of(self@, se_id as int, include_drops).to_multiset(),
            sets_sorted(r@),
            forall|i: int, j: int|
                0 <= i < j < r@.len() ==> (#[trigger] r@[i]).set_number < (
                #[trigger] r@[j]).set_number,
            forall|k: int|
                0 <= k < r@.len() ==> sets_of(self@, se_id as int, include_drops).contains(
                    #[trigger] r@[k],
                ),
    {
        broadcast use vstd::seq_lib::group_to_multiset_ensures;
        broadcast use vstd::multiset::group_multiset_axioms;

        let ghost pred = set_filter_pred(se_id as int, include_drops);
        let n = self.set_entries.len();
        let mut src: Vec<SetEntry> = Vec::new();
        let mut i: usize = 0;
        while i < n
            invariant
                n == self@.set_entries.len(),
                0 <= i <= n,
                pred == set_filter_pred(se_id as int, include_drops),
                src@ == self@.set_entries.take(i as int).filter(pred),
            decreases n - i,
        {
            let e = self.set_entries[i];
            proof {
                assert(self@.set_entries.take(i + 1) =~= self@.set_entries.take(i as int).push(e));
                self@.set_entries.take(i as int).lemma_filter_push(e, pred);
            }
            if e.session_exercise_id == se_id && (include_drops || !e.is_drop) {
                src.push(e);
            }
            i = i + 1;
        }
        proof {
            assert(self@.set_entries.take(n as int) =~= self@.set_entries);
        }
        let ghost all = sets_of(self@, se_id as int, include_drops);
        let mut out: Vec<SetEntry> = Vec::new();
        while src.len() > 0
            invariant
                out@.to_multiset().add(src@.to_multiset()) == all.to_multiset(),
                sets_sorted(out@),
                forall|a: int, b: int|
                    0 <= a < out@.len() && 0 <= b < src@.len() ==> (#[trigger] out@[a]).set_number
                        <= (#[trigger] src@[b]).set_number,
            decreases src.len(),
        {
            let mut m: usize = 0;
            let mut k: usize = 1;
            while k < src.len()
                invariant
                    src.len() > 0,
                    0 <= m < k <= src.len(),
                    forall|t: int| 0 <= t < k ==> src@[m as int].set_number <= (#[trigger] src@[t]).set_number,
                decreases src.len() - k,
            {
                if src[k].set_number < src[m].set_number {
                    m = k;
                }
                k = k + 1;
            }
            let ghost src0 = src@;
            let ghost out0 = out@;
            let x = src.remove(m);
            out.push(x);
            proof {
                vstd::seq_lib::to_multiset_remove(src0, m as int);
                vstd::seq_lib::to_multiset_build(out0, x);
                vstd::seq_lib::to_multiset_contains(src0, x);
                assert(src0[m as int] == x);
                assert(src0.contains(x));
                assert(src0.to_multiset().count(x) > 0);
                assert(out@.to_multiset().add(src@.to_multiset()) =~= all.to_multiset());
                assert forall|a: int, b: int|
                    0 <= a < out@.len() && 0 <= b < src@.len() implies (#[trigger] out@[a]).set_number
                    <= (#[trigger] src@[b]).set_number by {
                    assert(src@[b] == src0.remove(m as int)[b]);
                    if b < m {
                        assert(src@[b] == src0[b]);
                    } else {
                        assert(src@[b] == src0[b + 1]);
                    }
                }
            }
        }
        proof {
            assert(src@.to_multiset() =~= Seq::<SetEntry>::empty().to_multiset());
            assert(out@.to_multiset() =~= all.to_multiset());
            assert forall|k2: int| 0 <= k2 < out@.len() implies all.contains(#[trigger] out@[k2]) by {
                assert(out@.contains(out@[k2]));
                assert(out@.to_multiset().count(out@[k2]) > 0);
                assert(all.to_multiset().count(out@[k2]) > 0);
            }
            lemma_sorted_sets_strict(self@, se_id as int, include_drops, out@);
        }
        out
    }
}

} // verus!
