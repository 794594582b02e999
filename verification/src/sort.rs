//! Sorting one cycle's records into the comparator's unique order.

use crate::engine::{pids_distinct, spec_build_record, spec_cycle_post, spec_prior};
use crate::order::{
    lemma_record_le_antisym, lemma_record_le_refl, lemma_record_le_total, lemma_record_le_trans,
    record_le_exec, record_le_fn,
};
use crate::record::{ProcessHarvest, ProcessObservation, SystemTotals};
use crate::store::RawCounters;
use crate::sorting::ProcessSorting;
use vstd::prelude::*;
use vstd::relations::sorted_by;
use vstd::seq_lib::group_to_multiset_ensures;
use vstd::seq_lib::to_multiset_insert;
use vstd::seq_lib::to_multiset_remove;

verus! {

/// No two records carry the same pid: true of any one cycle's output, where
/// pids are unique at the enumerated instant.
pub open spec fn harvest_pids_distinct(s: Seq<ProcessHarvest>) -> bool {
    forall|i: int, j: int| 0 <= i < j < s.len() ==> s[i].pid != s[j].pid
}

/// A cycle over distinct pids emits records with distinct pids: its output
/// is exactly the kind of sequence the sort orders deterministically.
pub proof fn lemma_cycle_records_pids_distinct(
    obs: Seq<ProcessObservation>,
    now_millis: u64,
    totals: SystemTotals,
    store0: Map<i32, RawCounters>,
    store1: Map<i32, RawCounters>,
    out: Seq<ProcessHarvest>,
)
    requires
        pids_distinct(obs),
        spec_cycle_post(obs, now_millis, totals, store0, store1, out),
    ensures
        harvest_pids_distinct(out),
{
    assert forall|i: int, j: int| 0 <= i < j < out.len() implies out[i].pid != out[j].pid by {
        assert(out[i] == spec_build_record(
            obs[i],
            spec_prior(store0, obs[i].pid),
            now_millis,
            totals,
        ));
        assert(out[j] == spec_build_record(
            obs[j],
            spec_prior(store0, obs[j].pid),
            now_millis,
            totals,
        ));
    }
}

fn swap_adjacent(v: &mut Vec<ProcessHarvest>, j: usize)
    requires
        1 <= j < old(v)@.len(),
    ensures
        final(v)@ == old(v)@.update(j - 1, old(v)@[j as int]).update(j as int, old(v)@[j - 1]),
        final(v)@.to_multiset() == old(v)@.to_multiset(),
{
    let ghost s0 = v@;
    let x = v.remove(j);
    v.insert(j - 1, x);
    proof {
        broadcast use vstd::multiset::group_multiset_axioms;
        broadcast use group_to_multiset_ensures;

        assert(v@ =~= s0.update(j - 1, s0[j as int]).update(j as int, s0[j - 1]));
        to_multiset_remove(s0, j as int);
        to_multiset_insert(s0.remove(j as int), j - 1, s0[j as int]);
        assert(s0.contains(s0[j as int]));
        assert(s0.to_multiset().remove(s0[j as int]).insert(s0[j as int]) =~= s0.to_multiset());
    }
}

/// Sort the cycle's records in place by the chosen key and direction: the
/// result is the same records (as a multiset), ordered by the comparator.
pub fn sort_records(records: &mut Vec<ProcessHarvest>, key: &ProcessSorting, descending: bool)
    ensures
        sorted_by(final(records)@, record_le_fn(*key, descending)),
        final(records)@.to_multiset() == old(records)@.to_multiset(),
        final(records)@.len() == old(records)@.len(),
{
    let ghost leq = record_le_fn(*key, descending);
    let n = records.len();
    proof {
        broadcast use group_to_multiset_ensures;

    }
    if n <= 1 {
        return ;
    }
    let mut i: usize = 1;
    while i < n
        invariant
            n == records@.len(),
            1 <= i <= n,
            leq == record_le_fn(*key, descending),
            sorted_by(records@.subrange(0, i as int), leq),
            records@.to_multiset() == old(records)@.to_multiset(),
        decreases n - i,
    {
        proof {
            assert forall|p: int, q: int|
                0 <= p < q <= i && q != i implies leq(records@[p], records@[q]) by {
                let sub = records@.subrange(0, i as int);
                assert(sub[p] == records@[p]);
                assert(sub[q] == records@[q]);
            }
        }
        let mut j: usize = i;
        let mut moving = true;
        while moving && j >= 1
            invariant
                n == records@.len(),
                0 <= j <= i < n,
                leq == record_le_fn(*key, descending),
                records@.to_multiset() == old(records)@.to_multiset(),
                forall|p: int, q: int|
                    0 <= p < q <= i && q != j ==> leq(records@[p], records@[q]),
                !moving ==> (j >= 1 && leq(records@[j - 1], records@[j as int])),
            decreases j + (if moving {
                1int
            } else {
                0int
            }),
        {
            if record_le_exec(key, descending, &records[j - 1], &records[j]) {
                moving = false;
            } else {
                proof {
                    lemma_record_le_total(*key, descending, records@[j - 1], records@[j as int]);
                }
                let ghost before = records@;
                swap_adjacent(records, j);
                proof {
                    assert forall|p: int, q: int|
                        0 <= p < q <= i && q != j - 1 implies leq(records@[p], records@[q]) by {
                        if q == j {
                            if p == j - 1 {
                                assert(records@[p] == before[j as int]);
                                assert(records@[q] == before[j - 1]);
                            } else {
                                assert(records@[p] == before[p]);
                                assert(records@[q] == before[j - 1]);
                            }
                        } else if q > j {
                            if p == j - 1 {
                                assert(records@[p] == before[j as int]);
                            } else if p == j {
                                assert(records@[p] == before[j - 1]);
                            }
                        }
                    }
                }
                j = j - 1;
            }
        }
        proof {
            assert forall|p: int, q: int| 0 <= p < q <= i implies leq(records@[p], records@[q]) by {
                if q == j {
                    if p < j - 1 {
                        lemma_record_le_trans(
                            *key,
                            descending,
                            records@[p],
                            records@[j - 1],
                            records@[j as int],
                        );
                    }
                }
            }
            assert(sorted_by(records@.subrange(0, i + 1), leq)) by {
                let sub = records@.subrange(0, i + 1);
                assert forall|p: int, q: int| 0 <= p < q < sub.len() implies leq(
                    sub[p],
                    sub[q],
                ) by {
                    assert(sub[p] == records@[p]);
                    assert(sub[q] == records@[q]);
                }
            }
        }
        i = i + 1;
    }
    proof {
        assert(records@.subrange(0, n as int) =~= records@);
    }
}

/// Sorting is deterministic: two sequences sorted by the same key and
/// direction that hold the same records are the same sequence, as long as
/// no pid occurs twice — the pid tie-break leaves exactly one order, so
/// repeated sorts of equal-key inputs produce the same relative order.
pub proof fn lemma_sorted_records_unique(
    x: Seq<ProcessHarvest>,
    y: Seq<ProcessHarvest>,
    key: ProcessSorting,
    descending: bool,
)
    requires
        sorted_by(x, record_le_fn(key, descending)),
        sorted_by(y, record_le_fn(key, descending)),
        x.to_multiset() == y.to_multiset(),
        harvest_pids_distinct(x),
    ensures
        x == y,
    decreases x.len(),
{
    broadcast use vstd::multiset::group_multiset_axioms;
    broadcast use group_to_multiset_ensures;

    let leq = record_le_fn(key, descending);
    assert(x.to_multiset().len() == x.len());
    assert(y.to_multiset().len() == y.len());
    if x.len() == 0 {
        assert(y.len() == 0);
        assert(x =~= y);
    } else {
        assert(x.contains(x[0]));
        assert(y.len() > 0);
        assert(y.contains(y[0]));
        assert(x.to_multiset().contains(y[0]));
        assert(x.contains(y[0]));
        assert(y.to_multiset().contains(x[0]));
        assert(y.contains(x[0]));
        let i = choose|i: int| 0 <= i < x.len() && x[i] == y[0];
        let k = choose|k: int| 0 <= k < y.len() && y[k] == x[0];
        assert(leq(x[0], y[0])) by {
            if i > 0 {
                assert(leq(x[0], x[i]));
            } else {
                lemma_record_le_refl(key, descending, x[0]);
            }
        }
        assert(leq(y[0], x[0])) by {
            if k > 0 {
                assert(leq(y[0], y[k]));
            } else {
                lemma_record_le_refl(key, descending, y[0]);
            }
        }
        lemma_record_le_antisym(key, descending, x[0], y[0]);
        assert(i == 0) by {
            if i > 0 {
                assert(x[0].pid != x[i].pid);
            }
        }
        assert(x[0] == y[0]);
        let xr = x.drop_first();
        let yr = y.drop_first();
        assert(xr =~= x.remove(0));
        assert(yr =~= y.remove(0));
        to_multiset_remove(x, 0);
        to_multiset_remove(y, 0);
        assert(xr.to_multiset() == yr.to_multiset());
        assert(sorted_by(xr, leq)) by {
            assert forall|p: int, q: int| 0 <= p < q < xr.len() implies leq(xr[p], xr[q]) by {
                assert(xr[p] == x[p + 1]);
                assert(xr[q] == x[q + 1]);
            }
        }
        assert(sorted_by(yr, leq)) by {
            assert forall|p: int, q: int| 0 <= p < q < yr.len() implies leq(yr[p], yr[q]) by {
                assert(yr[p] == y[p + 1]);
                assert(yr[q] == y[q + 1]);
            }
        }
        assert(harvest_pids_distinct(xr)) by {
            assert forall|p: int, q: int|
                0 <= p < q < xr.len() implies xr[p].pid != xr[q].pid by {
                assert(xr[p] == x[p + 1]);
                assert(xr[q] == x[q + 1]);
            }
        }
        lemma_sorted_records_unique(xr, yr, key, descending);
        assert(x =~= y) by {
            assert(x.len() == y.len());
            assert forall|m: int| 0 <= m < x.len() implies x[m] == y[m] by {
                if m > 0 {
                    assert(x[m] == xr[m - 1]);
                    assert(y[m] == yr[m - 1]);
                }
            }
        }
    }
}

} // verus!
