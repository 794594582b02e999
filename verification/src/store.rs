//! The sample store: the last raw counters seen for each live pid.

use vstd::prelude::*;
use vstd::seq_lib::*;
use vstd::set_lib::lemma_len_subset;

verus! {

/// The raw cumulative counters kept for one pid, with the timestamp of the
/// cycle that recorded them.
#[derive(Clone, Copy, PartialEq, Eq, Debug, Structural)]
pub struct RawCounters {
    /// Cumulative CPU time, in milliseconds.
    pub cpu_time_millis: u64,
    /// Cumulative bytes read.
    pub total_read_bytes: u64,
    /// Cumulative bytes written.
    pub total_write_bytes: u64,
    /// Resident memory at the sample, in bytes.
    pub mem_usage_bytes: u64,
    /// When the sample was taken, in milliseconds.
    pub timestamp_millis: u64,
}

spec fn has_pid(s: Seq<(i32, RawCounters)>, pid: i32) -> bool {
    exists|i: int| 0 <= i < s.len() && s[i].0 == pid
}

spec fn pid_index(s: Seq<(i32, RawCounters)>, pid: i32) -> int {
    choose|i: int| 0 <= i < s.len() && s[i].0 == pid
}

spec fn entries_as_map(s: Seq<(i32, RawCounters)>) -> Map<i32, RawCounters> {
    Map::new(|p: i32| has_pid(s, p), |p: i32| s[pid_index(s, p)].1)
}

spec fn entries_distinct(s: Seq<(i32, RawCounters)>) -> bool {
    forall|i: int, j: int| 0 <= i < j < s.len() ==> s[i].0 != s[j].0
}

/// Every entry of `kept` is one of the first `upto` entries of `s`.
spec fn all_from(kept: Seq<(i32, RawCounters)>, s: Seq<(i32, RawCounters)>, upto: int) -> bool {
    forall|k: int|
        #![trigger kept[k]]
        0 <= k < kept.len() ==> exists|j: int| 0 <= j < upto && kept[k] == #[trigger] s[j]
}

fn vec_contains_pid(pids: &Vec<i32>, pid: i32) -> (r: bool)
    ensures
        r == pids@.contains(pid),
{
    let mut i: usize = 0;
    while i < pids.len()
        invariant
            0 <= i <= pids@.len(),
            forall|j: int| 0 <= j < i ==> pids@[j] != pid,
        decreases pids@.len() - i,
    {
        if pids[i] == pid {
            return true;
        }
        i = i + 1;
    }
    false
}

/// Maps each pid to the raw counters recorded for it on the last cycle the
/// pid was observed. Entries are created on first observation, replaced
/// whole on every later cycle, and evicted once the pid is absent from the
/// current enumeration.
pub struct SampleStore {
    entries: Vec<(i32, RawCounters)>,
}

impl SampleStore {
    /// The store, seen as the map from pid to its last recorded counters.
    pub closed spec fn view(&self) -> Map<i32, RawCounters> {
        entries_as_map(self.entries@)
    }

    /// Well-formed: no pid has two entries.
    pub closed spec fn wf(&self) -> bool {
        entries_distinct(self.entries@)
    }

    /// An empty store: no pid was observed yet.
    pub fn new() -> (r: Self)
        ensures
            r.wf(),
            r@ == Map::<i32, RawCounters>::empty(),
    {
        let r = SampleStore { entries: Vec::new() };
        proof {
            assert(r@ =~= Map::<i32, RawCounters>::empty());
        }
        r
    }

    /// How many pids the store currently holds.
    pub fn len(&self) -> (r: usize)
        requires
            self.wf(),
        ensures
            r == self@.dom().len(),
    {
        proof {
            self.lemma_dom_card();
        }
        self.entries.len()
    }

    proof fn lemma_dom_card(&self)
        requires
            self.wf(),
        ensures
            self@.dom().len() == self.entries@.len(),
    {
        let s = self.entries@;
        let pids = s.map_values(|e: (i32, RawCounters)| e.0);
        assert(pids.no_duplicates());
        pids.unique_seq_to_set();
        assert(self@.dom() =~= pids.to_set()) by {
            assert forall|q: i32| self@.dom().contains(q) implies pids.to_set().contains(q) by {
                let k = choose|k: int| 0 <= k < s.len() && s[k].0 == q;
                assert(pids[k] == q);
                assert(pids.contains(q));
            }
            assert forall|q: i32| pids.to_set().contains(q) implies self@.dom().contains(q) by {
                let k = choose|k: int| 0 <= k < pids.len() && pids[k] == q;
                assert(s[k].0 == q);
                assert(has_pid(s, q));
            }
        }
    }

    /// The prior sample for `pid`, or `None` on first observation.
    pub fn lookup(&self, pid: i32) -> (r: Option<RawCounters>)
        requires
            self.wf(),
        ensures
            r == if self@.dom().contains(pid) {
                Some(self@[pid])
            } else {
                None::<RawCounters>
            },
    {
        let n = self.entries.len();
        let mut i: usize = 0;
        while i < n
            invariant
                n == self.entries@.len(),
                0 <= i <= n,
                self.wf(),
                forall|j: int| 0 <= j < i ==> self.entries@[j].0 != pid,
            decreases n - i,
        {
            if self.entries[i].0 == pid {
                proof {
                    assert(has_pid(self.entries@, pid));
                    let k = pid_index(self.entries@, pid);
                    assert(0 <= k < self.entries@.len() && self.entries@[k].0 == pid);
                    assert(k == i as int);
                }
                return Some(self.entries[i].1);
            }
            i = i + 1;
        }
        proof {
            assert(!has_pid(self.entries@, pid));
        }
        None
    }

    /// Record the counters for `pid`, replacing all its stored fields
    /// together: a created or refreshed entry, atomically.
    pub fn update(&mut self, pid: i32, counters: RawCounters)
        requires
            old(self).wf(),
        ensures
            final(self).wf(),
            final(self)@ == old(self)@.insert(pid, counters),
    {
        let ghost s0 = self.entries@;
        let n = self.entries.len();
        let mut i: usize = 0;
        while i < n
            invariant
                self.entries@ == s0,
                s0 == old(self).entries@,
                n == s0.len(),
                0 <= i <= n,
                entries_distinct(s0),
                forall|j: int| 0 <= j < i ==> s0[j].0 != pid,
            decreases n - i,
        {
            if self.entries[i].0 == pid {
                self.entries.remove(i);
                self.entries.insert(i, (pid, counters));
                proof {
                    assert(self.entries@ =~= s0.update(i as int, (pid, counters)));
                    lemma_update_map(s0, i as int, pid, counters);
                }
                return ;
            }
            i = i + 1;
        }
        self.entries.push((pid, counters));
        proof {
            lemma_push_map(s0, pid, counters);
        }
    }

    /// Keep only the pids of the current enumeration, dropping every entry
    /// whose pid is absent from it: the store never outgrows the count of
    /// live processes.
    pub fn retain(&mut self, pids: &Vec<i32>)
        requires
            old(self).wf(),
        ensures
            final(self).wf(),
            forall|q: i32|
                final(self)@.dom().contains(q) <==> (old(self)@.dom().contains(q)
                    && pids@.contains(q)),
            forall|q: i32| final(self)@.dom().contains(q) ==> final(self)@[q] == old(self)@[q],
            final(self)@.dom().len() <= pids@.len(),
    {
        let ghost s0 = self.entries@;
        let n = self.entries.len();
        let mut kept: Vec<(i32, RawCounters)> = Vec::new();
        let mut i: usize = 0;
        while i < n
            invariant
                self.entries@ == s0,
                n == s0.len(),
                0 <= i <= n,
                entries_distinct(s0),
                all_from(kept@, s0, i as int),
                forall|k: int| 0 <= k < kept@.len() ==> pids@.contains(#[trigger] kept@[k].0),
                forall|j: int|
                    0 <= j < i && pids@.contains(#[trigger] s0[j].0) ==> kept@.contains(s0[j]),
                entries_distinct(kept@),
            decreases n - i,
        {
            let ghost kept0 = kept@;
            let e = self.entries[i];
            if vec_contains_pid(pids, e.0) {
                proof {
                    assert forall|k: int| 0 <= k < kept0.len() implies kept0[k].0 != e.0 by {
                        let j = choose|j: int| 0 <= j < i && kept0[k] == s0[j];
                        assert(s0[j].0 != s0[i as int].0);
                    }
                }
                kept.push(e);
                proof {
                    assert(kept@[kept0.len() as int] == s0[i as int]);
                    assert(all_from(kept@, s0, i + 1)) by {
                        assert forall|k: int| #![trigger kept@[k]] 0 <= k < kept@.len() implies exists|j: int|
                            0 <= j < i + 1 && kept@[k] == #[trigger] s0[j] by {
                            if k < kept0.len() {
                                assert(kept@[k] == kept0[k]);
                                let j = choose|j: int| 0 <= j < i && kept0[k] == s0[j];
                                assert(kept@[k] == s0[j]);
                            } else {
                                assert(kept@[k] == s0[i as int]);
                            }
                        }
                    }
                    assert forall|j: int|
                        0 <= j < i + 1 && pids@.contains(#[trigger] s0[j].0) implies kept@.contains(
                        s0[j]) by {
                        if j < i {
                            let k = choose|k: int| 0 <= k < kept0.len() && kept0[k] == s0[j];
                            assert(kept@[k] == s0[j]);
                        } else {
                            assert(kept@[kept0.len() as int] == s0[j]);
                        }
                    }
                }
            } else {
                proof {
                    assert(all_from(kept@, s0, i + 1)) by {
                        assert forall|k: int| #![trigger kept@[k]] 0 <= k < kept@.len() implies exists|j: int|
                            0 <= j < i + 1 && kept@[k] == #[trigger] s0[j] by {
                            let j = choose|j: int| 0 <= j < i && kept@[k] == s0[j];
                            assert(kept@[k] == s0[j]);
                        }
                    }
                }
            }
            i = i + 1;
        }
        proof {
            assert(all_from(kept@, s0, s0.len() as int));
            lemma_retain_map(s0, kept@, pids@);
        }
        self.entries = kept;
    }
}

proof fn lemma_update_map(s: Seq<(i32, RawCounters)>, i: int, pid: i32, c: RawCounters)
    requires
        entries_distinct(s),
        0 <= i < s.len(),
        s[i].0 == pid,
    ensures
        entries_distinct(s.update(i, (pid, c))),
        entries_as_map(s.update(i, (pid, c))) == entries_as_map(s).insert(pid, c),
{
    let t = s.update(i, (pid, c));
    assert forall|q: i32| has_pid(t, q) implies has_pid(s, q) by {
        let k = choose|k: int| 0 <= k < t.len() && t[k].0 == q;
        assert(s[k].0 == q);
    }
    assert forall|q: i32| has_pid(s, q) implies has_pid(t, q) by {
        let k = choose|k: int| 0 <= k < s.len() && s[k].0 == q;
        assert(t[k].0 == q);
    }
    assert(entries_as_map(t) =~= entries_as_map(s).insert(pid, c)) by {
        assert forall|q: i32| #[trigger] has_pid(t, q) implies entries_as_map(t)[q]
            == entries_as_map(s).insert(pid, c)[q] by {
            let k = pid_index(t, q);
            assert(0 <= k < t.len() && t[k].0 == q);
            if q == pid {
                assert(k == i);
                assert(t[k].1 == c);
            } else {
                assert(k != i);
                let m = pid_index(s, q);
                assert(0 <= m < s.len() && s[m].0 == q);
                assert(m == k);
            }
        }
    }
}

proof fn lemma_push_map(s: Seq<(i32, RawCounters)>, pid: i32, c: RawCounters)
    requires
        entries_distinct(s),
        !has_pid(s, pid),
    ensures
        entries_distinct(s.push((pid, c))),
        entries_as_map(s.push((pid, c))) == entries_as_map(s).insert(pid, c),
{
    let t = s.push((pid, c));
    assert forall|i: int, j: int| 0 <= i < j < t.len() implies t[i].0 != t[j].0 by {
        if j == s.len() {
            assert(t[i] == s[i]);
            assert(s[i].0 != pid) by {
                if s[i].0 == pid {
                    assert(has_pid(s, pid));
                }
            }
        }
    }
    assert(entries_as_map(t) =~= entries_as_map(s).insert(pid, c)) by {
        assert forall|q: i32| #[trigger] has_pid(t, q) implies entries_as_map(t)[q]
            == entries_as_map(s).insert(pid, c)[q] by {
            let k = pid_index(t, q);
            assert(0 <= k < t.len() && t[k].0 == q);
            if q == pid {
                assert(k == s.len()) by {
                    if k < s.len() {
                        assert(s[k].0 == pid);
                        assert(has_pid(s, pid));
                    }
                }
            } else {
                assert(k < s.len());
                assert(has_pid(s, q));
                let m = pid_index(s, q);
                assert(0 <= m < s.len() && s[m].0 == q);
                assert(m == k);
            }
        }
        assert forall|q: i32| q != pid && has_pid(s, q) implies has_pid(t, q) by {
            let k = choose|k: int| 0 <= k < s.len() && s[k].0 == q;
            assert(t[k].0 == q);
        }
        assert(has_pid(t, pid)) by {
            assert(t[s.len() as int].0 == pid);
        }
        assert forall|q: i32| has_pid(t, q) && q != pid implies has_pid(s, q) by {
            let k = choose|k: int| 0 <= k < t.len() && t[k].0 == q;
            assert(k < s.len());
            assert(s[k].0 == q);
        }
    }
}

proof fn lemma_retain_map(s: Seq<(i32, RawCounters)>, kept: Seq<(i32, RawCounters)>, pids: Seq<i32>)
    requires
        entries_distinct(s),
        entries_distinct(kept),
        all_from(kept, s, s.len() as int),
        forall|k: int| 0 <= k < kept.len() ==> pids.contains(#[trigger] kept[k].0),
        forall|j: int| 0 <= j < s.len() && pids.contains(#[trigger] s[j].0) ==> kept.contains(s[j]),
    ensures
        forall|q: i32|
            entries_as_map(kept).dom().contains(q) <==> (entries_as_map(s).dom().contains(q)
                && pids.contains(q)),
        forall|q: i32|
            entries_as_map(kept).dom().contains(q) ==> entries_as_map(kept)[q]
                == entries_as_map(s)[q],
        entries_as_map(kept).dom().len() <= pids.len(),
{
    assert forall|q: i32| has_pid(kept, q) implies has_pid(s, q) && pids.contains(q) by {
        let k = choose|k: int| 0 <= k < kept.len() && kept[k].0 == q;
        let j = choose|j: int| 0 <= j < s.len() && kept[k] == s[j];
        assert(s[j].0 == q);
    }
    assert forall|q: i32| has_pid(s, q) && pids.contains(q) implies has_pid(kept, q) by {
        let j = choose|j: int| 0 <= j < s.len() && s[j].0 == q;
        assert(kept.contains(s[j]));
        let k = choose|k: int| 0 <= k < kept.len() && kept[k] == s[j];
        assert(kept[k].0 == q);
    }
    assert forall|q: i32| #[trigger] has_pid(kept, q) implies entries_as_map(kept)[q]
        == entries_as_map(s)[q] by {
        let k = pid_index(kept, q);
        assert(0 <= k < kept.len() && kept[k].0 == q);
        let j = choose|j: int| 0 <= j < s.len() && kept[k] == s[j];
        let m = pid_index(s, q);
        assert(0 <= m < s.len() && s[m].0 == q);
        assert(m == j);
    }
    let kp = kept.map_values(|e: (i32, RawCounters)| e.0);
    assert(kp.no_duplicates());
    kp.unique_seq_to_set();
    assert(entries_as_map(kept).dom() =~= kp.to_set()) by {
        assert forall|q: i32| has_pid(kept, q) implies kp.to_set().contains(q) by {
            let k = choose|k: int| 0 <= k < kept.len() && kept[k].0 == q;
            assert(kp[k] == q);
            assert(kp.contains(q));
        }
        assert forall|q: i32| kp.to_set().contains(q) implies has_pid(kept, q) by {
            let k = choose|k: int| 0 <= k < kp.len() && kp[k] == q;
            assert(kept[k].0 == q);
        }
    }
    assert(kp.to_set().subset_of(pids.to_set())) by {
        assert forall|q: i32| kp.to_set().contains(q) implies pids.to_set().contains(q) by {
            let k = choose|k: int| 0 <= k < kp.len() && kp[k] == q;
            assert(pids.contains(kept[k].0));
        }
    }
    pids.lemma_cardinality_of_set();
    lemma_len_subset(kp.to_set(), pids.to_set());
}

} // verus!
