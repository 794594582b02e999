//! The delta engine: one harvesting cycle from raw observations to records.
//!
//! A cycle takes the enumerator's current snapshot, consults the sample
//! store for each pid's previous counters, emits one fresh record per
//! observed process, and leaves the store holding exactly the observed
//! pids with their current counters. A failed enumeration leaves the store
//! untouched, so the next periodic cycle retries cleanly.

use crate::rates::{
    cpu_centi_percent, mem_centi_percent, rate_per_sec, spec_cpu_centi_percent,
    spec_mem_centi_percent, spec_rate_per_sec,
};
use crate::record::{ProcessHarvest, ProcessObservation, SystemTotals};
use crate::store::{RawCounters, SampleStore};
use vstd::prelude::*;

verus! {

/// The counters of one observation, stamped with the cycle's time: what the
/// sample store keeps for the next cycle's deltas.
pub open spec fn spec_counters_of(obs: ProcessObservation, now_millis: u64) -> RawCounters {
    RawCounters {
        cpu_time_millis: obs.cpu_time_millis,
        total_read_bytes: obs.total_read_bytes,
        total_write_bytes: obs.total_write_bytes,
        mem_usage_bytes: obs.mem_usage_bytes,
        timestamp_millis: now_millis,
    }
}

/// Time since the stored sample; a clock that went backwards counts as no
/// elapsed time, which the rate functions treat as an insufficient interval.
pub open spec fn spec_elapsed_millis(prev: RawCounters, now_millis: u64) -> u64 {
    if now_millis >= prev.timestamp_millis {
        (now_millis - prev.timestamp_millis) as u64
    } else {
        0u64
    }
}

/// The prior sample the delta engine consults: the stored counters when the
/// pid is known, else "first observation".
pub open spec fn spec_prior(store: Map<i32, RawCounters>, pid: i32) -> Option<RawCounters> {
    if store.dom().contains(pid) {
        Some(store[pid])
    } else {
        None
    }
}

/// The whole record one observation yields, given its prior sample: identity
/// and cumulative fields are carried over, derived fields come from the
/// counter deltas, and a first observation has every derived rate at zero.
pub open spec fn spec_build_record(
    obs: ProcessObservation,
    prev: Option<RawCounters>,
    now_millis: u64,
    totals: SystemTotals,
) -> ProcessHarvest {
    ProcessHarvest {
        pid: obs.pid,
        parent_pid: obs.parent_pid,
        cpu_usage_centi_percent: match prev {
            Option::None => 0u64,
            Option::Some(p) => spec_cpu_centi_percent(
                p.cpu_time_millis,
                obs.cpu_time_millis,
                spec_elapsed_millis(p, now_millis),
                totals.spec_cpu_divisor(),
            ) as u64,
        },
        mem_usage_centi_percent: spec_mem_centi_percent(
            obs.mem_usage_bytes,
            totals.total_memory_bytes,
        ) as u64,
        mem_usage_bytes: obs.mem_usage_bytes,
        name: obs.name,
        command: obs.command,
        read_bytes_per_sec: match prev {
            Option::None => 0u64,
            Option::Some(p) => spec_rate_per_sec(
                p.total_read_bytes,
                obs.total_read_bytes,
                spec_elapsed_millis(p, now_millis),
            ) as u64,
        },
        write_bytes_per_sec: match prev {
            Option::None => 0u64,
            Option::Some(p) => spec_rate_per_sec(
                p.total_write_bytes,
                obs.total_write_bytes,
                spec_elapsed_millis(p, now_millis),
            ) as u64,
        },
        total_read_bytes: obs.total_read_bytes,
        total_write_bytes: obs.total_write_bytes,
        process_state: obs.process_state,
        process_state_char: obs.process_state_char,
        uid: obs.uid,
    }
}

/// No pid occurs twice: what the platform guarantees of one instant's
/// enumeration.
pub open spec fn pids_distinct(s: Seq<ProcessObservation>) -> bool {
    forall|i: int, j: int| 0 <= i < j < s.len() ==> s[i].pid != s[j].pid
}

/// Some of the first `upto` observations carries `q`.
pub open spec fn obs_prefix_has(s: Seq<ProcessObservation>, upto: int, q: i32) -> bool {
    exists|j: int| 0 <= j < upto && s[j].pid == q
}

/// Some observation of the enumeration carries `q`.
pub open spec fn obs_has_pid(s: Seq<ProcessObservation>, q: i32) -> bool {
    obs_prefix_has(s, s.len() as int, q)
}

/// Everything one successful cycle promises, relating the observations, the
/// store before and after, and the emitted records.
pub open spec fn spec_cycle_post(
    obs: Seq<ProcessObservation>,
    now_millis: u64,
    totals: SystemTotals,
    store0: Map<i32, RawCounters>,
    store1: Map<i32, RawCounters>,
    out: Seq<ProcessHarvest>,
) -> bool {
    &&& out.len() == obs.len()
    &&& forall|i: int|
        0 <= i < obs.len() ==> out[i] == spec_build_record(
            obs[i],
            spec_prior(store0, obs[i].pid),
            now_millis,
            totals,
        )
    &&& forall|q: i32| store1.dom().contains(q) <==> obs_has_pid(obs, q)
    &&& forall|i: int|
        0 <= i < obs.len() ==> store1[obs[i].pid] == spec_counters_of(obs[i], now_millis)
    &&& store1.dom().len() <= obs.len()
    &&& forall|i: int|
        0 <= i < obs.len() && !store0.dom().contains(obs[i].pid) ==> (out[i].cpu_usage_centi_percent
            == 0 && out[i].read_bytes_per_sec == 0 && out[i].write_bytes_per_sec == 0)
}

/// Executable twin of [`spec_counters_of`].
pub fn counters_of(obs: &ProcessObservation, now_millis: u64) -> (r: RawCounters)
    ensures
        r == spec_counters_of(*obs, now_millis),
{
    RawCounters {
        cpu_time_millis: obs.cpu_time_millis,
        total_read_bytes: obs.total_read_bytes,
        total_write_bytes: obs.total_write_bytes,
        mem_usage_bytes: obs.mem_usage_bytes,
        timestamp_millis: now_millis,
    }
}

/// One observation's record, from its prior sample, the cycle's time and
/// the system totals.
pub fn build_record(
    obs: &ProcessObservation,
    prev: Option<RawCounters>,
    now_millis: u64,
    totals: &SystemTotals,
) -> (r: ProcessHarvest)
    requires
        totals.valid(),
    ensures
        r == spec_build_record(*obs, prev, now_millis, *totals),
{
    let divisor = totals.cpu_divisor();
    let (cpu, rps, wps) = match prev {
        Option::None => (0u64, 0u64, 0u64),
        Option::Some(p) => {
            let elapsed = if now_millis >= p.timestamp_millis {
                now_millis - p.timestamp_millis
            } else {
                0
            };
            (
                cpu_centi_percent(p.cpu_time_millis, obs.cpu_time_millis, elapsed, divisor),
                rate_per_sec(p.total_read_bytes, obs.total_read_bytes, elapsed),
                rate_per_sec(p.total_write_bytes, obs.total_write_bytes, elapsed),
            )
        },
    };
    ProcessHarvest {
        pid: obs.pid,
        parent_pid: obs.parent_pid,
        cpu_usage_centi_percent: cpu,
        mem_usage_centi_percent: mem_centi_percent(obs.mem_usage_bytes, totals.total_memory_bytes),
        mem_usage_bytes: obs.mem_usage_bytes,
        name: obs.name.clone(),
        command: obs.command.clone(),
        read_bytes_per_sec: rps,
        write_bytes_per_sec: wps,
        total_read_bytes: obs.total_read_bytes,
        total_write_bytes: obs.total_write_bytes,
        process_state: obs.process_state.clone(),
        process_state_char: obs.process_state_char,
        uid: obs.uid,
    }
}

proof fn lemma_prefix_has_step(s: Seq<ProcessObservation>, i: int, q: i32)
    requires
        0 <= i < s.len(),
    ensures
        obs_prefix_has(s, i + 1, q) <==> (obs_prefix_has(s, i, q) || s[i].pid == q),
{
    if obs_prefix_has(s, i + 1, q) {
        let j = choose|j: int| 0 <= j < i + 1 && s[j].pid == q;
        if j < i {
            assert(obs_prefix_has(s, i, q));
        }
    }
    if obs_prefix_has(s, i, q) {
        let j = choose|j: int| 0 <= j < i && s[j].pid == q;
        assert(0 <= j < i + 1 && s[j].pid == q);
    }
    if s[i].pid == q {
        assert(0 <= i < i + 1 && s[i].pid == q);
    }
}

/// One full harvesting cycle over a successful enumeration: emit one record
/// per observation, refresh the store for every observed pid, and evict the
/// pids the enumeration no longer lists.
pub fn harvest_cycle(
    observations: &Vec<ProcessObservation>,
    now_millis: u64,
    totals: &SystemTotals,
    store: &mut SampleStore,
) -> (out: Vec<ProcessHarvest>)
    requires
        old(store).wf(),
        totals.valid(),
        pids_distinct(observations@),
    ensures
        final(store).wf(),
        spec_cycle_post(
            observations@,
            now_millis,
            *totals,
            old(store)@,
            final(store)@,
            out@,
        ),
{
    let n = observations.len();
    let mut out: Vec<ProcessHarvest> = Vec::new();
    let mut pids: Vec<i32> = Vec::new();
    let mut i: usize = 0;
    while i < n
        invariant
            n == observations@.len(),
            0 <= i <= n,
            store.wf(),
            totals.valid(),
            pids_distinct(observations@),
            out@.len() == i,
            pids@.len() == i,
            forall|j: int| 0 <= j < i ==> pids@[j] == observations@[j].pid,
            forall|j: int|
                0 <= j < i ==> out@[j] == spec_build_record(
                    observations@[j],
                    spec_prior(old(store)@, observations@[j].pid),
                    now_millis,
                    *totals,
                ),
            forall|q: i32|
                store@.dom().contains(q) <==> (old(store)@.dom().contains(q) || obs_prefix_has(
                    observations@,
                    i as int,
                    q,
                )),
            forall|j: int|
                0 <= j < i ==> store@[observations@[j].pid] == spec_counters_of(
                    observations@[j],
                    now_millis,
                ),
            forall|q: i32|
                store@.dom().contains(q) && !obs_prefix_has(observations@, i as int, q)
                    ==> store@[q] == old(store)@[q],
        decreases n - i,
    {
        let obs = &observations[i];
        proof {
            if obs_prefix_has(observations@, i as int, obs.pid) {
                let j = choose|j: int| 0 <= j < i && observations@[j].pid == obs.pid;
                assert(observations@[j].pid != observations@[i as int].pid);
            }
        }
        let prev = store.lookup(obs.pid);
        proof {
            assert(prev == spec_prior(old(store)@, obs.pid));
        }
        let rec = build_record(obs, prev, now_millis, totals);
        out.push(rec);
        pids.push(obs.pid);
        store.update(obs.pid, counters_of(obs, now_millis));
        proof {
            assert forall|q: i32|
                store@.dom().contains(q) <==> (old(store)@.dom().contains(q) || obs_prefix_has(
                    observations@,
                    i + 1,
                    q,
                )) by {
                lemma_prefix_has_step(observations@, i as int, q);
            }
            assert forall|q: i32|
                store@.dom().contains(q) && !obs_prefix_has(observations@, i + 1, q)
                    implies store@[q] == old(store)@[q] by {
                lemma_prefix_has_step(observations@, i as int, q);
            }
        }
        i = i + 1;
    }
    let ghost mid = store@;
    store.retain(&pids);
    proof {
        assert forall|q: i32| store@.dom().contains(q) <==> obs_has_pid(
            observations@,
            q,
        ) by {
            if pids@.contains(q) {
                let j = choose|j: int| 0 <= j < pids@.len() && pids@[j] == q;
                assert(observations@[j].pid == q);
                assert(obs_prefix_has(observations@, n as int, q));
                assert(mid.dom().contains(q));
            }
            if obs_prefix_has(observations@, n as int, q) {
                let j = choose|j: int| 0 <= j < n && observations@[j].pid == q;
                assert(pids@[j] == q);
                assert(pids@.contains(q));
            }
        }
        assert forall|i2: int|
            0 <= i2 < observations@.len() implies store@[observations@[i2].pid]
            == spec_counters_of(observations@[i2], now_millis) by {
            let q = observations@[i2].pid;
            assert(pids@[i2] == q);
            assert(pids@.contains(q));
            assert(obs_prefix_has(observations@, n as int, q)) by {
                assert(0 <= i2 < n && observations@[i2].pid == q);
            }
            assert(store@.dom().contains(q));
            assert(store@[q] == mid[q]);
        }
        assert(store@.dom().len() <= pids@.len());
    }
    out
}

/// One scheduled cycle over what the enumerator returned. A failed
/// enumeration is fatal for the cycle alone: the error is handed back and
/// the store is left untouched, so the next periodic cycle retries cleanly.
pub fn run_cycle<E>(
    enumeration: Result<Vec<ProcessObservation>, E>,
    now_millis: u64,
    totals: &SystemTotals,
    store: &mut SampleStore,
) -> (r: Result<Vec<ProcessHarvest>, E>)
    requires
        old(store).wf(),
        totals.valid(),
        match enumeration {
            Result::Ok(obs) => pids_distinct(obs@),
            Result::Err(_) => true,
        },
    ensures
        final(store).wf(),
        match enumeration {
            Result::Ok(obs) => match r {
                Result::Ok(out) => spec_cycle_post(
                    obs@,
                    now_millis,
                    *totals,
                    old(store)@,
                    final(store)@,
                    out@,
                ),
                Result::Err(_) => false,
            },
            Result::Err(e) => r == Result::<Vec<ProcessHarvest>, E>::Err(e) && final(store)@
                == old(store)@,
        },
{
    match enumeration {
        Result::Ok(observations) => Result::Ok(
            harvest_cycle(&observations, now_millis, totals, store),
        ),
        Result::Err(e) => Result::Err(e),
    }
}

} // verus!
