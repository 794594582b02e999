use proc_harvest::engine::{harvest_cycle, run_cycle};
use proc_harvest::record::{ProcessObservation, SystemTotals};
use proc_harvest::store::SampleStore;

fn totals_one_core() -> SystemTotals {
    SystemTotals {
        logical_cores: 1,
        total_memory_bytes: 1000,
        cpu_counter_is_per_core_cumulative: true,
    }
}

fn observation(pid: i32, cpu_millis: u64, read: u64, write: u64, mem: u64) -> ProcessObservation {
    ProcessObservation {
        pid,
        parent_pid: Some(1),
        name: String::from("proc"),
        command: String::from("/bin/proc"),
        mem_usage_bytes: mem,
        cpu_time_millis: cpu_millis,
        total_read_bytes: read,
        total_write_bytes: write,
        process_state: String::from("Running"),
        process_state_char: 'R',
        uid: Some(0),
    }
}

#[test]
fn first_observation_has_zero_rates() {
    let mut store = SampleStore::new();
    let totals = totals_one_core();
    let obs = vec![observation(100, 2000, 1000, 400, 100)];
    let out = harvest_cycle(&obs, 1000, &totals, &mut store);
    assert_eq!(out.len(), 1);
    assert_eq!(out[0].pid, 100);
    assert_eq!(out[0].cpu_usage_centi_percent, 0);
    assert_eq!(out[0].read_bytes_per_sec, 0);
    assert_eq!(out[0].write_bytes_per_sec, 0);
    // Memory is an instantaneous ratio: 100 of 1000 bytes is 10%.
    assert_eq!(out[0].mem_usage_centi_percent, 1000);
    assert_eq!(out[0].mem_usage_bytes, 100);
    assert_eq!(out[0].total_read_bytes, 1000);
    assert_eq!(out[0].name.as_str(), "proc");
    assert_eq!(out[0].process_state_char, 'R');
    assert_eq!(out[0].uid, Some(0));
}

#[test]
fn second_cycle_reports_deltas_as_rates() {
    let mut store = SampleStore::new();
    let totals = totals_one_core();
    // At t0: cumulative CPU 2.0 s, 1000 bytes read.
    let out0 = harvest_cycle(&vec![observation(100, 2000, 1000, 0, 100)], 1000, &totals, &mut store);
    assert_eq!(out0[0].cpu_usage_centi_percent, 0);
    // One second later: CPU 2.5 s, 1500 bytes read.
    let out1 = harvest_cycle(&vec![observation(100, 2500, 1500, 0, 100)], 2000, &totals, &mut store);
    // 0.5 s of CPU over 1 s on one core: 50%.
    assert_eq!(out1[0].cpu_usage_centi_percent, 5000);
    // 500 bytes over 1 s.
    assert_eq!(out1[0].read_bytes_per_sec, 500);
    assert_eq!(out1[0].write_bytes_per_sec, 0);
}

#[test]
fn cpu_rate_is_normalized_by_core_count() {
    let mut store = SampleStore::new();
    let totals = SystemTotals {
        logical_cores: 2,
        total_memory_bytes: 1000,
        cpu_counter_is_per_core_cumulative: true,
    };
    harvest_cycle(&vec![observation(100, 2000, 0, 0, 0)], 1000, &totals, &mut store);
    let out = harvest_cycle(&vec![observation(100, 2500, 0, 0, 0)], 2000, &totals, &mut store);
    // Half a second of CPU over one second, spread over two cores: 25%.
    assert_eq!(out[0].cpu_usage_centi_percent, 2500);
}

#[test]
fn decreasing_counter_between_cycles_resets_baseline() {
    let mut store = SampleStore::new();
    let totals = totals_one_core();
    harvest_cycle(&vec![observation(100, 2000, 1000, 500, 100)], 1000, &totals, &mut store);
    // The pid persists but its counters went backwards: a reused pid or a
    // counter reset. No negative rate; the baseline starts over.
    let out = harvest_cycle(&vec![observation(100, 500, 200, 100, 100)], 2000, &totals, &mut store);
    assert_eq!(out[0].cpu_usage_centi_percent, 0);
    assert_eq!(out[0].read_bytes_per_sec, 0);
    assert_eq!(out[0].write_bytes_per_sec, 0);
    // The store now holds the new, lower counters: growth from here on
    // yields rates again.
    let out2 = harvest_cycle(&vec![observation(100, 700, 400, 100, 100)], 3000, &totals, &mut store);
    assert_eq!(out2[0].cpu_usage_centi_percent, 2000);
    assert_eq!(out2[0].read_bytes_per_sec, 200);
}

#[test]
fn absent_pid_is_evicted_and_returns_as_new() {
    let mut store = SampleStore::new();
    let totals = totals_one_core();
    // Present at t0.
    harvest_cycle(&vec![observation(100, 2000, 1000, 0, 100)], 1000, &totals, &mut store);
    assert_eq!(store.len(), 1);
    // Absent at t1: evicted.
    let out1 = harvest_cycle(&vec![], 2000, &totals, &mut store);
    assert_eq!(out1.len(), 0);
    assert_eq!(store.len(), 0);
    // Reappears at t2 with counters lower than once stored: a new process
    // with a reset baseline, not a negative rate.
    let out2 = harvest_cycle(&vec![observation(100, 50, 10, 0, 100)], 3000, &totals, &mut store);
    assert_eq!(out2[0].cpu_usage_centi_percent, 0);
    assert_eq!(out2[0].read_bytes_per_sec, 0);
    assert_eq!(store.len(), 1);
}

#[test]
fn store_size_is_bounded_by_enumeration() {
    let mut store = SampleStore::new();
    let totals = totals_one_core();
    let many: Vec<_> = (0..5).map(|p| observation(p, 100, 0, 0, 0)).collect();
    harvest_cycle(&many, 1000, &totals, &mut store);
    assert_eq!(store.len(), 5);
    // A smaller enumeration shrinks the store to its pid count.
    let few = vec![observation(1, 200, 0, 0, 0), observation(3, 200, 0, 0, 0)];
    harvest_cycle(&few, 2000, &totals, &mut store);
    assert_eq!(store.len(), 2);
    assert!(store.lookup(1).is_some());
    assert!(store.lookup(0).is_none());
}

#[test]
fn failed_enumeration_leaves_store_untouched() {
    let mut store = SampleStore::new();
    let totals = totals_one_core();
    harvest_cycle(&vec![observation(100, 2000, 1000, 0, 100)], 1000, &totals, &mut store);
    let r: Result<_, &str> = run_cycle(Err("cannot list processes"), 2000, &totals, &mut store);
    assert_eq!(r.unwrap_err(), "cannot list processes");
    // The store still holds the pid, so the next cycle diffs cleanly.
    assert_eq!(store.len(), 1);
    let out = run_cycle::<&str>(
        Ok(vec![observation(100, 2500, 1500, 0, 100)]),
        2000,
        &totals,
        &mut store,
    )
    .unwrap();
    assert_eq!(out[0].cpu_usage_centi_percent, 5000);
}

#[test]
fn near_simultaneous_cycles_do_not_divide_by_zero() {
    let mut store = SampleStore::new();
    let totals = totals_one_core();
    harvest_cycle(&vec![observation(100, 2000, 1000, 0, 100)], 1000, &totals, &mut store);
    // Second cycle at the very same timestamp: insufficient interval.
    let out = harvest_cycle(&vec![observation(100, 9000, 9000, 9000, 100)], 1000, &totals, &mut store);
    assert_eq!(out[0].cpu_usage_centi_percent, 0);
    assert_eq!(out[0].read_bytes_per_sec, 0);
}
