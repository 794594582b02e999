use proc_harvest::record::ProcessHarvest;
use proc_harvest::sort::sort_records;
use proc_harvest::sorting::ProcessSorting;

fn record(pid: i32, cpu: u64, name: &str, uid: Option<u32>) -> ProcessHarvest {
    ProcessHarvest {
        pid,
        parent_pid: None,
        cpu_usage_centi_percent: cpu,
        mem_usage_centi_percent: 0,
        mem_usage_bytes: 0,
        name: String::from(name),
        command: String::from(name),
        read_bytes_per_sec: 0,
        write_bytes_per_sec: 0,
        total_read_bytes: 0,
        total_write_bytes: 0,
        process_state: String::from("Running"),
        process_state_char: 'R',
        uid,
    }
}

fn pids(v: &Vec<ProcessHarvest>) -> Vec<i32> {
    v.iter().map(|r| r.pid).collect()
}

#[test]
fn sort_by_cpu_ascending() {
    let mut v = vec![
        record(1, 300, "a", None),
        record(2, 100, "b", None),
        record(3, 200, "c", None),
    ];
    sort_records(&mut v, &ProcessSorting::CpuPercent, false);
    assert_eq!(pids(&v), vec![2, 3, 1]);
}

#[test]
fn sort_by_cpu_descending() {
    let mut v = vec![
        record(1, 300, "a", None),
        record(2, 100, "b", None),
        record(3, 200, "c", None),
    ];
    sort_records(&mut v, &ProcessSorting::CpuPercent, true);
    assert_eq!(pids(&v), vec![1, 3, 2]);
}

#[test]
fn equal_keys_tie_break_by_ascending_pid() {
    let mut v = vec![
        record(9, 100, "x", None),
        record(3, 100, "y", None),
        record(7, 100, "z", None),
    ];
    sort_records(&mut v, &ProcessSorting::CpuPercent, false);
    assert_eq!(pids(&v), vec![3, 7, 9]);
    // The pid tie-break stays ascending even when the key is descending.
    sort_records(&mut v, &ProcessSorting::CpuPercent, true);
    assert_eq!(pids(&v), vec![3, 7, 9]);
}

#[test]
fn repeated_sorts_keep_the_same_order() {
    let mut v = vec![
        record(5, 100, "n", None),
        record(2, 100, "n", None),
        record(8, 200, "n", None),
    ];
    sort_records(&mut v, &ProcessSorting::CpuPercent, false);
    let once = pids(&v);
    sort_records(&mut v, &ProcessSorting::CpuPercent, false);
    assert_eq!(pids(&v), once);
}

#[test]
fn sort_by_name_is_lexicographic() {
    let mut v = vec![
        record(1, 0, "beta", None),
        record(2, 0, "alpha", None),
        record(3, 0, "alphabet", None),
        record(4, 0, "", None),
    ];
    sort_records(&mut v, &ProcessSorting::ProcessName, false);
    assert_eq!(pids(&v), vec![4, 2, 3, 1]);
}

#[test]
fn sort_by_user_puts_absent_uid_first() {
    let mut v = vec![
        record(1, 0, "a", Some(1000)),
        record(2, 0, "b", None),
        record(3, 0, "c", Some(0)),
    ];
    sort_records(&mut v, &ProcessSorting::User, false);
    assert_eq!(pids(&v), vec![2, 3, 1]);
}

#[test]
fn sort_by_pid_key() {
    let mut v = vec![
        record(30, 0, "a", None),
        record(10, 0, "b", None),
        record(20, 0, "c", None),
    ];
    sort_records(&mut v, &ProcessSorting::Pid, true);
    assert_eq!(pids(&v), vec![30, 20, 10]);
}

#[test]
fn sort_under_count_key_orders_by_pid() {
    // Single records carry no grouping count: the Count key ranks them all
    // equal and the pid tie-break decides.
    let mut v = vec![
        record(4, 500, "d", None),
        record(1, 100, "a", None),
        record(3, 300, "c", None),
    ];
    sort_records(&mut v, &ProcessSorting::Count, true);
    assert_eq!(pids(&v), vec![1, 3, 4]);
}

#[test]
fn sort_empty_and_single() {
    let mut empty: Vec<ProcessHarvest> = vec![];
    sort_records(&mut empty, &ProcessSorting::CpuPercent, false);
    assert_eq!(empty.len(), 0);
    let mut single = vec![record(1, 0, "a", None)];
    sort_records(&mut single, &ProcessSorting::Mem, true);
    assert_eq!(pids(&single), vec![1]);
}
