use proc_harvest::order::{record_le_exec, str_le};
use proc_harvest::record::ProcessHarvest;
use proc_harvest::sorting::ProcessSorting;

fn record(pid: i32, state: &str) -> ProcessHarvest {
    ProcessHarvest {
        pid,
        parent_pid: None,
        cpu_usage_centi_percent: 0,
        mem_usage_centi_percent: 0,
        mem_usage_bytes: 0,
        name: String::new(),
        command: String::new(),
        read_bytes_per_sec: 0,
        write_bytes_per_sec: 0,
        total_read_bytes: 0,
        total_write_bytes: 0,
        process_state: String::from(state),
        process_state_char: 'R',
        uid: None,
    }
}

#[test]
fn lexicographic_comparison_on_slices() {
    assert!(str_le("", ""));
    assert!(str_le("", "a"));
    assert!(!str_le("a", ""));
    assert!(str_le("alpha", "alphabet"));
    assert!(!str_le("alphabet", "alpha"));
    assert!(str_le("abc", "abd"));
    assert!(!str_le("abd", "abc"));
    assert!(str_le("same", "same"));
    // By code point, beyond ASCII too.
    assert!(str_le("a", "\u{00e9}"));
}

#[test]
fn state_key_compares_labels_then_pid() {
    let a = record(5, "Running");
    let b = record(9, "Sleeping");
    assert!(record_le_exec(&ProcessSorting::State, false, &a, &b));
    assert!(!record_le_exec(&ProcessSorting::State, false, &b, &a));
    // Same label: the lower pid comes first whatever the direction.
    let c = record(9, "Running");
    assert!(record_le_exec(&ProcessSorting::State, false, &a, &c));
    assert!(record_le_exec(&ProcessSorting::State, true, &a, &c));
    assert!(!record_le_exec(&ProcessSorting::State, true, &c, &a));
}

#[test]
fn comparator_is_total_on_samples() {
    let a = record(1, "A");
    let b = record(2, "B");
    for descending in [false, true] {
        let ab = record_le_exec(&ProcessSorting::State, descending, &a, &b);
        let ba = record_le_exec(&ProcessSorting::State, descending, &b, &a);
        assert!(ab || ba);
        assert!(record_le_exec(&ProcessSorting::State, descending, &a, &a));
    }
}
