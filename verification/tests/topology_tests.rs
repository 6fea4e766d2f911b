use simplebench::topology::{
    detect_physical_cores, get_usable_cores, parse_cpu_name, select_cores, CpuEntry,
};

fn entry(name: &str, siblings: Option<&str>) -> CpuEntry {
    CpuEntry { name: name.to_string(), siblings: siblings.map(|s| s.to_string()) }
}

/// Eight logical CPUs on four physical cores, with the other entries that
/// the directory of CPUs holds.
fn eight_threads() -> Vec<CpuEntry> {
    vec![
        entry("cpu7", Some("3,7\n")),
        entry("cpufreq", None),
        entry("cpu0", Some("0,4\n")),
        entry("cpu5", Some("1,5\n")),
        entry("cpu1", Some("1,5\n")),
        entry("cpuidle", None),
        entry("cpu2", Some("2,6\n")),
        entry("cpu6", Some("2,6\n")),
        entry("cpu3", Some("3,7\n")),
        entry("cpu4", Some("0,4\n")),
        entry("online", Some("0-7\n")),
    ]
}

#[test]
fn test_get_usable_cores_not_empty() {
    let cores = get_usable_cores(Some(detect_physical_cores(&eight_threads())));
    assert!(!cores.is_empty(), "Should return at least one core");
    let fallback = get_usable_cores(None);
    assert!(!fallback.is_empty(), "Should return at least one core");
    let nothing_found = get_usable_cores(Some(detect_physical_cores(&Vec::new())));
    assert!(!nothing_found.is_empty(), "Should return at least one core");
}

#[test]
fn test_get_usable_cores_excludes_zero() {
    let cores = get_usable_cores(Some(detect_physical_cores(&eight_threads())));
    assert!(
        !cores.contains(&0),
        "Should not include core 0 (reserved for system)"
    );
    assert!(!get_usable_cores(None).contains(&0));
}

#[test]
fn test_get_usable_cores_sorted() {
    let cores = get_usable_cores(Some(detect_physical_cores(&eight_threads())));
    let mut sorted = cores.clone();
    sorted.sort();
    assert_eq!(cores, sorted, "Cores should be in sorted order");
}

#[test]
fn one_core_for_each_group_of_siblings() {
    let cores = detect_physical_cores(&eight_threads());
    assert_eq!(cores, vec![1, 2, 3, 4]);
}

#[test]
fn cores_without_hyperthreading() {
    let entries = vec![
        entry("cpu3", Some("3")),
        entry("cpu2", Some("2")),
        entry("cpu1", Some("1")),
        entry("cpu0", Some("0")),
    ];
    assert_eq!(detect_physical_cores(&entries), vec![1, 2, 3]);
}

#[test]
fn entries_that_are_no_cpu_or_cannot_be_read_are_left_out() {
    let entries = vec![
        entry("cpu1", None),
        entry("cpu2", Some(" 2-3 ")),
        entry("cpu3", Some("2-3")),
        entry("cpux", Some("9")),
        entry("cpu", Some("9")),
        entry("cpu+4", Some("4")),
        entry("gpu5", Some("5")),
    ];
    assert_eq!(detect_physical_cores(&entries), vec![2]);
}

#[test]
fn fallback_is_core_one() {
    assert_eq!(get_usable_cores(None), vec![1]);
    assert_eq!(get_usable_cores(Some(vec![])), vec![1]);
    assert_eq!(get_usable_cores(Some(vec![2, 5])), vec![2, 5]);
}

#[test]
fn cpu_names() {
    assert_eq!(parse_cpu_name("cpu0"), Some(0));
    assert_eq!(parse_cpu_name("cpu17"), Some(17));
    assert_eq!(parse_cpu_name("cpu007"), Some(7));
    assert_eq!(parse_cpu_name("cpu"), None);
    assert_eq!(parse_cpu_name("cpufreq"), None);
    assert_eq!(parse_cpu_name("cpu+1"), None);
    assert_eq!(parse_cpu_name("cpu-1"), None);
    assert_eq!(parse_cpu_name("cp1"), None);
    assert_eq!(parse_cpu_name(""), None);
    assert_eq!(parse_cpu_name("cpu99999999999999999999999999"), None);
}

#[test]
fn cores_of_a_parallel_run() {
    assert_eq!(select_cores(vec![1, 2, 3, 4], None), vec![1, 2, 3, 4]);
    assert_eq!(select_cores(vec![1, 2, 3, 4], Some(2)), vec![1, 2]);
    assert_eq!(select_cores(vec![1, 2, 3, 4], Some(4)), vec![1, 2, 3, 4]);
    assert_eq!(select_cores(vec![1, 2, 3, 4], Some(9)), vec![1, 2, 3, 4]);
    assert_eq!(select_cores(vec![1, 2, 3, 4], Some(0)), vec![1]);
    assert_eq!(select_cores(vec![], None), vec![1]);
}
