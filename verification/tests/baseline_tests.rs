use simplebench::baseline::{BaselineData, BaselineManager, RecentWindow, StoreEntry};
use simplebench::clock::{civil_time_at, timestamp_at, utc_now, CivilTime};
use simplebench::machine::{format_mac_address, hash_mac_address, id_of_digest, machine_id_for};
use simplebench::stamp::{file_stamp, unused_run_name};
use simplebench::results::BenchResult;
use simplebench::statistics::Percentiles;

const MS: u128 = 1_000_000;

fn create_test_result(name: &str) -> BenchResult {
    BenchResult {
        name: name.to_string(),
        module: "test_module".to_string(),
        iterations: 100,
        samples: 10,
        percentiles: Percentiles { p50: 5 * MS, p90: 10 * MS, p99: 15 * MS, mean: 8 * MS },
        all_timings: vec![5 * MS; 10],
        cpu_samples: vec![],
        ..Default::default()
    }
}

fn manager() -> BaselineManager {
    BaselineManager::with_root_dir("/tmp/store", "0123456789abcdef".to_string())
}

fn names(list: &[&str]) -> Vec<String> {
    list.iter().map(|s| s.to_string()).collect()
}

fn run(name: &str, mean: u128, was_regression: bool) -> BaselineData {
    let mut result = create_test_result(name);
    result.all_timings = vec![mean; 4];
    result.percentiles.mean = mean;
    BaselineData::from_bench_result_at(
        &result,
        "0123456789abcdef".to_string(),
        was_regression,
        "2025-01-01T00:00:00+00:00".to_string(),
    )
}

#[test]
fn test_baseline_data_conversion() {
    let result = create_test_result("test_bench");
    let machine_id = "0123456789abcdef".to_string();

    let baseline = BaselineData::from_bench_result(&result, machine_id.clone(), false)
        .expect("the clock reads a moment of the calendar");

    assert_eq!(baseline.benchmark_name, "test_bench");
    assert_eq!(baseline.module, "test_module");
    assert_eq!(baseline.machine_id, machine_id);
    assert_eq!(baseline.iterations, 100);
    assert_eq!(baseline.statistics.sample_count, 10);
    assert_eq!(baseline.samples.len(), 10);

    let converted = baseline.to_bench_result();
    assert_eq!(converted.name, result.name);
    assert_eq!(converted.module, result.module);
    assert_eq!(converted.percentiles.p90, result.percentiles.p90);
}

#[test]
fn test_load_nonexistent_baseline() {
    let manager = manager();
    let loaded = manager.load_baseline("my_crate", "nonexistent", None, false);
    assert!(loaded.is_none());
    let empty: Vec<String> = Vec::new();
    assert!(manager.load_baseline("my_crate", "nonexistent", Some(&empty), false).is_none());
}

#[test]
fn test_has_baseline() {
    let manager = manager();
    assert!(!manager.has_baseline(false, false));
    assert!(manager.has_baseline(true, false));
    assert!(manager.has_baseline(false, true));
    assert!(manager.has_baseline(true, true));
}

#[test]
fn test_list_baselines() {
    let manager = manager();
    let entries = vec![
        StoreEntry { name: "my_crate_bench1".to_string(), is_dir: true },
        StoreEntry { name: "other_crate_bench9".to_string(), is_dir: true },
        StoreEntry { name: "my_crate_bench2".to_string(), is_dir: true },
    ];

    let mut baselines = manager.list_baselines(&entries, "my_crate");
    baselines.sort();

    assert_eq!(baselines, vec!["bench1", "bench2"]);
}

#[test]
fn test_mac_address_format() {
    let manager = BaselineManager::new(machine_id_for(&[0x00, 0x11, 0x22, 0x33, 0x44, 0x55]));

    assert_eq!(manager.machine_id().len(), 16, "Machine ID should be 16 characters");
    assert_eq!(manager.machine_id(), manager.machine_id().to_lowercase());
    assert!(manager.machine_id().chars().all(|c| c.is_ascii_hexdigit()));
}

#[test]
fn machine_identifier_is_the_start_of_the_digest() {
    assert_eq!(format_mac_address(&[0x00, 0x11, 0x22, 0x33, 0x44, 0x55]), "00-11-22-33-44-55");
    assert_eq!(format_mac_address(&[0xAA, 0xBB, 0xCC, 0xDD, 0xEE, 0xFF]), "aa-bb-cc-dd-ee-ff");
    assert_eq!(hash_mac_address("00-11-22-33-44-55"), "7add4560bd4c6303");
    assert_eq!(hash_mac_address("aa-bb-cc-dd-ee-ff"), "02dac37c8a956636");
    assert_eq!(hash_mac_address(""), "e3b0c44298fc1c14");
    assert_eq!(machine_id_for(&[0x00, 0x11, 0x22, 0x33, 0x44, 0x55]), "7add4560bd4c6303");
    assert_eq!(machine_id_for(&[0xaa, 0xbb, 0xcc, 0xdd, 0xee, 0xff]), "02dac37c8a956636");
}

#[test]
fn record_and_run_agree() {
    let mut result = create_test_result("round_trip");
    result.all_timings = vec![3, 1, 4, 1, 5, 9, 2, 6, 5, 3];
    result.warmup_ms = Some(17);
    result.warmup_iterations = Some(4);
    let record = BaselineData::from_bench_result_at(
        &result,
        "feedfacefeedface".to_string(),
        true,
        "2025-06-01T12:00:00+00:00".to_string(),
    );
    assert_eq!(record.timestamp, "2025-06-01T12:00:00+00:00");
    assert!(record.was_regression);
    assert_eq!(record.statistics.sample_count, 10);
    assert_eq!(record.statistics.mean, 3);
    assert_eq!(record.statistics.min, 1);
    assert_eq!(record.statistics.max, 9);

    let back = record.to_bench_result();
    assert_eq!(back.name, result.name);
    assert_eq!(back.module, result.module);
    assert_eq!(back.iterations, result.iterations);
    assert_eq!(back.samples, result.samples);
    assert_eq!(back.all_timings, result.all_timings);
    assert_eq!(back.percentiles.p50, result.percentiles.p50);
    assert_eq!(back.percentiles.p90, result.percentiles.p90);
    assert_eq!(back.percentiles.p99, result.percentiles.p99);
    assert_eq!(back.percentiles.mean, result.percentiles.mean);
    assert_eq!(back.warmup_ms, None);
    assert_eq!(back.warmup_iterations, None);
}

#[test]
fn record_without_percentiles_reports_those_of_its_summary() {
    let mut record = run("old_format", 7, false);
    record.percentiles = None;
    record.statistics.median = 6;
    record.statistics.p90 = 8;
    record.statistics.p99 = 9;
    let result = record.to_bench_result();
    assert_eq!(result.percentiles.p50, 6);
    assert_eq!(result.percentiles.p90, 8);
    assert_eq!(result.percentiles.p99, 9);
    assert_eq!(result.percentiles.mean, 7);
    assert_eq!(result.samples, 4);
}

#[test]
fn paths_of_the_store() {
    let manager = manager();
    assert_eq!(manager.machine_id(), "0123456789abcdef");
    assert_eq!(manager.machine_dir(), "/tmp/store/0123456789abcdef");
    assert_eq!(
        manager.benchmark_dir("my_crate", "bench"),
        "/tmp/store/0123456789abcdef/my_crate_bench"
    );
    assert_eq!(
        manager.legacy_baseline_path("my_crate", "bench"),
        "/tmp/store/0123456789abcdef/my_crate_bench.json"
    );
    assert_eq!(
        manager.run_path("my_crate", "bench", "2025-01-02T03-04-05"),
        "/tmp/store/0123456789abcdef/my_crate_bench/2025-01-02T03-04-05.json"
    );
    assert_eq!(
        manager.load_run("my_crate", "bench", "2025-01-02T03-04-05"),
        "/tmp/store/0123456789abcdef/my_crate_bench/2025-01-02T03-04-05.json"
    );
    let default_root = BaselineManager::new("00ff".to_string());
    assert_eq!(default_root.machine_dir(), ".benches/00ff");
}

#[test]
fn path_of_a_run_stored_now() {
    let manager = manager();
    let path = manager.get_run_path("my_crate", "bench", &Vec::new()).unwrap();
    let prefix = "/tmp/store/0123456789abcdef/my_crate_bench/";
    assert!(path.starts_with(prefix));
    assert!(path.ends_with(".json"));
    let stamp = &path[prefix.len()..path.len() - ".json".len()];
    assert_eq!(stamp.len(), "2025-01-02T03-04-05".len());
    assert_eq!(&stamp[10..11], "T");
    assert!(!stamp.contains(':'));
    assert!(!stamp.contains('/'));

    // A second run within the same second gets another name.
    let taken = vec![format!("{}.json", stamp)];
    let again = manager.get_run_path("my_crate", "bench", &taken).unwrap();
    assert_ne!(again, path);
    assert!(again.starts_with(prefix));
}

#[test]
fn path_of_a_run_stored_at_a_moment() {
    let manager = manager();
    let dir = "/tmp/store/0123456789abcdef/my_crate_bench/";
    assert_eq!(
        manager.run_path_at("my_crate", "bench", &Vec::new(), 1_736_937_000),
        Some(format!("{}2025-01-15T10-30-00.json", dir))
    );
    let entries = names(&["2025-01-15T10-30-00.json", "2025-01-15T10-30-00_.json", "x.json"]);
    assert_eq!(
        manager.run_path_at("my_crate", "bench", &entries, 1_736_937_000),
        Some(format!("{}2025-01-15T10-30-00__.json", dir))
    );
    assert_eq!(
        manager.run_path_at("my_crate", "bench", &entries, 1_736_937_001),
        Some(format!("{}2025-01-15T10-30-01.json", dir))
    );
    assert_eq!(manager.run_path_at("my_crate", "bench", &entries, i64::MAX), None);
    assert_eq!(manager.run_path_at("my_crate", "bench", &entries, i64::MIN), None);
}

#[test]
fn a_taken_name_gets_marks_until_it_is_free() {
    assert_eq!(unused_run_name(&Vec::new(), "stamp"), "stamp");
    assert_eq!(unused_run_name(&names(&["stamp"]), "stamp"), "stamp");
    assert_eq!(unused_run_name(&names(&["stamp.json"]), "stamp"), "stamp_");
    assert_eq!(unused_run_name(&names(&["stamp_.json", "stamp.json"]), "stamp"), "stamp__");
    assert_eq!(unused_run_name(&names(&["stamp_.json"]), "stamp"), "stamp");
    assert_eq!(unused_run_name(&names(&[".json"]), ""), "_");
    // Later names of one moment come later in the listing.
    let manager = manager();
    let listed = manager.list_runs(&names(&["s__.json", "s.json", "s_.json"]));
    assert_eq!(listed, names(&["s", "s_", "s__"]));
    assert_eq!(manager.latest_run_file(&names(&["s_.json", "s.json"])), Some("s_.json".to_string()));
}

#[test]
fn moments_of_the_calendar() {
    assert_eq!(
        civil_time_at(1_736_937_000),
        Some(CivilTime { year: 2025, month: 1, day: 15, hour: 10, minute: 30, second: 0 })
    );
    assert_eq!(
        civil_time_at(0),
        Some(CivilTime { year: 1970, month: 1, day: 1, hour: 0, minute: 0, second: 0 })
    );
    assert_eq!(
        civil_time_at(-1),
        Some(CivilTime { year: 1969, month: 12, day: 31, hour: 23, minute: 59, second: 59 })
    );
    assert_eq!(civil_time_at(i64::MAX), None);
    assert_eq!(timestamp_at(0, 0), Some("1970-01-01T00:00:00+00:00".to_string()));
    assert_eq!(timestamp_at(1, 500_000_000), Some("1970-01-01T00:00:01.500+00:00".to_string()));
    assert_eq!(
        timestamp_at(1_736_937_000, 123),
        Some("2025-01-15T10:30:00.000000123+00:00".to_string())
    );
    assert_eq!(timestamp_at(i64::MAX, 0), None);
    assert_eq!(timestamp_at(0, 2_000_000_000), None);
    let (secs, nanos) = utc_now().expect("the clock reads a moment after the epoch");
    assert!(secs > 1_600_000_000);
    assert!(nanos < 1_000_000_000);
}

#[test]
fn names_of_moments() {
    let stamp = |year, month, day, hour, minute, second| {
        file_stamp(&CivilTime { year, month, day, hour, minute, second })
    };
    assert_eq!(stamp(2025, 1, 15, 10, 30, 0), "2025-01-15T10-30-00");
    assert_eq!(stamp(1999, 12, 31, 23, 59, 59), "1999-12-31T23-59-59");
    assert_eq!(stamp(987, 6, 5, 4, 3, 2), "0987-06-05T04-03-02");
    assert_eq!(stamp(0, 1, 1, 0, 0, 0), "0000-01-01T00-00-00");
    assert_eq!(stamp(-1, 12, 31, 23, 59, 59), "-0001-12-31T23-59-59");
    assert_eq!(stamp(10_000, 1, 1, 0, 0, 0), "+10000-01-01T00-00-00");
    assert_eq!(stamp(i32::MIN, 1, 1, 0, 0, 0), "-2147483648-01-01T00-00-00");
    // As the calendar writes them.
    for secs in [1_736_937_000i64, 946_684_799, -62_135_596_801, -62_167_219_201, 253_402_300_800] {
        let time = civil_time_at(secs).unwrap();
        let written = chrono::DateTime::from_timestamp(secs, 0)
            .unwrap()
            .format("%Y-%m-%dT%H-%M-%S")
            .to_string();
        assert_eq!(file_stamp(&time), written);
    }
}

#[test]
fn identifier_of_a_digest() {
    let digest: Vec<u8> = (0..32).map(|i| (i * 17 + 1) as u8).collect();
    assert_eq!(id_of_digest(&digest), "0112233445566778");
    assert_eq!(id_of_digest(&[0xff, 0x00, 0xab, 0xcd, 0xef, 0x01, 0x23, 0x45]), "ff00abcdef012345");
}

#[test]
fn runs_are_listed_in_the_order_of_time() {
    let manager = manager();
    let entries = names(&[
        "2025-03-01T10-00-00.json",
        "notes.txt",
        "2025-01-15T08-30-00.json",
        ".json",
        "2025-02-01T00-00-00.json",
        "2025-02-01T00-00-00.json.bak",
    ]);
    assert_eq!(
        manager.list_runs(&entries),
        names(&["2025-01-15T08-30-00", "2025-02-01T00-00-00", "2025-03-01T10-00-00"])
    );
    assert_eq!(manager.latest_run_file(&entries), Some("2025-03-01T10-00-00.json".to_string()));
    assert_eq!(manager.list_runs(&Vec::new()), Vec::<String>::new());
    assert_eq!(manager.latest_run_file(&names(&["notes.txt"])), None);
}

#[test]
fn most_recent_baseline_is_the_latest_run() {
    let manager = manager();
    let entries = names(&["2025-01-15T08-30-00.json", "2025-03-01T10-00-00.json", "x.tmp"]);
    assert_eq!(
        manager.load_baseline("my_crate", "bench", Some(&entries), true),
        Some("/tmp/store/0123456789abcdef/my_crate_bench/2025-03-01T10-00-00.json".to_string())
    );
    assert_eq!(
        manager.load_baseline("my_crate", "bench", None, true),
        Some("/tmp/store/0123456789abcdef/my_crate_bench.json".to_string())
    );
}

#[test]
fn baselines_of_both_formats_are_listed() {
    let manager = manager();
    let entries = vec![
        StoreEntry { name: "my_crate_new".to_string(), is_dir: true },
        StoreEntry { name: "my_crate_old.json".to_string(), is_dir: false },
        StoreEntry { name: "my_crate_stray.txt".to_string(), is_dir: false },
        StoreEntry { name: "your_crate_bench".to_string(), is_dir: true },
        StoreEntry { name: "my_crate_".to_string(), is_dir: true },
    ];
    assert_eq!(manager.list_baselines(&entries, "my_crate"), names(&["new", "old", ""]));
    assert_eq!(manager.list_baselines(&entries, "your_crate"), names(&["bench"]));
    assert_eq!(manager.list_baselines(&Vec::new(), "my_crate"), Vec::<String>::new());
}

#[test]
fn recent_baselines_leave_out_regressions() {
    let manager = manager();
    let history = vec![
        Some(run("bench", 100, false)),
        Some(run("bench", 101, false)),
        Some(run("bench", 250, true)),
        None,
        Some(run("bench", 102, false)),
        Some(run("bench", 260, true)),
    ];
    let window = manager.load_recent_baselines(history.clone(), 2);
    let means: Vec<u128> = window.iter().map(|b| b.statistics.mean).collect();
    assert_eq!(means, vec![101, 102]);
    assert!(window.iter().all(|b| !b.was_regression));

    let all = manager.load_recent_baselines(history.clone(), 10);
    let means: Vec<u128> = all.iter().map(|b| b.statistics.mean).collect();
    assert_eq!(means, vec![100, 101, 102]);
    assert!(all.iter().all(|b| !b.was_regression));

    assert!(manager.load_recent_baselines(history, 0).is_empty());
    assert!(manager.load_recent_baselines(Vec::new(), 3).is_empty());
    let only_regressions = vec![Some(run("bench", 1, true)), Some(run("bench", 2, true))];
    assert!(manager.load_recent_baselines(only_regressions, 3).is_empty());
}

#[test]
fn window_is_filled_from_the_newest_run_back() {
    let mut window = RecentWindow::new(2);
    assert!(!window.is_full());
    window.offer(Some(run("bench", 5, true)));
    window.offer(None);
    assert!(!window.is_full());
    window.offer(Some(run("bench", 4, false)));
    window.offer(Some(run("bench", 3, false)));
    assert!(window.is_full());
    window.offer(Some(run("bench", 2, false)));
    let means: Vec<u128> = window.finish().iter().map(|b| b.statistics.mean).collect();
    assert_eq!(means, vec![3, 4]);
    assert!(RecentWindow::new(0).is_full());
}
