use shuffle_bench::compare::{Comparison, Direction, Ratios};
use shuffle_bench::ids::{extract_number, id_precedes};
use shuffle_bench::order::sort_results;
use shuffle_bench::results::{BenchResult, BenchmarkRun, QueryIter};
use shuffle_bench::store::{current_branch, id_from_file_name, listed_ids, Layout, StoredRun};
use shuffle_bench::time::{Elapsed, Timestamp};

fn took(ms: u64, bytes: u64) -> QueryIter {
    QueryIter {
        row_count: 10,
        n_tasks: 2,
        elapsed: Elapsed { secs: ms / 1000, nanos: (ms % 1000) as u32 * 1_000_000 },
        bytes_transferred: bytes,
        error: None,
    }
}

fn failed(message: &str) -> QueryIter {
    QueryIter {
        row_count: 0,
        n_tasks: 0,
        elapsed: Elapsed::zero(),
        bytes_transferred: 0,
        error: Some(message.to_string()),
    }
}

fn result(id: &str, iterations: Vec<QueryIter>) -> BenchResult {
    BenchResult { id: id.to_string(), dataset: "tpch_sf1".to_string(), iterations }
}

fn run(branch: &str, results: Vec<BenchResult>) -> BenchmarkRun {
    let start = Timestamp::SinceEpoch(Elapsed { secs: 1_700_000_000, nanos: 999 });
    let mut run = BenchmarkRun::new("tpch_sf1".to_string(), 3, 8, branch.to_string(), start);
    run.results = results;
    run
}

fn layout() -> Layout {
    Layout { data_path: "/data".to_string(), results_dir: "results".to_string() }
}

fn ratios() -> Ratios {
    Ratios {
        time: "2.50".to_string(),
        notable: true,
        prev_kb: "4".to_string(),
        new_kb: "2".to_string(),
        transfer: "2.00".to_string(),
    }
}

#[test]
fn new_run_has_no_results() {
    let run = run("main", vec![]);
    assert_eq!(run.dataset, "tpch_sf1");
    assert_eq!((run.workers, run.threads), (3, 8));
    assert_eq!(run.branch, "main");
    assert_eq!(
        run.start_time,
        Timestamp::SinceEpoch(Elapsed { secs: 1_700_000_000, nanos: 999 })
    );
    assert!(run.results.is_empty());
}

#[test]
fn average_time_is_rounded_down() {
    let r = result("q1", vec![took(10, 0), took(11, 0), took(13, 0)]);
    assert!(r.has_avg());
    assert_eq!(r.avg(), 11);
    // Each iteration is rounded down to milliseconds by itself.
    let mut slow = took(2001, 0);
    slow.elapsed.nanos += 999_999;
    assert_eq!(result("q1", vec![slow, took(0, 0)]).avg(), 1000);
    assert!(!result("q1", vec![]).has_avg());
}

#[test]
fn failed_iterations_count_in_the_average_time() {
    assert_eq!(result("q1", vec![took(10, 0), failed("x")]).avg(), 5);
}

#[test]
fn failed_iterations_do_not_count_as_transfers() {
    let r = result("q1", vec![took(1, 10), failed("x"), took(1, 21)]);
    assert!(r.has_avg_bytes());
    assert_eq!(r.avg_bytes_transferred(), 15);
    assert_eq!(result("q1", vec![failed("x")]).avg_bytes_transferred(), 0);
    assert_eq!(result("q1", vec![]).avg_bytes_transferred(), 0);
}

#[test]
fn averages_do_not_depend_on_the_order() {
    let a = result("q1", vec![took(10, 7), failed("x"), took(25, 100), took(3, 1)]);
    let b = result("q1", vec![took(3, 1), took(25, 100), took(10, 7), failed("x")]);
    assert_eq!((a.avg(), a.avg_bytes_transferred()), (9, 36));
    assert_eq!((b.avg(), b.avg_bytes_transferred()), (9, 36));
}

#[test]
fn bytes_that_do_not_fit_have_no_average() {
    assert!(!result("q1", vec![took(1, u64::MAX), took(1, 1)]).has_avg_bytes());
    assert!(result("q1", vec![took(1, u64::MAX)]).has_avg_bytes());
}

#[test]
fn comparison_of_measured_queries() {
    let prev = result("q1", vec![took(250, 4096)]);
    let new = result("q1", vec![took(100, 2048)]);
    assert!(new.can_compare(&prev));
    let faster = new.compare(&prev);
    assert_eq!(
        faster,
        Comparison::Measured {
            prev_ms: 250,
            new_ms: 100,
            direction: Direction::Faster,
            bytes: Some((4096, 2048)),
        }
    );
    assert_eq!(faster.ratio_terms(), Some((250, 100)));
    assert_eq!(
        faster.line("q1", &ratios()),
        "      q1: prev= 250 ms, new= 100 ms, diff=2.50 faster ✅, bytes=4K→2K (2.00x)"
    );
    let slower = prev.compare(&new);
    assert_eq!(slower.ratio_terms(), Some((250, 100)));
    let mut plain = ratios();
    plain.notable = false;
    assert_eq!(
        slower.line("tpch_sf1 q1", &plain),
        "tpch_sf1 q1: prev= 100 ms, new= 250 ms, diff=2.50 slower ✖, bytes=4K→2K (2.00x)"
    );
}

#[test]
fn comparison_marks() {
    let quiet = |ms| result("q1", vec![took(ms, 0)]);
    let mut ratios = ratios();
    let slower = quiet(12345).compare(&quiet(5));
    assert_eq!(
        slower.line("q1", &ratios),
        "      q1: prev=   5 ms, new=12345 ms, diff=2.50 slower ❌"
    );
    ratios.notable = false;
    let faster = quiet(5).compare(&quiet(6));
    assert_eq!(
        faster.line("q1", &ratios),
        "      q1: prev=   6 ms, new=   5 ms, diff=2.50 faster ✔"
    );
    // As long as before counts as slower.
    assert_eq!(
        quiet(5).compare(&quiet(5)),
        Comparison::Measured { prev_ms: 5, new_ms: 5, direction: Direction::Slower, bytes: None }
    );
    // Bytes are compared only where there were some both times.
    assert_eq!(
        result("q1", vec![took(5, 9)]).compare(&quiet(5)),
        Comparison::Measured { prev_ms: 5, new_ms: 5, direction: Direction::Slower, bytes: None }
    );
}

#[test]
fn comparison_of_failures() {
    let good = result("q1", vec![took(5, 0), took(5, 0)]);
    let bad = result("q1", vec![took(5, 0), failed("boom")]);
    assert_eq!(good.compare(&bad), Comparison::Recovered);
    assert_eq!(bad.compare(&good), Comparison::Broken);
    assert_eq!(bad.compare(&bad), Comparison::StillBroken);
    assert_eq!(bad.compare(&good).ratio_terms(), None);
    assert_eq!(
        good.compare(&bad).line("q1", &ratios()),
        "q1: Previously failed, but now succeeded 🟠"
    );
    assert_eq!(
        bad.compare(&good).line("q1", &ratios()),
        "q1: Previously succeeded, but now failed ❌"
    );
    assert_eq!(
        bad.compare(&bad).line("q1", &ratios()),
        "q1: Previously failed, and now also failed ❌"
    );
    // A result without iterations has no average to compare.
    assert!(!result("q1", vec![]).can_compare(&good));
    assert!(result("q1", vec![]).can_compare(&bad));
}

#[test]
fn report_on_two_runs() {
    let old = vec![result("q2", vec![took(1, 0)]), result("q1", vec![took(2, 0)])];
    let previous = run("main", old);
    let mut new = run("faster", vec![]);
    new.threads = 16;
    new.workers = 4;
    new.results = vec![
        result("q1", vec![took(1, 0)]),
        result("q3", vec![took(1, 0)]),
        result("q2", vec![took(1, 0)]),
    ];
    assert_eq!(
        new.preamble(&previous, "linux", "x86_64", 12),
        vec![
            "=== Comparing tpch_sf1 results from branch 'main' [prev] with 'faster' [new] ===",
            "os:        linux",
            "arch:      x86_64",
            "cpu cores: 12",
            "threads:   8 -> 16",
            "workers:   3 -> 4",
            &"=".repeat(80),
        ]
    );
    assert_eq!(new.matching_results(&previous), vec![(0, 1), (2, 0)]);
    let report = new.compare_with_previous(Some(&previous), "linux", "x86_64").unwrap();
    assert_eq!(report.pairs, vec![(0, 1), (2, 0)]);
    let cores = datafusion::common::utils::get_available_parallelism();
    assert_eq!(report.preamble[3], format!("cpu cores: {cores}"));
    assert!(new.compare_with_previous(None, "linux", "x86_64").is_none());
}

#[test]
fn first_previous_result_with_the_id_is_compared() {
    let previous = run("main", vec![result("q1", vec![]), result("q1", vec![])]);
    let new = run("main", vec![result("q1", vec![])]);
    assert_eq!(new.matching_results(&previous), vec![(0, 0)]);
}

#[test]
fn rule_is_as_long_as_the_header_in_bytes() {
    let previous = run("größe", vec![]);
    let lines = run("main", vec![]).preamble(&previous, "", "", 1);
    assert_eq!(lines[6].len(), lines[0].len());
    assert_ne!(lines[6].len(), lines[0].chars().count());
}

#[test]
fn branch_is_what_follows_the_last_slash() {
    assert_eq!(current_branch("main\n"), "main");
    assert_eq!(current_branch("  user/topic/fix \n"), "fix");
    assert_eq!(current_branch("user/\n"), "");
    assert_eq!(current_branch(""), "");
}

#[test]
fn numbers_in_ids() {
    assert_eq!(extract_number("q12"), Some(12));
    assert_eq!(extract_number("tpch_sf1 q2"), Some(12));
    assert_eq!(extract_number("q007"), Some(7));
    assert_eq!(extract_number("q"), None);
    assert_eq!(extract_number(""), None);
    assert_eq!(extract_number("q4294967295"), Some(u32::MAX));
    assert_eq!(extract_number("q4294967296"), None);
    assert_eq!(extract_number("q99999999999999999999999"), None);
}

#[test]
fn ids_are_ordered_by_number_then_text() {
    assert!(id_precedes("q2", "q10"));
    assert!(!id_precedes("q10", "q2"));
    assert!(id_precedes("q2", "aggregate"));
    assert!(!id_precedes("aggregate", "q2"));
    assert!(id_precedes("aggregate", "join"));
    assert!(id_precedes("join", "joins"));
    assert!(!id_precedes("a1", "b1"));
    assert!(!id_precedes("b1", "a1"));
}

#[test]
fn results_are_sorted_stably() {
    let ids = ["q10", "join", "q2b", "q1", "q2a", "agg"];
    let sorted = sort_results(ids.iter().map(|id| result(id, vec![])).collect());
    let sorted: Vec<&str> = sorted.iter().map(|r| r.id.as_str()).collect();
    assert_eq!(sorted, vec!["q1", "q2b", "q2a", "q10", "agg", "join"]);
}

#[test]
fn order_of_loading_does_not_matter() {
    let sort = |ids: &[&str]| -> Vec<String> {
        sort_results(ids.iter().map(|id| result(id, vec![])).collect())
            .into_iter()
            .map(|r| r.id)
            .collect()
    };
    assert_eq!(sort(&["q3", "q1", "q2"]), vec!["q1", "q2", "q3"]);
    assert_eq!(sort(&["q2", "q3", "q1"]), vec!["q1", "q2", "q3"]);
}

#[test]
fn ids_from_file_names() {
    assert_eq!(id_from_file_name("tpch q1.json"), Some("tpch q1".to_string()));
    assert_eq!(id_from_file_name("a.json.json"), Some("a".to_string()));
    assert_eq!(id_from_file_name(".json"), Some(String::new()));
    assert_eq!(id_from_file_name("q1.txt"), None);
    assert_eq!(id_from_file_name("json"), None);
    let entries = vec![
        Some("b.json".to_string()),
        None,
        Some("notes".to_string()),
        Some("a.json".to_string()),
    ];
    assert_eq!(listed_ids(&entries), vec!["b", "a"]);
}

#[test]
fn paths_of_results() {
    let r = result("q1", vec![]);
    assert_eq!(
        r.store(&layout(), "main"),
        vec!["/data", "tpch_sf1", "results", "main", "q1.json"]
    );
    assert_eq!(BenchResult::load(&layout(), "tpch_sf1", "main", "q1"), r.store(&layout(), "main"));
    assert_eq!(
        BenchResult::load_dir(&layout(), "d", "b"),
        vec!["/data", "d", "results", "b"]
    );
    assert_eq!(
        BenchmarkRun::load_path(&layout(), "tpch_sf1"),
        vec!["/data", "tpch_sf1", "previous.json"]
    );
}

#[test]
fn results_have_paths_of_their_own() {
    let path = |dataset: &str, branch: &str, id: &str| {
        BenchResult::load(&layout(), dataset, branch, id)
    };
    let paths = vec![
        path("d", "b", "q1"),
        path("d", "b", "q2"),
        path("d", "c", "q1"),
        path("e", "b", "q1"),
    ];
    for (i, left) in paths.iter().enumerate() {
        for right in &paths[i + 1..] {
            assert_ne!(left, right);
        }
    }
}

#[test]
fn stored_run_is_loaded_again() {
    let mut run = run("topic", vec![]);
    run.results = vec![result("q1", vec![took(1, 2)]), result("q2", vec![])];
    let order = run.store(&layout(), "topic", true).unwrap();
    assert_eq!(order.run_path, BenchmarkRun::load_path(&layout(), "tpch_sf1"));
    assert_eq!(order.run.start_time, 1_700_000_000);
    assert_eq!(
        order.result_paths,
        vec![run.results[0].store(&layout(), "topic"), run.results[1].store(&layout(), "topic")]
    );
    // The directory lists the files in an order of its own.
    let names = vec![
        Some(order.result_paths[1][4].clone()),
        Some(order.result_paths[0][4].clone()),
    ];
    let ids = listed_ids(&names);
    assert_eq!(ids, vec!["q2", "q1"]);
    let loaded = vec![
        Some(result("q2", vec![])),
        None,
        Some(result("q1", vec![took(1, 2)])),
    ];
    let again = BenchmarkRun::load_previous(Some(order.run), loaded).unwrap();
    assert_eq!(again.start_time, Timestamp::from_secs(1_700_000_000));
    assert_eq!((again.workers, again.threads), (run.workers, run.threads));
    assert_eq!((&again.dataset, &again.branch), (&run.dataset, &run.branch));
    assert_eq!(format!("{:?}", again.results), format!("{:?}", run.results));
}

#[test]
fn nothing_is_stored_without_the_directory_of_the_dataset() {
    let run = run("topic", vec![result("q1", vec![took(1, 2)])]);
    assert!(run.store(&layout(), "topic", false).is_none());
    assert_eq!(BenchmarkRun::store_dir(&layout(), "tpch_sf1"), vec!["/data", "tpch_sf1"]);
}

#[test]
fn stored_time_loses_less_than_a_second() {
    let time = Timestamp::SinceEpoch(Elapsed { secs: 12, nanos: 999_999_999 });
    let again = Timestamp::from_secs(time.as_secs());
    assert_eq!(again, Timestamp::SinceEpoch(Elapsed { secs: 12, nanos: 0 }));
    assert_eq!(again.as_secs(), time.as_secs());
}

#[test]
fn missing_run_is_not_loaded() {
    assert!(BenchmarkRun::load_previous(None, vec![Some(result("q1", vec![]))]).is_none());
    let stored = StoredRun {
        workers: 1,
        threads: 2,
        start_time: 3,
        dataset: "d".to_string(),
        branch: "b".to_string(),
    };
    let run = BenchmarkRun::load_previous(Some(stored), vec![None]).unwrap();
    assert!(run.results.is_empty());
    assert_eq!(run.start_time.as_secs(), 3);
}
