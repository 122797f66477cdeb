use datafusion::common::utils::get_available_parallelism;
use datafusion::common::DataFusionError;
use datafusion::prelude::SessionConfig;
use shuffle_bench::error::RunError;
use shuffle_bench::options::{Compression, RunMode, RunOpt, UNIT_SCALE_FACTOR};
use shuffle_bench::queries::{queries_for_dataset, Benchmark, ListedQuery};

fn options() -> RunOpt {
    RunOpt {
        query: vec![],
        dataset: "tpch_sf1".to_string(),
        spawn: None,
        workers: vec![8001, 8002],
        threads: None,
        files_per_task: None,
        cardinality_task_sf: None,
        children_isolator_unions: false,
        broadcast_joins: true,
        collect_metrics: false,
        compression: "lz4".to_string(),
        max_tasks_per_stage: 0,
        iterations: 3,
        partitions: None,
        batch_size: None,
        debug: false,
    }
}

#[test]
fn partitions_default_to_cores() {
    let mut options = options();
    assert_eq!(options.partitions_on(12), 12);
    assert_eq!(options.partitions(), get_available_parallelism());
    // The number of threads has no part in it.
    options.threads = Some(6);
    assert_eq!(options.partitions_on(12), 12);
    assert_eq!(options.partitions(), get_available_parallelism());
    options.partitions = Some(4);
    assert_eq!(options.partitions_on(12), 4);
    assert_eq!(options.partitions(), 4);
}

#[test]
fn cores_are_asked_of_the_machine() {
    assert!(options().partitions() >= 1);
    match options().run() {
        RunMode::Local { threads } => assert_eq!(threads, get_available_parallelism()),
        RunMode::Serve { .. } => panic!("no port was given"),
    }
    let settings = options().task_settings();
    assert_eq!(settings.files_per_task, get_available_parallelism());
}

#[test]
fn config_sets_batch_size_and_partitions() {
    let mut options = options();
    options.batch_size = Some(123);
    options.partitions = Some(7);
    let config = options.config().unwrap();
    assert_eq!(config.batch_size(), 123);
    assert_eq!(config.target_partitions(), 7);
}

#[test]
fn config_keeps_everything_else() {
    let environment = SessionConfig::new().with_batch_size(99).with_target_partitions(5);
    let before: Vec<(String, Option<String>)> =
        environment.options().entries().into_iter().map(|e| (e.key, e.value)).collect();
    let config = options().config_on(3, environment);
    assert_eq!(config.batch_size(), 99);
    for (entry, (key, value)) in config.options().entries().into_iter().zip(before) {
        assert_eq!(entry.key, key);
        if key == "datafusion.execution.target_partitions" {
            assert_eq!(entry.value.as_deref(), Some("3"));
        } else {
            assert_eq!(entry.value, value);
        }
    }
}

#[test]
fn batch_size_is_listed_under_its_key() {
    let mut options = options();
    options.batch_size = Some(41);
    let config = options.config_on(2, SessionConfig::new());
    let entries = config.options().entries();
    let entry = entries.iter().find(|e| e.key == "datafusion.execution.batch_size").unwrap();
    assert_eq!(entry.value.as_deref(), Some("41"));
}

#[test]
fn a_port_makes_a_worker() {
    let mut options = options();
    options.spawn = Some(8080);
    options.threads = Some(2);
    match options.run_on(12) {
        RunMode::Serve { threads, address } => {
            assert_eq!(threads, 2);
            assert_eq!(address, "127.0.0.1:8080");
        }
        RunMode::Local { .. } => panic!("a port was given"),
    }
    options.spawn = None;
    assert!(matches!(options.run_on(12), RunMode::Local { threads: 2 }));
}

#[test]
fn no_partitions_means_those_of_the_engine() {
    let mut options = options();
    options.partitions = Some(0);
    let config = options.config_on(12, SessionConfig::new().with_target_partitions(5));
    assert_eq!(config.target_partitions(), get_available_parallelism());
}

#[test]
fn config_hands_on_the_error_of_the_environment() {
    let error = DataFusionError::Collection(vec![]);
    let result = options().config_from(2, Err(error));
    assert!(matches!(result, Err(DataFusionError::Collection(errors)) if errors.is_empty()));
    // That goes for a batch size that cannot be had, too.
    let mut empty = options();
    empty.batch_size = Some(0);
    let error = DataFusionError::Plan("x".to_string());
    assert!(empty.config_from(2, Err(error)).is_err());
    let config = options().config_from(2, Ok(SessionConfig::new())).unwrap();
    assert_eq!(config.target_partitions(), 2);
}

#[test]
fn settings_of_tasks() {
    let mut options = options();
    let settings = options.task_settings_on(12);
    assert_eq!(settings.workers, vec![8001, 8002]);
    assert_eq!(settings.files_per_task, 12);
    assert_eq!(settings.cardinality_task_sf, UNIT_SCALE_FACTOR);
    assert_eq!(f64::from_bits(settings.cardinality_task_sf), 1.0);
    options.files_per_task = Some(5);
    options.cardinality_task_sf = Some(1.5f64.to_bits());
    let settings = options.task_settings_on(12);
    assert_eq!(settings.files_per_task, 5);
    assert_eq!(f64::from_bits(settings.cardinality_task_sf), 1.5);
}

#[test]
fn settings_of_the_session() {
    let mut options = options();
    let settings = options.run_local().unwrap();
    assert_eq!(settings.compression, Some(Compression::Lz4Frame));
    assert!(settings.broadcast_joins);
    assert!(!settings.children_isolator_unions);
    assert!(!settings.collect_metrics);
    assert_eq!(settings.max_tasks_per_stage, 0);
    options.compression = "zstd".to_string();
    options.broadcast_joins = false;
    options.children_isolator_unions = true;
    options.collect_metrics = true;
    options.max_tasks_per_stage = 9;
    let settings = options.run_local().unwrap();
    assert_eq!(settings.compression, Some(Compression::Zstd));
    assert!(!settings.broadcast_joins);
    assert!(settings.children_isolator_unions);
    assert!(settings.collect_metrics);
    assert_eq!(settings.max_tasks_per_stage, 9);
    options.compression = "none".to_string();
    assert_eq!(options.run_local().unwrap().compression, None);
}

#[test]
fn unknown_compression_is_an_error() {
    let mut options = options();
    options.compression = "gzip".to_string();
    let expected = RunError::Configuration("Unknown compression type gzip".to_string());
    assert_eq!(options.run_local(), Err(expected));
}

fn pair(id: &str, sql: &str) -> (String, String) {
    (id.to_string(), sql.to_string())
}

#[test]
fn queries_are_selected_by_id() {
    let queries = vec![pair("q1", "select 1"), pair("q2", "select 2"), pair("q3", "select 3")];
    let mut options = options();
    assert_eq!(
        options.selected_queries(&queries),
        vec![
            pair("tpch_sf1 q1", "select 1"),
            pair("tpch_sf1 q2", "select 2"),
            pair("tpch_sf1 q3", "select 3"),
        ]
    );
    options.query = vec!["q3".to_string(), "q1".to_string(), "q9".to_string()];
    assert_eq!(
        options.selected_queries(&queries),
        vec![pair("tpch_sf1 q1", "select 1"), pair("tpch_sf1 q3", "select 3")]
    );
}

#[test]
fn benchmark_is_named_by_the_start_of_the_dataset() {
    let mut options = options();
    assert_eq!(options.benchmark_name(), "tpch");
    options.dataset = "clickbench".to_string();
    assert_eq!(options.benchmark_name(), "clickbench");
    options.dataset = "_x".to_string();
    assert_eq!(options.benchmark_name(), "");
}

#[test]
fn dataset_must_be_there_and_not_empty() {
    let options = options();
    assert_eq!(
        options.get_path("/data", Some(2)),
        Ok(vec!["/data".to_string(), "tpch_sf1".to_string()])
    );
    assert_eq!(
        options.get_path("/data", None),
        Err(RunError::Execution(
            "--dataset tpch_sf1 doesn't exist. Was it generated?".to_string()
        ))
    );
    assert_eq!(
        options.get_path("/data", Some(0)),
        Err(RunError::Execution("Dataset tpch_sf1 is empty".to_string()))
    );
}

fn listed(id: &str, sql: Option<&str>) -> ListedQuery {
    ListedQuery { id: id.to_string(), sql: sql.map(|s| s.to_string()) }
}

#[test]
fn benchmarks_have_names() {
    assert_eq!(Benchmark::from_name("tpch"), Ok(Benchmark::Tpch));
    assert_eq!(Benchmark::from_name("tpcds"), Ok(Benchmark::Tpcds));
    assert_eq!(Benchmark::from_name("clickbench"), Ok(Benchmark::Clickbench));
    assert_eq!(
        queries_for_dataset("tpcc", vec![]),
        Err(RunError::NotImplemented("Unknown benchmark dataset tpcc".to_string()))
    );
}

#[test]
fn slow_query_is_left_out_of_one_benchmark() {
    let list = || {
        vec![listed("q71", Some("a")), listed("q72", Some("b")), listed("q73", Some("c"))]
    };
    assert_eq!(
        queries_for_dataset("tpcds", list()),
        Ok(vec![pair("q71", "a"), pair("q73", "c")])
    );
    assert_eq!(queries_for_dataset("tpch", list()).unwrap().len(), 3);
    // A query that is left out needs no text.
    let unread = vec![listed("q72", None), listed("q73", Some("c"))];
    assert_eq!(queries_for_dataset("tpcds", unread), Ok(vec![pair("q73", "c")]));
}

#[test]
fn benchmarks_say_which_queries_are_run() {
    assert!(!Benchmark::Tpcds.runs("q72"));
    assert!(Benchmark::Tpcds.runs("q7"));
    assert!(Benchmark::Tpch.runs("q72"));
    assert!(Benchmark::Clickbench.runs("q72"));
}

#[test]
fn first_query_without_a_text_is_an_error() {
    let list = vec![listed("q1", Some("a")), listed("q2", None), listed("q3", None)];
    assert_eq!(queries_for_dataset("tpch", list), Err(RunError::Query(1)));
}
