use shuffle_bench::progress::{BenchmarkProgress, Event, Step};
use shuffle_bench::results::{BenchResult, BenchmarkRun};
use shuffle_bench::runner::{
    avg_line, failed_line, plan_section, statements, sum_rows, took_line, Action, Outcome,
    QueryRun,
};
use shuffle_bench::text::{
    contains_text, decimal_text, pad_left, prefix_before, split_on, suffix_after, text_less, trim,
    white_space,
};
use shuffle_bench::time::{Elapsed, Timestamp};

fn success(ms: u64) -> Outcome {
    Outcome::Succeeded {
        elapsed: Elapsed { secs: 0, nanos: ms as u32 * 1_000_000 },
        row_count: 4,
        n_tasks: 2,
        bytes_transferred: 100,
    }
}

fn next(run: &QueryRun) -> Option<(String, bool)> {
    match run.action() {
        Action::Execute { statement, starts_iteration, .. } => Some((statement, starts_iteration)),
        Action::Finish => None,
    }
}

#[test]
fn statements_are_separated_by_semicolons() {
    assert_eq!(
        statements(" create view v as select 1 ;\n\nselect * from v;; drop view v ;\t"),
        vec!["create view v as select 1", "select * from v", "drop view v"]
    );
    assert!(statements(" ; ;\n").is_empty());
    assert!(statements("").is_empty());
}

#[test]
fn clean_run_records_every_statement() {
    let sql = "create view v as x; select 1; select 2; drop view v";
    let mut run = QueryRun::new("d q1", "d", sql, 2);
    let mut executed: Vec<(String, bool)> = vec![];
    while let Some(step) = next(&run) {
        let number = executed.len() as u64;
        executed.push(step);
        run.executed(success(number)).unwrap();
    }
    assert_eq!(executed.len(), 8);
    assert_eq!(executed[0], ("create view v as x".to_string(), true));
    assert_eq!(executed[1], ("select 1".to_string(), false));
    assert_eq!(executed[4], ("create view v as x".to_string(), true));
    let result = run.into_result();
    assert_eq!((result.id.as_str(), result.dataset.as_str()), ("d q1", "d"));
    let times: Vec<u128> = result.iterations.iter().map(|i| i.elapsed.as_millis()).collect();
    assert_eq!(times, vec![1, 2, 5, 6]);
    for iteration in &result.iterations {
        assert_eq!(iteration.row_count, 4);
        assert_eq!(iteration.n_tasks, 2);
        assert_eq!(iteration.bytes_transferred, 100);
        assert_eq!(iteration.error, None);
    }
}

#[test]
fn failure_is_recorded_and_ends_the_iteration() {
    let mut run = QueryRun::new("q", "d", "select 1; select 2", 2);
    assert_eq!(run.iteration(), 0);
    run.executed(Outcome::Failed("boom".to_string())).unwrap();
    assert_eq!(run.iteration(), 1);
    assert_eq!(next(&run), Some(("select 1".to_string(), true)));
    run.executed(success(1)).unwrap();
    run.executed(Outcome::Failed("again".to_string())).unwrap();
    assert_eq!(next(&run), None);
    let result = run.into_result();
    let errors: Vec<Option<&str>> =
        result.iterations.iter().map(|i| i.error.as_deref()).collect();
    assert_eq!(errors, vec![Some("boom"), None, Some("again")]);
    let first = &result.iterations[0];
    assert_eq!((first.row_count, first.n_tasks, first.bytes_transferred), (0, 0, 0));
    assert_eq!(first.elapsed, Elapsed::zero());
}

#[test]
fn failure_to_prepare_ends_the_run() {
    let mut run = QueryRun::new("q", "d", "drop view v; select 1", 3);
    assert_eq!(run.executed(Outcome::Failed("no view".to_string())), Err("no view".to_string()));
    // Nothing was recorded.
    assert_eq!(run.iteration(), 0);
    assert!(run.into_result().iterations.is_empty());
}

#[test]
fn nothing_to_run_is_finished() {
    assert_eq!(next(&QueryRun::new("q", "d", " ; ", 3)), None);
    assert_eq!(next(&QueryRun::new("q", "d", "select 1", 0)), None);
}

#[test]
fn words_that_only_look_like_preparing_are_measured() {
    let mut run = QueryRun::new("q", "d", "CREATE TABLE t; creates", 1);
    run.executed(success(1)).unwrap();
    run.executed(success(2)).unwrap();
    // Only lower case prepares, and any word that begins so does.
    assert_eq!(run.into_result().iterations.len(), 1);
}

#[test]
fn preparing_statements_are_not_measured() {
    let mut run = QueryRun::new("q", "d", "create view v as x; select 1; drop view v", 1);
    let mut measured: Vec<bool> = vec![];
    while let Action::Execute { measured: m, .. } = run.action() {
        measured.push(m);
        run.executed(success(1)).unwrap();
    }
    assert_eq!(measured, vec![false, true, false]);
}

#[test]
fn rows_are_summed() {
    assert_eq!(sum_rows(&vec![]), Some(0));
    assert_eq!(sum_rows(&vec![3, 0, 4]), Some(7));
    assert_eq!(sum_rows(&vec![usize::MAX, 1]), None);
}

#[test]
fn lines_about_a_query() {
    assert_eq!(
        took_line("d q1", 2, "12.3", 40, "7"),
        "Query d q1 iteration 2 took 12.3 ms and returned 40 rows (7 KB transferred)"
    );
    assert_eq!(failed_line("d q1", 0, "boom"), "Query d q1 iteration 0 failed: boom");
    let mut run = QueryRun::new("d q1", "d", "select 1", 2);
    run.executed(success(10)).unwrap();
    run.executed(success(15)).unwrap();
    let result: BenchResult = run.into_result();
    assert_eq!(avg_line(&result), "Query d q1 avg time: 12 ms");
}

#[test]
fn plans_are_shown_under_their_title() {
    assert_eq!(plan_section("Logical plan", "Scan"), "=== Logical plan ===\nScan\n");
}

#[test]
fn white_space_is_that_of_the_standard_library() {
    for u in 0..=0x10FFFFu32 {
        if let Some(c) = char::from_u32(u) {
            assert_eq!(white_space(c), c.is_whitespace());
        }
    }
}

#[test]
fn texts_are_taken_apart_as_the_standard_library_does() {
    for s in ["", " ", "a", " a b ", "\u{a0}x/y/\u{3000}", "a;b;;c", ";", "/", "größe/ö"] {
        assert_eq!(trim(s), s.trim());
        for sep in [';', '/', 'ö'] {
            let pieces: Vec<&str> = s.split(sep).collect();
            assert_eq!(split_on(s, sep), pieces);
            assert_eq!(prefix_before(s, sep), pieces[0]);
            assert_eq!(suffix_after(s, sep), pieces[pieces.len() - 1]);
        }
        for t in ["", "a", "b", "größe", "😀"] {
            assert_eq!(text_less(s, t), s < t);
        }
        assert_eq!(pad_left(s, 4), format!("{s:>4}"));
    }
    for n in [0, 7, 10, 99, 1234567890, u128::MAX] {
        assert_eq!(decimal_text(n), n.to_string());
    }
    assert!(contains_text(&vec!["a".to_string(), "b".to_string()], "b"));
    assert!(!contains_text(&vec!["a".to_string()], "b"));
}

fn benchmark(ids: &[&str]) -> BenchmarkProgress {
    let start = Timestamp::from_secs(5);
    let run = BenchmarkRun::new("d".to_string(), 1, 1, "main".to_string(), start);
    let queries = ids.iter().map(|id| (id.to_string(), format!("select {id}"))).collect();
    BenchmarkProgress::new(run, queries)
}

fn finished(id: &str) -> Event {
    Event::QueryFinished(BenchResult {
        id: id.to_string(),
        dataset: "d".to_string(),
        iterations: vec![],
    })
}

#[test]
fn benchmark_runs_compares_and_stores() {
    let mut progress = benchmark(&["q1", "q2"]);
    let mut steps: Vec<String> = vec![];
    loop {
        let step = progress.step();
        steps.push(format!("{step:?}"));
        let event = match step {
            Step::RunQuery { id, .. } => finished(&id),
            Step::Compare => Event::Compared,
            Step::Store => Event::Stored,
            Step::Finish | Step::GiveUp => break,
        };
        assert!(progress.accepts(&event));
        progress.advance(event);
    }
    assert_eq!(
        steps,
        vec![
            "RunQuery { id: \"q1\", sql: \"select q1\" }",
            "RunQuery { id: \"q2\", sql: \"select q2\" }",
            "Compare",
            "Store",
            "Finish",
        ]
    );
    let ids: Vec<&str> = progress.run().results.iter().map(|r| r.id.as_str()).collect();
    assert_eq!(ids, vec!["q1", "q2"]);
}

#[test]
fn benchmark_without_queries_is_compared_and_stored() {
    assert!(matches!(benchmark(&[]).step(), Step::Compare));
}

#[test]
fn first_failed_query_ends_the_benchmark() {
    let mut progress = benchmark(&["q1", "q2", "q3"]);
    progress.advance(finished("q1"));
    progress.advance(Event::Failed);
    assert!(matches!(progress.step(), Step::GiveUp));
    assert_eq!(progress.run().results.len(), 1);
    for event in [finished("q2"), Event::Compared, Event::Stored, Event::Failed] {
        assert!(!progress.accepts(&event));
    }
}

#[test]
fn events_must_fit_the_step() {
    let progress = benchmark(&["q1"]);
    assert!(progress.accepts(&finished("q1")));
    assert!(progress.accepts(&Event::Failed));
    assert!(!progress.accepts(&Event::Compared));
    assert!(!progress.accepts(&Event::Stored));
}
