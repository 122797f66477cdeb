//! Running one benchmark query: which statement comes next, and what is recorded of it.
//!
//! A [`QueryRun`] says what to execute next and is told how that went. A query may consist of
//! several statements; those that create or drop something are executed but not measured.

use crate::results::{iterations_view, BenchResult, BenchResultView, QueryIter, QueryIterView};
use crate::text::{
    decimal, decimal_text, has_prefix, law_splitting_cuts_at_every_separator,
    law_text_without_separators_is_not_split, split, split_on, strings_view, trim, trimmed,
};
use crate::time::Elapsed;
use vstd::prelude::*;
use vstd::string::*;

verus! {

/// Whether a statement prepares for the others or cleans up after them.
pub open spec fn is_setup(statement: Seq<char>) -> bool {
    "create"@.is_prefix_of(statement) || "drop"@.is_prefix_of(statement)
}

/// The pieces without the white space around them, and without those that hold nothing else.
pub open spec fn non_empty(pieces: Seq<Seq<char>>) -> Seq<Seq<char>>
    decreases pieces.len(),
{
    if pieces.len() == 0 {
        Seq::empty()
    } else {
        let front = non_empty(pieces.drop_last());
        let last = trimmed(pieces.last());
        if last.len() == 0 {
            front
        } else {
            front.push(last)
        }
    }
}

/// The statements of `sql`, which are separated by semicolons.
pub open spec fn statements_of(sql: Seq<char>) -> Seq<Seq<char>> {
    non_empty(split(sql, ';'))
}

/// The statements of `sql`, which are separated by semicolons.
pub fn statements(sql: &str) -> (r: Vec<String>)
    ensures
        strings_view(r@) == statements_of(sql@),
{
    let pieces = split_on(sql, ';');
    let ghost all = strings_view(pieces@);
    let mut r: Vec<String> = Vec::new();
    let mut i: usize = 0;
    assert(strings_view(r@) =~= Seq::<Seq<char>>::empty());
    while i < pieces.len()
        invariant
            i <= pieces@.len(),
            all == strings_view(pieces@),
            strings_view(r@) == non_empty(all.take(i as int)),
        decreases pieces@.len() - i,
    {
        let ghost before = strings_view(r@);
        assert(all.take(i + 1).drop_last() =~= all.take(i as int));
        assert(all.take(i + 1).last() == pieces@[i as int]@);
        let text = trim(pieces[i].as_str());
        if !text.as_str().is_empty() {
            r.push(text);
            assert(strings_view(r@) =~= before.push(text@));
        }
        i = i + 1;
    }
    assert(all.take(i as int) =~= all);
    r
}

/// Whether a statement prepares for the others or cleans up after them.
fn prepares(statement: &str) -> (r: bool)
    ensures
        r == is_setup(statement@),
{
    has_prefix(statement, "create") || has_prefix(statement, "drop")
}

/// How the execution of a statement went.
#[derive(Debug)]
pub enum Outcome {
    Succeeded {
        /// Time since the iteration started.
        elapsed: Elapsed,
        row_count: usize,
        n_tasks: usize,
        bytes_transferred: u64,
    },
    Failed(String),
}

/// The model of [`Outcome`].
pub enum OutcomeView {
    Succeeded { elapsed: Elapsed, row_count: usize, n_tasks: usize, bytes_transferred: u64 },
    Failed(Seq<char>),
}

impl View for Outcome {
    type V = OutcomeView;

    open spec fn view(&self) -> OutcomeView {
        match self {
            Outcome::Succeeded { elapsed, row_count, n_tasks, bytes_transferred } => {
                OutcomeView::Succeeded {
                    elapsed: *elapsed,
                    row_count: *row_count,
                    n_tasks: *n_tasks,
                    bytes_transferred: *bytes_transferred,
                }
            },
            Outcome::Failed(error) => OutcomeView::Failed(error@),
        }
    }
}

/// What is to be done next.
#[derive(Debug)]
pub enum Action {
    /// Execute a statement. Where it is the first of an iteration, the clock is started before. A
    /// statement that prepares for the others is not measured.
    Execute { statement: String, measured: bool, starts_iteration: bool },
    /// The query has been run as often as it should.
    Finish,
}

/// The progress of a benchmark query.
#[derive(Debug)]
pub struct QueryRun {
    statements: Vec<String>,
    iterations: usize,
    /// The iteration that is running; `iterations` when all have been run.
    iteration: usize,
    /// The statement of the iteration that is to be executed next.
    next: usize,
    result: BenchResult,
}

/// The model of [`QueryRun`].
#[verifier::ext_equal]
pub struct QueryRunView {
    pub statements: Seq<Seq<char>>,
    pub iterations: int,
    pub iteration: int,
    pub next: int,
    pub result: BenchResultView,
}

impl View for QueryRun {
    type V = QueryRunView;

    closed spec fn view(&self) -> QueryRunView {
        QueryRunView {
            statements: strings_view(self.statements@),
            iterations: self.iterations as int,
            iteration: self.iteration as int,
            next: self.next as int,
            result: self.result@,
        }
    }
}

/// What is recorded of a measured statement.
pub open spec fn record_of(outcome: OutcomeView) -> QueryIterView {
    match outcome {
        OutcomeView::Succeeded { elapsed, row_count, n_tasks, bytes_transferred } => {
            QueryIterView { row_count, n_tasks, elapsed, bytes_transferred, error: None }
        },
        OutcomeView::Failed(error) => QueryIterView {
            row_count: 0,
            n_tasks: 0,
            elapsed: Elapsed { secs: 0, nanos: 0 },
            bytes_transferred: 0,
            error: Some(error),
        },
    }
}

impl QueryRunView {
    /// A query that has not been run yet. Without statements there is nothing to run.
    pub open spec fn start(
        id: Seq<char>,
        dataset: Seq<char>,
        statements: Seq<Seq<char>>,
        iterations: int,
    ) -> QueryRunView {
        QueryRunView {
            statements,
            iterations,
            iteration: if statements.len() == 0 {
                iterations
            } else {
                0
            },
            next: 0,
            result: BenchResultView { id, dataset, iterations: Seq::empty() },
        }
    }

    pub open spec fn well_formed(self) -> bool {
        &&& 0 <= self.iteration <= self.iterations
        &&& 0 <= self.next
        &&& self.finished() ==> self.next == 0
        &&& !self.finished() ==> self.next < self.statements.len()
    }

    /// The query has been run as often as it should.
    pub open spec fn finished(self) -> bool {
        self.iteration == self.iterations
    }

    /// The statement to be executed next.
    pub open spec fn statement(self) -> Seq<char> {
        self.statements[self.next]
    }

    /// At the start of the next iteration.
    pub open spec fn at_next_iteration(self) -> QueryRunView {
        QueryRunView { iteration: self.iteration + 1, next: 0, ..self }
    }

    /// At the next statement, of this iteration or the one after it.
    pub open spec fn at_next_statement(self) -> QueryRunView {
        if self.next + 1 < self.statements.len() {
            QueryRunView { next: self.next + 1, ..self }
        } else {
            self.at_next_iteration()
        }
    }

    /// With the outcome of a measured statement recorded.
    pub open spec fn with_record(self, outcome: OutcomeView) -> QueryRunView {
        QueryRunView {
            result: BenchResultView {
                iterations: self.result.iterations.push(record_of(outcome)),
                ..self.result
            },
            ..self
        }
    }

    /// After the statement that was to be executed next has been executed.
    ///
    /// A statement that prepares is not recorded, and where it fails the query cannot be run. A
    /// failure of any other statement is recorded and ends the iteration.
    pub open spec fn after(self, outcome: OutcomeView) -> Result<QueryRunView, Seq<char>> {
        match outcome {
            OutcomeView::Succeeded { .. } => if is_setup(self.statement()) {
                Ok(self.at_next_statement())
            } else {
                Ok(self.with_record(outcome).at_next_statement())
            },
            OutcomeView::Failed(error) => if is_setup(self.statement()) {
                Err(error)
            } else {
                Ok(self.with_record(outcome).at_next_iteration())
            },
        }
    }

    /// After several statements have been executed, unless one of them ended the run or it was
    /// finished before.
    pub open spec fn after_all(self, outcomes: Seq<OutcomeView>) -> Option<QueryRunView>
        decreases outcomes.len(),
    {
        if outcomes.len() == 0 {
            Some(self)
        } else {
            match self.after_all(outcomes.drop_last()) {
                Some(before) => if before.finished() {
                    None
                } else {
                    before.after(outcomes.last()).ok()
                },
                None => None,
            }
        }
    }
}

impl QueryRun {
    /// A query that has not been run yet.
    pub fn new(id: &str, dataset: &str, sql: &str, iterations: usize) -> (r: QueryRun)
        ensures
            r@ == QueryRunView::start(id@, dataset@, statements_of(sql@), iterations as int),
            r@.well_formed(),
    {
        let statements = statements(sql);
        let iteration: usize = if statements.len() == 0 {
            iterations
        } else {
            0
        };
        let result = BenchResult {
            id: id.to_owned(),
            dataset: dataset.to_owned(),
            iterations: Vec::new(),
        };
        assert(result@.iterations =~= Seq::<QueryIterView>::empty());
        QueryRun { statements, iterations, iteration, next: 0, result }
    }

    /// What is to be done next.
    pub fn action(&self) -> (r: Action)
        requires
            self@.well_formed(),
        ensures
            match r {
                Action::Execute { statement, measured, starts_iteration } => {
                    &&& !self@.finished()
                    &&& statement@ == self@.statement()
                    &&& measured == !is_setup(statement@)
                    &&& starts_iteration == (self@.next == 0)
                },
                Action::Finish => self@.finished(),
            },
    {
        if self.iteration == self.iterations {
            Action::Finish
        } else {
            assert(self@.statement() == self.statements@[self.next as int]@);
            let statement = self.statements[self.next].clone();
            let measured = !prepares(statement.as_str());
            Action::Execute { statement, measured, starts_iteration: self.next == 0 }
        }
    }

    /// The number of the iteration that is running.
    pub fn iteration(&self) -> (r: usize)
        ensures
            r == self@.iteration,
    {
        self.iteration
    }

    /// Takes note of how the statement that was to be executed next went. An error means that the
    /// query cannot be run; its message is the one that was given.
    pub fn executed(&mut self, outcome: Outcome) -> (r: Result<(), String>)
        requires
            old(self)@.well_formed(),
            !old(self)@.finished(),
        ensures
            match r {
                Ok(()) => old(self)@.after(outcome@) == Ok::<QueryRunView, Seq<char>>(final(self)@),
                Err(error) => {
                    &&& old(self)@.after(outcome@) == Err::<QueryRunView, Seq<char>>(error@)
                    &&& final(self)@ == old(self)@
                },
            },
            final(self)@.well_formed(),
    {
        let ghost before = self@;
        let setup = prepares(self.statements[self.next].as_str());
        assert(before.statement() == self.statements@[self.next as int]@);
        match outcome {
            Outcome::Succeeded { elapsed, row_count, n_tasks, bytes_transferred } => {
                if !setup {
                    self.record(
                        QueryIter { row_count, n_tasks, elapsed, bytes_transferred, error: None },
                    );
                }
                if self.next < self.statements.len() - 1 {
                    self.next = self.next + 1;
                } else {
                    self.iteration = self.iteration + 1;
                    self.next = 0;
                }
                Ok(())
            },
            Outcome::Failed(error) => {
                if setup {
                    return Err(error);
                }
                self.record(
                    QueryIter {
                        row_count: 0,
                        n_tasks: 0,
                        elapsed: Elapsed::zero(),
                        bytes_transferred: 0,
                        error: Some(error),
                    },
                );
                self.iteration = self.iteration + 1;
                self.next = 0;
                Ok(())
            },
        }
    }

    fn record(&mut self, iteration: QueryIter)
        ensures
            final(self)@ == (QueryRunView {
                result: BenchResultView {
                    iterations: old(self)@.result.iterations.push(iteration@),
                    ..old(self)@.result
                },
                ..old(self)@
            }),
            final(self).statements == old(self).statements,
            final(self).iterations == old(self).iterations,
            final(self).iteration == old(self).iteration,
            final(self).next == old(self).next,
    {
        let ghost before = iterations_view(self.result.iterations@);
        self.result.iterations.push(iteration);
        assert(iterations_view(self.result.iterations@) =~= before.push(iteration@));
    }

    /// What was recorded.
    pub fn into_result(self) -> (r: BenchResult)
        ensures
            r@ == self@.result,
    {
        self.result
    }
}

/// The number of statements among the first `n` that are measured.
pub open spec fn measured(statements: Seq<Seq<char>>, n: int) -> nat
    decreases n,
{
    if n <= 0 {
        0
    } else {
        measured(statements, n - 1) + if is_setup(statements[n - 1]) {
            0nat
        } else {
            1nat
        }
    }
}

/// The number of iterations on record that failed.
pub open spec fn failures(iterations: Seq<QueryIterView>) -> nat {
    iterations.filter(|v: QueryIterView| v.error is Some).len()
}

proof fn lemma_failures_push(iterations: Seq<QueryIterView>, last: QueryIterView)
    ensures
        failures(iterations.push(last)) == failures(iterations) + if last.error is Some {
            1nat
        } else {
            0nat
        },
{
    reveal(Seq::filter);
    assert(iterations.push(last).drop_last() =~= iterations);
}

/// The statements that are yet to be executed if none fails.
pub open spec fn remaining(run: QueryRunView) -> int {
    (run.iterations - run.iteration) * run.statements.len() - run.next
}

/// A run comes to its end: each statement that is executed brings it nearer to it, by one where
/// the statement succeeds.
pub proof fn law_every_statement_brings_the_end_nearer(run: QueryRunView, outcome: OutcomeView)
    requires
        run.well_formed(),
        !run.finished(),
    ensures
        remaining(run) > 0,
        match run.after(outcome) {
            Ok(next) => {
                &&& next.well_formed()
                &&& 0 <= remaining(next) < remaining(run)
                &&& outcome is Succeeded ==> remaining(next) == remaining(run) - 1
                &&& remaining(next) == 0 <==> next.finished()
            },
            Err(_) => outcome is Failed,
        },
{
    let n = run.statements.len() as int;
    let left = run.iterations - run.iteration;
    assert(left * n >= n) by (nonlinear_arith)
        requires
            left >= 1,
            n >= 0,
    ;
    assert((left - 1) * n == left * n - n) by (nonlinear_arith);
    if left > 1 {
        assert((left - 1) * n >= n) by (nonlinear_arith)
            requires
                left - 1 >= 1,
                n >= 0,
        ;
    }
    assert(0 * n == 0) by (nonlinear_arith);
}

/// What has been recorded stays as it is: executing a statement adds at most one record, and adds
/// it at the end.
pub proof fn law_records_are_only_added(run: QueryRunView, outcome: OutcomeView)
    ensures
        run.after(outcome) matches Ok(next) ==> {
            ||| next.result == run.result && is_setup(run.statement())
            ||| next.result == (BenchResultView {
                iterations: run.result.iterations.push(record_of(outcome)),
                ..run.result
            }) && !is_setup(run.statement())
        },
{
}

proof fn lemma_clean_run(run: QueryRunView, outcomes: Seq<OutcomeView>)
    requires
        run.well_formed(),
        run.iteration == 0 || run.finished(),
        run.next == 0,
        run.result.iterations.len() == run.iteration * measured(
            run.statements,
            run.statements.len() as int,
        ),
        failures(run.result.iterations) == 0,
        forall|i: int| 0 <= i < outcomes.len() ==> #[trigger] outcomes[i] is Succeeded,
        outcomes.len() <= remaining(run),
    ensures
        run.after_all(outcomes) matches Some(last) && {
            &&& last.well_formed()
            &&& last.statements == run.statements
            &&& last.iterations == run.iterations
            &&& remaining(last) == remaining(run) - outcomes.len()
            &&& failures(last.result.iterations) == 0
            &&& last.result.iterations.len() == last.iteration * measured(
                run.statements,
                run.statements.len() as int,
            ) + measured(run.statements, last.next)
        },
    decreases outcomes.len(),
{
    if outcomes.len() > 0 {
        lemma_clean_run(run, outcomes.drop_last());
        let before = run.after_all(outcomes.drop_last())->0;
        let outcome = outcomes.last();
        let n = run.statements.len() as int;
        assert(0 * n == 0) by (nonlinear_arith);
        assert(!before.finished());
        law_every_statement_brings_the_end_nearer(before, outcome);
        lemma_failures_push(before.result.iterations, record_of(outcome));
        let q = measured(run.statements, n) as int;
        assert((before.iteration + 1) * q == before.iteration * q + q) by (nonlinear_arith);
    }
}

/// A run in which no statement fails ends when every statement has been executed in every
/// iteration. It has then recorded every measured statement once per iteration, without an error.
pub proof fn law_clean_run_records_every_statement(
    id: Seq<char>,
    dataset: Seq<char>,
    statements: Seq<Seq<char>>,
    iterations: nat,
    outcomes: Seq<OutcomeView>,
)
    requires
        forall|i: int| 0 <= i < outcomes.len() ==> #[trigger] outcomes[i] is Succeeded,
        outcomes.len() == iterations * statements.len(),
    ensures
        QueryRunView::start(id, dataset, statements, iterations as int).after_all(
            outcomes,
        ) matches Some(last) && {
            &&& last.finished()
            &&& last.result.iterations.len() == iterations * measured(
                statements,
                statements.len() as int,
            )
            &&& failures(last.result.iterations) == 0
        },
{
    let run = QueryRunView::start(id, dataset, statements, iterations as int);
    let n = statements.len() as int;
    let q = measured(statements, n) as int;
    assert(0 * q == 0) by (nonlinear_arith);
    assert(iterations * 0 == 0) by (nonlinear_arith);
    assert(0 * n == 0) by (nonlinear_arith);
    assert(failures(run.result.iterations) == 0) by {
        reveal(Seq::filter);
    }
    lemma_clean_run(run, outcomes);
    let last = run.after_all(outcomes)->0;
    if !last.finished() {
        let left = last.iterations - last.iteration;
        assert(left * n >= n) by (nonlinear_arith)
            requires
                left >= 1,
                n >= 0,
        ;
    }
}

/// Each iteration ends with its first failure, so that a run never records more failures than it
/// has gone through iterations.
pub proof fn law_one_failure_per_iteration(
    id: Seq<char>,
    dataset: Seq<char>,
    statements: Seq<Seq<char>>,
    iterations: nat,
    outcomes: Seq<OutcomeView>,
)
    ensures
        QueryRunView::start(id, dataset, statements, iterations as int).after_all(
            outcomes,
        ) matches Some(last) ==> failures(last.result.iterations) <= last.iteration <= iterations,
    decreases outcomes.len(),
{
    let run = QueryRunView::start(id, dataset, statements, iterations as int);
    if outcomes.len() == 0 {
        reveal(Seq::filter);
    } else {
        law_one_failure_per_iteration(id, dataset, statements, iterations, outcomes.drop_last());
        lemma_bounds(run, outcomes.drop_last());
        if let Some(before) = run.after_all(outcomes.drop_last()) {
            lemma_failures_push(before.result.iterations, record_of(outcomes.last()));
        }
    }
}

proof fn lemma_bounds(run: QueryRunView, outcomes: Seq<OutcomeView>)
    requires
        run.well_formed(),
    ensures
        run.after_all(outcomes) matches Some(last) ==> last.well_formed() && last.iterations
            == run.iterations,
    decreases outcomes.len(),
{
    if outcomes.len() > 0 {
        lemma_bounds(run, outcomes.drop_last());
        if let Some(before) = run.after_all(outcomes.drop_last()) {
            if !before.finished() {
                law_every_statement_brings_the_end_nearer(before, outcomes.last());
            }
        }
    }
}

/// The rows that the batches of a query hold together.
pub open spec fn total_rows(batches: Seq<usize>) -> nat
    decreases batches.len(),
{
    if batches.len() == 0 {
        0
    } else {
        total_rows(batches.drop_last()) + batches.last() as nat
    }
}

proof fn lemma_rows_of_prefix(batches: Seq<usize>, n: int)
    requires
        0 <= n <= batches.len(),
    ensures
        total_rows(batches.take(n)) <= total_rows(batches),
    decreases batches.len(),
{
    if n == batches.len() {
        assert(batches.take(n) =~= batches);
    } else {
        assert(batches.drop_last().take(n) =~= batches.take(n));
        lemma_rows_of_prefix(batches.drop_last(), n);
    }
}

/// The rows that the batches of a query hold together, unless a `usize` cannot hold the number.
pub fn sum_rows(batches: &Vec<usize>) -> (r: Option<usize>)
    ensures
        r == if total_rows(batches@) <= usize::MAX {
            Some(total_rows(batches@) as usize)
        } else {
            None
        },
{
    let mut sum: usize = 0;
    let mut i: usize = 0;
    while i < batches.len()
        invariant
            i <= batches@.len(),
            sum == total_rows(batches@.take(i as int)),
        decreases batches@.len() - i,
    {
        proof {
            lemma_rows_of_prefix(batches@, i + 1);
        }
        assert(batches@.take(i + 1).drop_last() =~= batches@.take(i as int));
        sum = match sum.checked_add(batches[i]) {
            Some(sum) => sum,
            None => {
                return None;
            },
        };
        i = i + 1;
    }
    assert(batches@.take(i as int) =~= batches@);
    Some(sum)
}

/// How the lines on an iteration begin.
pub open spec fn iteration_text(id: Seq<char>, iteration: nat) -> Seq<char> {
    "Query "@ + id + " iteration "@ + decimal(iteration)
}

/// The line on a measured statement that succeeded. `ms` and `kb` are the elapsed milliseconds
/// and the transferred kilobytes as text.
pub fn took_line(id: &str, iteration: usize, ms: &str, row_count: usize, kb: &str) -> (r: String)
    ensures
        r@ == iteration_text(id@, iteration as nat) + " took "@ + ms@ + " ms and returned "@
            + decimal(row_count as nat) + " rows ("@ + kb@ + " KB transferred)"@,
{
    "Query ".to_owned().concat(id).concat(" iteration ").concat(
        decimal_text(iteration as u128).as_str(),
    ).concat(" took ").concat(ms).concat(" ms and returned ").concat(
        decimal_text(row_count as u128).as_str(),
    ).concat(" rows (").concat(kb).concat(" KB transferred)")
}

/// The line on a measured statement that failed.
pub fn failed_line(id: &str, iteration: usize, error: &str) -> (r: String)
    ensures
        r@ == iteration_text(id@, iteration as nat) + " failed: "@ + error@,
{
    "Query ".to_owned().concat(id).concat(" iteration ").concat(
        decimal_text(iteration as u128).as_str(),
    ).concat(" failed: ").concat(error)
}

/// The line on all iterations of a query.
pub fn avg_line(result: &BenchResult) -> (r: String)
    requires
        result@.has_avg(),
    ensures
        r@ == "Query "@ + result@.id + " avg time: "@ + decimal(result@.avg()) + " ms"@,
{
    "Query ".to_owned().concat(result.id.as_str()).concat(" avg time: ").concat(
        decimal_text(result.avg()).as_str(),
    ).concat(" ms")
}

/// A section of the debug output.
pub fn plan_section(title: &str, plan: &str) -> (r: String)
    ensures
        r@ == "=== "@ + title@ + " ===\n"@ + plan@ + "\n"@,
{
    "=== ".to_owned().concat(title).concat(" ===\n").concat(plan).concat("\n")
}

/// The model of an outcome holds what the outcome holds.
pub proof fn law_outcomes_are_seen_as_they_are(outcome: Outcome)
    ensures
        match outcome {
            Outcome::Succeeded { elapsed, row_count, n_tasks, bytes_transferred } => outcome@ == (
            OutcomeView::Succeeded { elapsed, row_count, n_tasks, bytes_transferred }),
            Outcome::Failed(error) => outcome@ == OutcomeView::Failed(error@),
        },
{
}

/// Where a measured statement succeeds, exactly what was measured is recorded behind the earlier
/// records, without an error. The run goes on with the next statement, or with the next iteration
/// where there is none.
pub proof fn law_success_is_recorded_as_measured(
    run: QueryRunView,
    elapsed: Elapsed,
    row_count: usize,
    n_tasks: usize,
    bytes_transferred: u64,
)
    requires
        run.well_formed(),
        !run.finished(),
        !"create"@.is_prefix_of(run.statements[run.next]),
        !"drop"@.is_prefix_of(run.statements[run.next]),
    ensures
        run.after(
            OutcomeView::Succeeded { elapsed, row_count, n_tasks, bytes_transferred },
        ) matches Ok(next) && {
            let records = next.result.iterations;
            &&& records.len() == run.result.iterations.len() + 1
            &&& forall|i: int|
                0 <= i < run.result.iterations.len() ==> #[trigger] records[i]
                    == run.result.iterations[i]
            &&& records.last().elapsed.secs == elapsed.secs
            &&& records.last().elapsed.nanos == elapsed.nanos
            &&& records.last().row_count == row_count
            &&& records.last().n_tasks == n_tasks
            &&& records.last().bytes_transferred == bytes_transferred
            &&& records.last().error is None
            &&& next.result.id == run.result.id
            &&& next.result.dataset == run.result.dataset
            &&& next.statements == run.statements
            &&& next.iterations == run.iterations
            &&& run.next + 1 < run.statements.len() ==> next.next == run.next + 1 && next.iteration
                == run.iteration
            &&& run.next + 1 == run.statements.len() ==> next.next == 0 && next.iteration
                == run.iteration + 1
        },
{
}

/// Where a measured statement fails, its error is recorded behind the earlier records, with no
/// time, rows, tasks or bytes. The rest of the iteration is left out.
pub proof fn law_failure_is_recorded_with_its_error(run: QueryRunView, error: Seq<char>)
    requires
        run.well_formed(),
        !run.finished(),
        !"create"@.is_prefix_of(run.statements[run.next]),
        !"drop"@.is_prefix_of(run.statements[run.next]),
    ensures
        run.after(OutcomeView::Failed(error)) matches Ok(next) && {
            let records = next.result.iterations;
            &&& records.len() == run.result.iterations.len() + 1
            &&& forall|i: int|
                0 <= i < run.result.iterations.len() ==> #[trigger] records[i]
                    == run.result.iterations[i]
            &&& records.last().elapsed.secs == 0
            &&& records.last().elapsed.nanos == 0
            &&& records.last().row_count == 0
            &&& records.last().n_tasks == 0
            &&& records.last().bytes_transferred == 0
            &&& records.last().error == Some(error)
            &&& next.result.id == run.result.id
            &&& next.result.dataset == run.result.dataset
            &&& next.statements == run.statements
            &&& next.iterations == run.iterations
            &&& next.next == 0
            &&& next.iteration == run.iteration + 1
        },
{
}

/// A statement that starts with `create` or `drop` is not recorded. Where it succeeds the run goes
/// on, and where it fails the run ends with its error.
pub proof fn law_preparing_is_not_recorded(
    run: QueryRunView,
    elapsed: Elapsed,
    row_count: usize,
    n_tasks: usize,
    bytes_transferred: u64,
    error: Seq<char>,
)
    requires
        run.well_formed(),
        !run.finished(),
        "create"@.is_prefix_of(run.statements[run.next]) || "drop"@.is_prefix_of(
            run.statements[run.next],
        ),
    ensures
        run.after(
            OutcomeView::Succeeded { elapsed, row_count, n_tasks, bytes_transferred },
        ) matches Ok(next) && {
            &&& next.result == run.result
            &&& next.statements == run.statements
            &&& next.iterations == run.iterations
            &&& run.next + 1 < run.statements.len() ==> next.next == run.next + 1 && next.iteration
                == run.iteration
            &&& run.next + 1 == run.statements.len() ==> next.next == 0 && next.iteration
                == run.iteration + 1
        },
        run.after(OutcomeView::Failed(error)) == Err::<QueryRunView, Seq<char>>(error),
{
}

/// A run starts at the first statement of the first iteration with nothing recorded, and is
/// finished at once if there is nothing to run.
pub proof fn law_run_starts_at_the_beginning(
    id: Seq<char>,
    dataset: Seq<char>,
    statements: Seq<Seq<char>>,
    iterations: nat,
)
    ensures
        ({
            let run = QueryRunView::start(id, dataset, statements, iterations as int);
            &&& run.statements == statements
            &&& run.iterations == iterations
            &&& run.next == 0
            &&& run.result.id == id
            &&& run.result.dataset == dataset
            &&& run.result.iterations.len() == 0
            &&& statements.len() > 0 ==> run.iteration == 0
            &&& statements.len() == 0 || iterations == 0 <==> run.finished()
        }),
{
}

/// Every semicolon separates statements: the statements of two texts with a semicolon between them
/// are those of the first and then those of the second.
pub proof fn law_semicolons_separate_statements(a: Seq<char>, b: Seq<char>)
    ensures
        statements_of(a.push(';') + b) == statements_of(a) + statements_of(b),
{
    law_splitting_cuts_at_every_separator(a, b, ';');
    lemma_non_empty_of_sum(split(a, ';'), split(b, ';'));
}

/// A text without a semicolon is one statement, without the white space around it, or none if there
/// is nothing else.
pub proof fn law_text_without_semicolons_is_a_statement(a: Seq<char>)
    requires
        !a.contains(';'),
    ensures
        trimmed(a).len() > 0 ==> statements_of(a) == seq![trimmed(a)],
        trimmed(a).len() == 0 ==> statements_of(a) == Seq::<Seq<char>>::empty(),
{
    law_text_without_separators_is_not_split(a, ';');
    reveal_with_fuel(non_empty, 2);
    assert(seq![a].drop_last() =~= Seq::<Seq<char>>::empty());
    assert(Seq::<Seq<char>>::empty().push(trimmed(a)) =~= seq![trimmed(a)]);
}

proof fn lemma_non_empty_of_sum(a: Seq<Seq<char>>, b: Seq<Seq<char>>)
    ensures
        non_empty(a + b) == non_empty(a) + non_empty(b),
    decreases b.len(),
{
    if b.len() == 0 {
        assert(a + b =~= a);
        assert(non_empty(a) + non_empty(b) =~= non_empty(a));
    } else {
        lemma_non_empty_of_sum(a, b.drop_last());
        assert((a + b).drop_last() =~= a + b.drop_last());
        assert((a + b).last() == b.last());
        assert(non_empty(a + b) =~= non_empty(a) + non_empty(b));
    }
}

/// The rows of every batch count.
pub proof fn law_every_batch_counts(a: Seq<usize>, b: Seq<usize>, one: usize)
    ensures
        total_rows(a + b) == total_rows(a) + total_rows(b),
        total_rows(seq![one]) == one,
    decreases b.len(),
{
    reveal_with_fuel(total_rows, 2);
    assert(seq![one].drop_last() =~= Seq::<usize>::empty());
    if b.len() == 0 {
        assert(a + b =~= a);
    } else {
        law_every_batch_counts(a, b.drop_last(), one);
        assert((a + b).drop_last() =~= a + b.drop_last());
    }
}

/// The lines on an iteration name the query and then the number of the iteration, whatever both
/// are.
pub proof fn law_lines_name_query_and_iteration(id: Seq<char>, iteration: nat)
    ensures
        iteration_text(id, iteration).len() == "Query "@.len() + id.len() + " iteration "@.len()
            + decimal(iteration).len(),
        iteration_text(id, iteration).take("Query "@.len() as int) == "Query "@,
        iteration_text(id, iteration).subrange(
            "Query "@.len() as int,
            "Query "@.len() + id.len() as int,
        ) == id,
        iteration_text(id, iteration).subrange(
            "Query "@.len() + id.len() as int,
            "Query "@.len() + id.len() + " iteration "@.len() as int,
        ) == " iteration "@,
        iteration_text(id, iteration).skip(
            "Query "@.len() + id.len() + " iteration "@.len() as int,
        ) == decimal(iteration),
{
    let text = iteration_text(id, iteration);
    assert(text.take("Query "@.len() as int) =~= "Query "@);
    assert(text.subrange("Query "@.len() as int, "Query "@.len() + id.len() as int) =~= id);
    assert(text.subrange(
        "Query "@.len() + id.len() as int,
        "Query "@.len() + id.len() + " iteration "@.len() as int,
    ) =~= " iteration "@);
    assert(text.skip("Query "@.len() + id.len() + " iteration "@.len() as int) =~= decimal(
        iteration,
    ));
}

/// A run is finished exactly when it has gone through all its iterations. The statement that comes
/// next is the one at which the run has arrived, and it prepares for the others exactly if it
/// starts with `create` or `drop`.
pub proof fn law_run_is_finished_after_all_iterations(run: QueryRunView)
    ensures
        run.finished() <==> run.iteration == run.iterations,
        run.statement() == run.statements[run.next],
        is_setup(run.statement()) <==> "create"@.is_prefix_of(run.statements[run.next])
            || "drop"@.is_prefix_of(run.statements[run.next]),
{
}

} // verus!
