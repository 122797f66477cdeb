//! Running a benchmark: one query after the other, then the comparison, then the storing.
//!
//! A [`BenchmarkProgress`] says what to do next and is told how that went. The first query that
//! cannot be run ends the benchmark, and nothing is compared or stored.

use crate::queries::queries_view;
use crate::results::{results_view, BenchResult, BenchResultView, BenchmarkRun, BenchmarkRunView};
use vstd::prelude::*;

verus! {

/// How far a benchmark has come.
#[derive(Clone, Copy, Debug, PartialEq, Eq, Structural)]
pub enum Stage {
    /// The query at this position is to be run.
    Query(usize),
    /// The run is to be compared with the previous one.
    Compare,
    /// The run is to be stored.
    Store,
    /// Everything has been done.
    Finished,
    /// Something failed.
    Aborted,
}

/// What came of the latest step.
#[derive(Debug)]
pub enum Event {
    QueryFinished(BenchResult),
    Compared,
    Stored,
    /// The step could not be done.
    Failed,
}

/// The model of [`Event`].
pub enum EventView {
    QueryFinished(BenchResultView),
    Compared,
    Stored,
    Failed,
}

impl View for Event {
    type V = EventView;

    open spec fn view(&self) -> EventView {
        match self {
            Event::QueryFinished(result) => EventView::QueryFinished(result@),
            Event::Compared => EventView::Compared,
            Event::Stored => EventView::Stored,
            Event::Failed => EventView::Failed,
        }
    }
}

/// What is to be done next.
#[derive(Debug)]
pub enum Step {
    /// Run the query with this id and text.
    RunQuery { id: String, sql: String },
    /// Compare the run with the previous one.
    Compare,
    /// Store the run.
    Store,
    /// Nothing: everything has been done.
    Finish,
    /// Nothing: something failed.
    GiveUp,
}

/// A benchmark that is being run.
#[derive(Debug)]
pub struct BenchmarkProgress {
    queries: Vec<(String, String)>,
    run: BenchmarkRun,
    stage: Stage,
}

/// The model of [`BenchmarkProgress`].
#[verifier::ext_equal]
pub struct ProgressView {
    pub queries: Seq<(Seq<char>, Seq<char>)>,
    pub run: BenchmarkRunView,
    pub stage: Stage,
}

impl View for BenchmarkProgress {
    type V = ProgressView;

    closed spec fn view(&self) -> ProgressView {
        ProgressView {
            queries: queries_view(self.queries@),
            run: self.run@,
            stage: self.stage,
        }
    }
}

impl ProgressView {
    /// The stage at which the first `n` queries have been run.
    pub open spec fn stage_at(queries: Seq<(Seq<char>, Seq<char>)>, n: int) -> Stage {
        if n < queries.len() {
            Stage::Query(n as usize)
        } else {
            Stage::Compare
        }
    }

    /// A benchmark of which nothing has been run yet.
    pub open spec fn start(
        run: BenchmarkRunView,
        queries: Seq<(Seq<char>, Seq<char>)>,
    ) -> ProgressView {
        ProgressView { queries, run, stage: Self::stage_at(queries, 0) }
    }

    /// The run has the results of the queries that have been run.
    pub open spec fn well_formed(self) -> bool {
        &&& self.queries.len() <= usize::MAX
        &&& match self.stage {
            Stage::Query(i) => i < self.queries.len() && self.run.results.len() == i,
            Stage::Aborted => self.run.results.len() <= self.queries.len(),
            _ => self.run.results.len() == self.queries.len(),
        }
    }

    /// Whether the event can come of the step that is to be done.
    pub open spec fn fits(self, event: EventView) -> bool {
        match (self.stage, event) {
            (Stage::Query(_), EventView::QueryFinished(_)) => true,
            (Stage::Compare, EventView::Compared) => true,
            (Stage::Store, EventView::Stored) => true,
            (Stage::Finished, _) => false,
            (Stage::Aborted, _) => false,
            (_, EventView::Failed) => true,
            _ => false,
        }
    }

    /// After an event that fits.
    pub open spec fn after(self, event: EventView) -> ProgressView {
        match event {
            EventView::QueryFinished(result) => ProgressView {
                run: BenchmarkRunView { results: self.run.results.push(result), ..self.run },
                stage: Self::stage_at(self.queries, self.run.results.len() as int + 1),
                ..self
            },
            EventView::Compared => ProgressView { stage: Stage::Store, ..self },
            EventView::Stored => ProgressView { stage: Stage::Finished, ..self },
            EventView::Failed => ProgressView { stage: Stage::Aborted, ..self },
        }
    }

    /// After several events, unless one of them does not fit.
    pub open spec fn after_all(self, events: Seq<EventView>) -> Option<ProgressView>
        decreases events.len(),
    {
        if events.len() == 0 {
            Some(self)
        } else {
            match self.after_all(events.drop_last()) {
                Some(before) => if before.fits(events.last()) {
                    Some(before.after(events.last()))
                } else {
                    None
                },
                None => None,
            }
        }
    }
}

impl BenchmarkProgress {
    /// A benchmark of which nothing has been run yet.
    pub fn new(run: BenchmarkRun, queries: Vec<(String, String)>) -> (r: BenchmarkProgress)
        requires
            run@.results.len() == 0,
        ensures
            r@ == ProgressView::start(run@, queries_view(queries@)),
            r@.well_formed(),
    {
        let stage = if queries.len() > 0 {
            Stage::Query(0)
        } else {
            Stage::Compare
        };
        BenchmarkProgress { queries, run, stage }
    }

    /// What is to be done next.
    pub fn step(&self) -> (r: Step)
        requires
            self@.well_formed(),
        ensures
            match self@.stage {
                Stage::Query(i) => r matches Step::RunQuery { id, sql } && (id@, sql@)
                    == self@.queries[i as int],
                Stage::Compare => r is Compare,
                Stage::Store => r is Store,
                Stage::Finished => r is Finish,
                Stage::Aborted => r is GiveUp,
            },
    {
        match self.stage {
            Stage::Query(i) => {
                assert(self@.queries[i as int] == (
                    self.queries@[i as int].0@,
                    self.queries@[i as int].1@,
                ));
                Step::RunQuery { id: self.queries[i].0.clone(), sql: self.queries[i].1.clone() }
            },
            Stage::Compare => Step::Compare,
            Stage::Store => Step::Store,
            Stage::Finished => Step::Finish,
            Stage::Aborted => Step::GiveUp,
        }
    }

    /// Whether the event can come of the step that is to be done.
    pub fn accepts(&self, event: &Event) -> (r: bool)
        ensures
            r == self@.fits(event@),
    {
        match (self.stage, event) {
            (Stage::Query(_), Event::QueryFinished(_)) => true,
            (Stage::Compare, Event::Compared) => true,
            (Stage::Store, Event::Stored) => true,
            (Stage::Finished, _) => false,
            (Stage::Aborted, _) => false,
            (_, Event::Failed) => true,
            _ => false,
        }
    }

    /// Takes note of what came of the step that was to be done.
    pub fn advance(&mut self, event: Event)
        requires
            old(self)@.well_formed(),
            old(self)@.fits(event@),
        ensures
            final(self)@ == old(self)@.after(event@),
            final(self)@.well_formed(),
    {
        match event {
            Event::QueryFinished(result) => {
                let ghost before = results_view(self.run.results@);
                self.run.results.push(result);
                assert(results_view(self.run.results@) =~= before.push(result@));
                let done: usize = self.run.results.len();
                self.stage =
                if done < self.queries.len() {
                    Stage::Query(done)
                } else {
                    Stage::Compare
                };
            },
            Event::Compared => {
                self.stage = Stage::Store;
            },
            Event::Stored => {
                self.stage = Stage::Finished;
            },
            Event::Failed => {
                self.stage = Stage::Aborted;
            },
        }
    }

    /// The run as far as it has come.
    pub fn run(&self) -> (r: &BenchmarkRun)
        ensures
            r@ == self@.run,
    {
        &self.run
    }
}

/// What has happened when a benchmark has come as far as `progress`.
spec fn has_happened(progress: ProgressView, events: Seq<EventView>) -> bool {
    let done = progress.run.results.len() as int;
    &&& done <= events.len()
    &&& forall|i: int|
        0 <= i < done ==> #[trigger] events[i] == EventView::QueryFinished(progress.run.results[i])
    &&& match progress.stage {
        Stage::Query(_) => events.len() == done,
        Stage::Compare => events.len() == done,
        Stage::Store => events.len() == done + 1 && events[done] is Compared,
        Stage::Finished => events.len() == done + 2 && events[done] is Compared && events[done
            + 1] is Stored,
        Stage::Aborted => events.len() > done && events.last() is Failed,
    }
}

proof fn lemma_has_happened(start: ProgressView, events: Seq<EventView>)
    requires
        start == ProgressView::start(start.run, start.queries),
        start.run.results.len() == 0,
        start.queries.len() <= usize::MAX,
    ensures
        start.after_all(events) matches Some(progress) ==> {
            &&& progress.well_formed()
            &&& progress.queries == start.queries
            &&& has_happened(progress, events)
        },
    decreases events.len(),
{
    if events.len() > 0 {
        let front = events.drop_last();
        lemma_has_happened(start, front);
        if let Some(before) = start.after_all(front) {
            if before.fits(events.last()) {
                let now = before.after(events.last());
                assert forall|i: int| 0 <= i < now.run.results.len() implies #[trigger] events[i]
                    == EventView::QueryFinished(now.run.results[i]) by {
                    if i < before.run.results.len() {
                        assert(front[i] == events[i]);
                    }
                }
                if before.stage == Stage::Store {
                    assert(front[before.run.results.len() as int] == events[
                        before.run.results.len() as int
                    ]);
                }
            }
        }
    }
}

/// A benchmark that has been finished has run every query in order, compared the run with all its
/// results, and then stored it; nothing else happened.
pub proof fn law_finished_benchmark_did_everything_in_order(
    run: BenchmarkRunView,
    queries: Seq<(Seq<char>, Seq<char>)>,
    events: Seq<EventView>,
)
    requires
        run.results.len() == 0,
        queries.len() <= usize::MAX,
    ensures
        ProgressView::start(run, queries).after_all(events) matches Some(progress)
            ==> progress.stage == Stage::Finished ==> {
            &&& events.len() == queries.len() + 2
            &&& progress.run.results.len() == queries.len()
            &&& forall|i: int|
                0 <= i < queries.len() ==> #[trigger] events[i] == EventView::QueryFinished(
                    progress.run.results[i],
                )
            &&& events[queries.len() as int] is Compared
            &&& events[queries.len() as int + 1] is Stored
        },
{
    lemma_has_happened(ProgressView::start(run, queries), events);
}

/// The first failure ends a benchmark: no event fits after it, so that nothing is compared or
/// stored after a query that could not be run.
pub proof fn law_failure_ends_the_benchmark(progress: ProgressView, event: EventView)
    ensures
        !progress.after(EventView::Failed).fits(event),
        progress.after(EventView::Failed).run == progress.run,
{
}

/// As long as nothing fails, a benchmark goes on to its end: after the results of all queries come
/// the comparison and the storing.
pub proof fn law_benchmark_without_failures_is_finished(
    run: BenchmarkRunView,
    queries: Seq<(Seq<char>, Seq<char>)>,
    results: Seq<BenchResultView>,
)
    requires
        run.results.len() == 0,
        queries.len() <= usize::MAX,
        results.len() == queries.len(),
    ensures
        ProgressView::start(run, queries).after_all(
            results.map_values(|r: BenchResultView| EventView::QueryFinished(r)).push(
                EventView::Compared,
            ).push(EventView::Stored),
        ) == Some(
            ProgressView {
                queries,
                run: BenchmarkRunView { results, ..run },
                stage: Stage::Finished,
            },
        ),
{
    let finished = results.map_values(|r: BenchResultView| EventView::QueryFinished(r));
    lemma_results_are_collected(run, queries, results);
    let compared = finished.push(EventView::Compared);
    let start = ProgressView::start(run, queries);
    assert(compared.drop_last() =~= finished);
    assert(start.after_all(compared) == Some(start.after_all(finished)->0.after(compared.last())));
    assert(compared.push(EventView::Stored).drop_last() =~= compared);
}

proof fn lemma_results_are_collected(
    run: BenchmarkRunView,
    queries: Seq<(Seq<char>, Seq<char>)>,
    results: Seq<BenchResultView>,
)
    requires
        run.results.len() == 0,
        queries.len() <= usize::MAX,
        results.len() <= queries.len(),
    ensures
        ProgressView::start(run, queries).after_all(
            results.map_values(|r: BenchResultView| EventView::QueryFinished(r)),
        ) == Some(
            ProgressView {
                queries,
                run: BenchmarkRunView { results, ..run },
                stage: ProgressView::stage_at(queries, results.len() as int),
            },
        ),
    decreases results.len(),
{
    let events = results.map_values(|r: BenchResultView| EventView::QueryFinished(r));
    if results.len() > 0 {
        let front = results.drop_last();
        lemma_results_are_collected(run, queries, front);
        assert(events.drop_last() =~= front.map_values(
            |r: BenchResultView| EventView::QueryFinished(r),
        ));
        assert(front.push(results.last()) =~= results);
    } else {
        assert(run.results =~= results);
    }
}

/// The model of an event holds what the event holds.
pub proof fn law_events_are_seen_as_they_are(event: Event)
    ensures
        match event {
            Event::QueryFinished(result) => event@ == EventView::QueryFinished(result@),
            Event::Compared => event@ is Compared,
            Event::Stored => event@ is Stored,
            Event::Failed => event@ is Failed,
        },
{
}

/// The result of a query goes behind the earlier ones, and the next query is the one behind it, or
/// the comparison where there is none.
pub proof fn law_results_are_collected_in_order(progress: ProgressView, result: BenchResultView)
    requires
        progress.well_formed(),
        progress.stage is Query,
    ensures
        ({
            let now = progress.after(EventView::QueryFinished(result));
            &&& progress.fits(EventView::QueryFinished(result))
            &&& now.queries == progress.queries
            &&& now.run.results.len() == progress.run.results.len() + 1
            &&& forall|i: int|
                0 <= i < progress.run.results.len() ==> #[trigger] now.run.results[i]
                    == progress.run.results[i]
            &&& now.run.results.last() == result
            &&& now.run.workers == progress.run.workers
            &&& now.run.threads == progress.run.threads
            &&& now.run.start_time == progress.run.start_time
            &&& now.run.dataset == progress.run.dataset
            &&& now.run.branch == progress.run.branch
            &&& progress.stage->Query_0 + 1 < progress.queries.len() ==> now.stage is Query
                && now.stage->Query_0 == progress.stage->Query_0 + 1
            &&& progress.stage->Query_0 + 1 == progress.queries.len() ==> now.stage is Compare
        }),
{
}

/// An event fits only the step that it can come of; a failure can come of any step that there is.
pub proof fn law_events_fit_their_steps(progress: ProgressView, event: EventView)
    ensures
        event is QueryFinished ==> (progress.fits(event) <==> progress.stage is Query),
        event is Compared ==> (progress.fits(event) <==> progress.stage is Compare),
        event is Stored ==> (progress.fits(event) <==> progress.stage is Store),
        event is Failed ==> (progress.fits(event) <==> !(progress.stage is Finished)
            && !(progress.stage is Aborted)),
{
}

/// A benchmark starts with its first query, or with the comparison where there is none.
pub proof fn law_benchmark_starts_with_its_first_query(
    run: BenchmarkRunView,
    queries: Seq<(Seq<char>, Seq<char>)>,
)
    ensures
        ({
            let start = ProgressView::start(run, queries);
            &&& start.run == run
            &&& start.queries == queries
            &&& queries.len() > 0 ==> start.stage == Stage::Query(0)
            &&& queries.len() == 0 ==> start.stage == Stage::Compare
        }),
{
}

} // verus!
