//! The queries of the benchmarks.

use crate::error::{RunError, RunErrorView};
use crate::text::same_text;
use vstd::prelude::*;
use vstd::string::*;

verus! {

/// The benchmarks whose queries can be run.
#[derive(Clone, Copy, Debug, PartialEq, Eq, Structural)]
pub enum Benchmark {
    Tpch,
    Tpcds,
    Clickbench,
}

/// A query that a benchmark lists, with its text if that could be had.
#[derive(Debug)]
pub struct ListedQuery {
    pub id: String,
    pub sql: Option<String>,
}

/// The model of [`ListedQuery`].
pub struct ListedQueryView {
    pub id: Seq<char>,
    pub sql: Option<Seq<char>>,
}

impl View for ListedQuery {
    type V = ListedQueryView;

    open spec fn view(&self) -> ListedQueryView {
        ListedQueryView {
            id: self.id@,
            sql: match self.sql {
                Some(text) => Some(text@),
                None => None,
            },
        }
    }
}

/// The views of a list of queries.
pub open spec fn listed_view(listed: Seq<ListedQuery>) -> Seq<ListedQueryView> {
    listed.map_values(|q: ListedQuery| q@)
}

/// The views of a list of ids with their texts.
pub open spec fn queries_view(queries: Seq<(String, String)>) -> Seq<(Seq<char>, Seq<char>)> {
    queries.map_values(|q: (String, String)| (q.0@, q.1@))
}

/// The benchmark with the given name.
pub open spec fn benchmark_named(name: Seq<char>) -> Option<Benchmark> {
    if name == "tpch"@ {
        Some(Benchmark::Tpch)
    } else if name == "tpcds"@ {
        Some(Benchmark::Tpcds)
    } else if name == "clickbench"@ {
        Some(Benchmark::Clickbench)
    } else {
        None
    }
}

/// Why there is no benchmark with the given name.
pub open spec fn unknown_benchmark(name: Seq<char>) -> RunErrorView {
    RunErrorView::NotImplemented("Unknown benchmark dataset "@ + name)
}

/// Whether a query of the benchmark is run; one of TPC-DS is not, because it takes too long.
pub open spec fn is_run(benchmark: Benchmark, id: Seq<char>) -> bool {
    !(benchmark == Benchmark::Tpcds && id == "q72"@)
}

/// The queries of the benchmark that are run, with their texts, or the position of the first of
/// them whose text could not be had.
pub open spec fn runnable(benchmark: Benchmark, listed: Seq<ListedQueryView>) -> Result<
    Seq<(Seq<char>, Seq<char>)>,
    RunErrorView,
>
    decreases listed.len(),
{
    if listed.len() == 0 {
        Ok(Seq::empty())
    } else {
        match runnable(benchmark, listed.drop_last()) {
            Err(e) => Err(e),
            Ok(front) => if !is_run(benchmark, listed.last().id) {
                Ok(front)
            } else {
                match listed.last().sql {
                    Some(sql) => Ok(front.push((listed.last().id, sql))),
                    None => Err(RunErrorView::Query(listed.len() - 1)),
                }
            },
        }
    }
}

impl Benchmark {
    /// The benchmark with the given name.
    pub fn from_name(name: &str) -> (r: Result<Benchmark, RunError>)
        ensures
            match r {
                Ok(b) => benchmark_named(name@) == Some(b),
                Err(e) => benchmark_named(name@) is None && e@ == unknown_benchmark(name@),
            },
    {
        proof {
            reveal_strlit("tpch");
            reveal_strlit("tpcds");
            reveal_strlit("clickbench");
        }
        if same_text(name, "tpch") {
            Ok(Benchmark::Tpch)
        } else if same_text(name, "tpcds") {
            Ok(Benchmark::Tpcds)
        } else if same_text(name, "clickbench") {
            Ok(Benchmark::Clickbench)
        } else {
            let message = "Unknown benchmark dataset ".to_owned().concat(name);
            Err(RunError::NotImplemented(message))
        }
    }

    /// Whether a query of the benchmark is run.
    pub fn runs(&self, id: &str) -> (r: bool)
        ensures
            r == is_run(*self, id@),
    {
        match self {
            Benchmark::Tpcds => !same_text(id, "q72"),
            _ => true,
        }
    }
}

/// The outcome of [`queries_for_dataset`], as contracts speak of it.
pub open spec fn queries_outcome(r: Result<Vec<(String, String)>, RunError>) -> Result<
    Seq<(Seq<char>, Seq<char>)>,
    RunErrorView,
> {
    match r {
        Ok(queries) => Ok(queries_view(queries@)),
        Err(e) => Err(e@),
    }
}

/// Once a query has no text, no later query matters.
proof fn lemma_runnable_error(benchmark: Benchmark, listed: Seq<ListedQueryView>, n: int)
    requires
        0 <= n <= listed.len(),
        runnable(benchmark, listed.take(n)) is Err,
    ensures
        runnable(benchmark, listed) == runnable(benchmark, listed.take(n)),
    decreases listed.len(),
{
    if n == listed.len() {
        assert(listed.take(n) =~= listed);
    } else {
        assert(listed.drop_last().take(n) =~= listed.take(n));
        lemma_runnable_error(benchmark, listed.drop_last(), n);
    }
}

/// The queries that are run for a dataset, by id and text, out of those that its benchmark lists.
pub fn queries_for_dataset(dataset: &str, listed: Vec<ListedQuery>) -> (r: Result<
    Vec<(String, String)>,
    RunError,
>)
    ensures
        queries_outcome(r) == match benchmark_named(dataset@) {
            Some(benchmark) => runnable(benchmark, listed_view(listed@)),
            None => Err(unknown_benchmark(dataset@)),
        },
        match (r, benchmark_named(dataset@)) {
            (Ok(queries), Some(benchmark)) => runnable(benchmark, listed_view(listed@)) == Ok::<
                Seq<(Seq<char>, Seq<char>)>,
                RunErrorView,
            >(queries_view(queries@)),
            (Err(e), Some(benchmark)) => runnable(benchmark, listed_view(listed@)) == Err::<
                Seq<(Seq<char>, Seq<char>)>,
                RunErrorView,
            >(e@),
            (Ok(_), None) => false,
            (Err(e), None) => e@ == unknown_benchmark(dataset@),
        },
{
    let benchmark = match Benchmark::from_name(dataset) {
        Ok(benchmark) => benchmark,
        Err(e) => {
            return Err(e);
        },
    };
    let ghost all = listed_view(listed@);
    let mut queries: Vec<(String, String)> = Vec::new();
    let mut i: usize = 0;
    assert(queries_view(queries@) =~= Seq::<(Seq<char>, Seq<char>)>::empty());
    while i < listed.len()
        invariant
            i <= listed@.len(),
            all == listed_view(listed@),
            benchmark_named(dataset@) == Some(benchmark),
            runnable(benchmark, all.take(i as int)) == Ok::<
                Seq<(Seq<char>, Seq<char>)>,
                RunErrorView,
            >(queries_view(queries@)),
        decreases listed@.len() - i,
    {
        let ghost before = queries_view(queries@);
        assert(all.take(i + 1).drop_last() =~= all.take(i as int));
        assert(all.take(i + 1).last() == listed@[i as int]@);
        if benchmark.runs(listed[i].id.as_str()) {
            match &listed[i].sql {
                Some(sql) => {
                    queries.push((listed[i].id.clone(), sql.clone()));
                    assert(queries_view(queries@) =~= before.push(
                        (listed@[i as int].id@, sql@),
                    ));
                },
                None => {
                    proof {
                        lemma_runnable_error(benchmark, all, i + 1);
                    }
                    return Err(RunError::Query(i));
                },
            }
        }
        i = i + 1;
    }
    assert(all.take(i as int) =~= all);
    Ok(queries)
}

/// No query that is left out is ever run.
pub proof fn law_left_out_queries_are_not_run(
    benchmark: Benchmark,
    listed: Seq<ListedQueryView>,
    i: int,
)
    requires
        runnable(benchmark, listed) is Ok,
        0 <= i < runnable(benchmark, listed)->Ok_0.len(),
    ensures
        is_run(benchmark, runnable(benchmark, listed)->Ok_0[i].0),
    decreases listed.len(),
{
    if listed.len() > 0 {
        let front = runnable(benchmark, listed.drop_last())->Ok_0;
        if i < front.len() {
            law_left_out_queries_are_not_run(benchmark, listed.drop_last(), i);
        }
    }
}

/// There are three benchmarks, each with its own name.
pub proof fn law_benchmarks_go_by_their_names(name: Seq<char>)
    ensures
        benchmark_named(name) == Some(Benchmark::Tpch) <==> name == "tpch"@,
        benchmark_named(name) == Some(Benchmark::Tpcds) <==> name == "tpcds"@,
        benchmark_named(name) == Some(Benchmark::Clickbench) <==> name == "clickbench"@,
        unknown_benchmark(name) == RunErrorView::NotImplemented(
            "Unknown benchmark dataset "@ + name,
        ),
{
    reveal_strlit("tpch");
    reveal_strlit("tpcds");
    reveal_strlit("clickbench");
    assert("tpch"@.len() != "tpcds"@.len());
    assert("tpch"@.len() != "clickbench"@.len());
    assert("tpcds"@.len() != "clickbench"@.len());
}

/// Every query that a benchmark lists is looked at, in order: the queries of two lists together are
/// those of the first and then those of the second. The first query that is to be run and has no
/// text is the error, at its position in the whole list.
pub proof fn law_every_listed_query_is_looked_at(
    benchmark: Benchmark,
    a: Seq<ListedQueryView>,
    b: Seq<ListedQueryView>,
)
    ensures
        runnable(benchmark, Seq::empty()) == Ok::<Seq<(Seq<char>, Seq<char>)>, RunErrorView>(
            Seq::empty(),
        ),
        match (runnable(benchmark, a), runnable(benchmark, b)) {
            (Err(e), _) => runnable(benchmark, a + b) == Err::<
                Seq<(Seq<char>, Seq<char>)>,
                RunErrorView,
            >(e),
            (Ok(x), Ok(y)) => runnable(benchmark, a + b) == Ok::<
                Seq<(Seq<char>, Seq<char>)>,
                RunErrorView,
            >(x + y),
            (Ok(x), Err(e)) => e matches RunErrorView::Query(p) && runnable(benchmark, a + b)
                == Err::<Seq<(Seq<char>, Seq<char>)>, RunErrorView>(
                RunErrorView::Query(a.len() + p),
            ),
        },
    decreases b.len(),
{
    if b.len() == 0 {
        assert(a + b =~= a);
        if runnable(benchmark, a) is Ok {
            let x = runnable(benchmark, a)->Ok_0;
            assert(x + Seq::<(Seq<char>, Seq<char>)>::empty() =~= x);
        }
    } else {
        law_every_listed_query_is_looked_at(benchmark, a, b.drop_last());
        assert((a + b).drop_last() =~= a + b.drop_last());
        assert((a + b).last() == b.last());
        if runnable(benchmark, a) is Ok && runnable(benchmark, b.drop_last()) is Ok {
            let x = runnable(benchmark, a)->Ok_0;
            let y = runnable(benchmark, b.drop_last())->Ok_0;
            if runnable(benchmark, b) is Ok {
                assert(runnable(benchmark, a + b)->Ok_0 =~= x + runnable(benchmark, b)->Ok_0);
            }
        }
    }
}

/// A query is run under its id, with its text. Only one is left out: `q72` of TPC-DS. A query that
/// is to be run and has no text is an error, at its position.
pub proof fn law_query_is_run_with_its_text(benchmark: Benchmark, query: ListedQueryView)
    ensures
        benchmark == Benchmark::Tpcds && query.id == "q72"@ ==> runnable(benchmark, seq![query])
            == Ok::<Seq<(Seq<char>, Seq<char>)>, RunErrorView>(Seq::empty()),
        !(benchmark == Benchmark::Tpcds && query.id == "q72"@) ==> match query.sql {
            Some(sql) => runnable(benchmark, seq![query]) == Ok::<
                Seq<(Seq<char>, Seq<char>)>,
                RunErrorView,
            >(seq![(query.id, sql)]),
            None => runnable(benchmark, seq![query]) == Err::<
                Seq<(Seq<char>, Seq<char>)>,
                RunErrorView,
            >(RunErrorView::Query(0)),
        },
{
    reveal_with_fuel(runnable, 2);
    assert(seq![query].drop_last() =~= Seq::<ListedQueryView>::empty());
    if let Some(sql) = query.sql {
        let none = Seq::<(Seq<char>, Seq<char>)>::empty();
        assert(none.push((query.id, sql)) =~= seq![(query.id, sql)]);
    }
}

/// The models of queries hold what the queries hold.
pub proof fn law_queries_are_seen_as_they_are(
    listed: Seq<ListedQuery>,
    queries: Seq<(String, String)>,
    i: int,
)
    ensures
        listed_view(listed).len() == listed.len(),
        0 <= i < listed.len() ==> listed_view(listed)[i].id == listed[i].id@,
        0 <= i < listed.len() ==> match listed[i].sql {
            Some(sql) => listed_view(listed)[i].sql == Some(sql@),
            None => listed_view(listed)[i].sql is None,
        },
        queries_view(queries).len() == queries.len(),
        0 <= i < queries.len() ==> queries_view(queries)[i] == (queries[i].0@, queries[i].1@),
{
}

} // verus!
