//! Benchmark results: what one run of one query measured, and what a whole run measured.

use crate::time::{Elapsed, Timestamp};
use vstd::prelude::*;

verus! {

/// A single iteration of a benchmark query.
#[derive(Debug)]
pub struct QueryIter {
    pub row_count: usize,
    pub n_tasks: usize,
    pub elapsed: Elapsed,
    pub bytes_transferred: u64,
    pub error: Option<String>,
}

/// A single benchmark case.
#[derive(Debug)]
pub struct BenchResult {
    pub id: String,
    pub dataset: String,
    pub iterations: Vec<QueryIter>,
}

/// The data of a benchmark run, collected while it runs.
#[derive(Debug)]
pub struct BenchmarkRun {
    /// Number of workers involved in a distributed query.
    pub workers: usize,
    /// Number of physical threads used per worker.
    pub threads: usize,
    /// Start time.
    pub start_time: Timestamp,
    pub dataset: String,
    pub branch: String,
    pub results: Vec<BenchResult>,
}

/// The model of [`QueryIter`].
pub struct QueryIterView {
    pub row_count: usize,
    pub n_tasks: usize,
    pub elapsed: Elapsed,
    pub bytes_transferred: u64,
    pub error: Option<Seq<char>>,
}

/// The model of [`BenchResult`].
#[verifier::ext_equal]
pub struct BenchResultView {
    pub id: Seq<char>,
    pub dataset: Seq<char>,
    pub iterations: Seq<QueryIterView>,
}

/// The model of [`BenchmarkRun`].
#[verifier::ext_equal]
pub struct BenchmarkRunView {
    pub workers: usize,
    pub threads: usize,
    pub start_time: Timestamp,
    pub dataset: Seq<char>,
    pub branch: Seq<char>,
    pub results: Seq<BenchResultView>,
}

impl View for QueryIter {
    type V = QueryIterView;

    open spec fn view(&self) -> QueryIterView {
        QueryIterView {
            row_count: self.row_count,
            n_tasks: self.n_tasks,
            elapsed: self.elapsed,
            bytes_transferred: self.bytes_transferred,
            error: match self.error {
                Some(text) => Some(text@),
                None => None,
            },
        }
    }
}

/// The views of a list of iterations.
pub open spec fn iterations_view(iterations: Seq<QueryIter>) -> Seq<QueryIterView> {
    iterations.map_values(|v: QueryIter| v@)
}

impl View for BenchResult {
    type V = BenchResultView;

    open spec fn view(&self) -> BenchResultView {
        BenchResultView {
            id: self.id@,
            dataset: self.dataset@,
            iterations: iterations_view(self.iterations@),
        }
    }
}

/// The views of a list of results.
pub open spec fn results_view(results: Seq<BenchResult>) -> Seq<BenchResultView> {
    results.map_values(|r: BenchResult| r@)
}

impl View for BenchmarkRun {
    type V = BenchmarkRunView;

    open spec fn view(&self) -> BenchmarkRunView {
        BenchmarkRunView {
            workers: self.workers,
            threads: self.threads,
            start_time: self.start_time,
            dataset: self.dataset@,
            branch: self.branch@,
            results: results_view(self.results@),
        }
    }
}

/// The milliseconds that the iterations took, each rounded down.
pub open spec fn total_millis(iterations: Seq<QueryIterView>) -> nat
    decreases iterations.len(),
{
    if iterations.len() == 0 {
        0
    } else {
        total_millis(iterations.drop_last()) + iterations.last().elapsed.millis()
    }
}

/// The bytes that the iterations transferred.
pub open spec fn total_bytes(iterations: Seq<QueryIterView>) -> nat
    decreases iterations.len(),
{
    if iterations.len() == 0 {
        0
    } else {
        total_bytes(iterations.drop_last()) + iterations.last().bytes_transferred as nat
    }
}

/// The iterations that did not fail.
pub open spec fn valid_iterations(iterations: Seq<QueryIterView>) -> Seq<QueryIterView> {
    iterations.filter(|v: QueryIterView| v.error is None)
}

/// An iteration that failed has no part in the bytes that a result transferred on average, wherever
/// it stands.
pub proof fn law_failures_do_not_count_as_transfers(
    result: BenchResultView,
    position: int,
    iteration: QueryIterView,
)
    requires
        0 <= position <= result.iterations.len(),
        iteration.error is Some,
    ensures
        (BenchResultView {
            iterations: result.iterations.insert(position, iteration),
            ..result
        }).avg_bytes() == result.avg_bytes(),
        (BenchResultView {
            iterations: result.iterations.insert(position, iteration),
            ..result
        }).has_avg_bytes() == result.has_avg_bytes(),
{
    let with = result.iterations.insert(position, iteration);
    lemma_sums_without(with, position);
    assert(with.remove(position) =~= result.iterations);
}

/// The averages do not depend on the order of the iterations.
pub proof fn law_averages_do_not_depend_on_the_order(a: BenchResultView, b: BenchResultView)
    requires
        a.iterations.to_multiset() == b.iterations.to_multiset(),
    ensures
        a.has_avg() == b.has_avg(),
        a.avg() == b.avg(),
        a.has_avg_bytes() == b.has_avg_bytes(),
        a.avg_bytes() == b.avg_bytes(),
{
    lemma_sums_of_permutation(a.iterations, b.iterations);
}

/// The sums over a list, by those over the list without one of its iterations.
proof fn lemma_sums_without(list: Seq<QueryIterView>, i: int)
    requires
        0 <= i < list.len(),
    ensures
        total_millis(list) == total_millis(list.remove(i)) + list[i].elapsed.millis(),
        valid_iterations(list).len() == valid_iterations(list.remove(i)).len() + if list[i].error
            is None {
            1nat
        } else {
            0nat
        },
        total_bytes(valid_iterations(list)) == total_bytes(valid_iterations(list.remove(i)))
            + if list[i].error is None {
            list[i].bytes_transferred as nat
        } else {
            0nat
        },
    decreases list.len(),
{
    reveal(Seq::filter);
    let last = list.last();
    let front = valid_iterations(list.drop_last());
    assert(front.push(last).drop_last() =~= front);
    if i == list.len() - 1 {
        assert(list.remove(i) =~= list.drop_last());
    } else {
        lemma_sums_without(list.drop_last(), i);
        let rest = list.remove(i);
        assert(rest.drop_last() =~= list.drop_last().remove(i));
        assert(rest.last() == last);
        let rest_front = valid_iterations(rest.drop_last());
        assert(rest_front.push(last).drop_last() =~= rest_front);
    }
}

/// Lists with the same iterations have the same sums.
proof fn lemma_sums_of_permutation(a: Seq<QueryIterView>, b: Seq<QueryIterView>)
    requires
        a.to_multiset() == b.to_multiset(),
    ensures
        a.len() == b.len(),
        total_millis(a) == total_millis(b),
        valid_iterations(a).len() == valid_iterations(b).len(),
        total_bytes(valid_iterations(a)) == total_bytes(valid_iterations(b)),
    decreases a.len(),
{
    broadcast use vstd::seq_lib::group_to_multiset_ensures;

    assert(a.to_multiset().len() == a.len());
    assert(b.to_multiset().len() == b.len());
    if a.len() > 0 {
        let last = a.last();
        assert(a.contains(last)) by {
            assert(a[a.len() - 1] == last);
        }
        assert(b.to_multiset().count(last) > 0);
        assert(b.contains(last));
        let i = b.index_of(last);
        assert(b[i] == last);
        assert(a.remove(a.len() - 1) =~= a.drop_last());
        assert(a.drop_last().to_multiset() =~= b.remove(i).to_multiset());
        lemma_sums_of_permutation(a.drop_last(), b.remove(i));
        lemma_sums_without(a, a.len() - 1);
        lemma_sums_without(b, i);
    } else {
        assert(a =~= b);
    }
}

/// Whether an iteration failed.
pub open spec fn has_failed(iterations: Seq<QueryIterView>) -> bool {
    exists|i: int| 0 <= i < iterations.len() && (#[trigger] iterations[i]).error is Some
}

impl BenchResultView {
    /// The iterations have an average time: there is one, and their sum can be computed.
    pub open spec fn has_avg(self) -> bool {
        self.iterations.len() > 0 && total_millis(self.iterations) <= u128::MAX
    }

    /// The average time of the iterations in milliseconds, rounded down.
    pub open spec fn avg(self) -> nat {
        total_millis(self.iterations) / self.iterations.len()
    }

    /// The sum of the bytes that the valid iterations transferred can be computed.
    pub open spec fn has_avg_bytes(self) -> bool {
        total_bytes(valid_iterations(self.iterations)) <= u64::MAX
    }

    /// The bytes that the valid iterations transferred on average, rounded down.
    pub open spec fn avg_bytes(self) -> nat {
        let valid = valid_iterations(self.iterations);
        if valid.len() == 0 {
            0
        } else {
            total_bytes(valid) / valid.len()
        }
    }
}

proof fn lemma_millis_of_prefix(list: Seq<QueryIterView>, n: int)
    requires
        0 <= n <= list.len(),
    ensures
        total_millis(list.take(n)) <= total_millis(list),
    decreases list.len(),
{
    if n == list.len() {
        assert(list.take(n) =~= list);
    } else {
        assert(list.drop_last().take(n) =~= list.take(n));
        lemma_millis_of_prefix(list.drop_last(), n);
    }
}

/// The valid iterations among the first `n + 1`, by those among the first `n`.
proof fn lemma_valid_step(list: Seq<QueryIterView>, n: int)
    requires
        0 <= n < list.len(),
    ensures
        valid_iterations(list.take(n + 1)) == if list[n].error is None {
            valid_iterations(list.take(n)).push(list[n])
        } else {
            valid_iterations(list.take(n))
        },
{
    assert(list.take(n + 1).drop_last() =~= list.take(n));
    reveal(Seq::filter);
}

proof fn lemma_valid_bytes_of_prefix(list: Seq<QueryIterView>, n: int)
    requires
        0 <= n <= list.len(),
    ensures
        total_bytes(valid_iterations(list.take(n))) <= total_bytes(valid_iterations(list)),
    decreases list.len() - n,
{
    if n == list.len() {
        assert(list.take(n) =~= list);
    } else {
        lemma_valid_bytes_of_prefix(list, n + 1);
        lemma_valid_step(list, n);
        let before = valid_iterations(list.take(n));
        assert(before.push(list[n]).drop_last() =~= before);
    }
}

impl BenchResult {
    /// The sum of the milliseconds of the iterations, unless a `u128` cannot hold it.
    fn sum_millis(&self) -> (r: Option<u128>)
        ensures
            r == if total_millis(self@.iterations) <= u128::MAX {
                Some(total_millis(self@.iterations) as u128)
            } else {
                None
            },
    {
        let ghost list = self@.iterations;
        let mut sum: u128 = 0;
        let mut i: usize = 0;
        while i < self.iterations.len()
            invariant
                i <= self.iterations@.len(),
                list == iterations_view(self.iterations@),
                sum == total_millis(list.take(i as int)),
            decreases self.iterations@.len() - i,
        {
            proof {
                lemma_millis_of_prefix(list, i + 1);
            }
            assert(list.take(i + 1).drop_last() =~= list.take(i as int));
            assert(list[i as int] == self.iterations@[i as int]@);
            sum = match sum.checked_add(self.iterations[i].elapsed.as_millis()) {
                Some(sum) => sum,
                None => {
                    return None;
                },
            };
            i = i + 1;
        }
        assert(list.take(i as int) =~= list);
        Some(sum)
    }

    /// Whether [`BenchResult::avg`] can be asked for.
    pub fn has_avg(&self) -> (r: bool)
        ensures
            r == self@.has_avg(),
    {
        self.iterations.len() > 0 && self.sum_millis().is_some()
    }

    /// The average time of the iterations in milliseconds, rounded down.
    pub fn avg(&self) -> (r: u128)
        requires
            self@.has_avg(),
        ensures
            r == self@.avg(),
    {
        let n: u128 = self.iterations.len() as u128;
        match self.sum_millis() {
            Some(sum) => sum / n,
            None => 0,
        }
    }

    /// The number of valid iterations and the sum of the bytes that they transferred, unless a
    /// `u64` cannot hold it.
    fn sum_bytes(&self) -> (r: Option<(usize, u64)>)
        ensures
            r == if self@.has_avg_bytes() {
                Some(
                    (
                        valid_iterations(self@.iterations).len() as usize,
                        total_bytes(valid_iterations(self@.iterations)) as u64,
                    ),
                )
            } else {
                None
            },
            valid_iterations(self@.iterations).len() <= usize::MAX,
    {
        let ghost list = self@.iterations;
        let mut valid: usize = 0;
        let mut sum: u64 = 0;
        let mut fits = true;
        let mut i: usize = 0;
        assert(valid_iterations(list.take(0)) =~= Seq::<QueryIterView>::empty()) by {
            reveal(Seq::filter);
        }
        while i < self.iterations.len()
            invariant
                i <= self.iterations@.len(),
                list == iterations_view(self.iterations@),
                valid <= i,
                valid == valid_iterations(list.take(i as int)).len(),
                fits ==> sum == total_bytes(valid_iterations(list.take(i as int))),
                !fits ==> total_bytes(valid_iterations(list)) > u64::MAX,
            decreases self.iterations@.len() - i,
        {
            proof {
                lemma_valid_step(list, i as int);
                lemma_valid_bytes_of_prefix(list, i + 1);
                let before = valid_iterations(list.take(i as int));
                assert(before.push(list[i as int]).drop_last() =~= before);
            }
            assert(list[i as int] == self.iterations@[i as int]@);
            if self.iterations[i].error.is_none() {
                valid = valid + 1;
                if fits {
                    match sum.checked_add(self.iterations[i].bytes_transferred) {
                        Some(total) => {
                            sum = total;
                        },
                        None => {
                            fits = false;
                        },
                    }
                }
            }
            i = i + 1;
        }
        assert(list.take(i as int) =~= list);
        if fits {
            Some((valid, sum))
        } else {
            None
        }
    }

    /// Whether [`BenchResult::avg_bytes_transferred`] can be asked for.
    pub fn has_avg_bytes(&self) -> (r: bool)
        ensures
            r == self@.has_avg_bytes(),
    {
        self.sum_bytes().is_some()
    }

    /// The bytes that the iterations without an error transferred on average, rounded down; 0
    /// where every iteration failed.
    pub fn avg_bytes_transferred(&self) -> (r: u64)
        requires
            self@.has_avg_bytes(),
        ensures
            r == self@.avg_bytes(),
    {
        match self.sum_bytes() {
            Some((valid, sum)) => if valid == 0 {
                0
            } else {
                sum / valid as u64
            },
            None => 0,
        }
    }

    /// Whether an iteration failed.
    pub fn failed(&self) -> (r: bool)
        ensures
            r == has_failed(self@.iterations),
    {
        let mut i: usize = 0;
        while i < self.iterations.len()
            invariant
                i <= self.iterations@.len(),
                forall|j: int| 0 <= j < i ==> (#[trigger] self@.iterations[j]).error is None,
            decreases self.iterations@.len() - i,
        {
            assert(self@.iterations[i as int] == self.iterations@[i as int]@);
            if self.iterations[i].error.is_some() {
                return true;
            }
            i = i + 1;
        }
        false
    }
}

impl BenchmarkRun {
    /// A run without results on the given branch, started at the given time.
    pub fn new(
        dataset: String,
        workers: usize,
        threads: usize,
        branch: String,
        start_time: Timestamp,
    ) -> (r: Self)
        ensures
            r@ == (BenchmarkRunView {
                workers,
                threads,
                start_time,
                dataset: dataset@,
                branch: branch@,
                results: Seq::empty(),
            }),
    {
        let r = BenchmarkRun { workers, threads, start_time, dataset, branch, results: Vec::new() };
        assert(r@.results =~= Seq::<BenchResultView>::empty());
        r
    }
}

/// The model of an iteration holds what the iteration holds.
pub proof fn law_iterations_are_seen_as_they_are(iteration: QueryIter)
    ensures
        iteration@.row_count == iteration.row_count,
        iteration@.n_tasks == iteration.n_tasks,
        iteration@.elapsed == iteration.elapsed,
        iteration@.bytes_transferred == iteration.bytes_transferred,
        iteration@.error is Some <==> iteration.error is Some,
        iteration.error is Some ==> iteration@.error->0 == iteration.error->0@,
{
}

/// The model of a result holds what the result holds, each iteration at its position.
pub proof fn law_results_are_seen_as_they_are(result: BenchResult)
    ensures
        result@.id == result.id@,
        result@.dataset == result.dataset@,
        result@.iterations.len() == result.iterations@.len(),
        forall|i: int|
            0 <= i < result.iterations@.len() ==> #[trigger] result@.iterations[i]
                == result.iterations@[i]@,
{
}

/// The model of a run holds what the run holds, each result at its position.
pub proof fn law_runs_are_seen_as_they_are(run: BenchmarkRun)
    ensures
        run@.workers == run.workers,
        run@.threads == run.threads,
        run@.start_time == run.start_time,
        run@.dataset == run.dataset@,
        run@.branch == run.branch@,
        run@.results.len() == run.results@.len(),
        forall|i: int|
            0 <= i < run.results@.len() ==> #[trigger] run@.results[i] == run.results@[i]@,
{
}

/// Every iteration has its part in the total time: the time of two lists together is the sum of
/// theirs, and that of one iteration is its whole milliseconds.
pub proof fn law_every_iteration_counts_in_the_time(
    a: Seq<QueryIterView>,
    b: Seq<QueryIterView>,
    one: QueryIterView,
)
    ensures
        total_millis(a + b) == total_millis(a) + total_millis(b),
        total_millis(seq![one]) == one.elapsed.secs * 1000 + one.elapsed.nanos / 1_000_000,
    decreases b.len(),
{
    assert(seq![one].drop_last() =~= Seq::<QueryIterView>::empty());
    reveal_with_fuel(total_millis, 2);
    if b.len() == 0 {
        assert(a + b =~= a);
    } else {
        law_every_iteration_counts_in_the_time(a, b.drop_last(), one);
        assert((a + b).drop_last() =~= a + b.drop_last());
    }
}

/// Every iteration without an error has its part in the total bytes, and no other: the total of two
/// lists together is the sum of theirs, and that of one iteration is its bytes if it has no error.
/// The same goes for the number of such iterations.
pub proof fn law_every_valid_iteration_counts_in_the_bytes(
    a: Seq<QueryIterView>,
    b: Seq<QueryIterView>,
    one: QueryIterView,
)
    ensures
        valid_iterations(a + b) == valid_iterations(a) + valid_iterations(b),
        valid_iterations(seq![one]) == if one.error is None {
            seq![one]
        } else {
            Seq::<QueryIterView>::empty()
        },
        total_bytes(valid_iterations(a + b)) == total_bytes(valid_iterations(a)) + total_bytes(
            valid_iterations(b),
        ),
        total_bytes(valid_iterations(seq![one])) == if one.error is None {
            one.bytes_transferred as nat
        } else {
            0
        },
{
    Seq::filter_distributes_over_add(a, b, |v: QueryIterView| v.error is None);
    assert(seq![one].drop_last() =~= Seq::<QueryIterView>::empty());
    assert(valid_iterations(seq![one]) =~= if one.error is None {
        seq![one]
    } else {
        Seq::<QueryIterView>::empty()
    }) by {
        reveal_with_fuel(Seq::filter, 2);
    }
    lemma_bytes_of_sum(valid_iterations(a), valid_iterations(b));
    reveal_with_fuel(total_bytes, 2);
}

proof fn lemma_bytes_of_sum(a: Seq<QueryIterView>, b: Seq<QueryIterView>)
    ensures
        total_bytes(a + b) == total_bytes(a) + total_bytes(b),
    decreases b.len(),
{
    if b.len() == 0 {
        assert(a + b =~= a);
    } else {
        lemma_bytes_of_sum(a, b.drop_last());
        assert((a + b).drop_last() =~= a + b.drop_last());
    }
}

/// The averages are the totals shared out among the iterations that count, rounded down.
pub proof fn law_averages_share_out_the_totals(result: BenchResultView)
    ensures
        result.has_avg() <==> result.iterations.len() > 0 && total_millis(result.iterations)
            <= u128::MAX,
        result.iterations.len() > 0 ==> {
            &&& result.avg() * result.iterations.len() <= total_millis(result.iterations)
            &&& total_millis(result.iterations) < (result.avg() + 1) * result.iterations.len()
        },
        result.has_avg_bytes() <==> total_bytes(valid_iterations(result.iterations)) <= u64::MAX,
        valid_iterations(result.iterations).len() > 0 ==> {
            &&& result.avg_bytes() * valid_iterations(result.iterations).len() <= total_bytes(
                valid_iterations(result.iterations),
            )
            &&& total_bytes(valid_iterations(result.iterations)) < (result.avg_bytes() + 1)
                * valid_iterations(result.iterations).len()
        },
        valid_iterations(result.iterations).len() == 0 ==> result.avg_bytes() == 0,
{
    if result.iterations.len() > 0 {
        lemma_shares(total_millis(result.iterations), result.iterations.len());
    }
    let valid = valid_iterations(result.iterations);
    if valid.len() > 0 {
        lemma_shares(total_bytes(valid), valid.len());
    }
}

proof fn lemma_shares(total: nat, n: nat)
    requires
        n > 0,
    ensures
        (total / n) * n <= total,
        total < (total / n + 1) * n,
{
    let q = total / n;
    let rest = total % n;
    vstd::arithmetic::div_mod::lemma_fundamental_div_mod(total as int, n as int);
    assert(q * n == n * q) by (nonlinear_arith);
    assert((q + 1) * n == q * n + n) by (nonlinear_arith);
}

/// A list of iterations has failed exactly if one of them has, wherever it stands.
pub proof fn law_one_failure_is_a_failure(
    a: Seq<QueryIterView>,
    b: Seq<QueryIterView>,
    one: QueryIterView,
)
    ensures
        !has_failed(Seq::empty()),
        has_failed(a + b) <==> has_failed(a) || has_failed(b),
        has_failed(seq![one]) <==> one.error is Some,
{
    let both = a + b;
    if has_failed(a) {
        let i = choose|i: int| 0 <= i < a.len() && (#[trigger] a[i]).error is Some;
        assert(both[i].error is Some);
    }
    if has_failed(b) {
        let i = choose|i: int| 0 <= i < b.len() && (#[trigger] b[i]).error is Some;
        assert(both[a.len() + i].error is Some);
    }
    if has_failed(both) {
        let i = choose|i: int| 0 <= i < both.len() && (#[trigger] both[i]).error is Some;
        if i < a.len() {
            assert(a[i].error is Some);
        } else {
            assert(b[i - a.len()].error is Some);
        }
    }
    if one.error is Some {
        assert(seq![one][0].error is Some);
    }
}

} // verus!
