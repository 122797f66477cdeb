//! Comparing a benchmark run with the one before it.

use crate::results::{
    has_failed, results_view, total_bytes, total_millis, valid_iterations, BenchResult,
    BenchResultView, BenchmarkRun, BenchmarkRunView,
};
use crate::text::{
    decimal, decimal_text, pad_left, padded, repeat_text, repeated, same_text, strings_view,
};
use datafusion::common::utils::get_available_parallelism;
use vstd::prelude::*;
use vstd::string::*;
use vstd::utf8::encode_utf8;

verus! {

/// Whether a query got faster. A query that takes as long as before counts as slower.
#[derive(Clone, Copy, Debug, PartialEq, Eq, Structural)]
pub enum Direction {
    Faster,
    Slower,
}

/// How the result of a query compares with the previous one.
#[derive(Clone, Copy, Debug, PartialEq, Eq)]
pub enum Comparison {
    /// The query failed before and succeeds now.
    Recovered,
    /// The query succeeded before and fails now.
    Broken,
    /// The query failed before and fails now.
    StillBroken,
    /// The query succeeded both times.
    Measured {
        /// Average milliseconds before.
        prev_ms: u128,
        /// Average milliseconds now.
        new_ms: u128,
        direction: Direction,
        /// Average bytes transferred before and now, where there were some both times.
        bytes: Option<(u64, u64)>,
    },
}

/// The parts of a comparison's line that are computed in floating point.
#[derive(Debug)]
pub struct Ratios {
    /// The quotient of [`Comparison::ratio_terms`], with two decimals.
    pub time: String,
    /// Whether that quotient is more than one and a fifth.
    pub notable: bool,
    /// Kibibytes before, without decimals.
    pub prev_kb: String,
    /// Kibibytes now, without decimals.
    pub new_kb: String,
    /// Kibibytes before by kibibytes now, with two decimals.
    pub transfer: String,
}

/// The model of [`Ratios`].
pub struct RatiosView {
    pub time: Seq<char>,
    pub notable: bool,
    pub prev_kb: Seq<char>,
    pub new_kb: Seq<char>,
    pub transfer: Seq<char>,
}

impl View for Ratios {
    type V = RatiosView;

    open spec fn view(&self) -> RatiosView {
        RatiosView {
            time: self.time@,
            notable: self.notable,
            prev_kb: self.prev_kb@,
            new_kb: self.new_kb@,
            transfer: self.transfer@,
        }
    }
}

/// The two results can be compared: where neither failed, both have averages.
pub open spec fn comparable(prev: BenchResultView, new: BenchResultView) -> bool {
    !has_failed(prev.iterations) && !has_failed(new.iterations) ==> {
        &&& prev.has_avg()
        &&& new.has_avg()
        &&& prev.has_avg_bytes()
        &&& new.has_avg_bytes()
    }
}

/// How `new` compares with `prev`.
pub open spec fn comparison(prev: BenchResultView, new: BenchResultView) -> Comparison {
    match (has_failed(prev.iterations), has_failed(new.iterations)) {
        (true, false) => Comparison::Recovered,
        (false, true) => Comparison::Broken,
        (true, true) => Comparison::StillBroken,
        (false, false) => Comparison::Measured {
            prev_ms: prev.avg() as u128,
            new_ms: new.avg() as u128,
            direction: if new.avg() < prev.avg() {
                Direction::Faster
            } else {
                Direction::Slower
            },
            bytes: if prev.avg_bytes() > 0 && new.avg_bytes() > 0 {
                Some((prev.avg_bytes() as u64, new.avg_bytes() as u64))
            } else {
                None
            },
        },
    }
}

pub open spec fn direction_word(direction: Direction) -> Seq<char> {
    match direction {
        Direction::Faster => "faster"@,
        Direction::Slower => "slower"@,
    }
}

pub open spec fn direction_mark(direction: Direction, notable: bool) -> Seq<char> {
    match (direction, notable) {
        (Direction::Faster, true) => "✅"@,
        (Direction::Faster, false) => "✔"@,
        (Direction::Slower, true) => "❌"@,
        (Direction::Slower, false) => "✖"@,
    }
}

/// What a comparison's line says of the bytes transferred.
pub open spec fn bytes_text(ratios: RatiosView) -> Seq<char> {
    ", bytes="@ + ratios.prev_kb + "K→"@ + ratios.new_kb + "K ("@ + ratios.transfer + "x)"@
}

impl Comparison {
    /// The line that reports the comparison for the query `id`.
    pub open spec fn line_text(self, id: Seq<char>, ratios: RatiosView) -> Seq<char> {
        match self {
            Comparison::Recovered => id + ": Previously failed, but now succeeded 🟠"@,
            Comparison::Broken => id + ": Previously succeeded, but now failed ❌"@,
            Comparison::StillBroken => id + ": Previously failed, and now also failed ❌"@,
            Comparison::Measured { prev_ms, new_ms, direction, bytes } => padded(id, 8)
                + ": prev="@ + padded(decimal(prev_ms as nat), 4) + " ms, new="@ + padded(
                decimal(new_ms as nat),
                4,
            ) + " ms, diff="@ + ratios.time + " "@ + direction_word(direction) + " "@
                + direction_mark(direction, ratios.notable) + (if bytes is Some {
                bytes_text(ratios)
            } else {
                Seq::empty()
            }),
        }
    }

    /// The line that reports the comparison for the query `id`.
    pub fn line(&self, id: &str, ratios: &Ratios) -> (r: String)
        ensures
            r@ == self.line_text(id@, ratios@),
    {
        match self {
            Comparison::Recovered => id.to_owned().concat(
                ": Previously failed, but now succeeded 🟠",
            ),
            Comparison::Broken => id.to_owned().concat(
                ": Previously succeeded, but now failed ❌",
            ),
            Comparison::StillBroken => id.to_owned().concat(
                ": Previously failed, and now also failed ❌",
            ),
            Comparison::Measured { prev_ms, new_ms, direction, bytes } => {
                let word = match direction {
                    Direction::Faster => "faster",
                    Direction::Slower => "slower",
                };
                let mark = match (direction, ratios.notable) {
                    (Direction::Faster, true) => "✅",
                    (Direction::Faster, false) => "✔",
                    (Direction::Slower, true) => "❌",
                    (Direction::Slower, false) => "✖",
                };
                let transfer = if bytes.is_some() {
                    ", bytes=".to_owned().concat(ratios.prev_kb.as_str()).concat("K→").concat(
                        ratios.new_kb.as_str(),
                    ).concat("K (").concat(ratios.transfer.as_str()).concat("x)")
                } else {
                    String::new()
                };
                let prev = pad_left(decimal_text(*prev_ms).as_str(), 4);
                let new = pad_left(decimal_text(*new_ms).as_str(), 4);
                pad_left(id, 8).concat(": prev=").concat(prev.as_str()).concat(
                    " ms, new=",
                ).concat(new.as_str()).concat(" ms, diff=").concat(ratios.time.as_str()).concat(
                    " ",
                ).concat(word).concat(" ").concat(mark).concat(transfer.as_str())
            },
        }
    }

    /// The terms of the quotient by which a measured query got faster or slower: the longer time
    /// by the shorter.
    pub fn ratio_terms(&self) -> (r: Option<(u128, u128)>)
        ensures
            r == match *self {
                Comparison::Measured { prev_ms, new_ms, direction: Direction::Faster, .. } => Some(
                    (prev_ms, new_ms),
                ),
                Comparison::Measured { prev_ms, new_ms, direction: Direction::Slower, .. } => Some(
                    (new_ms, prev_ms),
                ),
                _ => None,
            },
    {
        match self {
            Comparison::Measured { prev_ms, new_ms, direction, .. } => match direction {
                Direction::Faster => Some((*prev_ms, *new_ms)),
                Direction::Slower => Some((*new_ms, *prev_ms)),
            },
            _ => None,
        }
    }
}

impl BenchResult {
    /// How the result compares with the previous result of the same query.
    pub fn compare(&self, prev_query: &Self) -> (r: Comparison)
        requires
            comparable(prev_query@, self@),
        ensures
            r == comparison(prev_query@, self@),
    {
        match (prev_query.failed(), self.failed()) {
            (true, false) => Comparison::Recovered,
            (false, true) => Comparison::Broken,
            (true, true) => Comparison::StillBroken,
            (false, false) => {
                let prev_ms: u128 = prev_query.avg();
                let new_ms: u128 = self.avg();
                let direction = if new_ms < prev_ms {
                    Direction::Faster
                } else {
                    Direction::Slower
                };
                let prev_bytes: u64 = prev_query.avg_bytes_transferred();
                let new_bytes: u64 = self.avg_bytes_transferred();
                let bytes = if prev_bytes > 0 && new_bytes > 0 {
                    Some((prev_bytes, new_bytes))
                } else {
                    None
                };
                Comparison::Measured { prev_ms, new_ms, direction, bytes }
            },
        }
    }

    /// Whether [`BenchResult::compare`] can be asked for.
    pub fn can_compare(&self, prev_query: &Self) -> (r: bool)
        ensures
            r == comparable(prev_query@, self@),
    {
        self.failed() || prev_query.failed() || (self.has_avg() && prev_query.has_avg()
            && self.has_avg_bytes() && prev_query.has_avg_bytes())
    }
}

/// Comparing two results the other way round swaps what became better and what became worse; a
/// query that takes as long as before counts as slower either way.
pub proof fn law_swapped_comparison(prev: BenchResultView, new: BenchResultView)
    requires
        comparable(prev, new),
    ensures
        comparison(prev, new) is Recovered <==> comparison(new, prev) is Broken,
        comparison(prev, new) is StillBroken <==> comparison(new, prev) is StillBroken,
        comparison(prev, new) is Measured <==> comparison(new, prev) is Measured,
        comparison(prev, new) is Measured ==> {
            &&& comparison(prev, new)->prev_ms == comparison(new, prev)->new_ms
            &&& comparison(prev, new)->direction == Direction::Faster ==> comparison(
                new,
                prev,
            )->direction == Direction::Slower
            &&& comparison(prev, new)->direction == Direction::Slower && comparison(
                new,
                prev,
            )->direction == Direction::Slower ==> comparison(prev, new)->prev_ms == comparison(
                prev,
                new,
            )->new_ms
        },
{
    if comparison(prev, new) is Measured {
        lemma_avg_fits(prev);
        lemma_avg_fits(new);
    }
}

/// The average is no more than the sum.
proof fn lemma_avg_fits(r: BenchResultView)
    requires
        r.has_avg(),
    ensures
        r.avg() <= u128::MAX,
{
    let total = total_millis(r.iterations) as int;
    let n = r.iterations.len() as int;
    assert(total / n <= total) by (nonlinear_arith)
        requires
            total >= 0,
            n >= 1,
    ;
}

/// The position of the first result with the given id.
pub open spec fn first_with_id(results: Seq<BenchResultView>, id: Seq<char>) -> Option<int>
    decreases results.len(),
{
    if results.len() == 0 {
        None
    } else {
        match first_with_id(results.drop_last(), id) {
            Some(i) => Some(i),
            None => if results.last().id == id {
                Some(results.len() - 1)
            } else {
                None
            },
        }
    }
}

/// For each of the new results that has a previous one with the same id, its position and that of
/// the first such previous result.
pub open spec fn matches(
    new: Seq<BenchResultView>,
    prev: Seq<BenchResultView>,
) -> Seq<(int, int)>
    decreases new.len(),
{
    if new.len() == 0 {
        Seq::empty()
    } else {
        let front = matches(new.drop_last(), prev);
        match first_with_id(prev, new.last().id) {
            Some(j) => front.push((new.len() - 1, j)),
            None => front,
        }
    }
}

/// The first line of a report.
pub open spec fn header_text(new: BenchmarkRunView, prev: BenchmarkRunView) -> Seq<char> {
    "=== Comparing "@ + new.dataset + " results from branch '"@ + prev.branch + "' [prev] with '"@
        + new.branch + "' [new] ==="@
}

/// The lines at the top of a report. The last one is as long as the first is in UTF-8.
pub open spec fn preamble_text(
    new: BenchmarkRunView,
    prev: BenchmarkRunView,
    os: Seq<char>,
    arch: Seq<char>,
    cores: usize,
) -> Seq<Seq<char>> {
    seq![
        header_text(new, prev),
        "os:        "@ + os,
        "arch:      "@ + arch,
        "cpu cores: "@ + decimal(cores as nat),
        "threads:   "@ + decimal(prev.threads as nat) + " -> "@ + decimal(new.threads as nat),
        "workers:   "@ + decimal(prev.workers as nat) + " -> "@ + decimal(new.workers as nat),
        repeated('=', encode_utf8(header_text(new, prev)).len() as usize as nat),
    ]
}

/// The comparison of a run with the one before it.
#[derive(Debug)]
pub struct Report {
    /// The lines at the top.
    pub preamble: Vec<String>,
    /// The positions of the results to compare: in the new run, and in the previous one.
    pub pairs: Vec<(usize, usize)>,
}

/// The views of a list of positions.
pub open spec fn pairs_view(pairs: Seq<(usize, usize)>) -> Seq<(int, int)> {
    pairs.map_values(|p: (usize, usize)| (p.0 as int, p.1 as int))
}

proof fn lemma_first_with_id(results: Seq<BenchResultView>, id: Seq<char>, n: int)
    requires
        0 <= n <= results.len(),
        forall|j: int| 0 <= j < n ==> (#[trigger] results[j]).id != id,
        n < results.len() ==> results[n].id == id,
    ensures
        first_with_id(results, id) == if n < results.len() {
            Some(n)
        } else {
            None
        },
    decreases results.len(),
{
    if results.len() > 0 {
        let front = results.drop_last();
        assert forall|j: int| 0 <= j < n && j < front.len() implies (#[trigger] front[j]).id
            != id by {
            assert(results[j] == front[j]);
        }
        if n < front.len() {
            lemma_first_with_id(front, id, n);
        } else {
            lemma_first_with_id(front, id, front.len() as int);
            if n == results.len() {
                assert(results[results.len() - 1].id != id);
            }
        }
    }
}

/// The position of the first result with the given id.
fn find_result(results: &Vec<BenchResult>, id: &str) -> (r: Option<usize>)
    ensures
        match r {
            Some(i) => first_with_id(results_view(results@), id@) == Some(i as int),
            None => first_with_id(results_view(results@), id@) is None,
        },
{
    let ghost all = results_view(results@);
    let mut i: usize = 0;
    while i < results.len()
        invariant
            i <= results@.len(),
            all == results_view(results@),
            forall|j: int| 0 <= j < i ==> (#[trigger] all[j]).id != id@,
        decreases results@.len() - i,
    {
        assert(all[i as int] == results@[i as int]@);
        if same_text(results[i].id.as_str(), id) {
            proof {
                lemma_first_with_id(all, id@, i as int);
            }
            return Some(i);
        }
        i = i + 1;
    }
    proof {
        lemma_first_with_id(all, id@, i as int);
    }
    None
}

impl BenchmarkRun {
    /// The lines at the top of the report on this run and the previous one.
    pub fn preamble(&self, previous: &Self, os: &str, arch: &str, cores: usize) -> (r: Vec<String>)
        ensures
            strings_view(r@) == preamble_text(self@, previous@, os@, arch@, cores),
    {
        let header = "=== Comparing ".to_owned().concat(self.dataset.as_str()).concat(
            " results from branch '",
        ).concat(previous.branch.as_str()).concat("' [prev] with '").concat(
            self.branch.as_str(),
        ).concat("' [new] ===");
        let width: usize = header.as_str().len();
        let threads = "threads:   ".to_owned().concat(
            decimal_text(previous.threads as u128).as_str(),
        ).concat(" -> ").concat(decimal_text(self.threads as u128).as_str());
        let workers = "workers:   ".to_owned().concat(
            decimal_text(previous.workers as u128).as_str(),
        ).concat(" -> ").concat(decimal_text(self.workers as u128).as_str());
        proof {
            reveal_strlit("=");
        }
        let mut r: Vec<String> = Vec::new();
        r.push(header);
        r.push("os:        ".to_owned().concat(os));
        r.push("arch:      ".to_owned().concat(arch));
        r.push("cpu cores: ".to_owned().concat(decimal_text(cores as u128).as_str()));
        r.push(threads);
        r.push(workers);
        r.push(repeat_text("=", width));
        assert(strings_view(r@) =~= preamble_text(self@, previous@, os@, arch@, cores));
        r
    }

    /// The results that have a previous result to be compared with.
    pub fn matching_results(&self, previous: &Self) -> (r: Vec<(usize, usize)>)
        ensures
            pairs_view(r@) == matches(self@.results, previous@.results),
    {
        let ghost all = self@.results;
        let mut r: Vec<(usize, usize)> = Vec::new();
        let mut i: usize = 0;
        assert(pairs_view(r@) =~= Seq::<(int, int)>::empty());
        while i < self.results.len()
            invariant
                i <= self.results@.len(),
                all == results_view(self.results@),
                pairs_view(r@) == matches(all.take(i as int), previous@.results),
            decreases self.results@.len() - i,
        {
            let ghost before = pairs_view(r@);
            assert(all.take(i + 1).drop_last() =~= all.take(i as int));
            assert(all.take(i + 1).last() == self.results@[i as int]@);
            if let Some(j) = find_result(&previous.results, self.results[i].id.as_str()) {
                r.push((i, j));
                assert(pairs_view(r@) =~= before.push((i as int, j as int)));
            }
            i = i + 1;
        }
        assert(all.take(i as int) =~= all);
        r
    }

    /// The report on this run and the previous one, on the machine that the program runs on;
    /// `None` where there is no previous run.
    pub fn compare_with_previous(&self, previous: Option<&Self>, os: &str, arch: &str) -> (r:
        Option<Report>)
        ensures
            r is Some <==> previous is Some,
            r is Some ==> {
                &&& exists|cores: usize|
                    cores >= 1 && strings_view(r->0.preamble@) == #[trigger] preamble_text(
                        self@,
                        previous->0@,
                        os@,
                        arch@,
                        cores,
                    )
                &&& pairs_view(r->0.pairs@) == matches(self@.results, previous->0@.results)
            },
    {
        match previous {
            Some(previous) => {
                let cores: usize = get_available_parallelism();
                let preamble = self.preamble(previous, os, arch, cores);
                let pairs = self.matching_results(previous);
                Some(Report { preamble, pairs })
            },
            None => None,
        }
    }
}

/// Each pair that is compared is of results with the same id, and each new result is in at most
/// one pair.
pub proof fn law_pairs_have_the_same_id(
    new: Seq<BenchResultView>,
    prev: Seq<BenchResultView>,
    p: int,
)
    requires
        0 <= p < matches(new, prev).len(),
    ensures
        0 <= matches(new, prev)[p].0 < new.len(),
        0 <= matches(new, prev)[p].1 < prev.len(),
        new[matches(new, prev)[p].0].id == prev[matches(new, prev)[p].1].id,
        forall|q: int|
            0 <= q < p ==> (#[trigger] matches(new, prev)[q]).0 < matches(new, prev)[p].0,
    decreases new.len(),
{
    let front = matches(new.drop_last(), prev);
    if p < front.len() {
        law_pairs_have_the_same_id(new.drop_last(), prev, p);
        assert forall|q: int| 0 <= q < p implies (#[trigger] matches(new, prev)[q]).0 < matches(
            new,
            prev,
        )[p].0 by {
            assert(matches(new, prev)[q] == front[q]);
        }
    } else {
        lemma_first_has_id(prev, new.last().id);
        assert forall|q: int| 0 <= q < p implies (#[trigger] matches(new, prev)[q]).0 < matches(
            new,
            prev,
        )[p].0 by {
            assert(matches(new, prev)[q] == front[q]);
            law_pairs_have_the_same_id(new.drop_last(), prev, q);
        }
    }
}

proof fn lemma_first_has_id(results: Seq<BenchResultView>, id: Seq<char>)
    ensures
        first_with_id(results, id) matches Some(i) ==> 0 <= i < results.len() && results[i].id
            == id,
    decreases results.len(),
{
    if results.len() > 0 {
        lemma_first_has_id(results.drop_last(), id);
    }
}

/// A comparison says of a query that it recovered, broke or is still broken exactly by whether its
/// iterations failed before and now. Otherwise it holds the averages, calls the query faster
/// exactly if its average is less than before, and holds the bytes exactly if there were some both
/// times.
pub proof fn law_comparison_says_what_changed(prev: BenchResultView, new: BenchResultView)
    requires
        comparable(prev, new),
    ensures
        comparison(prev, new) is Recovered <==> has_failed(prev.iterations) && !has_failed(
            new.iterations,
        ),
        comparison(prev, new) is Broken <==> !has_failed(prev.iterations) && has_failed(
            new.iterations,
        ),
        comparison(prev, new) is StillBroken <==> has_failed(prev.iterations) && has_failed(
            new.iterations,
        ),
        comparison(prev, new) is Measured ==> {
            &&& comparison(prev, new)->prev_ms == prev.avg()
            &&& comparison(prev, new)->new_ms == new.avg()
            &&& comparison(prev, new)->direction == Direction::Faster <==> new.avg() < prev.avg()
            &&& comparison(prev, new)->bytes is Some <==> prev.avg_bytes() > 0 && new.avg_bytes()
                > 0
            &&& comparison(prev, new)->bytes matches Some((before, now)) ==> before
                == prev.avg_bytes() && now == new.avg_bytes()
        },
{
    if comparison(prev, new) is Measured {
        lemma_avg_fits(prev);
        lemma_avg_fits(new);
        lemma_avg_bytes_fits(prev);
        lemma_avg_bytes_fits(new);
    }
}

proof fn lemma_avg_bytes_fits(r: BenchResultView)
    requires
        r.has_avg_bytes(),
    ensures
        r.avg_bytes() <= u64::MAX,
{
    let valid = valid_iterations(r.iterations);
    if valid.len() > 0 {
        let total = total_bytes(valid) as int;
        let n = valid.len() as int;
        assert(total / n <= total) by (nonlinear_arith)
            requires
                total >= 0,
                n >= 1,
        ;
    }
}

/// Two results can be compared exactly if one of them failed, or if both have averages.
pub proof fn law_results_with_averages_are_comparable(prev: BenchResultView, new: BenchResultView)
    ensures
        comparable(prev, new) <==> has_failed(prev.iterations) || has_failed(new.iterations) || (
        prev.has_avg() && new.has_avg() && prev.has_avg_bytes() && new.has_avg_bytes()),
{
}

/// The line on a query that failed before or now says so, behind the id of the query.
pub proof fn law_lines_on_failures(id: Seq<char>, ratios: RatiosView)
    ensures
        Comparison::Recovered.line_text(id, ratios) == id
            + ": Previously failed, but now succeeded 🟠"@,
        Comparison::Broken.line_text(id, ratios) == id
            + ": Previously succeeded, but now failed ❌"@,
        Comparison::StillBroken.line_text(id, ratios) == id
            + ": Previously failed, and now also failed ❌"@,
{
}

/// The line on a measured query holds its id, the average before, the average now, and the
/// quotient, and says whether it got faster, with a mark that tells whether that is notable. The
/// bytes come last, where there are some.
pub proof fn law_lines_on_measured_queries(
    id: Seq<char>,
    prev_ms: u128,
    new_ms: u128,
    bytes: (u64, u64),
    ratios: RatiosView,
)
    ensures
        ({
            let times = padded(id, 8) + ": prev="@ + padded(decimal(prev_ms as nat), 4)
                + " ms, new="@ + padded(decimal(new_ms as nat), 4) + " ms, diff="@ + ratios.time;
            let faster = times + " "@ + "faster"@ + " "@ + if ratios.notable {
                "✅"@
            } else {
                "✔"@
            };
            let slower = times + " "@ + "slower"@ + " "@ + if ratios.notable {
                "❌"@
            } else {
                "✖"@
            };
            let transfer = ", bytes="@ + ratios.prev_kb + "K→"@ + ratios.new_kb + "K ("@
                + ratios.transfer + "x)"@;
            let line = |direction: Direction, bytes: Option<(u64, u64)>|
                (Comparison::Measured { prev_ms, new_ms, direction, bytes }).line_text(id, ratios);
            &&& line(Direction::Faster, None) == faster
            &&& line(Direction::Slower, None) == slower
            &&& line(Direction::Faster, Some(bytes)) == faster + transfer
            &&& line(Direction::Slower, Some(bytes)) == slower + transfer
        }),
{
    let times = padded(id, 8) + ": prev="@ + padded(decimal(prev_ms as nat), 4) + " ms, new="@
        + padded(decimal(new_ms as nat), 4) + " ms, diff="@ + ratios.time;
    let faster = times + " "@ + "faster"@ + " "@ + if ratios.notable {
        "✅"@
    } else {
        "✔"@
    };
    let slower = times + " "@ + "slower"@ + " "@ + if ratios.notable {
        "❌"@
    } else {
        "✖"@
    };
    assert(faster + Seq::<char>::empty() =~= faster);
    assert(slower + Seq::<char>::empty() =~= slower);
}

/// The first result with an id is found if there is one, and no earlier one has that id.
pub proof fn law_first_result_with_an_id_is_found(results: Seq<BenchResultView>, id: Seq<char>)
    ensures
        match first_with_id(results, id) {
            Some(i) => {
                &&& 0 <= i < results.len()
                &&& results[i].id == id
                &&& forall|j: int| 0 <= j < i ==> (#[trigger] results[j]).id != id
            },
            None => forall|j: int| 0 <= j < results.len() ==> (#[trigger] results[j]).id != id,
        },
    decreases results.len(),
{
    if results.len() > 0 {
        let front = results.drop_last();
        law_first_result_with_an_id_is_found(front, id);
        let n = match first_with_id(front, id) {
            Some(i) => i,
            None => front.len() as int,
        };
        assert forall|j: int| 0 <= j < n implies (#[trigger] results[j]).id != id by {
            assert(front[j] == results[j]);
        }
    }
}

/// Every new result that has a previous one with the same id is compared, with the first such one.
/// The law gives the position of the pair.
pub proof fn law_every_result_with_a_previous_one_is_compared(
    new: Seq<BenchResultView>,
    prev: Seq<BenchResultView>,
    i: int,
    j: int,
) -> (p: int)
    requires
        0 <= i < new.len(),
        0 <= j < prev.len(),
        prev[j].id == new[i].id,
    ensures
        0 <= p < matches(new, prev).len(),
        matches(new, prev)[p].0 == i,
        matches(new, prev)[p].1 <= j,
        prev[matches(new, prev)[p].1].id == new[i].id,
        forall|k: int|
            0 <= k < matches(new, prev)[p].1 ==> (#[trigger] prev[k]).id != new[i].id,
    decreases new.len(),
{
    let front = matches(new.drop_last(), prev);
    law_first_result_with_an_id_is_found(prev, new[i].id);
    if i == new.len() - 1 {
        front.len() as int
    } else {
        let p = law_every_result_with_a_previous_one_is_compared(new.drop_last(), prev, i, j);
        assert(matches(new, prev)[p] == front[p]);
        p
    }
}

/// A report starts with a line that names the dataset and both branches, the previous one first.
/// Then come the machine and both runs, the previous one first, and a rule of as many `=` as the
/// first line has bytes.
pub proof fn law_report_names_both_runs(
    new: BenchmarkRunView,
    prev: BenchmarkRunView,
    os: Seq<char>,
    arch: Seq<char>,
    cores: usize,
)
    ensures
        ({
            let lines = preamble_text(new, prev, os, arch, cores);
            let rule = encode_utf8(lines[0]).len() as usize;
            &&& lines.len() == 7
            &&& lines[0] == "=== Comparing "@ + new.dataset + " results from branch '"@
                + prev.branch + "' [prev] with '"@ + new.branch + "' [new] ==="@
            &&& lines[1] == "os:        "@ + os
            &&& lines[2] == "arch:      "@ + arch
            &&& lines[3] == "cpu cores: "@ + decimal(cores as nat)
            &&& lines[4] == "threads:   "@ + decimal(prev.threads as nat) + " -> "@ + decimal(
                new.threads as nat,
            )
            &&& lines[5] == "workers:   "@ + decimal(prev.workers as nat) + " -> "@ + decimal(
                new.workers as nat,
            )
            &&& lines[6].len() == rule
            &&& forall|k: int| 0 <= k < rule ==> #[trigger] lines[6][k] == '='
        }),
{
}

/// The models of positions and of texts hold what those hold.
pub proof fn law_reports_are_seen_as_they_are(pairs: Seq<(usize, usize)>, i: int, ratios: Ratios)
    ensures
        pairs_view(pairs).len() == pairs.len(),
        0 <= i < pairs.len() ==> pairs_view(pairs)[i].0 == pairs[i].0 && pairs_view(pairs)[i].1
            == pairs[i].1,
        ratios@.time == ratios.time@,
        ratios@.notable == ratios.notable,
        ratios@.prev_kb == ratios.prev_kb@,
        ratios@.new_kb == ratios.new_kb@,
        ratios@.transfer == ratios.transfer@,
{
}

} // verus!
