//! Where results are kept between runs, and what is kept of a run.
//!
//! A run is stored as one file for the run itself and one file for each of its results. A path
//! is a list of components that are joined one after the other.

use crate::order::{is_stable_sort, law_sort_keeps_the_results, sort_results};
use crate::results::{results_view, BenchResult, BenchResultView, BenchmarkRun, BenchmarkRunView};
use crate::text::{after_last, has_suffix, strings_view, suffix_after, trim, trimmed};
use crate::time::{law_stored_time_loses_less_than_a_second, Elapsed, Timestamp};
use vstd::prelude::*;
use vstd::string::*;

verus! {

/// The directories that results are kept in.
#[derive(Debug)]
pub struct Layout {
    /// Holds one directory for each dataset.
    pub data_path: String,
    /// The directory of the results, in the directory of a dataset.
    pub results_dir: String,
}

/// The model of [`Layout`].
pub struct LayoutView {
    pub data_path: Seq<char>,
    pub results_dir: Seq<char>,
}

impl View for Layout {
    type V = LayoutView;

    open spec fn view(&self) -> LayoutView {
        LayoutView { data_path: self.data_path@, results_dir: self.results_dir@ }
    }
}

/// The name of the file for the result with the given id.
pub open spec fn file_name(id: Seq<char>) -> Seq<char> {
    id + ".json"@
}

/// The path of the file for the latest run on a dataset.
pub open spec fn run_path(layout: LayoutView, dataset: Seq<char>) -> Seq<Seq<char>> {
    seq![layout.data_path, dataset, "previous.json"@]
}

/// The path of the directory for the results on a dataset and a branch.
pub open spec fn results_path(
    layout: LayoutView,
    dataset: Seq<char>,
    branch: Seq<char>,
) -> Seq<Seq<char>> {
    seq![layout.data_path, dataset, layout.results_dir, branch]
}

/// The path of the file for one result.
pub open spec fn result_path(
    layout: LayoutView,
    dataset: Seq<char>,
    branch: Seq<char>,
    id: Seq<char>,
) -> Seq<Seq<char>> {
    results_path(layout, dataset, branch).push(file_name(id))
}

/// `name` without the `.json` that it ends with, however often that is repeated.
pub open spec fn without_json(name: Seq<char>) -> Seq<char>
    decreases name.len(),
{
    if ".json"@.is_suffix_of(name) {
        proof {
            reveal_strlit(".json");
        }
        without_json(name.take(name.len() - ".json"@.len()))
    } else {
        name
    }
}

/// The id of the result that a file holds, going by its name; `None` for other files.
pub open spec fn id_of_file(name: Seq<char>) -> Option<Seq<char>> {
    if ".json"@.is_suffix_of(name) {
        Some(without_json(name))
    } else {
        None
    }
}

/// The ids of the results in a directory, in the order of its entries. `None` stands for an entry
/// that could not be read.
pub open spec fn ids_of_entries(names: Seq<Option<Seq<char>>>) -> Seq<Seq<char>>
    decreases names.len(),
{
    if names.len() == 0 {
        Seq::empty()
    } else {
        let front = ids_of_entries(names.drop_last());
        match names.last() {
            Some(name) => match id_of_file(name) {
                Some(id) => front.push(id),
                None => front,
            },
            None => front,
        }
    }
}

/// The results that could be loaded, in order.
pub open spec fn present(loaded: Seq<Option<BenchResultView>>) -> Seq<BenchResultView>
    decreases loaded.len(),
{
    if loaded.len() == 0 {
        Seq::empty()
    } else {
        let front = present(loaded.drop_last());
        match loaded.last() {
            Some(r) => front.push(r),
            None => front,
        }
    }
}

/// The views of a list of results that may be missing.
pub open spec fn loaded_view(loaded: Seq<Option<BenchResult>>) -> Seq<Option<BenchResultView>> {
    loaded.map_values(
        |r: Option<BenchResult>|
            match r {
                Some(r) => Some(r@),
                None => None,
            },
    )
}

/// The views of a list of names that may be missing.
pub open spec fn names_view(names: Seq<Option<String>>) -> Seq<Option<Seq<char>>> {
    names.map_values(
        |n: Option<String>|
            match n {
                Some(n) => Some(n@),
                None => None,
            },
    )
}

/// What is stored of a run itself; its results are stored in files of their own.
#[derive(Debug)]
pub struct StoredRun {
    pub workers: usize,
    pub threads: usize,
    /// Whole seconds since the Unix epoch.
    pub start_time: u64,
    pub dataset: String,
    pub branch: String,
}

/// The model of [`StoredRun`].
pub struct StoredRunView {
    pub workers: usize,
    pub threads: usize,
    pub start_time: u64,
    pub dataset: Seq<char>,
    pub branch: Seq<char>,
}

impl View for StoredRun {
    type V = StoredRunView;

    open spec fn view(&self) -> StoredRunView {
        StoredRunView {
            workers: self.workers,
            threads: self.threads,
            start_time: self.start_time,
            dataset: self.dataset@,
            branch: self.branch@,
        }
    }
}

/// What is stored of `run`, which started after the epoch.
pub open spec fn stored(run: BenchmarkRunView) -> StoredRunView {
    StoredRunView {
        workers: run.workers,
        threads: run.threads,
        start_time: run.start_time->SinceEpoch_0.secs,
        dataset: run.dataset,
        branch: run.branch,
    }
}

/// The run that `stored` and the results found with it stand for.
pub open spec fn restored(
    stored: StoredRunView,
    results: Seq<BenchResultView>,
) -> BenchmarkRunView {
    BenchmarkRunView {
        workers: stored.workers,
        threads: stored.threads,
        start_time: Timestamp::SinceEpoch(Elapsed { secs: stored.start_time, nanos: 0 }),
        dataset: stored.dataset,
        branch: stored.branch,
        results,
    }
}

/// What storing a run writes: the run, and then each of its results.
#[derive(Debug)]
pub struct StoreOrder {
    pub run_path: Vec<String>,
    pub run: StoredRun,
    /// The path of each result of the run, in the order of the results.
    pub result_paths: Vec<Vec<String>>,
}

/// `order` stores `run`, with its results under `branch`.
pub open spec fn is_store_order(
    layout: LayoutView,
    branch: Seq<char>,
    run: BenchmarkRunView,
    order: StoreOrder,
) -> bool {
    &&& strings_view(order.run_path@) == run_path(layout, run.dataset)
    &&& order.run@ == stored(run)
    &&& order.result_paths@.len() == run.results.len()
    &&& forall|i: int|
        0 <= i < run.results.len() ==> strings_view(#[trigger] order.result_paths@[i]@)
            == result_path(layout, run.results[i].dataset, branch, run.results[i].id)
}

/// The name of the current branch, without what precedes its last slash, from what
/// `git rev-parse --abbrev-ref HEAD` prints.
pub fn current_branch(output: &str) -> (r: String)
    ensures
        r@ == after_last(trimmed(output@), '/'),
{
    suffix_after(trim(output).as_str(), '/')
}

/// The name of the file for the result with the given id.
fn name_of_file(id: &str) -> (r: String)
    ensures
        r@ == file_name(id@),
{
    id.to_owned().concat(".json")
}

/// The id of the result that a file holds, going by its name; `None` for other files.
pub fn id_from_file_name(name: &str) -> (r: Option<String>)
    ensures
        match r {
            Some(id) => id_of_file(name@) == Some(id@),
            None => id_of_file(name@) is None,
        },
{
    if !has_suffix(name, ".json") {
        return None;
    }
    proof {
        reveal_strlit(".json");
    }
    let mut end: usize = name.unicode_len();
    assert(name@.take(end as int) =~= name@);
    while end >= 5 && has_suffix(name.substring_char(0, end), ".json")
        invariant
            end <= name@.len(),
            ".json"@.len() == 5,
            without_json(name@) == without_json(name@.take(end as int)),
        decreases end,
    {
        assert(name@.take(end as int).take(end - 5) =~= name@.take(end - 5));
        end = end - 5;
    }
    assert(without_json(name@.take(end as int)) == name@.take(end as int));
    Some(name.substring_char(0, end).to_owned())
}

/// The ids of the results in a directory, in the order of its entries. `None` stands for an entry
/// that could not be read.
pub fn listed_ids(names: &Vec<Option<String>>) -> (r: Vec<String>)
    ensures
        strings_view(r@) == ids_of_entries(names_view(names@)),
{
    let ghost all = names_view(names@);
    let mut r: Vec<String> = Vec::new();
    let mut i: usize = 0;
    assert(strings_view(r@) =~= Seq::<Seq<char>>::empty());
    while i < names.len()
        invariant
            i <= names@.len(),
            all == names_view(names@),
            strings_view(r@) == ids_of_entries(all.take(i as int)),
        decreases names@.len() - i,
    {
        let ghost before = strings_view(r@);
        assert(all.take(i + 1).drop_last() =~= all.take(i as int));
        assert(all.take(i + 1).last() == all[i as int]);
        if let Some(name) = &names[i] {
            if let Some(id) = id_from_file_name(name.as_str()) {
                r.push(id);
                assert(strings_view(r@) =~= before.push(id@));
            }
        }
        i = i + 1;
    }
    assert(all.take(i as int) =~= all);
    r
}

impl BenchResult {
    /// The path of the file that the result is stored in, on the given branch.
    pub fn store(&self, layout: &Layout, branch: &str) -> (r: Vec<String>)
        ensures
            strings_view(r@) == result_path(layout@, self@.dataset, branch@, self@.id),
    {
        Self::load(layout, self.dataset.as_str(), branch, self.id.as_str())
    }

    /// The path of the file that the result with the given id is loaded from.
    pub fn load(layout: &Layout, dataset: &str, branch: &str, id: &str) -> (r: Vec<String>)
        ensures
            strings_view(r@) == result_path(layout@, dataset@, branch@, id@),
    {
        let mut r = Self::load_dir(layout, dataset, branch);
        let ghost before = strings_view(r@);
        r.push(name_of_file(id));
        assert(strings_view(r@) =~= before.push(file_name(id@)));
        r
    }

    /// The path of the directory that the results on a dataset and a branch are listed from.
    pub fn load_dir(layout: &Layout, dataset: &str, branch: &str) -> (r: Vec<String>)
        ensures
            strings_view(r@) == results_path(layout@, dataset@, branch@),
    {
        let mut r: Vec<String> = Vec::new();
        r.push(layout.data_path.clone());
        r.push(dataset.to_owned());
        r.push(layout.results_dir.clone());
        r.push(branch.to_owned());
        assert(strings_view(r@) =~= results_path(layout@, dataset@, branch@));
        r
    }

    /// The results that could be loaded, sorted by id.
    pub fn load_many(loaded: Vec<Option<BenchResult>>) -> (r: Vec<BenchResult>)
        ensures
            is_stable_sort(present(loaded_view(loaded@)), results_view(r@)),
    {
        let ghost all = loaded_view(loaded@);
        let mut rest = loaded;
        let mut found: Vec<BenchResult> = Vec::new();
        let ghost mut done: int = 0;
        assert(results_view(found@) =~= Seq::<BenchResultView>::empty());
        assert(loaded@.skip(0) =~= loaded@);
        while rest.len() > 0
            invariant
                all == loaded_view(loaded@),
                0 <= done <= all.len(),
                rest@ == loaded@.skip(done),
                results_view(found@) == present(all.take(done)),
            decreases rest@.len(),
        {
            let ghost before = results_view(found@);
            let next = rest.remove(0);
            assert(next == loaded@[done]);
            assert(all.take(done + 1).drop_last() =~= all.take(done));
            assert(all.take(done + 1).last() == all[done]);
            if let Some(result) = next {
                found.push(result);
                assert(results_view(found@) =~= before.push(result@));
            }
            proof {
                done = done + 1;
            }
            assert(rest@ =~= loaded@.skip(done));
        }
        assert(all.take(done) =~= all);
        sort_results(found)
    }
}

impl BenchmarkRun {
    /// What has to be written, and where, to store the run. `branch` is the current branch, under
    /// which the results are stored. Nothing is written unless the directory of the dataset
    /// exists.
    pub fn store(&self, layout: &Layout, branch: &str, exists: bool) -> (r: Option<StoreOrder>)
        requires
            exists ==> self.start_time is SinceEpoch,
        ensures
            r is Some <==> exists,
            r matches Some(order) ==> is_store_order(layout@, branch@, self@, order),
    {
        if !exists {
            return None;
        }
        let mut path: Vec<String> = Vec::new();
        path.push(layout.data_path.clone());
        path.push(self.dataset.clone());
        path.push("previous.json".to_owned());
        assert(strings_view(path@) =~= run_path(layout@, self@.dataset));
        let mut result_paths: Vec<Vec<String>> = Vec::new();
        let mut i: usize = 0;
        while i < self.results.len()
            invariant
                i <= self.results@.len(),
                result_paths@.len() == i,
                forall|j: int|
                    0 <= j < i ==> strings_view(#[trigger] result_paths@[j]@) == result_path(
                        layout@,
                        self@.results[j].dataset,
                        branch@,
                        self@.results[j].id,
                    ),
            decreases self.results@.len() - i,
        {
            assert(self@.results[i as int] == self.results@[i as int]@);
            result_paths.push(self.results[i].store(layout, branch));
            i = i + 1;
        }
        let run = StoredRun {
            workers: self.workers,
            threads: self.threads,
            start_time: self.start_time.as_secs(),
            dataset: self.dataset.clone(),
            branch: self.branch.clone(),
        };
        Some(StoreOrder { run_path: path, run, result_paths })
    }

    /// The path of the directory that has to exist for runs on a dataset to be stored.
    pub fn store_dir(layout: &Layout, dataset: &str) -> (r: Vec<String>)
        ensures
            strings_view(r@) == seq![layout@.data_path, dataset@],
    {
        let mut r: Vec<String> = Vec::new();
        r.push(layout.data_path.clone());
        r.push(dataset.to_owned());
        assert(strings_view(r@) =~= seq![layout@.data_path, dataset@]);
        r
    }

    /// The path of the file that the latest run on a dataset is loaded from.
    pub fn load_path(layout: &Layout, dataset: &str) -> (r: Vec<String>)
        ensures
            strings_view(r@) == run_path(layout@, dataset@),
    {
        let mut r: Vec<String> = Vec::new();
        r.push(layout.data_path.clone());
        r.push(dataset.to_owned());
        r.push("previous.json".to_owned());
        assert(strings_view(r@) =~= run_path(layout@, dataset@));
        r
    }

    /// The previous run: what was stored of it, if it could be read, with the results that could
    /// be loaded for its dataset and branch.
    pub fn load_previous(
        stored: Option<StoredRun>,
        loaded: Vec<Option<BenchResult>>,
    ) -> (r: Option<BenchmarkRun>)
        ensures
            r is Some <==> stored is Some,
            r is Some ==> {
                &&& r->0@ == restored(stored->0@, r->0@.results)
                &&& is_stable_sort(present(loaded_view(loaded@)), r->0@.results)
            },
    {
        match stored {
            Some(stored) => Some(
                BenchmarkRun {
                    workers: stored.workers,
                    threads: stored.threads,
                    start_time: Timestamp::from_secs(stored.start_time),
                    dataset: stored.dataset,
                    branch: stored.branch,
                    results: BenchResult::load_many(loaded),
                },
            ),
            None => None,
        }
    }
}

/// Results that differ in dataset, branch or id have paths that differ as lists of components.
/// Where a component holds a separator, two such lists may still join to one path.
pub proof fn law_results_have_paths_of_their_own(
    layout: LayoutView,
    a: (Seq<char>, Seq<char>, Seq<char>),
    b: (Seq<char>, Seq<char>, Seq<char>),
)
    requires
        result_path(layout, a.0, a.1, a.2) == result_path(layout, b.0, b.1, b.2),
    ensures
        a == b,
{
    let left = result_path(layout, a.0, a.1, a.2);
    let right = result_path(layout, b.0, b.1, b.2);
    assert(left[1] == a.0 && right[1] == b.0);
    assert(left[3] == a.1 && right[3] == b.1);
    assert(left[4] == file_name(a.2) && right[4] == file_name(b.2));
    assert(a.2 =~= file_name(a.2).take(file_name(a.2).len() - ".json"@.len()));
    assert(b.2 =~= file_name(b.2).take(file_name(b.2).len() - ".json"@.len()));
}

/// A stored run is read back as it was, but for the part of a second in its start time and for
/// its results, which come from files of their own. The start time is no later than it was and less
/// than a second earlier, and is stored as the same seconds again.
pub proof fn law_stored_run_reads_back(run: BenchmarkRunView, results: Seq<BenchResultView>)
    requires
        run.start_time is SinceEpoch,
        run.start_time.valid(),
    ensures
        restored(stored(run), results).start_time.valid(),
        0 <= run.start_time.nanos_since_epoch() - restored(
            stored(run),
            results,
        ).start_time.nanos_since_epoch() < 1_000_000_000,
        stored(restored(stored(run), results)) == stored(run),
        restored(stored(run), results) == (BenchmarkRunView {
            start_time: run.start_time.truncated(),
            results,
            ..run
        }),
{
    law_stored_time_loses_less_than_a_second(run.start_time);
}

/// A result that was stored is found again under its id, unless the id itself ends in `.json`.
pub proof fn law_stored_result_is_listed(id: Seq<char>)
    requires
        !".json"@.is_suffix_of(id),
    ensures
        id_of_file(file_name(id)) == Some(id),
{
    reveal_strlit(".json");
    let name = file_name(id);
    assert(name.subrange(name.len() - ".json"@.len(), name.len() as int) =~= ".json"@);
    assert(name.take(name.len() - ".json"@.len()) =~= id);
    assert(without_json(id) == id);
}

/// Results that were stored, and nothing beside them, are listed by their ids in the order of the
/// directory's entries.
pub proof fn law_stored_results_are_listed(ids: Seq<Seq<char>>)
    requires
        forall|i: int| 0 <= i < ids.len() ==> !".json"@.is_suffix_of(#[trigger] ids[i]),
    ensures
        ids_of_entries(ids.map_values(|id: Seq<char>| Some(file_name(id)))) == ids,
    decreases ids.len(),
{
    let names = ids.map_values(|id: Seq<char>| Some(file_name(id)));
    if ids.len() > 0 {
        assert forall|i: int| 0 <= i < ids.len() - 1 implies !".json"@.is_suffix_of(
            #[trigger] ids.drop_last()[i],
        ) by {
            assert(ids[i] == ids.drop_last()[i]);
        }
        law_stored_results_are_listed(ids.drop_last());
        assert(names.drop_last() =~= ids.drop_last().map_values(
            |id: Seq<char>| Some(file_name(id)),
        ));
        assert(!".json"@.is_suffix_of(ids[ids.len() - 1]));
        law_stored_result_is_listed(ids.last());
        assert(ids =~= ids.drop_last().push(ids.last()));
    } else {
        assert(ids_of_entries(names) =~= ids);
    }
}

/// The results of a list are all present.
proof fn lemma_all_present(results: Seq<BenchResultView>)
    ensures
        present(results.map_values(|r: BenchResultView| Some(r))) == results,
    decreases results.len(),
{
    let loaded = results.map_values(|r: BenchResultView| Some(r));
    if results.len() > 0 {
        lemma_all_present(results.drop_last());
        assert(loaded.drop_last() =~= results.drop_last().map_values(
            |r: BenchResultView| Some(r),
        ));
        assert(results =~= results.drop_last().push(results.last()));
    } else {
        assert(present(loaded) =~= results);
    }
}

/// A run that was stored on its own branch is loaded again, whatever the order in which the
/// directory lists its results: each result is looked for under its id, where it was written, and
/// the run has the same results again. Two results with the same id share a file, and an id that
/// ends in `.json` is not found again.
pub proof fn law_stored_run_is_loaded_again(
    layout: LayoutView,
    run: BenchmarkRunView,
    listing: Seq<BenchResultView>,
    sorted: Seq<BenchResultView>,
)
    requires
        run.start_time is SinceEpoch,
        run.start_time.valid(),
        forall|i: int|
            0 <= i < run.results.len() ==> {
                &&& (#[trigger] run.results[i]).dataset == run.dataset
                &&& !".json"@.is_suffix_of(run.results[i].id)
            },
        forall|i: int, j: int|
            0 <= i < j < run.results.len() ==> (#[trigger] run.results[i]).id != (
            #[trigger] run.results[j]).id,
        listing.to_multiset() == run.results.to_multiset(),
        is_stable_sort(present(listing.map_values(|r: BenchResultView| Some(r))), sorted),
    ensures
        run_path(layout, stored(run).dataset) == run_path(layout, run.dataset),
        ids_of_entries(listing.map_values(|r: BenchResultView| Some(file_name(r.id))))
            == listing.map_values(|r: BenchResultView| r.id),
        forall|i: int|
            0 <= i < listing.len() ==> result_path(
                layout,
                stored(run).dataset,
                stored(run).branch,
                (#[trigger] listing[i]).id,
            ) == result_path(layout, listing[i].dataset, run.branch, listing[i].id),
        restored(stored(run), sorted) == (BenchmarkRunView {
            start_time: run.start_time.truncated(),
            results: sorted,
            ..run
        }),
        sorted.to_multiset() == run.results.to_multiset(),
{
    broadcast use vstd::seq_lib::group_to_multiset_ensures;

    assert forall|i: int| 0 <= i < listing.len() implies (#[trigger] listing[i]).dataset
        == run.dataset && !".json"@.is_suffix_of(listing[i].id) by {
        assert(listing.to_multiset().count(listing[i]) > 0) by {
            assert(listing.contains(listing[i]));
        }
        assert(run.results.contains(listing[i]));
    }
    let ids = listing.map_values(|r: BenchResultView| r.id);
    assert forall|i: int| 0 <= i < ids.len() implies !".json"@.is_suffix_of(#[trigger] ids[i]) by {
        assert(ids[i] == listing[i].id);
    }
    law_stored_results_are_listed(ids);
    assert(listing.map_values(|r: BenchResultView| Some(file_name(r.id))) =~= ids.map_values(
        |id: Seq<char>| Some(file_name(id)),
    ));
    lemma_all_present(listing);
    law_stored_run_reads_back(run, sorted);
    law_sort_keeps_the_results(listing, sorted);
}

/// Each component of a path is what it should be: the data, the dataset, and then the file of the
/// run, or the results, the branch and the file of the result.
pub proof fn law_paths_lead_through_dataset_and_branch(
    layout: LayoutView,
    dataset: Seq<char>,
    branch: Seq<char>,
    id: Seq<char>,
)
    ensures
        run_path(layout, dataset).len() == 3,
        run_path(layout, dataset)[0] == layout.data_path,
        run_path(layout, dataset)[1] == dataset,
        run_path(layout, dataset)[2] == "previous.json"@,
        results_path(layout, dataset, branch).len() == 4,
        results_path(layout, dataset, branch)[0] == layout.data_path,
        results_path(layout, dataset, branch)[1] == dataset,
        results_path(layout, dataset, branch)[2] == layout.results_dir,
        results_path(layout, dataset, branch)[3] == branch,
        result_path(layout, dataset, branch, id).len() == 5,
        result_path(layout, dataset, branch, id).drop_last() == results_path(
            layout,
            dataset,
            branch,
        ),
        result_path(layout, dataset, branch, id)[4] == id + ".json"@,
{
    assert(result_path(layout, dataset, branch, id).drop_last() =~= results_path(
        layout,
        dataset,
        branch,
    ));
}

/// Every entry of a directory is looked at: the ids of two lists of entries together are those of
/// the first and then those of the second. An entry that cannot be read, or whose name does not end
/// in `.json`, gives no id.
pub proof fn law_every_entry_is_looked_at(
    a: Seq<Option<Seq<char>>>,
    b: Seq<Option<Seq<char>>>,
    name: Seq<char>,
)
    ensures
        ids_of_entries(a + b) == ids_of_entries(a) + ids_of_entries(b),
        ids_of_entries(seq![None]) == Seq::<Seq<char>>::empty(),
        !".json"@.is_suffix_of(name) ==> ids_of_entries(seq![Some(name)]) == Seq::<
            Seq<char>,
        >::empty(),
        ".json"@.is_suffix_of(name) ==> ids_of_entries(seq![Some(name)]) == seq![
            without_json(name),
        ],
    decreases b.len(),
{
    reveal_with_fuel(ids_of_entries, 2);
    assert(seq![Some(name)].drop_last() =~= Seq::<Option<Seq<char>>>::empty());
    assert(seq![None::<Seq<char>>].drop_last() =~= Seq::<Option<Seq<char>>>::empty());
    assert(Seq::<Seq<char>>::empty().push(without_json(name)) =~= seq![without_json(name)]);
    if b.len() == 0 {
        assert(a + b =~= a);
        assert(ids_of_entries(a) + ids_of_entries(b) =~= ids_of_entries(a));
    } else {
        law_every_entry_is_looked_at(a, b.drop_last(), name);
        assert((a + b).drop_last() =~= a + b.drop_last());
        assert((a + b).last() == b.last());
        assert(ids_of_entries(a + b) =~= ids_of_entries(a) + ids_of_entries(b));
    }
}

/// Every `.json` at the end of a name is taken off, and nothing else.
pub proof fn law_only_the_ending_is_taken_off(name: Seq<char>)
    ensures
        without_json(name + ".json"@) == without_json(name),
        !".json"@.is_suffix_of(name) ==> without_json(name) == name,
{
    let whole = name + ".json"@;
    reveal_strlit(".json");
    assert(whole.subrange(whole.len() - ".json"@.len(), whole.len() as int) =~= ".json"@);
    assert(whole.take(whole.len() - ".json"@.len()) =~= name);
}

/// Every result that could be loaded is there, in order, and nothing else.
pub proof fn law_every_loaded_result_is_present(
    a: Seq<Option<BenchResultView>>,
    b: Seq<Option<BenchResultView>>,
    one: BenchResultView,
)
    ensures
        present(a + b) == present(a) + present(b),
        present(seq![None]) == Seq::<BenchResultView>::empty(),
        present(seq![Some(one)]) == seq![one],
    decreases b.len(),
{
    reveal_with_fuel(present, 2);
    assert(seq![Some(one)].drop_last() =~= Seq::<Option<BenchResultView>>::empty());
    assert(seq![None::<BenchResultView>].drop_last() =~= Seq::<Option<BenchResultView>>::empty());
    assert(Seq::<BenchResultView>::empty().push(one) =~= seq![one]);
    if b.len() == 0 {
        assert(a + b =~= a);
        assert(present(a) + present(b) =~= present(a));
    } else {
        law_every_loaded_result_is_present(a, b.drop_last(), one);
        assert((a + b).drop_last() =~= a + b.drop_last());
        assert((a + b).last() == b.last());
        assert(present(a + b) =~= present(a) + present(b));
    }
}

/// What is stored of a run is what the run has, with the whole seconds of its start, and a run that
/// is restored has what was stored, with the results found.
pub proof fn law_stored_fields_are_those_of_the_run(
    run: BenchmarkRunView,
    kept: StoredRunView,
    results: Seq<BenchResultView>,
)
    ensures
        stored(run).workers == run.workers,
        stored(run).threads == run.threads,
        stored(run).dataset == run.dataset,
        stored(run).branch == run.branch,
        run.start_time matches Timestamp::SinceEpoch(time) ==> stored(run).start_time == time.secs,
        restored(kept, results).workers == kept.workers,
        restored(kept, results).threads == kept.threads,
        restored(kept, results).dataset == kept.dataset,
        restored(kept, results).branch == kept.branch,
        restored(kept, results).results == results,
        restored(kept, results).start_time == Timestamp::SinceEpoch(
            Elapsed { secs: kept.start_time, nanos: 0 },
        ),
{
}

/// The models of what is handed in and out hold what that holds.
pub proof fn law_stored_values_are_seen_as_they_are(
    layout: Layout,
    run: StoredRun,
    loaded: Seq<Option<BenchResult>>,
    names: Seq<Option<String>>,
    i: int,
)
    ensures
        layout@.data_path == layout.data_path@,
        layout@.results_dir == layout.results_dir@,
        run@.workers == run.workers,
        run@.threads == run.threads,
        run@.start_time == run.start_time,
        run@.dataset == run.dataset@,
        run@.branch == run.branch@,
        loaded_view(loaded).len() == loaded.len(),
        0 <= i < loaded.len() ==> match loaded[i] {
            Some(result) => loaded_view(loaded)[i] == Some(result@),
            None => loaded_view(loaded)[i] is None,
        },
        names_view(names).len() == names.len(),
        0 <= i < names.len() ==> match names[i] {
            Some(name) => names_view(names)[i] == Some(name@),
            None => names_view(names)[i] is None,
        },
{
}

/// A store order writes the run to its file and every result of the run to its own.
pub proof fn law_store_order_writes_everything(
    layout: LayoutView,
    branch: Seq<char>,
    run: BenchmarkRunView,
    order: StoreOrder,
    i: int,
)
    requires
        is_store_order(layout, branch, run, order),
        0 <= i < run.results.len(),
    ensures
        strings_view(order.run_path@) == run_path(layout, run.dataset),
        order.run@ == stored(run),
        order.result_paths@.len() == run.results.len(),
        strings_view(order.result_paths@[i]@) == result_path(
            layout,
            run.results[i].dataset,
            branch,
            run.results[i].id,
        ),
{
}

} // verus!
