//! The options of the benchmark program, and what follows from them.

use crate::error::{RunError, RunErrorView};
use crate::queries::queries_view;
use crate::session::{batch_size_key, config_options, with_partitions, with_some_partitions};
use crate::text::{
    before_first, contains_text, decimal, decimal_text, prefix_before, same_text, strings_view,
};
use datafusion::common::utils::get_available_parallelism;
use datafusion::common::DataFusionError;
use datafusion::prelude::SessionConfig;
use vstd::prelude::*;
use vstd::string::*;

verus! {

/// The bits of the number 1 in IEEE 754 binary64, the scale factor that is used by default.
pub const UNIT_SCALE_FACTOR: u64 = 0x3FF0_0000_0000_0000;

/// The options of the benchmark program.
#[derive(Debug)]
pub struct RunOpt {
    /// Ids of the queries to run. If there are none, all queries are run.
    pub query: Vec<String>,
    /// Name of the dataset.
    pub dataset: String,
    /// Spawns a worker in the specified port.
    pub spawn: Option<u16>,
    /// The ports of all the workers involved in the query.
    pub workers: Vec<u16>,
    /// Number of physical threads per worker.
    pub threads: Option<usize>,
    /// Number of files per each distributed task.
    pub files_per_task: Option<usize>,
    /// Task count scale factor for when nodes in stages change the cardinality of the data, by
    /// its bits in IEEE 754 binary64.
    pub cardinality_task_sf: Option<u64>,
    /// Use children isolator UNIONs for distributing UNION operations.
    pub children_isolator_unions: bool,
    /// Turns on broadcast joins.
    pub broadcast_joins: bool,
    /// Collects metrics across network boundaries.
    pub collect_metrics: bool,
    /// Compression of what crosses network boundaries.
    pub compression: String,
    /// Sets the limits of tasks for each stage.
    pub max_tasks_per_stage: usize,
    /// Number of iterations of each test run.
    pub iterations: usize,
    /// Number of partitions to process in parallel. Defaults to number of available cores.
    /// Should typically be less or equal than the number of threads.
    pub partitions: Option<usize>,
    /// Batch size when reading files.
    pub batch_size: Option<usize>,
    /// Show more details.
    pub debug: bool,
}

/// How rows are compressed on the wire.
#[derive(Clone, Copy, Debug, PartialEq, Eq, Structural)]
pub enum Compression {
    Zstd,
    Lz4Frame,
}

/// What the program does.
#[derive(Debug)]
pub enum RunMode {
    /// Serves as a worker at an address.
    Serve { threads: usize, address: String },
    /// Runs the benchmark.
    Local { threads: usize },
}

/// How the session that a benchmark is run in spreads queries over tasks.
#[derive(Debug)]
pub struct TaskSettings {
    /// The ports of the workers.
    pub workers: Vec<u16>,
    pub files_per_task: usize,
    /// The scale factor by its bits in IEEE 754 binary64.
    pub cardinality_task_sf: u64,
}

/// The other settings of the session that a benchmark is run in.
#[derive(Clone, Copy, Debug, PartialEq, Eq)]
pub struct SessionSettings {
    pub compression: Option<Compression>,
    pub children_isolator_unions: bool,
    pub broadcast_joins: bool,
    pub collect_metrics: bool,
    pub max_tasks_per_stage: usize,
}

/// The compression with the given name; the inner `None` stands for none.
pub open spec fn compression_named(name: Seq<char>) -> Option<Option<Compression>> {
    if name == "zstd"@ {
        Some(Some(Compression::Zstd))
    } else if name == "lz4"@ {
        Some(Some(Compression::Lz4Frame))
    } else if name == "none"@ {
        Some(None)
    } else {
        None
    }
}

/// Why a compression cannot be used.
pub open spec fn unknown_compression(name: Seq<char>) -> RunErrorView {
    RunErrorView::Configuration("Unknown compression type "@ + name)
}

/// Why a dataset cannot be used: there is nothing under its name.
pub open spec fn missing_dataset(dataset: Seq<char>) -> RunErrorView {
    RunErrorView::Execution("--dataset "@ + dataset + " doesn't exist. Was it generated?"@)
}

/// Why a dataset cannot be used: its directory is empty.
pub open spec fn empty_dataset(dataset: Seq<char>) -> RunErrorView {
    RunErrorView::Execution("Dataset "@ + dataset + " is empty"@)
}

/// The queries among `queries` whose ids are in `wanted`, or all of them where `wanted` is empty;
/// each by the name of the dataset and its id.
pub open spec fn selected(
    dataset: Seq<char>,
    wanted: Seq<Seq<char>>,
    queries: Seq<(Seq<char>, Seq<char>)>,
) -> Seq<(Seq<char>, Seq<char>)>
    decreases queries.len(),
{
    if queries.len() == 0 {
        Seq::empty()
    } else {
        let front = selected(dataset, wanted, queries.drop_last());
        let (id, sql) = queries.last();
        if wanted.len() == 0 || wanted.contains(id) {
            front.push((dataset + " "@ + id, sql))
        } else {
            front
        }
    }
}

impl RunOpt {
    /// The number of partitions to process in parallel, on a machine that can run `cores` threads
    /// at once.
    pub open spec fn chosen_partitions(self, cores: usize) -> usize {
        match self.partitions {
            Some(partitions) => partitions,
            None => cores,
        }
    }

    /// The number of threads, on a machine that can run `cores` of them at once.
    pub open spec fn chosen_threads(self, cores: usize) -> usize {
        match self.threads {
            Some(threads) => threads,
            None => cores,
        }
    }

    /// What the program does on a machine that can run `cores` threads at once.
    pub open spec fn is_mode(self, cores: usize, mode: RunMode) -> bool {
        match self.spawn {
            Some(port) => mode matches RunMode::Serve { threads, address } && threads
                == self.chosen_threads(cores) && address@ == "127.0.0.1:"@ + decimal(port as nat),
            None => mode == RunMode::Local { threads: self.chosen_threads(cores) },
        }
    }

    /// `settings` spread queries over tasks as the options ask for, on a machine that can run
    /// `cores` threads at once.
    pub open spec fn is_task_settings(self, cores: usize, settings: TaskSettings) -> bool {
        &&& settings.workers@ == self.workers@
        &&& settings.files_per_task == match self.files_per_task {
            Some(n) => n,
            None => cores,
        }
        &&& settings.cardinality_task_sf == match self.cardinality_task_sf {
            Some(bits) => bits,
            None => UNIT_SCALE_FACTOR,
        }
    }

    /// The other settings of the session, with the given compression.
    pub open spec fn session_settings(self, compression: Option<Compression>) -> SessionSettings {
        SessionSettings {
            compression,
            children_isolator_unions: self.children_isolator_unions,
            broadcast_joins: self.broadcast_joins,
            collect_metrics: self.collect_metrics,
            max_tasks_per_stage: self.max_tasks_per_stage,
        }
    }

    /// The options of `environment` with the batch size set, where one is given.
    pub open spec fn batched_options(self, environment: SessionConfig) -> Map<
        Seq<char>,
        Option<Seq<char>>,
    > {
        match self.batch_size {
            Some(n) => config_options(environment).insert(
                batch_size_key(),
                Some(decimal(n as nat)),
            ),
            None => config_options(environment),
        }
    }

    /// `config` is `environment` with the batch size and the number of partitions set. Where 0
    /// partitions are asked for, the engine sets a number that is not 0.
    pub open spec fn is_config(
        self,
        cores: usize,
        environment: SessionConfig,
        config: SessionConfig,
    ) -> bool {
        let partitions = self.chosen_partitions(cores);
        let batched = self.batched_options(environment);
        if partitions > 0 {
            config_options(config) == with_partitions(batched, partitions)
        } else {
            with_some_partitions(batched, config_options(config))
        }
    }

    /// `config` is made from what came of reading the environment: an error is handed on.
    pub open spec fn is_config_from(
        self,
        cores: usize,
        environment: Result<SessionConfig, DataFusionError>,
        config: Result<SessionConfig, DataFusionError>,
    ) -> bool {
        match environment {
            Ok(environment) => config matches Ok(config) && self.is_config(
                cores,
                environment,
                config,
            ),
            Err(error) => config == Err::<SessionConfig, DataFusionError>(error),
        }
    }

    /// The number of partitions to process in parallel, on a machine that can run `cores` threads
    /// at once: what was asked for, or else the number of cores.
    pub fn partitions_on(&self, cores: usize) -> (r: usize)
        ensures
            r == self.chosen_partitions(cores),
    {
        self.partitions.unwrap_or(cores)
    }

    /// The number of partitions to process in parallel.
    pub fn partitions(&self) -> (r: usize)
        ensures
            exists|cores: usize| cores >= 1 && r == #[trigger] self.chosen_partitions(cores),
    {
        self.partitions_on(get_available_parallelism())
    }

    /// The number of threads, on a machine that can run `cores` of them at once.
    pub fn threads_on(&self, cores: usize) -> (r: usize)
        ensures
            r == self.chosen_threads(cores),
    {
        self.threads.unwrap_or(cores)
    }

    /// The config of the session on a machine that can run `cores` threads at once, made from the
    /// config that the environment asks for.
    pub fn config_on(&self, cores: usize, environment: SessionConfig) -> (r: SessionConfig)
        requires
            self.batch_size != Some(0usize),
        ensures
            self.is_config(cores, environment, r),
    {
        let batched = match self.batch_size {
            Some(n) => environment.with_batch_size(n),
            None => environment,
        };
        batched.with_target_partitions(self.partitions_on(cores))
    }

    /// The config of the session on a machine that can run `cores` threads at once, given what
    /// came of reading the environment: an error is handed on.
    pub fn config_from(
        &self,
        cores: usize,
        environment: Result<SessionConfig, DataFusionError>,
    ) -> (r: Result<SessionConfig, DataFusionError>)
        requires
            environment is Ok ==> self.batch_size != Some(0usize),
        ensures
            self.is_config_from(cores, environment, r),
    {
        match environment {
            Ok(environment) => Ok(self.config_on(cores, environment)),
            Err(error) => Err(error),
        }
    }

    /// The config of the session, made from the config that the environment asks for. Where the
    /// environment asks for what cannot be had, the engine's error is handed on.
    pub fn config(&self) -> (r: Result<SessionConfig, DataFusionError>)
        requires
            self.batch_size != Some(0usize),
        ensures
            exists|cores: usize, environment: Result<SessionConfig, DataFusionError>|
                cores >= 1 && #[trigger] self.is_config_from(cores, environment, r),
    {
        self.config_from(get_available_parallelism(), SessionConfig::from_env())
    }

    /// What the program does on a machine that can run `cores` threads at once.
    pub fn run_on(&self, cores: usize) -> (r: RunMode)
        ensures
            self.is_mode(cores, r),
    {
        let threads: usize = self.threads_on(cores);
        match self.spawn {
            Some(port) => {
                let address = "127.0.0.1:".to_owned().concat(decimal_text(port as u128).as_str());
                RunMode::Serve { threads, address }
            },
            None => RunMode::Local { threads },
        }
    }

    /// What the program does: it serves as a worker if it is told a port, and otherwise runs the
    /// benchmark.
    pub fn run(&self) -> (r: RunMode)
        ensures
            exists|cores: usize| cores >= 1 && #[trigger] self.is_mode(cores, r),
    {
        self.run_on(get_available_parallelism())
    }

    /// The compression that the options name.
    fn compression_type(&self) -> (r: Result<Option<Compression>, RunError>)
        ensures
            match r {
                Ok(c) => compression_named(self.compression@) == Some(c),
                Err(e) => compression_named(self.compression@) is None && e@
                    == unknown_compression(self.compression@),
            },
    {
        proof {
            reveal_strlit("zstd");
            reveal_strlit("lz4");
            reveal_strlit("none");
        }
        let name = self.compression.as_str();
        if same_text(name, "zstd") {
            Ok(Some(Compression::Zstd))
        } else if same_text(name, "lz4") {
            Ok(Some(Compression::Lz4Frame))
        } else if same_text(name, "none") {
            Ok(None)
        } else {
            let message = "Unknown compression type ".to_owned().concat(name);
            Err(RunError::Configuration(message))
        }
    }

    /// How queries are spread over tasks, on a machine that can run `cores` threads at once.
    pub fn task_settings_on(&self, cores: usize) -> (r: TaskSettings)
        ensures
            self.is_task_settings(cores, r),
    {
        let mut workers: Vec<u16> = Vec::new();
        let mut i: usize = 0;
        while i < self.workers.len()
            invariant
                i <= self.workers@.len(),
                workers@ == self.workers@.take(i as int),
            decreases self.workers@.len() - i,
        {
            workers.push(self.workers[i]);
            i = i + 1;
            assert(workers@ =~= self.workers@.take(i as int));
        }
        assert(workers@ =~= self.workers@);
        TaskSettings {
            workers,
            files_per_task: self.files_per_task.unwrap_or(cores),
            cardinality_task_sf: self.cardinality_task_sf.unwrap_or(UNIT_SCALE_FACTOR),
        }
    }

    /// How queries are spread over tasks.
    pub fn task_settings(&self) -> (r: TaskSettings)
        ensures
            exists|cores: usize| cores >= 1 && #[trigger] self.is_task_settings(cores, r),
    {
        self.task_settings_on(get_available_parallelism())
    }

    /// The settings of the session that the benchmark is run in, beyond [`RunOpt::task_settings`].
    pub fn run_local(&self) -> (r: Result<SessionSettings, RunError>)
        ensures
            match r {
                Ok(settings) => compression_named(self.compression@) matches Some(compression)
                    && settings == self.session_settings(compression),
                Err(e) => compression_named(self.compression@) is None && e@
                    == unknown_compression(self.compression@),
            },
    {
        match self.compression_type() {
            Ok(compression) => Ok(
                SessionSettings {
                    compression,
                    children_isolator_unions: self.children_isolator_unions,
                    broadcast_joins: self.broadcast_joins,
                    collect_metrics: self.collect_metrics,
                    max_tasks_per_stage: self.max_tasks_per_stage,
                },
            ),
            Err(e) => Err(e),
        }
    }

    /// The name of the benchmark that the dataset belongs to: the dataset's name up to its first
    /// underscore.
    pub fn benchmark_name(&self) -> (r: String)
        ensures
            r@ == before_first(self.dataset@, '_'),
    {
        prefix_before(self.dataset.as_str(), '_')
    }

    /// The queries to run, by the name of the dataset and their id, out of all queries of the
    /// benchmark.
    pub fn selected_queries(&self, queries: &Vec<(String, String)>) -> (r: Vec<(String, String)>)
        ensures
            queries_view(r@) == selected(
                self.dataset@,
                strings_view(self.query@),
                queries_view(queries@),
            ),
    {
        let ghost all = queries_view(queries@);
        let ghost wanted = strings_view(self.query@);
        let mut r: Vec<(String, String)> = Vec::new();
        let mut i: usize = 0;
        assert(queries_view(r@) =~= Seq::<(Seq<char>, Seq<char>)>::empty());
        while i < queries.len()
            invariant
                i <= queries@.len(),
                all == queries_view(queries@),
                wanted == strings_view(self.query@),
                queries_view(r@) == selected(self.dataset@, wanted, all.take(i as int)),
            decreases queries@.len() - i,
        {
            let ghost before = queries_view(r@);
            assert(all.take(i + 1).drop_last() =~= all.take(i as int));
            assert(all.take(i + 1).last() == (queries@[i as int].0@, queries@[i as int].1@));
            let id = queries[i].0.as_str();
            if self.query.len() == 0 || contains_text(&self.query, id) {
                let name = self.dataset.clone().concat(" ").concat(id);
                r.push((name, queries[i].1.clone()));
                assert(queries_view(r@) =~= before.push((name@, queries@[i as int].1@)));
            }
            i = i + 1;
        }
        assert(all.take(i as int) =~= all);
        r
    }

    /// The path of the dataset's files under `data_path`, given the number of entries in the
    /// directory at that path, or `None` where there is no such directory.
    pub fn get_path(&self, data_path: &str, entries: Option<usize>) -> (r: Result<
        Vec<String>,
        RunError,
    >)
        ensures
            match r {
                Ok(path) => entries is Some && entries->0 > 0 && strings_view(path@) == seq![
                    data_path@,
                    self.dataset@,
                ],
                Err(e) => match entries {
                    None => e@ == missing_dataset(self.dataset@),
                    Some(n) => n == 0 && e@ == empty_dataset(self.dataset@),
                },
            },
    {
        match entries {
            None => {
                let message = "--dataset ".to_owned().concat(self.dataset.as_str()).concat(
                    " doesn't exist. Was it generated?",
                );
                Err(RunError::Execution(message))
            },
            Some(n) => if n == 0 {
                let message = "Dataset ".to_owned().concat(self.dataset.as_str()).concat(
                    " is empty",
                );
                Err(RunError::Execution(message))
            } else {
                let mut path: Vec<String> = Vec::new();
                path.push(data_path.to_owned());
                path.push(self.dataset.clone());
                assert(strings_view(path@) =~= seq![data_path@, self.dataset@]);
                Ok(path)
            },
        }
    }
}

/// Where no query is named, every query is run, in order.
pub proof fn law_no_selection_runs_every_query(
    dataset: Seq<char>,
    queries: Seq<(Seq<char>, Seq<char>)>,
)
    ensures
        selected(dataset, Seq::empty(), queries) == queries.map_values(
            |q: (Seq<char>, Seq<char>)| (dataset + " "@ + q.0, q.1),
        ),
    decreases queries.len(),
{
    let name = |q: (Seq<char>, Seq<char>)| (dataset + " "@ + q.0, q.1);
    if queries.len() > 0 {
        law_no_selection_runs_every_query(dataset, queries.drop_last());
        assert(queries.map_values(name) =~= queries.drop_last().map_values(name).push(
            name(queries.last()),
        ));
    } else {
        assert(queries.map_values(name) =~= Seq::<(Seq<char>, Seq<char>)>::empty());
    }
}

/// Every query of the benchmark is looked at, in order: the selection from two lists together is
/// that from the first and then that from the second. A query is taken, by the name of the dataset,
/// a space and its id, with its text, exactly if no query is named or its very id is.
pub proof fn law_every_query_is_looked_at(
    dataset: Seq<char>,
    wanted: Seq<Seq<char>>,
    a: Seq<(Seq<char>, Seq<char>)>,
    b: Seq<(Seq<char>, Seq<char>)>,
    id: Seq<char>,
    sql: Seq<char>,
)
    ensures
        selected(dataset, wanted, a + b) == selected(dataset, wanted, a) + selected(
            dataset,
            wanted,
            b,
        ),
        wanted.len() == 0 || (exists|k: int| 0 <= k < wanted.len() && #[trigger] wanted[k] == id)
            ==> selected(dataset, wanted, seq![(id, sql)]) == seq![(dataset + " "@ + id, sql)],
        wanted.len() > 0 && (forall|k: int|
            0 <= k < wanted.len() ==> #[trigger] wanted[k] != id) ==> selected(
            dataset,
            wanted,
            seq![(id, sql)],
        ) == Seq::<(Seq<char>, Seq<char>)>::empty(),
    decreases b.len(),
{
    reveal_with_fuel(selected, 2);
    assert(seq![(id, sql)].drop_last() =~= Seq::<(Seq<char>, Seq<char>)>::empty());
    let none = Seq::<(Seq<char>, Seq<char>)>::empty();
    assert(none.push((dataset + " "@ + id, sql)) =~= seq![(dataset + " "@ + id, sql)]);
    if b.len() == 0 {
        assert(a + b =~= a);
        assert(selected(dataset, wanted, a) + selected(dataset, wanted, b) =~= selected(
            dataset,
            wanted,
            a,
        ));
    } else {
        law_every_query_is_looked_at(dataset, wanted, a, b.drop_last(), id, sql);
        assert((a + b).drop_last() =~= a + b.drop_last());
        assert((a + b).last() == b.last());
        assert(selected(dataset, wanted, a + b) =~= selected(dataset, wanted, a) + selected(
            dataset,
            wanted,
            b,
        ));
    }
}

/// A query whose id is named is selected. The law gives its position in the selection.
pub proof fn law_named_query_is_selected(
    dataset: Seq<char>,
    wanted: Seq<Seq<char>>,
    queries: Seq<(Seq<char>, Seq<char>)>,
    i: int,
    k: int,
) -> (p: int)
    requires
        0 <= i < queries.len(),
        0 <= k < wanted.len(),
        queries[i].0 == wanted[k],
    ensures
        0 <= p < selected(dataset, wanted, queries).len(),
        selected(dataset, wanted, queries)[p] == (dataset + " "@ + queries[i].0, queries[i].1),
    decreases queries.len(),
{
    assert(wanted.contains(queries[i].0));
    let front = selected(dataset, wanted, queries.drop_last());
    if i == queries.len() - 1 {
        front.len() as int
    } else {
        let p = law_named_query_is_selected(dataset, wanted, queries.drop_last(), i, k);
        assert(selected(dataset, wanted, queries)[p] == front[p]);
        p
    }
}

/// Where queries are named, a query that is selected is one of the benchmark whose very id is
/// named. The law gives its position in the benchmark and that of its name.
pub proof fn law_only_named_queries_are_selected(
    dataset: Seq<char>,
    wanted: Seq<Seq<char>>,
    queries: Seq<(Seq<char>, Seq<char>)>,
    p: int,
) -> (r: (int, int))
    requires
        wanted.len() > 0,
        0 <= p < selected(dataset, wanted, queries).len(),
    ensures
        0 <= r.0 < queries.len(),
        0 <= r.1 < wanted.len(),
        queries[r.0].0 == wanted[r.1],
        selected(dataset, wanted, queries)[p] == (dataset + " "@ + queries[r.0].0, queries[r.0].1),
    decreases queries.len(),
{
    let front = selected(dataset, wanted, queries.drop_last());
    if p < front.len() {
        let r = law_only_named_queries_are_selected(dataset, wanted, queries.drop_last(), p);
        assert(selected(dataset, wanted, queries)[p] == front[p]);
        r
    } else {
        let id = queries.last().0;
        let k = wanted.index_of(id);
        (queries.len() - 1, k)
    }
}

/// There are three ways to name a compression, and nothing else names one.
pub proof fn law_compressions_go_by_their_names(name: Seq<char>)
    ensures
        compression_named(name) == Some(Some(Compression::Zstd)) <==> name == "zstd"@,
        compression_named(name) == Some(Some(Compression::Lz4Frame)) <==> name == "lz4"@,
        compression_named(name) == Some(None::<Compression>) <==> name == "none"@,
        unknown_compression(name) == RunErrorView::Configuration(
            "Unknown compression type "@ + name,
        ),
{
    reveal_strlit("zstd");
    reveal_strlit("lz4");
    reveal_strlit("none");
    assert("zstd"@[0] != "none"@[0]);
    assert("zstd"@.len() != "lz4"@.len());
    assert("none"@.len() != "lz4"@.len());
}

/// A dataset that is missing and one that is empty are told apart, by name.
pub proof fn law_errors_name_the_dataset(dataset: Seq<char>)
    ensures
        missing_dataset(dataset) == RunErrorView::Execution(
            "--dataset "@ + dataset + " doesn't exist. Was it generated?"@,
        ),
        empty_dataset(dataset) == RunErrorView::Execution("Dataset "@ + dataset + " is empty"@),
{
}

/// The number of partitions is the one that is asked for, and otherwise the number of cores; the
/// number of threads is the one that is asked for, and otherwise the number of cores. Neither has a
/// part in the other.
pub proof fn law_numbers_default_to_cores(options: RunOpt, cores: usize)
    ensures
        options.partitions matches Some(n) ==> options.chosen_partitions(cores) == n,
        options.partitions is None ==> options.chosen_partitions(cores) == cores,
        options.threads matches Some(n) ==> options.chosen_threads(cores) == n,
        options.threads is None ==> options.chosen_threads(cores) == cores,
{
}

/// The program serves as a worker exactly if it is told a port, at that port of the local machine,
/// and has the number of threads that the options ask for either way.
pub proof fn law_port_makes_a_worker(options: RunOpt, cores: usize, mode: RunMode)
    requires
        options.is_mode(cores, mode),
    ensures
        mode is Serve <==> options.spawn is Some,
        mode matches RunMode::Serve { threads, address } ==> threads == options.chosen_threads(
            cores,
        ) && address@ == "127.0.0.1:"@ + decimal(options.spawn->0 as nat),
        mode matches RunMode::Local { threads } ==> threads == options.chosen_threads(cores),
{
}

/// The settings are those that the options ask for, with the number of cores for the files of a
/// task and a scale factor of one where nothing is asked for.
pub proof fn law_settings_are_those_asked_for(
    options: RunOpt,
    cores: usize,
    tasks: TaskSettings,
    compression: Option<Compression>,
)
    requires
        options.is_task_settings(cores, tasks),
    ensures
        tasks.workers@ == options.workers@,
        options.files_per_task matches Some(n) ==> tasks.files_per_task == n,
        options.files_per_task is None ==> tasks.files_per_task == cores,
        options.cardinality_task_sf matches Some(bits) ==> tasks.cardinality_task_sf == bits,
        options.cardinality_task_sf is None ==> tasks.cardinality_task_sf == 0x3FF0_0000_0000_0000,
        options.session_settings(compression).compression == compression,
        options.session_settings(compression).children_isolator_unions
            == options.children_isolator_unions,
        options.session_settings(compression).broadcast_joins == options.broadcast_joins,
        options.session_settings(compression).collect_metrics == options.collect_metrics,
        options.session_settings(compression).max_tasks_per_stage == options.max_tasks_per_stage,
{
}

/// A config has the batch size and the number of partitions that the options ask for, and every
/// other option as the environment has it.
pub proof fn law_config_changes_only_what_is_asked_for(
    options: RunOpt,
    cores: usize,
    environment: SessionConfig,
    config: SessionConfig,
    key: Seq<char>,
)
    requires
        options.is_config(cores, environment, config),
        key != "datafusion.execution.target_partitions"@,
    ensures
        options.batch_size is None || key != "datafusion.execution.batch_size"@ ==> {
            &&& config_options(config).dom().contains(key) == config_options(
                environment,
            ).dom().contains(key)
            &&& config_options(config).dom().contains(key) ==> config_options(config)[key]
                == config_options(environment)[key]
        },
        options.batch_size is Some && key == "datafusion.execution.batch_size"@ ==> {
            &&& config_options(config).dom().contains(key)
            &&& config_options(config)[key] == Some(decimal(options.batch_size->0 as nat))
        },
        config_options(config).dom().contains("datafusion.execution.target_partitions"@),
        options.chosen_partitions(cores) > 0 ==> config_options(
            config,
        )["datafusion.execution.target_partitions"@] == Some(
            decimal(options.chosen_partitions(cores) as nat),
        ),
{
}

} // verus!
