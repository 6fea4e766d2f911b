//! Stored baselines: the record of one run, where records are kept, and which
//! of them a new run is held against.
//!
//! Records are kept per machine and per benchmark, one file per run, named by
//! the moment of the run so that dictionary order of the names is the order
//! in time:
//! `<root>/<machine id>/<group>_<benchmark>/<timestamp>.json`. An older store
//! holds one file per benchmark, `<root>/<machine id>/<group>_<benchmark>.json`,
//! which is still read where the directory is missing.

use crate::clock::{civil_time, civil_time_at, rfc3339_text, timestamp_at, utc_now};
use crate::cpu_monitor::CpuSnapshot;
use crate::results::BenchResult;
use crate::stamp::{
    file_stamp, first_free, lemma_stem_shape, marked, stamp_text, stem_shape, taken,
    unused_run_name,
};
use crate::statistics::{calculate_statistics, is_summary_of, statistics_fit, Percentiles, Statistics};
use crate::text::{
    concat, concat3, ends_with, lemma_lex_le_connected, lemma_lex_le_transitive, lex_le,
    starts_with, text_le, to_chars,
};
use vstd::prelude::*;
use vstd::seq_lib::to_multiset_insert;
use vstd::slice::slice_to_vec;
use vstd::string::*;

verus! {

/// The record of one benchmark run as it is stored.
#[derive(Debug, Clone)]
pub struct BaselineData {
    /// Name of the benchmark.
    pub benchmark_name: String,
    /// Module path where the benchmark is defined.
    pub module: String,
    /// When the record was made.
    pub timestamp: String,
    /// All timings in nanoseconds, in the order of execution.
    pub samples: Vec<u128>,
    /// Summary of `samples`.
    pub statistics: Statistics,
    /// Number of iterations that the run reported.
    pub iterations: usize,
    /// Identifier of the machine that ran the benchmark.
    pub machine_id: String,
    /// CPU snapshots taken during the run.
    pub cpu_samples: Vec<CpuSnapshot>,
    /// Percentiles as the run reported them; absent in records of an
    /// earlier format.
    pub percentiles: Option<Percentiles>,
    /// Whether the run was found to be a regression.
    pub was_regression: bool,
}

/// The name of the directory that local stores are rooted in.
pub open spec fn default_root() -> Seq<char> {
    ".benches"@
}

/// The extension of record files, with its dot.
pub open spec fn record_suffix() -> Seq<char> {
    ".json"@
}

/// `record` holds what `result` reported, for the given machine and verdict.
/// The moment of recording is not constrained.
pub open spec fn is_record_of(
    record: BaselineData,
    result: BenchResult,
    machine_id: Seq<char>,
    was_regression: bool,
) -> bool {
    &&& record.benchmark_name@ == result.name@
    &&& record.module@ == result.module@
    &&& record.samples@ == result.all_timings@
    &&& is_summary_of(record.statistics, result.all_timings@)
    &&& record.iterations == result.iterations
    &&& record.machine_id@ == machine_id
    &&& record.cpu_samples@ == result.cpu_samples@
    &&& record.percentiles == Some(result.percentiles)
    &&& record.was_regression == was_regression
}

/// The percentiles that a record reports: its own where it holds them, else
/// those of its summary.
pub open spec fn reported_percentiles(record: BaselineData) -> Percentiles {
    match record.percentiles {
        Some(p) => p,
        None => Percentiles {
            p50: record.statistics.median,
            p90: record.statistics.p90,
            p99: record.statistics.p99,
            mean: record.statistics.mean,
        },
    }
}

/// `result` is the run that `record` describes. Warmup is not recorded.
pub open spec fn is_result_of(result: BenchResult, record: BaselineData) -> bool {
    &&& result.name@ == record.benchmark_name@
    &&& result.module@ == record.module@
    &&& result.percentiles == reported_percentiles(record)
    &&& result.iterations == record.iterations
    &&& result.samples == record.samples@.len()
    &&& result.all_timings@ == record.samples@
    &&& result.cpu_samples@ == record.cpu_samples@
    &&& result.warmup_ms is None
    &&& result.warmup_iterations is None
}

impl BaselineData {
    /// The record of `result`, made at the moment `timestamp`.
    pub fn from_bench_result_at(
        result: &BenchResult,
        machine_id: String,
        was_regression: bool,
        timestamp: String,
    ) -> (record: Self)
        requires
            statistics_fit(result.all_timings@),
        ensures
            is_record_of(record, *result, machine_id@, was_regression),
            record.timestamp@ == timestamp@,
            record.statistics.sample_count == record.samples@.len(),
    {
        let samples = slice_to_vec(result.all_timings.as_slice());
        let statistics = calculate_statistics(samples.as_slice());
        BaselineData {
            benchmark_name: result.name.clone(),
            module: result.module.clone(),
            timestamp,
            samples,
            statistics,
            iterations: result.iterations,
            machine_id,
            cpu_samples: slice_to_vec(result.cpu_samples.as_slice()),
            percentiles: Some(result.percentiles),
            was_regression,
        }
    }

    /// The record of `result`, made now by the system clock; `None` where
    /// the clock reads a moment that the calendar does not reach.
    pub fn from_bench_result(result: &BenchResult, machine_id: String, was_regression: bool) -> (record:
        Option<Self>)
        requires
            statistics_fit(result.all_timings@),
        ensures
            record is Some ==> {
                &&& is_record_of(record->Some_0, *result, machine_id@, was_regression)
                &&& record->Some_0.statistics.sample_count == record->Some_0.samples@.len()
                &&& exists|secs: int, nanos: int| #[trigger]
                    rfc3339_text(secs, nanos) == Some(record->Some_0.timestamp@)
            },
    {
        match utc_now() {
            Some((secs, nanos)) => match timestamp_at(secs, nanos) {
                Some(timestamp) => {
                    assert(rfc3339_text(secs as int, nanos as int) == Some(timestamp@));
                    Some(Self::from_bench_result_at(result, machine_id, was_regression, timestamp))
                },
                None => None,
            },
            None => None,
        }
    }

    /// The run that the record describes.
    pub fn to_bench_result(&self) -> (result: BenchResult)
        ensures
            is_result_of(result, *self),
    {
        let percentiles = match self.percentiles {
            Some(p) => p,
            None => Percentiles {
                mean: self.statistics.mean,
                p50: self.statistics.median,
                p90: self.statistics.p90,
                p99: self.statistics.p99,
            },
        };
        BenchResult {
            name: self.benchmark_name.clone(),
            module: self.module.clone(),
            percentiles,
            iterations: self.iterations,
            samples: self.samples.len(),
            all_timings: slice_to_vec(self.samples.as_slice()),
            cpu_samples: slice_to_vec(self.cpu_samples.as_slice()),
            warmup_ms: None,
            warmup_iterations: None,
        }
    }
}

/// Recording a run and reading the record back gives the run's name, module,
/// iteration count, timings, snapshots and percentiles again, and the sample
/// count of the record's summary is the number of timings.
pub proof fn lemma_record_round_trip(
    result: BenchResult,
    record: BaselineData,
    back: BenchResult,
    machine_id: Seq<char>,
    was_regression: bool,
)
    requires
        is_record_of(record, result, machine_id, was_regression),
        is_result_of(back, record),
    ensures
        back.name@ == result.name@,
        back.module@ == result.module@,
        back.iterations == result.iterations,
        back.percentiles == result.percentiles,
        back.all_timings@ == result.all_timings@,
        back.cpu_samples@ == result.cpu_samples@,
        back.samples == result.all_timings@.len(),
        record.statistics.sample_count == result.all_timings@.len(),
{
}

/// The texts of a list of strings.
pub open spec fn texts(strings: Seq<String>) -> Seq<Seq<char>> {
    strings.map_values(|s: String| s@)
}

/// Whether a file of this name holds the record of a run: the name ends in
/// `.json` and has something before that.
pub open spec fn is_run_file(name: Seq<char>) -> bool {
    name.len() > record_suffix().len() && record_suffix().is_suffix_of(name)
}

/// The timestamp in the name of a run file.
pub open spec fn run_stem(name: Seq<char>) -> Seq<char>
    recommends
        is_run_file(name),
{
    name.take(name.len() - record_suffix().len())
}

/// The timestamps of the run files among `names`, in the order of `names`.
pub open spec fn run_stems(names: Seq<Seq<char>>) -> Seq<Seq<char>>
    decreases names.len(),
{
    if names.len() == 0 {
        Seq::empty()
    } else if is_run_file(names.last()) {
        run_stems(names.drop_last()).push(run_stem(names.last()))
    } else {
        run_stems(names.drop_last())
    }
}

/// Whether the texts stand in dictionary order.
pub open spec fn in_order(names: Seq<Seq<char>>) -> bool {
    forall|i: int, j: int| 0 <= i < j < names.len() ==> lex_le(names[i], names[j])
}

/// Whether `name` is a run file of the listing that no run file of the
/// listing comes after.
pub open spec fn is_latest_run_file(names: Seq<Seq<char>>, name: Seq<char>) -> bool {
    &&& names.contains(name)
    &&& is_run_file(name)
    &&& forall|i: int| 0 <= i < names.len() && is_run_file(#[trigger] names[i]) ==> lex_le(names[i], name)
}

/// An entry of a machine's directory.
#[derive(Debug, Clone)]
pub struct StoreEntry {
    /// The entry's name.
    pub name: String,
    /// Whether the entry is a directory.
    pub is_dir: bool,
}

/// The benchmark that an entry of a machine's directory holds baselines of,
/// where it belongs to the group with the given prefix: a directory is named
/// by prefix and benchmark, a file of the earlier format carries `.json`
/// after them.
pub open spec fn baseline_of_entry(name: Seq<char>, is_dir: bool, prefix: Seq<char>) -> Option<
    Seq<char>,
> {
    if !prefix.is_prefix_of(name) {
        None
    } else if is_dir {
        Some(name.skip(prefix.len() as int))
    } else if record_suffix().is_suffix_of(name) {
        let rest = name.skip(prefix.len() as int);
        if record_suffix().is_suffix_of(rest) {
            Some(rest.take(rest.len() - record_suffix().len()))
        } else {
            Some(name)
        }
    } else {
        None
    }
}

/// The benchmarks of a group that the entries hold baselines of, in the
/// order of the entries.
pub open spec fn baselines_of(entries: Seq<StoreEntry>, prefix: Seq<char>) -> Seq<Seq<char>>
    decreases entries.len(),
{
    if entries.len() == 0 {
        Seq::empty()
    } else {
        let earlier = baselines_of(entries.drop_last(), prefix);
        match baseline_of_entry(entries.last().name@, entries.last().is_dir, prefix) {
            Some(benchmark) => earlier.push(benchmark),
            None => earlier,
        }
    }
}

/// Whether a stored run may serve as a baseline: it could be read and was
/// not found to be a regression.
pub open spec fn accepted(run: Option<BaselineData>) -> bool {
    run is Some && !run->Some_0.was_regression
}

/// The baselines that a new run is held against: the `count` most recent
/// accepted runs of `history`, which is in the order of time, in that order.
pub open spec fn recent_baselines(history: Seq<Option<BaselineData>>, count: nat) -> Seq<
    BaselineData,
>
    decreases history.len(),
{
    if count == 0 || history.len() == 0 {
        Seq::empty()
    } else if accepted(history.last()) {
        recent_baselines(history.drop_last(), (count - 1) as nat).push(history.last()->Some_0)
    } else {
        recent_baselines(history.drop_last(), count)
    }
}

/// No baseline of the window was a regression, there are at most `count`,
/// and each is a run of the history.
pub proof fn lemma_recent_baselines_clean(history: Seq<Option<BaselineData>>, count: nat)
    ensures
        recent_baselines(history, count).len() <= count,
        recent_baselines(history, count).len() <= history.len(),
        forall|i: int|
            0 <= i < recent_baselines(history, count).len() ==> !(#[trigger] recent_baselines(
                history,
                count,
            )[i]).was_regression && history.contains(Some(recent_baselines(history, count)[i])),
    decreases history.len(),
{
    if count == 0 || history.len() == 0 {
    } else {
        let earlier = history.drop_last();
        let window = recent_baselines(history, count);
        if accepted(history.last()) {
            lemma_recent_baselines_clean(earlier, (count - 1) as nat);
            let inner = recent_baselines(earlier, (count - 1) as nat);
            assert forall|i: int| 0 <= i < window.len() implies !(#[trigger] window[i]).was_regression
                && history.contains(Some(window[i])) by {
                if i < inner.len() {
                    assert(window[i] == inner[i]);
                    let k = choose|k: int| 0 <= k < earlier.len() && earlier[k] == Some(inner[i]);
                    assert(history[k] == Some(window[i]));
                } else {
                    assert(history[history.len() - 1] == Some(window[i]));
                }
            }
        } else {
            lemma_recent_baselines_clean(earlier, count);
            let inner = recent_baselines(earlier, count);
            assert forall|i: int| 0 <= i < window.len() implies !(#[trigger] window[i]).was_regression
                && history.contains(Some(window[i])) by {
                let k = choose|k: int| 0 <= k < earlier.len() && earlier[k] == Some(inner[i]);
                assert(history[k] == Some(window[i]));
            }
        }
    }
}

/// The runs gathered so far for a window of recent baselines, while the
/// history is walked from the newest run back.
pub struct RecentWindow {
    wanted: usize,
    newest_first: Vec<BaselineData>,
}

impl RecentWindow {
    /// The number of baselines that the window takes.
    pub closed spec fn wanted(&self) -> nat {
        self.wanted as nat
    }

    /// The baselines gathered, newest first.
    pub closed spec fn gathered(&self) -> Seq<BaselineData> {
        self.newest_first@
    }

    /// An empty window that takes `count` baselines.
    pub fn new(count: usize) -> (window: Self)
        ensures
            window.wanted() == count,
            window.gathered().len() == 0,
    {
        RecentWindow { wanted: count, newest_first: Vec::new() }
    }

    /// Whether the window holds as many baselines as it takes, so that no
    /// older run needs to be read.
    pub fn is_full(&self) -> (full: bool)
        ensures
            full == (self.gathered().len() >= self.wanted()),
    {
        self.newest_first.len() >= self.wanted
    }

    /// Offers the next older run: `None` where its file could not be
    /// understood. The run is taken where the window is not full and the run
    /// is accepted.
    pub fn offer(&mut self, run: Option<BaselineData>)
        ensures
            final(self).wanted() == old(self).wanted(),
            final(self).gathered() == if old(self).gathered().len() < old(self).wanted()
                && accepted(run) {
                old(self).gathered().push(run->Some_0)
            } else {
                old(self).gathered()
            },
    {
        if self.newest_first.len() >= self.wanted {
            return ;
        }
        match run {
            Some(record) => {
                if !record.was_regression {
                    self.newest_first.push(record);
                }
            },
            None => {},
        }
    }

    /// The baselines gathered, oldest first.
    pub fn finish(self) -> (baselines: Vec<BaselineData>)
        ensures
            baselines@ == self.gathered().reverse(),
    {
        let mut newest_first = self.newest_first;
        let ghost gathered = newest_first@;
        let mut baselines: Vec<BaselineData> = Vec::new();
        while newest_first.len() > 0
            invariant
                newest_first@.len() <= gathered.len(),
                newest_first@ == gathered.take(newest_first@.len() as int),
                baselines@ == gathered.skip(newest_first@.len() as int).reverse(),
            decreases newest_first@.len(),
        {
            let ghost before = newest_first@;
            let record = newest_first.pop().unwrap();
            baselines.push(record);
            proof {
                let n = newest_first@.len() as int;
                assert(newest_first@ =~= gathered.take(n));
                assert(gathered.skip(n).reverse() =~= gathered.skip(n + 1).reverse().push(
                    gathered[n],
                ));
            }
        }
        proof {
            assert(gathered.skip(0) =~= gathered);
        }
        baselines
    }
}

/// Keeper of the baselines of one machine under one root directory.
#[derive(Debug)]
pub struct BaselineManager {
    root_dir: String,
    machine_id: String,
}

impl BaselineManager {
    /// The root directory of the store.
    pub closed spec fn root(&self) -> Seq<char> {
        self.root_dir@
    }

    /// The identifier of the machine whose baselines are kept.
    pub closed spec fn machine(&self) -> Seq<char> {
        self.machine_id@
    }

    /// The directory of the machine's baselines.
    pub open spec fn machine_dir_text(&self) -> Seq<char> {
        self.root() + "/"@ + self.machine()
    }

    /// The directory of a benchmark's runs.
    pub open spec fn benchmark_dir_text(&self, crate_name: Seq<char>, benchmark_name: Seq<char>) -> Seq<
        char,
    > {
        self.machine_dir_text() + "/"@ + crate_name + "_"@ + benchmark_name
    }

    /// The file of a benchmark's one baseline in the earlier format.
    pub open spec fn legacy_path_text(&self, crate_name: Seq<char>, benchmark_name: Seq<char>) -> Seq<
        char,
    > {
        self.benchmark_dir_text(crate_name, benchmark_name) + record_suffix()
    }

    /// The file of a benchmark's run at `timestamp`.
    pub open spec fn run_path_text(
        &self,
        crate_name: Seq<char>,
        benchmark_name: Seq<char>,
        timestamp: Seq<char>,
    ) -> Seq<char> {
        self.benchmark_dir_text(crate_name, benchmark_name) + "/"@ + timestamp + record_suffix()
    }

    /// A keeper for the machine `machine_id`, rooted at `.benches` in the
    /// current directory.
    pub fn new(machine_id: String) -> (manager: Self)
        ensures
            manager.root() == default_root(),
            manager.machine() == machine_id@,
    {
        BaselineManager { root_dir: String::from_str(".benches"), machine_id }
    }

    /// A keeper for the machine `machine_id`, rooted at `root_dir`.
    pub fn with_root_dir(root_dir: &str, machine_id: String) -> (manager: Self)
        ensures
            manager.root() == root_dir@,
            manager.machine() == machine_id@,
    {
        BaselineManager { root_dir: String::from_str(root_dir), machine_id }
    }

    /// The identifier of the machine whose baselines are kept.
    pub fn machine_id(&self) -> (id: &str)
        ensures
            id@ == self.machine(),
    {
        self.machine_id.as_str()
    }

    /// The directory of the machine's baselines.
    pub fn machine_dir(&self) -> (path: String)
        ensures
            path@ == self.machine_dir_text(),
    {
        concat3(self.root_dir.as_str(), "/", self.machine_id.as_str())
    }

    /// The directory of a benchmark's runs.
    pub fn benchmark_dir(&self, crate_name: &str, benchmark_name: &str) -> (path: String)
        ensures
            path@ == self.benchmark_dir_text(crate_name@, benchmark_name@),
    {
        let mut path = self.machine_dir();
        path.append("/");
        path.append(crate_name);
        path.append("_");
        path.append(benchmark_name);
        path
    }

    /// The file of a benchmark's one baseline in the earlier format.
    pub fn legacy_baseline_path(&self, crate_name: &str, benchmark_name: &str) -> (path: String)
        ensures
            path@ == self.legacy_path_text(crate_name@, benchmark_name@),
    {
        let mut path = self.benchmark_dir(crate_name, benchmark_name);
        path.append(".json");
        path
    }

    /// The file of a benchmark's run at `timestamp`.
    pub fn run_path(&self, crate_name: &str, benchmark_name: &str, timestamp: &str) -> (path: String)
        ensures
            path@ == self.run_path_text(crate_name@, benchmark_name@, timestamp@),
    {
        let mut path = self.benchmark_dir(crate_name, benchmark_name);
        path.append("/");
        path.append(timestamp);
        path.append(".json");
        path
    }

    /// The file for a run of the benchmark that is stored `secs` seconds
    /// after the Unix epoch, in a directory with the given entries: named by
    /// that moment, with marks behind the name where runs of that moment are
    /// stored already. `None` where the calendar does not reach the moment.
    pub fn run_path_at(
        &self,
        crate_name: &str,
        benchmark_name: &str,
        entries: &Vec<String>,
        secs: i64,
    ) -> (path: Option<String>)
        ensures
            path is Some <==> civil_time(secs as int) is Some,
            path is Some ==> exists|k: nat|
                first_free(texts(entries@), stamp_text(civil_time(secs as int)->Some_0), k)
                    && path->Some_0@ == self.run_path_text(
                    crate_name@,
                    benchmark_name@,
                    #[trigger] marked(stamp_text(civil_time(secs as int)->Some_0), k),
                ) && stem_shape(marked(stamp_text(civil_time(secs as int)->Some_0), k)),
    {
        match civil_time_at(secs) {
            Some(time) => {
                let stamp = file_stamp(&time);
                let name = unused_run_name(entries, stamp.as_str());
                Some(self.run_path(crate_name, benchmark_name, name.as_str()))
            },
            None => None,
        }
    }

    /// The file for a run of the benchmark that is stored now, in a
    /// directory with the given entries. The name is not among the entries,
    /// holds no `/` and does not end in `.json`. `None` where the clock
    /// reads a moment that the calendar does not reach.
    pub fn get_run_path(&self, crate_name: &str, benchmark_name: &str, entries: &Vec<String>) -> (path:
        Option<String>)
        ensures
            path is Some ==> exists|stem: Seq<char>|
                path->Some_0@ == #[trigger] self.run_path_text(crate_name@, benchmark_name@, stem)
                    && stem_shape(stem) && !taken(texts(entries@), stem) && !stem.contains('/')
                    && !record_suffix().is_suffix_of(stem),
    {
        match utc_now() {
            Some((secs, _)) => {
                let path = self.run_path_at(crate_name, benchmark_name, entries, secs);
                proof {
                    if path is Some {
                        let stamp = stamp_text(civil_time(secs as int)->Some_0);
                        let k = choose|k: nat|
                            first_free(texts(entries@), stamp, k) && path->Some_0@
                                == self.run_path_text(
                                crate_name@,
                                benchmark_name@,
                                #[trigger] marked(stamp, k),
                            ) && stem_shape(marked(stamp, k));
                        lemma_stem_shape(marked(stamp, k));
                        assert(path->Some_0@ == self.run_path_text(
                            crate_name@,
                            benchmark_name@,
                            marked(stamp, k),
                        ));
                    }
                }
                path
            },
            None => None,
        }
    }

    /// Whether a baseline exists for a benchmark, given whether its
    /// directory and its file of the earlier format were found.
    pub fn has_baseline(&self, directory_present: bool, legacy_present: bool) -> (present: bool)
        ensures
            present == (directory_present || legacy_present),
    {
        directory_present || legacy_present
    }

    /// The timestamps of a benchmark's runs in ascending order, given the
    /// names of the entries of its directory.
    pub fn list_runs(&self, entries: &Vec<String>) -> (runs: Vec<String>)
        ensures
            in_order(texts(runs@)),
            texts(runs@).to_multiset() == run_stems(texts(entries@)).to_multiset(),
    {
        let suffix = to_chars(".json");
        let mut runs: Vec<String> = Vec::new();
        let mut i: usize = 0;
        proof {
            reveal_strlit(".json");
            assert(texts(runs@) =~= Seq::<Seq<char>>::empty());
            assert(texts(entries@).take(0) =~= Seq::<Seq<char>>::empty());
        }
        while i < entries.len()
            invariant
                i <= entries@.len(),
                suffix@ == record_suffix(),
                in_order(texts(runs@)),
                texts(runs@).to_multiset() == run_stems(texts(entries@).take(i as int)).to_multiset(),
            decreases entries@.len() - i,
        {
            proof {
                reveal_strlit(".json");
                assert(texts(entries@).take(i + 1).drop_last() =~= texts(entries@).take(i as int));
                assert(texts(entries@).take(i + 1).last() == entries@[i as int]@);
            }
            let name = entries[i].as_str();
            let chars = to_chars(name);
            if chars.len() > 5 && ends_with(&chars, &suffix) {
                let stem = String::from_str(name.substring_char(0, chars.len() - 5));
                let ghost before = texts(runs@);
                let mut at: usize = runs.len();
                while at > 0 && !text_le(runs[at - 1].as_str(), stem.as_str())
                    invariant
                        at <= runs@.len(),
                        forall|k: int| at <= k < runs@.len() ==> !lex_le(#[trigger] runs@[k]@, stem@),
                    decreases at,
                {
                    at -= 1;
                }
                proof {
                    let after = before.insert(at as int, stem@);
                    assert forall|a: int, b: int| 0 <= a < b < after.len() implies lex_le(
                        after[a],
                        after[b],
                    ) by {
                        if b < at {
                            assert(after[a] == before[a] && after[b] == before[b]);
                        } else if b == at {
                            assert(after[a] == before[a]);
                            assert(lex_le(runs@[at - 1]@, stem@));
                            if a < at - 1 {
                                assert(lex_le(before[a], before[at - 1]));
                                lemma_lex_le_transitive(before[a], before[at - 1], stem@);
                            }
                        } else if a < at {
                            assert(after[a] == before[a] && after[b] == before[b - 1]);
                        } else if a == at {
                            assert(after[b] == before[b - 1]);
                            assert(!lex_le(runs@[b - 1]@, stem@));
                            lemma_lex_le_connected(before[b - 1], stem@);
                        } else {
                            assert(after[a] == before[a - 1] && after[b] == before[b - 1]);
                        }
                    }
                    to_multiset_insert(before, at as int, stem@);
                    run_stems(texts(entries@).take(i as int)).to_multiset_ensures();
                }
                runs.insert(at, stem);
                proof {
                    assert(texts(runs@) =~= before.insert(at as int, stem@));
                }
            }
            i += 1;
        }
        proof {
            assert(texts(entries@).take(i as int) =~= texts(entries@));
        }
        runs
    }

    /// The name of the file that holds a benchmark's latest run, given the
    /// names of the entries of its directory; `None` where no entry is a run
    /// file.
    pub fn latest_run_file(&self, entries: &Vec<String>) -> (latest: Option<String>)
        ensures
            latest is Some <==> exists|i: int|
                0 <= i < entries@.len() && is_run_file(#[trigger] texts(entries@)[i]),
            latest is Some ==> is_latest_run_file(texts(entries@), latest->Some_0@),
    {
        let suffix = to_chars(".json");
        let mut best: Option<usize> = None;
        let mut i: usize = 0;
        while i < entries.len()
            invariant
                i <= entries@.len(),
                suffix@ == record_suffix(),
                best is Some <==> exists|k: int| 0 <= k < i && is_run_file(#[trigger] texts(entries@)[k]),
                best is Some ==> best->Some_0 < i && is_run_file(texts(entries@)[best->Some_0 as int])
                    && forall|k: int|
                    0 <= k < i && is_run_file(#[trigger] texts(entries@)[k]) ==> lex_le(
                        texts(entries@)[k],
                        texts(entries@)[best->Some_0 as int],
                    ),
            decreases entries@.len() - i,
        {
            proof {
                reveal_strlit(".json");
            }
            let name = entries[i].as_str();
            let chars = to_chars(name);
            if chars.len() > 5 && ends_with(&chars, &suffix) {
                let ghost names = texts(entries@);
                match best {
                    Some(at) => {
                        if text_le(entries[at].as_str(), name) {
                            proof {
                                assert forall|k: int| 0 <= k < i + 1 && is_run_file(
                                    #[trigger] names[k],
                                ) implies lex_le(names[k], names[i as int]) by {
                                    if k < i {
                                        lemma_lex_le_transitive(names[k], names[at as int], names[i as int]);
                                    } else {
                                        crate::text::lemma_lex_le_reflexive(names[i as int]);
                                    }
                                }
                            }
                            best = Some(i);
                        } else {
                            proof {
                                lemma_lex_le_connected(names[at as int], names[i as int]);
                            }
                        }
                    },
                    None => {
                        proof {
                            crate::text::lemma_lex_le_reflexive(names[i as int]);
                        }
                        best = Some(i);
                    },
                }
            }
            i += 1;
        }
        match best {
            Some(at) => {
                proof {
                    assert(texts(entries@)[at as int] == entries@[at as int]@);
                }
                Some(entries[at].clone())
            },
            None => None,
        }
    }

    /// The file from which a benchmark's most recent baseline is read: the
    /// latest run file where the benchmark's directory exists, whose entries
    /// `directory` then names; else the file of the earlier format, where it
    /// exists. `None` where there is nothing to read.
    pub fn load_baseline(
        &self,
        crate_name: &str,
        benchmark_name: &str,
        directory: Option<&Vec<String>>,
        legacy_present: bool,
    ) -> (path: Option<String>)
        ensures
            directory is Some ==> (path is Some <==> exists|i: int|
                0 <= i < directory->Some_0@.len() && is_run_file(
                    #[trigger] texts(directory->Some_0@)[i],
                )),
            directory is Some && path is Some ==> exists|name: Seq<char>|
                #![trigger is_latest_run_file(texts(directory->Some_0@), name)]
                is_latest_run_file(texts(directory->Some_0@), name) && path->Some_0@
                    == self.benchmark_dir_text(crate_name@, benchmark_name@) + "/"@ + name,
            directory is None ==> (path is Some <==> legacy_present),
            directory is None && path is Some ==> path->Some_0@ == self.legacy_path_text(
                crate_name@,
                benchmark_name@,
            ),
    {
        match directory {
            Some(entries) => match self.latest_run_file(entries) {
                Some(name) => {
                    let dir = self.benchmark_dir(crate_name, benchmark_name);
                    Some(concat3(dir.as_str(), "/", name.as_str()))
                },
                None => None,
            },
            None => {
                if legacy_present {
                    Some(self.legacy_baseline_path(crate_name, benchmark_name))
                } else {
                    None
                }
            },
        }
    }

    /// The file from which the run of a benchmark at `timestamp` is read.
    pub fn load_run(&self, crate_name: &str, benchmark_name: &str, timestamp: &str) -> (path: String)
        ensures
            path@ == self.run_path_text(crate_name@, benchmark_name@, timestamp@),
    {
        self.run_path(crate_name, benchmark_name, timestamp)
    }

    /// The benchmarks of a group that have baselines, given the entries of
    /// the machine's directory, in the order of the entries.
    pub fn list_baselines(&self, entries: &Vec<StoreEntry>, crate_name: &str) -> (benchmarks: Vec<
        String,
    >)
        ensures
            texts(benchmarks@) == baselines_of(entries@, crate_name@ + "_"@),
    {
        let prefix_text = concat(crate_name, "_");
        let prefix = to_chars(prefix_text.as_str());
        let suffix = to_chars(".json");
        let mut benchmarks: Vec<String> = Vec::new();
        let mut i: usize = 0;
        while i < entries.len()
            invariant
                i <= entries@.len(),
                prefix@ == crate_name@ + "_"@,
                suffix@ == record_suffix(),
                texts(benchmarks@) == baselines_of(entries@.take(i as int), prefix@),
            decreases entries@.len() - i,
        {
            proof {
                assert(entries@.take(i + 1).drop_last() =~= entries@.take(i as int));
                assert(entries@.take(i + 1).last() == entries@[i as int]);
                reveal_strlit(".json");
            }
            let ghost before = texts(benchmarks@);
            let name = entries[i].name.as_str();
            let chars = to_chars(name);
            if starts_with(&chars, &prefix) {
                if entries[i].is_dir {
                    let benchmark = String::from_str(
                        name.substring_char(prefix.len(), chars.len()),
                    );
                    benchmarks.push(benchmark);
                    proof {
                        assert(name@.subrange(prefix@.len() as int, name@.len() as int) =~= name@.skip(
                            prefix@.len() as int,
                        ));
                        assert(texts(benchmarks@) =~= before.push(name@.skip(prefix@.len() as int)));
                    }
                } else if ends_with(&chars, &suffix) {
                    let rest = name.substring_char(prefix.len(), chars.len());
                    let rest_chars = to_chars(rest);
                    proof {
                        assert(rest@ =~= name@.skip(prefix@.len() as int));
                    }
                    if ends_with(&rest_chars, &suffix) {
                        let benchmark = String::from_str(
                            rest.substring_char(0, rest_chars.len() - 5),
                        );
                        benchmarks.push(benchmark);
                        proof {
                            assert(rest@.subrange(0, rest@.len() - 5) =~= rest@.take(rest@.len() - 5));
                            assert(texts(benchmarks@) =~= before.push(rest@.take(rest@.len() - 5)));
                        }
                    } else {
                        benchmarks.push(String::from_str(name));
                        proof {
                            assert(texts(benchmarks@) =~= before.push(name@));
                        }
                    }
                } else {
                    proof {
                        assert(texts(benchmarks@) =~= before);
                    }
                }
            }
            i += 1;
        }
        proof {
            assert(entries@.take(i as int) =~= entries@);
        }
        benchmarks
    }

    /// The baselines that a new run is held against: the `count` most recent
    /// accepted runs of `history`, oldest first. `history` holds the
    /// benchmark's stored runs in the order of time, `None` for a run whose
    /// file could not be understood.
    pub fn load_recent_baselines(&self, history: Vec<Option<BaselineData>>, count: usize) -> (baselines:
        Vec<BaselineData>)
        ensures
            baselines@ == recent_baselines(history@, count as nat),
            baselines@.len() <= count,
            forall|i: int| 0 <= i < baselines@.len() ==> !(#[trigger] baselines@[i]).was_regression,
    {
        let mut remaining = history;
        let mut window = RecentWindow::new(count);
        while remaining.len() > 0 && !window.is_full()
            invariant
                window.wanted() == count,
                window.gathered().len() <= count,
                recent_baselines(history@, count as nat) == recent_baselines(
                    remaining@,
                    (count - window.gathered().len()) as nat,
                ) + window.gathered().reverse(),
            decreases remaining@.len(),
        {
            let ghost before = remaining@;
            let ghost gathered = window.gathered();
            let run = remaining.pop().unwrap();
            proof {
                assert(before.drop_last() =~= remaining@);
                assert(before.last() == run);
            }
            window.offer(run);
            proof {
                let left = (count - gathered.len()) as nat;
                if accepted(run) {
                    let inner = recent_baselines(remaining@, (left - 1) as nat);
                    assert(gathered.push(run->Some_0).reverse() =~= seq![run->Some_0]
                        + gathered.reverse());
                    assert(inner.push(run->Some_0) + gathered.reverse() =~= inner + (seq![
                        run->Some_0,
                    ] + gathered.reverse()));
                }
            }
        }
        let baselines = window.finish();
        proof {
            lemma_recent_baselines_clean(history@, count as nat);
            let left = (count - window.gathered().len()) as nat;
            assert(recent_baselines(remaining@, left).len() == 0);
            assert(recent_baselines(remaining@, left) + window.gathered().reverse()
                =~= window.gathered().reverse());
        }
        baselines
    }
}

} // verus!
