//! Running many benchmarks: which are run, in which batches and on which
//! cores, what is done with each message of a running batch, and what the
//! run amounts to.
//!
//! Benchmarks run in batches of as many as there are cores, each benchmark
//! of a batch on a core of its own, and a batch is drained of all its
//! completions before the next one starts. Within a batch messages are
//! handled in the order in which they arrive.

use crate::regression::{is_improvement, ComparisonResult, IMPROVEMENT_PERCENT};
use crate::results::BenchmarkInfo;
use crate::text::{contains, find, occurs_in, to_chars};
use vstd::prelude::*;
use vstd::string::*;

verus! {

/// A benchmark of a batch and the core that it is pinned to.
#[derive(Debug, Clone, Copy, PartialEq, Eq, Structural)]
pub struct Assignment {
    /// Index of the benchmark in the list of benchmarks.
    pub benchmark: usize,
    /// The core.
    pub core: usize,
}

/// Number of batches for `count` benchmarks on `cores` cores.
pub open spec fn batch_count(count: nat, cores: nat) -> nat
    recommends
        cores > 0,
{
    ((count + cores - 1) / cores as int) as nat
}

/// Number of benchmarks in batch `batch`.
pub open spec fn batch_len(count: nat, cores: nat, batch: nat) -> nat {
    if (batch + 1) * cores <= count {
        cores
    } else {
        (count - batch * cores) as nat
    }
}

/// Whether `batches` is the plan for `count` benchmarks on the given cores:
/// the benchmarks in their order, cut into batches of as many as there are
/// cores, the last batch holding what is left, and the benchmark at place
/// `i` of a batch on the core at place `i`.
pub open spec fn is_plan(batches: Seq<Vec<Assignment>>, count: nat, cores: Seq<usize>) -> bool {
    &&& batches.len() == batch_count(count, cores.len())
    &&& forall|b: int|
        0 <= b < batches.len() ==> (#[trigger] batches[b])@.len() == batch_len(
            count,
            cores.len(),
            b as nat,
        )
    &&& forall|b: int, i: int|
        0 <= b < batches.len() && 0 <= i < batches[b]@.len() ==> (#[trigger] batches[b]@[i])
            == (Assignment { benchmark: (b * cores.len() + i) as usize, core: cores[i] })
}

/// Cuts `count` benchmarks into batches for the given cores.
pub fn plan_batches(count: usize, cores: &Vec<usize>) -> (batches: Vec<Vec<Assignment>>)
    requires
        cores@.len() > 0,
    ensures
        is_plan(batches@, count as nat, cores@),
{
    let width = cores.len();
    let mut batches: Vec<Vec<Assignment>> = Vec::new();
    let mut start: usize = 0;
    proof {
        let w = width as int;
        assert(0 * w == 0) by (nonlinear_arith);
        assert((0 + w - 1) / w == 0) by (nonlinear_arith)
            requires
                w > 0,
        ;
    }
    while start < count
        invariant
            width == cores@.len(),
            width > 0,
            start <= count,
            start == count ==> batches@.len() == batch_count(count as nat, width as nat),
            start < count ==> batches@.len() * width == start,
            forall|b: int|
                0 <= b < batches@.len() ==> (#[trigger] batches@[b])@.len() == batch_len(
                    count as nat,
                    width as nat,
                    b as nat,
                ),
            forall|b: int, i: int|
                0 <= b < batches@.len() && 0 <= i < batches@[b]@.len() ==> (
                #[trigger] batches@[b]@[i]) == (Assignment {
                    benchmark: (b * width + i) as usize,
                    core: cores@[i],
                }),
        decreases count - start,
    {
        let ghost index = batches@.len();
        let ghost before = batches@;
        let size: usize = if count - start >= width {
            width
        } else {
            count - start
        };
        let mut batch: Vec<Assignment> = Vec::new();
        let mut i: usize = 0;
        while i < size
            invariant
                i <= size <= width,
                width == cores@.len(),
                start + size <= count,
                index * width == start,
                batch@.len() == i,
                forall|k: int|
                    0 <= k < i ==> (#[trigger] batch@[k]) == (Assignment {
                        benchmark: (index * width + k) as usize,
                        core: cores@[k],
                    }),
            decreases size - i,
        {
            batch.push(Assignment { benchmark: start + i, core: cores[i] });
            i += 1;
        }
        proof {
            let n = count as int;
            let w = width as int;
            let b = index as int;
            assert(b * w == start);
            assert((b + 1) * w == b * w + w) by (nonlinear_arith);
            assert(batch@.len() == batch_len(count as nat, width as nat, index));
            if start + size == count {
                // the batches are complete
                assert(((n + w - 1) / w) == b + 1) by (nonlinear_arith)
                    requires
                        b * w < n,
                        n <= b * w + w,
                        w > 0,
                ;
            }
        }
        batches.push(batch);
        proof {
            assert forall|b: int| 0 <= b < batches@.len() implies (#[trigger] batches@[b])@.len()
                == batch_len(count as nat, width as nat, b as nat) by {
                if b < index {
                    assert(batches@[b] == before[b]);
                }
            }
            assert forall|b: int, i: int|
                0 <= b < batches@.len() && 0 <= i < batches@[b]@.len() implies (
            #[trigger] batches@[b]@[i]) == (Assignment {
                benchmark: (b * width + i) as usize,
                core: cores@[i],
            }) by {
                if b < index {
                    assert(batches@[b] == before[b]);
                }
            }
            assert((index + 1) * width == index * width + width) by (nonlinear_arith);
        }
        start = start + size;
    }
    batches
}

/// How a benchmark's process ended.
#[derive(Debug, Clone, Copy, PartialEq, Eq, Structural)]
pub enum ExitKind {
    /// It ran to the end and reported success.
    Success,
    /// It ended with a status other than success.
    Failure,
    /// Its end could not be waited for.
    Unknown,
}

/// Why a benchmark gave no result.
#[derive(Debug, Clone, Copy, PartialEq, Eq, Structural)]
pub enum FailureKind {
    /// The process succeeded but its output was no result.
    MalformedOutput,
    /// The process ended with a status other than success.
    ExitStatus,
    /// The end of the process could not be waited for.
    WaitFailed,
}

/// What a benchmark's process amounts to: a failure unless the process
/// succeeded and its output could be read as a result.
pub open spec fn outcome_of(exit: ExitKind, output_is_result: bool) -> Option<FailureKind> {
    match exit {
        ExitKind::Success => if output_is_result {
            None
        } else {
            Some(FailureKind::MalformedOutput)
        },
        ExitKind::Failure => Some(FailureKind::ExitStatus),
        ExitKind::Unknown => Some(FailureKind::WaitFailed),
    }
}

/// What a benchmark's process amounts to.
pub fn child_outcome(exit: ExitKind, output_is_result: bool) -> (failure: Option<FailureKind>)
    ensures
        failure == outcome_of(exit, output_is_result),
{
    match exit {
        ExitKind::Success => if output_is_result {
            None
        } else {
            Some(FailureKind::MalformedOutput)
        },
        ExitKind::Failure => Some(FailureKind::ExitStatus),
        ExitKind::Unknown => Some(FailureKind::WaitFailed),
    }
}

/// A message from a running batch.
#[derive(Debug, Clone, Copy, PartialEq, Eq, Structural)]
pub enum BatchEvent {
    /// A benchmark reported progress.
    Progress,
    /// A benchmark completed with a result.
    Completed,
    /// A benchmark completed without a result.
    Failed,
    /// No benchmark of the batch can send any more.
    Closed,
}

/// What the orchestrator does on a message.
#[derive(Debug, Clone, Copy, PartialEq, Eq, Structural)]
pub enum BatchAction {
    /// Update the progress display.
    ShowProgress,
    /// Clear the progress display, print the result, compare it with its
    /// baselines, print the comparison and store the result.
    ProcessResult,
    /// Clear the progress display and report the failure with the
    /// benchmark's diagnostic lines; the batch goes on.
    ReportFailure,
    /// Stop waiting for this batch.
    Stop,
}

/// The completions that a running batch still waits for.
#[derive(Debug, Clone, Copy, PartialEq, Eq, Structural)]
pub struct BatchDrain {
    /// Number of benchmarks of the batch that have not completed.
    pub pending: usize,
}

/// The action on a message.
pub open spec fn action_on(event: BatchEvent) -> BatchAction {
    match event {
        BatchEvent::Progress => BatchAction::ShowProgress,
        BatchEvent::Completed => BatchAction::ProcessResult,
        BatchEvent::Failed => BatchAction::ReportFailure,
        BatchEvent::Closed => BatchAction::Stop,
    }
}

/// The number of pending completions after a message: one less after a
/// completion, with or without result, and none after the channel closed.
pub open spec fn pending_after(pending: usize, event: BatchEvent) -> usize {
    match event {
        BatchEvent::Progress => pending,
        BatchEvent::Completed | BatchEvent::Failed => (pending - 1) as usize,
        BatchEvent::Closed => 0,
    }
}

impl BatchDrain {
    /// The drain of a batch of `batch_len` benchmarks that were all
    /// launched.
    pub fn new(batch_len: usize) -> (drain: Self)
        ensures
            drain.pending == batch_len,
    {
        BatchDrain { pending: batch_len }
    }

    /// Whether every benchmark of the batch has been observed, so that the
    /// next batch may start.
    pub fn is_drained(&self) -> (drained: bool)
        ensures
            drained == (self.pending == 0),
    {
        self.pending == 0
    }

    /// Takes a message of the batch and tells what to do with it.
    pub fn on_event(&mut self, event: BatchEvent) -> (action: BatchAction)
        requires
            old(self).pending > 0,
        ensures
            action == action_on(event),
            final(self).pending == pending_after(old(self).pending, event),
    {
        match event {
            BatchEvent::Progress => BatchAction::ShowProgress,
            BatchEvent::Completed => {
                self.pending = self.pending - 1;
                BatchAction::ProcessResult
            },
            BatchEvent::Failed => {
                self.pending = self.pending - 1;
                BatchAction::ReportFailure
            },
            BatchEvent::Closed => {
                self.pending = 0;
                BatchAction::Stop
            },
        }
    }
}

/// A batch is drained after as many completions as it has benchmarks,
/// however many progress messages come between them.
pub proof fn lemma_drain_counts_completions(pending: usize, events: Seq<BatchEvent>)
    requires
        forall|i: int| 0 <= i < events.len() ==> events[i] != BatchEvent::Closed,
        completions(events) <= pending,
    ensures
        drained_by(pending, events) == pending - completions(events),
    decreases events.len(),
{
    if events.len() > 0 {
        lemma_drain_counts_completions(pending, events.drop_last());
    }
}

/// Number of completions among the messages.
pub open spec fn completions(events: Seq<BatchEvent>) -> nat
    decreases events.len(),
{
    if events.len() == 0 {
        0
    } else if events.last() == BatchEvent::Completed || events.last() == BatchEvent::Failed {
        completions(events.drop_last()) + 1
    } else {
        completions(events.drop_last())
    }
}

/// Number of pending completions after the messages.
pub open spec fn drained_by(pending: usize, events: Seq<BatchEvent>) -> int
    decreases events.len(),
{
    if events.len() == 0 {
        pending as int
    } else {
        match events.last() {
            BatchEvent::Progress => drained_by(pending, events.drop_last()),
            BatchEvent::Completed | BatchEvent::Failed => drained_by(pending, events.drop_last())
                - 1,
            BatchEvent::Closed => 0,
        }
    }
}

/// Whether a benchmark of this name is run under the filter: every
/// benchmark without a filter, else those whose name holds the filter's
/// text.
pub open spec fn passes_filter(name: Seq<char>, filter: Option<Seq<char>>) -> bool {
    match filter {
        Some(text) => occurs_in(name, text),
        None => true,
    }
}

/// Whether a benchmark of this name is run under the filter.
pub fn matches_filter(name: &str, filter: Option<&str>) -> (run: bool)
    ensures
        run == passes_filter(
            name@,
            match filter {
                Some(text) => Some(text@),
                None => None,
            },
        ),
{
    match filter {
        Some(text) => contains(name, text),
        None => true,
    }
}

/// The benchmarks that pass the filter, in their order.
pub open spec fn filtered(benchmarks: Seq<BenchmarkInfo>, filter: Option<Seq<char>>) -> Seq<
    BenchmarkInfo,
>
    decreases benchmarks.len(),
{
    if benchmarks.len() == 0 {
        Seq::empty()
    } else if passes_filter(benchmarks.last().name@, filter) {
        filtered(benchmarks.drop_last(), filter).push(benchmarks.last())
    } else {
        filtered(benchmarks.drop_last(), filter)
    }
}

/// The benchmarks that are run under the filter, in their order.
pub fn select_benchmarks(benchmarks: Vec<BenchmarkInfo>, filter: Option<&str>) -> (selected: Vec<
    BenchmarkInfo,
>)
    ensures
        selected@ == filtered(
            benchmarks@,
            match filter {
                Some(text) => Some(text@),
                None => None,
            },
        ),
{
    let ghost all = benchmarks@;
    let ghost spec_filter = match filter {
        Some(text) => Some(text@),
        None => None,
    };
    let mut rest = benchmarks;
    let mut newest_first: Vec<BenchmarkInfo> = Vec::new();
    while rest.len() > 0
        invariant
            spec_filter == match filter {
                Some(text) => Some(text@),
                None => None,
            },
            filtered(all, spec_filter) == filtered(rest@, spec_filter) + newest_first@.reverse(),
        decreases rest@.len(),
    {
        let ghost before = rest@;
        let ghost kept = newest_first@;
        let benchmark = rest.pop().unwrap();
        proof {
            assert(before.drop_last() =~= rest@);
            assert(before.last() == benchmark);
        }
        if matches_filter(benchmark.name.as_str(), filter) {
            newest_first.push(benchmark);
            proof {
                assert(kept.push(benchmark).reverse() =~= seq![benchmark] + kept.reverse());
                assert(filtered(rest@, spec_filter).push(benchmark) + kept.reverse() =~= filtered(
                    rest@,
                    spec_filter,
                ) + (seq![benchmark] + kept.reverse()));
            }
        }
    }
    let ghost kept = newest_first@;
    let mut selected: Vec<BenchmarkInfo> = Vec::new();
    while newest_first.len() > 0
        invariant
            newest_first@.len() <= kept.len(),
            newest_first@ == kept.take(newest_first@.len() as int),
            selected@ == kept.skip(newest_first@.len() as int).reverse(),
        decreases newest_first@.len(),
    {
        let benchmark = newest_first.pop().unwrap();
        selected.push(benchmark);
        proof {
            let n = newest_first@.len() as int;
            assert(newest_first@ =~= kept.take(n));
            assert(kept.skip(n).reverse() =~= kept.skip(n + 1).reverse().push(kept[n]));
        }
    }
    proof {
        assert(kept.skip(0) =~= kept);
        assert(filtered(rest@, spec_filter) + kept.reverse() =~= kept.reverse());
    }
    selected
}

/// The group of a benchmark: what stands in its module path before the
/// first `::`, or the whole path where there is none.
pub open spec fn group_of(module: Seq<char>) -> Seq<char> {
    if occurs_in(module, "::"@) {
        module.take(choose|at: int| crate::text::first_occurrence(module, "::"@, at))
    } else {
        module
    }
}

/// The group of a benchmark, by which its baselines are stored.
pub fn crate_name_of(module: &str) -> (group: String)
    ensures
        group@ == group_of(module@),
{
    let chars = to_chars(module);
    let separator = to_chars("::");
    match find(&chars, &separator) {
        Some(at) => {
            proof {
                let chosen = choose|at: int| crate::text::first_occurrence(module@, "::"@, at);
                assert(crate::text::first_occurrence(module@, "::"@, at as int));
                assert(chosen == at) by {
                    if chosen < at {
                        assert(!crate::text::occurs_at(module@, "::"@, chosen));
                    } else if chosen > at {
                        assert(!crate::text::occurs_at(module@, "::"@, at as int));
                    }
                }
                assert(module@.subrange(0, at as int) =~= module@.take(at as int));
            }
            String::from_str(module.substring_char(0, at))
        },
        None => String::from_str(module),
    }
}

/// What a run amounts to.
#[derive(Debug, Clone, Copy, PartialEq, Eq, Structural)]
pub struct Summary {
    /// Number of benchmarks compared.
    pub total: usize,
    /// Neither regressed nor improved nor new.
    pub stable: usize,
    /// Faster than the baseline by more than five percent.
    pub improved: usize,
    /// Regressions.
    pub regressed: usize,
    /// Without a baseline so far.
    pub new_benchmarks: usize,
}

/// Whether a result shows an improvement.
pub open spec fn improved(result: ComparisonResult) -> bool {
    result.comparison is Some && is_improvement(result.comparison->Some_0)
}

/// Number of results that satisfy `p`.
pub open spec fn count_where(results: Seq<ComparisonResult>, p: spec_fn(ComparisonResult) -> bool) -> nat
    decreases results.len(),
{
    if results.len() == 0 {
        0
    } else {
        count_where(results.drop_last(), p) + if p(results.last()) {
            1nat
        } else {
            0nat
        }
    }
}

/// The summary of the results.
pub open spec fn summary_of(results: Seq<ComparisonResult>) -> Summary {
    let regressed = count_where(results, |r: ComparisonResult| r.is_regression);
    let improved = count_where(results, |r: ComparisonResult| improved(r));
    let new_benchmarks = count_where(results, |r: ComparisonResult| r.comparison is None);
    Summary {
        total: results.len() as usize,
        stable: (results.len() - regressed - improved - new_benchmarks) as usize,
        improved: improved as usize,
        regressed: regressed as usize,
        new_benchmarks: new_benchmarks as usize,
    }
}

/// Counts regressions, improvements, new and stable benchmarks among
/// consistent results.
pub fn summarize(results: &[ComparisonResult]) -> (summary: Summary)
    requires
        forall|i: int| 0 <= i < results@.len() ==> (#[trigger] results@[i]).consistent(),
    ensures
        summary == summary_of(results@),
        summary.stable + summary.improved + summary.regressed + summary.new_benchmarks
            == summary.total,
{
    let ghost is_regressed = |r: ComparisonResult| r.is_regression;
    let ghost is_improved = |r: ComparisonResult| improved(r);
    let ghost is_new = |r: ComparisonResult| r.comparison is None;
    let mut regressed: usize = 0;
    let mut improved_count: usize = 0;
    let mut new_benchmarks: usize = 0;
    let mut i: usize = 0;
    while i < results.len()
        invariant
            i <= results@.len(),
            forall|k: int| 0 <= k < results@.len() ==> (#[trigger] results@[k]).consistent(),
            is_regressed == |r: ComparisonResult| r.is_regression,
            is_improved == |r: ComparisonResult| improved(r),
            is_new == |r: ComparisonResult| r.comparison is None,
            regressed == count_where(results@.take(i as int), is_regressed),
            improved_count == count_where(results@.take(i as int), is_improved),
            new_benchmarks == count_where(results@.take(i as int), is_new),
            regressed + improved_count + new_benchmarks <= i,
        decreases results@.len() - i,
    {
        proof {
            assert(results@.take(i + 1).drop_last() =~= results@.take(i as int));
            assert(results@.take(i + 1).last() == results@[i as int]);
            assert(results@[i as int].consistent());
        }
        let result = &results[i];
        if result.is_regression {
            regressed = regressed + 1;
        }
        match result.comparison {
            Some(comparison) => match comparison.percentage_change {
                Some(change) => {
                    if change < IMPROVEMENT_PERCENT {
                        improved_count = improved_count + 1;
                    }
                },
                None => {},
            },
            None => {
                new_benchmarks = new_benchmarks + 1;
            },
        }
        i += 1;
    }
    proof {
        assert(results@.take(i as int) =~= results@);
    }
    let total = results.len();
    Summary {
        total,
        stable: total - regressed - improved_count - new_benchmarks,
        improved: improved_count,
        regressed,
        new_benchmarks,
    }
}

/// Whether any result is a regression.
pub open spec fn any_regression(results: Seq<ComparisonResult>) -> bool {
    exists|i: int| 0 <= i < results.len() && (#[trigger] results[i]).is_regression
}

/// Whether the run fails: in CI mode, where a regression was found.
pub fn check_regressions(results: &[ComparisonResult], ci_mode: bool) -> (fails: bool)
    ensures
        fails == (ci_mode && any_regression(results@)),
{
    if !ci_mode {
        return false;
    }
    let mut i: usize = 0;
    while i < results.len()
        invariant
            ci_mode,
            i <= results@.len(),
            forall|k: int| 0 <= k < i ==> !(#[trigger] results@[k]).is_regression,
        decreases results@.len() - i,
    {
        if results[i].is_regression {
            assert(results@[i as int].is_regression);
            return true;
        }
        i += 1;
    }
    false
}

} // verus!
