//! The benchmarks that a runner holds, and which of them a call means.

use crate::config::BenchmarkConfig;
use crate::results::{BenchResult, BenchmarkInfo};
use crate::text::{parse_usize, text_eq, unsigned_within};
use vstd::prelude::*;
use vstd::string::*;

verus! {

/// Core that a benchmark is pinned to where none is named: core 1, since
/// core 0 is left to the system.
pub const DEFAULT_PIN_CORE: usize = 1;

/// A registered benchmark. `F` is the type of what runs it, in a registry
/// of functions the function pointer type.
pub struct SimpleBench<F> {
    /// Name of the benchmark function.
    pub name: &'static str,
    /// Path of the module that defines it.
    pub module: &'static str,
    /// Warms up, measures and returns the result.
    pub run: F,
}

/// Name and module of each benchmark.
pub open spec fn infos_of<F>(registry: Seq<SimpleBench<F>>) -> Seq<(Seq<char>, Seq<char>)> {
    registry.map_values(|b: SimpleBench<F>| (b.name@, b.module@))
}

/// Name and module of each listed benchmark.
pub open spec fn info_texts(infos: Seq<BenchmarkInfo>) -> Seq<(Seq<char>, Seq<char>)> {
    infos.map_values(|b: BenchmarkInfo| (b.name@, b.module@))
}

/// Name and module of each registered benchmark, in the order of the
/// registry.
pub fn list_benchmarks<F>(registry: &[SimpleBench<F>]) -> (infos: Vec<BenchmarkInfo>)
    ensures
        info_texts(infos@) == infos_of(registry@),
{
    let mut infos: Vec<BenchmarkInfo> = Vec::new();
    let mut i: usize = 0;
    while i < registry.len()
        invariant
            i <= registry@.len(),
            info_texts(infos@) == infos_of(registry@.take(i as int)),
        decreases registry@.len() - i,
    {
        let ghost before = infos@;
        let bench = &registry[i];
        infos.push(
            BenchmarkInfo { name: String::from_str(bench.name), module: String::from_str(bench.module) },
        );
        proof {
            assert(info_texts(infos@) =~= info_texts(before).push((bench.name@, bench.module@)));
            assert(infos_of(registry@.take(i + 1)) =~= infos_of(registry@.take(i as int)).push(
                (bench.name@, bench.module@),
            ));
        }
        i += 1;
    }
    proof {
        assert(registry@.take(i as int) =~= registry@);
    }
    infos
}

/// Whether `at` is the first benchmark of exactly the given name.
pub open spec fn is_named<F>(registry: Seq<SimpleBench<F>>, name: Seq<char>, at: int) -> bool {
    &&& 0 <= at < registry.len()
    &&& registry[at].name@ == name
    &&& forall|earlier: int| 0 <= earlier < at ==> (#[trigger] registry[earlier]).name@ != name
}

/// The first benchmark whose name is exactly `name`.
pub fn find_benchmark<F>(registry: &[SimpleBench<F>], name: &str) -> (found: Option<usize>)
    ensures
        match found {
            Some(at) => is_named(registry@, name@, at as int),
            None => forall|i: int| 0 <= i < registry@.len() ==> (#[trigger] registry@[i]).name@ != name@,
        },
{
    let mut i: usize = 0;
    while i < registry.len()
        invariant
            i <= registry@.len(),
            forall|k: int| 0 <= k < i ==> (#[trigger] registry@[k]).name@ != name@,
        decreases registry@.len() - i,
    {
        if text_eq(registry[i].name, name) {
            return Some(i);
        }
        i += 1;
    }
    None
}

/// Runs a registered benchmark under the configuration.
pub fn run_benchmark<F: Fn(&BenchmarkConfig) -> BenchResult>(
    bench: &SimpleBench<F>,
    config: &BenchmarkConfig,
) -> (result: BenchResult)
    requires
        bench.run.requires((config,)),
    ensures
        bench.run.ensures((config,), result),
{
    (bench.run)(config)
}

/// Core whose frequency is read where none is named.
pub const DEFAULT_MONITOR_CORE: usize = 0;

/// The core that a text names: the number that the text writes, or
/// `fallback` where there is no text or it writes no number.
pub open spec fn core_of(text: Option<Seq<char>>, fallback: usize) -> usize {
    match text {
        Some(text) => match unsigned_within(text, usize::MAX as nat) {
            Some(core) => core as usize,
            None => fallback,
        },
        None => fallback,
    }
}

/// The core that a text names, or `fallback`.
pub fn parse_core(text: Option<&str>, fallback: usize) -> (core: usize)
    ensures
        core == core_of(
            match text {
                Some(text) => Some(text@),
                None => None,
            },
            fallback,
        ),
{
    match text {
        Some(text) => match parse_usize(text) {
            Some(core) => core,
            None => fallback,
        },
        None => fallback,
    }
}

/// The core that a benchmark is pinned to: the one named, or core 1.
pub fn pin_core(text: Option<&str>) -> (core: usize)
    ensures
        core == core_of(
            match text {
                Some(text) => Some(text@),
                None => None,
            },
            DEFAULT_PIN_CORE,
        ),
{
    parse_core(text, DEFAULT_PIN_CORE)
}

/// The core whose frequency and temperature are read during a measurement:
/// the one named, or core 0.
pub fn monitor_core(text: Option<&str>) -> (core: usize)
    ensures
        core == core_of(
            match text {
                Some(text) => Some(text@),
                None => None,
            },
            DEFAULT_MONITOR_CORE,
        ),
{
    parse_core(text, DEFAULT_MONITOR_CORE)
}

} // verus!
