//! Choosing the compiled libraries that a benchmark runner links against.
//!
//! Building a benchmark crate's dependencies yields a list of artifacts.
//! From these a map from crate names to library files is collected. Two
//! crates are critical: every benchmark crate must link against the same
//! build of each of them, so the first build seen of a critical crate is
//! the canonical one and replaces any later one.

use crate::baseline::texts;
use crate::text::{
    concat3, ends_with, normalize_name, parse_unsigned, starts_with, text_eq, to_chars,
    underscored, unsigned_within,
};
use crate::workspace::{first_where, has_kind, kinds_include, lemma_first_where};
use vstd::prelude::*;
use vstd::string::*;

verus! {

/// A crate name and the library file built for it.
#[derive(Debug)]
pub struct RlibEntry {
    /// The crate's name, with underscores.
    pub name: String,
    /// Path of the library file.
    pub path: String,
}

/// Whether no two entries have the same name.
pub open spec fn names_distinct(entries: Seq<RlibEntry>) -> bool {
    forall|i: int, j: int|
        0 <= i < j < entries.len() ==> (#[trigger] entries[i]).name@ != (#[trigger] entries[j]).name@
}

/// The map from names to paths that the entries make, a later entry
/// replacing an earlier one of the same name.
pub open spec fn as_map(entries: Seq<RlibEntry>) -> Map<Seq<char>, Seq<char>>
    decreases entries.len(),
{
    if entries.len() == 0 {
        Map::empty()
    } else {
        as_map(entries.drop_last()).insert(entries.last().name@, entries.last().path@)
    }
}

/// The names of the map are the names of the entries.
pub proof fn lemma_as_map_names(entries: Seq<RlibEntry>, name: Seq<char>)
    ensures
        as_map(entries).dom().contains(name) <==> exists|i: int|
            0 <= i < entries.len() && (#[trigger] entries[i]).name@ == name,
    decreases entries.len(),
{
    if entries.len() > 0 {
        let front = entries.drop_last();
        lemma_as_map_names(front, name);
        if as_map(entries).dom().contains(name) {
            if entries.last().name@ == name {
                assert(entries[entries.len() - 1].name@ == name);
            } else {
                let i = choose|i: int| 0 <= i < front.len() && (#[trigger] front[i]).name@ == name;
                assert(entries[i].name@ == name);
            }
        }
        if exists|i: int| 0 <= i < entries.len() && (#[trigger] entries[i]).name@ == name {
            let i = choose|i: int| 0 <= i < entries.len() && (#[trigger] entries[i]).name@ == name;
            if i < front.len() {
                assert(front[i].name@ == name);
            }
        }
    }
}

/// Where names are distinct, the map gives each entry's name its path.
pub proof fn lemma_as_map_entry(entries: Seq<RlibEntry>, at: int)
    requires
        names_distinct(entries),
        0 <= at < entries.len(),
    ensures
        as_map(entries).dom().contains(entries[at].name@),
        as_map(entries)[entries[at].name@] == entries[at].path@,
    decreases entries.len(),
{
    let front = entries.drop_last();
    if at < entries.len() - 1 {
        assert(names_distinct(front)) by {
            assert forall|i: int, j: int| 0 <= i < j < front.len() implies (#[trigger] front[i]).name@
                != (#[trigger] front[j]).name@ by {
                assert(entries[i].name@ != entries[j].name@);
            }
        }
        lemma_as_map_entry(front, at);
        assert(front[at] == entries[at]);
        assert(entries[at].name@ != entries[entries.len() - 1].name@);
    }
}

/// Giving an entry another path, in place, is an insertion under its name.
pub proof fn lemma_as_map_update(entries: Seq<RlibEntry>, at: int, entry: RlibEntry)
    requires
        names_distinct(entries),
        0 <= at < entries.len(),
        entry.name@ == entries[at].name@,
    ensures
        names_distinct(entries.update(at, entry)),
        as_map(entries.update(at, entry)) == as_map(entries).insert(entry.name@, entry.path@),
    decreases entries.len(),
{
    let after = entries.update(at, entry);
    assert(names_distinct(after)) by {
        assert forall|i: int, j: int| 0 <= i < j < after.len() implies (#[trigger] after[i]).name@
            != (#[trigger] after[j]).name@ by {
            assert(entries[i].name@ != entries[j].name@);
        }
    }
    let front = entries.drop_last();
    if at == entries.len() - 1 {
        assert(after.drop_last() =~= front);
        assert(as_map(after) =~= as_map(entries).insert(entry.name@, entry.path@));
    } else {
        assert(names_distinct(front)) by {
            assert forall|i: int, j: int| 0 <= i < j < front.len() implies (#[trigger] front[i]).name@
                != (#[trigger] front[j]).name@ by {
                assert(entries[i].name@ != entries[j].name@);
            }
        }
        assert(front[at] == entries[at]);
        lemma_as_map_update(front, at, entry);
        assert(after.drop_last() =~= front.update(at, entry));
        assert(after.last() == entries.last());
        assert(entries[at].name@ != entries[entries.len() - 1].name@);
        assert(as_map(after) =~= as_map(entries).insert(entry.name@, entry.path@));
    }
}

/// A map from crate names to library files.
#[derive(Debug)]
pub struct RlibMap {
    /// The entries, no two of them with the same name.
    pub entries: Vec<RlibEntry>,
}

impl RlibMap {
    /// Whether no name occurs twice.
    pub open spec fn wf(&self) -> bool {
        names_distinct(self.entries@)
    }

    /// The map from names to paths.
    pub open spec fn view(&self) -> Map<Seq<char>, Seq<char>> {
        as_map(self.entries@)
    }

    /// The empty map.
    pub fn new() -> (map: Self)
        ensures
            map.wf(),
            map@ == Map::<Seq<char>, Seq<char>>::empty(),
            map.entries@.len() == 0,
    {
        RlibMap { entries: Vec::new() }
    }

    /// Number of names in the map.
    pub fn len(&self) -> (n: usize)
        ensures
            n == self.entries@.len(),
    {
        self.entries.len()
    }

    /// Where the entry of the given name stands.
    fn position(&self, name: &str) -> (at: Option<usize>)
        ensures
            match at {
                Some(i) => i < self.entries@.len() && self.entries@[i as int].name@ == name@,
                None => forall|i: int|
                    0 <= i < self.entries@.len() ==> (#[trigger] self.entries@[i]).name@ != name@,
            },
    {
        let mut i: usize = 0;
        while i < self.entries.len()
            invariant
                i <= self.entries@.len(),
                forall|k: int| 0 <= k < i ==> (#[trigger] self.entries@[k]).name@ != name@,
            decreases self.entries@.len() - i,
        {
            if text_eq(self.entries[i].name.as_str(), name) {
                return Some(i);
            }
            i += 1;
        }
        None
    }

    /// The library file of the crate of the given name.
    pub fn get(&self, name: &str) -> (path: Option<&String>)
        requires
            self.wf(),
        ensures
            path is Some <==> self@.dom().contains(name@),
            path is Some ==> path->Some_0@ == self@[name@],
    {
        proof {
            lemma_as_map_names(self.entries@, name@);
        }
        match self.position(name) {
            Some(i) => {
                proof {
                    lemma_as_map_entry(self.entries@, i as int);
                }
                Some(&self.entries[i].path)
            },
            None => None,
        }
    }

    /// Whether the map has the given name.
    pub fn contains_key(&self, name: &str) -> (present: bool)
        ensures
            present == self@.dom().contains(name@),
    {
        proof {
            lemma_as_map_names(self.entries@, name@);
        }
        self.position(name).is_some()
    }

    /// Gives the name the path, in place of the one it had, if any.
    pub fn insert(&mut self, name: String, path: String)
        requires
            old(self).wf(),
        ensures
            final(self).wf(),
            final(self)@ == old(self)@.insert(name@, path@),
    {
        match self.position(name.as_str()) {
            Some(i) => {
                let entry = RlibEntry { name, path };
                proof {
                    lemma_as_map_update(self.entries@, i as int, entry);
                }
                self.entries.set(i, entry);
            },
            None => {
                let ghost before = self.entries@;
                self.entries.push(RlibEntry { name, path });
                assert(self.entries@.drop_last() =~= before);
            },
        }
    }

    /// Adds every entry of `over`, in place of what the names had.
    pub fn extend(&mut self, over: &RlibMap)
        requires
            old(self).wf(),
        ensures
            final(self).wf(),
            final(self)@ == old(self)@.union_prefer_right(over@),
    {
        let mut i: usize = 0;
        assert(over.entries@.take(0) =~= Seq::empty());
        assert(self@ =~= self@.union_prefer_right(Map::empty()));
        while i < over.entries.len()
            invariant
                i <= over.entries@.len(),
                self.wf(),
                self@ == old(self)@.union_prefer_right(as_map(over.entries@.take(i as int))),
            decreases over.entries@.len() - i,
        {
            let entry = &over.entries[i];
            proof {
                assert(over.entries@.take(i + 1).drop_last() =~= over.entries@.take(i as int));
                assert(over.entries@.take(i + 1).last() == over.entries@[i as int]);
                vstd::map_lib::lemma_union_insert_right(
                    old(self)@,
                    as_map(over.entries@.take(i as int)),
                    entry.name@,
                    entry.path@,
                );
            }
            self.insert(entry.name.clone(), entry.path.clone());
            i += 1;
        }
        assert(over.entries@.take(i as int) =~= over.entries@);
    }
}

/// How far the compiler optimised, as the build tool reports it.
#[derive(Debug, Clone)]
pub enum OptLevel {
    /// Given as text.
    Text(String),
    /// Given as a number.
    Number(u64),
    /// Given in another way, or not at all.
    Other,
}

/// The level as a number of 32 bits: a text that does not write one counts
/// as zero, a number is cut to its lowest 32 bits.
pub open spec fn opt_level_of(level: OptLevel) -> nat {
    match level {
        OptLevel::Text(text) => match unsigned_within(text@, u32::MAX as nat) {
            Some(n) => n,
            None => 0,
        },
        OptLevel::Number(n) => (n % 0x1_0000_0000) as nat,
        OptLevel::Other => 0,
    }
}

/// The level as a number of 32 bits.
pub fn opt_level_int(level: &OptLevel) -> (n: u32)
    ensures
        n == opt_level_of(*level),
{
    match level {
        OptLevel::Text(text) => match parse_unsigned(text.as_str(), 0xffff_ffff) {
            Some(n) => n as u32,
            None => 0,
        },
        OptLevel::Number(n) => (*n % 0x1_0000_0000) as u32,
        OptLevel::Other => 0,
    }
}

/// A file of an artifact.
#[derive(Debug, Clone)]
pub struct ArtifactFile {
    /// Path of the file.
    pub path: String,
    /// Extension of the file's name, if it has one.
    pub extension: Option<String>,
}

/// What the build tool reports of something it has built.
#[derive(Debug, Clone)]
pub struct Artifact {
    /// Why the message was sent.
    pub reason: String,
    /// Name of the target.
    pub target_name: String,
    /// Kinds of the target.
    pub target_kinds: Vec<String>,
    /// How far the compiler optimised.
    pub opt_level: OptLevel,
    /// The files that were built.
    pub files: Vec<ArtifactFile>,
}

/// Whether a file can be linked against: a library or a shared object.
pub open spec fn linkable(file: ArtifactFile) -> bool {
    file.extension matches Some(extension) && (extension@ == "rlib"@ || extension@ == "so"@)
}

/// Whether an artifact is a library for the benchmark run: optimised at
/// level three, of kind `lib` or `rlib`.
pub open spec fn is_runtime_library(artifact: Artifact) -> bool {
    opt_level_of(artifact.opt_level) == 3 && (has_kind(artifact.target_kinds@, "lib"@) || has_kind(
        artifact.target_kinds@,
        "rlib"@,
    ))
}

/// Whether an artifact counts: a compiler artifact, no build script, not
/// the excluded crate, and a runtime library or a procedural macro.
pub open spec fn qualifies(artifact: Artifact, excluded: Seq<char>) -> bool {
    &&& artifact.reason@ == "compiler-artifact"@
    &&& !has_kind(artifact.target_kinds@, "custom-build"@)
    &&& underscored(artifact.target_name@) != excluded
    &&& is_runtime_library(artifact) || has_kind(artifact.target_kinds@, "proc-macro"@)
}

/// The map collected from the artifacts: each artifact that counts and has
/// a linkable file gives its crate the first such file.
pub open spec fn collected(artifacts: Seq<Artifact>, excluded: Seq<char>) -> Map<
    Seq<char>,
    Seq<char>,
>
    decreases artifacts.len(),
{
    if artifacts.len() == 0 {
        Map::empty()
    } else {
        let earlier = collected(artifacts.drop_last(), excluded);
        let artifact = artifacts.last();
        match first_where(artifact.files@, |file: ArtifactFile| linkable(file)) {
            Some(file) => if qualifies(artifact, excluded) {
                earlier.insert(underscored(artifact.target_name@), file.path@)
            } else {
                earlier
            },
            None => earlier,
        }
    }
}

/// Whether a crate is critical: the benchmark runtime and the registry
/// that it collects benchmarks with.
pub open spec fn is_critical(name: Seq<char>) -> bool {
    name == "simplebench_runtime"@ || name == "inventory"@
}

/// The critical names.
pub open spec fn critical_names() -> Set<Seq<char>> {
    Set::new(|name: Seq<char>| is_critical(name))
}

/// Whether a crate is critical.
pub fn name_is_critical(name: &str) -> (r: bool)
    ensures
        r == is_critical(name@),
{
    text_eq(name, "simplebench_runtime") || text_eq(name, "inventory")
}

/// Whether a file can be linked against.
fn file_is_linkable(file: &ArtifactFile) -> (r: bool)
    ensures
        r == linkable(*file),
{
    match &file.extension {
        Some(extension) => text_eq(extension.as_str(), "rlib") || text_eq(extension.as_str(), "so"),
        None => false,
    }
}

/// Whether an artifact counts.
fn artifact_qualifies(artifact: &Artifact, excluded: &str) -> (r: bool)
    ensures
        r == qualifies(*artifact, excluded@),
{
    if !text_eq(artifact.reason.as_str(), "compiler-artifact") {
        return false;
    }
    if kinds_include(&artifact.target_kinds, "custom-build") {
        return false;
    }
    let target_name = normalize_name(artifact.target_name.as_str());
    if text_eq(target_name.as_str(), excluded) {
        return false;
    }
    let is_runtime_lib = opt_level_int(&artifact.opt_level) == 3 && (kinds_include(
        &artifact.target_kinds,
        "lib",
    ) || kinds_include(&artifact.target_kinds, "rlib"));
    is_runtime_lib || kinds_include(&artifact.target_kinds, "proc-macro")
}

/// The first file of an artifact that can be linked against.
fn first_linkable(files: &Vec<ArtifactFile>) -> (found: Option<usize>)
    ensures
        found is Some <==> first_where(files@, |file: ArtifactFile| linkable(file)) is Some,
        found is Some ==> found->Some_0 < files@.len() && first_where(
            files@,
            |file: ArtifactFile| linkable(file),
        ) == Some(files@[found->Some_0 as int]),
{
    let ghost wanted = |file: ArtifactFile| linkable(file);
    let mut i: usize = 0;
    while i < files.len()
        invariant
            i <= files@.len(),
            wanted == (|file: ArtifactFile| linkable(file)),
            forall|k: int| 0 <= k < i ==> !wanted(#[trigger] files@[k]),
        decreases files@.len() - i,
    {
        if file_is_linkable(&files[i]) {
            proof {
                assert(wanted(files@[i as int]));
                lemma_first_where(files@, wanted, i as int);
            }
            return Some(i);
        }
        i += 1;
    }
    proof {
        lemma_first_where(files@, wanted, files@.len() as int);
    }
    None
}

/// The entries of `rlibs` under critical names.
pub fn critical_deps(rlibs: &RlibMap) -> (critical: RlibMap)
    ensures
        critical.wf(),
        critical@ == rlibs@.restrict(critical_names()),
{
    let mut critical = RlibMap::new();
    let mut i: usize = 0;
    assert(rlibs.entries@.take(0) =~= Seq::empty());
    assert(critical@ =~= Map::<Seq<char>, Seq<char>>::empty().restrict(critical_names()));
    while i < rlibs.entries.len()
        invariant
            i <= rlibs.entries@.len(),
            critical.wf(),
            critical@ == as_map(rlibs.entries@.take(i as int)).restrict(critical_names()),
        decreases rlibs.entries@.len() - i,
    {
        let entry = &rlibs.entries[i];
        let ghost before = critical@;
        proof {
            assert(rlibs.entries@.take(i + 1).drop_last() =~= rlibs.entries@.take(i as int));
            assert(rlibs.entries@.take(i + 1).last() == rlibs.entries@[i as int]);
        }
        if name_is_critical(entry.name.as_str()) {
            critical.insert(entry.name.clone(), entry.path.clone());
        }
        assert(critical@ =~= as_map(rlibs.entries@.take(i + 1)).restrict(critical_names()));
        i += 1;
    }
    assert(rlibs.entries@.take(i as int) =~= rlibs.entries@);
    critical
}

/// Collects the library files from the artifacts of a build, leaving out
/// the crate `exclude_crate`, which is built apart. Returns the map of all
/// crates and the part of it under critical names.
pub fn parse_cargo_json(artifacts: &Vec<Artifact>, exclude_crate: &str) -> (maps: (RlibMap, RlibMap))
    ensures
        maps.0.wf(),
        maps.1.wf(),
        maps.0@ == collected(artifacts@, underscored(exclude_crate@)),
        maps.1@ == maps.0@.restrict(critical_names()),
{
    let excluded = normalize_name(exclude_crate);
    let mut rlibs = RlibMap::new();
    let mut i: usize = 0;
    assert(artifacts@.take(0) =~= Seq::empty());
    while i < artifacts.len()
        invariant
            i <= artifacts@.len(),
            excluded@ == underscored(exclude_crate@),
            rlibs.wf(),
            rlibs@ == collected(artifacts@.take(i as int), excluded@),
        decreases artifacts@.len() - i,
    {
        let artifact = &artifacts[i];
        proof {
            assert(artifacts@.take(i + 1).drop_last() =~= artifacts@.take(i as int));
            assert(artifacts@.take(i + 1).last() == artifacts@[i as int]);
        }
        if artifact_qualifies(artifact, excluded.as_str()) {
            match first_linkable(&artifact.files) {
                Some(at) => {
                    let name = normalize_name(artifact.target_name.as_str());
                    rlibs.insert(name, artifact.files[at].path.clone());
                },
                None => {},
            }
        }
        i += 1;
    }
    assert(artifacts@.take(i as int) =~= artifacts@);
    let critical = critical_deps(&rlibs);
    (rlibs, critical)
}

/// The arguments that hand the libraries to the compiler: for each entry
/// `--extern` and then the name, an equals sign and the path.
pub open spec fn extern_args_of(entries: Seq<RlibEntry>) -> Seq<Seq<char>>
    decreases entries.len(),
{
    if entries.len() == 0 {
        Seq::empty()
    } else {
        extern_args_of(entries.drop_last()).push("--extern"@).push(
            entries.last().name@ + "="@ + entries.last().path@,
        )
    }
}

/// The arguments that hand the libraries to the compiler.
pub fn build_extern_args(rlibs: &RlibMap) -> (args: Vec<String>)
    ensures
        texts(args@) == extern_args_of(rlibs.entries@),
{
    let mut args: Vec<String> = Vec::new();
    let mut i: usize = 0;
    assert(rlibs.entries@.take(0) =~= Seq::empty());
    assert(texts(args@) =~= Seq::empty());
    while i < rlibs.entries.len()
        invariant
            i <= rlibs.entries@.len(),
            texts(args@) == extern_args_of(rlibs.entries@.take(i as int)),
        decreases rlibs.entries@.len() - i,
    {
        let entry = &rlibs.entries[i];
        let ghost before = args@;
        proof {
            assert(rlibs.entries@.take(i + 1).drop_last() =~= rlibs.entries@.take(i as int));
            assert(rlibs.entries@.take(i + 1).last() == rlibs.entries@[i as int]);
        }
        let flag = String::from_str("--extern");
        let pair = concat3(entry.name.as_str(), "=", entry.path.as_str());
        args.push(flag);
        args.push(pair);
        assert(texts(args@) =~= texts(before).push(flag@).push(pair@));
        i += 1;
    }
    assert(rlibs.entries@.take(i as int) =~= rlibs.entries@);
    args
}

/// Two builds of one critical crate.
#[derive(Debug)]
pub struct Conflict {
    /// Name of the critical crate.
    pub name: String,
    /// The canonical build, which stays in use.
    pub expected: String,
    /// The other build.
    pub found: String,
}

/// Name, canonical path and found path of each entry whose name has
/// another path in `canonical`, in the order of the entries.
pub open spec fn conflicts_of(entries: Seq<RlibEntry>, canonical: Map<Seq<char>, Seq<char>>) -> Seq<
    (Seq<char>, Seq<char>, Seq<char>),
>
    decreases entries.len(),
{
    if entries.len() == 0 {
        Seq::empty()
    } else {
        let earlier = conflicts_of(entries.drop_last(), canonical);
        let entry = entries.last();
        if canonical.dom().contains(entry.name@) && canonical[entry.name@] != entry.path@ {
            earlier.push((entry.name@, canonical[entry.name@], entry.path@))
        } else {
            earlier
        }
    }
}

/// Name, canonical path and found path of each conflict.
pub open spec fn conflict_texts(conflicts: Seq<Conflict>) -> Seq<(Seq<char>, Seq<char>, Seq<char>)> {
    conflicts.map_values(|c: Conflict| (c.name@, c.expected@, c.found@))
}

/// Whether one of the benchmark crates has the given name, once its
/// hyphens are underscores.
pub open spec fn is_benchmark_name(benchmark_crates: Seq<String>, name: Seq<char>) -> bool {
    exists|i: int|
        0 <= i < benchmark_crates.len() && underscored((#[trigger] benchmark_crates[i])@) == name
}

/// Whether one of the benchmark crates has the given name.
pub fn names_benchmark(benchmark_crates: &Vec<String>, name: &str) -> (r: bool)
    ensures
        r == is_benchmark_name(benchmark_crates@, name@),
{
    let mut i: usize = 0;
    while i < benchmark_crates.len()
        invariant
            i <= benchmark_crates@.len(),
            forall|k: int|
                0 <= k < i ==> underscored((#[trigger] benchmark_crates@[k])@) != name@,
        decreases benchmark_crates@.len() - i,
    {
        let normalized = normalize_name(benchmark_crates[i].as_str());
        if text_eq(normalized.as_str(), name) {
            return true;
        }
        i += 1;
    }
    false
}

/// The names that a build's libraries are taken over under: all but the
/// critical ones and the benchmark crates that have their own build in
/// `all` already.
pub open spec fn taken_over(all: Map<Seq<char>, Seq<char>>, benchmark_crates: Seq<String>) -> Set<
    Seq<char>,
> {
    Set::new(
        |name: Seq<char>|
            !is_critical(name) && !(is_benchmark_name(benchmark_crates, name) && all.dom().contains(
                name,
            )),
    )
}

/// The libraries chosen so far, over the builds of several benchmark
/// crates.
#[derive(Debug)]
pub struct RlibSelection {
    /// The library of each crate.
    pub all: RlibMap,
    /// The canonical build of each critical crate seen so far.
    pub canonical: RlibMap,
}

impl RlibSelection {
    /// Whether both maps are well formed.
    pub open spec fn wf(&self) -> bool {
        self.all.wf() && self.canonical.wf()
    }

    /// Nothing chosen yet.
    pub fn new() -> (selection: Self)
        ensures
            selection.wf(),
            selection.all@ == Map::<Seq<char>, Seq<char>>::empty(),
            selection.canonical@ == Map::<Seq<char>, Seq<char>>::empty(),
    {
        RlibSelection { all: RlibMap::new(), canonical: RlibMap::new() }
    }

    /// Takes note of the critical crates of one build. A critical crate
    /// seen for the first time becomes canonical; what is canonical stays.
    /// Returns the crates of which the build has another build than the
    /// canonical one.
    pub fn track_critical(&mut self, crate_critical: &RlibMap) -> (conflicts: Vec<Conflict>)
        requires
            old(self).wf(),
        ensures
            final(self).wf(),
            final(self).all == old(self).all,
            final(self).canonical@ == crate_critical@.union_prefer_right(old(self).canonical@),
            conflict_texts(conflicts@) == conflicts_of(crate_critical.entries@, old(self).canonical@),
    {
        let mut conflicts: Vec<Conflict> = Vec::new();
        let mut i: usize = 0;
        assert(crate_critical.entries@.take(0) =~= Seq::empty());
        assert(conflict_texts(conflicts@) =~= Seq::empty());
        while i < crate_critical.entries.len()
            invariant
                i <= crate_critical.entries@.len(),
                self == old(self),
                self.wf(),
                conflict_texts(conflicts@) == conflicts_of(
                    crate_critical.entries@.take(i as int),
                    self.canonical@,
                ),
            decreases crate_critical.entries@.len() - i,
        {
            let entry = &crate_critical.entries[i];
            let ghost before = conflicts@;
            proof {
                assert(crate_critical.entries@.take(i + 1).drop_last()
                    =~= crate_critical.entries@.take(i as int));
                assert(crate_critical.entries@.take(i + 1).last() == crate_critical.entries@[i as int]);
            }
            match self.canonical.get(entry.name.as_str()) {
                Some(expected) => {
                    if !text_eq(expected.as_str(), entry.path.as_str()) {
                        let conflict = Conflict {
                            name: entry.name.clone(),
                            expected: expected.clone(),
                            found: entry.path.clone(),
                        };
                        conflicts.push(conflict);
                        assert(conflict_texts(conflicts@) =~= conflict_texts(before).push(
                            (entry.name@, expected@, entry.path@),
                        ));
                    }
                },
                None => {},
            }
            i += 1;
        }
        assert(crate_critical.entries@.take(i as int) =~= crate_critical.entries@);
        let mut merged = RlibMap::new();
        merged.extend(crate_critical);
        merged.extend(&self.canonical);
        assert(merged@ =~= crate_critical@.union_prefer_right(self.canonical@));
        self.canonical = merged;
        conflicts
    }

    /// The libraries to compile a benchmark crate against: those of its
    /// build, with the canonical build of each critical crate.
    pub fn compile_inputs(&self, crate_rlibs: &RlibMap) -> (inputs: RlibMap)
        requires
            self.wf(),
        ensures
            inputs.wf(),
            inputs@ == crate_rlibs@.union_prefer_right(self.canonical@),
    {
        let mut inputs = RlibMap::new();
        inputs.extend(crate_rlibs);
        inputs.extend(&self.canonical);
        assert(inputs@ =~= crate_rlibs@.union_prefer_right(self.canonical@));
        inputs
    }

    /// Takes over the libraries of one build, but for the critical crates
    /// and for benchmark crates built before, and then the benchmark
    /// crate's own library.
    pub fn merge(
        &mut self,
        benchmark_crates: &Vec<String>,
        crate_rlibs: &RlibMap,
        normalized_name: String,
        rlib_path: String,
    )
        requires
            old(self).wf(),
        ensures
            final(self).wf(),
            final(self).canonical == old(self).canonical,
            final(self).all@ == old(self).all@.union_prefer_right(
                crate_rlibs@.restrict(taken_over(old(self).all@, benchmark_crates@)),
            ).insert(normalized_name@, rlib_path@),
    {
        let ghost taken = taken_over(self.all@, benchmark_crates@);
        let mut kept = RlibMap::new();
        let mut i: usize = 0;
        assert(crate_rlibs.entries@.take(0) =~= Seq::empty());
        assert(kept@ =~= Map::<Seq<char>, Seq<char>>::empty().restrict(taken));
        while i < crate_rlibs.entries.len()
            invariant
                i <= crate_rlibs.entries@.len(),
                self == old(self),
                taken == taken_over(self.all@, benchmark_crates@),
                kept.wf(),
                kept@ == as_map(crate_rlibs.entries@.take(i as int)).restrict(taken),
            decreases crate_rlibs.entries@.len() - i,
        {
            let entry = &crate_rlibs.entries[i];
            proof {
                assert(crate_rlibs.entries@.take(i + 1).drop_last() =~= crate_rlibs.entries@.take(
                    i as int,
                ));
                assert(crate_rlibs.entries@.take(i + 1).last() == crate_rlibs.entries@[i as int]);
            }
            let name = entry.name.as_str();
            let built_before = names_benchmark(benchmark_crates, name) && self.all.contains_key(
                name,
            );
            if !built_before && !name_is_critical(name) {
                assert(taken.contains(entry.name@));
                kept.insert(entry.name.clone(), entry.path.clone());
            } else {
                assert(!taken.contains(entry.name@));
            }
            assert(kept@ =~= as_map(crate_rlibs.entries@.take(i + 1)).restrict(taken));
            i += 1;
        }
        assert(crate_rlibs.entries@.take(i as int) =~= crate_rlibs.entries@);
        self.all.extend(&kept);
        self.all.insert(normalized_name, rlib_path);
    }

    /// The libraries to link the runner against: all that were taken over,
    /// with the canonical build of each critical crate.
    pub fn finish(self) -> (rlibs: RlibMap)
        requires
            self.wf(),
        ensures
            rlibs.wf(),
            rlibs@ == self.all@.union_prefer_right(self.canonical@),
    {
        let mut rlibs = self.all;
        rlibs.extend(&self.canonical);
        rlibs
    }
}

/// Name of the library file that the compiler writes for a crate when it
/// is called directly.
pub open spec fn plain_rlib_name(crate_name: Seq<char>) -> Seq<char> {
    "lib"@ + crate_name + ".rlib"@
}

/// Whether a file is a library of the crate as the build tool names it:
/// `lib`, the crate's name, a hyphen, a hash and `.rlib`.
pub open spec fn is_hashed_rlib(crate_name: Seq<char>) -> spec_fn(String) -> bool {
    |file: String| ("lib"@ + crate_name + "-"@).is_prefix_of(file@) && ".rlib"@.is_suffix_of(file@)
}

/// The library file of a crate among the files of a directory: the plain
/// one where it is present, else the first that the build tool named.
pub fn find_crate_rlib(plain_present: bool, files: &Vec<String>, crate_name: &str) -> (found: Option<
    String,
>)
    ensures
        plain_present ==> found is Some && found->Some_0@ == plain_rlib_name(crate_name@),
        !plain_present ==> (found is Some <==> first_where(files@, is_hashed_rlib(crate_name@))
            is Some),
        !plain_present && found is Some ==> found->Some_0@ == first_where(
            files@,
            is_hashed_rlib(crate_name@),
        )->Some_0@,
{
    if plain_present {
        return Some(concat3("lib", crate_name, ".rlib"));
    }
    let prefix = to_chars(concat3("lib", crate_name, "-").as_str());
    let suffix = to_chars(".rlib");
    let ghost wanted = is_hashed_rlib(crate_name@);
    let mut i: usize = 0;
    while i < files.len()
        invariant
            i <= files@.len(),
            !plain_present,
            wanted == is_hashed_rlib(crate_name@),
            prefix@ == "lib"@ + crate_name@ + "-"@,
            suffix@ == ".rlib"@,
            forall|k: int| 0 <= k < i ==> !wanted(#[trigger] files@[k]),
        decreases files@.len() - i,
    {
        let name = to_chars(files[i].as_str());
        if starts_with(&name, &prefix) && ends_with(&name, &suffix) {
            proof {
                assert(wanted(files@[i as int]));
                lemma_first_where(files@, wanted, i as int);
            }
            return Some(files[i].clone());
        }
        i += 1;
    }
    proof {
        lemma_first_where(files@, wanted, files@.len() as int);
    }
    None
}

} // verus!
