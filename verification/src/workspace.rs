//! The packages of a workspace and which of them hold benchmarks.
//!
//! A package holds benchmarks where it is a member of the workspace,
//! depends on the benchmark runtime, as a normal or as a development
//! dependency, and has a library target.

use crate::text::text_eq;
use vstd::prelude::*;
use vstd::string::*;

verus! {

/// What a dependency is needed for.
#[derive(Debug, Clone, Copy, PartialEq, Eq, Structural)]
pub enum DependencyKind {
    /// Needed by the package's code.
    Normal,
    /// Needed by its tests and examples.
    Development,
    /// Needed by its build script.
    Build,
    /// Any other kind.
    Unknown,
}

/// A dependency of a package.
#[derive(Debug, Clone)]
pub struct Dependency {
    /// Name of the package depended on.
    pub name: String,
    /// What it is needed for.
    pub kind: DependencyKind,
}

/// A target of a package.
#[derive(Debug, Clone)]
pub struct Target {
    /// The kinds of the target, such as `lib`, `bin` or `proc-macro`.
    pub kinds: Vec<String>,
    /// Path of the target's root source file.
    pub src_path: String,
}

/// A package as the build tool describes it.
#[derive(Debug, Clone)]
pub struct Package {
    /// Name of the package.
    pub name: String,
    /// Path of the package's manifest.
    pub manifest_path: String,
    /// Whether the package is a member of the workspace.
    pub workspace_member: bool,
    /// What the package depends on.
    pub dependencies: Vec<Dependency>,
    /// The package's targets.
    pub targets: Vec<Target>,
}

/// A package that holds benchmarks.
#[derive(Debug, Clone)]
pub struct BenchmarkCrate {
    /// Name of the package.
    pub name: String,
}

/// A workspace and its benchmark crates.
#[derive(Debug, Clone)]
pub struct WorkspaceInfo {
    /// Directory that holds what the build tool produces.
    pub target_directory: String,
    /// The packages that hold benchmarks, in the order of the workspace.
    pub benchmark_crates: Vec<BenchmarkCrate>,
}

/// Whether `at` is the first position of `s` whose item satisfies `p`.
pub open spec fn is_first<T>(s: Seq<T>, p: spec_fn(T) -> bool, at: int) -> bool {
    &&& 0 <= at < s.len()
    &&& p(s[at])
    &&& forall|earlier: int| 0 <= earlier < at ==> !p(#[trigger] s[earlier])
}

/// The first item of `s` that satisfies `p`.
pub open spec fn first_where<T>(s: Seq<T>, p: spec_fn(T) -> bool) -> Option<T> {
    if exists|at: int| is_first(s, p, at) {
        Some(s[choose|at: int| is_first(s, p, at)])
    } else {
        None
    }
}

/// The first item that satisfies `p` is the one at a first position, and
/// there is none where no item satisfies `p`.
pub proof fn lemma_first_where<T>(s: Seq<T>, p: spec_fn(T) -> bool, at: int)
    requires
        is_first(s, p, at) || (at == s.len() && forall|i: int|
            0 <= i < s.len() ==> !p(#[trigger] s[i])),
    ensures
        at < s.len() ==> first_where(s, p) == Some(s[at]),
        at == s.len() ==> first_where(s, p) is None,
{
    if at < s.len() {
        let chosen = choose|at: int| is_first(s, p, at);
        if chosen < at {
            assert(!p(s[chosen]));
        } else if chosen > at {
            assert(!p(s[at]));
        }
    }
}

/// Whether one of the kinds is `kind`.
pub open spec fn has_kind(kinds: Seq<String>, kind: Seq<char>) -> bool {
    exists|i: int| 0 <= i < kinds.len() && (#[trigger] kinds[i])@ == kind
}

/// Whether a target is a library.
pub open spec fn is_library_target(target: Target) -> bool {
    has_kind(target.kinds@, "lib"@) || has_kind(target.kinds@, "rlib"@)
}

/// Whether a package has a library target.
pub open spec fn has_library_target(package: Package) -> bool {
    exists|i: int|
        0 <= i < package.targets@.len() && is_library_target(#[trigger] package.targets@[i])
}

/// Whether a dependency is one on the benchmark runtime that a package's
/// code or tests can use.
pub open spec fn is_runtime_dependency(dependency: Dependency) -> bool {
    &&& dependency.name@ == "simplebench-runtime"@ || dependency.name@ == "simplebench_runtime"@
    &&& dependency.kind == DependencyKind::Normal || dependency.kind
        == DependencyKind::Development
}

/// Whether a package depends on the benchmark runtime.
pub open spec fn depends_on_runtime(package: Package) -> bool {
    exists|i: int|
        0 <= i < package.dependencies@.len() && is_runtime_dependency(
            #[trigger] package.dependencies@[i],
        )
}

/// Whether a package holds benchmarks.
pub open spec fn is_benchmark_crate(package: Package) -> bool {
    package.workspace_member && depends_on_runtime(package) && has_library_target(package)
}

/// The names of the packages that hold benchmarks, in their order.
pub open spec fn benchmark_crate_names(packages: Seq<Package>) -> Seq<Seq<char>>
    decreases packages.len(),
{
    if packages.len() == 0 {
        Seq::empty()
    } else if is_benchmark_crate(packages.last()) {
        benchmark_crate_names(packages.drop_last()).push(packages.last().name@)
    } else {
        benchmark_crate_names(packages.drop_last())
    }
}

/// The names of a list of benchmark crates.
pub open spec fn crate_names(crates: Seq<BenchmarkCrate>) -> Seq<Seq<char>> {
    crates.map_values(|c: BenchmarkCrate| c.name@)
}

/// Whether one of the kinds is `kind`.
pub fn kinds_include(kinds: &Vec<String>, kind: &str) -> (r: bool)
    ensures
        r == has_kind(kinds@, kind@),
{
    let mut i: usize = 0;
    while i < kinds.len()
        invariant
            i <= kinds@.len(),
            forall|k: int| 0 <= k < i ==> (#[trigger] kinds@[k])@ != kind@,
        decreases kinds@.len() - i,
    {
        if text_eq(kinds[i].as_str(), kind) {
            return true;
        }
        i += 1;
    }
    false
}

/// Whether a target is a library.
pub fn target_is_library(target: &Target) -> (r: bool)
    ensures
        r == is_library_target(*target),
{
    kinds_include(&target.kinds, "lib") || kinds_include(&target.kinds, "rlib")
}

/// Whether a package has a library target.
pub fn has_lib_target(package: &Package) -> (r: bool)
    ensures
        r == has_library_target(*package),
{
    let mut i: usize = 0;
    while i < package.targets.len()
        invariant
            i <= package.targets@.len(),
            forall|k: int| 0 <= k < i ==> !is_library_target(#[trigger] package.targets@[k]),
        decreases package.targets@.len() - i,
    {
        if target_is_library(&package.targets[i]) {
            return true;
        }
        i += 1;
    }
    false
}

/// Whether a package depends on the benchmark runtime, as a normal or as a
/// development dependency.
pub fn depends_on_simplebench_runtime(package: &Package) -> (r: bool)
    ensures
        r == depends_on_runtime(*package),
{
    let mut i: usize = 0;
    while i < package.dependencies.len()
        invariant
            i <= package.dependencies@.len(),
            forall|k: int|
                0 <= k < i ==> !is_runtime_dependency(#[trigger] package.dependencies@[k]),
        decreases package.dependencies@.len() - i,
    {
        let dependency = &package.dependencies[i];
        let name_matches = text_eq(dependency.name.as_str(), "simplebench-runtime") || text_eq(
            dependency.name.as_str(),
            "simplebench_runtime",
        );
        let kind_ok = match dependency.kind {
            DependencyKind::Normal => true,
            DependencyKind::Development => true,
            DependencyKind::Build => false,
            DependencyKind::Unknown => false,
        };
        if name_matches && kind_ok {
            return true;
        }
        i += 1;
    }
    false
}

/// The workspace with its benchmark crates: the members that depend on the
/// benchmark runtime and have a library target, in the order of `packages`.
pub fn analyze_workspace(target_directory: &str, packages: &Vec<Package>) -> (info: WorkspaceInfo)
    ensures
        info.target_directory@ == target_directory@,
        crate_names(info.benchmark_crates@) == benchmark_crate_names(packages@),
{
    let mut benchmark_crates: Vec<BenchmarkCrate> = Vec::new();
    let mut i: usize = 0;
    assert(packages@.take(0) =~= Seq::empty());
    assert(crate_names(benchmark_crates@) =~= Seq::empty());
    while i < packages.len()
        invariant
            i <= packages@.len(),
            crate_names(benchmark_crates@) == benchmark_crate_names(packages@.take(i as int)),
        decreases packages@.len() - i,
    {
        let package = &packages[i];
        let ghost before = benchmark_crates@;
        proof {
            assert(packages@.take(i + 1).drop_last() =~= packages@.take(i as int));
            assert(packages@.take(i + 1).last() == packages@[i as int]);
        }
        if package.workspace_member && depends_on_simplebench_runtime(package) && has_lib_target(
            package,
        ) {
            benchmark_crates.push(BenchmarkCrate { name: package.name.clone() });
            assert(crate_names(benchmark_crates@) =~= crate_names(before).push(package.name@));
        }
        i += 1;
    }
    assert(packages@.take(i as int) =~= packages@);
    WorkspaceInfo { target_directory: String::from_str(target_directory), benchmark_crates }
}

/// Whether a package has the given name and a library target.
pub open spec fn provides_library(name: Seq<char>) -> spec_fn(Package) -> bool {
    |package: Package| package.name@ == name && has_library_target(package)
}

/// The root source file of the first library target of the first package
/// of the given name that has one, and that package's manifest.
pub fn get_crate_paths(packages: &Vec<Package>, crate_name: &str) -> (paths: Option<
    (String, String),
>)
    ensures
        paths is Some <==> first_where(packages@, provides_library(crate_name@)) is Some,
        paths is Some ==> {
            let package = first_where(packages@, provides_library(crate_name@))->Some_0;
            let target = first_where(package.targets@, |t: Target| is_library_target(t));
            target is Some && paths->Some_0.0@ == target->Some_0.src_path@ && paths->Some_0.1@
                == package.manifest_path@
        },
{
    let ghost wanted = provides_library(crate_name@);
    let mut i: usize = 0;
    while i < packages.len()
        invariant
            i <= packages@.len(),
            wanted == provides_library(crate_name@),
            forall|k: int| 0 <= k < i ==> !wanted(#[trigger] packages@[k]),
        decreases packages@.len() - i,
    {
        let package = &packages[i];
        if text_eq(package.name.as_str(), crate_name) {
            let ghost library = |t: Target| is_library_target(t);
            let mut j: usize = 0;
            while j < package.targets.len()
                invariant
                    j <= package.targets@.len(),
                    i < packages@.len(),
                    package == &packages@[i as int],
                    package.name@ == crate_name@,
                    wanted == provides_library(crate_name@),
                    library == (|t: Target| is_library_target(t)),
                    forall|k: int| 0 <= k < i ==> !wanted(#[trigger] packages@[k]),
                    forall|k: int| 0 <= k < j ==> !library(#[trigger] package.targets@[k]),
                decreases package.targets@.len() - j,
            {
                let target = &package.targets[j];
                if target_is_library(target) {
                    proof {
                        assert(library(package.targets@[j as int]));
                        assert(has_library_target(*package));
                        assert(wanted(packages@[i as int]));
                        lemma_first_where(packages@, wanted, i as int);
                        lemma_first_where(package.targets@, library, j as int);
                    }
                    return Some((target.src_path.clone(), package.manifest_path.clone()));
                }
                j += 1;
            }
            assert(!has_library_target(*package)) by {
                assert forall|k: int| 0 <= k < package.targets@.len() implies !is_library_target(
                    #[trigger] package.targets@[k],
                ) by {
                    assert(!library(package.targets@[k]));
                }
            }
        }
        i += 1;
    }
    proof {
        lemma_first_where(packages@, wanted, packages@.len() as int);
    }
    None
}

} // verus!
