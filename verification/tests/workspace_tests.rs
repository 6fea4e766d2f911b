use simplebench::rlibs::{
    build_extern_args, critical_deps, find_crate_rlib, name_is_critical, names_benchmark,
    opt_level_int, parse_cargo_json, Artifact, ArtifactFile, OptLevel, RlibMap, RlibSelection,
};
use simplebench::workspace::{
    analyze_workspace, depends_on_simplebench_runtime, get_crate_paths, has_lib_target,
    kinds_include, Dependency, DependencyKind, Package, Target,
};

fn names(list: &[&str]) -> Vec<String> {
    list.iter().map(|s| s.to_string()).collect()
}

fn target(kinds: &[&str], src_path: &str) -> Target {
    Target { kinds: names(kinds), src_path: src_path.to_string() }
}

fn dependency(name: &str, kind: DependencyKind) -> Dependency {
    Dependency { name: name.to_string(), kind }
}

fn package(name: &str, member: bool, dependencies: Vec<Dependency>, targets: Vec<Target>) -> Package {
    Package {
        name: name.to_string(),
        manifest_path: format!("/ws/{}/Cargo.toml", name),
        workspace_member: member,
        dependencies,
        targets,
    }
}

fn artifact(name: &str, kinds: &[&str], opt_level: OptLevel, files: &[&str]) -> Artifact {
    Artifact {
        reason: "compiler-artifact".to_string(),
        target_name: name.to_string(),
        target_kinds: names(kinds),
        opt_level,
        files: files
            .iter()
            .map(|path| ArtifactFile {
                path: path.to_string(),
                extension: path.rsplit_once('.').map(|(_, e)| e.to_string()),
            })
            .collect(),
    }
}

fn level(text: &str) -> OptLevel {
    OptLevel::Text(text.to_string())
}

fn map_of(pairs: &[(&str, &str)]) -> RlibMap {
    let mut map = RlibMap::new();
    for (name, path) in pairs {
        map.insert(name.to_string(), path.to_string());
    }
    map
}

fn pairs_of(map: &RlibMap) -> Vec<(String, String)> {
    let mut pairs: Vec<(String, String)> =
        map.entries.iter().map(|e| (e.name.clone(), e.path.clone())).collect();
    pairs.sort();
    pairs
}

fn expected(pairs: &[(&str, &str)]) -> Vec<(String, String)> {
    let mut pairs: Vec<(String, String)> =
        pairs.iter().map(|(n, p)| (n.to_string(), p.to_string())).collect();
    pairs.sort();
    pairs
}

#[test]
fn benchmark_crates_of_a_workspace() {
    let runtime = |kind| vec![dependency("serde", DependencyKind::Normal), dependency("simplebench-runtime", kind)];
    let lib = || vec![target(&["bin"], "src/main.rs"), target(&["lib"], "src/lib.rs")];
    let packages = vec![
        package("with-dev-dep", true, runtime(DependencyKind::Development), lib()),
        package("outsider", false, runtime(DependencyKind::Normal), lib()),
        package("no-runtime", true, vec![dependency("serde", DependencyKind::Normal)], lib()),
        package("binary-only", true, runtime(DependencyKind::Normal), vec![target(&["bin"], "src/main.rs")]),
        package("build-dep", true, runtime(DependencyKind::Build), lib()),
        package(
            "underscored",
            true,
            vec![dependency("simplebench_runtime", DependencyKind::Normal)],
            vec![target(&["cdylib", "rlib"], "src/lib.rs")],
        ),
    ];
    let info = analyze_workspace("/ws/target", &packages);
    assert_eq!(info.target_directory, "/ws/target");
    let found: Vec<String> = info.benchmark_crates.iter().map(|c| c.name.clone()).collect();
    assert_eq!(found, names(&["with-dev-dep", "underscored"]));
    assert!(analyze_workspace("/ws/target", &Vec::new()).benchmark_crates.is_empty());

    assert!(depends_on_simplebench_runtime(&packages[0]));
    assert!(!depends_on_simplebench_runtime(&packages[2]));
    assert!(!depends_on_simplebench_runtime(&packages[4]));
    assert!(has_lib_target(&packages[0]));
    assert!(!has_lib_target(&packages[3]));
    assert!(has_lib_target(&packages[5]));
    assert!(kinds_include(&names(&["bin", "lib"]), "lib"));
    assert!(!kinds_include(&names(&["bin", "lib"]), "rlib"));
    assert!(!kinds_include(&Vec::new(), "lib"));
}

#[test]
fn source_and_manifest_of_a_crate() {
    let packages = vec![
        package("other", true, vec![], vec![target(&["lib"], "/ws/other/src/lib.rs")]),
        package("wanted", true, vec![], vec![target(&["bin"], "/ws/wanted/src/main.rs")]),
        package(
            "wanted",
            true,
            vec![],
            vec![
                target(&["test"], "/ws/wanted/tests/t.rs"),
                target(&["rlib"], "/ws/wanted/src/first.rs"),
                target(&["lib"], "/ws/wanted/src/second.rs"),
            ],
        ),
    ];
    assert_eq!(
        get_crate_paths(&packages, "wanted"),
        Some(("/ws/wanted/src/first.rs".to_string(), "/ws/wanted/Cargo.toml".to_string()))
    );
    assert_eq!(
        get_crate_paths(&packages, "other"),
        Some(("/ws/other/src/lib.rs".to_string(), "/ws/other/Cargo.toml".to_string()))
    );
    assert_eq!(get_crate_paths(&packages, "missing"), None);
    assert_eq!(get_crate_paths(&packages[..2].to_vec(), "wanted"), None);
}

#[test]
fn optimisation_levels() {
    assert_eq!(opt_level_int(&level("3")), 3);
    assert_eq!(opt_level_int(&level("0")), 0);
    assert_eq!(opt_level_int(&level("+2")), 2);
    assert_eq!(opt_level_int(&level("s")), 0);
    assert_eq!(opt_level_int(&level("")), 0);
    assert_eq!(opt_level_int(&level("4294967295")), u32::MAX);
    assert_eq!(opt_level_int(&level("4294967296")), 0);
    assert_eq!(opt_level_int(&OptLevel::Number(3)), 3);
    assert_eq!(opt_level_int(&OptLevel::Number(4_294_967_296 + 3)), 3);
    assert_eq!(opt_level_int(&OptLevel::Other), 0);
}

#[test]
fn libraries_are_collected_from_the_artifacts() {
    let mut not_an_artifact = artifact("serde", &["lib"], level("3"), &["/t/libserde-9.rlib"]);
    not_an_artifact.reason = "build-script-executed".to_string();
    let artifacts = vec![
        artifact("serde", &["lib"], level("3"), &["/t/libserde-1.rmeta", "/t/libserde-1.rlib", "/t/libserde-1.so"]),
        not_an_artifact,
        artifact("build-script-build", &["custom-build"], level("3"), &["/t/build.rlib"]),
        artifact("my-bench", &["lib"], level("3"), &["/t/libmy_bench-1.rlib"]),
        artifact("debug-dep", &["lib"], level("0"), &["/t/libdebug_dep-1.rlib"]),
        artifact("a-macro", &["proc-macro"], level("0"), &["/t/liba_macro-1.so"]),
        artifact("a-binary", &["bin"], level("3"), &["/t/a_binary.rlib"]),
        artifact("no-files", &["lib"], level("3"), &["/t/libno_files-1.rmeta", "/t/noext"]),
        artifact("simplebench-runtime", &["rlib"], OptLevel::Number(3), &["/t/libsimplebench_runtime-1.rlib"]),
        artifact("inventory", &["lib"], level("3"), &["/t/libinventory-1.rlib"]),
        artifact("serde", &["lib"], level("3"), &["/t/libserde-2.rlib"]),
    ];
    let (rlibs, critical) = parse_cargo_json(&artifacts, "my-bench");
    assert_eq!(
        pairs_of(&rlibs),
        expected(&[
            ("serde", "/t/libserde-2.rlib"),
            ("a_macro", "/t/liba_macro-1.so"),
            ("simplebench_runtime", "/t/libsimplebench_runtime-1.rlib"),
            ("inventory", "/t/libinventory-1.rlib"),
        ])
    );
    assert_eq!(
        pairs_of(&critical),
        expected(&[
            ("simplebench_runtime", "/t/libsimplebench_runtime-1.rlib"),
            ("inventory", "/t/libinventory-1.rlib"),
        ])
    );
    assert_eq!(pairs_of(&critical_deps(&rlibs)), pairs_of(&critical));
    let (none, no_critical) = parse_cargo_json(&Vec::new(), "my-bench");
    assert_eq!(none.len(), 0);
    assert_eq!(no_critical.len(), 0);
    assert!(name_is_critical("inventory"));
    assert!(name_is_critical("simplebench_runtime"));
    assert!(!name_is_critical("simplebench-runtime"));
    assert!(!name_is_critical("serde"));
}

#[test]
fn a_map_holds_each_name_once() {
    let mut map = RlibMap::new();
    assert_eq!(map.len(), 0);
    assert!(map.get("a").is_none());
    assert!(!map.contains_key("a"));
    map.insert("a".to_string(), "1".to_string());
    map.insert("b".to_string(), "2".to_string());
    map.insert("a".to_string(), "3".to_string());
    assert_eq!(map.len(), 2);
    assert_eq!(map.get("a"), Some(&"3".to_string()));
    assert_eq!(map.get("b"), Some(&"2".to_string()));
    assert!(map.contains_key("b"));
    assert!(!map.contains_key("c"));
    map.extend(&map_of(&[("b", "4"), ("c", "5")]));
    assert_eq!(pairs_of(&map), expected(&[("a", "3"), ("b", "4"), ("c", "5")]));
}

#[test]
fn arguments_for_the_compiler() {
    let map = map_of(&[("serde", "/t/libserde.rlib"), ("a_macro", "/t/liba_macro.so")]);
    assert_eq!(
        build_extern_args(&map),
        names(&["--extern", "serde=/t/libserde.rlib", "--extern", "a_macro=/t/liba_macro.so"])
    );
    assert!(build_extern_args(&RlibMap::new()).is_empty());
}

#[test]
fn the_first_build_of_a_critical_crate_stays() {
    let benchmark_crates = names(&["first-bench", "second-bench"]);
    let mut selection = RlibSelection::new();

    // The build of the first benchmark crate.
    let first = map_of(&[
        ("serde", "/t/libserde-1.rlib"),
        ("simplebench_runtime", "/t/libsimplebench_runtime-1.rlib"),
        ("inventory", "/t/libinventory-1.rlib"),
    ]);
    let conflicts = selection.track_critical(&critical_deps(&first));
    assert!(conflicts.is_empty());
    assert_eq!(pairs_of(&selection.compile_inputs(&first)), pairs_of(&first));
    selection.merge(&benchmark_crates, &first, "first_bench".to_string(), "/t/libfirst_bench.rlib".to_string());
    assert_eq!(
        pairs_of(&selection.all),
        expected(&[("serde", "/t/libserde-1.rlib"), ("first_bench", "/t/libfirst_bench.rlib")])
    );

    // The build of the second, which depends on the first and has another
    // build of the runtime.
    let second = map_of(&[
        ("serde", "/t/libserde-2.rlib"),
        ("first_bench", "/t/libfirst_bench-abc.rlib"),
        ("simplebench_runtime", "/t/libsimplebench_runtime-2.rlib"),
        ("inventory", "/t/libinventory-1.rlib"),
        ("rand", "/t/librand-1.rlib"),
    ]);
    let conflicts = selection.track_critical(&critical_deps(&second));
    assert_eq!(conflicts.len(), 1);
    assert_eq!(conflicts[0].name, "simplebench_runtime");
    assert_eq!(conflicts[0].expected, "/t/libsimplebench_runtime-1.rlib");
    assert_eq!(conflicts[0].found, "/t/libsimplebench_runtime-2.rlib");
    assert_eq!(
        pairs_of(&selection.compile_inputs(&second)),
        expected(&[
            ("serde", "/t/libserde-2.rlib"),
            ("first_bench", "/t/libfirst_bench-abc.rlib"),
            ("simplebench_runtime", "/t/libsimplebench_runtime-1.rlib"),
            ("inventory", "/t/libinventory-1.rlib"),
            ("rand", "/t/librand-1.rlib"),
        ])
    );
    selection.merge(&benchmark_crates, &second, "second_bench".to_string(), "/t/libsecond_bench.rlib".to_string());
    let rlibs = selection.finish();
    assert_eq!(
        pairs_of(&rlibs),
        expected(&[
            ("serde", "/t/libserde-2.rlib"),
            ("first_bench", "/t/libfirst_bench.rlib"),
            ("second_bench", "/t/libsecond_bench.rlib"),
            ("rand", "/t/librand-1.rlib"),
            ("simplebench_runtime", "/t/libsimplebench_runtime-1.rlib"),
            ("inventory", "/t/libinventory-1.rlib"),
        ])
    );
    assert!(names_benchmark(&benchmark_crates, "first_bench"));
    assert!(!names_benchmark(&benchmark_crates, "first-bench"));
    assert!(!names_benchmark(&benchmark_crates, "serde"));
}

#[test]
fn the_library_of_a_crate_among_the_files() {
    let files = names(&[
        "libmy_bench_extra-1234.rlib",
        "libmy_bench-1234.rmeta",
        "libmy_bench-1234.rlib",
        "libmy_bench-5678.rlib",
        "libother-1.rlib",
    ]);
    assert_eq!(find_crate_rlib(true, &files, "my_bench"), Some("libmy_bench.rlib".to_string()));
    assert_eq!(find_crate_rlib(true, &Vec::new(), "my_bench"), Some("libmy_bench.rlib".to_string()));
    assert_eq!(find_crate_rlib(false, &files, "my_bench"), Some("libmy_bench-1234.rlib".to_string()));
    assert_eq!(find_crate_rlib(false, &files, "other"), Some("libother-1.rlib".to_string()));
    assert_eq!(find_crate_rlib(false, &files, "missing"), None);
    assert_eq!(find_crate_rlib(false, &files, "my_bench_extra-1234.rlib"), None);
}
