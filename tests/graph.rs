use ruxgo::config::{ArtifactKind, TargetConfig};
use ruxgo::fingerprint::FingerprintMap;
use ruxgo::target::{ConfigError, Target};

fn tcfg(name: &str, kind: ArtifactKind, deps: &[&str]) -> TargetConfig {
    TargetConfig {
        name: name.to_string(),
        kind,
        src: format!("./{}", name),
        src_only: Vec::new(),
        src_exclude: Vec::new(),
        include_dir: vec![format!("./{}/include", name)],
        cflags: String::new(),
        ldflags: String::new(),
        linker: String::new(),
        archive: "ar rcs".to_string(),
        deps: deps.iter().map(|d| d.to_string()).collect(),
    }
}

#[test]
fn builds_graph_with_paths() {
    let targets = vec![
        tcfg("libfoo", ArtifactKind::SharedLibrary, &[]),
        tcfg("libbar", ArtifactKind::StaticArchive, &[]),
        tcfg("app", ArtifactKind::Executable, &["libfoo", "libbar"]),
    ];
    let t = Target::new(&targets[2], &targets).unwrap();
    assert_eq!(t.bin_path, "ruxgo_bld/bin/app.bin");
    assert_eq!(t.elf_path, "ruxgo_bld/bin/app.elf");
    assert_eq!(t.hash_file_path, "ruxgo_bld/app.linux.hash");
    assert_eq!(t.dependant_libs.len(), 2);
    assert_eq!(t.dependant_libs[0].bin_path, "ruxgo_bld/bin/libfoo.so");
    assert_eq!(t.dependant_libs[0].elf_path, "");
    assert_eq!(t.dependant_libs[1].bin_path, "ruxgo_bld/bin/libbar.a");
    assert!(t.srcs.is_empty());
    assert!(t.dependant_libs[0].srcs.is_empty());
}

#[test]
fn executable_dependency_rejected() {
    let targets = vec![tcfg("tool", ArtifactKind::Executable, &[]), tcfg("app", ArtifactKind::Executable, &["tool"])];
    match Target::new(&targets[1], &targets) {
        Err(ConfigError::WrongDependencyKind { name, kind }) => {
            assert_eq!(name, "tool");
            assert_eq!(kind, ArtifactKind::Executable);
        }
        other => panic!("unexpected: {:?}", other),
    }
}

#[test]
fn shared_dependency_without_prefix_rejected() {
    let targets = vec![tcfg("foo", ArtifactKind::SharedLibrary, &[]), tcfg("app", ArtifactKind::Executable, &["foo"])];
    match Target::new(&targets[1], &targets) {
        Err(ConfigError::SharedLibraryName { name }) => assert_eq!(name, "foo"),
        other => panic!("unexpected: {:?}", other),
    }
}

#[test]
fn missing_dependency_lists_requested_and_found() {
    let targets = vec![
        tcfg("libfoo", ArtifactKind::StaticArchive, &[]),
        tcfg("tool", ArtifactKind::Executable, &[]),
        tcfg("app", ArtifactKind::Executable, &["libfoo", "libnope"]),
    ];
    match Target::new(&targets[2], &targets) {
        Err(ConfigError::MissingDependencies { requested, found }) => {
            assert_eq!(requested, vec!["libfoo", "libnope"]);
            assert_eq!(found, vec!["libfoo"]);
        }
        other => panic!("unexpected: {:?}", other),
    }
}

#[test]
fn dependency_cycle_rejected() {
    let targets = vec![
        tcfg("liba", ArtifactKind::StaticArchive, &["libb"]),
        tcfg("libb", ArtifactKind::StaticArchive, &["liba"]),
    ];
    assert!(matches!(Target::new(&targets[0], &targets), Err(ConfigError::DependencyCycle { .. })));
}

#[test]
fn errors_below_come_first() {
    let targets = vec![
        tcfg("foo", ArtifactKind::SharedLibrary, &[]),
        tcfg("libmid", ArtifactKind::StaticArchive, &["foo"]),
        tcfg("app", ArtifactKind::Executable, &["libmid"]),
    ];
    match Target::new(&targets[2], &targets) {
        Err(ConfigError::SharedLibraryName { name }) => assert_eq!(name, "foo"),
        other => panic!("unexpected: {:?}", other),
    }
}

#[test]
fn unresolved_name_reported_before_deeper_errors() {
    let targets = vec![
        tcfg("foo", ArtifactKind::SharedLibrary, &[]),
        tcfg("libmid", ArtifactKind::StaticArchive, &["foo"]),
        tcfg("app", ArtifactKind::Executable, &["libmid", "libnope"]),
    ];
    assert!(matches!(Target::new(&targets[2], &targets), Err(ConfigError::MissingDependencies { .. })));
}

#[test]
fn name_matching_two_targets_rejected() {
    let targets = vec![
        tcfg("liba", ArtifactKind::StaticArchive, &[]),
        tcfg("liba", ArtifactKind::StaticArchive, &[]),
        tcfg("app", ArtifactKind::Executable, &["liba"]),
    ];
    match Target::new(&targets[2], &targets) {
        Err(ConfigError::MissingDependencies { requested, found }) => {
            assert_eq!(requested, vec!["liba"]);
            assert_eq!(found, vec!["liba", "liba"]);
        }
        other => panic!("unexpected: {:?}", other),
    }
}

#[test]
fn source_names_and_filters() {
    assert_eq!(Target::get_src_name("src/dir/main.test.c"), "main");
    assert_eq!(Target::get_src_name("main.cpp"), "main");
    let mut cfg = tcfg("app", ArtifactKind::Executable, &[]);
    cfg.src_exclude = vec!["tests".to_string()];
    cfg.src_only = vec!["core".to_string()];
    let targets = vec![cfg];
    let t = Target::new(&targets[0], &targets).unwrap();
    assert_eq!(t.get_src_obj_name("main"), "ruxgo_bld/obj_linux/app-main.o");
    assert!(t.should_exclude("src/tests/a.c"));
    assert!(t.should_include("src/core/a.c"));
    assert!(!t.should_include("src/misc/a.c"));
    assert!(t.accepts_source("src/core/a.c", true));
    assert!(t.accepts_source("src/core/a.cpp", true));
    assert!(!t.accepts_source("src/core/a.h", true));
    assert!(!t.accepts_source("src/core/a.c", false));
    assert!(!t.accepts_source("src/tests/core/a.c", true));
    assert!(!t.accepts_source("src/core/.c", true));
}

fn map(entries: &[(&str, &str)]) -> FingerprintMap {
    let mut m = FingerprintMap::new();
    for (p, h) in entries {
        m.record(p, h);
    }
    m
}

#[test]
fn add_src_derives_names() {
    let targets = vec![tcfg("app", ArtifactKind::Executable, &[])];
    let mut t = Target::new(&targets[0], &targets).unwrap();
    t.add_src("app/src/main.c".to_string(), vec!["app/include/a.h".to_string()]);
    assert_eq!(t.srcs[0].name, "main");
    assert_eq!(t.srcs[0].obj_name, "ruxgo_bld/obj_linux/app-main.o");
    assert_eq!(t.srcs[0].dependant_includes, vec!["app/include/a.h"]);
}

// One static archive with two sources and no headers: the first build
// compiles both and archives; a second run with nothing changed does nothing.
#[test]
fn static_archive_builds_then_stays_up_to_date() {
    let targets = vec![tcfg("libx", ArtifactKind::StaticArchive, &[])];
    let mut t = Target::new(&targets[0], &targets).unwrap();
    t.add_src("libx/a.c".to_string(), Vec::new());
    t.add_src("libx/b.c".to_string(), Vec::new());
    let current = map(&[("libx/a.c", "h1"), ("libx/b.c", "h2")]);
    let mut stored = FingerprintMap::new();
    let plan = t.plan(&vec![false, false], &current, &stored, false);
    assert_eq!(plan.compile, vec![0, 1]);
    assert!(plan.relink);
    assert_eq!(
        t.link_static(),
        "ar rcs  ruxgo_bld/bin/libx.a ruxgo_bld/obj_linux/libx-a.o ruxgo_bld/obj_linux/libx-b.o"
    );
    t.record_fingerprints(&mut stored, &current, &plan.compile, plan.relink);
    let again = t.plan(&vec![true, true], &current, &stored, false);
    assert!(again.compile.is_empty());
    assert!(!again.relink);
}

// Three sources, one header included by exactly one of them: changing the
// header recompiles that one source and relinks.
#[test]
fn header_change_recompiles_one_source() {
    let targets = vec![tcfg("app", ArtifactKind::Executable, &[])];
    let mut t = Target::new(&targets[0], &targets).unwrap();
    t.add_src("app/a.c".to_string(), Vec::new());
    t.add_src("app/b.c".to_string(), vec!["app/include/b.h".to_string()]);
    t.add_src("app/c.c".to_string(), Vec::new());
    let v1 = map(&[("app/a.c", "1"), ("app/b.c", "2"), ("app/c.c", "3"), ("app/include/b.h", "4")]);
    let mut stored = FingerprintMap::new();
    let first = t.plan(&vec![false, false, false], &v1, &stored, false);
    t.record_fingerprints(&mut stored, &v1, &first.compile, first.relink);
    assert_eq!(stored.lookup("app/include/b.h").map(|s| s.as_str()), Some("4"));
    let v2 = map(&[("app/a.c", "1"), ("app/b.c", "2"), ("app/c.c", "3"), ("app/include/b.h", "5")]);
    let second = t.plan(&vec![true, true, true], &v2, &stored, false);
    assert_eq!(second.compile, vec![1]);
    assert!(second.relink);
}

#[test]
fn aggregate_target_always_relinks() {
    let targets = vec![tcfg("liba", ArtifactKind::StaticArchive, &[]), tcfg("all", ArtifactKind::RelocatableObject, &["liba"])];
    let t = Target::new(&targets[1], &targets).unwrap();
    let m = FingerprintMap::new();
    let plan = t.plan(&Vec::new(), &m, &m, false);
    assert!(plan.compile.is_empty());
    assert!(plan.relink);
}

#[test]
fn forced_relink() {
    let targets = vec![tcfg("app", ArtifactKind::Executable, &[])];
    let t = Target::new(&targets[0], &targets).unwrap();
    let m = FingerprintMap::new();
    assert!(!t.plan(&Vec::new(), &m, &m, false).relink);
    assert!(t.plan(&Vec::new(), &m, &m, true).relink);
}

#[test]
fn headers_recorded_only_when_linked() {
    let targets = vec![tcfg("app", ArtifactKind::Executable, &[])];
    let mut t = Target::new(&targets[0], &targets).unwrap();
    t.add_src("app/a.c".to_string(), vec!["app/a.h".to_string()]);
    let current = map(&[("app/a.c", "1"), ("app/a.h", "2")]);
    let mut stored = FingerprintMap::new();
    t.record_fingerprints(&mut stored, &current, &vec![0], false);
    assert_eq!(stored.lookup("app/a.c").map(|s| s.as_str()), Some("1"));
    assert_eq!(stored.lookup("app/a.h"), None);
    t.record_fingerprints(&mut stored, &current, &Vec::new(), true);
    assert_eq!(stored.lookup("app/a.h").map(|s| s.as_str()), Some("2"));
}
