//! Targets: construction of the dependency graph with its validation, the
//! sources of a target, and the target-level relink decision.
use vstd::prelude::*;
use crate::config::{ArtifactKind, TargetConfig, copy_texts, views, lemma_views_push};
use crate::source::{RebuildReason, Src, lemma_stable_source_not_rebuilt};
use crate::fingerprint::FingerprintMap;
use crate::text::{contains_seq, contains_text, ends_with_seq, has_prefix, has_suffix, same_text, starts_with_seq};

verus! {

/// Where everything the build produces is kept.
pub const BUILD_DIR: &'static str = "ruxgo_bld";
/// Where the artifacts of targets are written.
pub const BIN_DIR: &'static str = "ruxgo_bld/bin";
/// Where object files are written.
pub const OBJ_DIR: &'static str = "ruxgo_bld/obj_linux";

/// A buildable unit, owning its sources and the targets it depends on.
#[derive(Debug)]
pub struct Target {
    pub config: TargetConfig,
    pub srcs: Vec<Src>,
    pub bin_path: String,
    pub elf_path: String,
    pub hash_file_path: String,
    pub dependant_libs: Vec<Target>,
}

/// What a build of a target has to do: the sources to compile, by index in
/// increasing order, and whether the target is linked again.
#[derive(Debug)]
pub struct BuildPlan {
    pub compile: Vec<usize>,
    pub relink: bool,
}

/// Whether `k` is the path of one of the sources at the indices `compiled`.
pub open spec fn compiled_path(srcs: Seq<Src>, compiled: Seq<usize>, k: Seq<char>) -> bool {
    exists|j: int| 0 <= j < compiled.len() && compiled[j] < srcs.len() && #[trigger] srcs[compiled[j] as int].path@ == k
}

/// Whether `k` is a header in the include closure of one of `srcs`.
pub open spec fn included_header(srcs: Seq<Src>, k: Seq<char>) -> bool {
    exists|a: int, b: int|
        0 <= a < srcs.len() && 0 <= b < srcs[a].dependant_includes@.len() && #[trigger] srcs[a].dependant_includes@[b]@ == k
}

/// The recorded fingerprint of `k` after a build: the current one for the
/// compiled sources and, when the target is linked, for every header of
/// every source's include closure, provided the file has a current one.
pub open spec fn recorded_after(
    srcs: Seq<Src>,
    compiled: Seq<usize>,
    linked: bool,
    current: FingerprintMap,
    stored: FingerprintMap,
    k: Seq<char>,
) -> Option<Seq<char>> {
    if (compiled_path(srcs, compiled, k) || (linked && included_header(srcs, k))) && current.get(k).is_some() {
        current.get(k)
    } else {
        stored.get(k)
    }
}

spec fn included_header_upto(srcs: Seq<Src>, a: int, b: int, k: Seq<char>) -> bool {
    exists|x: int, y: int|
        0 <= x < srcs.len() && 0 <= y < srcs[x].dependant_includes@.len() && (x < a || (x == a && y < b))
            && #[trigger] srcs[x].dependant_includes@[y]@ == k
}

/// Records the current fingerprint of `path`, when it has one.
pub fn record_current(stored: &mut FingerprintMap, current: &FingerprintMap, path: &str)
    ensures
        forall|k: Seq<char>|
            #![trigger final(stored).get(k)]
            final(stored).get(k) == if k == path@ && current.get(k).is_some() {
                current.get(k)
            } else {
                old(stored).get(k)
            },
{
    match current.lookup(path) {
        Some(h) => stored.record(path, h.as_str()),
        None => {},
    }
}

/// A violation of the rules that the dependency graph must obey.
#[derive(Debug)]
pub enum ConfigError {
    /// A dependency is an executable, which nothing can link against.
    WrongDependencyKind { name: String, kind: ArtifactKind },
    /// A shared-library dependency whose name lacks the `lib` prefix.
    SharedLibraryName { name: String },
    /// A dependency name resolves to no declared target, or to more than
    /// one: each must name exactly one.
    MissingDependencies { requested: Vec<String>, found: Vec<String> },
    /// A chain of dependencies deeper than the number of declared targets,
    /// which cannot be acyclic.
    DependencyCycle { name: String },
}

/// What a `ConfigError` says, over plain values.
pub enum ConfigErrorView {
    WrongDependencyKind(Seq<char>, ArtifactKind),
    SharedLibraryName(Seq<char>),
    MissingDependencies(Seq<Seq<char>>, Seq<Seq<char>>),
    DependencyCycle(Seq<char>),
}

impl ConfigError {
    pub open spec fn view(&self) -> ConfigErrorView {
        match self {
            ConfigError::WrongDependencyKind { name, kind } => ConfigErrorView::WrongDependencyKind(name@, *kind),
            ConfigError::SharedLibraryName { name } => ConfigErrorView::SharedLibraryName(name@),
            ConfigError::MissingDependencies { requested, found } => ConfigErrorView::MissingDependencies(
                views(requested@),
                views(found@),
            ),
            ConfigError::DependencyCycle { name } => ConfigErrorView::DependencyCycle(name@),
        }
    }
}

/// The file extension of an artifact of each kind.
pub open spec fn artifact_ext(kind: ArtifactKind) -> Seq<char> {
    match kind {
        ArtifactKind::Executable => ".bin"@,
        ArtifactKind::SharedLibrary => ".so"@,
        ArtifactKind::StaticArchive => ".a"@,
        ArtifactKind::RelocatableObject => ".o"@,
    }
}

/// Where a target's artifact is written.
pub open spec fn bin_path_of(name: Seq<char>, kind: ArtifactKind) -> Seq<char> {
    "ruxgo_bld/bin"@ + "/"@ + name + artifact_ext(kind)
}

/// Where an executable's linked image is written before the raw binary is
/// extracted from it; empty for the other kinds.
pub open spec fn elf_path_of(name: Seq<char>, kind: ArtifactKind) -> Seq<char> {
    if kind == ArtifactKind::Executable {
        "ruxgo_bld/bin"@ + "/"@ + name + ".elf"@
    } else {
        Seq::empty()
    }
}

/// Where a target's fingerprints are persisted.
pub open spec fn hash_file_of(name: Seq<char>) -> Seq<char> {
    "ruxgo_bld"@ + "/"@ + name + ".linux.hash"@
}

/// The declared targets named `name`, in order.
pub open spec fn matches_of(targets: Seq<TargetConfig>, name: Seq<char>) -> Seq<TargetConfig>
    decreases targets.len(),
{
    if targets.len() == 0 {
        Seq::empty()
    } else {
        let r = matches_of(targets.drop_last(), name);
        if targets.last().name@ == name {
            r.push(targets.last())
        } else {
            r
        }
    }
}

/// The targets that a list of dependency names resolves to, in order.
pub open spec fn resolved(targets: Seq<TargetConfig>, deps: Seq<String>) -> Seq<TargetConfig>
    decreases deps.len(),
{
    if deps.len() == 0 {
        Seq::empty()
    } else {
        resolved(targets, deps.drop_last()) + matches_of(targets, deps.last()@)
    }
}

/// The names of the declared targets that can be depended on.
pub open spec fn library_names(targets: Seq<TargetConfig>) -> Seq<Seq<char>>
    decreases targets.len(),
{
    if targets.len() == 0 {
        Seq::empty()
    } else {
        let r = library_names(targets.drop_last());
        if targets.last().kind != ArtifactKind::Executable {
            r.push(targets.last().name@)
        } else {
            r
        }
    }
}

/// The error that one resolved dependency raises by itself, if any.
pub open spec fn dependency_error(d: TargetConfig) -> Option<ConfigErrorView> {
    if d.kind == ArtifactKind::Executable {
        Some(ConfigErrorView::WrongDependencyKind(d.name@, d.kind))
    } else if d.kind == ArtifactKind::SharedLibrary && !starts_with_seq(d.name@, "lib"@) {
        Some(ConfigErrorView::SharedLibraryName(d.name@))
    } else {
        None
    }
}

/// The first error that a dependency of `s` raises by itself.
pub open spec fn first_dependency_error(s: Seq<TargetConfig>) -> Option<ConfigErrorView>
    decreases s.len(),
{
    if s.len() == 0 {
        None
    } else {
        match first_dependency_error(s.drop_last()) {
            Some(e) => Some(e),
            None => dependency_error(s.last()),
        }
    }
}

/// Whether each dependency name resolves to exactly one declared target.
pub open spec fn resolves_uniquely(targets: Seq<TargetConfig>, deps: Seq<String>) -> bool {
    forall|i: int| 0 <= i < deps.len() ==> (#[trigger] matches_of(targets, deps[i]@)).len() == 1
}

/// The first error met while building the graph below `cfg`, with `fuel`
/// levels of depth left: the resolution of each dependency name to exactly
/// one target, then the dependencies' own graphs in order, then the checks
/// of each resolved dependency.
pub open spec fn graph_error(targets: Seq<TargetConfig>, cfg: TargetConfig, fuel: nat) -> Option<ConfigErrorView>
    decreases fuel, 0nat,
{
    if fuel == 0 {
        Some(ConfigErrorView::DependencyCycle(cfg.name@))
    } else if !resolves_uniquely(targets, cfg.deps@) {
        Some(ConfigErrorView::MissingDependencies(views(cfg.deps@), library_names(targets)))
    } else {
        let s = resolved(targets, cfg.deps@);
        match subgraph_error(targets, s, (fuel - 1) as nat) {
            Some(e) => Some(e),
            None => first_dependency_error(s),
        }
    }
}

proof fn lemma_resolved_len(targets: Seq<TargetConfig>, deps: Seq<String>)
    requires
        resolves_uniquely(targets, deps),
    ensures
        resolved(targets, deps).len() == deps.len(),
    decreases deps.len(),
{
    if deps.len() > 0 {
        let d = deps.drop_last();
        assert forall|i: int| 0 <= i < d.len() implies (#[trigger] matches_of(targets, d[i]@)).len() == 1 by {
            assert(d[i] == deps[i]);
        }
        lemma_resolved_len(targets, d);
        assert(matches_of(targets, deps[deps.len() - 1]@).len() == 1);
    }
}

/// The first error met while building the graph of each of `s`, in order.
pub open spec fn subgraph_error(targets: Seq<TargetConfig>, s: Seq<TargetConfig>, fuel: nat) -> Option<ConfigErrorView>
    decreases fuel, s.len() + 1,
{
    if s.len() == 0 {
        None
    } else {
        match subgraph_error(targets, s.drop_last(), fuel) {
            Some(e) => Some(e),
            None => graph_error(targets, s.last(), fuel),
        }
    }
}

proof fn lemma_matches_prefix(targets: Seq<TargetConfig>, name: Seq<char>, j: int)
    requires
        0 <= j <= targets.len(),
    ensures
        matches_of(targets.subrange(0, j), name).len() <= matches_of(targets, name).len(),
        matches_of(targets, name).subrange(0, matches_of(targets.subrange(0, j), name).len() as int)
            == matches_of(targets.subrange(0, j), name),
    decreases targets.len(),
{
    if j == targets.len() {
        assert(targets.subrange(0, j) =~= targets);
        assert(matches_of(targets, name).subrange(0, matches_of(targets, name).len() as int) =~= matches_of(targets, name));
    } else {
        assert(targets.drop_last().subrange(0, j) =~= targets.subrange(0, j));
        lemma_matches_prefix(targets.drop_last(), name, j);
        let a = matches_of(targets.subrange(0, j), name);
        let b = matches_of(targets.drop_last(), name);
        assert(matches_of(targets, name).subrange(0, a.len() as int) =~= b.subrange(0, a.len() as int));
    }
}

proof fn lemma_resolved_prefix(targets: Seq<TargetConfig>, deps: Seq<String>, i: int)
    requires
        0 <= i <= deps.len(),
    ensures
        resolved(targets, deps.subrange(0, i)).len() <= resolved(targets, deps).len(),
        resolved(targets, deps).subrange(0, resolved(targets, deps.subrange(0, i)).len() as int)
            == resolved(targets, deps.subrange(0, i)),
    decreases deps.len(),
{
    if i == deps.len() {
        assert(deps.subrange(0, i) =~= deps);
        assert(resolved(targets, deps).subrange(0, resolved(targets, deps).len() as int) =~= resolved(targets, deps));
    } else {
        assert(deps.drop_last().subrange(0, i) =~= deps.subrange(0, i));
        lemma_resolved_prefix(targets, deps.drop_last(), i);
        let a = resolved(targets, deps.subrange(0, i));
        let b = resolved(targets, deps.drop_last());
        assert(resolved(targets, deps).subrange(0, a.len() as int) =~= b.subrange(0, a.len() as int));
    }
}

proof fn lemma_subgraph_error_prefix(targets: Seq<TargetConfig>, s: Seq<TargetConfig>, n: int, fuel: nat)
    requires
        0 <= n <= s.len(),
        subgraph_error(targets, s.subrange(0, n), fuel).is_some(),
    ensures
        subgraph_error(targets, s, fuel) == subgraph_error(targets, s.subrange(0, n), fuel),
    decreases s.len(),
{
    if n == s.len() {
        assert(s.subrange(0, n) =~= s);
    } else {
        assert(s.drop_last().subrange(0, n) =~= s.subrange(0, n));
        lemma_subgraph_error_prefix(targets, s.drop_last(), n, fuel);
    }
}

proof fn lemma_dependency_error_prefix(s: Seq<TargetConfig>, n: int)
    requires
        0 <= n <= s.len(),
        first_dependency_error(s.subrange(0, n)).is_some(),
    ensures
        first_dependency_error(s) == first_dependency_error(s.subrange(0, n)),
    decreases s.len(),
{
    if n == s.len() {
        assert(s.subrange(0, n) =~= s);
    } else {
        assert(s.drop_last().subrange(0, n) =~= s.subrange(0, n));
        lemma_dependency_error_prefix(s.drop_last(), n);
    }
}

/// The position just past the last `/` of `p`, or 0 when there is none.
pub open spec fn file_start(p: Seq<char>) -> int
    decreases p.len(),
{
    if p.len() == 0 {
        0
    } else if p.last() == '/' {
        p.len() as int
    } else {
        file_start(p.drop_last())
    }
}

/// The position of the first `.` of `f`, or its length when there is none.
pub open spec fn first_dot(f: Seq<char>) -> int
    decreases f.len(),
{
    if f.len() == 0 {
        0
    } else {
        let d = first_dot(f.drop_last());
        if d < f.len() - 1 {
            d
        } else if f.last() == '.' {
            f.len() - 1
        } else {
            f.len() as int
        }
    }
}

proof fn lemma_file_start_bounds(p: Seq<char>)
    ensures
        0 <= file_start(p) <= p.len(),
    decreases p.len(),
{
    if p.len() > 0 {
        lemma_file_start_bounds(p.drop_last());
    }
}

proof fn lemma_first_dot_bounds(f: Seq<char>)
    ensures
        0 <= first_dot(f) <= f.len(),
    decreases f.len(),
{
    if f.len() > 0 {
        lemma_first_dot_bounds(f.drop_last());
    }
}

/// The name of a source file: its file name up to the first `.`.
pub open spec fn src_name_of(p: Seq<char>) -> Seq<char> {
    let f = p.subrange(file_start(p), p.len() as int);
    f.subrange(0, first_dot(f))
}

/// The object file that a source of the named target compiles to.
pub open spec fn obj_name_of(target: Seq<char>, src_name: Seq<char>) -> Seq<char> {
    "ruxgo_bld/obj_linux"@ + "/"@ + target + "-"@ + src_name + ".o"@
}

/// Whether a path is excluded by one of the exclusion patterns.
pub open spec fn excluded_by(patterns: Seq<String>, p: Seq<char>) -> bool {
    exists|i: int| 0 <= i < patterns.len() && contains_seq(p, #[trigger] patterns[i]@)
}

/// Whether a file passes the inclusion patterns: all pass when there are none.
pub open spec fn included_by(patterns: Seq<String>, p: Seq<char>) -> bool {
    patterns.len() == 0 || exists|i: int| 0 <= i < patterns.len() && contains_seq(p, #[trigger] patterns[i]@)
}

/// Whether a path names a C or C++ source by its extension.
pub open spec fn is_c_source(p: Seq<char>) -> bool {
    let f = p.subrange(file_start(p), p.len() as int);
    ends_with_seq(f, ".c"@) && f.len() > 2 || ends_with_seq(f, ".cpp"@) && f.len() > 4
}

fn any_contained(patterns: &Vec<String>, path: &str) -> (r: bool)
    ensures
        r == exists|i: int| 0 <= i < patterns@.len() && contains_seq(path@, #[trigger] patterns@[i]@),
{
    let mut i: usize = 0;
    while i < patterns.len()
        invariant
            i <= patterns@.len(),
            forall|k: int| 0 <= k < i ==> !contains_seq(path@, #[trigger] patterns@[k]@),
        decreases patterns@.len() - i,
    {
        if contains_text(path, patterns[i].as_str()) {
            return true;
        }
        i = i + 1;
    }
    false
}

fn file_start_index(path: &str) -> (r: usize)
    ensures
        r == file_start(path@),
{
    let n = path.unicode_len();
    let mut i: usize = n;
    assert(path@.subrange(0, n as int) =~= path@);
    while i > 0
        invariant
            i <= n,
            n == path@.len(),
            file_start(path@) == file_start(path@.subrange(0, i as int)),
        decreases i,
    {
        let ghost pre = path@.subrange(0, i as int);
        if path.get_char(i - 1) == '/' {
            return i;
        }
        assert(pre.drop_last() =~= path@.subrange(0, i - 1));
        i = i - 1;
    }
    0
}

fn first_dot_index(f: &str) -> (r: usize)
    ensures
        r == first_dot(f@),
{
    let n = f.unicode_len();
    let mut i: usize = 0;
    assert(first_dot(f@.subrange(0, 0)) == 0);
    while i < n
        invariant
            i <= n,
            n == f@.len(),
            first_dot(f@.subrange(0, i as int)) == i,
            forall|k: int| 0 <= k < i ==> f@[k] != '.',
        decreases n - i,
    {
        assert(f@.subrange(0, i + 1).drop_last() =~= f@.subrange(0, i as int));
        if f.get_char(i) == '.' {
            proof {
                lemma_first_dot_prefix(f@, i as int);
            }
            return i;
        }
        i = i + 1;
    }
    assert(f@.subrange(0, n as int) =~= f@);
    n
}

proof fn lemma_first_dot_prefix(f: Seq<char>, i: int)
    requires
        0 <= i < f.len(),
        f[i] == '.',
        first_dot(f.subrange(0, i)) == i,
    ensures
        first_dot(f) == i,
    decreases f.len(),
{
    assert(f.subrange(0, i + 1).drop_last() =~= f.subrange(0, i));
    if f.len() > i + 1 {
        assert(f.drop_last().subrange(0, i) =~= f.subrange(0, i));
        lemma_first_dot_prefix(f.drop_last(), i);
    }
}

proof fn lemma_some_dependency_error(s: Seq<TargetConfig>, i: int)
    requires
        0 <= i < s.len(),
        dependency_error(s[i]).is_some(),
    ensures
        first_dependency_error(s).is_some(),
    decreases s.len(),
{
    if i < s.len() - 1 {
        lemma_some_dependency_error(s.drop_last(), i);
    }
}

/// A target that resolves a shared-library dependency whose name lacks the
/// `lib` prefix fails validation.
pub proof fn lemma_unprefixed_shared_dependency_rejected(targets: Seq<TargetConfig>, cfg: TargetConfig, fuel: nat, i: int)
    requires
        0 <= i < resolved(targets, cfg.deps@).len(),
        resolved(targets, cfg.deps@)[i].kind == ArtifactKind::SharedLibrary,
        !starts_with_seq(resolved(targets, cfg.deps@)[i].name@, "lib"@),
    ensures
        graph_error(targets, cfg, fuel).is_some(),
{
    if fuel > 0 {
        lemma_some_dependency_error(resolved(targets, cfg.deps@), i);
    }
}

/// A target with a dependency name that resolves to no declared target, or
/// to more than one, fails validation with the names requested and the
/// names of the targets that can be depended on.
pub proof fn lemma_unresolved_dependency_rejected(targets: Seq<TargetConfig>, cfg: TargetConfig, fuel: nat, i: int)
    requires
        fuel > 0,
        0 <= i < cfg.deps@.len(),
        matches_of(targets, cfg.deps@[i]@).len() != 1,
    ensures
        graph_error(targets, cfg, fuel) == Some(ConfigErrorView::MissingDependencies(views(cfg.deps@), library_names(targets))),
{
}

/// A target that declares more dependency names than targets resolve fails
/// validation with a count mismatch, listing the names requested and the
/// names of the targets that can be depended on.
pub proof fn lemma_missing_dependencies_rejected(targets: Seq<TargetConfig>, cfg: TargetConfig, fuel: nat)
    requires
        fuel > 0,
        cfg.deps@.len() > resolved(targets, cfg.deps@).len(),
    ensures
        graph_error(targets, cfg, fuel) == Some(ConfigErrorView::MissingDependencies(views(cfg.deps@), library_names(targets))),
{
    if resolves_uniquely(targets, cfg.deps@) {
        lemma_resolved_len(targets, cfg.deps@);
    }
}

/// How many declared targets are named `name`.
fn count_matches(targets: &Vec<TargetConfig>, name: &str) -> (r: usize)
    ensures
        r == matches_of(targets@, name@).len(),
{
    let mut c: usize = 0;
    let mut j: usize = 0;
    while j < targets.len()
        invariant
            j <= targets@.len(),
            c == matches_of(targets@.subrange(0, j as int), name@).len(),
            c <= j,
        decreases targets@.len() - j,
    {
        assert(targets@.subrange(0, j + 1).drop_last() =~= targets@.subrange(0, j as int));
        if same_text(targets[j].name.as_str(), name) {
            c = c + 1;
        }
        j = j + 1;
    }
    assert(targets@.subrange(0, j as int) =~= targets@);
    c
}

fn artifact_paths(name: &str, kind: ArtifactKind) -> (r: (String, String))
    ensures
        r.0@ == bin_path_of(name@, kind),
        r.1@ == elf_path_of(name@, kind),
{
    let mut bin_path = String::from_str(BIN_DIR);
    bin_path.append("/");
    bin_path.append(name);
    let mut elf_path = String::new();
    match kind {
        ArtifactKind::Executable => {
            elf_path = bin_path.clone();
            elf_path.append(".elf");
            bin_path.append(".bin");
        },
        ArtifactKind::SharedLibrary => bin_path.append(".so"),
        ArtifactKind::StaticArchive => bin_path.append(".a"),
        ArtifactKind::RelocatableObject => bin_path.append(".o"),
    }
    (bin_path, elf_path)
}

fn library_name_list(targets: &Vec<TargetConfig>) -> (r: Vec<String>)
    ensures
        views(r@) == library_names(targets@),
{
    let mut r: Vec<String> = Vec::new();
    let mut i: usize = 0;
    while i < targets.len()
        invariant
            i <= targets@.len(),
            views(r@) == library_names(targets@.subrange(0, i as int)),
        decreases targets@.len() - i,
    {
        assert(targets@.subrange(0, i + 1).drop_last() =~= targets@.subrange(0, i as int));
        if targets[i].kind != ArtifactKind::Executable {
            let n = targets[i].name.clone();
            proof {
                lemma_views_push(r@, n);
            }
            r.push(n);
        }
        i = i + 1;
    }
    assert(targets@.subrange(0, i as int) =~= targets@);
    r
}

fn check_dependency(d: &Target) -> (r: Result<(), ConfigError>)
    ensures
        match r {
            Ok(_) => dependency_error(d.config).is_none(),
            Err(e) => dependency_error(d.config) == Some(e.view()),
        },
{
    match d.config.kind {
        ArtifactKind::Executable => Err(
            ConfigError::WrongDependencyKind { name: d.config.name.clone(), kind: d.config.kind },
        ),
        ArtifactKind::SharedLibrary => {
            if has_prefix(d.config.name.as_str(), "lib") {
                Ok(())
            } else {
                Err(ConfigError::SharedLibraryName { name: d.config.name.clone() })
            }
        },
        _ => Ok(()),
    }
}

impl Target {
    /// A freshly built target for `cfg`: no sources yet, its artifact paths,
    /// and one dependency for each target that its dependency names resolve to.
    pub open spec fn built_from(&self, targets: Seq<TargetConfig>, cfg: TargetConfig) -> bool {
        let s = resolved(targets, cfg.deps@);
        &&& self.config.agrees(&cfg)
        &&& self.srcs@.len() == 0
        &&& self.bin_path@ == bin_path_of(cfg.name@, cfg.kind)
        &&& self.elf_path@ == elf_path_of(cfg.name@, cfg.kind)
        &&& self.hash_file_path@ == hash_file_of(cfg.name@)
        &&& self.dependant_libs@.len() == s.len()
        &&& s.len() == cfg.deps@.len()
        &&& forall|i: int| 0 <= i < s.len() ==> (#[trigger] self.dependant_libs@[i]).config.agrees(&s[i])
    }

    /// A built target whose dependencies are built, level by level, down to
    /// `depth` levels below it.
    pub open spec fn built_graph(&self, targets: Seq<TargetConfig>, cfg: TargetConfig, depth: int) -> bool
        decreases depth,
    {
        &&& self.built_from(targets, cfg)
        &&& depth > 0 ==> forall|i: int|
            0 <= i < self.dependant_libs@.len() ==> (#[trigger] self.dependant_libs@[i]).built_graph(
                targets,
                resolved(targets, cfg.deps@)[i],
                depth - 1,
            )
    }

    /// Builds the target declared by `target_config` together with the
    /// whole graph of its dependencies, each resolved among `targets`, and
    /// validates it. A dependency chain deeper than `targets` has entries is
    /// reported as a cycle.
    pub fn new(target_config: &TargetConfig, targets: &Vec<TargetConfig>) -> (r: Result<Target, ConfigError>)
        requires
            targets@.len() < usize::MAX,
        ensures
            match r {
                Ok(t) => graph_error(targets@, *target_config, (targets@.len() + 1) as nat).is_none()
                    && t.built_graph(targets@, *target_config, targets@.len() as int)
                    && t.dependant_libs@.len() == target_config.deps@.len(),
                Err(e) => graph_error(targets@, *target_config, (targets@.len() + 1) as nat) == Some(e.view()),
            },
    {
        Target::build_graph(target_config, targets, targets.len() + 1)
    }

    /// The name of a source file: its file name up to the first `.`.
    pub fn get_src_name(path: &str) -> (r: String)
        ensures
            r@ == src_name_of(path@),
    {
        let n = path.unicode_len();
        let start = file_start_index(path);
        proof {
            lemma_file_start_bounds(path@);
        }
        let f = path.substring_char(start, n);
        let d = first_dot_index(f);
        proof {
            lemma_first_dot_bounds(f@);
        }
        String::from_str(f.substring_char(0, d))
    }

    /// The object file that a source of this target compiles to.
    pub fn get_src_obj_name(&self, src_name: &str) -> (r: String)
        ensures
            r@ == obj_name_of(self.config.name@, src_name@),
    {
        let mut obj_name = String::from_str(OBJ_DIR);
        obj_name.append("/");
        obj_name.append(self.config.name.as_str());
        obj_name.append("-");
        obj_name.append(src_name);
        obj_name.append(".o");
        obj_name
    }

    /// Whether a path matches one of the exclusion patterns.
    pub fn should_exclude(&self, path: &str) -> (r: bool)
        ensures
            r == excluded_by(self.config.src_exclude@, path@),
    {
        any_contained(&self.config.src_exclude, path)
    }

    /// Whether a file passes the inclusion patterns.
    pub fn should_include(&self, path: &str) -> (r: bool)
        ensures
            r == included_by(self.config.src_only@, path@),
    {
        if self.config.src_only.len() == 0 {
            return true;
        }
        any_contained(&self.config.src_only, path)
    }

    /// Whether an entry met while walking the source root is one of this
    /// target's sources: a C or C++ file, not excluded, and included.
    pub fn accepts_source(&self, path: &str, is_file: bool) -> (r: bool)
        ensures
            r == (!excluded_by(self.config.src_exclude@, path@) && is_file && is_c_source(path@)
                && included_by(self.config.src_only@, path@)),
    {
        if self.should_exclude(path) || !is_file {
            return false;
        }
        let n = path.unicode_len();
        let start = file_start_index(path);
        proof {
            lemma_file_start_bounds(path@);
        }
        let f = path.substring_char(start, n);
        let m = f.unicode_len();
        let c_file = (has_suffix(f, ".c") && m > 2) || (has_suffix(f, ".cpp") && m > 4);
        c_file && self.should_include(path)
    }

    /// Adds a source file with the headers of its include closure.
    pub fn add_src(&mut self, path: String, dependant_includes: Vec<String>)
        ensures
            final(self).config == old(self).config,
            final(self).bin_path == old(self).bin_path,
            final(self).dependant_libs == old(self).dependant_libs,
            final(self).srcs@.len() == old(self).srcs@.len() + 1,
            final(self).srcs@.subrange(0, old(self).srcs@.len() as int) == old(self).srcs@,
            final(self).srcs@.last().path == path,
            final(self).srcs@.last().name@ == src_name_of(path@),
            final(self).srcs@.last().obj_name@ == obj_name_of(old(self).config.name@, src_name_of(path@)),
            final(self).srcs@.last().dependant_includes == dependant_includes,
    {
        let name = Target::get_src_name(path.as_str());
        let obj_name = self.get_src_obj_name(name.as_str());
        let src = Src::new(path, name, obj_name, dependant_includes);
        self.srcs.push(src);
        assert(self.srcs@.subrange(0, old(self).srcs@.len() as int) =~= old(self).srcs@);
    }

    /// Whether the target is linked again: a source must be compiled, or it
    /// has no sources but has dependencies, or a relink is forced.
    pub open spec fn relinks(
        &self,
        objs_exist: Seq<bool>,
        current: FingerprintMap,
        stored: FingerprintMap,
        force: bool,
    ) -> bool {
        ||| exists|i: int| 0 <= i < self.srcs@.len() && #[trigger] self.srcs@[i].needs_rebuild(objs_exist[i], current, stored)
        ||| (self.srcs@.len() == 0 && self.dependant_libs@.len() > 0)
        ||| force
    }

    /// A target without sources but with dependencies is always linked
    /// again, whatever the fingerprints say.
    pub proof fn lemma_aggregate_always_relinks(
        &self,
        objs_exist: Seq<bool>,
        current: FingerprintMap,
        stored: FingerprintMap,
        force: bool,
    )
        requires
            self.srcs@.len() == 0,
            self.dependant_libs@.len() > 0,
        ensures
            self.relinks(objs_exist, current, stored, force),
    {
    }

    /// A target whose sources all have their objects and, with their
    /// include closures, the fingerprints recorded for them is up to date,
    /// unless it is an aggregate of dependencies or a relink is forced.
    pub proof fn lemma_stable_target_up_to_date(&self, objs_exist: Seq<bool>, current: FingerprintMap, stored: FingerprintMap)
        requires
            objs_exist.len() == self.srcs@.len(),
            self.srcs@.len() > 0 || self.dependant_libs@.len() == 0,
            forall|i: int| 0 <= i < self.srcs@.len() ==> #[trigger] objs_exist[i],
            forall|i: int| 0 <= i < self.srcs@.len() ==> (#[trigger] current.get(self.srcs@[i].path@)).is_some()
                && current.get(self.srcs@[i].path@) == stored.get(self.srcs@[i].path@),
            forall|i: int, j: int| 0 <= i < self.srcs@.len() && 0 <= j < self.srcs@[i].dependant_includes@.len() ==> (
            #[trigger] current.get(self.srcs@[i].dependant_includes@[j]@)).is_some() && current.get(
                self.srcs@[i].dependant_includes@[j]@,
            ) == stored.get(self.srcs@[i].dependant_includes@[j]@),
        ensures
            !self.relinks(objs_exist, current, stored, false),
    {
        assert forall|i: int| 0 <= i < self.srcs@.len() implies !(#[trigger] self.srcs@[i].needs_rebuild(
            objs_exist[i],
            current,
            stored,
        )) by {
            let s = self.srcs@[i];
            assert(current.get(s.path@).is_some());
            assert forall|j: int| 0 <= j < s.dependant_includes@.len() implies (#[trigger] current.get(
                s.dependant_includes@[j]@,
            )).is_some() && current.get(s.dependant_includes@[j]@) == stored.get(s.dependant_includes@[j]@) by {
                assert(current.get(self.srcs@[i].dependant_includes@[j]@).is_some());
            }
            lemma_stable_source_not_rebuilt(s.path@, s.dependant_includes@, current, stored);
        }
    }

    /// Decides which sources are compiled and whether the target is linked.
    /// `objs_exist[i]` tells whether the object of source `i` exists, and
    /// `relink` forces a link (the platform configuration changed).
    pub fn plan(&self, objs_exist: &Vec<bool>, current: &FingerprintMap, stored: &FingerprintMap, relink: bool) -> (r: BuildPlan)
        requires
            objs_exist@.len() == self.srcs@.len(),
        ensures
            forall|i: int| 0 <= i < self.srcs@.len() ==> (r.compile@.contains(i as usize)
                <==> #[trigger] self.srcs@[i].needs_rebuild(objs_exist@[i], *current, *stored)),
            forall|k: int| 0 <= k < r.compile@.len() ==> #[trigger] r.compile@[k] < self.srcs@.len(),
            forall|a: int, b: int| 0 <= a < b < r.compile@.len() ==> r.compile@[a] < r.compile@[b],
            r.relink == self.relinks(objs_exist@, *current, *stored, relink),
    {
        let mut compile: Vec<usize> = Vec::new();
        let mut i: usize = 0;
        while i < self.srcs.len()
            invariant
                i <= self.srcs@.len(),
                objs_exist@.len() == self.srcs@.len(),
                forall|k: int| 0 <= k < compile@.len() ==> #[trigger] compile@[k] < i,
                forall|a: int, b: int| 0 <= a < b < compile@.len() ==> compile@[a] < compile@[b],
                forall|m: int| 0 <= m < i ==> (compile@.contains(m as usize)
                    <==> #[trigger] self.srcs@[m].needs_rebuild(objs_exist@[m], *current, *stored)),
            decreases self.srcs@.len() - i,
        {
            let reason = self.srcs[i].to_build(objs_exist[i], current, stored);
            let ghost old_c = compile@;
            if reason != RebuildReason::UpToDate {
                compile.push(i);
            }
            assert forall|m: int| 0 <= m < i + 1 implies (compile@.contains(m as usize)
                <==> #[trigger] self.srcs@[m].needs_rebuild(objs_exist@[m], *current, *stored)) by {
                if reason != RebuildReason::UpToDate {
                    assert(compile@ == old_c.push(i));
                    if m < i {
                        if compile@.contains(m as usize) {
                            let k = choose|k: int| 0 <= k < compile@.len() && compile@[k] == m as usize;
                            assert(k < old_c.len());
                            assert(old_c[k] == m as usize);
                        }
                        if old_c.contains(m as usize) {
                            let k = choose|k: int| 0 <= k < old_c.len() && old_c[k] == m as usize;
                            assert(compile@[k] == m as usize);
                        }
                    } else {
                        assert(compile@[old_c.len() as int] == i);
                    }
                } else {
                    if m == i && compile@.contains(m as usize) {
                        let k = choose|k: int| 0 <= k < compile@.len() && compile@[k] == m as usize;
                        assert(compile@[k] < i);
                    }
                }
            }
            i = i + 1;
        }
        let relink = compile.len() > 0 || (self.srcs.len() == 0 && self.dependant_libs.len() > 0) || relink;
        proof {
            if compile@.len() > 0 {
                assert(compile@.contains(compile@[0]));
                assert(self.srcs@[compile@[0] as int].needs_rebuild(objs_exist@[compile@[0] as int], *current, *stored));
            }
            if exists|m: int| 0 <= m < self.srcs@.len() && #[trigger] self.srcs@[m].needs_rebuild(objs_exist@[m], *current, *stored) {
                let m = choose|m: int| 0 <= m < self.srcs@.len() && #[trigger] self.srcs@[m].needs_rebuild(objs_exist@[m], *current, *stored);
                assert(compile@.contains(m as usize));
            }
        }
        BuildPlan { compile, relink }
    }

    /// Records, after a build, the current fingerprints of the compiled
    /// sources and, when the target was linked, of every header of every
    /// source's include closure.
    pub fn record_fingerprints(&self, stored: &mut FingerprintMap, current: &FingerprintMap, compiled: &Vec<usize>, linked: bool)
        ensures
            forall|k: Seq<char>|
                #![trigger final(stored).get(k)]
                final(stored).get(k) == recorded_after(self.srcs@, compiled@, linked, *current, *old(stored), k),
    {
        let ghost srcs = self.srcs@;
        let mut j: usize = 0;
        while j < compiled.len()
            invariant
                j <= compiled@.len(),
                srcs == self.srcs@,
                forall|k: Seq<char>|
                    #![trigger stored.get(k)]
                    stored.get(k) == if compiled_path(srcs, compiled@.subrange(0, j as int), k) && current.get(k).is_some() {
                        current.get(k)
                    } else {
                        old(stored).get(k)
                    },
            decreases compiled@.len() - j,
        {
            let ghost pre = compiled@.subrange(0, j as int);
            let ghost nxt = compiled@.subrange(0, j + 1);
            if compiled[j] < self.srcs.len() {
                record_current(stored, current, self.srcs[compiled[j]].path.as_str());
            }
            assert forall|k: Seq<char>| compiled_path(srcs, nxt, k) == (compiled_path(srcs, pre, k) || (
            compiled@[j as int] < srcs.len() && srcs[compiled@[j as int] as int].path@ == k)) by {
                if compiled_path(srcs, pre, k) {
                    let x = choose|x: int| 0 <= x < pre.len() && pre[x] < srcs.len() && #[trigger] srcs[pre[x] as int].path@ == k;
                    assert(nxt[x] == pre[x]);
                }
                if compiled@[j as int] < srcs.len() && srcs[compiled@[j as int] as int].path@ == k {
                    assert(nxt[j as int] == compiled@[j as int]);
                }
                if compiled_path(srcs, nxt, k) {
                    let x = choose|x: int| 0 <= x < nxt.len() && nxt[x] < srcs.len() && #[trigger] srcs[nxt[x] as int].path@ == k;
                    if x < j {
                        assert(pre[x] == nxt[x]);
                    }
                }
            }
            j = j + 1;
        }
        assert(compiled@.subrange(0, j as int) =~= compiled@);
        if !linked {
            return;
        }
        let mut a: usize = 0;
        while a < self.srcs.len()
            invariant
                a <= self.srcs@.len(),
                srcs == self.srcs@,
                forall|k: Seq<char>|
                    #![trigger stored.get(k)]
                    stored.get(k) == if (compiled_path(srcs, compiled@, k) || included_header_upto(srcs, a as int, 0, k))
                        && current.get(k).is_some() {
                        current.get(k)
                    } else {
                        old(stored).get(k)
                    },
            decreases self.srcs@.len() - a,
        {
            let incs = &self.srcs[a].dependant_includes;
            let mut b: usize = 0;
            assert forall|k: Seq<char>| included_header_upto(srcs, a as int, 0, k) == included_header_upto(srcs, a as int, b as int, k) by {}
            while b < incs.len()
                invariant
                    a < self.srcs@.len(),
                    b <= incs@.len(),
                    srcs == self.srcs@,
                    incs@ == srcs[a as int].dependant_includes@,
                    forall|k: Seq<char>|
                        #![trigger stored.get(k)]
                        stored.get(k) == if (compiled_path(srcs, compiled@, k) || included_header_upto(srcs, a as int, b as int, k))
                            && current.get(k).is_some() {
                            current.get(k)
                        } else {
                            old(stored).get(k)
                        },
                decreases incs@.len() - b,
            {
                record_current(stored, current, incs[b].as_str());
                assert forall|k: Seq<char>| included_header_upto(srcs, a as int, b + 1, k) == (included_header_upto(
                    srcs,
                    a as int,
                    b as int,
                    k,
                ) || incs@[b as int]@ == k) by {
                    if incs@[b as int]@ == k {
                        assert(srcs[a as int].dependant_includes@[b as int]@ == k);
                    }
                }
                b = b + 1;
            }
            assert forall|k: Seq<char>| included_header_upto(srcs, a + 1, 0, k) == included_header_upto(srcs, a as int, b as int, k) by {
                if included_header_upto(srcs, a + 1, 0, k) {
                    let (x, y) = choose|x: int, y: int|
                        0 <= x < srcs.len() && 0 <= y < srcs[x].dependant_includes@.len() && (x < a + 1 || (x == a + 1 && y < 0))
                            && #[trigger] srcs[x].dependant_includes@[y]@ == k;
                    assert(x < a || (x == a && y < b));
                }
            }
            a = a + 1;
        }
        assert forall|k: Seq<char>| included_header_upto(srcs, a as int, 0, k) == included_header(srcs, k) by {
            if included_header(srcs, k) {
                let (x, y) = choose|x: int, y: int|
                    0 <= x < srcs.len() && 0 <= y < srcs[x].dependant_includes@.len() && #[trigger] srcs[x].dependant_includes@[y]@ == k;
                assert(x < a);
            }
        }
    }

    fn build_graph(target_config: &TargetConfig, targets: &Vec<TargetConfig>, fuel: usize) -> (r: Result<Target, ConfigError>)
        ensures
            match r {
                Ok(t) => graph_error(targets@, *target_config, fuel as nat).is_none()
                    && t.built_graph(targets@, *target_config, fuel - 1),
                Err(e) => graph_error(targets@, *target_config, fuel as nat) == Some(e.view()),
            },
        decreases fuel,
    {
        if fuel == 0 {
            return Err(ConfigError::DependencyCycle { name: target_config.name.clone() });
        }
        let mut d: usize = 0;
        while d < target_config.deps.len()
            invariant
                fuel > 0,
                d <= target_config.deps@.len(),
                forall|m: int| 0 <= m < d ==> (#[trigger] matches_of(targets@, target_config.deps@[m]@)).len() == 1,
            decreases target_config.deps@.len() - d,
        {
            if count_matches(targets, target_config.deps[d].as_str()) != 1 {
                proof {
                    lemma_unresolved_dependency_rejected(targets@, *target_config, fuel as nat, d as int);
                }
                return Err(
                    ConfigError::MissingDependencies {
                        requested: copy_texts(&target_config.deps),
                        found: library_name_list(targets),
                    },
                );
            }
            d = d + 1;
        }
        assert(resolves_uniquely(targets@, target_config.deps@));
        proof {
            lemma_resolved_len(targets@, target_config.deps@);
        }
        let ghost deps = target_config.deps@;
        let mut dependant_libs: Vec<Target> = Vec::new();
        let mut i: usize = 0;
        while i < target_config.deps.len()
            invariant
                fuel > 0,
                resolves_uniquely(targets@, target_config.deps@),
                i <= deps.len(),
                deps == target_config.deps@,
                dependant_libs@.len() == resolved(targets@, deps.subrange(0, i as int)).len(),
                forall|k: int| 0 <= k < dependant_libs@.len() ==>
                    (#[trigger] dependant_libs@[k]).built_graph(targets@, resolved(targets@, deps.subrange(0, i as int))[k], fuel - 2),
                subgraph_error(targets@, resolved(targets@, deps.subrange(0, i as int)), (fuel - 1) as nat).is_none(),
            decreases deps.len() - i,
        {
            let ghost pre = resolved(targets@, deps.subrange(0, i as int));
            assert(deps.subrange(0, i + 1).drop_last() =~= deps.subrange(0, i as int));
            let name = target_config.deps[i].as_str();
            let mut j: usize = 0;
            assert(matches_of(targets@.subrange(0, 0), name@) =~= Seq::<TargetConfig>::empty());
            assert(pre + matches_of(targets@.subrange(0, 0), name@) =~= pre);
            while j < targets.len()
                invariant
                    fuel > 0,
                    resolves_uniquely(targets@, target_config.deps@),
                    i < deps.len(),
                    deps == target_config.deps@,
                    name@ == deps[i as int]@,
                    pre == resolved(targets@, deps.subrange(0, i as int)),
                    j <= targets@.len(),
                    dependant_libs@.len() == (pre + matches_of(targets@.subrange(0, j as int), name@)).len(),
                    forall|k: int| 0 <= k < dependant_libs@.len() ==>
                        (#[trigger] dependant_libs@[k]).built_graph(targets@, (pre + matches_of(targets@.subrange(0, j as int), name@))[k], fuel - 2),
                    subgraph_error(targets@, pre + matches_of(targets@.subrange(0, j as int), name@), (fuel - 1) as nat).is_none(),
                decreases targets@.len() - j,
            {
                let ghost cur = pre + matches_of(targets@.subrange(0, j as int), name@);
                assert(targets@.subrange(0, j + 1).drop_last() =~= targets@.subrange(0, j as int));
                if same_text(targets[j].name.as_str(), name) {
                    let ghost nxt = cur.push(targets@[j as int]);
                    assert(pre + matches_of(targets@.subrange(0, j + 1), name@) =~= nxt);
                    assert(nxt.drop_last() =~= cur);
                    let d = Target::build_graph(&targets[j], targets, fuel - 1);
                    match d {
                        Ok(d) => {
                            dependant_libs.push(d);
                        },
                        Err(e) => {
                            proof {
                                lemma_matches_prefix(targets@, name@, j + 1);
                                lemma_resolved_prefix(targets@, deps, i + 1);
                                let whole = resolved(targets@, deps);
                                let upto = resolved(targets@, deps.subrange(0, i + 1));
                                assert(deps.subrange(0, i + 1).drop_last() =~= deps.subrange(0, i as int));
                                assert(deps.subrange(0, i + 1).last() == deps[i as int]);
                                assert(upto == pre + matches_of(targets@, name@));
                                assert(upto.subrange(0, nxt.len() as int) =~= nxt);
                                assert(whole.subrange(0, nxt.len() as int) =~= nxt);
                                lemma_subgraph_error_prefix(targets@, whole, nxt.len() as int, (fuel - 1) as nat);
                            }
                            return Err(e);
                        },
                    }
                } else {
                    assert(pre + matches_of(targets@.subrange(0, j + 1), name@) =~= cur);
                }
                j = j + 1;
            }
            assert(targets@.subrange(0, j as int) =~= targets@);
            i = i + 1;
        }
        assert(deps.subrange(0, i as int) =~= deps);
        let ghost s = resolved(targets@, deps);
        let mut k: usize = 0;
        while k < dependant_libs.len()
            invariant
                k <= dependant_libs@.len(),
                dependant_libs@.len() == s.len(),
                forall|m: int| 0 <= m < dependant_libs@.len() ==> (#[trigger] dependant_libs@[m]).built_graph(targets@, s[m], fuel - 2),
                first_dependency_error(s.subrange(0, k as int)).is_none(),
                fuel > 0,
                resolves_uniquely(targets@, target_config.deps@),
                s == resolved(targets@, target_config.deps@),
                subgraph_error(targets@, s, (fuel - 1) as nat).is_none(),
            decreases dependant_libs@.len() - k,
        {
            assert(s.subrange(0, k + 1).drop_last() =~= s.subrange(0, k as int));
            assert(dependant_libs@[k as int].config.agrees(&s[k as int]));
            match check_dependency(&dependant_libs[k]) {
                Ok(_) => {},
                Err(e) => {
                    proof {
                        lemma_dependency_error_prefix(s, k + 1);
                    }
                    return Err(e);
                },
            }
            k = k + 1;
        }
        assert(s.subrange(0, k as int) =~= s);
        let (bin_path, elf_path) = artifact_paths(target_config.name.as_str(), target_config.kind);
        let mut hash_file_path = String::from_str(BUILD_DIR);
        hash_file_path.append("/");
        hash_file_path.append(target_config.name.as_str());
        hash_file_path.append(".linux.hash");
        Ok(Target {
            config: target_config.duplicate(),
            srcs: Vec::new(),
            bin_path,
            elf_path,
            hash_file_path,
            dependant_libs,
        })
    }
}

} // verus!
