//! Link command synthesis, one strategy for each artifact kind, with the
//! freestanding variant for executables.
use vstd::prelude::*;
use crate::config::{ArtifactKind, BuildConfig, OSConfig, TargetConfig};
use crate::source::Src;
use crate::target::{BIN_DIR, BUILD_DIR, Target};
use crate::text::{has_prefix, same_text, starts_with_seq};

verus! {

/// Each string with a space in front, one after the other.
pub open spec fn spaced(xs: Seq<Seq<char>>) -> Seq<char>
    decreases xs.len(),
{
    if xs.len() == 0 {
        Seq::empty()
    } else {
        spaced(xs.drop_last()) + " "@ + xs.last()
    }
}

/// `-I` flags for each include directory.
pub open spec fn include_flags(dirs: Seq<String>) -> Seq<char>
    decreases dirs.len(),
{
    if dirs.len() == 0 {
        Seq::empty()
    } else {
        include_flags(dirs.drop_last()) + " -I"@ + dirs.last()@
    }
}

/// The object files of a target's sources, in order.
pub open spec fn obj_list(srcs: Seq<Src>) -> Seq<Seq<char>> {
    srcs.map_values(|s: Src| s.obj_name@)
}

/// The artifacts of a target's dependencies, in order.
pub open spec fn dep_bins(deps: Seq<Target>) -> Seq<Seq<char>> {
    deps.map_values(|d: Target| d.bin_path@)
}

/// The `-l` reference to a shared library: its name without the `lib` prefix.
pub open spec fn lib_ref(name: Seq<char>) -> Seq<char> {
    "-l"@ + if starts_with_seq(name, "lib"@) {
        name.subrange(3, name.len() as int)
    } else {
        name
    }
}

/// The program that links: the target's own linker, else the compiler.
pub open spec fn driver(cfg: TargetConfig, build: BuildConfig) -> Seq<char> {
    if cfg.linker@.len() > 0 {
        cfg.linker@
    } else {
        build.compiler@
    }
}

/// The library search path and the origin-relative run-time search path.
pub open spec fn search_paths() -> Seq<char> {
    " -L"@ + "ruxgo_bld/bin"@ + " -Wl,-rpath,'$ORIGIN' "@ + " "@
}

/// How a shared library links against one dependency: its include
/// directories and its `-l` reference.
pub open spec fn shared_dep_part(d: Target) -> Seq<char> {
    include_flags(d.config.include_dir@) + " "@ + lib_ref(d.config.name@) + " "@
}

pub open spec fn shared_deps(deps: Seq<Target>) -> Seq<char>
    decreases deps.len(),
{
    if deps.len() == 0 {
        Seq::empty()
    } else {
        shared_deps(deps.drop_last()) + shared_dep_part(deps.last())
    }
}

/// How a hosted executable links against one dependency: archives and
/// objects by their path, shared libraries by reference with search paths.
pub open spec fn exe_dep_part(d: Target) -> Seq<char> {
    match d.config.kind {
        ArtifactKind::StaticArchive | ArtifactKind::RelocatableObject => d.bin_path@ + " "@,
        ArtifactKind::SharedLibrary => shared_dep_part(d) + search_paths(),
        ArtifactKind::Executable => Seq::empty(),
    }
}

pub open spec fn exe_deps(deps: Seq<Target>) -> Seq<char>
    decreases deps.len(),
{
    if deps.len() == 0 {
        Seq::empty()
    } else {
        exe_deps(deps.drop_last()) + exe_dep_part(deps.last())
    }
}

/// The archive command of a static archive.
pub open spec fn static_command(t: Target) -> Seq<char> {
    t.config.archive@ + " "@ + t.config.ldflags@ + " "@ + t.bin_path@ + spaced(obj_list(t.srcs@))
}

/// The link command of a relocatable object.
pub open spec fn object_command(t: Target, build: BuildConfig) -> Seq<char> {
    driver(t.config, build) + " "@ + t.config.ldflags@ + " -o "@ + t.bin_path@ + spaced(obj_list(t.srcs@))
        + spaced(dep_bins(t.dependant_libs@))
}

/// The link command of a shared library.
pub open spec fn shared_command(t: Target, build: BuildConfig) -> Seq<char> {
    driver(t.config, build) + " -shared"@ + " -o "@ + t.bin_path@ + spaced(obj_list(t.srcs@)) + " "@
        + shared_deps(t.dependant_libs@) + (if t.dependant_libs@.len() > 0 {
        search_paths()
    } else {
        Seq::empty()
    }) + t.config.ldflags@
}

/// The link command of a hosted executable.
pub open spec fn hosted_command(t: Target, build: BuildConfig) -> Seq<char> {
    driver(t.config, build) + " "@ + " -o "@ + t.bin_path@ + spaced(obj_list(t.srcs@)) + " "@
        + exe_deps(t.dependant_libs@) + t.config.ldflags@
}

/// The build mode of the platform runtime: `debug` unless one is configured.
pub open spec fn runtime_mode(os: OSConfig) -> Seq<char> {
    if os.platform.mode@.len() > 0 {
        os.platform.mode@
    } else {
        "debug"@
    }
}

/// The platform runtime archives for the configured C library.
pub open spec fn runtime_archives(os: OSConfig) -> Seq<char> {
    if os.ulib@ == "ruxlibc"@ {
        " "@ + "ruxgo_bld/bin/libc.a"@ + " "@ + "ruxgo_bld"@ + "/target/"@ + os.platform.target@ + "/"@
            + runtime_mode(os) + "/"@ + "libruxlibc.a"@
    } else if os.ulib@ == "ruxmusl"@ {
        " "@ + "ruxgo_bld/ruxmusl/install/lib/libc.a"@ + " "@ + "ruxgo_bld"@ + "/target/"@
            + os.platform.target@ + "/"@ + runtime_mode(os) + "/"@ + "libruxmusl.a"@
    } else {
        Seq::empty()
    }
}

/// The fixed freestanding flags, the platform's linker script, and the
/// relaxation flag that x86_64 needs.
pub open spec fn freestanding_flags(os: OSConfig, build: BuildConfig) -> Seq<char> {
    "-nostdlib -static -no-pie --gc-sections"@ + " -T"@ + build.ld_script_dir@ + "/linker_"@ + os.platform.name@
        + ".lds"@ + if os.platform.arch@ == "x86_64"@ {
        " --no-relax"@
    } else {
        Seq::empty()
    }
}

/// The link command of a freestanding executable, which writes the linked image.
pub open spec fn freestanding_command(t: Target, build: BuildConfig, os: OSConfig) -> Seq<char> {
    driver(t.config, build) + " "@ + freestanding_flags(os, build) + " "@ + t.config.ldflags@ + runtime_archives(os)
        + spaced(obj_list(t.srcs@)) + spaced(dep_bins(t.dependant_libs@)) + " -o "@ + t.elf_path@
}

/// The command that extracts the raw binary from the linked image.
pub open spec fn extract_command(t: Target, os: OSConfig) -> Seq<char> {
    "rust-objcopy --binary-architecture="@ + os.platform.arch@ + " "@ + t.elf_path@ + " --strip-all -O binary "@
        + t.bin_path@
}

/// The link command and, for a freestanding executable, the extraction
/// command (empty otherwise): a function of the target's kind, its objects,
/// its dependencies and the flags.
pub open spec fn link_commands(t: Target, build: BuildConfig, os: OSConfig) -> (Seq<char>, Seq<char>) {
    match t.config.kind {
        ArtifactKind::StaticArchive => (static_command(t), Seq::empty()),
        ArtifactKind::RelocatableObject => (object_command(t, build), Seq::empty()),
        ArtifactKind::SharedLibrary => (shared_command(t, build), Seq::empty()),
        ArtifactKind::Executable => if os.name@.len() > 0 {
            (freestanding_command(t, build, os), extract_command(t, os))
        } else {
            (hosted_command(t, build), Seq::empty())
        },
    }
}

/// Two dependency lists that agree, entry by entry, on everything a link
/// command reads of a dependency.
pub open spec fn same_deps(d1: Seq<Target>, d2: Seq<Target>) -> bool {
    &&& d1.len() == d2.len()
    &&& forall|i: int| 0 <= i < d1.len() ==> (#[trigger] d1[i]).config.agrees(&d2[i].config) && d1[i].bin_path@ == d2[i].bin_path@
}

/// Two targets that agree on their kind, their flags, their objects, their
/// artifact paths and their dependencies.
pub open spec fn same_link_inputs(t1: Target, t2: Target) -> bool {
    &&& t1.config.agrees(&t2.config)
    &&& t1.bin_path@ == t2.bin_path@
    &&& t1.elf_path@ == t2.elf_path@
    &&& obj_list(t1.srcs@) == obj_list(t2.srcs@)
    &&& same_deps(t1.dependant_libs@, t2.dependant_libs@)
}

/// Two toolchain and platform settings that agree on everything a link
/// command reads of them.
pub open spec fn same_link_settings(b1: BuildConfig, o1: OSConfig, b2: BuildConfig, o2: OSConfig) -> bool {
    &&& b1.compiler@ == b2.compiler@
    &&& b1.ld_script_dir@ == b2.ld_script_dir@
    &&& o1.name@ == o2.name@
    &&& o1.ulib@ == o2.ulib@
    &&& o1.platform.name@ == o2.platform.name@
    &&& o1.platform.arch@ == o2.platform.arch@
    &&& o1.platform.mode@ == o2.platform.mode@
    &&& o1.platform.target@ == o2.platform.target@
}

proof fn lemma_same_deps_parts(d1: Seq<Target>, d2: Seq<Target>)
    requires
        same_deps(d1, d2),
    ensures
        dep_bins(d1) == dep_bins(d2),
        shared_deps(d1) == shared_deps(d2),
        exe_deps(d1) == exe_deps(d2),
    decreases d1.len(),
{
    assert(dep_bins(d1) =~= dep_bins(d2));
    if d1.len() > 0 {
        let (a, b) = (d1.drop_last(), d2.drop_last());
        assert forall|i: int| 0 <= i < a.len() implies (#[trigger] a[i]).config.agrees(&b[i].config) && a[i].bin_path@
            == b[i].bin_path@ by {
            assert(a[i] == d1[i] && b[i] == d2[i]);
        }
        lemma_same_deps_parts(a, b);
        assert(d1.last() == d1[d1.len() - 1]);
    }
}

/// Link command synthesis is deterministic: targets and settings that agree
/// on what a link reads give the same commands.
pub proof fn lemma_link_deterministic(t1: Target, t2: Target, b1: BuildConfig, o1: OSConfig, b2: BuildConfig, o2: OSConfig)
    requires
        same_link_inputs(t1, t2),
        same_link_settings(b1, o1, b2, o2),
    ensures
        link_commands(t1, b1, o1) == link_commands(t2, b2, o2),
{
    lemma_same_deps_parts(t1.dependant_libs@, t2.dependant_libs@);
}

/// The two commands that link a target: the link itself and the raw-binary
/// extraction that follows it (empty when there is none).
#[derive(Debug)]
pub struct LinkCommands {
    pub link: String,
    pub extract: String,
}

pub(crate) fn append_include_flags(cmd: &mut String, dirs: &Vec<String>)
    ensures
        final(cmd)@ == old(cmd)@ + include_flags(dirs@),
{
    let ghost start = cmd@;
    let mut i: usize = 0;
    assert(dirs@.subrange(0, 0) =~= Seq::<String>::empty());
    assert(start + include_flags(dirs@.subrange(0, 0)) =~= start);
    while i < dirs.len()
        invariant
            i <= dirs@.len(),
            cmd@ == start + include_flags(dirs@.subrange(0, i as int)),
        decreases dirs@.len() - i,
    {
        assert(dirs@.subrange(0, i + 1).drop_last() =~= dirs@.subrange(0, i as int));
        cmd.append(" -I");
        cmd.append(dirs[i].as_str());
        i = i + 1;
        assert(cmd@ =~= start + include_flags(dirs@.subrange(0, i as int)));
    }
    assert(dirs@.subrange(0, i as int) =~= dirs@);
}

fn append_objs(cmd: &mut String, srcs: &Vec<Src>)
    ensures
        final(cmd)@ == old(cmd)@ + spaced(obj_list(srcs@)),
{
    let ghost start = cmd@;
    let ghost xs = obj_list(srcs@);
    let mut i: usize = 0;
    assert(start + spaced(xs.subrange(0, 0)) =~= start);
    while i < srcs.len()
        invariant
            i <= srcs@.len(),
            xs == obj_list(srcs@),
            cmd@ == start + spaced(xs.subrange(0, i as int)),
        decreases srcs@.len() - i,
    {
        assert(xs.subrange(0, i + 1).drop_last() =~= xs.subrange(0, i as int));
        cmd.append(" ");
        cmd.append(srcs[i].obj_name.as_str());
        i = i + 1;
        assert(cmd@ =~= start + spaced(xs.subrange(0, i as int)));
    }
    assert(xs.subrange(0, i as int) =~= xs);
}

fn append_dep_bins(cmd: &mut String, deps: &Vec<Target>)
    ensures
        final(cmd)@ == old(cmd)@ + spaced(dep_bins(deps@)),
{
    let ghost start = cmd@;
    let ghost xs = dep_bins(deps@);
    let mut i: usize = 0;
    assert(start + spaced(xs.subrange(0, 0)) =~= start);
    while i < deps.len()
        invariant
            i <= deps@.len(),
            xs == dep_bins(deps@),
            cmd@ == start + spaced(xs.subrange(0, i as int)),
        decreases deps@.len() - i,
    {
        assert(xs.subrange(0, i + 1).drop_last() =~= xs.subrange(0, i as int));
        cmd.append(" ");
        cmd.append(deps[i].bin_path.as_str());
        i = i + 1;
        assert(cmd@ =~= start + spaced(xs.subrange(0, i as int)));
    }
    assert(xs.subrange(0, i as int) =~= xs);
}

fn append_lib_ref(cmd: &mut String, name: &str)
    ensures
        final(cmd)@ == old(cmd)@ + lib_ref(name@),
{
    cmd.append("-l");
    if has_prefix(name, "lib") {
        proof {
            reveal_strlit("lib");
        }
        let n = name.unicode_len();
        cmd.append(name.substring_char(3, n));
    } else {
        cmd.append(name);
    }
}

fn append_shared_dep(cmd: &mut String, d: &Target)
    ensures
        final(cmd)@ == old(cmd)@ + shared_dep_part(*d),
{
    append_include_flags(cmd, &d.config.include_dir);
    cmd.append(" ");
    append_lib_ref(cmd, d.config.name.as_str());
    cmd.append(" ");
}

fn append_search_paths(cmd: &mut String)
    ensures
        final(cmd)@ == old(cmd)@ + search_paths(),
{
    cmd.append(" -L");
    cmd.append(BIN_DIR);
    cmd.append(" -Wl,-rpath,'$ORIGIN' ");
    cmd.append(" ");
}

fn append_driver(cmd: &mut String, cfg: &TargetConfig, build: &BuildConfig)
    ensures
        final(cmd)@ == old(cmd)@ + driver(*cfg, *build),
{
    if cfg.linker.as_str().unicode_len() > 0 {
        cmd.append(cfg.linker.as_str());
    } else {
        cmd.append(build.compiler.as_str());
    }
}

fn append_freestanding_flags(cmd: &mut String, os_config: &OSConfig, build_config: &BuildConfig)
    ensures
        final(cmd)@ == old(cmd)@ + freestanding_flags(*os_config, *build_config),
{
    let ghost start = cmd@;
    cmd.append("-nostdlib -static -no-pie --gc-sections");
    cmd.append(" -T");
    cmd.append(build_config.ld_script_dir.as_str());
    cmd.append("/linker_");
    cmd.append(os_config.platform.name.as_str());
    cmd.append(".lds");
    if same_text(os_config.platform.arch.as_str(), "x86_64") {
        cmd.append(" --no-relax");
    }
    assert(cmd@ =~= start + freestanding_flags(*os_config, *build_config));
}

fn append_runtime_mode(cmd: &mut String, os_config: &OSConfig)
    ensures
        final(cmd)@ == old(cmd)@ + runtime_mode(*os_config),
{
    if os_config.platform.mode.as_str().unicode_len() > 0 {
        cmd.append(os_config.platform.mode.as_str());
    } else {
        cmd.append("debug");
    }
}

fn append_runtime_archives(cmd: &mut String, os_config: &OSConfig)
    ensures
        final(cmd)@ == old(cmd)@ + runtime_archives(*os_config),
{
    let ghost start = cmd@;
    let is_libc = same_text(os_config.ulib.as_str(), "ruxlibc");
    let is_musl = same_text(os_config.ulib.as_str(), "ruxmusl");
    if is_libc {
        cmd.append(" ");
        cmd.append("ruxgo_bld/bin/libc.a");
        cmd.append(" ");
        cmd.append(BUILD_DIR);
        cmd.append("/target/");
        cmd.append(os_config.platform.target.as_str());
        cmd.append("/");
        append_runtime_mode(cmd, os_config);
        cmd.append("/");
        cmd.append("libruxlibc.a");
        assert(cmd@ =~= start + runtime_archives(*os_config));
    } else if is_musl {
        cmd.append(" ");
        cmd.append("ruxgo_bld/ruxmusl/install/lib/libc.a");
        cmd.append(" ");
        cmd.append(BUILD_DIR);
        cmd.append("/target/");
        cmd.append(os_config.platform.target.as_str());
        cmd.append("/");
        append_runtime_mode(cmd, os_config);
        cmd.append("/");
        cmd.append("libruxmusl.a");
        assert(cmd@ =~= start + runtime_archives(*os_config));
    } else {
        assert(cmd@ =~= start + runtime_archives(*os_config));
    }
}

impl Target {
    /// The archive command of a static archive.
    pub fn link_static(&self) -> (r: String)
        ensures
            r@ == static_command(*self),
    {
        let mut cmd = String::from_str(self.config.archive.as_str());
        cmd.append(" ");
        cmd.append(self.config.ldflags.as_str());
        cmd.append(" ");
        cmd.append(self.bin_path.as_str());
        append_objs(&mut cmd, &self.srcs);
        cmd
    }

    /// The link command of a relocatable object.
    pub fn link_object(&self, build_config: &BuildConfig) -> (r: String)
        ensures
            r@ == object_command(*self, *build_config),
    {
        let mut cmd = String::new();
        append_driver(&mut cmd, &self.config, build_config);
        cmd.append(" ");
        cmd.append(self.config.ldflags.as_str());
        cmd.append(" -o ");
        cmd.append(self.bin_path.as_str());
        append_objs(&mut cmd, &self.srcs);
        append_dep_bins(&mut cmd, &self.dependant_libs);
        assert(cmd@ =~= object_command(*self, *build_config));
        cmd
    }

    /// The link command of a shared library.
    pub fn link_dll(&self, build_config: &BuildConfig) -> (r: String)
        ensures
            r@ == shared_command(*self, *build_config),
    {
        let mut cmd = String::new();
        append_driver(&mut cmd, &self.config, build_config);
        cmd.append(" -shared");
        cmd.append(" -o ");
        cmd.append(self.bin_path.as_str());
        append_objs(&mut cmd, &self.srcs);
        cmd.append(" ");
        let ghost start = cmd@;
        let deps = &self.dependant_libs;
        let mut i: usize = 0;
        assert(deps@.subrange(0, 0) =~= Seq::<Target>::empty());
        assert(start + shared_deps(deps@.subrange(0, 0)) =~= start);
        while i < deps.len()
            invariant
                i <= deps@.len(),
                cmd@ == start + shared_deps(deps@.subrange(0, i as int)),
            decreases deps@.len() - i,
        {
            assert(deps@.subrange(0, i + 1).drop_last() =~= deps@.subrange(0, i as int));
            append_shared_dep(&mut cmd, &deps[i]);
            i = i + 1;
            assert(cmd@ =~= start + shared_deps(deps@.subrange(0, i as int)));
        }
        assert(deps@.subrange(0, i as int) =~= deps@);
        if deps.len() > 0 {
            append_search_paths(&mut cmd);
        }
        cmd.append(self.config.ldflags.as_str());
        assert(cmd@ =~= shared_command(*self, *build_config));
        cmd
    }

    /// The link command of a hosted executable.
    pub fn link_hosted_exe(&self, build_config: &BuildConfig) -> (r: String)
        ensures
            r@ == hosted_command(*self, *build_config),
    {
        let mut cmd = String::new();
        append_driver(&mut cmd, &self.config, build_config);
        cmd.append(" ");
        cmd.append(" -o ");
        cmd.append(self.bin_path.as_str());
        append_objs(&mut cmd, &self.srcs);
        cmd.append(" ");
        let ghost start = cmd@;
        let deps = &self.dependant_libs;
        let mut i: usize = 0;
        assert(deps@.subrange(0, 0) =~= Seq::<Target>::empty());
        assert(start + exe_deps(deps@.subrange(0, 0)) =~= start);
        while i < deps.len()
            invariant
                i <= deps@.len(),
                cmd@ == start + exe_deps(deps@.subrange(0, i as int)),
            decreases deps@.len() - i,
        {
            assert(deps@.subrange(0, i + 1).drop_last() =~= deps@.subrange(0, i as int));
            match deps[i].config.kind {
                ArtifactKind::StaticArchive | ArtifactKind::RelocatableObject => {
                    cmd.append(deps[i].bin_path.as_str());
                    cmd.append(" ");
                },
                ArtifactKind::SharedLibrary => {
                    append_shared_dep(&mut cmd, &deps[i]);
                    append_search_paths(&mut cmd);
                },
                ArtifactKind::Executable => {},
            }
            i = i + 1;
            assert(cmd@ =~= start + exe_deps(deps@.subrange(0, i as int)));
        }
        assert(deps@.subrange(0, i as int) =~= deps@);
        cmd.append(self.config.ldflags.as_str());
        assert(cmd@ =~= hosted_command(*self, *build_config));
        cmd
    }

    /// The link command of a freestanding executable and the command that
    /// extracts the raw binary from the image it links.
    pub fn link_freestanding_exe(&self, build_config: &BuildConfig, os_config: &OSConfig) -> (r: (String, String))
        ensures
            r.0@ == freestanding_command(*self, *build_config, *os_config),
            r.1@ == extract_command(*self, *os_config),
    {
        let mut cmd = String::new();
        append_driver(&mut cmd, &self.config, build_config);
        cmd.append(" ");
        append_freestanding_flags(&mut cmd, os_config, build_config);
        cmd.append(" ");
        cmd.append(self.config.ldflags.as_str());
        append_runtime_archives(&mut cmd, os_config);
        append_objs(&mut cmd, &self.srcs);
        append_dep_bins(&mut cmd, &self.dependant_libs);
        cmd.append(" -o ");
        cmd.append(self.elf_path.as_str());
        assert(cmd@ =~= freestanding_command(*self, *build_config, *os_config));
        let mut cmd_bin = String::from_str("rust-objcopy --binary-architecture=");
        cmd_bin.append(os_config.platform.arch.as_str());
        cmd_bin.append(" ");
        cmd_bin.append(self.elf_path.as_str());
        cmd_bin.append(" --strip-all -O binary ");
        cmd_bin.append(self.bin_path.as_str());
        (cmd, cmd_bin)
    }

    /// The commands that link an executable: freestanding when an operating
    /// system is configured, hosted otherwise (with no extraction).
    pub fn link_exe(&self, build_config: &BuildConfig, os_config: &OSConfig) -> (r: (String, String))
        ensures
            (r.0@, r.1@) == if os_config.name@.len() > 0 {
                (freestanding_command(*self, *build_config, *os_config), extract_command(*self, *os_config))
            } else {
                (hosted_command(*self, *build_config), Seq::empty())
            },
    {
        if os_config.name.as_str().unicode_len() > 0 {
            self.link_freestanding_exe(build_config, os_config)
        } else {
            (self.link_hosted_exe(build_config), String::new())
        }
    }

    /// The commands that link this target, chosen by its artifact kind and,
    /// for an executable, by whether an operating system is configured.
    pub fn link(&self, build_config: &BuildConfig, os_config: &OSConfig) -> (r: LinkCommands)
        ensures
            (r.link@, r.extract@) == link_commands(*self, *build_config, *os_config),
    {
        match self.config.kind {
            ArtifactKind::StaticArchive => LinkCommands { link: self.link_static(), extract: String::new() },
            ArtifactKind::RelocatableObject => LinkCommands {
                link: self.link_object(build_config),
                extract: String::new(),
            },
            ArtifactKind::SharedLibrary => LinkCommands { link: self.link_dll(build_config), extract: String::new() },
            ArtifactKind::Executable => {
                let (link, extract) = self.link_exe(build_config, os_config);
                LinkCommands { link, extract }
            },
        }
    }
}

} // verus!
