//! Compiler invocation synthesis for one source file, and the classification
//! of what the compiler reported.
use vstd::prelude::*;
use crate::config::{ArtifactKind, BuildConfig, OSConfig, TargetConfig, views, lemma_views_push};
use crate::features::{cfg_feat, cpu_count, library_features};
use crate::link::{append_include_flags, include_flags};
use crate::source::Src;
use crate::target::Target;
use crate::text::{same_text, text_in};

verus! {

/// What `str::to_uppercase` returns for a string.
pub uninterp spec fn upper_of(s: Seq<char>) -> Seq<char>;

/// Relies on `str::to_uppercase`: the result depends on the characters alone.
#[verifier::external_body]
fn to_upper(s: &str) -> (r: String)
    ensures
        r@ == upper_of(s@),
{
    s.to_uppercase()
}

/// A string with each `-` turned into `_`.
pub open spec fn underscored(s: Seq<char>) -> Seq<char> {
    Seq::new(s.len(), |i: int| if s[i] == '-' { '_' } else { s[i] })
}

/// The preprocessor name of a feature.
pub open spec fn macro_of(f: Seq<char>) -> Seq<char> {
    underscored(upper_of(f))
}

/// The preprocessor names of the C-library features of a configuration.
pub open spec fn feature_macros(os: OSConfig) -> Seq<Seq<char>> {
    let fs = library_features(os, cpu_count(os));
    Seq::new(fs.len(), |i: int| macro_of(fs[i]))
}

/// A `-D` definition for each preprocessor name.
pub open spec fn macro_flags(ms: Seq<Seq<char>>) -> Seq<char>
    decreases ms.len(),
{
    if ms.len() == 0 {
        Seq::empty()
    } else {
        macro_flags(ms.drop_last()) + " -DRUX_CONFIG_"@ + ms.last()
    }
}

/// The flags of the configured C library: its headers and, for `ruxlibc`,
/// the feature and log-level definitions.
pub open spec fn libc_cflags(os: OSConfig, build: BuildConfig, macros: Seq<Seq<char>>, log_macro: Seq<char>) -> Seq<char> {
    if os.ulib@ == "ruxlibc"@ {
        " -isystem"@ + build.libc_include@ + macro_flags(macros) + " -DRUX_CONFIG_"@ + log_macro
    } else if os.ulib@ == "ruxmusl"@ {
        " -isystem"@ + "ruxgo_bld/ruxmusl/install/include"@
    } else {
        Seq::empty()
    }
}

/// Whether a configuration enables a feature.
pub open spec fn has_feature(os: OSConfig, f: Seq<char>) -> bool {
    exists|i: int| 0 <= i < os.features@.len() && os.features@[i]@ == f
}

/// The code-generation flags of the architecture.
pub open spec fn arch_cflags(os: OSConfig) -> Seq<char> {
    let arch = os.platform.arch@;
    (if os.platform.mode@ == "release"@ {
        " -O3"@
    } else {
        Seq::empty()
    }) + (if arch == "riscv64"@ {
        " -march=rv64gc -mabi=lp64d -mcmodel=medany"@
    } else {
        Seq::empty()
    }) + (if !has_feature(os, "fp_simd"@) && arch == "x86_64"@ {
        " -mno-sse"@
    } else if !has_feature(os, "fp_simd"@) && arch == "aarch64"@ {
        " -mgeneral-regs-only"@
    } else {
        Seq::empty()
    })
}

/// The flags that a freestanding build puts first; empty for a hosted build.
pub open spec fn os_cflags(os: OSConfig, build: BuildConfig, macros: Seq<Seq<char>>, log_macro: Seq<char>) -> Seq<char> {
    if os.name@.len() == 0 {
        Seq::empty()
    } else {
        "-nostdinc -fno-builtin -ffreestanding -Wall"@ + libc_cflags(os, build, macros, log_macro) + arch_cflags(os)
    }
}

/// The include directories of every dependency, in order.
pub open spec fn dep_include_flags(deps: Seq<Target>) -> Seq<char>
    decreases deps.len(),
{
    if deps.len() == 0 {
        Seq::empty()
    } else {
        dep_include_flags(deps.drop_last()) + include_flags(deps.last().config.include_dir@)
    }
}

/// The compiler invocation for one source file.
pub open spec fn compile_command_of(
    src: Src,
    build: BuildConfig,
    os: OSConfig,
    cfg: TargetConfig,
    deps: Seq<Target>,
    macros: Seq<Seq<char>>,
    log_macro: Seq<char>,
) -> Seq<char> {
    let osf = os_cflags(os, build, macros, log_macro);
    build.compiler@ + " "@ + (if osf.len() > 0 {
        osf + " "@
    } else {
        Seq::empty()
    }) + cfg.cflags@ + include_flags(cfg.include_dir@) + " -o "@ + src.obj_name@ + dep_include_flags(deps) + " -c "@
        + src.path@ + if cfg.kind == ArtifactKind::SharedLibrary {
        " -fPIC"@
    } else {
        Seq::empty()
    }
}

/// How a finished compiler run is taken.
#[derive(Debug)]
pub enum CompileOutcome {
    /// It succeeded and said nothing on standard error.
    Clean,
    /// It succeeded and said this on standard error.
    Warning(String),
    /// It failed.
    Failed,
}

/// Classifies a compiler run by its exit status and standard error.
pub fn classify_compile(success: bool, stderr: String) -> (r: CompileOutcome)
    ensures
        success && stderr@.len() == 0 <==> r is Clean,
        success && stderr@.len() > 0 <==> (r matches CompileOutcome::Warning(w) && w == stderr),
        !success <==> r is Failed,
{
    if !success {
        CompileOutcome::Failed
    } else if stderr.as_str().unicode_len() > 0 {
        CompileOutcome::Warning(stderr)
    } else {
        CompileOutcome::Clean
    }
}

/// A string with each `-` turned into `_`.
pub fn underscore_dashes(s: &str) -> (r: String)
    ensures
        r@ == underscored(s@),
{
    let n = s.unicode_len();
    let mut r = String::new();
    let mut i: usize = 0;
    while i < n
        invariant
            i <= n,
            n == s@.len(),
            r@ == underscored(s@).subrange(0, i as int),
        decreases n - i,
    {
        if s.get_char(i) == '-' {
            r.append("_");
        } else {
            r.append(s.substring_char(i, i + 1));
        }
        proof {
            reveal_strlit("_");
        }
        i = i + 1;
        assert(r@ =~= underscored(s@).subrange(0, i as int));
    }
    assert(underscored(s@).subrange(0, n as int) =~= underscored(s@));
    r
}

fn append_macro_flags(cmd: &mut String, ms: &Vec<String>)
    ensures
        final(cmd)@ == old(cmd)@ + macro_flags(views(ms@)),
{
    let ghost start = cmd@;
    let ghost xs = views(ms@);
    let mut i: usize = 0;
    assert(start + macro_flags(xs.subrange(0, 0)) =~= start);
    while i < ms.len()
        invariant
            i <= ms@.len(),
            xs == views(ms@),
            cmd@ == start + macro_flags(xs.subrange(0, i as int)),
        decreases ms@.len() - i,
    {
        assert(xs.subrange(0, i + 1).drop_last() =~= xs.subrange(0, i as int));
        cmd.append(" -DRUX_CONFIG_");
        cmd.append(ms[i].as_str());
        i = i + 1;
        assert(cmd@ =~= start + macro_flags(xs.subrange(0, i as int)));
    }
    assert(xs.subrange(0, i as int) =~= xs);
}

/// The flags that a freestanding build puts first.
pub fn os_cflags_with(os_config: &OSConfig, build_config: &BuildConfig, macros: &Vec<String>, log_macro: &str) -> (r: String)
    ensures
        r@ == os_cflags(*os_config, *build_config, views(macros@), log_macro@),
{
    let mut f = String::new();
    if os_config.name.as_str().unicode_len() == 0 {
        return f;
    }
    let ghost start = f@;
    f.append("-nostdinc -fno-builtin -ffreestanding -Wall");
    if same_text(os_config.ulib.as_str(), "ruxlibc") {
        f.append(" -isystem");
        f.append(build_config.libc_include.as_str());
        append_macro_flags(&mut f, macros);
        f.append(" -DRUX_CONFIG_");
        f.append(log_macro);
    } else if same_text(os_config.ulib.as_str(), "ruxmusl") {
        f.append(" -isystem");
        f.append("ruxgo_bld/ruxmusl/install/include");
    }
    let ghost mid = f@;
    assert(mid =~= "-nostdinc -fno-builtin -ffreestanding -Wall"@ + libc_cflags(*os_config, *build_config, views(macros@), log_macro@));
    if same_text(os_config.platform.mode.as_str(), "release") {
        f.append(" -O3");
    }
    let arch = os_config.platform.arch.as_str();
    if same_text(arch, "riscv64") {
        f.append(" -march=rv64gc -mabi=lp64d -mcmodel=medany");
    }
    let fp = text_in(&os_config.features, "fp_simd");
    if !fp {
        if same_text(arch, "x86_64") {
            f.append(" -mno-sse");
        } else if same_text(arch, "aarch64") {
            f.append(" -mgeneral-regs-only");
        }
    }
    assert(f@ =~= os_cflags(*os_config, *build_config, views(macros@), log_macro@));
    f
}

impl Src {
    /// The compiler invocation for this source, given the preprocessor names
    /// of the C-library features and of the log level.
    pub fn compile_command(
        &self,
        build_config: &BuildConfig,
        os_config: &OSConfig,
        target_config: &TargetConfig,
        dependant_libs: &Vec<Target>,
        macros: &Vec<String>,
        log_macro: &str,
    ) -> (r: String)
        ensures
            r@ == compile_command_of(*self, *build_config, *os_config, *target_config, dependant_libs@, views(macros@), log_macro@),
    {
        let mut cmd = String::from_str(build_config.compiler.as_str());
        cmd.append(" ");
        let osf = os_cflags_with(os_config, build_config, macros, log_macro);
        if osf.as_str().unicode_len() > 0 {
            cmd.append(osf.as_str());
            cmd.append(" ");
        }
        cmd.append(target_config.cflags.as_str());
        append_include_flags(&mut cmd, &target_config.include_dir);
        cmd.append(" -o ");
        cmd.append(self.obj_name.as_str());
        let ghost start = cmd@;
        let mut i: usize = 0;
        assert(dependant_libs@.subrange(0, 0) =~= Seq::<Target>::empty());
        assert(start + dep_include_flags(dependant_libs@.subrange(0, 0)) =~= start);
        while i < dependant_libs.len()
            invariant
                i <= dependant_libs@.len(),
                cmd@ == start + dep_include_flags(dependant_libs@.subrange(0, i as int)),
            decreases dependant_libs@.len() - i,
        {
            assert(dependant_libs@.subrange(0, i + 1).drop_last() =~= dependant_libs@.subrange(0, i as int));
            append_include_flags(&mut cmd, &dependant_libs[i].config.include_dir);
            i = i + 1;
            assert(cmd@ =~= start + dep_include_flags(dependant_libs@.subrange(0, i as int)));
        }
        assert(dependant_libs@.subrange(0, i as int) =~= dependant_libs@);
        cmd.append(" -c ");
        cmd.append(self.path.as_str());
        if target_config.kind == ArtifactKind::SharedLibrary {
            cmd.append(" -fPIC");
        }
        assert(cmd@ =~= compile_command_of(*self, *build_config, *os_config, *target_config, dependant_libs@, views(macros@), log_macro@));
        cmd
    }

    /// The compiler invocation for this source under a configuration.
    pub fn build_command(
        &self,
        build_config: &BuildConfig,
        os_config: &OSConfig,
        target_config: &TargetConfig,
        dependant_libs: &Vec<Target>,
    ) -> (r: String)
        ensures
            r@ == compile_command_of(
                *self,
                *build_config,
                *os_config,
                *target_config,
                dependant_libs@,
                feature_macros(*os_config),
                upper_of(os_config.platform.log@),
            ),
    {
        let (_, lib_feats) = cfg_feat(os_config);
        let mut macros: Vec<String> = Vec::new();
        let ghost fs = library_features(*os_config, cpu_count(*os_config));
        let mut i: usize = 0;
        while i < lib_feats.len()
            invariant
                i <= lib_feats@.len(),
                views(lib_feats@) == fs,
                views(macros@) == Seq::new(fs.len(), |k: int| macro_of(fs[k])).subrange(0, i as int),
            decreases lib_feats@.len() - i,
        {
            let up = to_upper(lib_feats[i].as_str());
            let m = underscore_dashes(up.as_str());
            proof {
                lemma_views_push(macros@, m);
            }
            macros.push(m);
            i = i + 1;
            assert(views(macros@) =~= Seq::new(fs.len(), |k: int| macro_of(fs[k])).subrange(0, i as int));
        }
        assert(Seq::new(fs.len(), |k: int| macro_of(fs[k])).subrange(0, i as int) =~= feature_macros(*os_config));
        let log_macro = to_upper(os_config.platform.log.as_str());
        self.compile_command(build_config, os_config, target_config, dependant_libs, &macros, log_macro.as_str())
    }
}

} // verus!
