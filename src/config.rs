//! The configuration values that the engine consumes.
use vstd::prelude::*;

verus! {

/// What a target produces, which decides how it is linked.
#[derive(PartialEq, Eq, Structural, Clone, Copy, Debug)]
pub enum ArtifactKind {
    Executable,
    SharedLibrary,
    StaticArchive,
    RelocatableObject,
}

/// Build-wide settings: the compiler driver and the locations of the
/// platform runtime's headers and linker scripts.
#[derive(Debug)]
pub struct BuildConfig {
    pub compiler: String,
    pub libc_include: String,
    pub ld_script_dir: String,
}

/// The platform that a freestanding image is built for.
#[derive(Debug)]
pub struct PlatformConfig {
    pub name: String,
    pub arch: String,
    pub mode: String,
    pub target: String,
    pub log: String,
    pub smp: String,
    pub qemu_bus: String,
}

/// The operating-system configuration. An empty `name` means a hosted build.
#[derive(Debug)]
pub struct OSConfig {
    pub name: String,
    pub ulib: String,
    pub features: Vec<String>,
    pub platform: PlatformConfig,
}

/// The declaration of one target.
#[derive(Debug)]
pub struct TargetConfig {
    pub name: String,
    pub kind: ArtifactKind,
    pub src: String,
    pub src_only: Vec<String>,
    pub src_exclude: Vec<String>,
    pub include_dir: Vec<String>,
    pub cflags: String,
    pub ldflags: String,
    pub linker: String,
    pub archive: String,
    pub deps: Vec<String>,
}

/// The character views of a sequence of strings.
pub open spec fn views(v: Seq<String>) -> Seq<Seq<char>> {
    v.map_values(|s: String| s@)
}

pub proof fn lemma_views_push(v: Seq<String>, x: String)
    ensures
        views(v.push(x)) == views(v).push(x@),
{
    assert(views(v.push(x)) =~= views(v).push(x@));
}

/// A copy of a list of strings.
pub fn copy_texts(v: &Vec<String>) -> (r: Vec<String>)
    ensures
        r@ == v@,
{
    let mut r: Vec<String> = Vec::new();
    let mut i: usize = 0;
    while i < v.len()
        invariant
            i <= v@.len(),
            r@ == v@.subrange(0, i as int),
        decreases v@.len() - i,
    {
        r.push(v[i].clone());
        i = i + 1;
        assert(r@ =~= v@.subrange(0, i as int));
    }
    assert(r@ =~= v@);
    r
}

impl TargetConfig {
    /// Two declarations that agree on every field's value.
    pub open spec fn agrees(&self, o: &TargetConfig) -> bool {
        &&& self.name@ == o.name@
        &&& self.kind == o.kind
        &&& self.src@ == o.src@
        &&& self.src_only@ == o.src_only@
        &&& self.src_exclude@ == o.src_exclude@
        &&& self.include_dir@ == o.include_dir@
        &&& self.cflags@ == o.cflags@
        &&& self.ldflags@ == o.ldflags@
        &&& self.linker@ == o.linker@
        &&& self.archive@ == o.archive@
        &&& self.deps@ == o.deps@
    }

    /// A field-for-field copy.
    pub fn duplicate(&self) -> (r: TargetConfig)
        ensures
            r.agrees(self),
    {
        TargetConfig {
            name: self.name.clone(),
            kind: self.kind,
            src: self.src.clone(),
            src_only: copy_texts(&self.src_only),
            src_exclude: copy_texts(&self.src_exclude),
            include_dir: copy_texts(&self.include_dir),
            cflags: self.cflags.clone(),
            ldflags: self.ldflags.clone(),
            linker: self.linker.clone(),
            archive: self.archive.clone(),
            deps: copy_texts(&self.deps),
        }
    }
}

} // verus!
