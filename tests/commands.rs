use ruxgo::compdb::split_cflags;
use ruxgo::compile::{classify_compile, underscore_dashes, CompileOutcome};
use ruxgo::config::{ArtifactKind, BuildConfig, OSConfig, PlatformConfig, TargetConfig};
use ruxgo::includes::{get_dependant_includes, get_include_substrings, path_ends_with_token, Header};
use ruxgo::target::Target;

fn tcfg(name: &str, kind: ArtifactKind, deps: &[&str]) -> TargetConfig {
    TargetConfig {
        name: name.to_string(),
        kind,
        src: format!("./{}", name),
        src_only: Vec::new(),
        src_exclude: Vec::new(),
        include_dir: vec![format!("./{}/include", name)],
        cflags: "-O2".to_string(),
        ldflags: "-lm".to_string(),
        linker: String::new(),
        archive: "ar rcs".to_string(),
        deps: deps.iter().map(|d| d.to_string()).collect(),
    }
}

fn build() -> BuildConfig {
    BuildConfig {
        compiler: "gcc".to_string(),
        libc_include: "../ruxos/ulib/ruxlibc/include".to_string(),
        ld_script_dir: "../ruxos/modules/ruxhal".to_string(),
    }
}

fn hosted() -> OSConfig {
    OSConfig {
        name: String::new(),
        ulib: String::new(),
        features: Vec::new(),
        platform: PlatformConfig {
            name: String::new(),
            arch: String::new(),
            mode: String::new(),
            target: String::new(),
            log: String::new(),
            smp: String::new(),
            qemu_bus: String::new(),
        },
    }
}

fn freestanding(ulib: &str, arch: &str, features: &[&str]) -> OSConfig {
    OSConfig {
        name: "ruxos".to_string(),
        ulib: ulib.to_string(),
        features: features.iter().map(|f| f.to_string()).collect(),
        platform: PlatformConfig {
            name: format!("{}-qemu-virt", arch),
            arch: arch.to_string(),
            mode: String::new(),
            target: format!("{}-unknown-none", arch),
            log: "warn".to_string(),
            smp: "1".to_string(),
            qemu_bus: "mmio".to_string(),
        },
    }
}

// An executable that depends on the shared library "libfoo" references it
// with -lfoo and a search path, and compiles none of its sources.
#[test]
fn executable_links_shared_dependency_by_reference() {
    let targets = vec![tcfg("libfoo", ArtifactKind::SharedLibrary, &[]), tcfg("y", ArtifactKind::Executable, &["libfoo"])];
    let mut y = Target::new(&targets[1], &targets).unwrap();
    y.add_src("y/main.c".to_string(), Vec::new());
    let cmds = y.link(&build(), &hosted());
    assert_eq!(
        cmds.link,
        "gcc  -o ruxgo_bld/bin/y.bin ruxgo_bld/obj_linux/y-main.o  -I./libfoo/include -lfoo  -Lruxgo_bld/bin -Wl,-rpath,'$ORIGIN'  -lm"
    );
    assert!(cmds.link.contains("-lfoo"));
    assert!(cmds.link.contains("-Lruxgo_bld/bin"));
    assert!(!cmds.link.contains("libfoo-"));
    assert_eq!(cmds.extract, "");
    assert!(y.dependant_libs[0].srcs.is_empty());
}

#[test]
fn hosted_executable_links_archives_by_path() {
    let targets = vec![tcfg("libbar", ArtifactKind::StaticArchive, &[]), tcfg("y", ArtifactKind::Executable, &["libbar"])];
    let y = Target::new(&targets[1], &targets).unwrap();
    assert_eq!(y.link_hosted_exe(&build()), "gcc  -o ruxgo_bld/bin/y.bin ruxgo_bld/bin/libbar.a -lm");
}

#[test]
fn shared_library_link_command() {
    let targets = vec![tcfg("libbar", ArtifactKind::StaticArchive, &[]), tcfg("libfoo", ArtifactKind::SharedLibrary, &["libbar"])];
    let mut t = Target::new(&targets[1], &targets).unwrap();
    t.add_src("libfoo/foo.c".to_string(), Vec::new());
    assert_eq!(
        t.link_dll(&build()),
        "gcc -shared -o ruxgo_bld/bin/libfoo.so ruxgo_bld/obj_linux/libfoo-foo.o  -I./libbar/include -lbar  -Lruxgo_bld/bin -Wl,-rpath,'$ORIGIN'  -lm"
    );
    let alone = vec![tcfg("libfoo", ArtifactKind::SharedLibrary, &[])];
    let t = Target::new(&alone[0], &alone).unwrap();
    assert_eq!(t.link_dll(&build()), "gcc -shared -o ruxgo_bld/bin/libfoo.so -lm");
}

#[test]
fn object_link_command_uses_own_linker() {
    let mut cfg = tcfg("all", ArtifactKind::RelocatableObject, &["libbar"]);
    cfg.linker = "ld -r".to_string();
    let targets = vec![tcfg("libbar", ArtifactKind::StaticArchive, &[]), cfg];
    let t = Target::new(&targets[1], &targets).unwrap();
    assert_eq!(t.link_object(&build()), "ld -r -lm -o ruxgo_bld/bin/all.o ruxgo_bld/bin/libbar.a");
}

#[test]
fn freestanding_executable_links_runtime_and_extracts() {
    let targets = vec![tcfg("kernel", ArtifactKind::Executable, &[])];
    let mut t = Target::new(&targets[0], &targets).unwrap();
    t.add_src("kernel/main.c".to_string(), Vec::new());
    let cmds = t.link(&build(), &freestanding("ruxlibc", "x86_64", &[]));
    assert_eq!(
        cmds.link,
        "gcc -nostdlib -static -no-pie --gc-sections -T../ruxos/modules/ruxhal/linker_x86_64-qemu-virt.lds --no-relax -lm ruxgo_bld/bin/libc.a ruxgo_bld/target/x86_64-unknown-none/debug/libruxlibc.a ruxgo_bld/obj_linux/kernel-main.o -o ruxgo_bld/bin/kernel.elf"
    );
    assert_eq!(
        cmds.extract,
        "rust-objcopy --binary-architecture=x86_64 ruxgo_bld/bin/kernel.elf --strip-all -O binary ruxgo_bld/bin/kernel.bin"
    );
}

#[test]
fn freestanding_musl_on_riscv() {
    let targets = vec![tcfg("kernel", ArtifactKind::Executable, &[])];
    let t = Target::new(&targets[0], &targets).unwrap();
    let mut os = freestanding("ruxmusl", "riscv64", &[]);
    os.platform.mode = "release".to_string();
    let (link, _) = t.link_freestanding_exe(&build(), &os);
    assert_eq!(
        link,
        "gcc -nostdlib -static -no-pie --gc-sections -T../ruxos/modules/ruxhal/linker_riscv64-qemu-virt.lds -lm ruxgo_bld/ruxmusl/install/lib/libc.a ruxgo_bld/target/riscv64-unknown-none/release/libruxmusl.a -o ruxgo_bld/bin/kernel.elf"
    );
}

#[test]
fn link_commands_are_deterministic() {
    let targets = vec![tcfg("libfoo", ArtifactKind::SharedLibrary, &[]), tcfg("y", ArtifactKind::Executable, &["libfoo"])];
    let a = Target::new(&targets[1], &targets).unwrap();
    let b = Target::new(&targets[1], &targets).unwrap();
    let (ca, cb) = (a.link(&build(), &hosted()), b.link(&build(), &hosted()));
    assert_eq!(ca.link, cb.link);
    assert_eq!(ca.extract, cb.extract);
}

#[test]
fn hosted_compile_command() {
    let targets = vec![tcfg("libfoo", ArtifactKind::StaticArchive, &[]), tcfg("libz", ArtifactKind::SharedLibrary, &["libfoo"])];
    let mut t = Target::new(&targets[1], &targets).unwrap();
    t.add_src("libz/z.c".to_string(), Vec::new());
    let cmd = t.srcs[0].build_command(&build(), &hosted(), &t.config, &t.dependant_libs);
    assert_eq!(
        cmd,
        "gcc -O2 -I./libz/include -o ruxgo_bld/obj_linux/libz-z.o -I./libfoo/include -c libz/z.c -fPIC"
    );
}

#[test]
fn freestanding_compile_command_defines_features() {
    let targets = vec![tcfg("app", ArtifactKind::Executable, &[])];
    let mut t = Target::new(&targets[0], &targets).unwrap();
    t.add_src("app/main.c".to_string(), Vec::new());
    let os = freestanding("ruxlibc", "x86_64", &["random-hw", "paging"]);
    let cmd = t.srcs[0].build_command(&build(), &os, &t.config, &t.dependant_libs);
    assert_eq!(
        cmd,
        "gcc -nostdinc -fno-builtin -ffreestanding -Wall -isystem../ruxos/ulib/ruxlibc/include -DRUX_CONFIG_RANDOM_HW -DRUX_CONFIG_WARN -mno-sse -O2 -I./app/include -o ruxgo_bld/obj_linux/app-main.o -c app/main.c"
    );
    let os = freestanding("ruxmusl", "aarch64", &["fp_simd"]);
    let cmd = t.srcs[0].build_command(&build(), &os, &t.config, &t.dependant_libs);
    assert_eq!(
        cmd,
        "gcc -nostdinc -fno-builtin -ffreestanding -Wall -isystemruxgo_bld/ruxmusl/install/include -O2 -I./app/include -o ruxgo_bld/obj_linux/app-main.o -c app/main.c"
    );
}

#[test]
fn compiler_results_classified() {
    assert!(matches!(classify_compile(true, String::new()), CompileOutcome::Clean));
    match classify_compile(true, "warning: x".to_string()) {
        CompileOutcome::Warning(w) => assert_eq!(w, "warning: x"),
        _ => panic!("expected a warning"),
    }
    assert!(matches!(classify_compile(false, "error".to_string()), CompileOutcome::Failed));
    assert_eq!(underscore_dashes("a-b-c"), "a_b_c");
}

#[test]
fn include_directives_extracted() {
    let text = "#include <stdio.h>\r\n#include \"a.h\"\r\n  #include \"skip.h\"\n#include \"dir/b.h\" // x\n#include \"open\r\nint x;";
    assert_eq!(get_include_substrings(text), vec!["a.h", "dir/b.h", "open"]);
    assert!(get_include_substrings("").is_empty());
}

fn header(path: &str, includes: &[&str]) -> Header {
    Header { path: path.to_string(), includes: includes.iter().map(|s| s.to_string()).collect() }
}

#[test]
fn include_closure_is_transitive() {
    let headers = vec![
        header("inc/a.h", &["b.h"]),
        header("inc/sub/b.h", &["c.h"]),
        header("inc/c.h", &["a.h"]),
        header("inc/d.h", &[]),
        header("inc/xa.h", &[]),
    ];
    let r = get_dependant_includes(&vec!["a.h".to_string()], &headers);
    assert_eq!(r, vec!["inc/a.h", "inc/sub/b.h", "inc/c.h"]);
    assert!(get_dependant_includes(&Vec::new(), &headers).is_empty());
    assert!(path_ends_with_token("inc/sub/b.h", "sub/b.h"));
    assert!(!path_ends_with_token("inc/xa.h", "a.h"));
}

#[test]
fn cflags_split_on_backticks() {
    let (subs, plain) = split_cflags("-O2 `pkg-config --cflags x` -g");
    assert_eq!(subs, vec!["pkg-config --cflags x"]);
    assert_eq!(plain, "-O2   -g ");
}

#[test]
fn compilation_database_record() {
    let mut cfg = tcfg("libz", ArtifactKind::SharedLibrary, &[]);
    cfg.cflags = "-O2 `echo -DX`".to_string();
    let targets = vec![cfg];
    let mut t = Target::new(&targets[0], &targets).unwrap();
    t.add_src("libz/z.c".to_string(), Vec::new());
    let rec = t.gen_cc(&build(), &t.srcs[0], &vec!["-DX\n".to_string()], "/work").unwrap();
    assert_eq!(
        rec,
        "{\n\t\"command\": \"cc -c -o ruxgo_bld/obj_linux/libz-z.o -I./libz/include -O2   -DX -fPIC libz/z.c\",\n\t\"directory\": \"/work\",\n\t\"file\": \"/work/libz/z.c\"\n}"
    );
    let mut b = build();
    b.compiler = "tcc".to_string();
    assert!(t.gen_cc(&b, &t.srcs[0], &Vec::new(), "/work").is_none());
}

// A freestanding executable whose platform has no linker script: the link
// command names the missing script, and extraction is a separate step that
// only runs after a successful link.
#[test]
fn freestanding_link_names_the_linker_script() {
    let targets = vec![tcfg("kernel", ArtifactKind::Executable, &[])];
    let t = Target::new(&targets[0], &targets).unwrap();
    let mut b = build();
    b.ld_script_dir = "/nonexistent".to_string();
    let (link, extract) = t.link_exe(&b, &freestanding("ruxlibc", "aarch64", &[]));
    assert!(link.contains(" -T/nonexistent/linker_aarch64-qemu-virt.lds"));
    assert!(!link.contains("rust-objcopy"));
    assert!(extract.starts_with("rust-objcopy --binary-architecture=aarch64"));
    let (hosted_link, none) = t.link_exe(&b, &hosted());
    assert_eq!(hosted_link, "gcc  -o ruxgo_bld/bin/kernel.bin -lm");
    assert_eq!(none, "");
}

#[test]
fn include_closure_lists_each_header_once() {
    let headers = vec![header("inc/a.h", &[]), header("inc/a.h", &[]), header("inc/b.h", &["a.h"])];
    let r = get_dependant_includes(&vec!["a.h".to_string(), "b.h".to_string()], &headers);
    assert_eq!(r, vec!["inc/a.h", "inc/b.h"]);
}
