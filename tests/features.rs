use ruxgo::config::{OSConfig, PlatformConfig};
use ruxgo::features::{cfg_feat, cfg_feat_addprefix, log_level_valid, split_features};

fn os(ulib: &str, log: &str, bus: &str, smp: &str, features: &[&str]) -> OSConfig {
    OSConfig {
        name: "ruxos".to_string(),
        ulib: ulib.to_string(),
        features: features.iter().map(|f| f.to_string()).collect(),
        platform: PlatformConfig {
            name: "x86_64-qemu-q35".to_string(),
            arch: "x86_64".to_string(),
            mode: "release".to_string(),
            target: "x86_64-unknown-none".to_string(),
            log: log.to_string(),
            smp: smp.to_string(),
            qemu_bus: bus.to_string(),
        },
    }
}

#[test]
fn features_split_between_runtime_and_library() {
    let o = os("axlibc", "info", "pci", "2", &["fs", "paging", "net"]);
    let (ax, lib) = cfg_feat(&o);
    assert_eq!(ax, vec!["log-level-info", "bus-pci", "paging"]);
    assert_eq!(lib, vec!["smp", "fs", "net"]);
}

#[test]
fn unknown_log_level_and_single_cpu_add_nothing() {
    let o = os("axlibc", "verbose", "mmio", "1", &["alloc"]);
    let (ax, lib) = cfg_feat(&o);
    assert!(ax.is_empty());
    assert_eq!(lib, vec!["alloc"]);
}

#[test]
fn unparsable_cpu_count_counts_as_zero() {
    let o = os("axlibc", "warn", "", "many", &[]);
    let (ax, lib) = cfg_feat(&o);
    assert_eq!(ax, vec!["log-level-warn"]);
    assert!(lib.is_empty());
}

#[test]
fn musl_owns_more_features() {
    let o = os("axmusl", "off", "", "4", &["irq", "sched_rr", "tls"]);
    let (ax, lib) = cfg_feat(&o);
    assert_eq!(ax, vec!["log-level-off", "tls"]);
    assert_eq!(lib, vec!["smp", "irq", "sched_rr"]);
    let o = os("axlibc", "off", "", "4", &["irq"]);
    let (ax, _) = cfg_feat(&o);
    assert_eq!(ax, vec!["log-level-off", "irq"]);
}

#[test]
fn split_takes_the_cpu_count_given() {
    let o = os("axlibc", "debug", "", "not used", &["fd"]);
    let (_, lib) = split_features(&o, 8);
    assert_eq!(lib, vec!["smp", "fd"]);
}

#[test]
fn prefixes_name_the_owning_package() {
    let o = os("axmusl", "error", "pci", "1", &["fs", "paging"]);
    let (ax, lib) = cfg_feat_addprefix(&o).unwrap();
    assert_eq!(ax, vec!["axfeat/log-level-error", "axfeat/bus-pci", "axfeat/paging"]);
    assert_eq!(lib, vec!["axmusl/fs"]);
    let o = os("glibc", "error", "", "1", &[]);
    assert!(cfg_feat_addprefix(&o).is_none());
}

#[test]
fn invalid_log_level_is_detected() {
    let o = os("axmusl", "verbose", "pci", "4", &["irq", "net", "paging"]);
    assert!(!log_level_valid(&o));
    let (ax, lib) = cfg_feat(&o);
    assert_eq!(ax, vec!["bus-pci", "paging"]);
    assert_eq!(lib, vec!["smp", "irq", "net"]);
    assert!(log_level_valid(&os("axlibc", "trace", "", "1", &[])));
}
