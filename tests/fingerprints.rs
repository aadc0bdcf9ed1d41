use ruxgo::fingerprint::{is_changed, FingerprintMap};
use ruxgo::source::{RebuildReason, Src};
use ruxgo::text::{contains_text, has_prefix, has_suffix, same_text, text_in};

fn map(entries: &[(&str, &str)]) -> FingerprintMap {
    let mut m = FingerprintMap::new();
    for (p, h) in entries {
        m.record(p, h);
    }
    m
}

#[test]
fn record_replaces_and_lookup_finds() {
    let mut m = map(&[("a.c", "1"), ("b.h", "2")]);
    m.record("a.c", "3");
    assert_eq!(m.lookup("a.c").map(|s| s.as_str()), Some("3"));
    assert_eq!(m.lookup("b.h").map(|s| s.as_str()), Some("2"));
    assert_eq!(m.lookup("c.h"), None);
    assert_eq!(m.entries.len(), 2);
}

#[test]
fn changed_when_missing_or_different() {
    let stored = map(&[("a.c", "1"), ("b.c", "2")]);
    let current = map(&[("a.c", "1"), ("b.c", "9"), ("c.c", "5")]);
    assert!(!is_changed("a.c", &current, &stored));
    assert!(is_changed("b.c", &current, &stored));
    assert!(is_changed("c.c", &current, &stored));
    assert!(is_changed("d.c", &current, &stored));
}

fn src(includes: &[&str]) -> Src {
    Src::new(
        "src/main.c".to_string(),
        "main".to_string(),
        "ruxgo_bld/obj_linux/app-main.o".to_string(),
        includes.iter().map(|s| s.to_string()).collect(),
    )
}

#[test]
fn rebuild_reasons_in_order() {
    let stored = map(&[("src/main.c", "1"), ("inc/a.h", "2"), ("inc/b.h", "3")]);
    let same = map(&[("src/main.c", "1"), ("inc/a.h", "2"), ("inc/b.h", "3")]);
    let s = src(&["inc/a.h", "inc/b.h"]);
    assert_eq!(s.to_build(false, &same, &stored), RebuildReason::ObjectMissing);
    assert_eq!(s.to_build(true, &same, &stored), RebuildReason::UpToDate);
    let src_changed = map(&[("src/main.c", "7"), ("inc/a.h", "2"), ("inc/b.h", "8")]);
    assert_eq!(s.to_build(true, &src_changed, &stored), RebuildReason::SourceChanged);
    let hdr_changed = map(&[("src/main.c", "1"), ("inc/a.h", "2"), ("inc/b.h", "8")]);
    assert_eq!(s.to_build(true, &hdr_changed, &stored), RebuildReason::HeaderChanged(1));
}

#[test]
fn stable_source_is_not_rebuilt() {
    let stored = map(&[("src/main.c", "1"), ("inc/a.h", "2")]);
    let current = map(&[("inc/a.h", "2"), ("src/main.c", "1")]);
    assert_eq!(src(&["inc/a.h"]).to_build(true, &current, &stored), RebuildReason::UpToDate);
}

#[test]
fn header_change_touches_only_its_includers() {
    let stored = map(&[("src/main.c", "1"), ("inc/a.h", "2"), ("inc/b.h", "3")]);
    let current = map(&[("src/main.c", "1"), ("inc/a.h", "2"), ("inc/b.h", "4")]);
    assert_eq!(src(&["inc/b.h"]).to_build(true, &current, &stored), RebuildReason::HeaderChanged(0));
    assert_eq!(src(&["inc/a.h"]).to_build(true, &current, &stored), RebuildReason::UpToDate);
}

#[test]
fn text_helpers() {
    assert!(same_text("abc", "abc"));
    assert!(!same_text("abc", "abd"));
    assert!(has_prefix("libfoo", "lib"));
    assert!(!has_prefix("li", "lib"));
    assert!(has_suffix("main.cpp", ".cpp"));
    assert!(contains_text("src/test/x.c", "test"));
    assert!(!contains_text("src/x.c", "test"));
    assert!(contains_text("x", ""));
    assert!(text_in(&vec!["a".to_string(), "b".to_string()], "b"));
}

#[test]
fn text_form_round_trips() {
    let m = map(&[("src/a.c", "00ff"), ("inc/b.h", "12ab"), ("src/a.c", "0100")]);
    let text = m.to_text();
    assert_eq!(text, "src/a.c\t0100\ninc/b.h\t12ab\n");
    let back = FingerprintMap::from_text(&text);
    assert_eq!(back.lookup("src/a.c").map(|s| s.as_str()), Some("0100"));
    assert_eq!(back.lookup("inc/b.h").map(|s| s.as_str()), Some("12ab"));
    assert_eq!(back.entries, m.entries);
}

#[test]
fn text_form_skips_lines_without_tab() {
    let m = FingerprintMap::from_text("a.c\t1\ngarbage\n\nb.c\t2\tx");
    assert_eq!(m.entries, vec![("a.c".to_string(), "1".to_string()), ("b.c".to_string(), "2\tx".to_string())]);
    assert!(FingerprintMap::from_text("").entries.is_empty());
}
