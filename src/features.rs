//! Division of the enabled feature set into the two feature lists handed
//! to the platform runtime and to the C library.
use vstd::prelude::*;
use crate::config::{OSConfig, views, lemma_views_push};
use crate::text::{same_text, text_in};

verus! {

/// Whether `x` is one of `items`.
pub open spec fn is_member(items: Seq<Seq<char>>, x: Seq<char>) -> bool {
    exists|i: int| 0 <= i < items.len() && items[i] == x
}

/// The feature names that belong to the C library rather than to the runtime.
pub open spec fn lib_feature_names(ulib: Seq<char>) -> Seq<Seq<char>> {
    let base = seq![
        "fp_simd"@, "alloc"@, "multitask"@, "fs"@, "net"@, "fd"@, "pipe"@, "select"@, "poll"@,
        "epoll"@, "random-hw"@, "signal"@,
    ];
    if ulib == "axmusl"@ {
        base + seq!["irq"@, "musl"@, "sched_rr"@]
    } else {
        base
    }
}

pub open spec fn valid_log_level(l: Seq<char>) -> bool {
    l == "off"@ || l == "error"@ || l == "warn"@ || l == "info"@ || l == "debug"@ || l == "trace"@
}

/// The features of `fs`, in order, whose membership in `lib` is `in_lib`.
pub open spec fn pick(fs: Seq<Seq<char>>, lib: Seq<Seq<char>>, in_lib: bool) -> Seq<Seq<char>>
    decreases fs.len(),
{
    if fs.len() == 0 {
        Seq::empty()
    } else {
        let r = pick(fs.drop_last(), lib, in_lib);
        if is_member(lib, fs.last()) == in_lib {
            r.push(fs.last())
        } else {
            r
        }
    }
}

/// The runtime features: the log level (when it is a known one), the PCI bus
/// when selected, then every enabled feature that the C library does not own.
pub open spec fn runtime_features(os: OSConfig) -> Seq<Seq<char>> {
    let log = os.platform.log@;
    let a: Seq<Seq<char>> = if valid_log_level(log) {
        seq!["log-level-"@ + log]
    } else {
        Seq::empty()
    };
    let b: Seq<Seq<char>> = if os.platform.qemu_bus@ == "pci"@ {
        seq!["bus-pci"@]
    } else {
        Seq::empty()
    };
    a + b + pick(views(os.features@), lib_feature_names(os.ulib@), false)
}

/// The C-library features: `smp` when more than one CPU is configured, then
/// every enabled feature that the C library owns.
pub open spec fn library_features(os: OSConfig, cpus: i32) -> Seq<Seq<char>> {
    let a: Seq<Seq<char>> = if cpus > 1 {
        seq!["smp"@]
    } else {
        Seq::empty()
    };
    a + pick(views(os.features@), lib_feature_names(os.ulib@), true)
}

/// What `str::parse::<i32>` returns for a string, `None` for an error.
pub uninterp spec fn parsed_i32(s: Seq<char>) -> Option<i32>;

pub open spec fn is_digit(c: char) -> bool {
    '0' <= c && c <= '9'
}

/// The value of a string of decimal digits.
pub open spec fn digits_value(s: Seq<char>) -> int
    decreases s.len(),
{
    if s.len() == 0 {
        0
    } else {
        digits_value(s.drop_last()) * 10 + ((s.last() as u32) - ('0' as u32))
    }
}

proof fn lemma_digits_value_nonneg(s: Seq<char>)
    requires
        forall|i: int| 0 <= i < s.len() ==> is_digit(#[trigger] s[i]),
    ensures
        digits_value(s) >= 0,
    decreases s.len(),
{
    if s.len() > 0 {
        let d = s.drop_last();
        assert forall|i: int| 0 <= i < d.len() implies is_digit(#[trigger] d[i]) by {
            assert(d[i] == s[i]);
        }
        lemma_digits_value_nonneg(d);
        assert(is_digit(s[s.len() - 1]));
    }
}

/// Relies on `str::parse::<i32>` (`i32::from_str`): the outcome depends on
/// the text alone; text of decimal digits whose value fits gives that value;
/// empty text, or a character other than a digit and a leading sign, is an
/// error.
#[verifier::external_body]
fn parse_i32(s: &str) -> (r: Option<i32>)
    ensures
        r == parsed_i32(s@),
        s@.len() > 0 && (forall|i: int| 0 <= i < s@.len() ==> is_digit(#[trigger] s@[i])) && digits_value(s@)
            <= i32::MAX ==> r == Some(digits_value(s@) as i32),
        s@.len() == 0 || (exists|i: int|
            0 <= i < s@.len() && !is_digit(#[trigger] s@[i]) && !(i == 0 && (s@[0] == '+' || s@[0] == '-')))
            ==> r.is_none(),
{
    s.parse::<i32>().ok()
}

/// The CPU count that a configuration's `smp` text gives, zero when it does not parse.
pub open spec fn cpu_count(os: OSConfig) -> i32 {
    match parsed_i32(os.platform.smp@) {
        Some(n) => n,
        None => 0,
    }
}

fn lib_feature_list(ulib: &str) -> (r: Vec<String>)
    ensures
        views(r@) == lib_feature_names(ulib@),
{
    let mut r: Vec<String> = Vec::new();
    r.push(String::from_str("fp_simd"));
    r.push(String::from_str("alloc"));
    r.push(String::from_str("multitask"));
    r.push(String::from_str("fs"));
    r.push(String::from_str("net"));
    r.push(String::from_str("fd"));
    r.push(String::from_str("pipe"));
    r.push(String::from_str("select"));
    r.push(String::from_str("poll"));
    r.push(String::from_str("epoll"));
    r.push(String::from_str("random-hw"));
    r.push(String::from_str("signal"));
    if same_text(ulib, "axmusl") {
        r.push(String::from_str("irq"));
        r.push(String::from_str("musl"));
        r.push(String::from_str("sched_rr"));
    }
    assert(views(r@) =~= lib_feature_names(ulib@));
    r
}

/// Whether the configured log level is one of off, error, warn, info,
/// debug and trace; any other gets no runtime feature.
pub fn log_level_valid(os_config: &OSConfig) -> (r: bool)
    ensures
        r == valid_log_level(os_config.platform.log@),
{
    is_log_level(os_config.platform.log.as_str())
}

fn is_log_level(l: &str) -> (r: bool)
    ensures
        r == valid_log_level(l@),
{
    same_text(l, "off") || same_text(l, "error") || same_text(l, "warn") || same_text(l, "info")
        || same_text(l, "debug") || same_text(l, "trace")
}

/// Splits the enabled features between the runtime and the C library, given
/// the configured CPU count.
pub fn split_features(os_config: &OSConfig, cpus: i32) -> (r: (Vec<String>, Vec<String>))
    ensures
        views(r.0@) == runtime_features(*os_config),
        views(r.1@) == library_features(*os_config, cpus),
{
    let lib = lib_feature_list(os_config.ulib.as_str());
    let mut ax_feats: Vec<String> = Vec::new();
    let mut lib_feats: Vec<String> = Vec::new();
    if is_log_level(os_config.platform.log.as_str()) {
        let mut f = String::from_str("log-level-");
        f.append(os_config.platform.log.as_str());
        ax_feats.push(f);
    }
    if same_text(os_config.platform.qemu_bus.as_str(), "pci") {
        ax_feats.push(String::from_str("bus-pci"));
    }
    if cpus > 1 {
        lib_feats.push(String::from_str("smp"));
    }
    let ghost ax0 = views(ax_feats@);
    let ghost lib0 = views(lib_feats@);
    assert(ax0 + pick(views(os_config.features@).subrange(0, 0), views(lib@), false) =~= ax0);
    assert(lib0 + pick(views(os_config.features@).subrange(0, 0), views(lib@), true) =~= lib0);
    let mut i: usize = 0;
    while i < os_config.features.len()
        invariant
            i <= os_config.features@.len(),
            views(ax_feats@) == ax0 + pick(views(os_config.features@).subrange(0, i as int), views(lib@), false),
            views(lib_feats@) == lib0 + pick(views(os_config.features@).subrange(0, i as int), views(lib@), true),
        decreases os_config.features@.len() - i,
    {
        let ghost fs = views(os_config.features@);
        assert(fs.subrange(0, i + 1).drop_last() =~= fs.subrange(0, i as int));
        assert(fs.subrange(0, i + 1).last() == os_config.features@[i as int]@);
        let feat = os_config.features[i].clone();
        let inlib = text_in(&lib, feat.as_str());
        assert(inlib == is_member(views(lib@), feat@)) by {
            if inlib {
                let k = choose|k: int| 0 <= k < lib@.len() && lib@[k]@ == feat@;
                assert(views(lib@)[k] == feat@);
            }
            if is_member(views(lib@), feat@) {
                let k = choose|k: int| 0 <= k < views(lib@).len() && views(lib@)[k] == feat@;
                assert(lib@[k]@ == feat@);
            }
        }
        let ghost lv = views(lib@);
        assert(pick(fs.subrange(0, i + 1), lv, !inlib) == pick(fs.subrange(0, i as int), lv, !inlib));
        assert(pick(fs.subrange(0, i + 1), lv, inlib) == pick(fs.subrange(0, i as int), lv, inlib).push(feat@));
        proof {
            lemma_views_push(ax_feats@, feat);
            lemma_views_push(lib_feats@, feat);
        }
        if !inlib {
            ax_feats.push(feat);
            assert(views(ax_feats@) =~= ax0 + pick(fs.subrange(0, i + 1), views(lib@), false));
            assert(views(lib_feats@) =~= lib0 + pick(fs.subrange(0, i + 1), views(lib@), true));
        } else {
            lib_feats.push(feat);
            assert(views(ax_feats@) =~= ax0 + pick(fs.subrange(0, i + 1), views(lib@), false));
            assert(views(lib_feats@) =~= lib0 + pick(fs.subrange(0, i + 1), views(lib@), true));
        }
        i = i + 1;
    }
    assert(views(os_config.features@).subrange(0, i as int) =~= views(os_config.features@));
    (ax_feats, lib_feats)
}

/// The runtime and C-library feature lists of a configuration.
pub fn cfg_feat(os_config: &OSConfig) -> (r: (Vec<String>, Vec<String>))
    ensures
        views(r.0@) == runtime_features(*os_config),
        views(r.1@) == library_features(*os_config, cpu_count(*os_config)),
        ({
            let smp = os_config.platform.smp@;
            smp.len() > 0 && (forall|i: int| 0 <= i < smp.len() ==> is_digit(#[trigger] smp[i])) && digits_value(smp)
                <= i32::MAX ==> cpu_count(*os_config) == digits_value(smp)
        }),
        ({
            let smp = os_config.platform.smp@;
            smp.len() == 0 || (exists|i: int|
                0 <= i < smp.len() && !is_digit(#[trigger] smp[i]) && !(i == 0 && (smp[0] == '+' || smp[0] == '-')))
                ==> cpu_count(*os_config) == 0
        }),
{
    proof {
        let smp = os_config.platform.smp@;
        if forall|i: int| 0 <= i < smp.len() ==> is_digit(#[trigger] smp[i]) {
            lemma_digits_value_nonneg(smp);
        }
    }
    let cpus = match parse_i32(os_config.platform.smp.as_str()) {
        Some(n) => n,
        None => 0,
    };
    split_features(os_config, cpus)
}

/// Each name of `fs` with `p` in front of it.
pub open spec fn prefixed(p: Seq<char>, fs: Seq<Seq<char>>) -> Seq<Seq<char>> {
    Seq::new(fs.len(), |i: int| p + fs[i])
}

fn add_prefix(prefix: &str, v: &Vec<String>) -> (r: Vec<String>)
    ensures
        views(r@) == prefixed(prefix@, views(v@)),
{
    let mut r: Vec<String> = Vec::new();
    let mut i: usize = 0;
    while i < v.len()
        invariant
            i <= v@.len(),
            views(r@) == prefixed(prefix@, views(v@).subrange(0, i as int)),
        decreases v@.len() - i,
    {
        let mut f = String::from_str(prefix);
        f.append(v[i].as_str());
        proof {
            lemma_views_push(r@, f);
        }
        r.push(f);
        i = i + 1;
        assert(views(r@) =~= prefixed(prefix@, views(v@).subrange(0, i as int)));
    }
    assert(views(v@).subrange(0, i as int) =~= views(v@));
    r
}

/// The feature lists with the prefixes that name their owning packages:
/// `axfeat/` for the runtime and the C library's own name for the rest.
/// `None` when the C library is neither `axlibc` nor `axmusl`.
pub fn cfg_feat_addprefix(os_config: &OSConfig) -> (r: Option<(Vec<String>, Vec<String>)>)
    ensures
        r.is_some() == (os_config.ulib@ == "axlibc"@ || os_config.ulib@ == "axmusl"@),
        r matches Some(p) ==> {
            &&& views(p.0@) == prefixed("axfeat/"@, runtime_features(*os_config))
            &&& views(p.1@) == prefixed(os_config.ulib@ + "/"@, library_features(*os_config, cpu_count(*os_config)))
        },
{
    let ulib = os_config.ulib.as_str();
    if !(same_text(ulib, "axlibc") || same_text(ulib, "axmusl")) {
        return None;
    }
    let mut lib_prefix = String::from_str(ulib);
    lib_prefix.append("/");
    let (ax_feats, lib_feats) = cfg_feat(os_config);
    let ax = add_prefix("axfeat/", &ax_feats);
    let lib = add_prefix(lib_prefix.as_str(), &lib_feats);
    Some((ax, lib))
}

} // verus!
