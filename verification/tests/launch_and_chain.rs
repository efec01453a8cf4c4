use curl_inject_opt::config;
use curl_inject_opt::install::{concat_paths, install_plan};
use curl_inject_opt::launch::{collect_options, sort_occurrences, FlagOccurrence};
use curl_inject_opt::options::{find, Value};
use curl_inject_opt::preload::{build_preload_chain, strip_preload_entry};

fn occurrence(name: &str, value: &[u8], index: usize) -> FlagOccurrence {
    FlagOccurrence { meta: find(name).unwrap(), value: value.to_vec(), index }
}

#[test]
fn occurrence_order_is_kept_across_distinct_flags() {
    // Grouped by flag name, as an argument parser reports them, but carrying
    // command-line positions: timeout at 1, verbose at 2, timeout again at 3.
    let grouped = vec![
        occurrence("timeout", b"10", 1),
        occurrence("timeout", b"20", 3),
        occurrence("verbose", b"1", 2),
    ];
    let collected = collect_options(grouped).unwrap();
    assert_eq!(collected.len(), 3);
    assert_eq!(collected[0].name, "timeout");
    assert_eq!(collected[0].value, Value::Integer(10));
    assert_eq!(collected[1].name, "verbose");
    assert_eq!(collected[1].value, Value::Integer(1));
    assert_eq!(collected[2].name, "timeout");
    assert_eq!(collected[2].value, Value::Integer(20));
}

#[test]
fn sort_is_stable_for_equal_positions() {
    let grouped = vec![
        occurrence("verbose", b"1", 5),
        occurrence("timeout", b"10", 5),
        occurrence("proxy", b"p", 2),
    ];
    let sorted = sort_occurrences(grouped);
    assert_eq!(sorted[0].meta.name, "proxy");
    assert_eq!(sorted[1].meta.name, "verbose");
    assert_eq!(sorted[2].meta.name, "timeout");
}

#[test]
fn collect_reports_the_first_bad_value() {
    let grouped = vec![
        occurrence("timeout", b"ten", 2),
        occurrence("verbose", b"1", 1),
    ];
    assert!(collect_options(grouped).is_err());
}

#[test]
fn preload_chain_without_prior_chain_is_the_shim_alone() {
    assert_eq!(build_preload_chain(b"/lib/shim.so", None), b"/lib/shim.so".to_vec());
}

#[test]
fn preload_chain_prepends_to_a_prior_chain() {
    let prior = b"/a:/b".to_vec();
    assert_eq!(
        build_preload_chain(b"/lib/shim.so", Some(&prior)),
        b"/lib/shim.so:/a:/b".to_vec()
    );
}

#[test]
fn no_inherit_removal_restores_the_prior_chain() {
    assert_eq!(strip_preload_entry(b"/lib/shim.so:/a:/b", b"/lib/shim.so"), b"/a:/b".to_vec());
}

#[test]
fn stripping_removes_every_matching_entry_and_nothing_else() {
    assert_eq!(strip_preload_entry(b"x:/a:x:/b:x", b"x"), b"/a:/b".to_vec());
    assert_eq!(strip_preload_entry(b"/a:/b", b"x"), b"/a:/b".to_vec());
    assert_eq!(strip_preload_entry(b"x", b"x"), b"".to_vec());
}

#[test]
fn config_paths_are_the_baked_defaults() {
    assert_eq!(config::prefix(), "/usr/local");
    assert_eq!(config::prefix_raw(), "/usr/local");
    assert_eq!(config::libdir(), "/usr/local/lib");
    assert_eq!(config::bindir(), "/usr/local/bin");
    assert_eq!(config::datadir(), "/usr/local/share");
    assert_eq!(config::libdir_raw(), "lib");
    assert_eq!(config::bindir_raw(), "bin");
    assert_eq!(config::datadir_raw(), "share");
    assert!(!config::rely_on_search());
}

#[test]
fn path_concatenation_handles_roots_and_absolute_parts() {
    assert_eq!(concat_paths("/", "/usr/local/lib"), "/usr/local/lib");
    assert_eq!(concat_paths("/tmp/root", "/usr/local/lib"), "/tmp/root/usr/local/lib");
    assert_eq!(concat_paths("/tmp/root", "share"), "/tmp/root/share");
    assert_eq!(concat_paths("/", "rel"), "rel");
}

#[test]
fn install_plan_lays_out_the_destination() {
    let plan = install_plan("/tmp/fake", true, false, true);
    assert_eq!(plan.bindir, "/tmp/fake/usr/local/bin");
    assert_eq!(plan.libdir, "/tmp/fake/usr/local/lib");
    assert_eq!(
        plan.bashdir.as_deref(),
        Some("/tmp/fake/usr/local/share/bash-completion/completions")
    );
    assert_eq!(plan.zshdir, None);
    assert_eq!(
        plan.fishdir.as_deref(),
        Some("/tmp/fake/usr/local/share/fish/vendor_completions.d")
    );
}
