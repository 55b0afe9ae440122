use garnet::capset::CapSet;
use garnet::enforcement::studio_enforcement_legend_with_cli;
use garnet::reloadkey::{hex_key_windows_ok, signing_key_from_hex};
use garnet::settings::StudioSettings;

#[test]
fn named_capabilities_each_hold_one_bit_and_one_name() {
    let all = [
        (CapSet::wildcard(), "*", 0u16),
        (CapSet::env(), "env", 1),
        (CapSet::ffi(), "ffi", 2),
        (CapSet::fs(), "fs", 3),
        (CapSet::net(), "net", 4),
        (CapSet::net_internal(), "net_internal", 5),
        (CapSet::proc(), "proc", 6),
        (CapSet::time(), "time", 7),
    ];
    for (set, name, bit) in all {
        assert_eq!(set.bits(), 1u16 << bit);
        assert_eq!(set.names(), vec![name]);
        assert_eq!(CapSet::from_name(name), Some(set));
        assert!(set.contains(name));
    }
}

#[test]
fn delta_and_intersect_laws_on_values() {
    let a = CapSet::fs().union(CapSet::net());
    let b = CapSet::net().union(CapSet::time());
    let c = CapSet::proc().union(CapSet::fs());
    assert_eq!(a.delta(b), b.delta(a));
    assert_eq!(a.delta(b).delta(b), a);
    assert_eq!(a.delta(a), CapSet::empty());
    assert_eq!(a.delta(CapSet::empty()), a);
    assert_eq!(a.delta(b).delta(c), a.delta(b.delta(c)));
    assert_eq!(a.delta(b).intersect(b), b.difference(a));
    assert_eq!(a.delta(b).intersect(a), a.difference(b));
    assert_eq!(a.intersect(b).names(), vec!["net"]);
    assert!(a.intersect(b).is_subset(a));
}

#[test]
fn names_are_sorted_and_count_the_named_bits() {
    let s = CapSet::time().union(CapSet::wildcard()).union(CapSet::other()).union(CapSet::env());
    assert_eq!(s.names(), vec!["*", "env", "time"]);
    assert_eq!(s.names().len() as u32, (s.bits() & 0xFF).count_ones());
}

#[test]
fn hex_windows_check_matches_what_the_parse_needs() {
    let good = "ab".repeat(32);
    assert!(hex_key_windows_ok(&good));
    assert!(signing_key_from_hex(&good).is_ok());
    assert!(hex_key_windows_ok("abc"));
    // A two-byte character straddling the first window boundary.
    let straddle = format!("a\u{e9}{}", "0".repeat(61));
    assert_eq!(straddle.len(), 64);
    assert!(!hex_key_windows_ok(&straddle));
    // A bad first window stops the parse before any later window.
    let bad_first = format!("zz{}\u{e9}{}", "0".repeat(30), "0".repeat(30));
    assert_eq!(bad_first.len(), 64);
    assert!(hex_key_windows_ok(&bad_first));
    assert!(signing_key_from_hex(&bad_first).is_err());
}

#[test]
fn legend_without_a_cli_has_inconclusive_probes_with_exit_code_minus_one() {
    let legend = studio_enforcement_legend_with_cli(None);
    for p in &legend.probes {
        assert_eq!(p.exit_code, -1);
        assert!(p.observed_codes.is_empty());
        assert!(!p.ran && !p.confirmed);
    }
}

#[test]
fn ascii_settings_are_lowercased_exactly() {
    let s = StudioSettings { mode: "  POWER ".to_string(), theme: "System".to_string(), command_timeout_secs: 60, matrix_timeout_secs: 600 }.normalized();
    assert_eq!(s.mode, "power");
    assert_eq!(s.theme, "system");
}
