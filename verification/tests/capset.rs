use garnet::capset::CapSet;

const ALL_NAMES: [&str; 8] = ["*", "env", "ffi", "fs", "net", "net_internal", "proc", "time"];

fn capset_of(names: &[&str]) -> CapSet {
    names.iter().fold(CapSet::empty(), |acc, n| {
        acc.union(CapSet::from_name(n).expect("known name"))
    })
}

#[test]
fn from_name_roundtrips_every_canonical_name() {
    for name in ALL_NAMES {
        let set = CapSet::from_name(name).expect("canonical name resolves");
        assert!(set.contains(name), "{name} must be in its own set");
        assert_eq!(set.names(), vec![name]);
    }
}

#[test]
fn unknown_name_is_none_and_other_preserves_presence() {
    assert_eq!(CapSet::from_name("custom"), None);
    let other = CapSet::from_name_or_other("custom");
    assert!(other.has_other());
    assert!(!other.is_empty(), "presence of an unknown cap must survive");
    assert!(other.names().is_empty(), "OTHER has no canonical name");
    assert!(!other.contains("custom"), "identity is not tracked");
}

#[test]
fn empty_is_empty_and_named_bits_stay_below_reserve() {
    assert!(CapSet::empty().is_empty());
    for name in ALL_NAMES {
        let bit = CapSet::from_name(name).unwrap().bits();
        assert!(bit & !0x00FF == 0, "named cap {name} must sit in bits 0..=7");
    }
    assert_eq!(CapSet::other().bits(), 1 << 8, "OTHER is bit 8");
}

#[test]
fn subset_uses_a_and_not_b() {
    let fs_net = capset_of(&["fs", "net"]);
    let fs = capset_of(&["fs"]);
    assert!(fs.is_subset(fs_net));
    assert!(!fs_net.is_subset(fs));
    assert!(CapSet::empty().is_subset(fs));
    assert!(fs.contains_all(CapSet::empty()));
    assert!(fs_net.contains_all(fs));
}

#[test]
fn delta_is_xor() {
    let a = capset_of(&["fs", "net"]);
    let b = capset_of(&["net", "time"]);
    assert_eq!(a.delta(b).names(), vec!["fs", "time"]);
    assert!(a.delta(a).is_empty());
}

#[test]
fn names_come_out_in_lexicographic_order() {
    let all = capset_of(&["time", "proc", "net_internal", "net", "fs", "ffi", "env", "*"]);
    assert_eq!(all.names(), ALL_NAMES.to_vec());
    assert_eq!(all.iter_names(), ALL_NAMES.to_vec());
}

#[test]
fn set_operations_match_their_definitions() {
    let a = capset_of(&["fs", "net", "proc"]);
    let b = capset_of(&["net", "time"]);
    assert_eq!(a.intersect(b).names(), vec!["net"]);
    assert_eq!(a.difference(b).names(), vec!["fs", "proc"]);
    assert_eq!(a.union(b).names(), vec!["fs", "net", "proc", "time"]);
    // the delta splits into what each side holds alone
    assert_eq!(a.delta(b).intersect(a), a.difference(b));
    assert_eq!(a.delta(b).intersect(b), b.difference(a));
}

#[test]
fn bits_are_the_raw_bitset() {
    assert_eq!(CapSet::from_name("*").unwrap().bits(), 1);
    assert_eq!(CapSet::from_name("time").unwrap().bits(), 1 << 7);
    assert_eq!(capset_of(&["env", "fs"]).bits(), 0b1010);
    assert_eq!(CapSet::from_name_or_other("fs").bits(), 1 << 3);
}
