use garnet::caps_diff::{diff_caps, CapabilitySurface};

fn surf(agg: &[&str], per: &[(&str, &[&str])], wild: bool) -> CapabilitySurface {
    CapabilitySurface {
        aggregate: agg.iter().map(|s| s.to_string()).collect(),
        per_function: per
            .iter()
            .map(|(n, c)| (n.to_string(), c.iter().map(|x| x.to_string()).collect()))
            .collect(),
        has_wildcard: wild,
    }
}

#[test]
fn added_cap_is_authority_expansion() {
    let d = diff_caps(
        &surf(&["fs"], &[("a", &["fs"])], false),
        &surf(&["fs", "net"], &[("a", &["fs", "net"])], false),
    );
    assert_eq!(d.aggregate_added, vec!["net"]);
    assert!(d.authority_expanded());
}

#[test]
fn removed_only_is_not_expansion() {
    let d = diff_caps(
        &surf(&["fs", "net"], &[("a", &["fs", "net"])], false),
        &surf(&["fs"], &[("a", &["fs"])], false),
    );
    assert_eq!(d.aggregate_removed, vec!["net"]);
    assert!(d.aggregate_added.is_empty());
    assert!(!d.authority_expanded());
}

#[test]
fn identical_is_empty_no_expansion() {
    let s = surf(&["fs"], &[("a", &["fs"])], false);
    let d = diff_caps(&s, &s);
    assert!(d.is_empty());
    assert!(!d.authority_expanded());
}

#[test]
fn wildcard_introduced_is_expansion() {
    let d = diff_caps(&surf(&["fs"], &[], false), &surf(&["fs", "*"], &[], true));
    assert!(d.wildcard_introduced);
    assert!(d.authority_expanded());
}

#[test]
fn function_added_and_removed_tracked() {
    let d = diff_caps(
        &surf(&["fs"], &[("old_fn", &["fs"])], false),
        &surf(&["fs"], &[("new_fn", &["fs"])], false),
    );
    assert_eq!(d.functions_added, vec!["new_fn"]);
    assert_eq!(d.functions_removed, vec!["old_fn"]);
    assert!(!d.authority_expanded());
}

#[test]
fn function_caps_expanded_without_program_authority_gain() {
    let d = diff_caps(
        &surf(&["fs"], &[("a", &["fs"]), ("b", &[])], false),
        &surf(&["fs"], &[("a", &["fs"]), ("b", &["fs"])], false),
    );
    assert_eq!(
        d.functions_caps_expanded,
        vec![("b".to_string(), vec!["fs".to_string()])]
    );
    assert!(!d.authority_expanded());
}

#[test]
fn gained_unknown_cap_still_gates_as_authority_expansion() {
    let d = diff_caps(
        &surf(&["fs"], &[("a", &["fs"])], false),
        &surf(
            &["custom_cap", "fs"],
            &[("a", &["custom_cap", "fs"])],
            false,
        ),
    );
    assert_eq!(d.aggregate_added, vec!["custom_cap"]);
    assert!(d.authority_expanded());
}

#[test]
fn gained_and_removed_lists_are_sorted_and_mix_known_and_unknown_names() {
    let d = diff_caps(
        &surf(&["zeta", "fs", "alpha"], &[], false),
        &surf(&["time", "beta", "env", "fs"], &[], false),
    );
    assert_eq!(d.aggregate_added, vec!["beta", "env", "time"]);
    assert_eq!(d.aggregate_removed, vec!["alpha", "zeta"]);
    assert!(!d.is_empty());
}
