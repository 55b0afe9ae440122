use garnet::caps_graph::{check_caps_coverage, Callee, CapsModule, CapsReport, FnDecl, Primitive};
use std::collections::BTreeSet;

fn registry() -> Vec<Primitive> {
    let entries: [(&str, &[&str]); 5] = [
        ("fs::read_file", &["fs"]),
        ("fs::write_file", &["fs"]),
        ("net::http_get", &["net"]),
        ("str::trim", &[]),
        ("time::now_ms", &["time"]),
    ];
    entries
        .iter()
        .map(|(n, caps)| Primitive { name: n.to_string(), caps: caps.iter().map(|c| c.to_string()).collect() })
        .collect()
}

fn name(n: &str) -> Callee {
    Callee::Name(n.to_string())
}

fn method(n: &str) -> Callee {
    Callee::Method(n.to_string())
}

fn path(segs: &[&str]) -> Callee {
    Callee::Path(segs.iter().map(|s| s.to_string()).collect())
}

fn def(n: &str, caps: Option<&[&str]>, callees: Vec<Callee>) -> FnDecl {
    FnDecl {
        owner: None,
        name: n.to_string(),
        caps: caps.map(|c| c.iter().map(|s| s.to_string()).collect()),
        callees,
    }
}

fn method_def(owner: &str, n: &str, caps: Option<&[&str]>, callees: Vec<Callee>) -> FnDecl {
    FnDecl { owner: Some(owner.to_string()), ..def(n, caps, callees) }
}

fn module(fns: Vec<FnDecl>) -> CapsModule {
    CapsModule { fns, memory_kinds: Vec::new() }
}

fn report(fns: Vec<FnDecl>) -> CapsReport {
    check_caps_coverage(&module(fns), &registry())
}

/// `(fn, missing, via)` triples in report order.
fn violations(fns: Vec<FnDecl>) -> Vec<(String, String, String)> {
    report(fns).violations.into_iter().map(|v| (v.fn_name, v.missing, v.via)).collect()
}

fn triples(items: &[(&str, &str, &str)]) -> Vec<(String, String, String)> {
    items.iter().map(|(f, m, v)| (f.to_string(), m.to_string(), v.to_string())).collect()
}

/// `holder` declares `fs` and calls `partner` and `write_file`; `partner`
/// declares `@caps()` and calls `holder`; `main` declares `@caps()` and
/// calls `partner`.
fn register_shape(holder: &str, partner: &str) -> Vec<FnDecl> {
    vec![
        def(holder, Some(&["fs"]), vec![name(partner), name("write_file")]),
        def(partner, Some(&[]), vec![name(holder)]),
        def("main", Some(&[]), vec![name(partner)]),
    ]
}

#[test]
fn u117_register_cycle_reports_b_and_main() {
    assert_eq!(
        violations(register_shape("a", "b")),
        triples(&[("b", "fs", "fs::write_file (via a)"), ("main", "fs", "fs::write_file (via b → a)"),])
    );
}

#[test]
fn u117_cycle_verdict_is_independent_of_function_names() {
    let pairs = [
        ("a", "b"),
        ("b", "a"),
        ("zed", "yak"),
        ("yak", "zed"),
        ("a", "zed"),
        ("zed", "a"),
        ("m", "n"),
        ("n", "m"),
    ];
    for (holder, partner) in pairs {
        let r = report(register_shape(holder, partner));
        let got: BTreeSet<(String, String)> =
            r.violations.iter().map(|v| (v.fn_name.clone(), v.missing.clone())).collect();
        let want: BTreeSet<(String, String)> =
            [(partner.to_string(), "fs".to_string()), ("main".to_string(), "fs".to_string())].into_iter().collect();
        assert_eq!(got, want, "pair ({holder}, {partner}) gave {got:?}");
        for f in [holder, partner, "main"] {
            assert!(r.transitive_of(f).unwrap().contains("fs"), "pair ({holder}, {partner}): transitive[{f}] lacks fs");
        }
    }
}

#[test]
fn u117_three_member_cycle_reports_every_annotated_member() {
    let fns = vec![
        def("a", Some(&["fs"]), vec![name("b"), name("write_file")]),
        def("b", Some(&[]), vec![name("c")]),
        def("c", Some(&[]), vec![name("a")]),
        def("main", Some(&[]), vec![name("c")]),
    ];
    assert_eq!(
        violations(fns),
        triples(&[
            ("b", "fs", "fs::write_file (via c → a)"),
            ("c", "fs", "fs::write_file (via a)"),
            ("main", "fs", "fs::write_file (via c → a)"),
        ])
    );
}

#[test]
fn u117_unannotated_cycle_still_reports_annotated_caller() {
    let fns = vec![
        def("a", None, vec![name("b"), name("write_file")]),
        def("b", None, vec![name("a")]),
        def("main", Some(&[]), vec![name("b")]),
    ];
    assert_eq!(violations(fns), triples(&[("main", "fs", "fs::write_file (via b → a)")]));
}

#[test]
fn u117_method_call_cycle_reports() {
    let fns = vec![
        method_def("A", "go", Some(&["fs"]), vec![name("helper"), name("write_file")]),
        def("helper", Some(&[]), vec![method("go")]),
        def("main", Some(&[]), vec![name("helper")]),
    ];
    assert_eq!(
        violations(fns),
        triples(&[
            ("helper", "fs", "fs::write_file (via .go() → A::go)"),
            ("main", "fs", "fs::write_file (via helper → .go() → A::go)"),
        ])
    );
}

#[test]
fn u117_dense_cycle_finishes_in_bounded_time_and_reports_every_member() {
    const N: usize = 150;
    let mut fns = Vec::new();
    for i in 0..N {
        let mut callees: Vec<Callee> = (0..N).map(|j| name(&format!("g{j}"))).collect();
        if i == N - 1 {
            callees.push(name("now_ms"));
        }
        fns.push(def(&format!("g{i}"), Some(&[]), callees));
    }
    let r = report(fns);
    let flagged: BTreeSet<&str> =
        r.violations.iter().filter(|v| v.missing == "time").map(|v| v.fn_name.as_str()).collect();
    assert_eq!(flagged.len(), N, "every member must be reported, got {flagged:?}");
    for i in 0..N {
        assert!(r.transitive_of(&format!("g{i}")).unwrap().contains("time"));
    }
}

#[test]
fn via_names_the_primitive_behind_a_cycle() {
    assert_eq!(
        violations(register_shape("a", "b")),
        triples(&[("b", "fs", "fs::write_file (via a)"), ("main", "fs", "fs::write_file (via b → a)"),])
    );
}

#[test]
fn via_names_the_primitive_behind_an_acyclic_helper() {
    let fns = vec![
        def("helper", Some(&["fs"]), vec![name("read_file")]),
        def("main", Some(&[]), vec![name("helper")]),
    ];
    assert_eq!(violations(fns), triples(&[("main", "fs", "fs::read_file (via helper)")]));
}

#[test]
fn via_qualifies_a_bare_direct_primitive() {
    let fns = vec![def("main", Some(&[]), vec![name("read_file")])];
    assert_eq!(violations(fns), triples(&[("main", "fs", "fs::read_file")]));
}

#[test]
fn fn_calling_fs_prim_without_caps_flagged() {
    let r = report(vec![def("main", Some(&[]), vec![name("read_file")])]);
    assert!(r.violations.iter().any(|v| v.fn_name == "main" && v.missing == "fs"), "got {:?}", r.violations);
}

#[test]
fn fn_with_matching_caps_passes() {
    let r = report(vec![def("main", Some(&["fs"]), vec![name("read_file")])]);
    assert!(r.violations.is_empty(), "got {:?}", r.violations);
}

#[test]
fn wildcard_fn_skips_coverage_check() {
    let r = report(vec![def("main", Some(&["*"]), vec![name("read_file")])]);
    assert!(r.violations.is_empty(), "got {:?}", r.violations);
}

#[test]
fn transitive_caps_flow_through_user_fn() {
    let r = report(vec![
        def("helper", None, vec![name("read_file")]),
        def("main", Some(&[]), vec![name("helper")]),
    ]);
    assert!(r.violations.iter().any(|v| v.fn_name == "main" && v.missing == "fs"), "got {:?}", r.violations);
}

#[test]
fn self_recursion_does_not_hang() {
    let r = report(vec![def("main", Some(&["fs"]), vec![name("read_file"), name("main")])]);
    assert!(r.violations.is_empty());
    assert!(r.transitive_of("main").unwrap().contains("fs"));
}

#[test]
fn mutual_recursion_does_not_hang() {
    let r = report(vec![
        def("ping", None, vec![name("read_file"), name("pong")]),
        def("pong", None, vec![name("write_file"), name("ping")]),
        def("main", Some(&["fs"]), vec![name("ping")]),
    ]);
    assert!(r.violations.is_empty());
    assert!(r.transitive_of("main").unwrap().contains("fs"));
}

#[test]
fn time_and_net_separate() {
    let r = report(vec![def("main", Some(&["fs"]), vec![name("now_ms")])]);
    assert!(r.violations.iter().any(|v| v.fn_name == "main" && v.missing == "time"), "got {:?}", r.violations);
}

#[test]
fn qualified_path_resolves_to_prim() {
    let r = report(vec![def("main", Some(&[]), vec![path(&["fs", "read_file"])])]);
    assert!(r.violations.iter().any(|v| v.fn_name == "main" && v.missing == "fs"), "got {:?}", r.violations);
}

#[test]
fn pure_fn_needs_no_caps() {
    let r = report(vec![def("main", Some(&[]), vec![name("trim")])]);
    assert!(r.violations.is_empty(), "got {:?}", r.violations);
}

#[test]
fn violation_carries_representative_via() {
    let r = report(vec![def("main", Some(&[]), vec![name("read_file")])]);
    let v = r.violations.iter().find(|v| v.fn_name == "main").expect("violation present");
    assert!(v.via.contains("read_file"), "got '{}'", v.via);
}

#[test]
fn long_paths_are_shortened_around_an_ellipsis() {
    const DEPTH: usize = 40;
    let mut fns = Vec::new();
    for i in 0..DEPTH {
        fns.push(def(&format!("f{i}"), None, vec![name(&format!("f{}", i + 1))]));
    }
    fns.push(def(&format!("f{DEPTH}"), None, vec![name("write_file")]));
    fns.push(def("main", Some(&[]), vec![name("f0")]));
    let r = report(fns);
    assert!(r.transitive_of("f0").unwrap().contains("fs"));
    assert_eq!(
        r.violations.iter().map(|v| (v.fn_name.as_str(), v.missing.as_str(), v.via.as_str())).collect::<Vec<_>>(),
        vec![("main", "fs", "fs::write_file (via f0 → f1 → f2 → … → f38 → f39 → f40)")]
    );
}

#[test]
fn six_hops_are_shown_whole() {
    let mut fns = Vec::new();
    for i in 0..5 {
        fns.push(def(&format!("f{i}"), None, vec![name(&format!("f{}", i + 1))]));
    }
    fns.push(def("f5", None, vec![name("now_ms")]));
    fns.push(def("main", Some(&[]), vec![name("f0")]));
    assert_eq!(
        violations(fns),
        triples(&[("main", "time", "time::now_ms (via f0 → f1 → f2 → f3 → f4 → f5)")])
    );
}

#[test]
fn user_function_shadows_a_primitive_of_the_same_name() {
    // `read_file` names the module's own function, which needs nothing.
    let r = report(vec![def("read_file", None, vec![]), def("main", Some(&[]), vec![name("read_file")])]);
    assert!(r.violations.is_empty(), "got {:?}", r.violations);
}

#[test]
fn method_calls_union_every_impl_of_the_name() {
    let fns = vec![
        method_def("A", "run", None, vec![name("read_file")]),
        method_def("B", "run", None, vec![name("now_ms")]),
        def("main", Some(&[]), vec![method("run")]),
    ];
    assert_eq!(
        violations(fns),
        triples(&[("main", "fs", "fs::read_file (via .run() → A::run)"), ("main", "time", "time::now_ms (via .run() → B::run)"),])
    );
}

#[test]
fn unannotated_non_main_functions_are_not_checked() {
    let r = report(vec![def("helper", None, vec![name("read_file")])]);
    assert!(r.violations.is_empty());
    assert!(r.transitive_of("helper").unwrap().contains("fs"));
}

#[test]
fn main_is_checked_even_without_an_annotation() {
    assert_eq!(violations(vec![def("main", None, vec![name("read_file")])]), triples(&[("main", "fs", "fs::read_file")]));
}

#[test]
fn transitive_listing_is_sorted_by_key() {
    let r = report(vec![def("zeta", None, vec![]), def("alpha", None, vec![]), method_def("T", "m", None, vec![])]);
    let keys: Vec<&str> = r.transitive.iter().map(|(k, _)| k.as_str()).collect();
    assert_eq!(keys, vec!["T::m", "alpha", "zeta"]);
}
