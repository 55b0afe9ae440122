use garnet::audit::{AuditLog, BoundaryCall, BoundaryDirection};
use garnet::diagnostics::FnMode;
use garnet::span::Span;
use garnet::surfaces::{
    concurrency_surface, sort_explosive_reports, ActorContract, ActorDecl, ActorItem, ExplosiveKind, ExplosiveOp,
    FnExplosiveReport, ProtocolSig, DEFAULT_LOOP_CEILING, DEFAULT_SPAWN_FANOUT,
};

fn span(a: usize, b: usize) -> Span {
    Span { start: a, len: b.saturating_sub(a) }
}

fn call(caller: &str, cm: FnMode, callee: &str, dm: FnMode) -> BoundaryCall {
    BoundaryCall {
        caller_name: caller.into(),
        caller_mode: cm,
        callee_name: callee.into(),
        callee_mode: dm,
        span: span(0, 0),
    }
}

#[test]
fn direction_classification() {
    assert_eq!(call("a", FnMode::Managed, "b", FnMode::Safe).direction(), BoundaryDirection::ManagedToSafe);
    assert_eq!(call("a", FnMode::Safe, "b", FnMode::Managed).direction(), BoundaryDirection::SafeToManaged);
    assert_eq!(call("a", FnMode::Safe, "b", FnMode::Safe).direction(), BoundaryDirection::SafeInternal);
    assert_eq!(call("a", FnMode::Managed, "b", FnMode::Managed).direction(), BoundaryDirection::ManagedInternal);
}

#[test]
fn direction_counts_accumulate() {
    let mut log = AuditLog::new();
    log.push(call("x", FnMode::Managed, "y", FnMode::Safe));
    log.push(call("x", FnMode::Managed, "z", FnMode::Safe));
    log.push(call("y", FnMode::Safe, "w", FnMode::Managed));
    let (m2s, s2m, mm, ss) = log.direction_counts();
    assert_eq!(m2s, 2);
    assert_eq!(s2m, 1);
    assert_eq!(mm + ss, 0);
}

#[test]
fn audit_format_includes_header_and_entries() {
    let mut log = AuditLog::new();
    log.source_lines = 50;
    log.push(BoundaryCall {
        caller_name: "main".into(),
        caller_mode: FnMode::Managed,
        callee_name: "hash".into(),
        callee_mode: FnMode::Safe,
        span: span(10, 20),
    });
    let out = log.to_audit_format("src/main.garnet");
    assert!(out.contains("# Garnet ModeAuditLog v1"));
    assert!(out.contains("src/main.garnet"));
    assert!(out.contains("managed -> safe hash"));
    assert!(out.contains("managed->safe: 1"));
}

#[test]
fn audit_format_is_exact() {
    let mut log = AuditLog::new();
    log.source_lines = 7;
    log.push(BoundaryCall {
        caller_name: "main".into(),
        caller_mode: FnMode::Managed,
        callee_name: "hash".into(),
        callee_mode: FnMode::Safe,
        span: span(10, 20),
    });
    log.push(call("f", FnMode::Safe, "g", FnMode::Managed));
    assert_eq!(
        log.to_audit_format("m.garnet"),
        "# Garnet ModeAuditLog v1\n# source: m.garnet\n# total: 2 crossings across 7 LOC\n\
         # managed->safe: 1\n# safe->managed: 1\n# managed->managed: 0\n# safe->safe: 0\n\n\
         m.garnet:10:20 managed -> safe hash\nm.garnet:0:0 safe -> managed g\n"
    );
}

#[test]
fn audit_line_uses_source_placeholder() {
    let mut c = call("main", FnMode::Safe, "io", FnMode::Managed);
    c.span = span(3, 9);
    assert_eq!(c.audit_line(), "<source>:3:9 safe -> managed io");
}

#[test]
fn direction_text_uses_arrows() {
    assert_eq!(BoundaryDirection::ManagedToSafe.to_text(), "managed→safe");
    assert_eq!(BoundaryDirection::SafeToManaged.to_text(), "safe→managed");
    assert_eq!(BoundaryDirection::ManagedInternal.to_text(), "managed→managed");
    assert_eq!(BoundaryDirection::SafeInternal.to_text(), "safe→safe");
}

#[test]
fn span_join_covers_both() {
    let j = span(4, 9).join(span(2, 6));
    assert_eq!(j, Span { start: 2, len: 7 });
    assert_eq!(j.end(), 9);
}

fn op(kind: ExplosiveKind, at: usize) -> ExplosiveOp {
    ExplosiveOp { kind, span: span(at, at + 1) }
}

fn fn_report(name: &str, ops: Vec<ExplosiveOp>, has_bounded: bool, has_fan_out: bool) -> FnExplosiveReport {
    FnExplosiveReport { fn_name: name.to_string(), ops, has_bounded, has_fan_out }
}

#[test]
fn reports_sorted_by_name_keeping_source_order_of_equal_names() {
    let r = sort_explosive_reports(&vec![
        fn_report("zeta", vec![op(ExplosiveKind::Spawn, 1)], false, false),
        fn_report("alpha", vec![op(ExplosiveKind::Spawn, 2)], false, false),
        fn_report("clean", vec![], false, false),
        fn_report("alpha", vec![op(ExplosiveKind::UnconditionalLoop, 3)], true, false),
    ]);
    let names: Vec<&str> = r.iter().map(|x| x.fn_name.as_str()).collect();
    assert_eq!(names, vec!["alpha", "alpha", "zeta"]);
    assert_eq!(r[0].ops[0].span.start, 2);
    assert_eq!(r[1].ops[0].span.start, 3);
}

#[test]
fn default_ceilings() {
    assert_eq!(DEFAULT_LOOP_CEILING, 10_000_000);
    assert_eq!(DEFAULT_SPAWN_FANOUT, 1_024);
}

fn protocol(name: &str, arity: usize, reply: bool) -> ActorItem {
    ActorItem::Protocol(ProtocolSig { name: name.to_string(), arity, reply })
}

fn actor(name: &str, items: Vec<ActorItem>) -> ActorDecl {
    ActorDecl { name: name.to_string(), items }
}

#[test]
fn classifies_ask_vs_tell_protocols() {
    let s: Vec<ActorContract> = concurrency_surface(&vec![actor(
        "Counter",
        vec![protocol("incr", 0, false), protocol("get", 0, true), ActorItem::Handler, ActorItem::Handler],
    )]);
    assert_eq!(s.len(), 1);
    assert_eq!(s[0].name, "Counter");
    assert_eq!(s[0].handlers, 2);
    assert_eq!(s[0].protocols[0].name, "get");
    assert!(s[0].protocols[0].reply, "get() -> Int is an ask");
    assert_eq!(s[0].protocols[1].name, "incr");
    assert!(!s[0].protocols[1].reply, "incr() (no return) is a tell");
}

#[test]
fn actors_sorted_and_non_actor_modules_empty() {
    assert!(concurrency_surface(&vec![]).is_empty());
    let s = concurrency_surface(&vec![
        actor("Zebra", vec![protocol("z", 0, true), ActorItem::Handler]),
        actor("Alpha", vec![protocol("a", 0, true), ActorItem::Handler]),
    ]);
    assert_eq!(s[0].name, "Alpha");
    assert_eq!(s[1].name, "Zebra");
}

#[test]
fn memory_and_let_items_are_neither_protocols_nor_handlers() {
    let s = concurrency_surface(&vec![actor(
        "Store",
        vec![ActorItem::Memory, ActorItem::Let, protocol("put", 2, false), ActorItem::Handler],
    )]);
    assert_eq!(s[0].handlers, 1);
    assert_eq!(s[0].protocols, vec![ProtocolSig { name: "put".into(), arity: 2, reply: false }]);
}
