use garnet::ast::{
    ActorDef, ActorMember, Annotation, BinOp, Block, Expr, FnDef, HandlerDef, Item, LetDecl, Module, Ownership,
    Param, ProtocolDef, Rescue, Stmt, StructDef,
};
use garnet::caps_graph::Primitive;
use garnet::coherence::TypeExpr;
use garnet::diagnostics::{CheckError, CheckReport, FnMode, Severity};
use garnet::module_check::check_module;
use garnet::stability::Stability;

fn ty(path: &str) -> TypeExpr {
    TypeExpr::Named { path: path.split("::").map(|s| s.to_string()).collect(), args: vec![] }
}

fn block(stmts: Vec<Stmt>, tail: Option<Expr>) -> Block {
    Block { stmts, tail_expr: tail.map(Box::new) }
}

fn call(f: &str, args: Vec<Expr>) -> Expr {
    Expr::Call { callee: Box::new(Expr::Ident(f.to_string())), args }
}

fn path_call(p: &str, args: Vec<Expr>) -> Expr {
    Expr::Call { callee: Box::new(Expr::Path(p.split("::").map(|s| s.to_string()).collect())), args }
}

fn add(l: Expr, r: Expr) -> Expr {
    Expr::Binary { op: BinOp::Add, lhs: Box::new(l), rhs: Box::new(r) }
}

fn param(name: &str, t: Option<&str>) -> Param {
    Param { name: name.to_string(), ty: t.map(ty), ownership: None }
}

fn fn_item(name: &str, mode: FnMode, annotations: Vec<Annotation>, params: Vec<Param>, ret: Option<&str>, body: Block) -> Item {
    Item::Fn(FnDef { name: name.to_string(), mode, annotations, params, return_ty: ret.map(ty), body })
}

/// `def name() { body }`
fn def(name: &str, annotations: Vec<Annotation>, body: Block) -> Item {
    fn_item(name, FnMode::Managed, annotations, vec![], None, body)
}

fn one() -> Block {
    block(vec![], Some(Expr::Int(1)))
}

fn module(safe: bool, items: Vec<Item>) -> Module {
    Module { safe, items }
}

fn check(m: &Module) -> CheckReport {
    check_module(m, &vec![], &vec![], false)
}

fn any_annotation_error(r: &CheckReport) -> bool {
    r.errors.iter().any(|e| matches!(e, CheckError::AnnotationError(_)))
}

fn var_x() -> Stmt {
    Stmt::Var(LetDecl { name: "x".to_string(), ty: None, value: Expr::Int(1) })
}

fn raise() -> Stmt {
    Stmt::Raise { value: Expr::Str("oops".to_string()) }
}

fn try_expr() -> Expr {
    Expr::Try {
        body: one(),
        rescues: vec![Rescue { name: Some("e".to_string()), ty: None, body: block(vec![], Some(Expr::Int(2))), span: garnet::span::Span { start: 0, len: 1 } }],
        ensure: None,
    }
}

// ── Mode tagging ──

#[test]
fn def_function_tagged_managed() {
    let r = check(&module(false, vec![def("f", vec![], one())]));
    assert_eq!(r.mode_map.len(), 1);
    assert_eq!(r.mode_map[0].0, "f");
    assert!(matches!(r.mode_map[0].1, FnMode::Managed));
}

#[test]
fn fn_function_tagged_safe() {
    let r = check(&module(
        false,
        vec![fn_item("f", FnMode::Safe, vec![], vec![param("x", Some("Int"))], Some("Int"), block(vec![], Some(Expr::Ident("x".to_string()))))],
    ));
    assert_eq!(r.mode_map.len(), 1);
    assert!(matches!(r.mode_map[0].1, FnMode::Safe));
}

#[test]
fn multiple_functions_each_tagged() {
    let r = check(&module(
        false,
        vec![
            def("m1", vec![], one()),
            fn_item("s1", FnMode::Safe, vec![], vec![param("x", Some("Int"))], Some("Int"), block(vec![], Some(Expr::Ident("x".to_string())))),
            def("m2", vec![], block(vec![], Some(Expr::Int(2)))),
        ],
    ));
    assert_eq!(r.mode_map.len(), 3);
}

// ── Annotation bound checks ──

#[test]
fn max_depth_in_range_passes() {
    assert!(!any_annotation_error(&check(&module(false, vec![def("f", vec![Annotation::MaxDepth(8)], one())]))));
}

#[test]
fn max_depth_zero_fails() {
    assert!(any_annotation_error(&check(&module(false, vec![def("f", vec![Annotation::MaxDepth(0)], one())]))));
}

#[test]
fn max_depth_overflow_fails() {
    assert!(any_annotation_error(&check(&module(false, vec![def("f", vec![Annotation::MaxDepth(100)], one())]))));
}

#[test]
fn fan_out_in_range_passes() {
    assert!(!any_annotation_error(&check(&module(false, vec![def("f", vec![Annotation::FanOut(50)], one())]))));
}

#[test]
fn fan_out_zero_fails() {
    assert!(any_annotation_error(&check(&module(false, vec![def("f", vec![Annotation::FanOut(0)], one())]))));
}

#[test]
fn fan_out_overflow_fails() {
    assert!(any_annotation_error(&check(&module(false, vec![def("f", vec![Annotation::FanOut(2000)], one())]))));
}

// ── Safe-mode discipline ──

#[test]
fn safe_module_var_use_flagged() {
    let r = check(&module(true, vec![def("bad", vec![], block(vec![var_x()], Some(Expr::Ident("x".to_string()))))]));
    assert!(r.errors.iter().any(|e| matches!(e, CheckError::SafeModeViolation(m) if m.contains("var"))));
}

#[test]
fn safe_module_raise_flagged() {
    let r = check(&module(true, vec![def("bad", vec![], block(vec![raise()], None))]));
    assert!(r.errors.iter().any(|e| matches!(e, CheckError::SafeModeViolation(m) if m.contains("raise"))));
}

#[test]
fn safe_module_try_flagged() {
    let r = check(&module(true, vec![def("bad", vec![], block(vec![], Some(try_expr())))]));
    assert!(r.errors.iter().any(|e| matches!(e, CheckError::SafeModeViolation(m) if m.contains("try"))));
}

#[test]
fn managed_module_var_allowed() {
    let r = check(&module(false, vec![def("ok", vec![], block(vec![var_x()], Some(Expr::Ident("x".to_string()))))]));
    assert!(!r.errors.iter().any(|e| matches!(e, CheckError::SafeModeViolation(_))));
}

#[test]
fn managed_module_raise_allowed() {
    let r = check(&module(false, vec![def("ok", vec![], block(vec![raise()], None))]));
    assert!(!r.errors.iter().any(|e| matches!(e, CheckError::SafeModeViolation(_))));
}

#[test]
fn safe_fn_with_full_signature_passes() {
    let body = block(vec![], Some(add(Expr::Ident("x".to_string()), Expr::Ident("y".to_string()))));
    let r = check(&module(
        false,
        vec![fn_item("good", FnMode::Safe, vec![], vec![param("x", Some("Int")), param("y", Some("Int"))], Some("Int"), body)],
    ));
    assert!(!r.errors.iter().any(|e| matches!(e, CheckError::SafeModeViolation(_))));
}

// ── Boundary call site detection ──

#[test]
fn boundary_count_increments_per_call() {
    let main_body = block(vec![], Some(add(add(call("foo", vec![]), call("bar", vec![])), call("baz", vec![]))));
    let r = check(&module(
        false,
        vec![def("main", vec![], main_body), def("foo", vec![], one()), def("bar", vec![], one()), def("baz", vec![], one())],
    ));
    assert!(r.boundary_call_sites >= 3);
}

#[test]
fn boundary_count_zero_for_pure_arithmetic() {
    let body = block(vec![], Some(add(add(add(Expr::Int(1), Expr::Int(2)), Expr::Int(3)), Expr::Int(4))));
    let r = check(&module(false, vec![def("f", vec![], body)]));
    assert_eq!(r.boundary_call_sites, 0);
}

#[test]
fn boundary_count_increments_for_method_call() {
    let body = block(
        vec![Stmt::Let(LetDecl { name: "s".to_string(), ty: None, value: Expr::Str("hello".to_string()) })],
        Some(Expr::Method { receiver: Box::new(Expr::Ident("s".to_string())), method: "upcase".to_string(), args: vec![] }),
    );
    let r = check(&module(false, vec![def("f", vec![], body)]));
    assert!(r.boundary_call_sites >= 1);
}

// ── Report.ok() ──

#[test]
fn report_ok_true_for_clean_module() {
    assert!(check(&module(false, vec![def("f", vec![], one())])).ok());
}

#[test]
fn report_ok_false_for_safe_violation() {
    let r = check(&module(true, vec![def("bad", vec![], block(vec![var_x()], Some(Expr::Ident("x".to_string()))))]));
    assert!(!r.ok());
}

#[test]
fn report_ok_false_for_annotation_error() {
    assert!(!check(&module(false, vec![def("f", vec![Annotation::MaxDepth(0)], one())])).ok());
}

// ── The checker's own smoke tests ──

#[test]
fn managed_module_has_no_safe_violations() {
    let r = check(&module(false, vec![def("greet", vec![], block(vec![], Some(Expr::Str("hello".to_string()))))]));
    assert!(r.ok(), "expected no errors, got {:?}", r.errors);
}

#[test]
fn safe_fn_without_return_type_flagged() {
    let r = check(&module(true, vec![def("bad", vec![], block(vec![Stmt::Var(LetDecl { name: "x".to_string(), ty: None, value: Expr::Int(42) })], Some(Expr::Ident("x".to_string()))))]));
    assert!(r.errors.iter().any(|e| matches!(e, CheckError::SafeModeViolation(m) if m.contains("var"))), "expected var violation, got {:?}", r.errors);
}

#[test]
fn safe_fn_with_raise_flagged() {
    let r = check(&module(true, vec![def("oops", vec![], block(vec![raise()], Some(Expr::Int(0))))]));
    assert!(r.errors.iter().any(|e| matches!(e, CheckError::SafeModeViolation(m) if m.contains("raise"))), "expected raise violation");
}

#[test]
fn annotation_bounds_enforced() {
    let r = check(&module(false, vec![def("recursive", vec![Annotation::MaxDepth(200)], block(vec![], Some(call("recursive", vec![]))))]));
    assert!(any_annotation_error(&r), "expected annotation error");
}

#[test]
fn boundary_call_sites_counted() {
    let outer = fn_item("outer", FnMode::Managed, vec![], vec![param("x", None)], None, block(vec![], Some(add(call("inner", vec![Expr::Ident("x".to_string())]), Expr::Int(1)))));
    let inner = fn_item("inner", FnMode::Managed, vec![], vec![param("x", None)], None, block(vec![], Some(Expr::Ident("x".to_string()))));
    assert!(check(&module(false, vec![outer, inner])).boundary_call_sites > 0);
}

fn env_registry() -> Vec<Primitive> {
    vec![Primitive { name: "std::env::get".to_string(), caps: vec!["env".to_string()] }]
}

fn env_main(caps: &[&str]) -> Module {
    module(
        false,
        vec![def(
            "main",
            vec![Annotation::Caps(caps.iter().map(|c| c.to_string()).collect())],
            block(vec![], Some(path_call("std::env::get", vec![Expr::Str("HOME".to_string())]))),
        )],
    )
}

#[test]
fn env_is_a_known_capability() {
    let r = check_module(&env_main(&["env"]), &env_registry(), &vec![], false);
    assert!(!r.errors.iter().any(|e| matches!(e, CheckError::AnnotationError(m) if m.contains("unknown capability"))), "got {:?}", r.errors);
    assert!(!r.errors.iter().any(|e| matches!(e, CheckError::CapsCoverage { missing, .. } if missing == "env")), "got {:?}", r.errors);
}

#[test]
fn env_call_without_declaration_is_caps_violation() {
    let r = check_module(&env_main(&[]), &env_registry(), &vec![], false);
    assert!(r.errors.iter().any(|e| matches!(e, CheckError::CapsCoverage { missing, .. } if missing == "env")), "got {:?}", r.errors);
}

#[test]
fn truly_unknown_capability_still_rejected() {
    let r = check(&module(false, vec![def("main", vec![Annotation::Caps(vec!["quux".to_string()])], block(vec![], Some(Expr::Int(0))))]));
    assert!(
        r.errors.iter().any(|e| matches!(e, CheckError::AnnotationError(m) if m.contains("unknown capability") && m.contains("quux"))),
        "got {:?}",
        r.errors
    );
}

#[test]
fn stability_advice_is_non_fatal() {
    let m = module(false, vec![def("main", vec![Annotation::Caps(vec![])], block(vec![], Some(path_call("std::json::parse", vec![Expr::Ident("s".to_string())]))))]);
    let tiers = vec![("std::json::parse".to_string(), Stability::Experimental)];
    let r = check_module(&m, &vec![], &tiers, false);
    assert!(r.errors.iter().any(|e| matches!(e, CheckError::StabilityAdvice(_))), "got {:?}", r.errors);
    assert!(r.ok(), "got {:?}", r.errors);
}

#[test]
fn s29_stability_error_is_fatal_advice_is_not() {
    let mut fatal = CheckReport::default();
    fatal.errors.push(CheckError::StabilityError("stability error: x".into()));
    assert!(!fatal.ok());
    let mut advisory = CheckReport::default();
    advisory.errors.push(CheckError::StabilityAdvice("stability warning: x".into()));
    assert!(advisory.ok());
}

#[test]
fn linear_effect_error_has_canonical_code_and_severity() {
    let error = CheckError::LinearEffect("linear/effect violation: x".to_string());
    assert_eq!(error.severity(), Severity::Error);
    assert_eq!(error.code(), "check.linear_effect");
    let mut report = CheckReport::default();
    report.errors.push(error);
    assert!(!report.ok());
}

// ── Exact texts and the remaining rules ──

fn texts(r: &CheckReport) -> Vec<String> {
    r.errors.iter().map(|e| e.message()).collect()
}

#[test]
fn exact_annotation_and_signature_texts() {
    let f = fn_item(
        "f",
        FnMode::Safe,
        vec![Annotation::Mailbox(0), Annotation::Bounded(-3), Annotation::Caps(vec!["*".to_string()]), Annotation::Caps(vec![])],
        vec![param("a", None)],
        None,
        block(vec![], Some(Expr::Int(1))),
    );
    let r = check(&module(false, vec![f]));
    assert_eq!(
        texts(&r),
        vec![
            "annotation error: @mailbox on 'f' must be in 1..=1048576, got 0".to_string(),
            "annotation error: @bounded on 'f' must declare a positive fuel budget, got -3".to_string(),
            "annotation error: function 'f' has multiple @caps(...) annotations; merge them".to_string(),
            "annotation error: safe function 'f' may not use @caps(*) wildcard; enumerate the specific capabilities required".to_string(),
            "safe-mode violation: safe function 'f' parameter 'a' missing type annotation".to_string(),
            "safe-mode violation: safe function 'f' missing return type".to_string(),
        ]
    );
    assert_eq!(r.fn_caps, vec![("f".to_string(), vec!["*".to_string()])]);
}

#[test]
fn main_must_declare_caps() {
    let r = check(&module(false, vec![def("main", vec![], one())]));
    assert_eq!(
        texts(&r),
        vec!["annotation error: `main` function must declare its required capabilities; use @caps() for purely-computational programs, or @caps(fs, net, ...) listing the OS authority required".to_string()]
    );
}

fn ref_ty(inner: &str) -> TypeExpr {
    TypeExpr::Ref { mutable: false, inner: Box::new(ty(inner)) }
}

#[test]
fn returned_references_need_one_borrowed_input() {
    let mk = |name: &str, params: Vec<Param>| {
        Item::Fn(FnDef { name: name.to_string(), mode: FnMode::Safe, annotations: vec![], params, return_ty: Some(ref_ty("Int")), body: one() })
    };
    let borrowed = |n: &str| Param { name: n.to_string(), ty: Some(ty("Int")), ownership: Some(Ownership::Borrow) };
    let r = check(&module(
        false,
        vec![
            mk("none", vec![param("x", Some("Int"))]),
            mk("two", vec![borrowed("a"), borrowed("b")]),
            mk("one", vec![borrowed("a")]),
            mk("method", vec![borrowed("self"), borrowed("b")]),
        ],
    ));
    assert_eq!(
        texts(&r),
        vec![
            "safe-mode violation: missing lifetime specifier: safe function 'none' returns a reference but has no borrowed input lifetime to tie it to".to_string(),
            "safe-mode violation: missing lifetime specifier: safe function 'two' returns a reference with multiple borrowed inputs; write an explicit lifetime once lifetime syntax is enabled".to_string(),
        ]
    );
}

#[test]
fn dynamic_items_and_nonsendable_crossings() {
    let dynamic_struct = Item::Struct(StructDef { name: "D".to_string(), annotations: vec![Annotation::Dynamic] });
    let ns = Item::Struct(StructDef { name: "Handle".to_string(), annotations: vec![Annotation::NonSendable] });
    let actor = Item::Actor(ActorDef {
        name: "Worker".to_string(),
        items: vec![
            ActorMember::Protocol(ProtocolDef { name: "send".to_string(), params: vec![param("h", Some("Handle"))], return_ty: None }),
            ActorMember::Handler(HandlerDef { name: "send".to_string(), params: vec![param("h", Some("Handle"))] }),
        ],
    });
    let r = check(&module(true, vec![dynamic_struct, ns, actor]));
    assert_eq!(
        texts(&r),
        vec![
            "annotation error: @dynamic struct 'D' is not permitted in @safe modules; use trait + dyn Trait".to_string(),
            "annotation error: @nonsendable type `Handle` cannot cross actor `Worker` protocol `send` via parameter `h`".to_string(),
            "annotation error: @nonsendable type `Handle` cannot cross actor `Worker` handler `send` via parameter `h`".to_string(),
        ]
    );
}

#[test]
fn overcatch_advisory_text() {
    let body = block(
        vec![],
        Some(Expr::Try {
            body: one(),
            rescues: vec![Rescue { name: None, ty: None, body: one(), span: garnet::span::Span { start: 10, len: 5 } }],
            ensure: None,
        }),
    );
    let r = check(&module(false, vec![def("f", vec![], body)]));
    assert_eq!(
        r.errors[0].message(),
        "catch-all rescue at 10..15 swallows every exception; prefer a typed Result or name the rescue type (advisory)"
    );
    assert!(r.ok());
}

// ── The call graph and surfaces read off a module ──

use garnet::ast::{ImplBlock, MatchArm, ModuleDecl, Pattern};
use garnet::caps_graph::Callee;
use garnet::caps_source::caps_module_of;
use garnet::module_check::check_module_caps;
use garnet::module_surfaces::{concurrency_surface_of, suggest_for};
use garnet::suggest::Rule;

fn callee_text(c: &Callee) -> String {
    match c {
        Callee::Name(n) => format!("name:{n}"),
        Callee::Path(p) => format!("path:{}", p.join("::")),
        Callee::Method(m) => format!("method:{m}"),
    }
}

#[test]
fn callees_are_read_from_every_part_of_a_body() {
    // def main() { let x = read_file(p); if c { fs::write(x) } ; match y { _ => x.close(g()) } }
    let body = block(
        vec![
            Stmt::Let(LetDecl { name: "x".to_string(), ty: None, value: call("read_file", vec![Expr::Ident("p".to_string())]) }),
            Stmt::Expr(Expr::If {
                condition: Box::new(Expr::Ident("c".to_string())),
                then_block: block(vec![], Some(path_call("fs::write", vec![Expr::Ident("x".to_string())]))),
                elsif_clauses: vec![],
                else_block: None,
            }),
        ],
        Some(Expr::Match {
            subject: Box::new(Expr::Ident("y".to_string())),
            arms: vec![MatchArm {
                pattern: Pattern::Wildcard,
                guard: None,
                body: block(
                    vec![],
                    Some(Expr::Method { receiver: Box::new(Expr::Ident("x".to_string())), method: "close".to_string(), args: vec![call("g", vec![])] }),
                ),
            }],
        }),
    );
    let m = module(false, vec![def("main", vec![Annotation::Caps(vec!["fs".to_string()])], body)]);
    let g = caps_module_of(&m);
    assert_eq!(g.fns.len(), 1);
    assert_eq!(g.fns[0].name, "main");
    assert_eq!(g.fns[0].caps, Some(vec!["fs".to_string()]));
    let got: Vec<String> = g.fns[0].callees.iter().map(callee_text).collect();
    assert_eq!(got, vec!["name:read_file", "path:fs::write", "method:close", "name:g"]);
}

#[test]
fn impl_methods_are_owned_by_the_last_segment_and_memory_is_collected() {
    let imp = Item::Impl(ImplBlock {
        annotations: vec![],
        trait_ty: None,
        type_params: vec![],
        target: ty("store::Cache"),
        methods: vec![FnDef { name: "get".to_string(), mode: FnMode::Managed, annotations: vec![], params: vec![], return_ty: None, body: one() }],
    });
    let nested = Item::Module(ModuleDecl { name: "inner".to_string(), safe: false, items: vec![Item::Memory("vector".to_string()), def("h", vec![], one())] });
    let actor = Item::Actor(ActorDef { name: "A".to_string(), items: vec![ActorMember::Memory("episodic".to_string())] });
    let g = caps_module_of(&module(false, vec![imp, nested, actor]));
    assert_eq!(g.fns.len(), 2);
    assert_eq!(g.fns[0].owner, Some("Cache".to_string()));
    assert_eq!(g.fns[0].caps, None);
    assert_eq!(g.fns[1].owner, None);
    assert_eq!(g.fns[1].name, "h");
    assert_eq!(g.memory_kinds, vec!["vector".to_string(), "episodic".to_string()]);
}

#[test]
fn caps_check_runs_over_a_module() {
    // helper() calls read_file (needs fs); main declares @caps() and calls helper.
    let registry = vec![Primitive { name: "fs::read_file".to_string(), caps: vec!["fs".to_string()] }];
    let m = module(
        false,
        vec![
            def("helper", vec![Annotation::Caps(vec!["fs".to_string()])], block(vec![], Some(call("read_file", vec![])))),
            def("main", vec![Annotation::Caps(vec![])], block(vec![], Some(call("helper", vec![])))),
        ],
    );
    let r = check_module_caps(&m, &registry);
    assert_eq!(r.violations.len(), 1);
    assert_eq!(r.violations[0].fn_name, "main");
    assert_eq!(r.violations[0].missing, "fs");
}

#[test]
fn suggestions_read_off_a_module() {
    let m = module(
        false,
        vec![
            def("helper", vec![], one()),
            def("noted", vec![Annotation::Caps(vec![])], block(vec![], None)),
            Item::Impl(ImplBlock { annotations: vec![], trait_ty: None, type_params: vec![], target: ty("T"), methods: vec![] }),
        ],
    );
    let s = suggest_for(&m);
    assert_eq!(s.len(), 2);
    assert_eq!(s[0].rule, Rule::ManagedFnMissingCaps);
    assert_eq!(s[0].function, "helper");
    assert_eq!(s[1].rule, Rule::EmptyFunctionBody);
    assert_eq!(s[1].function, "noted");
}

#[test]
fn concurrency_surface_read_off_a_module() {
    let actor = |name: &str, protos: Vec<(&str, bool)>| {
        Item::Actor(ActorDef {
            name: name.to_string(),
            items: protos
                .into_iter()
                .map(|(p, ask)| ActorMember::Protocol(ProtocolDef { name: p.to_string(), params: vec![], return_ty: if ask { Some(ty("Int")) } else { None } }))
                .chain(std::iter::once(ActorMember::Handler(HandlerDef { name: "h".to_string(), params: vec![] })))
                .collect(),
        })
    };
    let m = module(false, vec![actor("Zebra", vec![("z", true)]), def("f", vec![], one()), actor("Alpha", vec![("incr", false), ("get", true)])]);
    let s = concurrency_surface_of(&m);
    assert_eq!(s.len(), 2);
    assert_eq!(s[0].name, "Alpha");
    assert_eq!(s[0].protocols[0].name, "get");
    assert!(s[0].protocols[0].reply);
    assert_eq!(s[0].protocols[1].name, "incr");
    assert!(!s[0].protocols[1].reply);
    assert_eq!(s[0].handlers, 1);
    assert_eq!(s[1].name, "Zebra");
}
