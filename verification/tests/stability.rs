use garnet::ast::{Block, Expr, FnDef, ImplBlock, Item, MatchArm, Module, ModuleDecl, Pattern, Stmt};
use garnet::coherence::TypeExpr;
use garnet::diagnostics::{CheckError, FnMode};
use garnet::stability::{advise, Stability};

fn block(stmts: Vec<Stmt>, tail: Option<Expr>) -> Block {
    Block { stmts, tail_expr: tail.map(Box::new) }
}

fn path_call(path: &str, args: Vec<Expr>) -> Expr {
    let segs: Vec<String> = path.split("::").map(|s| s.to_string()).collect();
    Expr::Call { callee: Box::new(Expr::Path(segs)), args }
}

fn bare_call(f: &str, args: Vec<Expr>) -> Expr {
    Expr::Call { callee: Box::new(Expr::Ident(f.to_string())), args }
}

fn x() -> Expr {
    Expr::Ident("x".to_string())
}

fn fndef(name: &str, body: Block) -> FnDef {
    FnDef { return_ty: None, name: name.to_string(), mode: FnMode::Managed, annotations: vec![], params: vec![], body }
}

fn def(name: &str, body: Block) -> Item {
    Item::Fn(fndef(name, body))
}

/// `def main() { <calls> }`, each call a statement but the last, the tail.
fn main_calling(mut calls: Vec<Expr>) -> Module {
    let tail = calls.pop();
    let stmts = calls.into_iter().map(Stmt::Expr).collect();
    Module { safe: false, items: vec![def("main", block(stmts, tail))] }
}

fn map_of(pairs: &[(&str, Stability)]) -> Vec<(String, Stability)> {
    pairs.iter().map(|(k, v)| (k.to_string(), *v)).collect()
}

fn msgs(errs: &[CheckError]) -> Vec<String> {
    errs.iter()
        .filter_map(|e| match e {
            CheckError::StabilityAdvice(m) => Some(m.clone()),
            _ => None,
        })
        .collect()
}

fn errors(errs: &[CheckError]) -> Vec<String> {
    errs.iter()
        .filter_map(|e| match e {
            CheckError::StabilityError(m) => Some(m.clone()),
            _ => None,
        })
        .collect()
}

#[test]
fn deprecated_emits_warning_frozen_emits_info() {
    let m = main_calling(vec![path_call("pkg::gone", vec![x()]), path_call("pkg::kept", vec![x()])]);
    let map = map_of(&[("pkg::gone", Stability::Deprecated), ("pkg::kept", Stability::Frozen)]);
    let ms = msgs(&advise(&m, &map, false));
    assert!(ms.iter().any(|m| m.contains("deprecated") && m.contains("warning")), "expected deprecated warning, got {ms:?}");
    assert!(ms.iter().any(|m| m.contains("frozen") && m.contains("info")), "expected frozen info, got {ms:?}");
}

#[test]
fn advisory_is_deduped_per_fn_prim_pair() {
    let m = main_calling(vec![
        path_call("pkg::exp", vec![x()]),
        path_call("pkg::exp", vec![x()]),
        path_call("pkg::exp", vec![x()]),
    ]);
    let map = map_of(&[("pkg::exp", Stability::Experimental)]);
    assert_eq!(msgs(&advise(&m, &map, false)).len(), 1, "three calls to the same experimental prim should warn once");
}

#[test]
fn qualified_path_resolves_before_bare() {
    let m = main_calling(vec![path_call("std::json::parse", vec![Expr::Ident("s".to_string())])]);
    let map = map_of(&[("std::json::parse", Stability::Experimental)]);
    let ms = msgs(&advise(&m, &map, false));
    assert!(ms.iter().any(|m| m.contains("std::json::parse")), "qualified call should resolve to the qualified key, got {ms:?}");
}

#[test]
fn s29_error_mode_promotes_experimental_and_deprecated_to_fatal() {
    let m = main_calling(vec![path_call("pkg::exp", vec![x()]), path_call("pkg::gone", vec![x()])]);
    let map = map_of(&[("pkg::exp", Stability::Experimental), ("pkg::gone", Stability::Deprecated)]);
    let out = advise(&m, &map, true);
    let errs = errors(&out);
    assert_eq!(errs.len(), 2, "both non-stable calls become errors, got {errs:?}");
    assert!(errs.iter().all(|m| m.starts_with("stability error:")));
    assert!(errs.iter().any(|m| m.contains("experimental") && m.contains("pkg::exp")));
    assert!(errs.iter().any(|m| m.contains("deprecated") && m.contains("pkg::gone")));
    assert!(msgs(&out).is_empty(), "error mode must not also emit advisories, got {:?}", msgs(&out));
}

#[test]
fn s29_error_mode_keeps_frozen_informational() {
    let m = main_calling(vec![path_call("pkg::kept", vec![x()])]);
    let map = map_of(&[("pkg::kept", Stability::Frozen)]);
    let out = advise(&m, &map, true);
    assert!(errors(&out).is_empty(), "frozen must never be an error");
    assert!(
        msgs(&out).iter().any(|m| m.contains("frozen") && m.contains("info")),
        "frozen stays an info advisory, got {:?}",
        msgs(&out)
    );
}

#[test]
fn s29_default_mode_stays_warning_level_non_fatal() {
    let m = main_calling(vec![path_call(
        "core::iter::map",
        vec![Expr::Ident("xs".to_string()), Expr::Ident("f".to_string())],
    )]);
    let out = advise(&m, &map_of(&[("core::iter::map", Stability::Experimental)]), false);
    assert!(errors(&out).is_empty(), "default mode emits no fatal errors");
    assert_eq!(
        msgs(&out),
        vec!["stability warning: function `main` calls experimental primitive \
              `core::iter::map`; its API may change between minor releases"
            .to_string()]
    );
}

// ---------------------------------------------------------------------------
// Further cases
// ---------------------------------------------------------------------------

#[test]
fn stable_and_unmapped_primitives_are_silent() {
    let m = main_calling(vec![path_call("std::str::trim", vec![x()]), path_call("pkg::unknown", vec![x()])]);
    let map = map_of(&[("std::str::trim", Stability::Stable)]);
    assert!(advise(&m, &map, true).is_empty());
}

#[test]
fn bare_calls_are_never_advised() {
    let m = main_calling(vec![bare_call("ok", vec![Expr::Int(1)]), bare_call("map", vec![x()])]);
    let map = map_of(&[("ok", Stability::Experimental), ("map", Stability::Deprecated)]);
    assert!(advise(&m, &map, false).is_empty());
}

#[test]
fn deprecated_wording_is_exact() {
    let m = main_calling(vec![path_call("pkg::gone", vec![])]);
    let out = advise(&m, &map_of(&[("pkg::gone", Stability::Deprecated)]), true);
    assert_eq!(
        errors(&out),
        vec!["stability error: function `main` calls deprecated primitive `pkg::gone`; it is scheduled for removal — migrate to its replacement".to_string()]
    );
}

#[test]
fn frozen_wording_is_exact() {
    let m = main_calling(vec![path_call("pkg::kept", vec![])]);
    let out = advise(&m, &map_of(&[("pkg::kept", Stability::Frozen)]), false);
    assert_eq!(
        msgs(&out),
        vec!["stability info: function `main` calls frozen primitive `pkg::kept`; it is supported but will not grow".to_string()]
    );
}

#[test]
fn same_primitive_in_two_functions_is_advised_for_each() {
    let m = Module {
        safe: false,
        items: vec![
            def("a", block(vec![], Some(path_call("pkg::exp", vec![])))),
            def("b", block(vec![], Some(path_call("pkg::exp", vec![])))),
        ],
    };
    let ms = msgs(&advise(&m, &map_of(&[("pkg::exp", Stability::Experimental)]), false));
    assert_eq!(ms.len(), 2);
    assert!(ms[0].contains("function `a`"));
    assert!(ms[1].contains("function `b`"));
}

#[test]
fn nested_modules_and_impl_methods_are_walked() {
    let inner = Item::Module(ModuleDecl {
        name: "inner".to_string(),
        safe: false,
        items: vec![def("deep", block(vec![], Some(path_call("pkg::exp", vec![]))))],
    });
    let imp = Item::Impl(ImplBlock {
            annotations: vec![],
            trait_ty: None,
            type_params: vec![],
        target: TypeExpr::Named { path: vec!["T".to_string()], args: vec![] },
        methods: vec![fndef("method", block(vec![], Some(path_call("pkg::exp", vec![]))))],
    });
    let m = Module { safe: false, items: vec![inner, imp] };
    let ms = msgs(&advise(&m, &map_of(&[("pkg::exp", Stability::Experimental)]), false));
    assert_eq!(ms.len(), 2);
    assert!(ms[0].contains("function `deep`"));
    assert!(ms[1].contains("function `method`"));
}

#[test]
fn calls_inside_arguments_loops_and_match_arms_are_found() {
    // `while c { pkg::a(pkg::b()) }` then `match s { _ => pkg::c() }`
    let looped = Stmt::While {
        condition: Expr::Ident("c".to_string()),
        body: block(vec![], Some(path_call("pkg::a", vec![path_call("pkg::b", vec![])]))),
        span: garnet::span::Span { start: 0, len: 1 },
    };
    let matched = Expr::Match {
        subject: Box::new(Expr::Ident("s".to_string())),
        arms: vec![MatchArm { pattern: Pattern::Wildcard, guard: None, body: block(vec![], Some(path_call("pkg::c", vec![]))) }],
    };
    let m = Module { safe: false, items: vec![def("main", block(vec![looped], Some(matched)))] };
    let map = map_of(&[
        ("pkg::a", Stability::Experimental),
        ("pkg::b", Stability::Deprecated),
        ("pkg::c", Stability::Frozen),
    ]);
    let ms = msgs(&advise(&m, &map, false));
    assert_eq!(ms.len(), 3);
    assert!(ms[0].contains("`pkg::a`"));
    assert!(ms[1].contains("`pkg::b`"));
    assert!(ms[2].contains("`pkg::c`"));
}
