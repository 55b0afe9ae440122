use garnet::ast::{Annotation, BinOp, Block, Expr, FnDef, Item, Module, Rescue, Stmt};
use garnet::coherence::TypeExpr;
use garnet::diagnostics::FnMode;
use garnet::sites::{explosive_ops, overcatch_sites};
use garnet::span::Span;
use garnet::surfaces::ExplosiveKind;

fn at(start: usize) -> Span {
    Span { start, len: 1 }
}

fn block(stmts: Vec<Stmt>, tail: Option<Expr>) -> Block {
    Block { stmts, tail_expr: tail.map(Box::new) }
}

fn call(f: &str, args: Vec<Expr>) -> Expr {
    Expr::Call { callee: Box::new(Expr::Ident(f.to_string())), args }
}

fn def(name: &str, annotations: Vec<Annotation>, body: Block) -> Item {
    Item::Fn(FnDef { return_ty: None, name: name.to_string(), mode: FnMode::Managed, annotations, params: vec![], body })
}

fn module(items: Vec<Item>) -> Module {
    Module { safe: false, items }
}

/// `loop { break }`
fn break_loop(span: usize) -> Stmt {
    Stmt::Loop { body: block(vec![Stmt::Break { value: None }], None), span: at(span) }
}

/// `spawn g()`
fn spawn_g(span: usize) -> Expr {
    Expr::Spawn { expr: Box::new(call("g", vec![])), span: at(span) }
}

/// `1 + 2`
fn one_plus_two() -> Expr {
    Expr::Binary { op: BinOp::Add, lhs: Box::new(Expr::Int(1)), rhs: Box::new(Expr::Int(2)) }
}

#[test]
fn flags_unconditional_loop() {
    let r = explosive_ops(&module(vec![def("f", vec![], block(vec![break_loop(10)], None))]));
    assert_eq!(r.len(), 1);
    assert_eq!(r[0].fn_name, "f");
    assert_eq!(r[0].ops.len(), 1);
    assert_eq!(r[0].ops[0].kind, ExplosiveKind::UnconditionalLoop);
}

#[test]
fn flags_spawn() {
    let r = explosive_ops(&module(vec![def("f", vec![], block(vec![], Some(spawn_g(10))))]));
    assert_eq!(r[0].ops[0].kind, ExplosiveKind::Spawn);
}

#[test]
fn detects_nested_sites_via_exhaustive_walk() {
    // `if c { loop { h(spawn g()) } }`
    let body = block(
        vec![],
        Some(Expr::If {
            condition: Box::new(Expr::Ident("c".to_string())),
            then_block: block(
                vec![Stmt::Loop { body: block(vec![], Some(call("h", vec![spawn_g(30)]))), span: at(20) }],
                None,
            ),
            elsif_clauses: vec![],
            else_block: None,
        }),
    );
    let r = explosive_ops(&module(vec![def("f", vec![], body)]));
    let kinds: Vec<_> = r[0].ops.iter().map(|o| o.kind).collect();
    assert!(kinds.contains(&ExplosiveKind::UnconditionalLoop));
    assert!(kinds.contains(&ExplosiveKind::Spawn));
    assert_eq!(r[0].ops[0].span.start, 20);
    assert_eq!(r[0].ops[1].span.start, 30);
}

#[test]
fn governing_annotations_are_reported() {
    let r = explosive_ops(&module(vec![def("f", vec![Annotation::Bounded(1000)], block(vec![break_loop(1)], None))]));
    assert!(r[0].has_bounded);
    assert!(!r[0].has_fan_out);
    let r = explosive_ops(&module(vec![def("f", vec![Annotation::FanOut(8)], block(vec![], Some(spawn_g(1))))]));
    assert!(r[0].has_fan_out);
}

#[test]
fn clean_function_has_no_report() {
    assert!(explosive_ops(&module(vec![def("f", vec![], block(vec![], Some(one_plus_two())))])).is_empty());
}

#[test]
fn explosive_reports_are_sorted_by_function_name() {
    let m = module(vec![
        def("zeta", vec![], block(vec![break_loop(1)], None)),
        Item::Other,
        def("alpha", vec![], block(vec![], Some(spawn_g(2)))),
        def("clean", vec![], block(vec![], None)),
    ]);
    let names: Vec<String> = explosive_ops(&m).iter().map(|r| r.fn_name.clone()).collect();
    assert_eq!(names, vec!["alpha".to_string(), "zeta".to_string()]);
}

fn try_with(rescue_ty: Option<TypeExpr>, span: usize) -> Expr {
    Expr::Try {
        body: block(vec![], Some(call("g", vec![]))),
        rescues: vec![Rescue {
            name: Some("e".to_string()),
            ty: rescue_ty,
            body: block(vec![], Some(Expr::Int(0))),
            span: at(span),
        }],
        ensure: None,
    }
}

#[test]
fn flags_catch_all_rescue() {
    // `try { g() } rescue e { 0 }`
    let s = overcatch_sites(&module(vec![def("f", vec![], block(vec![], Some(try_with(None, 7))))]));
    assert_eq!(s.len(), 1);
    assert_eq!(s[0].span.start, 7);
}

#[test]
fn typed_rescue_is_not_flagged() {
    // `try { g() } rescue e: IoError { 0 }`
    let io = TypeExpr::Named { path: vec!["IoError".to_string()], args: vec![] };
    let s = overcatch_sites(&module(vec![def("f", vec![], block(vec![], Some(try_with(Some(io), 7))))]));
    assert!(s.is_empty(), "a typed rescue is not an over-catch");
}

#[test]
fn no_try_no_sites() {
    assert!(overcatch_sites(&module(vec![def("f", vec![], block(vec![], Some(one_plus_two())))])).is_empty());
}

#[test]
fn nested_catch_alls_are_found_in_source_order() {
    let inner = block(vec![Stmt::Expr(try_with(None, 3))], None);
    let body = block(
        vec![Stmt::While { condition: Expr::Bool(true), body: inner, span: at(1) }],
        Some(Expr::Closure {
            params: vec![],
            body: Box::new(garnet::ast::ClosureBody::Expr(Box::new(try_with(None, 9)))),
        }),
    );
    let s = overcatch_sites(&module(vec![def("f", vec![], body), def("g", vec![], block(vec![], Some(try_with(None, 12))))]));
    let starts: Vec<usize> = s.iter().map(|x| x.span.start).collect();
    assert_eq!(starts, vec![3, 9, 12]);
}
