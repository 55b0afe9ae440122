use garnet::ast::{
    Annotation, AssignOp, BinOp, Block, Expr, FnDef, ImplBlock, Item, LetDecl, Module, ModuleDecl, Param, Stmt,
};
use garnet::bounds::{bounded_functions, bounded_loop_report};
use garnet::coherence::TypeExpr;
use garnet::diagnostics::FnMode;
use garnet::span::Span;

fn at(start: usize) -> Span {
    Span { start, len: 4 }
}

fn block(stmts: Vec<Stmt>, tail: Option<Expr>) -> Block {
    Block { stmts, tail_expr: tail.map(Box::new) }
}

fn id(n: &str) -> Expr {
    Expr::Ident(n.to_string())
}

fn num(n: i64) -> Expr {
    Expr::Int(n)
}

fn bin(op: BinOp, lhs: Expr, rhs: Expr) -> Expr {
    Expr::Binary { op, lhs: Box::new(lhs), rhs: Box::new(rhs) }
}

fn let_(name: &str, value: Expr) -> Stmt {
    Stmt::Let(LetDecl { name: name.to_string(), ty: None, value })
}

fn assign(name: &str, op: AssignOp, value: Expr) -> Stmt {
    Stmt::Assign { target: id(name), op, value }
}

fn param(name: &str, t: &str) -> Param {
    Param { name: name.to_string(), ty: Some(TypeExpr::Named { path: vec![t.to_string()], args: vec![] }), ownership: None }
}

fn func(mode: FnMode, annotations: Vec<Annotation>, name: &str, params: Vec<Param>, body: Block) -> Item {
    Item::Fn(FnDef { return_ty: None, name: name.to_string(), mode, annotations, params, body })
}

fn safe(name: &str, params: Vec<Param>, body: Block) -> Item {
    func(FnMode::Safe, vec![], name, params, body)
}

fn module(items: Vec<Item>) -> Module {
    Module { safe: false, items }
}

#[test]
fn safe_for_loop_over_literal_range_is_static_bounded() {
    let m = module(vec![safe("sum5", vec![], block(
        vec![
            let_("total", num(0)),
            Stmt::For {
                var: "i".to_string(),
                iter: bin(BinOp::Range, num(0), num(5)),
                body: block(vec![assign("total", AssignOp::PlusEq, id("i"))], None),
                span: at(10),
            },
        ],
        Some(id("total")),
    ))]);
    let report = bounded_loop_report(&m);
    assert!(report.ok(), "expected static proof, got {report:?}");
    assert_eq!(report.proven_loops, 1);
    assert_eq!(report.uncheckable_loops.len(), 0);
}

#[test]
fn safe_for_loop_over_literal_array_is_static_bounded() {
    let m = module(vec![safe("count", vec![], block(
        vec![
            let_("total", num(0)),
            Stmt::For {
                var: "value".to_string(),
                iter: Expr::Array { elements: vec![num(1), num(2), num(3)] },
                body: block(vec![assign("total", AssignOp::PlusEq, id("value"))], None),
                span: at(10),
            },
        ],
        Some(id("total")),
    ))]);
    let report = bounded_loop_report(&m);
    assert!(report.ok(), "expected static proof, got {report:?}");
    assert_eq!(report.proven_loops, 1);
}

#[test]
fn safe_for_loop_with_immediate_return_is_static_bounded() {
    let m = module(vec![safe("first_or_zero", vec![param("xs", "Array")], block(
        vec![Stmt::For {
            var: "value".to_string(),
            iter: id("xs"),
            body: block(vec![Stmt::Return { value: Some(id("value")) }], None),
            span: at(10),
        }],
        Some(num(0)),
    ))]);
    let report = bounded_loop_report(&m);
    assert!(report.ok(), "a for loop whose body exits before continuing is bounded to at most one turn: {report:?}");
    assert_eq!(report.proven_loops, 1);
}

#[test]
fn safe_while_loop_with_nonliteral_condition_is_rejected() {
    let m = module(vec![safe("countdown", vec![param("n", "Int")], block(
        vec![
            let_("current", id("n")),
            Stmt::While {
                condition: bin(BinOp::Gt, id("current"), num(0)),
                body: block(vec![assign("current", AssignOp::MinusEq, num(1))], None),
                span: at(40),
            },
        ],
        Some(id("current")),
    ))]);
    let report = bounded_loop_report(&m);
    assert!(!report.ok(), "uncheckable safe while loop must fail");
    assert_eq!(report.uncheckable_loops.len(), 1);
    assert!(report.uncheckable_loops[0].message.contains("while"));
}

#[test]
fn safe_while_loop_with_immediate_return_is_static_bounded() {
    let m = module(vec![
        safe("side_effect_free", vec![], block(vec![], Some(num(0)))),
        safe("maybe_consume", vec![param("flag", "Bool")], block(
            vec![Stmt::While {
                condition: id("flag"),
                body: block(
                    vec![
                        Stmt::Expr(Expr::Call { callee: Box::new(id("side_effect_free")), args: vec![] }),
                        Stmt::Return { value: Some(num(1)) },
                    ],
                    None,
                ),
                span: at(10),
            }],
            Some(num(0)),
        )),
    ]);
    let report = bounded_loop_report(&m);
    assert!(report.ok(), "a while loop whose body exits before continuing is bounded to at most one turn: {report:?}");
    assert_eq!(report.proven_loops, 1);
}

#[test]
fn safe_counter_while_loop_with_literal_limit_is_static_bounded() {
    let m = module(vec![safe("count_three", vec![], block(
        vec![
            let_("i", num(0)),
            let_("total", num(0)),
            Stmt::While {
                condition: bin(BinOp::Lt, id("i"), num(3)),
                body: block(
                    vec![assign("total", AssignOp::PlusEq, id("i")), assign("i", AssignOp::PlusEq, num(1))],
                    None,
                ),
                span: at(10),
            },
        ],
        Some(id("total")),
    ))]);
    let report = bounded_loop_report(&m);
    assert!(report.ok(), "literal counter while loops should be statically bounded: {report:?}");
    assert_eq!(report.proven_loops, 1);
}

#[test]
fn safe_counter_while_loop_with_false_literal_condition_is_static_bounded() {
    let m = module(vec![safe("already_done", vec![], block(
        vec![
            let_("i", num(5)),
            Stmt::While {
                condition: bin(BinOp::Lt, id("i"), num(3)),
                body: block(vec![], Some(id("i"))),
                span: at(10),
            },
        ],
        Some(num(0)),
    ))]);
    let report = bounded_loop_report(&m);
    assert!(report.ok(), "a literal counter condition that starts false has a zero-iteration bound: {report:?}");
    assert_eq!(report.proven_loops, 1);
}

#[test]
fn managed_loop_without_safe_or_bounded_annotation_is_out_of_scope() {
    let m = module(vec![func(FnMode::Managed, vec![Annotation::Caps(vec![])], "main", vec![], block(
        vec![
            let_("current", num(3)),
            Stmt::While {
                condition: bin(BinOp::Gt, id("current"), num(0)),
                body: block(vec![assign("current", AssignOp::MinusEq, num(1))], None),
                span: at(10),
            },
        ],
        Some(id("current")),
    ))]);
    let report = bounded_loop_report(&m);
    assert!(report.ok(), "managed loops are outside S93 safe-subset scope");
    assert_eq!(report.skipped_functions, 1);
}

#[test]
fn bounded_managed_function_enters_static_loop_scope() {
    let m = module(vec![func(
        FnMode::Managed,
        vec![Annotation::Bounded(100)],
        "budgeted",
        vec![Param { name: "n".to_string(), ty: None, ownership: None }],
        block(
            vec![Stmt::While {
                condition: bin(BinOp::Gt, id("n"), num(0)),
                body: block(vec![], Some(id("n"))),
                span: at(10),
            }],
            Some(num(0)),
        ),
    )]);
    let report = bounded_loop_report(&m);
    assert!(!report.ok(), "@bounded functions must reject uncheckable loops");
    assert_eq!(report.checked_functions, 1);
}

#[test]
fn counter_moving_away_from_its_limit_is_rejected() {
    let m = module(vec![safe("away", vec![], block(
        vec![
            let_("i", num(0)),
            Stmt::While {
                condition: bin(BinOp::Lt, id("i"), num(3)),
                body: block(vec![assign("i", AssignOp::MinusEq, num(1))], None),
                span: at(10),
            },
        ],
        None,
    ))]);
    let report = bounded_loop_report(&m);
    assert_eq!(report.proven_loops, 0);
    assert_eq!(report.uncheckable_loops.len(), 1);
    assert_eq!(report.uncheckable_loops[0].kind, "while");
    assert_eq!(report.uncheckable_loops[0].function, "away");
    assert_eq!(
        report.uncheckable_loops[0].message,
        "static bounded-loop verifier: function `away` contains an uncheckable while loop at 10..14. No Wasmtime fuel or runtime loop enforcement is claimed; rewrite as a statically bounded `for` over a literal range/array, a literal counter `while`, a loop body that exits before continuing, or keep the loop outside safe/@bounded scope."
    );
}

#[test]
fn reversed_counter_and_loop_with_break_are_bounded() {
    let m = module(vec![safe("down", vec![], block(
        vec![
            let_("i", num(9)),
            Stmt::While {
                condition: bin(BinOp::Lt, num(2), id("i")),
                body: block(vec![assign("i", AssignOp::MinusEq, num(3))], None),
                span: at(10),
            },
            Stmt::Loop { body: block(vec![Stmt::Break { value: None }], None), span: at(30) },
            Stmt::Loop { body: block(vec![Stmt::Continue], None), span: at(50) },
        ],
        None,
    ))]);
    let report = bounded_loop_report(&m);
    assert_eq!(report.proven_loops, 2);
    assert_eq!(report.uncheckable_loops.len(), 1);
    assert_eq!(report.uncheckable_loops[0].kind, "loop");
    assert_eq!(report.uncheckable_loops[0].span_start, 50);
}

#[test]
fn safe_nested_modules_and_methods_are_in_scope() {
    let spin = |name: &str| {
        FnDef {
        return_ty: None,
            name: name.to_string(),
            mode: FnMode::Managed,
            annotations: vec![],
            params: vec![],
            body: block(vec![Stmt::Loop { body: block(vec![], None), span: at(1) }], None),
        }
    };
    let m = module(vec![
        Item::Module(ModuleDecl { name: "inner".to_string(), safe: true, items: vec![Item::Fn(spin("a"))] }),
        Item::Impl(ImplBlock {
            annotations: vec![],
            trait_ty: None,
            type_params: vec![],
            target: TypeExpr::Named { path: vec!["T".to_string()], args: vec![] },
            methods: vec![spin("m")],
        }),
        Item::Fn(spin("b")),
    ]);
    let report = bounded_loop_report(&m);
    assert_eq!(report.checked_functions, 1);
    assert_eq!(report.skipped_functions, 2);
    assert_eq!(report.uncheckable_loops.len(), 1);
    assert_eq!(report.uncheckable_loops[0].function, "a");
}

#[test]
fn extracts_declared_budgets_sorted_by_name() {
    let m = module(vec![
        func(FnMode::Managed, vec![Annotation::Bounded(2000)], "zebra", vec![], block(vec![], Some(num(1)))),
        func(FnMode::Managed, vec![Annotation::Bounded(500)], "alpha", vec![], block(vec![], Some(num(1)))),
    ]);
    assert_eq!(bounded_functions(&m), vec![("alpha".to_string(), 500), ("zebra".to_string(), 2000)]);
}

#[test]
fn functions_without_bounded_are_absent() {
    let m = module(vec![
        func(FnMode::Managed, vec![], "plain", vec![], block(vec![], Some(num(1)))),
        func(FnMode::Managed, vec![Annotation::Bounded(10)], "g", vec![], block(vec![], Some(num(1)))),
    ]);
    assert_eq!(bounded_functions(&m), vec![("g".to_string(), 10)]);
}

#[test]
fn the_last_bounded_annotation_wins() {
    let m = module(vec![func(
        FnMode::Managed,
        vec![Annotation::Bounded(3), Annotation::FanOut(2), Annotation::Bounded(7)],
        "f",
        vec![],
        block(vec![], None),
    )]);
    assert_eq!(bounded_functions(&m), vec![("f".to_string(), 7)]);
}
