use garnet::ast::{
    Block, EnumDef, Expr, FnDef, ImplBlock, Item, LetDecl, MatchArm, Module, ModuleDecl, Param, Pattern, Stmt,
};
use garnet::coherence::TypeExpr;
use garnet::diagnostics::{CheckError, FnMode};
use garnet::match_coverage::check_match_coverage;

fn ty(path: &str) -> TypeExpr {
    TypeExpr::Named { path: path.split("::").map(|s| s.to_string()).collect(), args: vec![] }
}

fn param(name: &str, t: Option<&str>) -> Param {
    Param { name: name.to_string(), ty: t.map(ty), ownership: None }
}

fn block(stmts: Vec<Stmt>, tail: Option<Expr>) -> Block {
    Block { stmts, tail_expr: tail.map(Box::new) }
}

fn ident(n: &str) -> Expr {
    Expr::Ident(n.to_string())
}

fn variant(path: &str) -> Pattern {
    Pattern::Enum(path.split("::").map(|s| s.to_string()).collect(), vec![])
}

fn arm(pattern: Pattern, guard: Option<Expr>, value: i64) -> MatchArm {
    MatchArm { pattern, guard, body: block(vec![], Some(Expr::Int(value))) }
}

fn matching(subject: Expr, arms: Vec<MatchArm>) -> Expr {
    Expr::Match { subject: Box::new(subject), arms }
}

fn enum_item(name: &str, variants: &[&str]) -> Item {
    Item::Enum(EnumDef { name: name.to_string(), variants: variants.iter().map(|v| v.to_string()).collect() })
}

fn fndef(name: &str, mode: FnMode, params: Vec<Param>, body: Block) -> FnDef {
    FnDef { return_ty: None, name: name.to_string(), mode, annotations: vec![], params, body }
}

fn safe_fn(name: &str, params: Vec<Param>, body: Block) -> Item {
    Item::Fn(fndef(name, FnMode::Safe, params, body))
}

fn module(items: Vec<Item>) -> Module {
    Module { safe: false, items }
}

fn status() -> Item {
    enum_item("Status", &["Ready", "Done"])
}

fn check(m: &Module) -> Vec<CheckError> {
    check_match_coverage(m)
}

fn has_safe_violation(errs: &[CheckError], needle: &str) -> bool {
    errs.iter().any(|err| match err {
        CheckError::SafeModeViolation(message) => message.contains(needle),
        _ => false,
    })
}

fn texts(errs: &[CheckError]) -> Vec<String> {
    errs.iter()
        .map(|e| match e {
            CheckError::SafeModeViolation(m) => m.clone(),
            other => panic!("unexpected diagnostic {other:?}"),
        })
        .collect()
}

#[test]
fn safe_bool_match_requires_true_and_false_without_catch_all() {
    // fn bool_code(flag: Bool) -> Int { match flag { true => 1 } }
    let errs = check(&module(vec![safe_fn(
        "bool_code",
        vec![param("flag", Some("Bool"))],
        block(vec![], Some(matching(ident("flag"), vec![arm(Pattern::Literal(Expr::Bool(true)), None, 1)]))),
    )]));
    assert!(
        has_safe_violation(&errs, "non-exhaustive match") && has_safe_violation(&errs, "false"),
        "expected missing false diagnostic, got {errs:?}"
    );
}

#[test]
fn safe_enum_match_requires_all_variants_without_catch_all() {
    let errs = check(&module(vec![
        status(),
        safe_fn(
            "status_code",
            vec![param("status", Some("Status"))],
            block(vec![], Some(matching(ident("status"), vec![arm(variant("Status::Ready"), None, 1)]))),
        ),
    ]));
    assert!(
        has_safe_violation(&errs, "non-exhaustive match") && has_safe_violation(&errs, "Status::Done"),
        "expected missing enum variant diagnostic, got {errs:?}"
    );
}

#[test]
fn safe_enum_match_accepts_all_variants() {
    let errs = check(&module(vec![
        status(),
        safe_fn(
            "status_code",
            vec![param("status", Some("Status"))],
            block(
                vec![],
                Some(matching(
                    ident("status"),
                    vec![arm(variant("Status::Ready"), None, 1), arm(variant("Status::Done"), None, 2)],
                )),
            ),
        ),
    ]));
    assert!(!has_safe_violation(&errs, "non-exhaustive match"), "complete enum match should not be rejected, got {errs:?}");
}

#[test]
fn safe_match_uses_local_type_annotations_for_finite_domains() {
    // let status: Status = Status::Ready(); match status { Status::Ready => 1 }
    let init = Expr::Call { callee: Box::new(Expr::Path(vec!["Status".to_string(), "Ready".to_string()])), args: vec![] };
    let errs = check(&module(vec![
        status(),
        safe_fn(
            "status_code",
            vec![],
            block(
                vec![Stmt::Let(LetDecl { name: "status".to_string(), ty: Some(ty("Status")), value: init })],
                Some(matching(ident("status"), vec![arm(variant("Status::Ready"), None, 1)])),
            ),
        ),
    ]));
    assert!(
        has_safe_violation(&errs, "non-exhaustive match") && has_safe_violation(&errs, "Status::Done"),
        "expected local annotation to drive enum coverage, got {errs:?}"
    );
}

#[test]
fn safe_match_invalidates_mutable_domain_after_non_finite_assignment() {
    // let mut flag = true; flag = 1; match flag { true => 1 }
    let errs = check(&module(vec![safe_fn(
        "bool_code",
        vec![],
        block(
            vec![
                Stmt::Var(LetDecl { name: "flag".to_string(), ty: None, value: Expr::Bool(true) }),
                Stmt::Assign { target: ident("flag"), op: garnet::ast::AssignOp::Eq, value: Expr::Int(1) },
            ],
            Some(matching(ident("flag"), vec![arm(Pattern::Literal(Expr::Bool(true)), None, 1)])),
        ),
    )]));
    assert!(
        !has_safe_violation(&errs, "non-exhaustive match"),
        "non-finite mutable reassignment should clear inferred finite domain, got {errs:?}"
    );
}

#[test]
fn managed_match_non_exhaustiveness_is_not_rejected_by_safe_pass() {
    // def bool_code(flag) { match flag { true => 1 } }
    let errs = check(&module(vec![Item::Fn(fndef(
        "bool_code",
        FnMode::Managed,
        vec![param("flag", None)],
        block(vec![], Some(matching(ident("flag"), vec![arm(Pattern::Literal(Expr::Bool(true)), None, 1)]))),
    ))]));
    assert!(
        !has_safe_violation(&errs, "non-exhaustive match"),
        "managed matches should stay outside the safe-mode hard-error gate, got {errs:?}"
    );
}

#[test]
fn guarded_enum_arm_does_not_make_safe_match_exhaustive() {
    let errs = check(&module(vec![
        status(),
        safe_fn(
            "status_code",
            vec![param("status", Some("Status")), param("ok", Some("Bool"))],
            block(
                vec![],
                Some(matching(
                    ident("status"),
                    vec![arm(variant("Status::Ready"), Some(ident("ok")), 1), arm(variant("Status::Done"), None, 2)],
                )),
            ),
        ),
    ]));
    assert!(
        has_safe_violation(&errs, "non-exhaustive match") && has_safe_violation(&errs, "Status::Ready"),
        "guarded arms must not count as exhaustive coverage, got {errs:?}"
    );
}

#[test]
fn safe_open_literal_match_keeps_unknown_guard_non_covering() {
    let errs = check(&module(vec![safe_fn(
        "classify",
        vec![param("value", Some("Int")), param("ok", Some("Bool"))],
        block(
            vec![],
            Some(matching(
                ident("value"),
                vec![
                    arm(Pattern::Literal(Expr::Int(1)), Some(ident("ok")), 10),
                    arm(Pattern::Literal(Expr::Int(1)), None, 11),
                    arm(Pattern::Wildcard, None, 0),
                ],
            )),
        ),
    )]));
    assert!(!has_safe_violation(&errs, "unreachable match arm"), "unknown guards should not cover open-domain literals, got {errs:?}");
}

#[test]
fn safe_match_rejects_duplicate_covered_arm() {
    let errs = check(&module(vec![
        status(),
        safe_fn(
            "status_code",
            vec![param("status", Some("Status"))],
            block(
                vec![],
                Some(matching(
                    ident("status"),
                    vec![
                        arm(variant("Status::Ready"), None, 1),
                        arm(variant("Status::Ready"), None, 2),
                        arm(variant("Status::Done"), None, 3),
                    ],
                )),
            ),
        ),
    ]));
    assert!(
        has_safe_violation(&errs, "unreachable match arm") && has_safe_violation(&errs, "Status::Ready"),
        "expected duplicate variant to be unreachable, got {errs:?}"
    );
}

#[test]
fn safe_match_rejects_arm_after_unguarded_catch_all() {
    let errs = check(&module(vec![
        status(),
        safe_fn(
            "status_code",
            vec![param("status", Some("Status"))],
            block(
                vec![],
                Some(matching(ident("status"), vec![arm(Pattern::Wildcard, None, 0), arm(variant("Status::Ready"), None, 1)])),
            ),
        ),
    ]));
    assert!(
        has_safe_violation(&errs, "unreachable match arm") && has_safe_violation(&errs, "covered by prior catch-all"),
        "expected arm after wildcard to be unreachable, got {errs:?}"
    );
}

// ---------------------------------------------------------------------------
// Exact findings
// ---------------------------------------------------------------------------

#[test]
fn exact_texts_of_each_finding() {
    // enum Status { Ready, Done }
    // fn f(s: Status) { match s { Status::Ready => 1, Status::Ready => 2 } }   -- duplicate + missing Done
    // fn g(s: Status) { match s { Ready => 1, Done => 2, _ => 3 } }            -- covered before `_`
    // fn h(s: Status) { match s { x => 1, Status::Done => 2 } }                -- after catch-all
    let f = safe_fn(
        "f",
        vec![param("s", Some("Status"))],
        block(
            vec![],
            Some(matching(ident("s"), vec![arm(variant("Status::Ready"), None, 1), arm(variant("Status::Ready"), None, 2)])),
        ),
    );
    let g = safe_fn(
        "g",
        vec![param("s", Some("Status"))],
        block(
            vec![],
            Some(matching(
                ident("s"),
                vec![arm(variant("Ready"), None, 1), arm(variant("Done"), None, 2), arm(Pattern::Wildcard, None, 3)],
            )),
        ),
    );
    let h = safe_fn(
        "h",
        vec![param("s", Some("Status"))],
        block(
            vec![],
            Some(matching(ident("s"), vec![arm(Pattern::Ident("x".to_string()), None, 1), arm(variant("Status::Done"), None, 2)])),
        ),
    );
    let errs = check(&module(vec![status(), f, g, h]));
    assert_eq!(
        texts(&errs),
        vec![
            "unreachable match arm in safe function 'f': pattern `Status::Ready` is already covered by prior arm".to_string(),
            "non-exhaustive match in safe function 'f': missing `Status::Done`".to_string(),
            "unreachable match arm in safe function 'g': finite domain is already fully covered before pattern `_`".to_string(),
            "unreachable match arm in safe function 'h': pattern `Status::Done` is covered by prior catch-all arm".to_string(),
        ]
    );
}

#[test]
fn missing_variants_are_listed_in_name_order_with_the_module_path() {
    // module inner { enum Color { Red, Green, Blue } }
    // fn paint(c: Color) { match c { inner::Color::Green => 1 } }
    let inner = Item::Module(ModuleDecl {
        name: "inner".to_string(),
        safe: false,
        items: vec![enum_item("Color", &["Red", "Green", "Blue"])],
    });
    let paint = safe_fn(
        "paint",
        vec![param("c", Some("Color"))],
        block(vec![], Some(matching(ident("c"), vec![arm(variant("inner::Color::Green"), None, 1)]))),
    );
    let errs = check(&module(vec![inner, paint]));
    assert_eq!(
        texts(&errs),
        vec!["non-exhaustive match in safe function 'paint': missing `inner::Color::Blue`, `inner::Color::Red`".to_string()]
    );
}

#[test]
fn missing_bool_values_put_true_first() {
    let errs = check(&module(vec![safe_fn(
        "b",
        vec![param("x", Some("Bool"))],
        block(vec![], Some(matching(ident("x"), vec![arm(Pattern::Literal(Expr::Int(0)), None, 1)]))),
    )]));
    assert_eq!(texts(&errs), vec!["non-exhaustive match in safe function 'b': missing `true`, `false`".to_string()]);
}

#[test]
fn bool_literal_and_cast_subjects_have_finite_domains() {
    // match true { false => 0 }  and  match (v as Bool) { _ => 0, true => 1 }
    let lit = matching(Expr::Bool(true), vec![arm(Pattern::Literal(Expr::Bool(false)), None, 0)]);
    let cast = matching(
        Expr::Cast { expr: Box::new(ident("v")), ty: ty("Bool") },
        vec![arm(Pattern::Wildcard, None, 0), arm(Pattern::Literal(Expr::Bool(true)), None, 1)],
    );
    let errs = check(&module(vec![safe_fn("k", vec![], block(vec![Stmt::Expr(lit)], Some(cast)))]));
    assert_eq!(
        texts(&errs),
        vec![
            "non-exhaustive match in safe function 'k': missing `true`".to_string(),
            "unreachable match arm in safe function 'k': pattern `true` is covered by prior catch-all arm".to_string(),
        ]
    );
}

#[test]
fn ambiguous_bare_enum_name_gives_no_domain() {
    // module a { enum E { X } } module b { enum E { Y } }  fn f(e: E) { match e { a::E::X => 1 } }
    let a = Item::Module(ModuleDecl { name: "a".to_string(), safe: false, items: vec![enum_item("E", &["X"])] });
    let b = Item::Module(ModuleDecl { name: "b".to_string(), safe: false, items: vec![enum_item("E", &["Y"])] });
    let f = safe_fn(
        "f",
        vec![param("e", Some("E"))],
        block(vec![], Some(matching(ident("e"), vec![arm(variant("a::E::X"), None, 1)]))),
    );
    assert!(check(&module(vec![a, b, f])).is_empty());
}

#[test]
fn qualified_enum_type_resolves_exactly() {
    let a = Item::Module(ModuleDecl { name: "a".to_string(), safe: false, items: vec![enum_item("E", &["X", "Z"])] });
    let b = Item::Module(ModuleDecl { name: "b".to_string(), safe: false, items: vec![enum_item("E", &["Y"])] });
    let f = safe_fn(
        "f",
        vec![param("e", Some("a::E"))],
        block(vec![], Some(matching(ident("e"), vec![arm(variant("a::E::X"), None, 1)]))),
    );
    assert_eq!(texts(&check(&module(vec![a, b, f]))), vec!["non-exhaustive match in safe function 'f': missing `a::E::Z`".to_string()]);
}

#[test]
fn a_pattern_binding_shadows_the_outer_domain_in_its_arm() {
    // fn f(flag: Bool) { match 1 { flag => match flag { true => 1 } } }
    let inner = matching(ident("flag"), vec![arm(Pattern::Literal(Expr::Bool(true)), None, 1)]);
    let outer = matching(
        Expr::Int(1),
        vec![MatchArm { pattern: Pattern::Ident("flag".to_string()), guard: None, body: block(vec![], Some(inner)) }],
    );
    let errs = check(&module(vec![safe_fn("f", vec![param("flag", Some("Bool"))], block(vec![], Some(outer)))]));
    assert!(errs.is_empty(), "got {errs:?}");
}

#[test]
fn safe_module_checks_managed_functions_and_impl_methods() {
    let body = || block(vec![], Some(matching(ident("x"), vec![arm(Pattern::Literal(Expr::Bool(true)), None, 1)])));
    let m = Module {
        safe: true,
        items: vec![
            Item::Fn(fndef("top", FnMode::Managed, vec![param("x", Some("Bool"))], body())),
            Item::Impl(ImplBlock { annotations: vec![], trait_ty: None, type_params: vec![], target: ty("T"), methods: vec![fndef("meth", FnMode::Managed, vec![param("x", Some("Bool"))], body())] }),
        ],
    };
    assert_eq!(
        texts(&check(&m)),
        vec![
            "non-exhaustive match in safe function 'top': missing `false`".to_string(),
            "non-exhaustive match in safe function 'meth': missing `false`".to_string(),
        ]
    );
}

#[test]
fn block_bindings_do_not_leak_out_of_the_block() {
    // fn f() { if c { let x: Bool = true } ; match x { true => 1 } }
    let then_block = block(vec![Stmt::Let(LetDecl { name: "x".to_string(), ty: Some(ty("Bool")), value: Expr::Bool(true) })], None);
    let iff = Expr::If { condition: Box::new(ident("c")), then_block, elsif_clauses: vec![], else_block: None };
    let m = matching(ident("x"), vec![arm(Pattern::Literal(Expr::Bool(true)), None, 1)]);
    assert!(check(&module(vec![safe_fn("f", vec![], block(vec![Stmt::Expr(iff)], Some(m)))])).is_empty());
}

#[test]
fn patterns_are_described_as_written() {
    let p = |pattern: Pattern| {
        let m = matching(ident("x"), vec![arm(Pattern::Wildcard, None, 0), arm(pattern, None, 1)]);
        let errs = check(&module(vec![safe_fn("f", vec![param("x", Some("Bool"))], block(vec![], Some(m)))]));
        texts(&errs).pop().unwrap()
    };
    assert!(p(Pattern::Literal(Expr::Int(-7))).contains("pattern `-7` is"));
    assert!(p(Pattern::Literal(Expr::Float("1.5".to_string()))).contains("pattern `1.5` is"));
    assert!(p(Pattern::Literal(Expr::Nil)).contains("pattern `nil` is"));
    assert!(p(Pattern::Literal(Expr::Str("hi #{...}".to_string()))).contains("pattern `\"hi #{...}\"` is"));
    assert!(p(Pattern::Literal(Expr::Symbol("ok".to_string()))).contains("pattern `:ok` is"));
    assert!(p(Pattern::Literal(ident("y"))).contains("pattern `<literal>` is"));
    assert!(p(Pattern::Tuple(vec![])).contains("pattern `<tuple>` is"));
    assert!(p(Pattern::Rest).contains("pattern `..` is"));
    assert!(p(Pattern::Ident("z".to_string())).contains("pattern `z` is"));
}
