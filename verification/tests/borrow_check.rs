use garnet::ast::{AssignOp, Block, Expr, FnDef, ImplBlock, Item, LetDecl, MatchArm, Module, Ownership, Param, Pattern, Stmt};
use garnet::borrow_check::check_borrows;
use garnet::coherence::TypeExpr;
use garnet::diagnostics::{CheckError, FnMode};
use garnet::span::Span;

fn ty(name: &str) -> TypeExpr {
    TypeExpr::Named { path: vec![name.to_string()], args: vec![] }
}

fn param(ownership: Option<Ownership>, name: &str, t: &str) -> Param {
    Param { name: name.to_string(), ty: Some(ty(t)), ownership }
}

fn own(name: &str, t: &str) -> Param {
    param(Some(Ownership::Own), name, t)
}

fn borrow(name: &str, t: &str) -> Param {
    param(Some(Ownership::Borrow), name, t)
}

fn mutp(name: &str, t: &str) -> Param {
    param(Some(Ownership::Mut), name, t)
}

fn plain(name: &str, t: &str) -> Param {
    param(None, name, t)
}

fn id(n: &str) -> Expr {
    Expr::Ident(n.to_string())
}

fn lit(n: i64) -> Expr {
    Expr::Int(n)
}

fn call(f: &str, args: Vec<Expr>) -> Expr {
    Expr::Call { callee: Box::new(id(f)), args }
}

fn method(receiver: Expr, m: &str, args: Vec<Expr>) -> Expr {
    Expr::Method { receiver: Box::new(receiver), method: m.to_string(), args }
}

fn field(e: Expr, f: &str) -> Expr {
    Expr::Field { receiver: Box::new(e), field: f.to_string() }
}

fn index(e: Expr, i: Expr) -> Expr {
    Expr::Index { receiver: Box::new(e), index: Box::new(i) }
}

fn block(stmts: Vec<Stmt>, tail: Option<Expr>) -> Block {
    Block { stmts, tail_expr: tail.map(Box::new) }
}

fn ex(e: Expr) -> Stmt {
    Stmt::Expr(e)
}

fn ret(e: Expr) -> Stmt {
    Stmt::Return { value: Some(e) }
}

fn let_(name: &str, e: Expr) -> Stmt {
    Stmt::Let(LetDecl { name: name.to_string(), ty: None, value: e })
}

fn fndef(mode: FnMode, name: &str, params: Vec<Param>, body: Block) -> FnDef {
    FnDef { return_ty: None, name: name.to_string(), mode, annotations: vec![], params, body }
}

fn safe_fn(name: &str, params: Vec<Param>, body: Block) -> Item {
    Item::Fn(fndef(FnMode::Safe, name, params, body))
}

/// `fn name(params) -> T { 0 }`
fn stub(name: &str, params: Vec<Param>) -> Item {
    safe_fn(name, params, block(vec![], Some(lit(0))))
}

fn impl_of(t: &str, methods: Vec<FnDef>) -> Item {
    Item::Impl(ImplBlock { annotations: vec![], trait_ty: None, type_params: vec![], target: ty(t), methods })
}

fn self_param(ownership: Ownership) -> Param {
    Param { name: "self".to_string(), ty: None, ownership: Some(ownership) }
}

fn module(items: Vec<Item>) -> Module {
    Module { safe: false, items }
}

fn if_else(c: Expr, then_block: Block, else_block: Block) -> Expr {
    Expr::If { condition: Box::new(c), then_block, elsif_clauses: vec![], else_block: Some(else_block) }
}

fn arm(pattern: Pattern, guard: Option<Expr>, body: Block) -> MatchArm {
    MatchArm { pattern, guard, body }
}

fn has(d: &[CheckError], needle: &str) -> bool {
    d.iter().any(|e| matches!(e, CheckError::SafeModeViolation(m) if m.contains(needle)))
}

fn consume_stub() -> Item {
    stub("consume", vec![own("x", "Buffer")])
}

fn read_stub() -> Item {
    stub("read", vec![borrow("x", "Buffer")])
}

#[test]
fn use_after_move_into_own_param_flagged() {
    let m = module(vec![
        consume_stub(),
        safe_fn("caller", vec![own("b", "Buffer")], block(
            vec![ex(call("consume", vec![id("b")])), ex(call("consume", vec![id("b")]))],
            Some(lit(0)),
        )),
    ]);
    let d = check_borrows(&m);
    assert!(has(&d, "use-after-move"), "expected use-after-move, got {d:?}");
}

#[test]
fn no_diag_for_single_consume() {
    let m = module(vec![
        consume_stub(),
        safe_fn("caller", vec![own("b", "Buffer")], block(vec![ex(call("consume", vec![id("b")]))], Some(lit(0)))),
    ]);
    let d = check_borrows(&m);
    assert!(d.is_empty(), "expected no diagnostics, got {d:?}");
}

#[test]
fn borrow_param_does_not_move() {
    let m = module(vec![
        read_stub(),
        safe_fn("caller", vec![borrow("b", "Buffer")], block(
            vec![
                ex(call("read", vec![id("b")])),
                ex(call("read", vec![id("b")])),
                ex(call("read", vec![id("b")])),
            ],
            Some(lit(0)),
        )),
    ]);
    let d = check_borrows(&m);
    assert!(d.is_empty(), "borrow params should not be moved, got {d:?}");
}

#[test]
fn re_let_resets_moved_state() {
    let m = module(vec![
        consume_stub(),
        safe_fn("fresh", vec![], block(vec![], Some(call("Buffer::new", vec![])))),
        safe_fn("caller", vec![], block(
            vec![
                let_("b", call("fresh", vec![])),
                ex(call("consume", vec![id("b")])),
                let_("b", call("fresh", vec![])),
                ex(call("consume", vec![id("b")])),
            ],
            Some(lit(0)),
        )),
    ]);
    let d = check_borrows(&m);
    assert!(d.is_empty(), "re-let should rebind, got {d:?}");
}

#[test]
fn mut_with_other_arg_to_same_binding_flagged() {
    let m = module(vec![
        stub("frob", vec![mutp("a", "Buffer"), borrow("b", "Buffer")]),
        safe_fn("caller", vec![mutp("x", "Buffer")], block(vec![], Some(call("frob", vec![id("x"), id("x")])))),
    ]);
    let d = check_borrows(&m);
    assert!(has(&d, "aliasing"), "expected aliasing violation, got {d:?}");
}

#[test]
fn distinct_bindings_into_mut_and_borrow_ok() {
    let m = module(vec![
        stub("frob", vec![mutp("a", "Buffer"), borrow("b", "Buffer")]),
        safe_fn("caller", vec![mutp("x", "Buffer"), borrow("y", "Buffer")], block(
            vec![],
            Some(call("frob", vec![id("x"), id("y")])),
        )),
    ]);
    let d = check_borrows(&m);
    assert!(!has(&d, "aliasing"), "no aliasing for distinct bindings: {d:?}");
}

#[test]
fn managed_def_double_use_not_flagged_by_borrow_pass() {
    let caller = FnDef {
        return_ty: None,
        name: "caller".to_string(),
        mode: FnMode::Managed,
        annotations: vec![],
        params: vec![Param { name: "b".to_string(), ty: None, ownership: None }],
        body: block(
            vec![ex(call("consume", vec![id("b")])), ex(call("consume", vec![id("b")]))],
            Some(lit(0)),
        ),
    };
    let m = module(vec![consume_stub(), Item::Fn(caller)]);
    let d = check_borrows(&m);
    assert!(!has(&d, "use-after-move"), "managed def is ARC, not affine: {d:?}");
}

#[test]
fn move_in_one_branch_propagates_after_if() {
    let m = module(vec![
        consume_stub(),
        safe_fn("caller", vec![own("b", "Buffer"), plain("c", "Bool")], block(
            vec![ex(if_else(
                id("c"),
                block(vec![], Some(call("consume", vec![id("b")]))),
                block(vec![], Some(lit(0))),
            ))],
            Some(call("consume", vec![id("b")])),
        )),
    ]);
    let d = check_borrows(&m);
    assert!(has(&d, "use-after-move"), "moves from branches must merge, got {d:?}");
}

#[test]
fn move_in_returning_then_branch_does_not_propagate_after_if() {
    let m = module(vec![
        consume_stub(),
        read_stub(),
        safe_fn("caller", vec![own("b", "Buffer"), plain("c", "Bool")], block(
            vec![
                ex(if_else(
                    id("c"),
                    block(vec![ex(call("consume", vec![id("b")])), ret(lit(0))], None),
                    block(vec![], Some(lit(0))),
                )),
                ex(call("read", vec![id("b")])),
            ],
            Some(lit(0)),
        )),
    ]);
    let d = check_borrows(&m);
    assert!(!has(&d, "use-after-move"), "a move in a returning branch should not poison continuing paths, got {d:?}");
}

#[test]
fn move_in_returning_else_branch_does_not_propagate_after_if() {
    let m = module(vec![
        consume_stub(),
        read_stub(),
        safe_fn("caller", vec![own("b", "Buffer"), plain("c", "Bool")], block(
            vec![
                ex(if_else(
                    id("c"),
                    block(vec![], Some(lit(0))),
                    block(vec![ex(call("consume", vec![id("b")])), ret(lit(0))], None),
                )),
                ex(call("read", vec![id("b")])),
            ],
            Some(lit(0)),
        )),
    ]);
    let d = check_borrows(&m);
    assert!(!has(&d, "use-after-move"), "a move in a returning else branch should not poison continuing paths, got {d:?}");
}

#[test]
fn statements_after_return_are_not_borrow_checked() {
    let m = module(vec![
        consume_stub(),
        read_stub(),
        safe_fn("caller", vec![own("b", "Buffer")], block(
            vec![ex(call("consume", vec![id("b")])), ret(lit(0)), ex(call("read", vec![id("b")]))],
            Some(lit(0)),
        )),
    ]);
    let d = check_borrows(&m);
    assert!(!has(&d, "use-after-move"), "unreachable statements after return should not poison safe-mode liveness, got {d:?}");
}

#[test]
fn move_in_returning_while_body_does_not_poison_after_loop() {
    let m = module(vec![
        consume_stub(),
        read_stub(),
        safe_fn("caller", vec![own("b", "Buffer"), plain("c", "Bool")], block(
            vec![
                Stmt::While {
                    condition: id("c"),
                    body: block(vec![ex(call("consume", vec![id("b")])), ret(lit(0))], None),
                    span: Span { start: 0, len: 1 },
                },
                ex(call("read", vec![id("b")])),
            ],
            Some(lit(0)),
        )),
    ]);
    let d = check_borrows(&m);
    assert!(!has(&d, "use-after-move"), "a returning while body should not poison the paths after the loop, got {d:?}");
}

#[test]
fn move_in_returning_for_body_does_not_poison_after_loop() {
    let m = module(vec![
        consume_stub(),
        read_stub(),
        safe_fn("caller", vec![own("b", "Buffer"), plain("xs", "Array")], block(
            vec![
                Stmt::For {
                    var: "x".to_string(),
                    iter: id("xs"),
                    body: block(vec![ex(call("consume", vec![id("b")])), ret(lit(0))], None),
                    span: Span { start: 0, len: 1 },
                },
                ex(call("read", vec![id("b")])),
            ],
            Some(lit(0)),
        )),
    ]);
    let d = check_borrows(&m);
    assert!(!has(&d, "use-after-move"), "a returning for body should not poison the paths after the loop, got {d:?}");
}

#[test]
fn for_loop_variable_shadowing_does_not_rebind_outer_move() {
    let m = module(vec![
        consume_stub(),
        read_stub(),
        safe_fn("caller", vec![own("item", "Buffer"), plain("xs", "Array")], block(
            vec![
                ex(call("consume", vec![id("item")])),
                Stmt::For { var: "item".to_string(), iter: id("xs"), body: block(vec![], Some(lit(0))), span: Span { start: 0, len: 1 } },
                ex(call("read", vec![id("item")])),
            ],
            Some(lit(0)),
        )),
    ]);
    let d = check_borrows(&m);
    assert!(has(&d, "use-after-move"), "a for-loop variable must not erase an outer move, got {d:?}");
}

#[test]
fn match_pattern_shadow_move_does_not_poison_outer_binding() {
    let m = module(vec![
        consume_stub(),
        read_stub(),
        safe_fn("caller", vec![borrow("item", "Buffer"), own("subject", "Buffer")], block(
            vec![
                ex(Expr::Match {
                    subject: Box::new(id("subject")),
                    arms: vec![arm(Pattern::Ident("item".to_string()), None, block(vec![], Some(call("consume", vec![id("item")]))))],
                }),
                ex(call("read", vec![id("item")])),
            ],
            Some(lit(0)),
        )),
    ]);
    let d = check_borrows(&m);
    assert!(
        !has(&d, "use-after-move"),
        "a move of a match-arm pattern binding should not poison an outer binding with the same name, got {d:?}"
    );
}

#[test]
fn match_arm_outer_move_still_propagates_after_match() {
    let m = module(vec![
        consume_stub(),
        read_stub(),
        safe_fn("caller", vec![own("item", "Buffer"), plain("n", "Int")], block(
            vec![
                ex(Expr::Match {
                    subject: Box::new(id("n")),
                    arms: vec![arm(Pattern::Wildcard, None, block(vec![], Some(call("consume", vec![id("item")]))))],
                }),
                ex(call("read", vec![id("item")])),
            ],
            Some(lit(0)),
        )),
    ]);
    let d = check_borrows(&m);
    assert!(has(&d, "use-after-move"), "a move of an outer binding inside a match arm must still poison later uses, got {d:?}");
}

#[test]
fn match_arm_block_statement_move_still_propagates_after_match() {
    let m = module(vec![
        consume_stub(),
        read_stub(),
        safe_fn("caller", vec![own("item", "Buffer"), plain("n", "Int")], block(
            vec![
                ex(Expr::Match {
                    subject: Box::new(id("n")),
                    arms: vec![arm(
                        Pattern::Wildcard,
                        None,
                        block(vec![ex(call("consume", vec![id("item")]))], Some(lit(0))),
                    )],
                }),
                ex(call("read", vec![id("item")])),
            ],
            Some(lit(0)),
        )),
    ]);
    let d = check_borrows(&m);
    assert!(has(&d, "use-after-move"), "a move inside a match-arm block statement must be preserved for later uses, got {d:?}");
}

#[test]
fn match_guard_move_propagates_even_when_arm_body_returns() {
    let m = module(vec![
        safe_fn("consumes_false", vec![own("x", "Buffer")], block(vec![], Some(Expr::Bool(false)))),
        read_stub(),
        safe_fn("caller", vec![own("item", "Buffer"), plain("n", "Int")], block(
            vec![
                ex(Expr::Match {
                    subject: Box::new(id("n")),
                    arms: vec![
                        arm(Pattern::Wildcard, Some(call("consumes_false", vec![id("item")])), block(vec![ret(lit(0))], None)),
                        arm(Pattern::Wildcard, None, block(vec![], Some(lit(0)))),
                    ],
                }),
                ex(call("read", vec![id("item")])),
            ],
            Some(lit(0)),
        )),
    ]);
    let d = check_borrows(&m);
    assert!(has(&d, "use-after-move"), "a move in a match guard can continue when the guard is false, got {d:?}");
}

#[test]
fn method_call_own_self_tracks_moves() {
    let m = module(vec![
        impl_of("Buffer", vec![fndef(FnMode::Safe, "consume", vec![self_param(Ownership::Own)], block(vec![], Some(lit(0))))]),
        safe_fn("caller", vec![own("b", "Buffer")], block(
            vec![ex(method(id("b"), "consume", vec![])), ex(method(id("b"), "consume", vec![]))],
            Some(lit(0)),
        )),
    ]);
    let d = check_borrows(&m);
    assert!(has(&d, "use-after-move"), "expected method receiver use-after-move, got {d:?}");
}

#[test]
fn method_call_mut_self_alias_flagged() {
    let m = module(vec![
        impl_of("Buffer", vec![fndef(
            FnMode::Safe,
            "splice",
            vec![self_param(Ownership::Mut), borrow("other", "Buffer")],
            block(vec![], Some(lit(0))),
        )]),
        safe_fn("caller", vec![mutp("b", "Buffer")], block(vec![], Some(method(id("b"), "splice", vec![id("b")])))),
    ]);
    let d = check_borrows(&m);
    assert!(has(&d, "aliasing"), "expected method receiver aliasing violation, got {d:?}");
}

#[test]
fn typed_receiver_resolves_same_named_method_signatures() {
    let m = module(vec![
        Item::Other,
        Item::Other,
        impl_of("Buffer", vec![fndef(FnMode::Safe, "close", vec![self_param(Ownership::Own)], block(vec![], Some(lit(0))))]),
        impl_of("Socket", vec![fndef(FnMode::Safe, "close", vec![self_param(Ownership::Borrow)], block(vec![], Some(lit(0))))]),
        safe_fn("caller", vec![own("b", "Buffer")], block(
            vec![ex(method(id("b"), "close", vec![])), ex(method(id("b"), "close", vec![]))],
            Some(lit(0)),
        )),
    ]);
    let d = check_borrows(&m);
    assert!(has(&d, "use-after-move"), "typed receivers should resolve same-named methods, got {d:?}");
}

#[test]
fn typed_receiver_does_not_fallback_to_other_type_method() {
    let m = module(vec![
        Item::Other,
        Item::Other,
        impl_of("Buffer", vec![fndef(FnMode::Safe, "close", vec![self_param(Ownership::Own)], block(vec![], Some(lit(0))))]),
        safe_fn("caller", vec![own("s", "Socket")], block(
            vec![ex(method(id("s"), "close", vec![])), ex(method(id("s"), "close", vec![]))],
            Some(lit(0)),
        )),
    ]);
    let d = check_borrows(&m);
    assert!(!has(&d, "use-after-move"), "typed receiver with no matching impl should not borrow-check another type's method: {d:?}");
}

#[test]
fn same_field_mut_and_borrow_alias_flagged() {
    let m = module(vec![
        Item::Other,
        stub("frob", vec![mutp("a", "Buffer"), borrow("b", "Buffer")]),
        safe_fn("caller", vec![mutp("p", "Pair")], block(
            vec![],
            Some(call("frob", vec![field(id("p"), "left"), field(id("p"), "left")])),
        )),
    ]);
    let d = check_borrows(&m);
    assert!(has(&d, "aliasing"), "same field projection must be alias-checked, got {d:?}");
}

#[test]
fn distinct_field_mut_and_borrow_are_not_aliases() {
    let m = module(vec![
        Item::Other,
        stub("frob", vec![mutp("a", "Buffer"), borrow("b", "Buffer")]),
        safe_fn("caller", vec![mutp("p", "Pair")], block(
            vec![],
            Some(call("frob", vec![field(id("p"), "left"), field(id("p"), "right")])),
        )),
    ]);
    let d = check_borrows(&m);
    assert!(!has(&d, "aliasing"), "distinct fields should not be treated as the same place: {d:?}");
}

#[test]
fn parent_and_child_places_alias() {
    let m = module(vec![
        Item::Other,
        stub("frob", vec![mutp("p", "Pair"), borrow("b", "Buffer")]),
        safe_fn("caller", vec![mutp("p", "Pair")], block(vec![], Some(call("frob", vec![id("p"), field(id("p"), "left")])))),
    ]);
    let d = check_borrows(&m);
    assert!(has(&d, "aliasing"), "parent and child places overlap and must alias, got {d:?}");
}

#[test]
fn moving_field_rejects_same_field_but_allows_sibling() {
    let m = module(vec![
        Item::Other,
        consume_stub(),
        read_stub(),
        safe_fn("caller", vec![mutp("p", "Pair")], block(
            vec![
                ex(call("consume", vec![field(id("p"), "left")])),
                ex(call("read", vec![field(id("p"), "right")])),
                ex(call("read", vec![field(id("p"), "left")])),
            ],
            Some(lit(0)),
        )),
    ]);
    let d = check_borrows(&m);
    assert!(has(&d, "use-after-move"), "moved field must reject later same-field use while sibling stays available, got {d:?}");
    assert_eq!(d.len(), 1, "only the moved field is reported, got {d:?}");
}

#[test]
fn indexed_places_conflict_conservatively() {
    let m = module(vec![
        stub("frob", vec![mutp("a", "Buffer"), borrow("b", "Buffer")]),
        safe_fn("caller", vec![mutp("items", "Buffers")], block(
            vec![],
            Some(call("frob", vec![index(id("items"), lit(0)), index(id("items"), lit(1))])),
        )),
    ]);
    let d = check_borrows(&m);
    assert!(has(&d, "aliasing"), "index projections on the same receiver should conservatively alias, got {d:?}");
}

#[test]
fn indexed_places_under_distinct_fields_do_not_alias() {
    let m = module(vec![
        Item::Other,
        stub("frob", vec![mutp("a", "Buffer"), borrow("b", "Buffer")]),
        safe_fn("caller", vec![mutp("p", "Pair")], block(
            vec![],
            Some(call("frob", vec![index(field(id("p"), "left"), lit(0)), index(field(id("p"), "right"), lit(0))])),
        )),
    ]);
    let d = check_borrows(&m);
    assert!(!has(&d, "aliasing"), "indexes under distinct sibling fields should not alias: {d:?}");
}

#[test]
fn moving_indexed_place_rejects_same_index_family() {
    let m = module(vec![
        consume_stub(),
        read_stub(),
        safe_fn("caller", vec![mutp("items", "Buffers")], block(
            vec![
                ex(call("consume", vec![index(id("items"), lit(0))])),
                ex(call("read", vec![index(id("items"), lit(1))])),
            ],
            Some(lit(0)),
        )),
    ]);
    let d = check_borrows(&m);
    assert!(has(&d, "use-after-move"), "indexed moves on the same receiver should conservatively poison the index family, got {d:?}");
}

#[test]
fn nested_index_checks_inner_index_expression() {
    let m = module(vec![
        stub("consume", vec![own("x", "Int")]),
        read_stub(),
        safe_fn("caller", vec![mutp("items", "Matrix"), own("i", "Int")], block(
            vec![
                ex(call("consume", vec![id("i")])),
                ex(call("read", vec![index(index(id("items"), id("i")), lit(0))])),
            ],
            Some(lit(0)),
        )),
    ]);
    let d = check_borrows(&m);
    assert!(has(&d, "use-after-move"), "nested index receiver must still check its inner index expression, got {d:?}");
}

#[test]
fn double_own_of_same_binding_in_one_call_is_rejected() {
    let m = module(vec![
        stub("consume_pair", vec![own("left", "Buffer"), own("right", "Buffer")]),
        safe_fn("caller", vec![own("b", "Buffer")], block(vec![], Some(call("consume_pair", vec![id("b"), id("b")])))),
    ]);
    let d = check_borrows(&m);
    assert!(has(&d, "drop discipline"), "double-own in one call would drop the same binding twice, got {d:?}");
}

#[test]
fn double_own_of_parent_and_child_place_is_rejected() {
    let m = module(vec![
        Item::Other,
        stub("consume_pair", vec![own("whole", "Pair"), own("left", "Buffer")]),
        safe_fn("caller", vec![own("p", "Pair")], block(
            vec![],
            Some(call("consume_pair", vec![id("p"), field(id("p"), "left")])),
        )),
    ]);
    let d = check_borrows(&m);
    assert!(has(&d, "drop discipline"), "owning a parent and child place in one call would double-drop, got {d:?}");
}

#[test]
fn double_own_of_distinct_fields_is_allowed() {
    let m = module(vec![
        Item::Other,
        stub("consume_pair", vec![own("left", "Buffer"), own("right", "Buffer")]),
        safe_fn("caller", vec![own("p", "Pair")], block(
            vec![ex(call("consume_pair", vec![field(id("p"), "left"), field(id("p"), "right")]))],
            Some(lit(0)),
        )),
    ]);
    let d = check_borrows(&m);
    assert!(!has(&d, "drop discipline"), "distinct sibling fields should not violate drop discipline: {d:?}");
}

#[test]
fn borrow_messages_name_the_function_place_and_callee() {
    let m = module(vec![
        consume_stub(),
        stub("consume_pair", vec![own("left", "Buffer"), own("right", "Buffer")]),
        stub("frob", vec![mutp("a", "Buffer"), borrow("b", "Buffer")]),
        safe_fn("caller", vec![own("b", "Buffer"), mutp("x", "Buffer")], block(
            vec![
                ex(call("consume", vec![id("b")])),
                ex(call("consume", vec![id("b")])),
                ex(call("consume_pair", vec![field(id("x"), "l"), id("x")])),
            ],
            Some(call("frob", vec![id("x"), id("x")])),
        )),
    ]);
    let d = check_borrows(&m);
    let texts: Vec<String> = d
        .iter()
        .map(|e| match e {
            CheckError::SafeModeViolation(m) => m.clone(),
            other => panic!("unexpected diagnostic {other:?}"),
        })
        .collect();
    assert_eq!(texts[0], "use-after-move: in `caller`, `b` was moved into `consume` and cannot be used again");
    assert_eq!(
        texts[1],
        "drop discipline violation: in `caller`, `x.l` and `x` are both passed as `own` to `consume_pair`, which would drop the same place twice"
    );
    assert!(texts[2].starts_with("use-after-move: in `caller`, `x"), "{texts:?}");
    assert!(texts.contains(
        &"aliasing violation: in `caller`, `x` is passed as `mut` to `frob` while another reference to the same binding is in flight"
            .to_string()
    ));
}

#[test]
fn assignment_rebinds_a_moved_place() {
    let m = module(vec![
        consume_stub(),
        read_stub(),
        safe_fn("caller", vec![own("b", "Buffer")], block(
            vec![
                ex(call("consume", vec![id("b")])),
                Stmt::Assign { target: id("b"), op: AssignOp::Eq, value: call("Buffer::new", vec![]) },
                ex(call("read", vec![id("b")])),
            ],
            Some(lit(0)),
        )),
    ]);
    assert!(check_borrows(&m).is_empty());
}

#[test]
fn safe_module_checks_its_def_functions_too() {
    let caller = FnDef {
        return_ty: None,
        name: "caller".to_string(),
        mode: FnMode::Managed,
        annotations: vec![],
        params: vec![own("b", "Buffer")],
        body: block(vec![ex(call("consume", vec![id("b")])), ex(call("consume", vec![id("b")]))], None),
    };
    let m = Module { safe: true, items: vec![consume_stub(), Item::Fn(caller)] };
    assert!(has(&check_borrows(&m), "use-after-move"));
}

#[test]
fn ambiguous_untyped_method_resolves_to_nothing() {
    let m = module(vec![
        impl_of("Buffer", vec![fndef(FnMode::Safe, "close", vec![self_param(Ownership::Own)], block(vec![], None))]),
        impl_of("Socket", vec![fndef(FnMode::Safe, "close", vec![self_param(Ownership::Borrow)], block(vec![], None))]),
        safe_fn("caller", vec![Param { name: "s".to_string(), ty: None, ownership: Some(Ownership::Own) }], block(
            vec![ex(method(id("s"), "close", vec![])), ex(method(id("s"), "close", vec![]))],
            None,
        )),
    ]);
    assert!(check_borrows(&m).is_empty());
    let unique = module(vec![
        impl_of("Buffer", vec![fndef(FnMode::Safe, "close", vec![self_param(Ownership::Own)], block(vec![], None))]),
        safe_fn("caller", vec![Param { name: "s".to_string(), ty: None, ownership: Some(Ownership::Own) }], block(
            vec![ex(method(id("s"), "close", vec![])), ex(method(id("s"), "close", vec![]))],
            None,
        )),
    ]);
    assert_eq!(check_borrows(&unique).len(), 1);
}

#[test]
fn try_rescue_rebinds_its_name() {
    let m = module(vec![
        consume_stub(),
        read_stub(),
        safe_fn("caller", vec![own("e", "Buffer")], block(
            vec![
                ex(call("consume", vec![id("e")])),
                ex(Expr::Try {
                    body: block(vec![], Some(lit(0))),
                    rescues: vec![garnet::ast::Rescue {
                        name: Some("e".to_string()),
                        ty: None,
                        body: block(vec![], Some(call("read", vec![id("e")]))),
                        span: Span { start: 0, len: 1 },
                    }],
                    ensure: None,
                }),
            ],
            None,
        )),
    ]);
    assert!(check_borrows(&m).is_empty());
}
