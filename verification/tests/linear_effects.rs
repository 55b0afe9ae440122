use garnet::ast::{Block, Expr, FnDef, ImplBlock, Item, Module, ModuleDecl, Ownership, Param};
use garnet::caps_graph::{check_caps_coverage, Callee, CapsModule, CapsReport, FnDecl, Primitive};
use garnet::capset::CapSet;
use garnet::coherence::TypeExpr;
use garnet::diagnostics::FnMode;
use garnet::effects::{linear_effect_report, LinearParam};

fn registry() -> Vec<Primitive> {
    vec![Primitive { name: "fs::read_file".to_string(), caps: vec!["fs".to_string()] }]
}

/// The caps report of functions declaring `fs` and calling `fs::read_file`.
fn fs_reader_caps(names: &[&str]) -> CapsReport {
    let fns = names
        .iter()
        .map(|n| FnDecl {
            owner: None,
            name: n.to_string(),
            caps: Some(vec!["fs".to_string()]),
            callees: vec![Callee::Path(vec!["fs".to_string(), "read_file".to_string()])],
        })
        .collect();
    check_caps_coverage(&CapsModule { fns, memory_kinds: Vec::new() }, &registry())
}

fn string_param(ownership: Option<Ownership>, name: &str) -> Param {
    Param { name: name.to_string(), ty: Some(TypeExpr::Named { path: vec!["String".to_string()], args: vec![] }), ownership }
}

fn safe_fn(name: &str, params: Vec<Param>) -> FnDef {
    FnDef {
        return_ty: None,
        name: name.to_string(),
        mode: FnMode::Safe,
        annotations: vec![],
        params,
        body: Block { stmts: vec![], tail_expr: Some(Box::new(Expr::Int(0))) },
    }
}

fn module(items: Vec<Item>) -> Module {
    Module { safe: false, items }
}

#[test]
fn effectful_safe_helper_with_borrow_param_records_boundary_and_passes() {
    let m = module(vec![Item::Fn(safe_fn("read_secret", vec![string_param(Some(Ownership::Borrow), "path")]))]);
    let caps = fs_reader_caps(&["read_secret"]);
    let report = linear_effect_report(&m, &caps);
    assert!(report.violations.is_empty(), "borrow boundary should satisfy S96 rule, got {:?}", report.violations);
    let summary = report.functions.iter().find(|s| s.fn_name == "read_secret").expect("read_secret summary");
    assert!(summary.required_caps.contains("fs"));
    assert_eq!(summary.linear_params.len(), 1);
    let LinearParam { name, ownership } = &summary.linear_params[0];
    assert_eq!(name, "path");
    assert_eq!(*ownership, Ownership::Borrow);
}

#[test]
fn effectful_safe_helper_without_linear_param_is_reported() {
    let m = module(vec![Item::Fn(safe_fn("read_secret", vec![]))]);
    let report = linear_effect_report(&m, &fs_reader_caps(&["read_secret"]));
    assert_eq!(report.violations.len(), 1);
    let message = report.violations[0].message();
    assert!(message.contains("read_secret") && message.contains("fs") && message.contains("ownership-qualified parameter"));
}

#[test]
fn pure_safe_helper_and_main_are_not_reported() {
    let m = module(vec![Item::Fn(safe_fn("answer", vec![])), Item::Fn(safe_fn("main", vec![]))]);
    let report = linear_effect_report(&m, &fs_reader_caps(&["main"]));
    assert!(report.violations.is_empty(), "{:?}", report.violations);
    assert_eq!(report.functions.len(), 2);
    assert!(report.functions[0].required_caps.is_empty());
    assert!(report.functions[1].required_caps.contains("fs"));
}

#[test]
fn managed_functions_are_not_summarised_and_methods_use_owner_keys() {
    let mut managed = safe_fn("helper", vec![]);
    managed.mode = FnMode::Managed;
    let m = module(vec![
        Item::Fn(managed),
        Item::Impl(ImplBlock {
            annotations: vec![],
            trait_ty: None,
            type_params: vec![],
            target: TypeExpr::Named { path: vec!["io".to_string(), "Reader".to_string()], args: vec![] },
            methods: vec![safe_fn("read", vec![])],
        }),
        Item::Module(ModuleDecl { name: "inner".to_string(), safe: true, items: vec![Item::Fn({
            let mut f = safe_fn("nested", vec![]);
            f.mode = FnMode::Managed;
            f
        })] }),
    ]);
    let caps = CapsReport { violations: vec![], transitive: vec![("Reader::read".to_string(), CapSet::from_name("net").unwrap())] };
    let report = linear_effect_report(&m, &caps);
    let names: Vec<&str> = report.functions.iter().map(|s| s.fn_name.as_str()).collect();
    assert_eq!(names, vec!["Reader::read", "nested"]);
    assert_eq!(report.violations.len(), 1);
    assert_eq!(report.violations[0].fn_name, "Reader::read");
}
