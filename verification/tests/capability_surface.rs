use garnet::ast::{Annotation, Block, Expr, FnDef, ImplBlock, Item, Module, ModuleDecl};
use garnet::capability_surface::capability_surface;
use garnet::caps_diff::CapabilitySurface;
use garnet::coherence::TypeExpr;
use garnet::diagnostics::FnMode;

fn body() -> Block {
    Block { stmts: vec![], tail_expr: Some(Box::new(Expr::Int(0))) }
}

fn caps(cs: &[&str]) -> Annotation {
    Annotation::Caps(cs.iter().map(|c| c.to_string()).collect())
}

fn fndef(name: &str, annotations: Vec<Annotation>) -> FnDef {
    FnDef { return_ty: None, name: name.to_string(), mode: FnMode::Managed, annotations, params: vec![], body: body() }
}

fn def(name: &str, annotations: Vec<Annotation>) -> Item {
    Item::Fn(fndef(name, annotations))
}

fn impl_of(path: &[&str], methods: Vec<FnDef>) -> Item {
    Item::Impl(ImplBlock {
            annotations: vec![],
            trait_ty: None,
            type_params: vec![],
        target: TypeExpr::Named { path: path.iter().map(|p| p.to_string()).collect(), args: vec![] },
        methods,
    })
}

fn module_item(name: &str, items: Vec<Item>) -> Item {
    Item::Module(ModuleDecl { name: name.to_string(), safe: false, items })
}

fn surface(items: Vec<Item>) -> CapabilitySurface {
    capability_surface(&Module { safe: false, items })
}

fn names(s: &CapabilitySurface) -> Vec<&str> {
    s.per_function.iter().map(|(n, _)| n.as_str()).collect()
}

#[test]
fn aggregate_is_sorted_and_deduped_across_functions() {
    let s = surface(vec![def("a", vec![caps(&["net", "fs"])]), def("b", vec![caps(&["fs"])])]);
    assert_eq!(s.aggregate, vec!["fs", "net"]);
}

#[test]
fn impl_method_caps_are_in_the_surface() {
    let s = surface(vec![
        Item::Other,
        impl_of(&["Reader"], vec![fndef("read", vec![caps(&["fs"])])]),
        def("main", vec![caps(&[])]),
    ]);
    assert_eq!(s.aggregate, vec!["fs"], "impl-method @caps(fs) must be in the aggregate");
    assert!(
        s.per_function.iter().any(|(n, c)| n == "Reader::read" && c == &["fs"]),
        "impl method must appear in per_function: {:?}",
        s.per_function
    );
}

#[test]
fn nested_module_fn_caps_are_in_the_surface() {
    let s = surface(vec![module_item("m", vec![def("f", vec![caps(&["net"])])])]);
    assert_eq!(s.aggregate, vec!["net"]);
}

#[test]
fn per_function_sorted_by_name_with_sorted_caps() {
    let s = surface(vec![def("zebra", vec![caps(&["net", "fs"])]), def("alpha", vec![caps(&["time"])])]);
    assert_eq!(s.per_function[0].0, "alpha");
    assert_eq!(s.per_function[1].0, "zebra");
    assert_eq!(s.per_function[1].1, vec!["fs", "net"]);
}

#[test]
fn empty_caps_is_a_declared_function_with_no_caps() {
    let s = surface(vec![def("main", vec![caps(&[])])]);
    assert_eq!(s.per_function, vec![("main".to_string(), Vec::<String>::new())]);
    assert!(s.aggregate.is_empty());
}

#[test]
fn uses_canonical_strings_not_debug() {
    let s = surface(vec![def("f", vec![caps(&["net_internal"])])]);
    assert_eq!(s.aggregate, vec!["net_internal"]);
}

#[test]
fn wildcard_is_flagged_and_canonical() {
    let s = surface(vec![def("f", vec![caps(&["*"])])]);
    assert!(s.has_wildcard);
    assert_eq!(s.aggregate, vec!["*"]);
}

#[test]
fn functions_without_caps_are_absent_from_per_function() {
    let s = surface(vec![def("plain", vec![]), def("g", vec![caps(&["fs"])])]);
    assert_eq!(s.per_function.len(), 1);
    assert_eq!(s.per_function[0].0, "g");
}

#[test]
fn surface_is_deterministic() {
    let build = || surface(vec![def("a", vec![caps(&["net", "fs"])]), def("b", vec![caps(&["time"])])]);
    let (x, y) = (build(), build());
    assert_eq!(x.aggregate, y.aggregate);
    assert_eq!(x.per_function, y.per_function);
    assert_eq!(x.has_wildcard, y.has_wildcard);
}

#[test]
fn functions_in_modules_are_qualified_by_module_path() {
    let s = surface(vec![
        module_item("a", vec![def("f", vec![caps(&["fs"])])]),
        module_item("b", vec![def("f", vec![caps(&["net"])])]),
    ]);
    assert_eq!(
        s.per_function,
        vec![("a::f".to_string(), vec!["fs".to_string()]), ("b::f".to_string(), vec!["net".to_string()])],
        "same-named functions in two modules must not collide"
    );
}

#[test]
fn nested_modules_and_impl_methods_carry_the_full_path() {
    let s = surface(vec![module_item(
        "a",
        vec![
            module_item("b", vec![def("g", vec![caps(&["env"])])]),
            Item::Other,
            impl_of(&["R"], vec![fndef("m", vec![caps(&["fs"])])]),
        ],
    )]);
    assert_eq!(names(&s), vec!["a::R::m", "a::b::g"]);
}

#[test]
fn a_top_level_impl_on_a_path_qualified_type_is_named_by_the_full_path() {
    let s = surface(vec![
        def("main", vec![caps(&["fs"])]),
        impl_of(&["a", "R"], vec![fndef("m", vec![caps(&["fs"])])]),
        impl_of(&["b", "R"], vec![fndef("m", vec![caps(&["net"])])]),
    ]);
    assert_eq!(names(&s), vec!["a::R::m", "b::R::m", "main"]);
}

#[test]
fn top_level_names_stay_bare() {
    let s = surface(vec![
        Item::Other,
        impl_of(&["R"], vec![fndef("m", vec![caps(&["fs"])])]),
        def("f", vec![caps(&["net"])]),
    ]);
    assert_eq!(names(&s), vec!["R::m", "f"]);
}

#[test]
fn collect_cap_fns_descends_exactly_the_caps_bearing_variants() {
    assert_eq!(surface(vec![def("f", vec![caps(&["fs"])])]).aggregate, vec!["fs"]);
    assert_eq!(
        surface(vec![Item::Other, impl_of(&["R"], vec![fndef("m", vec![caps(&["net"])])])]).aggregate,
        vec!["net"]
    );
    assert_eq!(surface(vec![module_item("m", vec![def("f", vec![caps(&["env"])])])]).aggregate, vec!["env"]);
    assert!(surface(vec![Item::Other, Item::Other]).aggregate.is_empty());
}

#[test]
fn top_level_let_const_initializers_are_not_a_surface_concern() {
    let s = surface(vec![Item::Other, Item::Other, def("main", vec![caps(&[])])]);
    assert!(s.aggregate.is_empty(), "let/const declare no caps: {:?}", s.aggregate);
}

#[test]
fn several_caps_annotations_are_merged_and_deduplicated() {
    let s = surface(vec![def("f", vec![caps(&["net", "fs"]), Annotation::Bounded(3), caps(&["fs", "time"])])]);
    assert_eq!(s.per_function, vec![("f".to_string(), vec!["fs".to_string(), "net".to_string(), "time".to_string()])]);
    assert!(!s.has_wildcard);
}
