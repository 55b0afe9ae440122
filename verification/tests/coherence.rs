use garnet::coherence::{
    check_trait_coherence, type_key, type_patterns_overlap, Item, TypeExpr,
};
use garnet::diagnostics::CheckError;

fn named(path: &[&str], args: Vec<TypeExpr>) -> TypeExpr {
    TypeExpr::Named {
        path: path.iter().map(|s| s.to_string()).collect(),
        args,
    }
}

fn ty(name: &str) -> TypeExpr {
    named(&[name], Vec::new())
}

fn struct_item(name: &str) -> Item {
    Item::Struct { name: name.to_string() }
}

fn trait_item(name: &str) -> Item {
    Item::Trait { name: name.to_string() }
}

fn impl_item(params: &[&str], target: TypeExpr, trait_ty: TypeExpr) -> Item {
    Item::Impl {
        trait_ty: Some(trait_ty),
        target,
        type_params: params.iter().map(|s| s.to_string()).collect(),
    }
}

fn has(d: &[CheckError], what: &str) -> bool {
    d.iter().any(|e| {
        matches!(e, CheckError::SafeModeViolation(m)
            if m.contains("trait coherence violation") && m.contains(what))
    })
}

#[test]
fn duplicate_trait_impl_rejected() {
    let items = vec![
        trait_item("Display"),
        struct_item("Widget"),
        impl_item(&[], ty("Widget"), ty("Display")),
        impl_item(&[], ty("Widget"), ty("Display")),
    ];
    let d = check_trait_coherence(&items);
    assert!(has(&d, "duplicate impl"), "duplicate trait impl must be rejected, got {d:?}");
}

#[test]
fn orphan_trait_impl_rejected_when_trait_and_type_are_external() {
    let items = vec![impl_item(&[], ty("ExternalWidget"), ty("ExternalDisplay"))];
    let d = check_trait_coherence(&items);
    assert!(has(&d, "orphan rule"), "orphan trait impl must be rejected, got {d:?}");
}

#[test]
fn local_trait_allows_external_type_impl() {
    let items = vec![
        trait_item("LocalDisplay"),
        impl_item(&[], ty("ExternalWidget"), ty("LocalDisplay")),
    ];
    let d = check_trait_coherence(&items);
    assert!(d.is_empty(), "local trait should satisfy orphan rule, got {d:?}");
}

#[test]
fn local_type_allows_external_trait_impl() {
    let items = vec![
        struct_item("LocalWidget"),
        impl_item(&[], ty("LocalWidget"), ty("ExternalDisplay")),
    ];
    let d = check_trait_coherence(&items);
    assert!(d.is_empty(), "local type should satisfy orphan rule, got {d:?}");
}

#[test]
fn generic_blanket_impl_overlaps_concrete_impl() {
    let items = vec![
        trait_item("Renderable"),
        struct_item("Box"),
        impl_item(&["T"], named(&["Box"], vec![ty("T")]), ty("Renderable")),
        impl_item(&[], named(&["Box"], vec![ty("String")]), ty("Renderable")),
    ];
    let d = check_trait_coherence(&items);
    assert!(has(&d, "overlapping impl"), "generic blanket impl must overlap concrete impl, got {d:?}");
}

#[test]
fn renamed_generic_blanket_impls_overlap() {
    let items = vec![
        trait_item("Renderable"),
        struct_item("Box"),
        impl_item(&["T"], named(&["Box"], vec![ty("T")]), ty("Renderable")),
        impl_item(&["U"], named(&["Box"], vec![ty("U")]), ty("Renderable")),
    ];
    let d = check_trait_coherence(&items);
    assert!(has(&d, "overlapping impl"), "renamed generic blanket impls must overlap, got {d:?}");
}

#[test]
fn qualified_external_type_does_not_satisfy_orphan_rule_by_short_name() {
    let items = vec![
        struct_item("Widget"),
        impl_item(&[], named(&["Remote", "Widget"], Vec::new()), ty("ExternalRenderable")),
    ];
    let d = check_trait_coherence(&items);
    assert!(has(&d, "orphan rule"), "qualified external type must not be local by short-name collision, got {d:?}");
}

#[test]
fn qualified_local_module_type_satisfies_orphan_rule() {
    let items = vec![
        Item::Module {
            name: "LocalPkg".to_string(),
            items: vec![struct_item("Widget")],
        },
        impl_item(&[], named(&["LocalPkg", "Widget"], Vec::new()), ty("ExternalRenderable")),
    ];
    let d = check_trait_coherence(&items);
    assert!(d.is_empty(), "qualified local module type should satisfy orphan rule, got {d:?}");
}

#[test]
fn overlap_needs_consistent_parameter_bindings() {
    let pair = |a: TypeExpr, b: TypeExpr| TypeExpr::Tuple { elements: vec![a, b] };
    let t = vec!["T".to_string()];
    let none: Vec<String> = Vec::new();
    // (T, T) meets (Int, Int) but not (Int, String)
    assert!(type_patterns_overlap(&pair(ty("T"), ty("T")), &t, &pair(ty("Int"), ty("Int")), &none));
    assert!(!type_patterns_overlap(&pair(ty("T"), ty("T")), &t, &pair(ty("Int"), ty("String")), &none));
    // distinct concrete types never overlap; references must agree on mutability
    assert!(!type_patterns_overlap(&ty("Int"), &none, &ty("String"), &none));
    let r = |m: bool| TypeExpr::Ref { mutable: m, inner: Box::new(ty("Int")) };
    assert!(!type_patterns_overlap(&r(true), &none, &r(false), &none));
    assert!(type_patterns_overlap(&r(true), &none, &r(true), &none));
}

#[test]
fn type_keys_render_every_shape() {
    let f = TypeExpr::Fn {
        params: vec![ty("Int"), named(&["std", "Vec"], vec![ty("T")])],
        ret: Box::new(TypeExpr::Ref { mutable: true, inner: Box::new(ty("Out")) }),
    };
    assert_eq!(type_key(&f), "(Int, std::Vec<T>) -> &mut Out");
    let d = TypeExpr::Dyn { trait_ty: Box::new(ty("Show")) };
    assert_eq!(type_key(&d), "dyn Show");
    let t = TypeExpr::Tuple { elements: vec![] };
    assert_eq!(type_key(&t), "()");
}

#[test]
fn diagnostics_come_in_item_order_with_exact_text() {
    let items = vec![
        impl_item(&[], ty("A"), ty("X")),
        impl_item(&[], ty("A"), ty("X")),
    ];
    let d = check_trait_coherence(&items);
    let texts: Vec<String> = d
        .iter()
        .map(|e| match e {
            CheckError::SafeModeViolation(m) => m.clone(),
            _ => panic!("only safe-mode violations are reported"),
        })
        .collect();
    assert_eq!(
        texts,
        vec![
            "trait coherence violation: impl `X` for `A` violates the orphan rule; define the trait or the type locally",
            "trait coherence violation: impl `X` for `A` violates the orphan rule; define the trait or the type locally",
            "trait coherence violation: duplicate impl `X` for `A`",
        ]
    );
}
