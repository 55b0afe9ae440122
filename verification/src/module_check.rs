//! The checker's single entry point: every pass over a module, in order.
//!
//! The report holds, in this order: the over-catch advisories, the
//! per-item safe-mode and annotation diagnostics, the borrow checker's
//! findings, the trait-coherence violations, the match-coverage findings,
//! the transitive `@caps` violations and the `@stability` diagnostics. It
//! also records every function's mode, the capabilities of each function
//! that declares them, and the number of call sites the body walks pass.
//!
//! The primitive registry and the `@stability` tiers (with the opt-in error
//! mode) are the caller's to supply.

use vstd::prelude::*;
use crate::ast::{Item, Module};
use crate::borrow_check::{check_borrows, extends, module_findings};
use crate::caps_graph::{check_caps_coverage, CapsModule, CapsReport, Primitive};
use crate::caps_source::{caps_module_of, decl_views, fn_decls_of, memory_kinds_of};
use crate::checker::{
    all_fns, as_reported, capped, check_items, diags_of, fn_caps_of_fns, fn_caps_view, items_calls, items_diags,
    mode_map_of, nonsendable_names,
};
use crate::coherence::{all_violations, check_trait_coherence, items_names, items_step, seg_views, violation_texts, TypeExpr};
use crate::diagnostics::{CheckError, CheckReport};
use crate::match_coverage::{check_match_coverage, coverage_findings, violation_views};
use crate::sites::{catch_alls, items_sites, overcatch_sites, OverCatchSite};
use crate::stability::{advise, all_advisories, as_found, fn_calls, stability_views, Stability};
use crate::text::{decimal, push_decimal_wide};

verus! {

// ---------------------------------------------------------------------------
// The coherence pass's view of the items
// ---------------------------------------------------------------------------

/// Two types that read the same.
pub open spec fn same_type(a: TypeExpr, b: TypeExpr) -> bool
    decreases a,
{
    match (a, b) {
        (TypeExpr::Named { path: p, args: x }, TypeExpr::Named { path: q, args: y }) =>
            seg_views(p@) == seg_views(q@) && same_types(x@, y@),
        (TypeExpr::Fn { params: x, ret: r }, TypeExpr::Fn { params: y, ret: s }) =>
            same_types(x@, y@) && same_type(*r, *s),
        (TypeExpr::Tuple { elements: x }, TypeExpr::Tuple { elements: y }) => same_types(x@, y@),
        (TypeExpr::Ref { mutable: m, inner: r }, TypeExpr::Ref { mutable: n, inner: s }) => m == n && same_type(*r, *s),
        (TypeExpr::Dyn { trait_ty: r }, TypeExpr::Dyn { trait_ty: s }) => same_type(*r, *s),
        _ => false,
    }
}

/// Two lists of types that read the same.
pub open spec fn same_types(a: Seq<TypeExpr>, b: Seq<TypeExpr>) -> bool
    decreases a,
{
    if a.len() == 0 {
        b.len() == 0
    } else {
        b.len() > 0 && same_type(a[0], b[0]) && same_types(a.subrange(1, a.len() as int), b.subrange(1, b.len() as int))
    }
}

/// An optional type that reads the same.
pub open spec fn same_opt_type(a: Option<TypeExpr>, b: Option<TypeExpr>) -> bool {
    match (a, b) {
        (Some(x), Some(y)) => same_type(x, y),
        (None, None) => true,
        _ => false,
    }
}

/// How the coherence pass sees an item: traits, types and impls by name
/// and type, nested modules recursively; functions and the rest as other.
pub open spec fn seen_as(a: Item, c: crate::coherence::Item) -> bool
    decreases a,
{
    match a {
        Item::Impl(b) => c matches crate::coherence::Item::Impl { trait_ty, target, type_params }
            && same_opt_type(b.trait_ty, trait_ty) && same_type(b.target, target)
            && seg_views(b.type_params@) == seg_views(type_params@),
        Item::Module(m) => c matches crate::coherence::Item::Module { name, items }
            && name@ == m.name@ && all_seen_as(m.items@, items@),
        Item::Struct(s) => c matches crate::coherence::Item::Struct { name } && name@ == s.name@,
        Item::Enum(e) => c matches crate::coherence::Item::Enum { name } && name@ == e.name@,
        Item::Actor(x) => c matches crate::coherence::Item::Actor { name } && name@ == x.name@,
        Item::Trait(n) => c matches crate::coherence::Item::Trait { name } && name@ == n@,
        Item::Protocol(n) => c matches crate::coherence::Item::Protocol { name } && name@ == n@,
        _ => c is Other,
    }
}

/// Items as the coherence pass sees them, one for one.
pub open spec fn all_seen_as(a: Seq<Item>, c: Seq<crate::coherence::Item>) -> bool
    decreases a,
{
    if a.len() == 0 {
        c.len() == 0
    } else {
        c.len() > 0 && seen_as(a[0], c[0]) && all_seen_as(a.subrange(1, a.len() as int), c.subrange(1, c.len() as int))
    }
}

/// A copy of a list of strings.
fn copy_strings(v: &Vec<String>) -> (r: Vec<String>)
    ensures
        seg_views(r@) == seg_views(v@),
{
    let mut r: Vec<String> = Vec::new();
    let mut i: usize = 0;
    while i < v.len()
        invariant
            i <= v@.len(),
            seg_views(r@) == seg_views(v@.subrange(0, i as int)),
        decreases v@.len() - i,
    {
        let ghost r0 = r@;
        r.push(v[i].clone());
        assert(seg_views(r@) =~= seg_views(v@.subrange(0, i as int + 1))) by {
            assert(seg_views(r@) =~= seg_views(r0).push(v@[i as int]@));
        }
        i = i + 1;
    }
    assert(v@.subrange(0, i as int) =~= v@);
    r
}

/// A copy of a type.
fn copy_type(t: &TypeExpr) -> (r: TypeExpr)
    ensures
        same_type(*t, r),
    decreases t,
{
    match t {
        TypeExpr::Named { path, args } => TypeExpr::Named { path: copy_strings(path), args: copy_types(args) },
        TypeExpr::Fn { params, ret } => TypeExpr::Fn { params: copy_types(params), ret: Box::new(copy_type(ret)) },
        TypeExpr::Tuple { elements } => TypeExpr::Tuple { elements: copy_types(elements) },
        TypeExpr::Ref { mutable, inner } => TypeExpr::Ref { mutable: *mutable, inner: Box::new(copy_type(inner)) },
        TypeExpr::Dyn { trait_ty } => TypeExpr::Dyn { trait_ty: Box::new(copy_type(trait_ty)) },
    }
}

/// A copy of a list of types.
fn copy_types(ts: &Vec<TypeExpr>) -> (r: Vec<TypeExpr>)
    ensures
        same_types(ts@, r@),
    decreases ts,
{
    let mut r: Vec<TypeExpr> = Vec::new();
    let mut i: usize = ts.len();
    // Copy back to front, so that each step prepends to a suffix.
    let mut rev: Vec<TypeExpr> = Vec::new();
    while i > 0
        invariant
            i <= ts@.len(),
            rev@.len() == ts@.len() - i,
            forall|k: int| 0 <= k < rev@.len() ==> same_type(ts@[ts@.len() - 1 - k], #[trigger] rev@[k]),
        decreases i,
    {
        proof {
            assert(decreases_to!(*ts => ts@));
            assert(decreases_to!(ts@ => ts@[i as int - 1]));
        }
        let c = copy_type(&ts[i - 1]);
        rev.push(c);
        i = i - 1;
    }
    let n = rev.len();
    while rev.len() > 0
        invariant
            n == ts@.len(),
            rev@.len() + r@.len() == n,
            forall|k: int| 0 <= k < rev@.len() ==> same_type(ts@[n - 1 - k], #[trigger] rev@[k]),
            forall|k: int| 0 <= k < r@.len() ==> same_type(ts@[k], #[trigger] r@[k]),
        decreases rev@.len(),
    {
        let ghost k0 = rev@.len() - 1;
        let c = rev.pop().unwrap();
        assert(same_type(ts@[n - 1 - k0], c));
        r.push(c);
    }
    proof { lemma_same_types_of(ts@, r@); }
    r
}

/// Elementwise sameness is sameness of the lists.
proof fn lemma_same_types_of(a: Seq<TypeExpr>, b: Seq<TypeExpr>)
    requires
        a.len() == b.len(),
        forall|k: int| 0 <= k < b.len() ==> same_type(a[k], #[trigger] b[k]),
    ensures
        same_types(a, b),
    decreases a.len(),
{
    if a.len() > 0 {
        let a1 = a.subrange(1, a.len() as int);
        let b1 = b.subrange(1, b.len() as int);
        assert(same_type(a[0], b[0]));
        assert forall|k: int| 0 <= k < b1.len() implies same_type(a1[k], #[trigger] b1[k]) by {
            assert(a1[k] == a[k + 1] && b1[k] == b[k + 1]);
            assert(same_type(a[k + 1], b[k + 1]));
        }
        lemma_same_types_of(a1, b1);
    }
}

/// The coherence pass's view of one item.
fn coherence_item(a: &Item) -> (r: crate::coherence::Item)
    ensures
        seen_as(*a, r),
    decreases a,
{
    match a {
        Item::Impl(b) => crate::coherence::Item::Impl {
            trait_ty: match &b.trait_ty {
                Some(t) => Some(copy_type(t)),
                None => None,
            },
            target: copy_type(&b.target),
            type_params: copy_strings(&b.type_params),
        },
        Item::Module(m) => {
            proof { assert(decreases_to!(*a => m.items)); }
            crate::coherence::Item::Module { name: m.name.clone(), items: coherence_items(&m.items) }
        },
        Item::Struct(s) => crate::coherence::Item::Struct { name: s.name.clone() },
        Item::Enum(e) => crate::coherence::Item::Enum { name: e.name.clone() },
        Item::Actor(x) => crate::coherence::Item::Actor { name: x.name.clone() },
        Item::Trait(n) => crate::coherence::Item::Trait { name: n.clone() },
        Item::Protocol(n) => crate::coherence::Item::Protocol { name: n.clone() },
        _ => crate::coherence::Item::Other,
    }
}

/// The coherence pass's view of items.
fn coherence_items(items: &Vec<Item>) -> (r: Vec<crate::coherence::Item>)
    ensures
        all_seen_as(items@, r@),
    decreases items,
{
    let mut rev: Vec<crate::coherence::Item> = Vec::new();
    let mut i: usize = items.len();
    while i > 0
        invariant
            i <= items@.len(),
            rev@.len() == items@.len() - i,
            forall|k: int| 0 <= k < rev@.len() ==> seen_as(items@[items@.len() - 1 - k], #[trigger] rev@[k]),
        decreases i,
    {
        proof {
            assert(decreases_to!(*items => items@));
            assert(decreases_to!(items@ => items@[i as int - 1]));
        }
        let c = coherence_item(&items[i - 1]);
        rev.push(c);
        i = i - 1;
    }
    let n = rev.len();
    let mut r: Vec<crate::coherence::Item> = Vec::new();
    while rev.len() > 0
        invariant
            n == items@.len(),
            rev@.len() + r@.len() == n,
            forall|k: int| 0 <= k < rev@.len() ==> seen_as(items@[n - 1 - k], #[trigger] rev@[k]),
            forall|k: int| 0 <= k < r@.len() ==> seen_as(items@[k], #[trigger] r@[k]),
        decreases rev@.len(),
    {
        let ghost k0 = rev@.len() - 1;
        let c = rev.pop().unwrap();
        assert(seen_as(items@[n - 1 - k0], c));
        r.push(c);
    }
    proof { lemma_all_seen_of(items@, r@); }
    r
}

/// Elementwise views are views of the lists.
proof fn lemma_all_seen_of(a: Seq<Item>, b: Seq<crate::coherence::Item>)
    requires
        a.len() == b.len(),
        forall|k: int| 0 <= k < b.len() ==> seen_as(a[k], #[trigger] b[k]),
    ensures
        all_seen_as(a, b),
    decreases a.len(),
{
    if a.len() > 0 {
        let a1 = a.subrange(1, a.len() as int);
        let b1 = b.subrange(1, b.len() as int);
        assert(seen_as(a[0], b[0]));
        assert forall|k: int| 0 <= k < b1.len() implies seen_as(a1[k], #[trigger] b1[k]) by {
            assert(a1[k] == a[k + 1] && b1[k] == b[k + 1]);
            assert(seen_as(a[k + 1], b[k + 1]));
        }
        lemma_all_seen_of(a1, b1);
    }
}

// ---------------------------------------------------------------------------
// The report
// ---------------------------------------------------------------------------

/// The over-catch advisory for a catch-all site.
pub open spec fn overcatch_text(s: OverCatchSite) -> Seq<char> {
    "catch-all rescue at "@ + decimal(s.span.start as nat) + ".."@ + decimal((s.span.start + s.span.len) as nat)
        + " swallows every exception; prefer a typed Result or name the rescue type (advisory)"@
}

/// An over-catch advisory's text, if the diagnostic is one.
pub open spec fn overcatch_view(e: CheckError) -> Option<Seq<char>> {
    match e {
        CheckError::OverCatch(m) => Some(m@),
        _ => None,
    }
}

/// A transitive-caps violation, as a diagnostic.
pub open spec fn coverage_view(e: CheckError) -> Option<(Seq<char>, Seq<char>, Seq<char>)> {
    match e {
        CheckError::CapsCoverage { fn_name, missing, via } => Some((fn_name@, missing@, via@)),
        _ => None,
    }
}

/// The transitive-caps report of a call graph.
pub open spec fn caps_report_ok(m: CapsModule, reg: Seq<Primitive>, r: CapsReport) -> bool {
    &&& crate::order::strictly_sorted(crate::caps_graph::listed_keys(r.transitive@))
    &&& crate::caps_graph::listed_keys(r.transitive@).to_set() == crate::caps_graph::key_set(m.fns@)
    &&& forall|x: int| 0 <= x < r.transitive@.len() ==> (#[trigger] r.transitive@[x]).1@ == crate::caps_graph::transitive(m, reg, r.transitive@[x].0@)
    &&& crate::caps_graph::violation_pairs(r.violations@) == crate::caps_graph::expected_pairs(m, reg, crate::caps_graph::listed_keys(r.transitive@))
    &&& forall|x: int| 0 <= x < r.violations@.len() ==> ({
        let v = #[trigger] r.violations@[x];
        crate::capset::canonical_index(v.missing@) is Some
            && crate::caps_graph::via_ok(m, reg, v.fn_name@, crate::capset::canonical_index(v.missing@)->0, v.via@)
    })
}

/// The call graph of `module` is `m`.
pub open spec fn graph_of(module: Module, m: CapsModule) -> bool {
    decl_views(m.fns@) == fn_decls_of(module.items@) && seg_views(m.memory_kinds@) == memory_kinds_of(module.items@)
}

/// The transitive `@caps` check of a module: the report over its call
/// graph (see `caps_module_of` and `check_caps_coverage`).
pub fn check_module_caps(module: &Module, registry: &Vec<Primitive>) -> (r: CapsReport)
    ensures
        exists|m: CapsModule| graph_of(*module, m) && #[trigger] caps_report_ok(m, registry@, r),
{
    let m = caps_module_of(module);
    let r = check_caps_coverage(&m, registry);
    assert(graph_of(*module, m));
    assert(caps_report_ok(m, registry@, r));
    r
}

/// The parts of a report's diagnostics, cut at `cut` (seven ascending
/// positions): over-catch advisories, item diagnostics, borrow findings,
/// coherence violations, match coverage, transitive caps, stability.
pub open spec fn parts_ok(
    module: Module,
    reg: Seq<Primitive>,
    tiers: Seq<(String, Stability)>,
    error_mode: bool,
    errors: Seq<CheckError>,
    cut: Seq<int>,
) -> bool {
    &&& cut.len() == 6
    &&& 0 <= cut[0] <= cut[1] <= cut[2] <= cut[3] <= cut[4] <= cut[5] <= errors.len()
    &&& errors.subrange(0, cut[0]).map_values(|e: CheckError| overcatch_view(e))
        == catch_alls(items_sites(module.items@)).map_values(|s: OverCatchSite| Some(overcatch_text(s)))
    &&& diags_of(errors.subrange(cut[0], cut[1]))
        == as_reported(items_diags(module.items@, module.safe, nonsendable_names(module.items@)))
    &&& extends(Seq::empty(), errors.subrange(cut[1], cut[2]), module_findings(module))
    &&& exists|c: Seq<crate::coherence::Item>| #[trigger] all_seen_as(module.items@, c)
        && all_violations(errors.subrange(cut[2], cut[3]))
        && violation_texts(errors.subrange(cut[2], cut[3]))
            == items_step(c, items_names(c, Seq::empty()), (Set::empty(), Seq::empty(), Seq::empty())).2
    &&& violation_views(errors.subrange(cut[3], cut[4]))
        == coverage_findings(module).map_values(|m: Seq<char>| Some(m))
    &&& exists|m: CapsModule, r: CapsReport| graph_of(module, m) && #[trigger] caps_report_ok(m, reg, r)
        && errors.subrange(cut[4], cut[5]).map_values(|e: CheckError| coverage_view(e))
            == r.violations@.map_values(|v: crate::caps_graph::CapsViolation| Some((v.fn_name@, v.missing@, v.via@)))
    &&& stability_views(errors.subrange(cut[5], errors.len() as int))
        == as_found(all_advisories(fn_calls(module.items@, tiers), tiers, error_mode, Set::empty()))
}

/// Runs every check over a module (see the module documentation for the
/// order of the diagnostics); `registry` gives each primitive's required
/// capabilities and `tiers` each primitive's stability, with
/// `stability_errors` the opt-in error mode.
pub fn check_module(module: &Module, registry: &Vec<Primitive>, tiers: &Vec<(String, Stability)>, stability_errors: bool) -> (r: CheckReport)
    ensures
        exists|cut: Seq<int>| #[trigger] parts_ok(*module, registry@, tiers@, stability_errors, r.errors@, cut),
        r.mode_map@ == mode_map_of(module.items@),
        fn_caps_view(r.fn_caps@) == fn_caps_of_fns(all_fns(module.items@)),
        r.boundary_call_sites == capped(items_calls(module.items@, module.safe) as int),
{
    // Over-catch advisories.
    let sites = overcatch_sites(module);
    let mut over: Vec<CheckError> = Vec::new();
    let mut i: usize = 0;
    while i < sites.len()
        invariant
            i <= sites@.len(),
            sites@ == catch_alls(items_sites(module.items@)),
            over@.map_values(|e: CheckError| overcatch_view(e))
                == sites@.subrange(0, i as int).map_values(|s: OverCatchSite| Some(overcatch_text(s))),
        decreases sites@.len() - i,
    {
        let s = sites[i];
        let mut m = String::from_str("catch-all rescue at ");
        push_decimal_wide(&mut m, s.span.start as u128);
        m.append("..");
        push_decimal_wide(&mut m, s.span.start as u128 + s.span.len as u128);
        m.append(" swallows every exception; prefer a typed Result or name the rescue type (advisory)");
        proof {
            reveal_strlit("catch-all rescue at ");
            reveal_strlit("..");
            reveal_strlit(" swallows every exception; prefer a typed Result or name the rescue type (advisory)");
        }
        assert(m@ =~= overcatch_text(s));
        let ghost e0 = over@;
        over.push(CheckError::OverCatch(m));
        assert(over@.map_values(|e: CheckError| overcatch_view(e))
            =~= sites@.subrange(0, i as int + 1).map_values(|s: OverCatchSite| Some(overcatch_text(s)))) by {
            assert(over@ =~= e0.push(CheckError::OverCatch(m)));
            assert(sites@.subrange(0, i as int + 1) =~= sites@.subrange(0, i as int).push(s));
            assert(over@.map_values(|e: CheckError| overcatch_view(e)) =~= e0.map_values(|e: CheckError| overcatch_view(e)).push(Some(overcatch_text(s))));
        }
        i = i + 1;
    }
    assert(sites@.subrange(0, i as int) =~= sites@);
    // Per-item checks.
    let mut ns: Vec<String> = Vec::new();
    assert(seg_views(ns@).to_set() =~= Set::<Seq<char>>::empty());
    crate::checker::collect_nonsendable(&module.items, &mut ns);
    assert(seg_views(ns@).to_set() =~= nonsendable_names(module.items@));
    let mut report = CheckReport { errors: Vec::new(), mode_map: Vec::new(), boundary_call_sites: 0, fn_caps: Vec::new() };
    assert(diags_of(report.errors@) =~= Seq::<Option<crate::checker::Diag>>::empty());
    assert(report.mode_map@ =~= Seq::<(String, crate::diagnostics::FnMode)>::empty());
    assert(fn_caps_view(report.fn_caps@) =~= Seq::<(Seq<char>, Seq<Seq<char>>)>::empty());
    check_items(&module.items, module.safe, &ns, &mut report);
    assert(report.mode_map@ =~= mode_map_of(module.items@));
    assert(fn_caps_view(report.fn_caps@) =~= fn_caps_of_fns(all_fns(module.items@)));
    assert(diags_of(report.errors@) =~= as_reported(items_diags(module.items@, module.safe, nonsendable_names(module.items@))));
    let ghost iv = report.errors@;
    // Borrow checking.
    let mut b = check_borrows(module);
    let ghost bv = b@;
    // Trait coherence.
    let citems = coherence_items(&module.items);
    let mut c = check_trait_coherence(&citems);
    let ghost cv = c@;
    // Match coverage.
    let mut mc = check_match_coverage(module);
    let ghost mv = mc@;
    // Transitive capabilities.
    let caps = check_module_caps(module, registry);
    let mut cov: Vec<CheckError> = Vec::new();
    let mut j: usize = 0;
    while j < caps.violations.len()
        invariant
            j <= caps.violations@.len(),
            cov@.map_values(|e: CheckError| coverage_view(e))
                == caps.violations@.subrange(0, j as int).map_values(|v: crate::caps_graph::CapsViolation| Some((v.fn_name@, v.missing@, v.via@))),
        decreases caps.violations@.len() - j,
    {
        let v = &caps.violations[j];
        let ghost e0 = cov@;
        let x = CheckError::CapsCoverage { fn_name: v.fn_name.clone(), missing: v.missing.clone(), via: v.via.clone() };
        assert(coverage_view(x) == Some((v.fn_name@, v.missing@, v.via@)));
        cov.push(x);
        assert(cov@.map_values(|e: CheckError| coverage_view(e)) =~= e0.map_values(|e: CheckError| coverage_view(e)).push(coverage_view(x)));
        assert(caps.violations@.subrange(0, j as int + 1) =~= caps.violations@.subrange(0, j as int).push(caps.violations@[j as int]));
        j = j + 1;
    }
    assert(caps.violations@.subrange(0, j as int) =~= caps.violations@);
    let ghost kv = cov@;
    // Stability.
    let mut st = advise(module, tiers, stability_errors);
    let ghost sv = st@;
    let ghost ov = over@;
    let mut errors = over;
    errors.append(&mut report.errors);
    errors.append(&mut b);
    errors.append(&mut c);
    errors.append(&mut mc);
    errors.append(&mut cov);
    errors.append(&mut st);
    let ghost cut: Seq<int> = seq![ov.len() as int, (ov.len() + iv.len()) as int, (ov.len() + iv.len() + bv.len()) as int,
        (ov.len() + iv.len() + bv.len() + cv.len()) as int, (ov.len() + iv.len() + bv.len() + cv.len() + mv.len()) as int,
        (ov.len() + iv.len() + bv.len() + cv.len() + mv.len() + kv.len()) as int];
    proof {
        let e = errors@;
        let c0 = ov.len() as int;
        let c1 = c0 + iv.len();
        let c2 = c1 + bv.len();
        let c3 = c2 + cv.len();
        let c4 = c3 + mv.len();
        let c5 = c4 + kv.len();
        assert(e =~= ov + iv + bv + cv + mv + kv + sv);
        assert(e.subrange(0, c0) =~= ov);
        assert(e.subrange(c0, c1) =~= iv);
        assert(e.subrange(c1, c2) =~= bv);
        assert(e.subrange(c2, c3) =~= cv);
        assert(e.subrange(c3, c4) =~= mv);
        assert(e.subrange(c4, c5) =~= kv);
        assert(e.subrange(c5, e.len() as int) =~= sv);
        assert(cut =~= seq![c0, c1, c2, c3, c4, c5]);
        assert(all_seen_as(module.items@, citems@));
        let m = choose|m: CapsModule| graph_of(*module, m) && caps_report_ok(m, registry@, caps);
        assert(graph_of(*module, m) && caps_report_ok(m, registry@, caps));
        assert(parts_ok(*module, registry@, tiers@, stability_errors, e, cut));
    }
    let r = CheckReport {
        errors,
        mode_map: report.mode_map,
        boundary_call_sites: report.boundary_call_sites,
        fn_caps: report.fn_caps,
    };
    assert(parts_ok(*module, registry@, tiers@, stability_errors, r.errors@, cut));
    r
}

} // verus!
