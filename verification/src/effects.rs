//! Linear/effect seed: an authority-bearing safe function must expose an
//! explicit ownership-qualified parameter boundary (`own`, `borrow` or
//! `mut`); a violation names the function and the capabilities it
//! requires. `main` is the program's authority boundary and is exempt. No
//! full linear typing or runtime enforcement is claimed.

use vstd::prelude::*;
use vstd::string::*;
use crate::ast::{FnDef, Item, Module, Ownership, Param};
use crate::caps_graph::CapsReport;
use crate::capset::{cap_names, CapSet};
use crate::coherence::TypeExpr;
use crate::diagnostics::FnMode;
use crate::text::{join, join_strs, str_eq, str_views};

verus! {

/// A safe function that performs authority effects without an
/// ownership-qualified parameter.
#[derive(Debug, Clone)]
pub struct LinearEffectViolation {
    pub fn_name: String,
    pub required_caps: CapSet,
}

/// The message of a violation.
pub open spec fn violation_message(fn_name: Seq<char>, caps: CapSet) -> Seq<char> {
    "linear/effect violation: safe function `"@ + fn_name + "` performs authority effects ["@
        + join(cap_names(caps@), ", "@)
        + "] without an explicit ownership-qualified parameter boundary (own/borrow/ref/mut). S96 is a static seed only; no VM or OS sandbox enforcement is claimed."@
}

impl LinearEffectViolation {
    /// The diagnostic text, listing the required capabilities in canonical
    /// order.
    pub fn message(&self) -> (m: String)
        ensures
            m@ == violation_message(self.fn_name@, self.required_caps),
    {
        let names = self.required_caps.names();
        let caps = join_strs(&names, ", ");
        let mut m = String::from_str("linear/effect violation: safe function `");
        m.append(self.fn_name.as_str());
        m.append("` performs authority effects [");
        m.append(caps.as_str());
        m.append(
            "] without an explicit ownership-qualified parameter boundary (own/borrow/ref/mut). S96 is a static seed only; no VM or OS sandbox enforcement is claimed.",
        );
        m
    }
}

/// The key of a function in the transitive-capability map: `Owner::name`
/// for a method, the bare name for a free function.
pub open spec fn caps_key_of(owner: Option<Seq<char>>, name: Seq<char>) -> Seq<char> {
    match owner {
        Some(o) => o + "::"@ + name,
        None => name,
    }
}

/// The transitive-capability map key of a function.
pub fn caps_key(owner: Option<&str>, name: &str) -> (k: String)
    ensures
        k@ == caps_key_of(
            match owner {
                Some(o) => Some(o@),
                None => None,
            },
            name@,
        ),
{
    match owner {
        Some(o) => {
            let mut k = o.to_owned();
            k.append("::");
            k.append(name);
            k
        },
        None => name.to_owned(),
    }
}

/// A parameter with an explicit ownership qualifier.
#[derive(Debug, Clone)]
pub struct LinearParam {
    pub name: String,
    pub ownership: Ownership,
}

/// One safe function's effect summary: its transitive-capability key, its
/// required capabilities, and its ownership-qualified parameters.
#[derive(Debug, Clone)]
pub struct FnEffectSummary {
    pub fn_name: String,
    pub safe: bool,
    pub required_caps: CapSet,
    pub linear_params: Vec<LinearParam>,
}

/// The linear/effect report: every safe function's summary and the
/// violations, in source order.
#[derive(Debug, Clone)]
pub struct LinearEffectReport {
    pub functions: Vec<FnEffectSummary>,
    pub violations: Vec<LinearEffectViolation>,
}

/// A summary as plain values.
pub type SummaryView = (Seq<char>, bool, Set<nat>, Seq<(Seq<char>, Ownership)>);

/// A violation as plain values.
pub type ViolationView = (Seq<char>, Set<nat>);

/// The owner label of an impl block's methods: the last segment of its
/// type's path, or `impl`.
pub open spec fn owner_label(t: TypeExpr) -> Seq<char> {
    match t {
        TypeExpr::Named { path, .. } => if path@.len() > 0 {
            path@.last()@
        } else {
            "impl"@
        },
        _ => "impl"@,
    }
}

/// The capabilities the first entry of `key` lists, or none.
pub open spec fn caps_for(tr: Seq<(String, CapSet)>, key: Seq<char>) -> Set<nat>
    decreases tr.len(),
{
    if tr.len() == 0 {
        Set::empty()
    } else if tr[0].0@ == key {
        tr[0].1@
    } else {
        caps_for(tr.drop_first(), key)
    }
}

/// The ownership-qualified parameters, in order.
pub open spec fn linear_params_of(ps: Seq<Param>) -> Seq<(Seq<char>, Ownership)>
    decreases ps.len(),
{
    if ps.len() == 0 {
        Seq::empty()
    } else {
        let pre = linear_params_of(ps.drop_last());
        match ps.last().ownership {
            Some(o) => pre.push((ps.last().name@, o)),
            None => pre,
        }
    }
}

/// One function's summary and violation, when it is safe.
pub open spec fn fn_effects(fd: FnDef, owner: Option<Seq<char>>, module_safe: bool, tr: Seq<(String, CapSet)>) -> (Seq<SummaryView>, Seq<ViolationView>) {
    if !(module_safe || fd.mode == FnMode::Safe) {
        (Seq::empty(), Seq::empty())
    } else {
        let key = caps_key_of(owner, fd.name@);
        let req = caps_for(tr, key);
        let lps = linear_params_of(fd.params@);
        let v = if fd.name@ != "main"@ && req != Set::<nat>::empty() && lps.len() == 0 {
            seq![(key, req)]
        } else {
            Seq::empty()
        };
        (seq![(key, true, req, lps)], v)
    }
}

/// The methods of an impl block, in order.
pub open spec fn methods_effects(ms: Seq<FnDef>, owner: Seq<char>, module_safe: bool, tr: Seq<(String, CapSet)>) -> (Seq<SummaryView>, Seq<ViolationView>)
    decreases ms.len(),
{
    if ms.len() == 0 {
        (Seq::empty(), Seq::empty())
    } else {
        let a = fn_effects(ms[0], Some(owner), module_safe, tr);
        let b = methods_effects(ms.subrange(1, ms.len() as int), owner, module_safe, tr);
        (a.0 + b.0, a.1 + b.1)
    }
}

/// Items in order, nested modules and impl methods included.
pub open spec fn items_effects(items: Seq<Item>, module_safe: bool, tr: Seq<(String, CapSet)>) -> (Seq<SummaryView>, Seq<ViolationView>)
    decreases items,
{
    if items.len() == 0 {
        (Seq::empty(), Seq::empty())
    } else {
        let a = match items[0] {
            Item::Fn(f) => fn_effects(f, None, module_safe, tr),
            Item::Module(m) => items_effects(m.items@, module_safe || m.safe, tr),
            Item::Impl(b) => methods_effects(b.methods@, owner_label(b.target), module_safe, tr),
            Item::Enum(_) | Item::Struct(_) | Item::Trait(_) | Item::Protocol(_) | Item::Actor(_) | Item::Memory(_) | Item::Other => (Seq::empty(), Seq::empty()),
        };
        let b = items_effects(items.subrange(1, items.len() as int), module_safe, tr);
        (a.0 + b.0, a.1 + b.1)
    }
}

/// The summaries as plain values.
pub open spec fn summary_views(v: Seq<FnEffectSummary>) -> Seq<SummaryView> {
    v.map_values(|s: FnEffectSummary| (s.fn_name@, s.safe, s.required_caps@, lp_views(s.linear_params@)))
}

/// Linear parameters as plain values.
pub open spec fn lp_views(v: Seq<LinearParam>) -> Seq<(Seq<char>, Ownership)> {
    v.map_values(|p: LinearParam| (p.name@, p.ownership))
}

/// The violations as plain values.
pub open spec fn violation_views(v: Seq<LinearEffectViolation>) -> Seq<ViolationView> {
    v.map_values(|x: LinearEffectViolation| (x.fn_name@, x.required_caps@))
}

/// The capabilities listed for `key`, or none.
fn caps_for_exec(tr: &Vec<(String, CapSet)>, key: &str) -> (r: CapSet)
    ensures
        r@ == caps_for(tr@, key@),
{
    let mut i: usize = 0;
    assert(tr@.subrange(0, tr@.len() as int) =~= tr@);
    while i < tr.len()
        invariant
            i <= tr@.len(),
            caps_for(tr@, key@) == caps_for(tr@.subrange(i as int, tr@.len() as int), key@),
        decreases tr@.len() - i,
    {
        let ghost rest = tr@.subrange(i as int, tr@.len() as int);
        assert(rest.drop_first() =~= tr@.subrange(i as int + 1, tr@.len() as int));
        if str_eq(tr[i].0.as_str(), key) {
            return tr[i].1;
        }
        i = i + 1;
    }
    CapSet::empty()
}

/// The ownership-qualified parameters.
fn linear_params(ps: &Vec<Param>) -> (r: Vec<LinearParam>)
    ensures
        lp_views(r@) == linear_params_of(ps@),
{
    let mut r: Vec<LinearParam> = Vec::new();
    let mut i: usize = 0;
    assert(lp_views(r@) =~= linear_params_of(ps@.subrange(0, 0)));
    while i < ps.len()
        invariant
            i <= ps@.len(),
            lp_views(r@) == linear_params_of(ps@.subrange(0, i as int)),
        decreases ps@.len() - i,
    {
        let ghost pre = ps@.subrange(0, i as int + 1);
        assert(pre.drop_last() =~= ps@.subrange(0, i as int));
        assert(pre.last() == ps@[i as int]);
        let ghost r0 = r@;
        match ps[i].ownership {
            Some(o) => {
                r.push(LinearParam { name: ps[i].name.clone(), ownership: o });
                assert(lp_views(r@) =~= lp_views(r0).push((ps@[i as int].name@, o)));
            },
            None => {},
        }
        i = i + 1;
    }
    assert(ps@.subrange(0, i as int) =~= ps@);
    r
}

/// Records one function's summary and violation, when it is safe.
fn collect_function(fd: &FnDef, owner: Option<&str>, module_safe: bool, tr: &Vec<(String, CapSet)>, rep: &mut LinearEffectReport)
    ensures
        ({
            let e = fn_effects(*fd, match owner { Some(o) => Some(o@), None => None }, module_safe, tr@);
            &&& summary_views(final(rep).functions@) == summary_views(old(rep).functions@) + e.0
            &&& violation_views(final(rep).violations@) == violation_views(old(rep).violations@) + e.1
        }),
{
    let ghost f0 = summary_views(rep.functions@);
    let ghost v0 = violation_views(rep.violations@);
    if !(module_safe || fd.mode == FnMode::Safe) {
        assert(f0 + Seq::<SummaryView>::empty() =~= f0);
        assert(v0 + Seq::<ViolationView>::empty() =~= v0);
        return;
    }
    let key = caps_key(owner, fd.name.as_str());
    let req = caps_for_exec(tr, key.as_str());
    let lps = linear_params(&fd.params);
    let no_params = lps.len() == 0;
    let ghost lv = lp_views(lps@);
    rep.functions.push(FnEffectSummary { fn_name: key.clone(), safe: true, required_caps: req, linear_params: lps });
    assert(summary_views(rep.functions@) =~= f0.push((key@, true, req@, lv)));
    if !str_eq(fd.name.as_str(), "main") && !req.is_empty() && no_params {
        rep.violations.push(LinearEffectViolation { fn_name: key, required_caps: req });
        assert(violation_views(rep.violations@) =~= v0.push((caps_key_of(match owner { Some(o) => Some(o@), None => None }, fd.name@), req@)));
    } else {
        assert(violation_views(rep.violations@) =~= v0 + Seq::<ViolationView>::empty());
    }
}

/// The owner label of an impl block's methods.
fn owner_label_exec(t: &TypeExpr) -> (r: String)
    ensures
        r@ == owner_label(*t),
{
    match t {
        TypeExpr::Named { path, .. } => if path.len() > 0 {
            path[path.len() - 1].clone()
        } else {
            String::from_str("impl")
        },
        _ => String::from_str("impl"),
    }
}

/// Records the summaries and violations of items, in order.
fn collect_items(items: &Vec<Item>, module_safe: bool, tr: &Vec<(String, CapSet)>, rep: &mut LinearEffectReport)
    ensures
        ({
            let e = items_effects(items@, module_safe, tr@);
            &&& summary_views(final(rep).functions@) == summary_views(old(rep).functions@) + e.0
            &&& violation_views(final(rep).violations@) == violation_views(old(rep).violations@) + e.1
        }),
    decreases items,
{
    let ghost total = items_effects(items@, module_safe, tr@);
    let ghost f0 = summary_views(rep.functions@);
    let ghost v0 = violation_views(rep.violations@);
    let mut i: usize = 0;
    assert(items@.subrange(0, items@.len() as int) =~= items@);
    assert(f0 + total.0 =~= summary_views(rep.functions@) + items_effects(items@.subrange(0, items@.len() as int), module_safe, tr@).0);
    assert(v0 + total.1 =~= violation_views(rep.violations@) + items_effects(items@.subrange(0, items@.len() as int), module_safe, tr@).1);
    while i < items.len()
        invariant
            i <= items@.len(),
            f0 + total.0 == summary_views(rep.functions@) + items_effects(items@.subrange(i as int, items@.len() as int), module_safe, tr@).0,
            v0 + total.1 == violation_views(rep.violations@) + items_effects(items@.subrange(i as int, items@.len() as int), module_safe, tr@).1,
        decreases items@.len() - i,
    {
        let ghost rest = items@.subrange(i as int, items@.len() as int);
        assert(rest[0] == items@[i as int]);
        assert(rest.subrange(1, rest.len() as int) =~= items@.subrange(i as int + 1, items@.len() as int));
        let ghost fa = summary_views(rep.functions@);
        let ghost va = violation_views(rep.violations@);
        let ghost tail = items_effects(items@.subrange(i as int + 1, items@.len() as int), module_safe, tr@);
        match &items[i] {
            Item::Fn(f) => {
                collect_function(f, None, module_safe, tr, rep);
            },
            Item::Module(m) => {
                proof {
                    assert(decreases_to!(*items => items@));
                    assert(decreases_to!(items@ => items@[i as int]));
                    assert(decreases_to!(items@[i as int] => m.items));
                }
                collect_items(&m.items, module_safe || m.safe, tr, rep);
            },
            Item::Impl(b) => {
                let owner = owner_label_exec(&b.target);
                let ghost ow = owner@;
                let ghost me = methods_effects(b.methods@, ow, module_safe, tr@);
                let mut j: usize = 0;
                assert(b.methods@.subrange(0, b.methods@.len() as int) =~= b.methods@);
                assert(fa + me.0 =~= summary_views(rep.functions@) + methods_effects(b.methods@.subrange(0, b.methods@.len() as int), ow, module_safe, tr@).0);
                assert(va + me.1 =~= violation_views(rep.violations@) + methods_effects(b.methods@.subrange(0, b.methods@.len() as int), ow, module_safe, tr@).1);
                while j < b.methods.len()
                    invariant
                        j <= b.methods@.len(),
                        ow == owner@,
                        fa + me.0 == summary_views(rep.functions@) + methods_effects(b.methods@.subrange(j as int, b.methods@.len() as int), ow, module_safe, tr@).0,
                        va + me.1 == violation_views(rep.violations@) + methods_effects(b.methods@.subrange(j as int, b.methods@.len() as int), ow, module_safe, tr@).1,
                    decreases b.methods@.len() - j,
                {
                    let ghost ms = b.methods@.subrange(j as int, b.methods@.len() as int);
                    assert(ms[0] == b.methods@[j as int]);
                    assert(ms.subrange(1, ms.len() as int) =~= b.methods@.subrange(j as int + 1, b.methods@.len() as int));
                    let ghost fb = summary_views(rep.functions@);
                    let ghost vb = violation_views(rep.violations@);
                    let ghost mt = methods_effects(b.methods@.subrange(j as int + 1, b.methods@.len() as int), ow, module_safe, tr@);
                    collect_function(&b.methods[j], Some(owner.as_str()), module_safe, tr, rep);
                    let ghost e = fn_effects(b.methods@[j as int], Some(ow), module_safe, tr@);
                    assert(fb + (e.0 + mt.0) =~= summary_views(rep.functions@) + mt.0);
                    assert(vb + (e.1 + mt.1) =~= violation_views(rep.violations@) + mt.1);
                    j = j + 1;
                }
                assert(summary_views(rep.functions@) + methods_effects(b.methods@.subrange(j as int, b.methods@.len() as int), ow, module_safe, tr@).0 =~= summary_views(rep.functions@));
                assert(violation_views(rep.violations@) + methods_effects(b.methods@.subrange(j as int, b.methods@.len() as int), ow, module_safe, tr@).1 =~= violation_views(rep.violations@));
            },
            Item::Enum(_) | Item::Struct(_) | Item::Trait(_) | Item::Protocol(_) | Item::Actor(_) | Item::Memory(_) | Item::Other => {},
        }
        let ghost head = match items@[i as int] {
            Item::Fn(f) => fn_effects(f, None, module_safe, tr@),
            Item::Module(m) => items_effects(m.items@, module_safe || m.safe, tr@),
            Item::Impl(b) => methods_effects(b.methods@, owner_label(b.target), module_safe, tr@),
            Item::Enum(_) | Item::Struct(_) | Item::Trait(_) | Item::Protocol(_) | Item::Actor(_) | Item::Memory(_) | Item::Other => (Seq::<SummaryView>::empty(), Seq::<ViolationView>::empty()),
        };
        assert(fa + (head.0 + tail.0) =~= summary_views(rep.functions@) + tail.0);
        assert(va + (head.1 + tail.1) =~= violation_views(rep.violations@) + tail.1);
        i = i + 1;
    }
    assert(summary_views(rep.functions@) + items_effects(items@.subrange(i as int, items@.len() as int), module_safe, tr@).0 =~= summary_views(rep.functions@));
    assert(violation_views(rep.violations@) + items_effects(items@.subrange(i as int, items@.len() as int), module_safe, tr@).1 =~= violation_views(rep.violations@));
}

/// The linear/effect report of a module: each safe function's summary,
/// its required capabilities looked up in the caps report's transitive
/// listing by key (`Owner::name` for methods), and a violation for each
/// safe function other than `main` that requires a capability but has no
/// ownership-qualified parameter.
pub fn linear_effect_report(module: &Module, caps_report: &CapsReport) -> (r: LinearEffectReport)
    ensures
        ({
            let e = items_effects(module.items@, module.safe, caps_report.transitive@);
            &&& summary_views(r.functions@) == e.0
            &&& violation_views(r.violations@) == e.1
        }),
{
    let mut rep = LinearEffectReport { functions: Vec::new(), violations: Vec::new() };
    assert(summary_views(rep.functions@) =~= Seq::<SummaryView>::empty());
    assert(violation_views(rep.violations@) =~= Seq::<ViolationView>::empty());
    collect_items(&module.items, module.safe, &caps_report.transitive, &mut rep);
    assert(summary_views(rep.functions@) =~= items_effects(module.items@, module.safe, caps_report.transitive@).0);
    assert(violation_views(rep.violations@) =~= items_effects(module.items@, module.safe, caps_report.transitive@).1);
    rep
}

} // verus!
