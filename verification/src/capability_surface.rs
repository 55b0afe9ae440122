//! The canonical capability surface of a module: every function that
//! declares `@caps(...)` (top-level functions, impl-block methods, and
//! functions of nested modules), with its declared capabilities.
//!
//! Function names carry their module path (`a::f`), and methods their
//! impl's type as written (`a::R::m`, `R::m`). Every list is sorted and
//! free of duplicates, so the surface is the same on every run.
//! Capabilities are held by their canonical names, `*` for the wildcard.

use vstd::prelude::*;
use crate::ast::{Annotation, FnDef, Item, Module};
use crate::caps_diff::{pf_names, pf_view, CapabilitySurface, FnCapsView};
use crate::coherence::{join_strings, seg_views, TypeExpr};
use crate::order::{insert_sorted, lemma_sorted_of, sorted_of, strictly_sorted, views};
use crate::surfaces::{ints, stable_order, stable_positions};
use crate::text::{join, str_eq};

verus! {

/// The label of an impl block's type in method names: its path as
/// written, or `impl` for a type without one.
pub open spec fn impl_label(t: TypeExpr) -> Seq<char> {
    match t {
        TypeExpr::Named { path, .. } => if path@.len() > 0 {
            join(seg_views(path@), "::"@)
        } else {
            "impl"@
        },
        _ => "impl"@,
    }
}

/// The methods of an impl block, named under `prefix`, with their
/// annotations.
pub open spec fn method_entries(ms: Seq<FnDef>, prefix: Seq<char>) -> Seq<(Seq<char>, Seq<Annotation>)> {
    ms.map_values(|m: FnDef| (prefix + m.name@, m.annotations@))
}

/// Every function that can declare capabilities, named under `prefix`,
/// with its annotations, in source order.
pub open spec fn cap_fns(items: Seq<Item>, prefix: Seq<char>) -> Seq<(Seq<char>, Seq<Annotation>)>
    decreases items,
{
    if items.len() == 0 {
        Seq::empty()
    } else {
        let head = match items[0] {
            Item::Fn(f) => seq![(prefix + f.name@, f.annotations@)],
            Item::Impl(b) => method_entries(b.methods@, prefix + impl_label(b.target) + "::"@),
            Item::Module(m) => cap_fns(m.items@, prefix + m.name@ + "::"@),
            Item::Enum(_) | Item::Struct(_) | Item::Trait(_) | Item::Protocol(_) | Item::Actor(_) | Item::Memory(_) | Item::Other => Seq::empty(),
        };
        head + cap_fns(items.subrange(1, items.len() as int), prefix)
    }
}

/// Whether some annotation is `@caps(...)`.
pub open spec fn declares_caps(anns: Seq<Annotation>) -> bool {
    exists|i: int| 0 <= i < anns.len() && anns[i] is Caps
}

/// The capabilities of all `@caps(...)` annotations.
pub open spec fn caps_in(anns: Seq<Annotation>) -> Set<Seq<char>>
    decreases anns.len(),
{
    if anns.len() == 0 {
        Set::empty()
    } else {
        let last = match anns.last() {
            Annotation::Caps(cs) => views(cs@).to_set(),
            _ => Set::empty(),
        };
        caps_in(anns.drop_last()).union(last)
    }
}

/// The capabilities of all the functions.
pub open spec fn all_caps(fs: Seq<(Seq<char>, Seq<Annotation>)>) -> Set<Seq<char>>
    decreases fs.len(),
{
    if fs.len() == 0 {
        Set::empty()
    } else {
        all_caps(fs.drop_last()).union(caps_in(fs.last().1))
    }
}

/// The functions that declare capabilities, each with its sorted caps, in
/// source order.
pub open spec fn declared_entries(fs: Seq<(Seq<char>, Seq<Annotation>)>) -> Seq<FnCapsView>
    decreases fs.len(),
{
    if fs.len() == 0 {
        Seq::empty()
    } else {
        let pre = declared_entries(fs.drop_last());
        if declares_caps(fs.last().1) {
            pre.push((fs.last().0, sorted_of(caps_in(fs.last().1))))
        } else {
            pre
        }
    }
}

/// The per-function table: the declaring functions sorted by name, stably.
pub open spec fn per_function_of(fs: Seq<(Seq<char>, Seq<Annotation>)>) -> Seq<FnCapsView> {
    let es = declared_entries(fs);
    stable_positions(pf_names(es)).map_values(|p: int| es[p])
}

/// The functions as names and annotations.
pub open spec fn fn_entries(v: Seq<(String, &FnDef)>) -> Seq<(Seq<char>, Seq<Annotation>)> {
    v.map_values(|e: (String, &FnDef)| (e.0@, e.1.annotations@))
}

/// The label of an impl block's type.
fn impl_label_exec(t: &TypeExpr) -> (r: String)
    ensures
        r@ == impl_label(*t),
{
    match t {
        TypeExpr::Named { path, .. } => if path.len() > 0 {
            join_strings(path, "::")
        } else {
            String::from_str("impl")
        },
        _ => String::from_str("impl"),
    }
}

/// `a` followed by `b`.
fn concat(a: &String, b: &str) -> (r: String)
    ensures
        r@ == a@ + b@,
{
    let mut r = a.clone();
    r.append(b);
    r
}

/// Appends every function that can declare capabilities, named under
/// `prefix`.
fn collect_cap_fns<'a>(items: &'a Vec<Item>, prefix: &String, out: &mut Vec<(String, &'a FnDef)>)
    ensures
        fn_entries(final(out)@) == fn_entries(old(out)@) + cap_fns(items@, prefix@),
    decreases items,
{
    let ghost o0 = fn_entries(out@);
    let mut i: usize = 0;
    assert(items@.subrange(0, items@.len() as int) =~= items@);
    assert(o0 + cap_fns(items@, prefix@) =~= fn_entries(out@) + cap_fns(items@.subrange(0, items@.len() as int), prefix@));
    while i < items.len()
        invariant
            i <= items@.len(),
            o0 + cap_fns(items@, prefix@) == fn_entries(out@) + cap_fns(items@.subrange(i as int, items@.len() as int), prefix@),
        decreases items@.len() - i,
    {
        let ghost rest = items@.subrange(i as int, items@.len() as int);
        assert(rest[0] == items@[i as int]);
        assert(rest.subrange(1, rest.len() as int) =~= items@.subrange(i as int + 1, items@.len() as int));
        let ghost before = fn_entries(out@);
        let ghost tail = cap_fns(items@.subrange(i as int + 1, items@.len() as int), prefix@);
        match &items[i] {
            Item::Fn(f) => {
                let ghost v0 = out@;
                out.push((concat(prefix, f.name.as_str()), f));
                assert(fn_entries(out@) =~= before.push((prefix@ + f.name@, f.annotations@)));
                assert(before + (seq![(prefix@ + f.name@, f.annotations@)] + tail) =~= fn_entries(out@) + tail);
            },
            Item::Impl(b) => {
                let label = impl_label_exec(&b.target);
                let owner = concat(&concat(prefix, label.as_str()), "::");
                let ghost p = owner@;
                let ghost ms = method_entries(b.methods@, p);
                let mut j: usize = 0;
                while j < b.methods.len()
                    invariant
                        j <= b.methods@.len(),
                        p == owner@,
                        ms == method_entries(b.methods@, p),
                        fn_entries(out@) == before + ms.subrange(0, j as int),
                    decreases b.methods@.len() - j,
                {
                    let ghost v0 = out@;
                    out.push((concat(&owner, b.methods[j].name.as_str()), &b.methods[j]));
                    assert(fn_entries(out@) =~= before + ms.subrange(0, j as int + 1)) by {
                        assert(fn_entries(out@) =~= fn_entries(v0).push(ms[j as int]));
                    }
                    j = j + 1;
                }
                assert(ms.subrange(0, j as int) =~= ms);
                assert(p =~= prefix@ + impl_label(b.target) + "::"@);
                assert(before + (ms + tail) =~= fn_entries(out@) + tail);
            },
            Item::Module(m) => {
                proof {
                    assert(decreases_to!(*items => items@));
                    assert(decreases_to!(items@ => items@[i as int]));
                    assert(decreases_to!(items@[i as int] => m.items));
                }
                let np = concat(&concat(prefix, m.name.as_str()), "::");
                collect_cap_fns(&m.items, &np, out);
                let ghost sub = cap_fns(m.items@, np@);
                assert(np@ =~= prefix@ + m.name@ + "::"@);
                assert(before + (sub + tail) =~= fn_entries(out@) + tail);
            },
            Item::Enum(_) | Item::Struct(_) | Item::Trait(_) | Item::Protocol(_) | Item::Actor(_) | Item::Memory(_) | Item::Other => {
                assert(before + (Seq::empty() + tail) =~= fn_entries(out@) + tail);
            },
        }
        i = i + 1;
    }
    assert(fn_entries(out@) + cap_fns(items@.subrange(i as int, items@.len() as int), prefix@) =~= fn_entries(out@));
}

/// A copy of a list of strings.
fn copy_strings(v: &Vec<String>) -> (r: Vec<String>)
    ensures
        views(r@) == views(v@),
{
    let mut r: Vec<String> = Vec::new();
    let mut i: usize = 0;
    while i < v.len()
        invariant
            i <= v@.len(),
            views(r@) == views(v@.subrange(0, i as int)),
        decreases v@.len() - i,
    {
        let ghost r0 = r@;
        r.push(v[i].clone());
        assert(views(r@) =~= views(v@.subrange(0, i as int + 1))) by {
            assert(views(r@) =~= views(r0).push(v@[i as int]@));
        }
        i = i + 1;
    }
    assert(v@.subrange(0, i as int) =~= v@);
    r
}

/// The capability surface of a module: the sorted union of all declared
/// capabilities, the declaring functions sorted by name with their sorted
/// capabilities, and whether a `*` wildcard is declared anywhere.
pub fn capability_surface(module: &Module) -> (r: CapabilitySurface)
    ensures
        ({
            let fs = cap_fns(module.items@, Seq::empty());
            &&& views(r.aggregate@) == sorted_of(all_caps(fs))
            &&& pf_view(r.per_function@) == per_function_of(fs)
            &&& r.has_wildcard == all_caps(fs).contains("*"@)
        }),
{
    let mut fns: Vec<(String, &FnDef)> = Vec::new();
    let empty = String::new();
    assert(fn_entries(fns@) =~= Seq::<(Seq<char>, Seq<Annotation>)>::empty());
    collect_cap_fns(&module.items, &empty, &mut fns);
    assert(empty@ =~= Seq::<char>::empty());
    let ghost fs = fn_entries(fns@);
    assert(fs =~= cap_fns(module.items@, Seq::empty()));
    let mut aggregate: Vec<String> = Vec::new();
    let mut entries: Vec<(String, Vec<String>)> = Vec::new();
    let mut has_wildcard = false;
    let mut i: usize = 0;
    assert(views(aggregate@).to_set() =~= all_caps(fs.subrange(0, 0)));
    assert(pf_view(entries@) =~= declared_entries(fs.subrange(0, 0)));
    while i < fns.len()
        invariant
            fs == fn_entries(fns@),
            i <= fns@.len(),
            strictly_sorted(views(aggregate@)),
            views(aggregate@).to_set() == all_caps(fs.subrange(0, i as int)),
            pf_view(entries@) == declared_entries(fs.subrange(0, i as int)),
            has_wildcard == all_caps(fs.subrange(0, i as int)).contains("*"@),
        decreases fns@.len() - i,
    {
        let ghost pre = fs.subrange(0, i as int + 1);
        assert(pre.drop_last() =~= fs.subrange(0, i as int));
        assert(pre.last() == fs[i as int]);
        let f: &FnDef = fns[i].1;
        let ghost anns = f.annotations@;
        let ghost agg0 = views(aggregate@).to_set();
        let mut declared = false;
        let mut caps: Vec<String> = Vec::new();
        let mut k: usize = 0;
        assert(views(caps@).to_set() =~= caps_in(anns.subrange(0, 0)));
        while k < f.annotations.len()
            invariant
                anns == f.annotations@,
                k <= anns.len(),
                strictly_sorted(views(caps@)),
                strictly_sorted(views(aggregate@)),
                views(caps@).to_set() == caps_in(anns.subrange(0, k as int)),
                views(aggregate@).to_set() == agg0.union(caps_in(anns.subrange(0, k as int))),
                declared == declares_caps(anns.subrange(0, k as int)),
                has_wildcard == agg0.union(caps_in(anns.subrange(0, k as int))).contains("*"@),
            decreases anns.len() - k,
        {
            let ghost apre = anns.subrange(0, k as int + 1);
            assert(apre.drop_last() =~= anns.subrange(0, k as int));
            assert(apre.last() == anns[k as int]);
            let ghost c0 = views(caps@).to_set();
            let ghost g0 = views(aggregate@).to_set();
            match &f.annotations[k] {
                Annotation::Caps(cs) => {
                    declared = true;
                    let mut q: usize = 0;
                    while q < cs.len()
                        invariant
                            q <= cs@.len(),
                            strictly_sorted(views(caps@)),
                            strictly_sorted(views(aggregate@)),
                            views(caps@).to_set() == c0.union(views(cs@.subrange(0, q as int)).to_set()),
                            views(aggregate@).to_set() == g0.union(views(cs@.subrange(0, q as int)).to_set()),
                            has_wildcard == agg0.union(caps_in(anns.subrange(0, k as int))).union(views(cs@.subrange(0, q as int)).to_set()).contains("*"@),
                            g0 == agg0.union(caps_in(anns.subrange(0, k as int))),
                        decreases cs@.len() - q,
                    {
                        let ghost spre = views(cs@.subrange(0, q as int + 1));
                        assert(spre =~= views(cs@.subrange(0, q as int)).push(cs@[q as int]@));
                        proof {
                            views(cs@.subrange(0, q as int)).lemma_push_to_set_commute(cs@[q as int]@);
                        }
                        if str_eq(cs[q].as_str(), "*") {
                            has_wildcard = true;
                        }
                        insert_sorted(&mut caps, cs[q].clone());
                        insert_sorted(&mut aggregate, cs[q].clone());
                        q = q + 1;
                    }
                    assert(cs@.subrange(0, q as int) =~= cs@);
                    assert(caps_in(apre) =~= caps_in(anns.subrange(0, k as int)).union(views(cs@).to_set()));
                    assert(views(aggregate@).to_set() =~= agg0.union(caps_in(apre)));
                    assert(views(caps@).to_set() =~= caps_in(apre));
                    assert(agg0.union(caps_in(anns.subrange(0, k as int))).union(views(cs@).to_set()) =~= agg0.union(caps_in(apre)));
                },
                _ => {
                    assert(caps_in(apre) =~= caps_in(anns.subrange(0, k as int)));
                },
            }
            k = k + 1;
        }
        assert(anns.subrange(0, k as int) =~= anns);
        assert(all_caps(pre) =~= all_caps(fs.subrange(0, i as int)).union(caps_in(anns)));
        if declared {
            proof {
                lemma_sorted_of(views(caps@));
            }
            let ghost e0 = entries@;
            entries.push((fns[i].0.clone(), caps));
            assert(pf_view(entries@) =~= pf_view(e0).push((fs[i as int].0, sorted_of(caps_in(anns)))));
        }
        i = i + 1;
    }
    assert(fs.subrange(0, i as int) =~= fs);
    proof {
        lemma_sorted_of(views(aggregate@));
    }
    let ghost es = declared_entries(fs);
    let mut names: Vec<String> = Vec::new();
    let mut q: usize = 0;
    while q < entries.len()
        invariant
            q <= entries@.len(),
            pf_view(entries@) == es,
            names@.len() == q,
            views(names@) == pf_names(es).subrange(0, q as int),
        decreases entries@.len() - q,
    {
        names.push(entries[q].0.clone());
        proof {
            assert(pf_view(entries@)[q as int] == es[q as int]);
            assert(views(names@) =~= pf_names(es).subrange(0, q as int + 1));
        }
        q = q + 1;
    }
    assert(views(names@) =~= pf_names(es));
    let order = stable_order(&names);
    let ghost pos = stable_positions(pf_names(es));
    let mut per_function: Vec<(String, Vec<String>)> = Vec::new();
    let mut t: usize = 0;
    while t < order.len()
        invariant
            t <= order@.len(),
            pf_view(entries@) == es,
            names@.len() == es.len(),
            entries@.len() == es.len(),
            ints(order@) == pos,
            forall|u: int| 0 <= u < order@.len() ==> (#[trigger] order@[u] as int) < names@.len(),
            pf_view(per_function@) == pos.map_values(|p: int| es[p]).subrange(0, t as int),
        decreases order@.len() - t,
    {
        let x = order[t];
        let ghost p0 = per_function@;
        per_function.push((entries[x].0.clone(), copy_strings(&entries[x].1)));
        proof {
            assert(ints(order@)[t as int] == x as int);
            assert(pf_view(entries@)[x as int] == es[x as int]);
            assert(pf_view(per_function@) =~= pos.map_values(|p: int| es[p]).subrange(0, t as int + 1)) by {
                assert(pf_view(per_function@) =~= pf_view(p0).push(pf_view(per_function@)[t as int]));
            }
        }
        t = t + 1;
    }
    assert(pos.map_values(|p: int| es[p]).subrange(0, t as int) =~= pos.map_values(|p: int| es[p]));
    CapabilitySurface { aggregate, per_function, has_wildcard }
}

} // verus!
