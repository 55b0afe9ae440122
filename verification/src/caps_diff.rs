//! The capability-surface diff: did a change gain program authority?
//!
//! Over the closed capability set the delta is the XOR of two [`CapSet`]s,
//! split into gained and removed sides by intersecting with the new or old
//! side; unknown (user-defined) names are diffed as strings, so no authority
//! change can hide behind a name the bitset cannot represent.

use vstd::prelude::*;
use vstd::string::*;
use crate::capset::{
    CapSet, canonical_index, cap_name, cap_names, known_bits, lemma_canonical_name,
    lemma_canonical_roundtrip, lemma_cap_names_set, names_of_bits,
};
use crate::order::{
    lemma_lt_irreflexive, seq_lt,
    insert_sorted, lemma_sorted_of, sorted_of, strictly_sorted, views,
};
use crate::text::str_eq;

verus! {

/// A module's declared capability surface: the sorted union of every
/// declared capability, each annotated function with its sorted caps (sorted
/// by function name), and whether a `*` wildcard appears anywhere.
#[derive(Debug, Clone)]
pub struct CapabilitySurface {
    pub aggregate: Vec<String>,
    pub per_function: Vec<(String, Vec<String>)>,
    pub has_wildcard: bool,
}

/// The capability difference from an `old` surface to a `new` one.
#[derive(Debug, Clone, Default)]
pub struct CapsDiff {
    /// Capabilities in the new aggregate but not the old: new program authority.
    pub aggregate_added: Vec<String>,
    /// Capabilities in the old aggregate but not the new: authority reduced.
    pub aggregate_removed: Vec<String>,
    /// Functions present in new but not old (by name).
    pub functions_added: Vec<String>,
    /// Functions present in old but not new (by name).
    pub functions_removed: Vec<String>,
    /// Functions present in both whose declared caps grew: `(name, caps gained)`.
    pub functions_caps_expanded: Vec<(String, Vec<String>)>,
    /// A `*` wildcard appears in new but not old.
    pub wildcard_introduced: bool,
}

/// One function's entry of a surface, viewed as characters.
pub type FnCapsView = (Seq<char>, Seq<Seq<char>>);

/// The per-function table of a surface, viewed as characters.
pub open spec fn pf_view(pf: Seq<(String, Vec<String>)>) -> Seq<FnCapsView> {
    pf.map_values(|e: (String, Vec<String>)| (e.0@, views(e.1@)))
}

/// The function names of a per-function table.
pub open spec fn pf_names(pf: Seq<FnCapsView>) -> Seq<Seq<char>> {
    pf.map_values(|e: FnCapsView| e.0)
}

impl CapabilitySurface {
    /// The function names of the surface are strictly sorted (so each
    /// function appears once), as the surface builder produces them.
    pub open spec fn well_formed(&self) -> bool {
        strictly_sorted(pf_names(pf_view(self.per_function@)))
    }
}

/// The names of `names` that `other` does not hold, in order.
pub open spec fn names_not_in(names: Seq<Seq<char>>, other: Seq<Seq<char>>) -> Seq<Seq<char>>
    decreases names.len(),
{
    if names.len() == 0 {
        Seq::empty()
    } else {
        let prev = names_not_in(names.drop_last(), other);
        if other.contains(names.last()) {
            prev
        } else {
            prev.push(names.last())
        }
    }
}

/// The caps of the first entry of `pf` named `name`, if any.
pub open spec fn caps_of(pf: Seq<FnCapsView>, name: Seq<char>) -> Option<Seq<Seq<char>>>
    decreases pf.len(),
{
    if pf.len() == 0 {
        None
    } else if pf[0].0 == name {
        Some(pf[0].1)
    } else {
        caps_of(pf.drop_first(), name)
    }
}

/// For each function of `old` (in order) that `new` also has and whose caps
/// grew, the function with the sorted caps it gained.
pub open spec fn expansions(old: Seq<FnCapsView>, new: Seq<FnCapsView>) -> Seq<FnCapsView>
    decreases old.len(),
{
    if old.len() == 0 {
        Seq::empty()
    } else {
        let prev = expansions(old.drop_last(), new);
        let (name, old_caps) = old.last();
        match caps_of(new, name) {
            Some(new_caps) => {
                let gained = new_caps.to_set().difference(old_caps.to_set());
                if gained == Set::<Seq<char>>::empty() {
                    prev
                } else {
                    prev.push((name, sorted_of(gained)))
                }
            },
            None => prev,
        }
    }
}


/// The unknown (non-canonical) names among `names`.
pub open spec fn unknown_names(names: Seq<Seq<char>>) -> Set<Seq<char>> {
    names.to_set().filter(|c: Seq<char>| canonical_index(c) is None)
}

/// Whether `v` holds a string equal to `x`.
fn vec_contains(v: &Vec<String>, x: &String) -> (r: bool)
    ensures
        r == views(v@).contains(x@),
{
    let mut i: usize = 0;
    while i < v.len()
        invariant
            i <= v.len(),
            forall|k: int| 0 <= k < i ==> views(v@)[k] != x@,
        decreases v.len() - i,
    {
        if str_eq(v[i].as_str(), x.as_str()) {
            proof {
                assert(views(v@)[i as int] == x@);
            }
            return true;
        }
        i = i + 1;
    }
    false
}

/// Splits a cap-name list into its canonical-bitset core and the unknown,
/// user-defined remainder.
fn split_caps(caps: &Vec<String>) -> (r: (CapSet, Vec<String>))
    ensures
        r.0@ == known_bits(views(caps@)),
        views(r.1@).to_set() == unknown_names(views(caps@)),
{
    let mut known = CapSet::empty();
    let mut unknown: Vec<String> = Vec::new();
    let mut i: usize = 0;
    while i < caps.len()
        invariant
            i <= caps.len(),
            known@ == known_bits(views(caps@).subrange(0, i as int)),
            views(unknown@).to_set() == unknown_names(views(caps@).subrange(0, i as int)),
        decreases caps.len() - i,
    {
        let ghost pre = views(caps@).subrange(0, i as int);
        let ghost cur = views(caps@).subrange(0, i + 1);
        let ghost c = caps@[i as int]@;
        proof {
            assert(cur =~= pre.push(c));
            pre.lemma_push_to_set_commute(c);
        }
        match CapSet::from_name(caps[i].as_str()) {
            Some(bit) => {
                known = known.union(bit);
                proof {
                    let ci = canonical_index(c)->0;
                    assert forall|j: nat| known_bits(cur).contains(j) <==> known_bits(pre).insert(ci).contains(j) by {
                        if known_bits(cur).contains(j) {
                            let k = choose|k: int| 0 <= k < cur.len() && canonical_index(#[trigger] cur[k]) == Some(j);
                            if k < pre.len() {
                                assert(pre[k] == cur[k]);
                            }
                        }
                        if known_bits(pre).contains(j) {
                            let k = choose|k: int| 0 <= k < pre.len() && canonical_index(#[trigger] pre[k]) == Some(j);
                            assert(cur[k] == pre[k]);
                        }
                        if j == ci {
                            assert(cur[pre.len() as int] == c);
                        }
                    }
                    assert(known_bits(cur) =~= known_bits(pre).insert(ci));
                    assert(unknown_names(cur) =~= unknown_names(pre));
                }
            },
            None => {
                let ghost before = views(unknown@);
                unknown.push(caps[i].clone());
                proof {
                    assert(views(unknown@) =~= before.push(c));
                    before.lemma_push_to_set_commute(c);
                    assert forall|j: nat| known_bits(cur).contains(j) <==> known_bits(pre).contains(j) by {
                        if known_bits(cur).contains(j) {
                            let k = choose|k: int| 0 <= k < cur.len() && canonical_index(#[trigger] cur[k]) == Some(j);
                            if k < pre.len() {
                                assert(pre[k] == cur[k]);
                            }
                        }
                        if known_bits(pre).contains(j) {
                            let k = choose|k: int| 0 <= k < pre.len() && canonical_index(#[trigger] pre[k]) == Some(j);
                            assert(cur[k] == pre[k]);
                        }
                    }
                    assert(known_bits(cur) =~= known_bits(pre));
                    assert(unknown_names(cur) =~= unknown_names(pre).insert(c));
                }
            },
        }
        i = i + 1;
    }
    proof {
        assert(views(caps@).subrange(0, caps@.len() as int) =~= views(caps@));
    }
    (known, unknown)
}

/// One side of a capability delta: the names of the bits of `delta` that
/// `keep` also holds, together with the unknown names of `keep_unknown`
/// that `drop_unknown` does not hold, sorted and without repeats.
fn delta_side(delta: CapSet, keep: CapSet, keep_unknown: &Vec<String>, drop_unknown: &Vec<String>) -> (r: Vec<String>)
    ensures
        strictly_sorted(views(r@)),
        views(r@) == sorted_of(
            names_of_bits(delta@.intersect(keep@)).union(
                views(keep_unknown@).to_set().difference(views(drop_unknown@).to_set()),
            ),
        ),
        views(r@).to_set() == names_of_bits(delta@.intersect(keep@)).union(
            views(keep_unknown@).to_set().difference(views(drop_unknown@).to_set()),
        ),
{
    let mut out: Vec<String> = Vec::new();
    let named = delta.intersect(keep).iter_names();
    let ghost want_named = names_of_bits(delta@.intersect(keep@));
    let ghost want_unknown = views(keep_unknown@).to_set().difference(views(drop_unknown@).to_set());
    proof {
        lemma_cap_names_set(delta@.intersect(keep@));
        assert(views(out@).to_set() =~= Set::<Seq<char>>::empty());
    }
    let mut i: usize = 0;
    while i < named.len()
        invariant
            i <= named.len(),
            named@.map_values(|s: &'static str| s@) == cap_names(delta@.intersect(keep@)),
            strictly_sorted(views(out@)),
            views(out@).to_set() == named@.map_values(|s: &'static str| s@).subrange(0, i as int).to_set(),
        decreases named.len() - i,
    {
        let ghost pre = named@.map_values(|s: &'static str| s@).subrange(0, i as int);
        let item = String::from_str(named[i]);
        insert_sorted(&mut out, item);
        proof {
            let cur = named@.map_values(|s: &'static str| s@).subrange(0, i + 1);
            assert(cur =~= pre.push(named@[i as int]@));
            pre.lemma_push_to_set_commute(named@[i as int]@);
        }
        i = i + 1;
    }
    proof {
        let all = named@.map_values(|s: &'static str| s@);
        assert(all.subrange(0, all.len() as int) =~= all);
        assert(views(out@).to_set() == want_named);
    }
    let mut j: usize = 0;
    while j < keep_unknown.len()
        invariant
            j <= keep_unknown.len(),
            strictly_sorted(views(out@)),
            views(out@).to_set() == want_named.union(
                views(keep_unknown@).subrange(0, j as int).to_set().difference(views(drop_unknown@).to_set()),
            ),
        decreases keep_unknown.len() - j,
    {
        let ghost pre = views(keep_unknown@).subrange(0, j as int);
        let ghost c = keep_unknown@[j as int]@;
        proof {
            let cur = views(keep_unknown@).subrange(0, j + 1);
            assert(cur =~= pre.push(c));
            pre.lemma_push_to_set_commute(c);
        }
        if !vec_contains(drop_unknown, &keep_unknown[j]) {
            insert_sorted(&mut out, keep_unknown[j].clone());
            proof {
                assert(views(out@).to_set() =~= want_named.union(
                    pre.push(c).to_set().difference(views(drop_unknown@).to_set()),
                ));
            }
        } else {
            proof {
                assert(want_named.union(pre.to_set().difference(views(drop_unknown@).to_set())) =~= want_named.union(
                    pre.push(c).to_set().difference(views(drop_unknown@).to_set()),
                ));
            }
        }
        proof {
            assert(views(keep_unknown@).subrange(0, j + 1) =~= pre.push(c));
        }
        j = j + 1;
    }
    proof {
        assert(views(keep_unknown@).subrange(0, keep_unknown@.len() as int) =~= views(keep_unknown@));
        lemma_sorted_of(views(out@));
    }
    out
}


/// Splitting the XOR delta of the known bits by the new side, together with
/// the new unknown names the old side lacks, gives exactly the names the new
/// list holds and the old one does not.
proof fn lemma_delta_names(old: Seq<Seq<char>>, new: Seq<Seq<char>>)
    ensures
        names_of_bits(
            known_bits(old).difference(known_bits(new)).union(
                known_bits(new).difference(known_bits(old)),
            ).intersect(known_bits(new)),
        ).union(unknown_names(new).difference(unknown_names(old))) == new.to_set().difference(
            old.to_set(),
        ),
{
    let ok = known_bits(old);
    let nk = known_bits(new);
    let d = ok.difference(nk).union(nk.difference(ok)).intersect(nk);
    let lhs = names_of_bits(d).union(unknown_names(new).difference(unknown_names(old)));
    let rhs = new.to_set().difference(old.to_set());
    assert forall|c: Seq<char>| lhs.contains(c) <==> rhs.contains(c) by {
        lemma_canonical_name(c);
        if names_of_bits(d).contains(c) {
            let i = choose|i: nat| i < 8 && d.contains(i) && c == #[trigger] cap_name(i);
            lemma_canonical_roundtrip(i);
            let k = choose|k: int| 0 <= k < new.len() && canonical_index(#[trigger] new[k]) == Some(i);
            lemma_canonical_name(new[k]);
            assert(new[k] == c);
            assert(new.to_set().contains(c));
            if old.to_set().contains(c) {
                let m = choose|m: int| 0 <= m < old.len() && old[m] == c;
                assert(canonical_index(old[m]) == Some(i));
                assert(ok.contains(i));
            }
        }
        if unknown_names(new).difference(unknown_names(old)).contains(c) {
            assert(new.to_set().contains(c));
            assert(canonical_index(c) is None);
            assert(!old.to_set().contains(c));
        }
        if rhs.contains(c) {
            match canonical_index(c) {
                Some(i) => {
                    let k = choose|k: int| 0 <= k < new.len() && new[k] == c;
                    assert(canonical_index(new[k]) == Some(i));
                    assert(nk.contains(i));
                    if ok.contains(i) {
                        let m = choose|m: int| 0 <= m < old.len() && canonical_index(#[trigger] old[m]) == Some(i);
                        lemma_canonical_name(old[m]);
                        assert(old[m] == c);
                        assert(old.to_set().contains(c));
                    }
                    assert(d.contains(i));
                    assert(names_of_bits(d).contains(c));
                },
                None => {
                    assert(unknown_names(new).contains(c));
                    assert(!unknown_names(old).contains(c));
                },
            }
        }
    }
    assert(lhs =~= rhs);
}

/// Whether some entry of `pf` is named `name`.
fn pf_contains(pf: &Vec<(String, Vec<String>)>, name: &String) -> (r: bool)
    ensures
        r == pf_names(pf_view(pf@)).contains(name@),
{
    let ghost names = pf_names(pf_view(pf@));
    let mut i: usize = 0;
    while i < pf.len()
        invariant
            i <= pf.len(),
            names == pf_names(pf_view(pf@)),
            names.len() == pf@.len(),
            forall|k: int| 0 <= k < i ==> names[k] != name@,
        decreases pf.len() - i,
    {
        if str_eq(pf[i].0.as_str(), name.as_str()) {
            proof {
                assert(names[i as int] == name@);
            }
            return true;
        }
        i = i + 1;
    }
    false
}

proof fn lemma_caps_of_skip(pf: Seq<FnCapsView>, name: Seq<char>, i: int)
    requires
        0 <= i <= pf.len(),
        forall|k: int| 0 <= k < i ==> pf[k].0 != name,
    ensures
        caps_of(pf, name) == caps_of(pf.subrange(i, pf.len() as int), name),
    decreases i,
{
    if i > 0 {
        lemma_caps_of_skip(pf.drop_first(), name, i - 1);
        assert(pf.drop_first().subrange(i - 1, pf.len() - 1) =~= pf.subrange(i, pf.len() as int));
    } else {
        assert(pf.subrange(0, pf.len() as int) =~= pf);
    }
}

/// The index of the first entry of `pf` named `name`.
fn pf_lookup(pf: &Vec<(String, Vec<String>)>, name: &String) -> (r: Option<usize>)
    ensures
        r matches Some(k) ==> k < pf@.len() && caps_of(pf_view(pf@), name@) == Some(
            pf_view(pf@)[k as int].1,
        ),
        r is None ==> caps_of(pf_view(pf@), name@) is None,
{
    let ghost v = pf_view(pf@);
    let mut i: usize = 0;
    while i < pf.len()
        invariant
            i <= pf.len(),
            v == pf_view(pf@),
            v.len() == pf@.len(),
            forall|k: int| 0 <= k < i ==> v[k].0 != name@,
        decreases pf.len() - i,
    {
        if str_eq(pf[i].0.as_str(), name.as_str()) {
            proof {
                lemma_caps_of_skip(v, name@, i as int);
                assert(v.subrange(i as int, v.len() as int)[0] == v[i as int]);
            }
            return Some(i);
        }
        i = i + 1;
    }
    proof {
        lemma_caps_of_skip(v, name@, i as int);
    }
    None
}

/// The names of `names` that `other` lacks, collected in order.
fn fn_names_not_in(pf: &Vec<(String, Vec<String>)>, other: &Vec<(String, Vec<String>)>) -> (r: Vec<String>)
    ensures
        views(r@) == names_not_in(pf_names(pf_view(pf@)), pf_names(pf_view(other@))),
{
    let ghost names = pf_names(pf_view(pf@));
    let ghost others = pf_names(pf_view(other@));
    let mut out: Vec<String> = Vec::new();
    let mut i: usize = 0;
    while i < pf.len()
        invariant
            i <= pf.len(),
            names == pf_names(pf_view(pf@)),
            names.len() == pf@.len(),
            others == pf_names(pf_view(other@)),
            views(out@) == names_not_in(names.subrange(0, i as int), others),
        decreases pf.len() - i,
    {
        proof {
            let cur = names.subrange(0, i + 1);
            assert(cur.drop_last() =~= names.subrange(0, i as int));
            assert(cur.last() == names[i as int]);
        }
        if !pf_contains(other, &pf[i].0) {
            let ghost before = views(out@);
            out.push(pf[i].0.clone());
            proof {
                assert(views(out@) =~= before.push(names[i as int]));
            }
        }
        i = i + 1;
    }
    proof {
        assert(names.subrange(0, names.len() as int) =~= names);
    }
    out
}

/// Compute the capability diff from `old` to `new`. Every output list is
/// sorted; the delta over the closed capability set is XOR on [`CapSet`]
/// bitsets and unknown names are diffed as strings.
pub fn diff_caps(old: &CapabilitySurface, new: &CapabilitySurface) -> (r: CapsDiff)
    ensures
        views(r.aggregate_added@) == sorted_of(
            views(new.aggregate@).to_set().difference(views(old.aggregate@).to_set()),
        ),
        views(r.aggregate_removed@) == sorted_of(
            views(old.aggregate@).to_set().difference(views(new.aggregate@).to_set()),
        ),
        views(r.functions_added@) == names_not_in(
            pf_names(pf_view(new.per_function@)),
            pf_names(pf_view(old.per_function@)),
        ),
        views(r.functions_removed@) == names_not_in(
            pf_names(pf_view(old.per_function@)),
            pf_names(pf_view(new.per_function@)),
        ),
        pf_view(r.functions_caps_expanded@) == expansions(
            pf_view(old.per_function@),
            pf_view(new.per_function@),
        ),
        r.wildcard_introduced == (new.has_wildcard && !old.has_wildcard),
{
    let (old_known, old_unknown) = split_caps(&old.aggregate);
    let (new_known, new_unknown) = split_caps(&new.aggregate);
    let delta = old_known.delta(new_known);
    let aggregate_added = delta_side(delta, new_known, &new_unknown, &old_unknown);
    let aggregate_removed = delta_side(delta, old_known, &old_unknown, &new_unknown);
    proof {
        lemma_delta_names(views(old.aggregate@), views(new.aggregate@));
        lemma_delta_names(views(new.aggregate@), views(old.aggregate@));
        assert(delta@.intersect(old_known@) =~= new_known@.difference(old_known@).union(
            old_known@.difference(new_known@),
        ).intersect(old_known@));
    }
    let functions_added = fn_names_not_in(&new.per_function, &old.per_function);
    let functions_removed = fn_names_not_in(&old.per_function, &new.per_function);

    let ghost ov = pf_view(old.per_function@);
    let ghost nv = pf_view(new.per_function@);
    let mut functions_caps_expanded: Vec<(String, Vec<String>)> = Vec::new();
    let mut i: usize = 0;
    while i < old.per_function.len()
        invariant
            i <= old.per_function.len(),
            ov == pf_view(old.per_function@),
            nv == pf_view(new.per_function@),
            ov.len() == old.per_function@.len(),
            pf_view(functions_caps_expanded@) == expansions(ov.subrange(0, i as int), nv),
        decreases old.per_function.len() - i,
    {
        let ghost cur = ov.subrange(0, i + 1);
        proof {
            assert(cur.drop_last() =~= ov.subrange(0, i as int));
            assert(cur.last() == ov[i as int]);
        }
        let name = &old.per_function[i].0;
        let old_caps = &old.per_function[i].1;
        match pf_lookup(&new.per_function, name) {
            Some(k) => {
                let new_caps = &new.per_function[k].1;
                let (fn_old_known, fn_old_unknown) = split_caps(old_caps);
                let (fn_new_known, fn_new_unknown) = split_caps(new_caps);
                let fn_delta = fn_old_known.delta(fn_new_known);
                let gained = delta_side(fn_delta, fn_new_known, &fn_new_unknown, &fn_old_unknown);
                proof {
                    lemma_delta_names(views(old_caps@), views(new_caps@));
                    assert(nv[k as int].1 == views(new_caps@));
                    assert(ov[i as int].1 == views(old_caps@));
                }
                if gained.len() > 0 {
                    let ghost before = pf_view(functions_caps_expanded@);
                    functions_caps_expanded.push((name.clone(), gained));
                    proof {
                        assert(pf_view(functions_caps_expanded@) =~= before.push(
                            (ov[i as int].0, sorted_of(views(new_caps@).to_set().difference(views(old_caps@).to_set()))),
                        ));
                        assert(views(new_caps@).to_set().difference(views(old_caps@).to_set()).contains(views(gained@)[0]));
                    }
                } else {
                    proof {
                        assert(views(gained@).to_set() =~= Set::<Seq<char>>::empty());
                    }
                }
            },
            None => {},
        }
        i = i + 1;
    }
    proof {
        assert(ov.subrange(0, ov.len() as int) =~= ov);
    }
    CapsDiff {
        aggregate_added,
        aggregate_removed,
        functions_added,
        functions_removed,
        functions_caps_expanded,
        wildcard_introduced: new.has_wildcard && !old.has_wildcard,
    }
}

impl CapsDiff {
    /// Whether the program gained authority: a new aggregate capability or
    /// an introduced wildcard. A function re-declaring a capability already in
    /// the aggregate is not new program authority.
    pub fn authority_expanded(&self) -> (r: bool)
        ensures
            r == (self.aggregate_added@.len() > 0 || self.wildcard_introduced),
    {
        self.aggregate_added.len() > 0 || self.wildcard_introduced
    }

    /// Whether nothing changed at all.
    pub fn is_empty(&self) -> (r: bool)
        ensures
            r == (self.aggregate_added@.len() == 0 && self.aggregate_removed@.len() == 0
                && self.functions_added@.len() == 0 && self.functions_removed@.len() == 0
                && self.functions_caps_expanded@.len() == 0 && !self.wildcard_introduced),
    {
        self.aggregate_added.len() == 0 && self.aggregate_removed.len() == 0
            && self.functions_added.len() == 0 && self.functions_removed.len() == 0
            && self.functions_caps_expanded.len() == 0 && !self.wildcard_introduced
    }
}

/// Names all held by `other` leave nothing over.
proof fn lemma_names_not_in_covered(names: Seq<Seq<char>>, other: Seq<Seq<char>>)
    requires
        forall|k: int| 0 <= k < names.len() ==> other.contains(#[trigger] names[k]),
    ensures
        names_not_in(names, other) == Seq::<Seq<char>>::empty(),
    decreases names.len(),
{
    if names.len() > 0 {
        assert(other.contains(names[names.len() - 1]));
        lemma_names_not_in_covered(names.drop_last(), other);
    }
}

/// In a table whose names before `i` differ from the `i`-th, looking that
/// name up finds the `i`-th entry.
proof fn lemma_caps_of_entry(q: Seq<FnCapsView>, i: int)
    requires
        0 <= i < q.len(),
        forall|j: int| 0 <= j < i ==> (#[trigger] q[j]).0 != q[i].0,
    ensures
        caps_of(q, q[i].0) == Some(q[i].1),
    decreases i,
{
    if i > 0 {
        assert(q[0].0 != q[i].0);
        let r = q.drop_first();
        assert forall|j: int| 0 <= j < i - 1 implies (#[trigger] r[j]).0 != r[i - 1].0 by {
            assert(r[j] == q[j + 1]);
            assert(r[i - 1] == q[i]);
        }
        lemma_caps_of_entry(r, i - 1);
        assert(r[i - 1] == q[i]);
    }
}

/// A table compared against a table with the same entries for each of its
/// names has no expansions.
proof fn lemma_no_expansions(p: Seq<FnCapsView>, q: Seq<FnCapsView>)
    requires
        forall|k: int| 0 <= k < p.len() ==> caps_of(q, (#[trigger] p[k]).0) == Some(p[k].1),
    ensures
        expansions(p, q) == Seq::<FnCapsView>::empty(),
    decreases p.len(),
{
    if p.len() > 0 {
        let last = p[p.len() - 1];
        assert(caps_of(q, last.0) == Some(last.1));
        assert(last.1.to_set().difference(last.1.to_set()) =~= Set::<Seq<char>>::empty());
        lemma_no_expansions(p.drop_last(), q);
    }
}

/// Diffing a surface against itself finds nothing: no capability gained or
/// removed, no function added, removed or expanded, no wildcard introduced,
/// so no authority expansion.
pub proof fn lemma_identical_surfaces_diff_empty(s: CapabilitySurface)
    requires
        s.well_formed(),
    ensures
        sorted_of(views(s.aggregate@).to_set().difference(views(s.aggregate@).to_set()))
            == Seq::<Seq<char>>::empty(),
        names_not_in(pf_names(pf_view(s.per_function@)), pf_names(pf_view(s.per_function@)))
            == Seq::<Seq<char>>::empty(),
        expansions(pf_view(s.per_function@), pf_view(s.per_function@))
            == Seq::<FnCapsView>::empty(),
        !(s.has_wildcard && !s.has_wildcard),
{
    let a = views(s.aggregate@).to_set();
    assert(a.difference(a) =~= Seq::<Seq<char>>::empty().to_set());
    lemma_sorted_of(Seq::<Seq<char>>::empty());
    let names = pf_names(pf_view(s.per_function@));
    assert forall|k: int| 0 <= k < names.len() implies names.contains(#[trigger] names[k]) by {}
    lemma_names_not_in_covered(names, names);
    let q = pf_view(s.per_function@);
    assert forall|k: int| 0 <= k < q.len() implies caps_of(q, (#[trigger] q[k]).0) == Some(q[k].1) by {
        assert forall|j: int| 0 <= j < k implies (#[trigger] q[j]).0 != q[k].0 by {
            assert(names[j] == q[j].0);
            assert(names[k] == q[k].0);
            assert(seq_lt(names[j], names[k]));
            lemma_lt_irreflexive(names[k]);
        }
        lemma_caps_of_entry(q, k);
    }
    lemma_no_expansions(q, q);
}

} // verus!
