//! Conservative trait coherence.
//!
//! Trait impls must satisfy the orphan rule (the trait or the target type is
//! declared locally), exact duplicate impls are rejected, and an impl whose
//! trait and target patterns can match those of an earlier impl is rejected
//! as overlapping. Two patterns overlap when they agree structurally, where
//! a bare type parameter of either impl matches any type, consistently: a
//! parameter used twice on one side must meet the same type both times.

use vstd::prelude::*;
use vstd::string::*;
use crate::diagnostics::CheckError;
use crate::text::{join, str_eq};

verus! {

/// A type as the coherence pass reads it.
#[derive(Debug)]
pub enum TypeExpr {
    /// A path with optional generic arguments, such as `std::Vec<T>`.
    Named { path: Vec<String>, args: Vec<TypeExpr> },
    /// A function type.
    Fn { params: Vec<TypeExpr>, ret: Box<TypeExpr> },
    /// A tuple type.
    Tuple { elements: Vec<TypeExpr> },
    /// A reference, shared or mutable.
    Ref { mutable: bool, inner: Box<TypeExpr> },
    /// A trait object.
    Dyn { trait_ty: Box<TypeExpr> },
}

/// The views of a list of strings.
pub open spec fn seg_views(v: Seq<String>) -> Seq<Seq<char>> {
    v.map_values(|s: String| s@)
}

/// The canonical text of a type (the key impls are compared by).
pub open spec fn key_of(t: TypeExpr) -> Seq<char>
    decreases t,
{
    match t {
        TypeExpr::Named { path, args } => if args@.len() == 0 {
            join(seg_views(path@), "::"@)
        } else {
            join(seg_views(path@), "::"@) + "<"@ + join(keys_of(args@), ", "@) + ">"@
        },
        TypeExpr::Fn { params, ret } => "("@ + join(keys_of(params@), ", "@) + ") -> "@
            + key_of(*ret),
        TypeExpr::Tuple { elements } => "("@ + join(keys_of(elements@), ", "@) + ")"@,
        TypeExpr::Ref { mutable, inner } => if mutable {
            "&mut "@ + key_of(*inner)
        } else {
            "&"@ + key_of(*inner)
        },
        TypeExpr::Dyn { trait_ty } => "dyn "@ + key_of(*trait_ty),
    }
}

/// The canonical texts of a list of types.
pub open spec fn keys_of(ts: Seq<TypeExpr>) -> Seq<Seq<char>>
    decreases ts,
{
    if ts.len() == 0 {
        Seq::empty()
    } else {
        keys_of(ts.subrange(0, ts.len() - 1)).push(key_of(ts[ts.len() - 1]))
    }
}

/// The parameter a type names, if it is a bare one-segment path without
/// arguments that is among `params`.
pub open spec fn param_name_of(t: TypeExpr, params: Set<Seq<char>>) -> Option<Seq<char>> {
    match t {
        TypeExpr::Named { path, args } => if path@.len() == 1 && args@.len() == 0 && params.contains(
            path@[0]@,
        ) {
            Some(path@[0]@)
        } else {
            None
        },
        _ => None,
    }
}

/// Parameter bindings, in the order they were made.
pub type Bindings = Seq<(Seq<char>, Seq<char>)>;

/// The witness bound to `param`, if any (the first binding of it).
pub open spec fn lookup(b: Bindings, param: Seq<char>) -> Option<Seq<char>>
    decreases b.len(),
{
    if b.len() == 0 {
        None
    } else if b[0].0 == param {
        Some(b[0].1)
    } else {
        lookup(b.subrange(1, b.len() as int), param)
    }
}

/// Binds `param` to `witness`: consistent with an earlier binding, or a new
/// one; `None` when the parameter is already bound to another type.
pub open spec fn bind(b: Bindings, param: Seq<char>, witness: Seq<char>) -> Option<Bindings> {
    match lookup(b, param) {
        Some(existing) => if existing == witness {
            Some(b)
        } else {
            None
        },
        None => Some(b.push((param, witness))),
    }
}

/// Whether two type patterns can match a common type, and the bindings that
/// match them; `None` when they cannot.
pub open spec fn overlap(
    l: TypeExpr,
    lp: Set<Seq<char>>,
    r: TypeExpr,
    rp: Set<Seq<char>>,
    lb: Bindings,
    rb: Bindings,
) -> Option<(Bindings, Bindings)>
    decreases l,
{
    match (param_name_of(l, lp), param_name_of(r, rp)) {
        (Some(_), Some(_)) => Some((lb, rb)),
        (Some(p), None) => match bind(lb, p, key_of(r)) {
            Some(b) => Some((b, rb)),
            None => None,
        },
        (None, Some(p)) => match bind(rb, p, key_of(l)) {
            Some(b) => Some((lb, b)),
            None => None,
        },
        (None, None) => match (l, r) {
            (TypeExpr::Named { path: lpath, args: largs }, TypeExpr::Named { path: rpath, args: rargs }) => {
                if seg_views(lpath@) == seg_views(rpath@) && largs@.len() == rargs@.len() {
                    overlap_all(largs@, lp, rargs@, rp, lb, rb)
                } else {
                    None
                }
            },
            (TypeExpr::Fn { params: lps, ret: lret }, TypeExpr::Fn { params: rps, ret: rret }) => {
                if lps@.len() == rps@.len() {
                    match overlap_all(lps@, lp, rps@, rp, lb, rb) {
                        Some((lb2, rb2)) => overlap(*lret, lp, *rret, rp, lb2, rb2),
                        None => None,
                    }
                } else {
                    None
                }
            },
            (TypeExpr::Tuple { elements: les }, TypeExpr::Tuple { elements: res }) => {
                if les@.len() == res@.len() {
                    overlap_all(les@, lp, res@, rp, lb, rb)
                } else {
                    None
                }
            },
            (TypeExpr::Ref { mutable: lm, inner: li }, TypeExpr::Ref { mutable: rm, inner: ri }) => {
                if lm == rm {
                    overlap(*li, lp, *ri, rp, lb, rb)
                } else {
                    None
                }
            },
            (TypeExpr::Dyn { trait_ty: lt }, TypeExpr::Dyn { trait_ty: rt }) => overlap(
                *lt,
                lp,
                *rt,
                rp,
                lb,
                rb,
            ),
            _ => None,
        },
    }
}

/// Pairwise overlap of two equally long lists, left to right, threading the
/// bindings; `None` at the first pair that cannot match.
pub open spec fn overlap_all(
    ls: Seq<TypeExpr>,
    lp: Set<Seq<char>>,
    rs: Seq<TypeExpr>,
    rp: Set<Seq<char>>,
    lb: Bindings,
    rb: Bindings,
) -> Option<(Bindings, Bindings)>
    decreases ls,
{
    if ls.len() == 0 || rs.len() == 0 {
        Some((lb, rb))
    } else {
        match overlap(ls[0], lp, rs[0], rp, lb, rb) {
            Some((lb2, rb2)) => overlap_all(
                ls.subrange(1, ls.len() as int),
                lp,
                rs.subrange(1, rs.len() as int),
                rp,
                lb2,
                rb2,
            ),
            None => None,
        }
    }
}


/// Whether two types are the same type: the same constructor, the same
/// path and reference kind, and the same types in every position.
pub open spec fn same_type(l: TypeExpr, r: TypeExpr) -> bool
    decreases l,
{
    match (l, r) {
        (TypeExpr::Named { path: lpath, args: largs }, TypeExpr::Named { path: rpath, args: rargs }) =>
            seg_views(lpath@) == seg_views(rpath@) && same_types(largs@, rargs@),
        (TypeExpr::Fn { params: lps, ret: lret }, TypeExpr::Fn { params: rps, ret: rret }) =>
            same_types(lps@, rps@) && same_type(*lret, *rret),
        (TypeExpr::Tuple { elements: les }, TypeExpr::Tuple { elements: res }) => same_types(les@, res@),
        (TypeExpr::Ref { mutable: lm, inner: li }, TypeExpr::Ref { mutable: rm, inner: ri }) =>
            lm == rm && same_type(*li, *ri),
        (TypeExpr::Dyn { trait_ty: lt }, TypeExpr::Dyn { trait_ty: rt }) => same_type(*lt, *rt),
        _ => false,
    }
}

/// Whether two lists of types have the same length and the same type in
/// every position.
pub open spec fn same_types(ls: Seq<TypeExpr>, rs: Seq<TypeExpr>) -> bool
    decreases ls,
{
    if ls.len() == 0 || rs.len() == 0 {
        ls.len() == rs.len()
    } else {
        same_type(ls[0], rs[0]) && same_types(ls.subrange(1, ls.len() as int), rs.subrange(1, rs.len() as int))
    }
}

proof fn lemma_overlap_without_params(l: TypeExpr, r: TypeExpr, lb: Bindings, rb: Bindings)
    ensures
        overlap(l, Set::empty(), r, Set::empty(), lb, rb) == if same_type(l, r) {
            Some((lb, rb))
        } else {
            None::<(Bindings, Bindings)>
        },
    decreases l,
{
    assert(param_name_of(l, Set::empty()) is None);
    assert(param_name_of(r, Set::empty()) is None);
    match (l, r) {
        (TypeExpr::Named { path: lpath, args: largs }, TypeExpr::Named { path: rpath, args: rargs }) => {
            lemma_overlap_all_without_params(largs@, rargs@, lb, rb);
        },
        (TypeExpr::Fn { params: lps, ret: lret }, TypeExpr::Fn { params: rps, ret: rret }) => {
            lemma_overlap_all_without_params(lps@, rps@, lb, rb);
            lemma_overlap_without_params(*lret, *rret, lb, rb);
        },
        (TypeExpr::Tuple { elements: les }, TypeExpr::Tuple { elements: res }) => {
            lemma_overlap_all_without_params(les@, res@, lb, rb);
        },
        (TypeExpr::Ref { mutable: lm, inner: li }, TypeExpr::Ref { mutable: rm, inner: ri }) => {
            lemma_overlap_without_params(*li, *ri, lb, rb);
        },
        (TypeExpr::Dyn { trait_ty: lt }, TypeExpr::Dyn { trait_ty: rt }) => {
            lemma_overlap_without_params(*lt, *rt, lb, rb);
        },
        _ => {},
    }
}

proof fn lemma_overlap_all_without_params(ls: Seq<TypeExpr>, rs: Seq<TypeExpr>, lb: Bindings, rb: Bindings)
    ensures
        ls.len() == rs.len() ==> overlap_all(ls, Set::empty(), rs, Set::empty(), lb, rb) == if same_types(ls, rs) {
            Some((lb, rb))
        } else {
            None::<(Bindings, Bindings)>
        },
        same_types(ls, rs) ==> ls.len() == rs.len(),
    decreases ls,
{
    if ls.len() > 0 && rs.len() > 0 {
        lemma_overlap_without_params(ls[0], rs[0], lb, rb);
        lemma_overlap_all_without_params(ls.subrange(1, ls.len() as int), rs.subrange(1, rs.len() as int), lb, rb);
    }
}

/// Two type patterns with no type parameters can match a common type
/// exactly when they are the same type: `Box<Int>` and `Box<String>` do not
/// overlap, nor do types that differ in any argument, element, parameter,
/// return type or reference kind; and checking them binds nothing.
pub proof fn lemma_unparameterised_overlap_is_sameness(
    l: TypeExpr,
    lps: Seq<String>,
    r: TypeExpr,
    rps: Seq<String>,
)
    requires
        lps.len() == 0,
        rps.len() == 0,
    ensures
        overlap(l, param_set(lps), r, param_set(rps), Seq::empty(), Seq::empty()) is Some <==> same_type(l, r),
        overlap(l, param_set(lps), r, param_set(rps), Seq::empty(), Seq::empty()) is Some ==> overlap(
            l,
            param_set(lps),
            r,
            param_set(rps),
            Seq::empty(),
            Seq::empty(),
        ) == Some((Seq::<(Seq<char>, Seq<char>)>::empty(), Seq::<(Seq<char>, Seq<char>)>::empty())),
{
    assert(param_set(lps) =~= Set::<Seq<char>>::empty());
    assert(param_set(rps) =~= Set::<Seq<char>>::empty());
    lemma_overlap_without_params(l, r, Seq::empty(), Seq::empty());
}

/// A type parameter not yet bound matches any type: a pattern that is a
/// bare parameter of its impl overlaps every other pattern, binding the
/// parameter to that pattern's text when the other side is concrete.
pub proof fn lemma_fresh_parameter_overlaps_anything(
    l: TypeExpr,
    lp: Set<Seq<char>>,
    r: TypeExpr,
    rp: Set<Seq<char>>,
    lb: Bindings,
    rb: Bindings,
)
    requires
        param_name_of(l, lp) matches Some(p) && lookup(lb, p) is None,
    ensures
        overlap(l, lp, r, rp, lb, rb) is Some,
        param_name_of(r, rp) is None ==> overlap(l, lp, r, rp, lb, rb) == Some(
            (lb.push((param_name_of(l, lp)->0, key_of(r))), rb),
        ),
{
}

/// The views of a list of string pairs.
pub open spec fn pair_views(v: Seq<(String, String)>) -> Bindings {
    v.map_values(|e: (String, String)| (e.0@, e.1@))
}

/// The parameter names of an impl, as a set.
pub open spec fn param_set(v: Seq<String>) -> Set<Seq<char>> {
    seg_views(v).to_set()
}

/// Whether `v` holds a string equal to `x`.
fn contains_str(v: &Vec<String>, x: &str) -> (r: bool)
    ensures
        r == seg_views(v@).contains(x@),
{
    let mut i: usize = 0;
    while i < v.len()
        invariant
            i <= v@.len(),
            forall|j: int| 0 <= j < i ==> v@[j]@ != x@,
        decreases v@.len() - i,
    {
        if str_eq(v[i].as_str(), x) {
            assert(seg_views(v@)[i as int] == x@);
            return true;
        }
        i = i + 1;
    }
    proof {
        if seg_views(v@).contains(x@) {
            let k = choose|k: int| 0 <= k < seg_views(v@).len() && seg_views(v@)[k] == x@;
            assert(v@[k]@ == x@);
        }
    }
    false
}

/// The segments of a path joined with `sep`.
pub fn join_strings(v: &Vec<String>, sep: &str) -> (r: String)
    ensures
        r@ == join(seg_views(v@), sep@),
{
    let mut out = String::new();
    let mut i: usize = 0;
    while i < v.len()
        invariant
            i <= v@.len(),
            out@ == join(seg_views(v@.subrange(0, i as int)), sep@),
        decreases v@.len() - i,
    {
        if i > 0 {
            out.append(sep);
        }
        out.append(v[i].as_str());
        proof {
            let pre = seg_views(v@.subrange(0, i as int + 1));
            assert(pre.drop_last() =~= seg_views(v@.subrange(0, i as int)));
            assert(pre.last() == v@[i as int]@);
            if i == 0 {
                assert(pre.len() == 1);
                assert(out@ =~= pre[0]);
            }
        }
        i = i + 1;
    }
    assert(v@.subrange(0, i as int) =~= v@);
    out
}

/// The canonical texts of a list of types, separated by `, `.
fn join_keys(ts: &Vec<TypeExpr>) -> (r: String)
    ensures
        r@ == join(keys_of(ts@), ", "@),
    decreases ts@,
{
    let mut out = String::new();
    let mut i: usize = 0;
    while i < ts.len()
        invariant
            i <= ts@.len(),
            out@ == join(keys_of(ts@.subrange(0, i as int)), ", "@),
        decreases ts@.len() - i,
    {
        if i > 0 {
            out.append(", ");
        }
        let k = type_key(&ts[i]);
        out.append(k.as_str());
        proof {
            let pre = ts@.subrange(0, i as int + 1);
            assert(pre.subrange(0, pre.len() - 1) =~= ts@.subrange(0, i as int));
            assert(pre[pre.len() - 1] == ts@[i as int]);
            let ks = keys_of(pre);
            assert(ks.drop_last() =~= keys_of(ts@.subrange(0, i as int)));
            if i == 0 {
                assert(ks.len() == 1);
                assert(out@ =~= ks[0]);
            }
        }
        i = i + 1;
    }
    assert(ts@.subrange(0, i as int) =~= ts@);
    out
}

/// The canonical text of a type.
pub fn type_key(t: &TypeExpr) -> (k: String)
    ensures
        k@ == key_of(*t),
    decreases t,
{
    match t {
        TypeExpr::Named { path, args } => {
            let mut k = join_strings(path, "::");
            if args.len() > 0 {
                k.append("<");
                k.append(join_keys(args).as_str());
                k.append(">");
            }
            k
        },
        TypeExpr::Fn { params, ret } => {
            let mut k = String::from_str("(");
            k.append(join_keys(params).as_str());
            k.append(") -> ");
            k.append(type_key(ret).as_str());
            k
        },
        TypeExpr::Tuple { elements } => {
            let mut k = String::from_str("(");
            k.append(join_keys(elements).as_str());
            k.append(")");
            k
        },
        TypeExpr::Ref { mutable, inner } => {
            let mut k = if *mutable {
                String::from_str("&mut ")
            } else {
                String::from_str("&")
            };
            k.append(type_key(inner).as_str());
            k
        },
        TypeExpr::Dyn { trait_ty } => {
            let mut k = String::from_str("dyn ");
            k.append(type_key(trait_ty).as_str());
            k
        },
    }
}

/// The parameter a type names, if it is a bare one-segment path without
/// arguments that is among `params`.
pub fn type_param_name(t: &TypeExpr, params: &Vec<String>) -> (r: Option<String>)
    ensures
        match (r, param_name_of(*t, param_set(params@))) {
            (Some(a), Some(b)) => a@ == b,
            (None, None) => true,
            _ => false,
        },
{
    match t {
        TypeExpr::Named { path, args } => {
            if path.len() == 1 && args.len() == 0 && contains_str(params, path[0].as_str()) {
                proof {
                    assert(seg_views(params@).contains(path@[0]@));
                    assert(param_set(params@).contains(path@[0]@));
                }
                Some(path[0].clone())
            } else {
                proof {
                    if path@.len() == 1 && args@.len() == 0 {
                        assert(!seg_views(params@).contains(path@[0]@));
                        assert(!param_set(params@).contains(path@[0]@));
                    }
                }
                None
            }
        },
        _ => None,
    }
}

/// Binds `param` to `witness` in `bindings`: true when it was unbound (the
/// binding is added) or already bound to the same witness; false when it is
/// bound to another.
pub fn bind_param(bindings: &mut Vec<(String, String)>, param: &str, witness: &str) -> (r: bool)
    ensures
        r == bind(pair_views(old(bindings)@), param@, witness@) is Some,
        r ==> pair_views(final(bindings)@) == bind(pair_views(old(bindings)@), param@, witness@)->0,
{
    let ghost b = pair_views(bindings@);
    let n = bindings.len();
    let mut i: usize = 0;
    assert(b.subrange(0, n as int) =~= b);
    while i < n
        invariant
            n == bindings@.len(),
            b == pair_views(bindings@),
            i <= n,
            lookup(b, param@) == lookup(b.subrange(i as int, n as int), param@),
        decreases n - i,
    {
        proof {
            let t = b.subrange(i as int, n as int);
            assert(t[0] == (bindings@[i as int].0@, bindings@[i as int].1@));
            assert(t.subrange(1, t.len() as int) =~= b.subrange(i as int + 1, n as int));
        }
        if str_eq(bindings[i].0.as_str(), param) {
            return str_eq(bindings[i].1.as_str(), witness);
        }
        i = i + 1;
    }
    proof {
        assert(b.subrange(n as int, n as int).len() == 0);
    }
    let ghost prev = bindings@;
    let entry = (param.to_owned(), witness.to_owned());
    assert(entry.0@ == param@ && entry.1@ == witness@);
    bindings.push(entry);
    assert(bindings@ == prev.push(entry));
    assert(pair_views(bindings@) =~= b.push((param@, witness@)));
    true
}

/// Whether two paths have the same segments.
fn strings_equal(a: &Vec<String>, b: &Vec<String>) -> (r: bool)
    ensures
        r == (seg_views(a@) == seg_views(b@)),
{
    if a.len() != b.len() {
        proof {
            assert(seg_views(a@).len() != seg_views(b@).len());
        }
        return false;
    }
    let mut i: usize = 0;
    while i < a.len()
        invariant
            a@.len() == b@.len(),
            i <= a@.len(),
            forall|j: int| 0 <= j < i ==> a@[j]@ == b@[j]@,
        decreases a@.len() - i,
    {
        if !str_eq(a[i].as_str(), b[i].as_str()) {
            proof {
                assert(seg_views(a@)[i as int] != seg_views(b@)[i as int]);
            }
            return false;
        }
        i = i + 1;
    }
    assert(seg_views(a@) =~= seg_views(b@));
    true
}

/// Pairwise overlap of two equally long lists of patterns, left to right,
/// threading the bindings.
fn types_overlap_all(
    ls: &Vec<TypeExpr>,
    left_params: &Vec<String>,
    rs: &Vec<TypeExpr>,
    right_params: &Vec<String>,
    left_bindings: &mut Vec<(String, String)>,
    right_bindings: &mut Vec<(String, String)>,
) -> (r: bool)
    requires
        ls@.len() == rs@.len(),
    ensures
        r == overlap_all(
            ls@,
            param_set(left_params@),
            rs@,
            param_set(right_params@),
            pair_views(old(left_bindings)@),
            pair_views(old(right_bindings)@),
        ) is Some,
        r ==> (pair_views(final(left_bindings)@), pair_views(final(right_bindings)@))
            == overlap_all(
            ls@,
            param_set(left_params@),
            rs@,
            param_set(right_params@),
            pair_views(old(left_bindings)@),
            pair_views(old(right_bindings)@),
        )->0,
    decreases ls@,
{
    let ghost lp = param_set(left_params@);
    let ghost rp = param_set(right_params@);
    let ghost whole = overlap_all(
        ls@,
        lp,
        rs@,
        rp,
        pair_views(left_bindings@),
        pair_views(right_bindings@),
    );
    let n = ls.len();
    let mut i: usize = 0;
    assert(ls@.subrange(0, n as int) =~= ls@);
    assert(rs@.subrange(0, n as int) =~= rs@);
    while i < n
        invariant
            n == ls@.len() == rs@.len(),
            i <= n,
            lp == param_set(left_params@),
            rp == param_set(right_params@),
            whole == overlap_all(
                ls@,
                lp,
                rs@,
                rp,
                pair_views(old(left_bindings)@),
                pair_views(old(right_bindings)@),
            ),
            whole == overlap_all(
                ls@.subrange(i as int, n as int),
                lp,
                rs@.subrange(i as int, n as int),
                rp,
                pair_views(left_bindings@),
                pair_views(right_bindings@),
            ),
        decreases n - i,
    {
        let ghost ltail = ls@.subrange(i as int, n as int);
        let ghost rtail = rs@.subrange(i as int, n as int);
        proof {
            assert(ltail[0] == ls@[i as int]);
            assert(rtail[0] == rs@[i as int]);
            assert(ltail.subrange(1, ltail.len() as int) =~= ls@.subrange(i as int + 1, n as int));
            assert(rtail.subrange(1, rtail.len() as int) =~= rs@.subrange(i as int + 1, n as int));
        }
        let ghost lb0 = pair_views(left_bindings@);
        let ghost rb0 = pair_views(right_bindings@);
        if !type_patterns_overlap_inner(
            &ls[i],
            left_params,
            &rs[i],
            right_params,
            left_bindings,
            right_bindings,
        ) {
            assert(overlap(ltail[0], lp, rtail[0], rp, lb0, rb0) is None);
            assert(whole is None);
            return false;
        }
        i = i + 1;
    }
    true
}

/// Whether two type patterns, each with its impl's type parameters, can
/// match a common type, threading the parameter bindings made so far.
pub fn type_patterns_overlap_inner(
    left: &TypeExpr,
    left_params: &Vec<String>,
    right: &TypeExpr,
    right_params: &Vec<String>,
    left_bindings: &mut Vec<(String, String)>,
    right_bindings: &mut Vec<(String, String)>,
) -> (r: bool)
    ensures
        r == overlap(
            *left,
            param_set(left_params@),
            *right,
            param_set(right_params@),
            pair_views(old(left_bindings)@),
            pair_views(old(right_bindings)@),
        ) is Some,
        r ==> (pair_views(final(left_bindings)@), pair_views(final(right_bindings)@)) == overlap(
            *left,
            param_set(left_params@),
            *right,
            param_set(right_params@),
            pair_views(old(left_bindings)@),
            pair_views(old(right_bindings)@),
        )->0,
    decreases left,
{
    let left_param = type_param_name(left, left_params);
    let right_param = type_param_name(right, right_params);
    match (left_param, right_param) {
        (Some(_), Some(_)) => true,
        (Some(p), None) => {
            let witness = type_key(right);
            bind_param(left_bindings, p.as_str(), witness.as_str())
        },
        (None, Some(p)) => {
            let witness = type_key(left);
            bind_param(right_bindings, p.as_str(), witness.as_str())
        },
        (None, None) => match (left, right) {
            (
                TypeExpr::Named { path: left_path, args: left_args },
                TypeExpr::Named { path: right_path, args: right_args },
            ) => {
                strings_equal(left_path, right_path) && left_args.len() == right_args.len()
                    && types_overlap_all(
                    left_args,
                    left_params,
                    right_args,
                    right_params,
                    left_bindings,
                    right_bindings,
                )
            },
            (
                TypeExpr::Fn { params: left_params_ty, ret: left_ret },
                TypeExpr::Fn { params: right_params_ty, ret: right_ret },
            ) => {
                left_params_ty.len() == right_params_ty.len() && types_overlap_all(
                    left_params_ty,
                    left_params,
                    right_params_ty,
                    right_params,
                    left_bindings,
                    right_bindings,
                ) && type_patterns_overlap_inner(
                    left_ret,
                    left_params,
                    right_ret,
                    right_params,
                    left_bindings,
                    right_bindings,
                )
            },
            (
                TypeExpr::Tuple { elements: left_elements },
                TypeExpr::Tuple { elements: right_elements },
            ) => {
                left_elements.len() == right_elements.len() && types_overlap_all(
                    left_elements,
                    left_params,
                    right_elements,
                    right_params,
                    left_bindings,
                    right_bindings,
                )
            },
            (
                TypeExpr::Ref { mutable: left_mutable, inner: left_inner },
                TypeExpr::Ref { mutable: right_mutable, inner: right_inner },
            ) => {
                *left_mutable == *right_mutable && type_patterns_overlap_inner(
                    left_inner,
                    left_params,
                    right_inner,
                    right_params,
                    left_bindings,
                    right_bindings,
                )
            },
            (TypeExpr::Dyn { trait_ty: left_trait }, TypeExpr::Dyn { trait_ty: right_trait }) => {
                type_patterns_overlap_inner(
                    left_trait,
                    left_params,
                    right_trait,
                    right_params,
                    left_bindings,
                    right_bindings,
                )
            },
            _ => false,
        },
    }
}

/// Whether two type patterns can match a common type, starting with no
/// parameter bound.
pub fn type_patterns_overlap(
    left: &TypeExpr,
    left_params: &Vec<String>,
    right: &TypeExpr,
    right_params: &Vec<String>,
) -> (r: bool)
    ensures
        r == overlap(
            *left,
            param_set(left_params@),
            *right,
            param_set(right_params@),
            Seq::empty(),
            Seq::empty(),
        ) is Some,
{
    let mut left_bindings: Vec<(String, String)> = Vec::new();
    let mut right_bindings: Vec<(String, String)> = Vec::new();
    assert(pair_views(left_bindings@) =~= Seq::<(Seq<char>, Seq<char>)>::empty());
    assert(pair_views(right_bindings@) =~= Seq::<(Seq<char>, Seq<char>)>::empty());
    type_patterns_overlap_inner(
        left,
        left_params,
        right,
        right_params,
        &mut left_bindings,
        &mut right_bindings,
    )
}

/// The pair with its halves exchanged.
pub open spec fn swap_pair(o: Option<(Bindings, Bindings)>) -> Option<(Bindings, Bindings)> {
    match o {
        Some((a, b)) => Some((b, a)),
        None => None,
    }
}

/// Overlap does not depend on which impl is on the left: exchanging the
/// two patterns (with their parameters and bindings) exchanges the
/// resulting bindings and nothing else.
pub proof fn lemma_overlap_symmetric(
    l: TypeExpr,
    lp: Set<Seq<char>>,
    r: TypeExpr,
    rp: Set<Seq<char>>,
    lb: Bindings,
    rb: Bindings,
)
    ensures
        overlap(r, rp, l, lp, rb, lb) == swap_pair(overlap(l, lp, r, rp, lb, rb)),
    decreases l,
{
    match (param_name_of(l, lp), param_name_of(r, rp)) {
        (None, None) => match (l, r) {
            (TypeExpr::Named { path: lpath, args: largs }, TypeExpr::Named { path: rpath, args: rargs }) => {
                if seg_views(lpath@) == seg_views(rpath@) && largs@.len() == rargs@.len() {
                    lemma_overlap_all_symmetric(largs@, lp, rargs@, rp, lb, rb);
                }
            },
            (TypeExpr::Fn { params: lps, ret: lret }, TypeExpr::Fn { params: rps, ret: rret }) => {
                if lps@.len() == rps@.len() {
                    lemma_overlap_all_symmetric(lps@, lp, rps@, rp, lb, rb);
                    match overlap_all(lps@, lp, rps@, rp, lb, rb) {
                        Some((lb2, rb2)) => {
                            lemma_overlap_symmetric(*lret, lp, *rret, rp, lb2, rb2);
                        },
                        None => {},
                    }
                }
            },
            (TypeExpr::Tuple { elements: les }, TypeExpr::Tuple { elements: res }) => {
                if les@.len() == res@.len() {
                    lemma_overlap_all_symmetric(les@, lp, res@, rp, lb, rb);
                }
            },
            (TypeExpr::Ref { mutable: lm, inner: li }, TypeExpr::Ref { mutable: rm, inner: ri }) => {
                if lm == rm {
                    lemma_overlap_symmetric(*li, lp, *ri, rp, lb, rb);
                }
            },
            (TypeExpr::Dyn { trait_ty: lt }, TypeExpr::Dyn { trait_ty: rt }) => {
                lemma_overlap_symmetric(*lt, lp, *rt, rp, lb, rb);
            },
            _ => {},
        },
        _ => {},
    }
}

/// The list form of [`lemma_overlap_symmetric`].
pub proof fn lemma_overlap_all_symmetric(
    ls: Seq<TypeExpr>,
    lp: Set<Seq<char>>,
    rs: Seq<TypeExpr>,
    rp: Set<Seq<char>>,
    lb: Bindings,
    rb: Bindings,
)
    ensures
        overlap_all(rs, rp, ls, lp, rb, lb) == swap_pair(overlap_all(ls, lp, rs, rp, lb, rb)),
    decreases ls,
{
    if ls.len() > 0 && rs.len() > 0 {
        lemma_overlap_symmetric(ls[0], lp, rs[0], rp, lb, rb);
        match overlap(ls[0], lp, rs[0], rp, lb, rb) {
            Some((lb2, rb2)) => {
                lemma_overlap_all_symmetric(
                    ls.subrange(1, ls.len() as int),
                    lp,
                    rs.subrange(1, rs.len() as int),
                    rp,
                    lb2,
                    rb2,
                );
            },
            None => {},
        }
    }
}

/// A pattern overlaps itself when no parameter is in play: an exact
/// duplicate impl always overlaps, binding nothing.
pub proof fn lemma_overlap_reflexive(t: TypeExpr, lb: Bindings, rb: Bindings)
    ensures
        overlap(t, Set::empty(), t, Set::empty(), lb, rb) == Some((lb, rb)),
    decreases t,
{
    match t {
        TypeExpr::Named { path, args } => {
            lemma_overlap_all_reflexive(args@, lb, rb);
        },
        TypeExpr::Fn { params, ret } => {
            lemma_overlap_all_reflexive(params@, lb, rb);
            lemma_overlap_reflexive(*ret, lb, rb);
        },
        TypeExpr::Tuple { elements } => {
            lemma_overlap_all_reflexive(elements@, lb, rb);
        },
        TypeExpr::Ref { mutable, inner } => {
            lemma_overlap_reflexive(*inner, lb, rb);
        },
        TypeExpr::Dyn { trait_ty } => {
            lemma_overlap_reflexive(*trait_ty, lb, rb);
        },
    }
}

/// The list form of [`lemma_overlap_reflexive`].
pub proof fn lemma_overlap_all_reflexive(ts: Seq<TypeExpr>, lb: Bindings, rb: Bindings)
    ensures
        overlap_all(ts, Set::empty(), ts, Set::empty(), lb, rb) == Some((lb, rb)),
    decreases ts,
{
    if ts.len() > 0 {
        lemma_overlap_reflexive(ts[0], lb, rb);
        lemma_overlap_all_reflexive(ts.subrange(1, ts.len() as int), lb, rb);
    }
}

// ---------------------------------------------------------------------------
// The pass over a module's items
// ---------------------------------------------------------------------------

/// An item as the coherence pass reads it.
#[derive(Debug)]
pub enum Item {
    Struct { name: String },
    Enum { name: String },
    Actor { name: String },
    Trait { name: String },
    Protocol { name: String },
    /// A nested module.
    Module { name: String, items: Vec<Item> },
    /// An impl block: `impl<type_params> trait_ty for target` (inherent when
    /// `trait_ty` is `None`).
    Impl { trait_ty: Option<TypeExpr>, target: TypeExpr, type_params: Vec<String> },
    /// Any other item.
    Other,
}

/// The locally declared traits and types: by full key and by short name.
#[derive(Debug)]
pub struct LocalNames {
    pub traits: Vec<String>,
    pub trait_shorts: Vec<String>,
    pub types: Vec<String>,
    pub type_shorts: Vec<String>,
}

/// Local names as sets: (traits, trait short names, types, type short names).
pub type NameSets = (Set<Seq<char>>, Set<Seq<char>>, Set<Seq<char>>, Set<Seq<char>>);

/// The sets a [`LocalNames`] holds.
pub open spec fn name_sets(n: LocalNames) -> NameSets {
    (param_set(n.traits@), param_set(n.trait_shorts@), param_set(n.types@), param_set(n.type_shorts@))
}

/// The key of a name declared in the module at `path`.
pub open spec fn local_key(path: Seq<Seq<char>>, name: Seq<char>) -> Seq<char> {
    if path.len() == 0 {
        name
    } else {
        join(path, "::"@) + "::"@ + name
    }
}

/// Componentwise union.
pub open spec fn union4(a: NameSets, b: NameSets) -> NameSets {
    (a.0.union(b.0), a.1.union(b.1), a.2.union(b.2), a.3.union(b.3))
}

/// The names an item declares, in the module at `path`.
pub open spec fn item_names(item: Item, path: Seq<Seq<char>>) -> NameSets
    decreases item,
{
    match item {
        Item::Struct { name } => (Set::empty(), Set::empty(), set![local_key(path, name@)], set![name@]),
        Item::Enum { name } => (Set::empty(), Set::empty(), set![local_key(path, name@)], set![name@]),
        Item::Actor { name } => (Set::empty(), Set::empty(), set![local_key(path, name@)], set![name@]),
        Item::Trait { name } => (set![local_key(path, name@)], set![name@], Set::empty(), Set::empty()),
        Item::Protocol { name } => (set![local_key(path, name@)], set![name@], Set::empty(), Set::empty()),
        Item::Module { name, items } => items_names(items@, path.push(name@)),
        _ => (Set::empty(), Set::empty(), Set::empty(), Set::empty()),
    }
}

/// The names a list of items declares, in the module at `path`.
pub open spec fn items_names(items: Seq<Item>, path: Seq<Seq<char>>) -> NameSets
    decreases items,
{
    if items.len() == 0 {
        (Set::empty(), Set::empty(), Set::empty(), Set::empty())
    } else {
        union4(
            items_names(items.subrange(0, items.len() - 1), path),
            item_names(items[items.len() - 1], path),
        )
    }
}

/// The key of a name declared in the module at `mod_path`.
pub fn local_name_key(mod_path: &Vec<String>, name: &str) -> (k: String)
    ensures
        k@ == local_key(seg_views(mod_path@), name@),
{
    if mod_path.len() == 0 {
        assert(seg_views(mod_path@).len() == 0);
        name.to_owned()
    } else {
        let mut k = join_strings(mod_path, "::");
        k.append("::");
        k.append(name);
        k
    }
}

/// Records a name in `v`.
fn push_name(v: &mut Vec<String>, name: String)
    ensures
        param_set(final(v)@) == param_set(old(v)@).insert(name@),
{
    let ghost prev = v@;
    v.push(name);
    proof {
        assert(v@ == prev.push(name));
        assert(seg_views(v@) =~= seg_views(prev).push(name@));
        assert(param_set(v@) =~= param_set(prev).insert(name@)) by {
            assert forall|x: Seq<char>| param_set(v@).contains(x) <==> param_set(prev).insert(
                name@,
            ).contains(x) by {
                if param_set(v@).contains(x) {
                    let k = choose|k: int| 0 <= k < seg_views(v@).len() && seg_views(v@)[k] == x;
                    if k < prev.len() {
                        assert(seg_views(prev)[k] == x);
                    }
                }
                if param_set(prev).contains(x) {
                    let k = choose|k: int| 0 <= k < seg_views(prev).len() && seg_views(prev)[k] == x;
                    assert(seg_views(v@)[k] == x);
                }
                if x == name@ {
                    assert(seg_views(v@)[prev.len() as int] == x);
                }
            }
        }
    }
}

/// Collects the traits and types declared by `items` (in the module at
/// `mod_path`) into `names`.
pub fn collect_local_names(items: &Vec<Item>, mod_path: &mut Vec<String>, names: &mut LocalNames)
    ensures
        seg_views(final(mod_path)@) == seg_views(old(mod_path)@),
        name_sets(*final(names)) == union4(
            name_sets(*old(names)),
            items_names(items@, seg_views(old(mod_path)@)),
        ),
    decreases items@,
{
    let ghost path = seg_views(mod_path@);
    let ghost start = name_sets(*names);
    let mut i: usize = 0;
    assert(items@.subrange(0, 0) =~= Seq::<Item>::empty());
    assert(union4(start, items_names(Seq::<Item>::empty(), path)) =~~= start);
    while i < items.len()
        invariant
            i <= items@.len(),
            seg_views(mod_path@) == path,
            path == seg_views(old(mod_path)@),
            start == name_sets(*old(names)),
            name_sets(*names) == union4(start, items_names(items@.subrange(0, i as int), path)),
        decreases items@.len() - i,
    {
        let ghost before = name_sets(*names);
        match &items[i] {
            Item::Struct { name } | Item::Enum { name } | Item::Actor { name } => {
                push_name(&mut names.type_shorts, name.clone());
                push_name(&mut names.types, local_name_key(mod_path, name.as_str()));
                proof {
                    let n = name_sets(*names);
                    let it = item_names(items@[i as int], path);
                    assert(it == (Set::<Seq<char>>::empty(), Set::<Seq<char>>::empty(), set![local_key(path, name@)], set![name@]));
                    assert(n.0 =~= before.0.union(it.0));
                    assert(n.1 =~= before.1.union(it.1));
                    assert(n.2 =~= before.2.union(it.2));
                    assert(n.3 =~= before.3.union(it.3));
                }
            },
            Item::Trait { name } | Item::Protocol { name } => {
                push_name(&mut names.trait_shorts, name.clone());
                push_name(&mut names.traits, local_name_key(mod_path, name.as_str()));
                proof {
                    let n = name_sets(*names);
                    let it = item_names(items@[i as int], path);
                    assert(it == (set![local_key(path, name@)], set![name@], Set::<Seq<char>>::empty(), Set::<Seq<char>>::empty()));
                    assert(n.0 =~= before.0.union(it.0));
                    assert(n.1 =~= before.1.union(it.1));
                    assert(n.2 =~= before.2.union(it.2));
                    assert(n.3 =~= before.3.union(it.3));
                }
            },
            Item::Module { name, items: inner } => {
                let ghost p0 = mod_path@;
                let nm = name.clone();
                mod_path.push(nm);
                assert(mod_path@ == p0.push(nm));
                assert(seg_views(mod_path@) =~= path.push(name@));
                collect_local_names(inner, mod_path, names);
                let ghost mid = mod_path@;
                let _ = mod_path.pop();
                assert(mod_path@ =~= mid.drop_last());
                assert(seg_views(mod_path@) =~= path) by {
                    assert(seg_views(mid) == path.push(name@));
                    assert forall|k: int| 0 <= k < seg_views(mod_path@).len() implies seg_views(
                        mod_path@,
                    )[k] == path[k] by {
                        assert(seg_views(mod_path@)[k] == mid[k]@);
                        assert(seg_views(mid)[k] == mid[k]@);
                    }
                }
                proof {
                    let n = name_sets(*names);
                    let it = item_names(items@[i as int], path);
                    assert(it == items_names(inner@, path.push(name@)));
                    assert(n.0 =~= before.0.union(it.0));
                    assert(n.1 =~= before.1.union(it.1));
                    assert(n.2 =~= before.2.union(it.2));
                    assert(n.3 =~= before.3.union(it.3));
                }
            },
            _ => {
                proof {
                    let n = name_sets(*names);
                    let it = item_names(items@[i as int], path);
                    assert(n.0 =~= before.0.union(it.0));
                    assert(n.1 =~= before.1.union(it.1));
                    assert(n.2 =~= before.2.union(it.2));
                    assert(n.3 =~= before.3.union(it.3));
                }
            },
        }
        assert(name_sets(*names) =~~= union4(before, item_names(items@[i as int], path)));
        proof {
            let a = items_names(items@.subrange(0, i as int), path);
            let b = item_names(items@[i as int], path);
            let pre = items@.subrange(0, i as int + 1);
            let whole = items_names(pre, path);
            assert(pre.len() > 0);
            assert(pre.subrange(0, pre.len() - 1) =~= items@.subrange(0, i as int));
            assert(pre[pre.len() - 1] == items@[i as int]);
            assert(whole == union4(
                items_names(pre.subrange(0, pre.len() - 1), path),
                item_names(pre[pre.len() - 1], path),
            ));
            assert(whole == union4(a, b));
            let n = name_sets(*names);
            let goal = union4(start, whole);
            assert(n.0 =~= goal.0);
            assert(n.1 =~= goal.1);
            assert(n.2 =~= goal.2);
            assert(n.3 =~= goal.3);
        }
        i = i + 1;
    }
    assert(items@.subrange(0, i as int) =~= items@);
}

/// The path a type names (through a trait object), if any.
pub open spec fn path_of(t: TypeExpr) -> Option<Seq<Seq<char>>>
    decreases t,
{
    match t {
        TypeExpr::Named { path, args } => Some(seg_views(path@)),
        TypeExpr::Dyn { trait_ty } => path_of(*trait_ty),
        _ => None,
    }
}

/// Whether a path names a local declaration: a one-segment path by short
/// name, a longer one by its full key.
pub open spec fn path_is_local(path: Seq<Seq<char>>, full: Set<Seq<char>>, short: Set<Seq<char>>) -> bool {
    if path.len() == 1 {
        short.contains(path[0])
    } else {
        full.contains(join(path, "::"@))
    }
}

/// Whether a type names a local declaration.
pub open spec fn is_local(t: TypeExpr, full: Set<Seq<char>>, short: Set<Seq<char>>) -> bool {
    match path_of(t) {
        Some(p) => path_is_local(p, full, short),
        None => false,
    }
}

/// An impl as the pass remembers it: trait pattern, target pattern, type
/// parameters, and the two keys.
pub type RecView = (TypeExpr, TypeExpr, Set<Seq<char>>, Seq<char>, Seq<char>);

/// Whether two remembered impls overlap on both the trait and the target.
pub open spec fn recs_overlap(a: RecView, b: RecView) -> bool {
    overlap(a.0, a.2, b.0, b.2, Seq::empty(), Seq::empty()) is Some && overlap(
        a.1,
        a.2,
        b.1,
        b.2,
        Seq::empty(),
        Seq::empty(),
    ) is Some
}

/// The first earlier impl that `rec` overlaps, if any.
pub open spec fn first_overlap(prior: Seq<RecView>, rec: RecView) -> Option<int>
    decreases prior.len(),
{
    if prior.len() == 0 {
        None
    } else if recs_overlap(prior[0], rec) {
        Some(0)
    } else {
        match first_overlap(prior.subrange(1, prior.len() as int), rec) {
            Some(j) => Some(j + 1),
            None => None,
        }
    }
}

/// The orphan-rule message.
pub open spec fn orphan_message(tk: Seq<char>, gk: Seq<char>) -> Seq<char> {
    "trait coherence violation: impl `"@ + tk + "` for `"@ + gk
        + "` violates the orphan rule; define the trait or the type locally"@
}

/// The duplicate-impl message.
pub open spec fn duplicate_message(tk: Seq<char>, gk: Seq<char>) -> Seq<char> {
    "trait coherence violation: duplicate impl `"@ + tk + "` for `"@ + gk + "`"@
}

/// The overlapping-impl message.
pub open spec fn overlap_message(tk: Seq<char>, gk: Seq<char>, ptk: Seq<char>, pgk: Seq<char>) -> Seq<char> {
    "trait coherence violation: overlapping impl `"@ + tk + "` for `"@ + gk
        + "` overlaps existing impl `"@ + ptk + "` for `"@ + pgk + "`; witness type `"@ + gk + "`"@
}

/// The pass's state: the (trait, target) keys seen, the impls remembered
/// for overlap checks, and the messages reported so far.
pub type CohState = (Set<(Seq<char>, Seq<char>)>, Seq<RecView>, Seq<Seq<char>>);

/// The pass over one trait impl.
pub open spec fn impl_step(
    names: NameSets,
    st: CohState,
    tt: TypeExpr,
    target: TypeExpr,
    params: Set<Seq<char>>,
) -> CohState {
    let tk = key_of(tt);
    let gk = key_of(target);
    let msgs = if !is_local(tt, names.0, names.1) && !is_local(target, names.2, names.3) {
        st.2.push(orphan_message(tk, gk))
    } else {
        st.2
    };
    if st.0.contains((tk, gk)) {
        (st.0, st.1, msgs.push(duplicate_message(tk, gk)))
    } else {
        let rec = (tt, target, params, tk, gk);
        let msgs2 = match first_overlap(st.1, rec) {
            Some(j) => msgs.push(overlap_message(tk, gk, st.1[j].3, st.1[j].4)),
            None => msgs,
        };
        (st.0.insert((tk, gk)), st.1.push(rec), msgs2)
    }
}

/// The pass over one item.
pub open spec fn item_step(item: Item, names: NameSets, st: CohState) -> CohState
    decreases item,
{
    match item {
        Item::Impl { trait_ty, target, type_params } => match trait_ty {
            Some(tt) => impl_step(names, st, tt, target, param_set(type_params@)),
            None => st,
        },
        Item::Module { name, items } => items_step(items@, names, st),
        _ => st,
    }
}

/// The pass over a list of items, in order.
pub open spec fn items_step(items: Seq<Item>, names: NameSets, st: CohState) -> CohState
    decreases items,
{
    if items.len() == 0 {
        st
    } else {
        item_step(items[items.len() - 1], names, items_step(items.subrange(0, items.len() - 1), names, st))
    }
}

/// The messages of a list of diagnostics that are all safe-mode
/// violations.
pub open spec fn violation_texts(v: Seq<CheckError>) -> Seq<Seq<char>> {
    v.map_values(|e: CheckError| match e {
        CheckError::SafeModeViolation(s) => s@,
        _ => Seq::empty(),
    })
}

/// Whether every diagnostic is a safe-mode violation.
pub open spec fn all_violations(v: Seq<CheckError>) -> bool {
    forall|i: int| 0 <= i < v.len() ==> (#[trigger] v[i]) is SafeModeViolation
}

/// The path a type names, if any.
fn type_path(t: &TypeExpr) -> (r: Option<&Vec<String>>)
    ensures
        match (r, path_of(*t)) {
            (Some(p), Some(q)) => seg_views(p@) == q,
            (None, None) => true,
            _ => false,
        },
    decreases t,
{
    match t {
        TypeExpr::Named { path, args: _ } => Some(path),
        TypeExpr::Dyn { trait_ty } => type_path(trait_ty),
        _ => None,
    }
}

/// Whether a path names a local declaration.
pub fn local_path_matches(path: &Vec<String>, full_names: &Vec<String>, short_names: &Vec<String>) -> (r: bool)
    ensures
        r == path_is_local(seg_views(path@), param_set(full_names@), param_set(short_names@)),
{
    if path.len() == 1 {
        let r = contains_str(short_names, path[0].as_str());
        proof {
            assert(seg_views(path@)[0] == path@[0]@);
        }
        r
    } else {
        let joined = join_strings(path, "::");
        contains_str(full_names, joined.as_str())
    }
}

/// Whether a type names a local trait.
fn is_local_trait(t: &TypeExpr, names: &LocalNames) -> (r: bool)
    ensures
        r == is_local(*t, name_sets(*names).0, name_sets(*names).1),
{
    match type_path(t) {
        Some(path) => local_path_matches(path, &names.traits, &names.trait_shorts),
        None => false,
    }
}

/// Whether a type names a local type.
fn is_local_type(t: &TypeExpr, names: &LocalNames) -> (r: bool)
    ensures
        r == is_local(*t, name_sets(*names).2, name_sets(*names).3),
{
    match type_path(t) {
        Some(path) => local_path_matches(path, &names.types, &names.type_shorts),
        None => false,
    }
}

/// An impl remembered for overlap checks.
pub struct ImplRecord<'a> {
    pub trait_ty: &'a TypeExpr,
    pub target_ty: &'a TypeExpr,
    pub type_params: &'a Vec<String>,
    pub trait_key: String,
    pub target_key: String,
}

/// What the pass remembers of an impl record.
pub open spec fn rec_view(r: ImplRecord) -> RecView {
    (*r.trait_ty, *r.target_ty, param_set(r.type_params@), r.trait_key@, r.target_key@)
}

/// The views of the remembered impls.
pub open spec fn rec_views(v: Seq<ImplRecord>) -> Seq<RecView> {
    v.map_values(|r: ImplRecord| rec_view(r))
}

/// The keys seen, as a set.
pub open spec fn seen_set(v: Seq<(String, String)>) -> Set<(Seq<char>, Seq<char>)> {
    pair_views(v).to_set()
}

/// Whether two impls overlap on both their trait and their target.
pub fn impls_overlap(left: &ImplRecord, right: &ImplRecord) -> (r: bool)
    ensures
        r == recs_overlap(rec_view(*left), rec_view(*right)),
{
    type_patterns_overlap(left.trait_ty, left.type_params, right.trait_ty, right.type_params)
        && type_patterns_overlap(left.target_ty, left.type_params, right.target_ty, right.type_params)
}

/// Whether `seen` holds the key pair `(a, b)`.
fn seen_contains(seen: &Vec<(String, String)>, a: &str, b: &str) -> (r: bool)
    ensures
        r == seen_set(seen@).contains((a@, b@)),
{
    let mut i: usize = 0;
    while i < seen.len()
        invariant
            i <= seen@.len(),
            forall|j: int| 0 <= j < i ==> pair_views(seen@)[j] != (a@, b@),
        decreases seen@.len() - i,
    {
        if str_eq(seen[i].0.as_str(), a) && str_eq(seen[i].1.as_str(), b) {
            assert(pair_views(seen@)[i as int] == (a@, b@));
            return true;
        }
        i = i + 1;
    }
    proof {
        if seen_set(seen@).contains((a@, b@)) {
            let k = choose|k: int| 0 <= k < pair_views(seen@).len() && pair_views(seen@)[k] == (a@, b@);
            assert(pair_views(seen@)[k] == (a@, b@));
        }
    }
    false
}

/// The first overlap found is an index of the list, and that impl overlaps.
proof fn lemma_first_overlap_bound(prior: Seq<RecView>, rec: RecView)
    ensures
        first_overlap(prior, rec) matches Some(j) ==> 0 <= j < prior.len() && recs_overlap(prior[j], rec),
    decreases prior.len(),
{
    if prior.len() > 0 && !recs_overlap(prior[0], rec) {
        let rest = prior.subrange(1, prior.len() as int);
        lemma_first_overlap_bound(rest, rec);
        if let Some(j) = first_overlap(rest, rec) {
            assert(prior[j + 1] == rest[j]);
        }
    }
}

/// The index of the first remembered impl that `rec` overlaps.
fn find_overlap(prior: &Vec<ImplRecord>, rec: &ImplRecord) -> (r: Option<usize>)
    ensures
        r matches Some(a) ==> a < prior@.len(),
        match (r, first_overlap(rec_views(prior@), rec_view(*rec))) {
            (Some(a), Some(b)) => a as int == b,
            (None, None) => true,
            _ => false,
        },
{
    let ghost pv = rec_views(prior@);
    let ghost rv = rec_view(*rec);
    let n = prior.len();
    let mut i: usize = 0;
    assert(pv.subrange(0, n as int) =~= pv);
    while i < n
        invariant
            n == prior@.len() == pv.len(),
            pv == rec_views(prior@),
            rv == rec_view(*rec),
            i <= n,
            first_overlap(pv, rv) == match first_overlap(pv.subrange(i as int, n as int), rv) {
                Some(j) => Some(j + i),
                None => None::<int>,
            },
        decreases n - i,
    {
        let ghost tail = pv.subrange(i as int, n as int);
        assert(tail[0] == pv[i as int]);
        assert(pv[i as int] == rec_view(prior@[i as int]));
        assert(tail.subrange(1, tail.len() as int) =~= pv.subrange(i as int + 1, n as int));
        if impls_overlap(&prior[i], rec) {
            return Some(i);
        }
        i = i + 1;
    }
    proof {
        lemma_first_overlap_bound(pv, rv);
    }
    None
}

/// Appends a safe-mode violation with message `m`.
fn report(diags: &mut Vec<CheckError>, m: String)
    ensures
        violation_texts(final(diags)@) == violation_texts(old(diags)@).push(m@),
        all_violations(old(diags)@) ==> all_violations(final(diags)@),
{
    let ghost prev = diags@;
    let e = CheckError::SafeModeViolation(m);
    diags.push(e);
    assert(diags@ == prev.push(e));
    assert(violation_texts(diags@) =~= violation_texts(prev).push(m@));
}

/// The orphan-rule message.
fn orphan_text(tk: &String, gk: &String) -> (m: String)
    ensures
        m@ == orphan_message(tk@, gk@),
{
    let mut m = String::from_str("trait coherence violation: impl `");
    m.append(tk.as_str());
    m.append("` for `");
    m.append(gk.as_str());
    m.append("` violates the orphan rule; define the trait or the type locally");
    m
}

/// The duplicate-impl message.
fn duplicate_text(tk: &String, gk: &String) -> (m: String)
    ensures
        m@ == duplicate_message(tk@, gk@),
{
    let mut m = String::from_str("trait coherence violation: duplicate impl `");
    m.append(tk.as_str());
    m.append("` for `");
    m.append(gk.as_str());
    m.append("`");
    m
}

/// The overlapping-impl message.
fn overlap_text(tk: &String, gk: &String, ptk: &String, pgk: &String) -> (m: String)
    ensures
        m@ == overlap_message(tk@, gk@, ptk@, pgk@),
{
    let mut m = String::from_str("trait coherence violation: overlapping impl `");
    m.append(tk.as_str());
    m.append("` for `");
    m.append(gk.as_str());
    m.append("` overlaps existing impl `");
    m.append(ptk.as_str());
    m.append("` for `");
    m.append(pgk.as_str());
    m.append("`; witness type `");
    m.append(gk.as_str());
    m.append("`");
    m
}

/// The pass's state as the spec sees it.
pub open spec fn state_view(
    seen: Seq<(String, String)>,
    prior: Seq<ImplRecord>,
    diags: Seq<CheckError>,
) -> CohState {
    (seen_set(seen), rec_views(prior), violation_texts(diags))
}

/// Checks one trait impl against the orphan rule, the impls seen so far and
/// the earlier impls' patterns.
fn check_impl<'a>(
    trait_ty: &'a TypeExpr,
    target: &'a TypeExpr,
    type_params: &'a Vec<String>,
    names: &LocalNames,
    seen: &mut Vec<(String, String)>,
    prior: &mut Vec<ImplRecord<'a>>,
    diags: &mut Vec<CheckError>,
)
    ensures
        state_view(final(seen)@, final(prior)@, final(diags)@) == impl_step(
            name_sets(*names),
            state_view(old(seen)@, old(prior)@, old(diags)@),
            *trait_ty,
            *target,
            param_set(type_params@),
        ),
        all_violations(old(diags)@) ==> all_violations(final(diags)@),
{
    let trait_key = type_key(trait_ty);
    let target_key = type_key(target);
    let trait_is_local = is_local_trait(trait_ty, names);
    let target_is_local = is_local_type(target, names);
    if !trait_is_local && !target_is_local {
        report(diags, orphan_text(&trait_key, &target_key));
    }
    if seen_contains(seen, trait_key.as_str(), target_key.as_str()) {
        report(diags, duplicate_text(&trait_key, &target_key));
        return;
    }
    let ghost seen0 = seen@;
    let pair = (trait_key.clone(), target_key.clone());
    seen.push(pair);
    proof {
        assert(seen@ == seen0.push(pair));
        assert(pair_views(seen@) =~= pair_views(seen0).push((trait_key@, target_key@)));
        assert(seen_set(seen@) =~= seen_set(seen0).insert((trait_key@, target_key@))) by {
            assert forall|x: (Seq<char>, Seq<char>)| seen_set(seen@).contains(x) <==> seen_set(
                seen0,
            ).insert((trait_key@, target_key@)).contains(x) by {
                let pv = pair_views(seen@);
                let p0 = pair_views(seen0);
                if pv.contains(x) {
                    let k = choose|k: int| 0 <= k < pv.len() && pv[k] == x;
                    if k < p0.len() {
                        assert(p0[k] == x);
                    }
                }
                if p0.contains(x) {
                    let k = choose|k: int| 0 <= k < p0.len() && p0[k] == x;
                    assert(pv[k] == x);
                }
                if x == (trait_key@, target_key@) {
                    assert(pv[p0.len() as int] == x);
                }
            }
        }
    }
    let record = ImplRecord { trait_ty, target_ty: target, type_params, trait_key, target_key };
    match find_overlap(prior, &record) {
        Some(j) => {
            let m = overlap_text(&record.trait_key, &record.target_key, &prior[j].trait_key, &prior[j].target_key);
            report(diags, m);
        },
        None => {},
    }
    let ghost prior0 = prior@;
    prior.push(record);
    assert(prior@ == prior0.push(record));
    assert(rec_views(prior@) =~= rec_views(prior0).push(rec_view(record)));
}

/// Runs the coherence checks over `items` (and nested modules), in order,
/// threading the keys seen and the impls remembered.
pub fn check_items<'a>(
    items: &'a Vec<Item>,
    names: &LocalNames,
    seen: &mut Vec<(String, String)>,
    prior: &mut Vec<ImplRecord<'a>>,
    diags: &mut Vec<CheckError>,
)
    ensures
        state_view(final(seen)@, final(prior)@, final(diags)@) == items_step(
            items@,
            name_sets(*names),
            state_view(old(seen)@, old(prior)@, old(diags)@),
        ),
        all_violations(old(diags)@) ==> all_violations(final(diags)@),
    decreases items@,
{
    let ghost st0 = state_view(seen@, prior@, diags@);
    let ghost ns = name_sets(*names);
    let mut i: usize = 0;
    assert(items@.subrange(0, 0) =~= Seq::<Item>::empty());
    while i < items.len()
        invariant
            i <= items@.len(),
            ns == name_sets(*names),
            st0 == state_view(old(seen)@, old(prior)@, old(diags)@),
            state_view(seen@, prior@, diags@) == items_step(items@.subrange(0, i as int), ns, st0),
            all_violations(old(diags)@) ==> all_violations(diags@),
        decreases items@.len() - i,
    {
        let ghost before = state_view(seen@, prior@, diags@);
        match &items[i] {
            Item::Impl { trait_ty, target, type_params } => {
                match trait_ty {
                    Some(tt) => {
                        check_impl(tt, target, type_params, names, seen, prior, diags);
                    },
                    None => {},
                }
            },
            Item::Module { name: _, items: inner } => {
                check_items(inner, names, seen, prior, diags);
            },
            _ => {},
        }
        proof {
            let pre = items@.subrange(0, i as int + 1);
            assert(pre.subrange(0, pre.len() - 1) =~= items@.subrange(0, i as int));
            assert(pre[pre.len() - 1] == items@[i as int]);
            assert(state_view(seen@, prior@, diags@) == item_step(items@[i as int], ns, before));
            assert(items_step(pre, ns, st0) == item_step(
                pre[pre.len() - 1],
                ns,
                items_step(pre.subrange(0, pre.len() - 1), ns, st0),
            ));
        }
        i = i + 1;
    }
    assert(items@.subrange(0, i as int) =~= items@);
}

/// The conservative coherence pass over a module's items: orphan impls,
/// duplicate impls and overlapping impls, each reported as a safe-mode
/// violation, in item order.
pub fn check_trait_coherence(items: &Vec<Item>) -> (diags: Vec<CheckError>)
    ensures
        all_violations(diags@),
        violation_texts(diags@) == items_step(
            items@,
            items_names(items@, Seq::empty()),
            (Set::empty(), Seq::empty(), Seq::empty()),
        ).2,
{
    let mut names = LocalNames {
        traits: Vec::new(),
        trait_shorts: Vec::new(),
        types: Vec::new(),
        type_shorts: Vec::new(),
    };
    let mut path: Vec<String> = Vec::new();
    collect_local_names(items, &mut path, &mut names);
    proof {
        assert(seg_views(Seq::<String>::empty()) =~= Seq::<Seq<char>>::empty());
        let n = name_sets(names);
        let goal = items_names(items@, Seq::empty());
        assert(param_set(Seq::<String>::empty()) =~= Set::<Seq<char>>::empty());
        assert(n.0 =~= goal.0);
        assert(n.1 =~= goal.1);
        assert(n.2 =~= goal.2);
        assert(n.3 =~= goal.3);
    }
    let mut seen: Vec<(String, String)> = Vec::new();
    let mut prior: Vec<ImplRecord> = Vec::new();
    let mut diags: Vec<CheckError> = Vec::new();
    proof {
        assert(seen_set(seen@) =~= Set::<(Seq<char>, Seq<char>)>::empty());
        assert(rec_views(prior@) =~= Seq::<RecView>::empty());
        assert(violation_texts(diags@) =~= Seq::<Seq<char>>::empty());
    }
    check_items(items, &names, &mut seen, &mut prior, &mut diags);
    diags
}

/// An impl of the same trait for the same target, seen again, is always
/// reported as a duplicate (whatever its type parameters).
pub proof fn lemma_repeated_impl_is_duplicate(
    names: NameSets,
    st: CohState,
    tt: TypeExpr,
    target: TypeExpr,
    params: Set<Seq<char>>,
    params_again: Set<Seq<char>>,
)
    ensures
        ({
            let again = impl_step(names, impl_step(names, st, tt, target, params), tt, target, params_again);
            &&& again.2.len() > 0
            &&& again.2.last() == duplicate_message(key_of(tt), key_of(target))
        }),
{
}

} // verus!
