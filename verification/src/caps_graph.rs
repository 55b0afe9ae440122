//! Capability propagation over the call graph.
//!
//! Every function's declared `@caps(...)` must cover the capabilities of
//! every primitive it reaches through calls, directly or transitively,
//! unless it declares the wildcard `@caps(*)`. A function's transitive
//! capabilities are the union of the direct capabilities of every function
//! reachable from it, so the members of a call cycle all share one answer,
//! whatever their names.
//!
//! The module is given as its functions with their resolved call shapes;
//! the primitive registry is given as its qualified names with the
//! capability names each requires.

use vstd::prelude::*;
use vstd::string::*;
use crate::capset::{CapSet, canonical_index, other_bit, cap_names};
use crate::order::{strictly_sorted, views, insert_sorted};
use crate::text::{join, str_eq, string_push, chars_vec};

verus! {

// ---------------------------------------------------------------------------
// The model
// ---------------------------------------------------------------------------

/// The shape of a callee expression in a function body.
#[derive(Debug)]
pub enum Callee {
    /// A simple name: `f(..)`.
    Name(String),
    /// A qualified path: `m::f(..)`.
    Path(Vec<String>),
    /// A method call `receiver.m(..)`, known by the method's name only.
    Method(String),
}

/// A function of the module: free (`owner` is `None`) or an impl method.
#[derive(Debug)]
pub struct FnDecl {
    /// The last path segment of the impl's target type, for impl methods.
    pub owner: Option<String>,
    pub name: String,
    /// The names inside its `@caps(...)` annotations (`*` is the wildcard),
    /// or `None` when it carries no such annotation.
    pub caps: Option<Vec<String>>,
    /// Every call in its body.
    pub callees: Vec<Callee>,
}

/// The module: its functions (nested modules and impl blocks flattened,
/// in source order) and the kinds of its `memory` declarations.
#[derive(Debug)]
pub struct CapsModule {
    pub fns: Vec<FnDecl>,
    pub memory_kinds: Vec<String>,
}

/// A primitive of the registry: its qualified name and required caps.
#[derive(Debug)]
pub struct Primitive {
    pub name: String,
    pub caps: Vec<String>,
}

// ---------------------------------------------------------------------------
// The registry
// ---------------------------------------------------------------------------

/// The position after the last `::` that splitting `s` on `::` from the
/// left cuts at, scanning from `i` with the current piece starting at
/// `start`.
pub open spec fn cut_from(s: Seq<char>, i: int, start: int) -> int
    decreases s.len() - i,
{
    if i < 0 || i + 1 >= s.len() {
        start
    } else if s[i] == ':' && s[i + 1] == ':' {
        cut_from(s, i + 2, i + 2)
    } else {
        cut_from(s, i + 1, start)
    }
}

/// The last piece of `s` split on `::` (what `split("::").last()` yields).
pub open spec fn bare(s: Seq<char>) -> Seq<char> {
    s.subrange(cut_from(s, 0, 0), s.len() as int)
}

/// The bit a capability name sets: its canonical bit, or the marker for
/// unknown names.
pub open spec fn bit_of(name: Seq<char>) -> nat {
    match canonical_index(name) {
        Some(i) => i,
        None => other_bit(),
    }
}

/// The capability set that a list of names denotes.
pub open spec fn bits_of(names: Seq<Seq<char>>) -> Set<nat> {
    Set::new(|i: nat| exists|k: int| 0 <= k < names.len() && bit_of(#[trigger] names[k]) == i)
}

/// The capability names of a primitive.
pub open spec fn prim_bits(p: Primitive) -> Set<nat> {
    bits_of(views(p.caps@))
}

/// The registry's table entry for `n`: each primitive is indexed under its
/// bare name (colliding bare names uniting their caps) and then under its
/// qualified name (overriding).
pub open spec fn prim_entry(reg: Seq<Primitive>, n: Seq<char>) -> Option<Set<nat>>
    decreases reg.len(),
{
    if reg.len() == 0 {
        None
    } else {
        let prev = prim_entry(reg.drop_last(), n);
        let e = reg.last();
        if e.name@ == n {
            Some(prim_bits(e))
        } else if bare(e.name@) == n {
            match prev {
                Some(p) => Some(p.union(prim_bits(e))),
                None => Some(prim_bits(e)),
            }
        } else {
            prev
        }
    }
}

/// The last piece of `s` split on `::`.
fn bare_name(s: &str) -> (r: String)
    ensures
        r@ == bare(s@),
{
    let c = chars_vec(s);
    let n = c.len();
    let mut i: usize = 0;
    let mut start: usize = 0;
    while i < n && i + 1 < n
        invariant
            c@ == s@,
            n == c@.len(),
            start <= i,
            i <= n,
            start <= n,
            cut_from(s@, 0, 0) == cut_from(s@, i as int, start as int),
        decreases n - i,
    {
        if c[i] == ':' && c[i + 1] == ':' {
            i = i + 2;
            start = i;
        } else {
            i = i + 1;
        }
    }
    let mut out = String::new();
    let mut k: usize = start;
    while k < n
        invariant
            c@ == s@,
            n == c@.len(),
            start <= k <= n,
            out@ == s@.subrange(start as int, k as int),
        decreases n - k,
    {
        string_push(&mut out, c[k]);
        assert(out@ =~= s@.subrange(start as int, k as int + 1));
        k = k + 1;
    }
    out
}

/// The capability set a list of names denotes.
fn caps_of_names(names: &Vec<String>) -> (r: CapSet)
    ensures
        r@ == bits_of(views(names@)),
{
    let mut acc = CapSet::empty();
    let mut i: usize = 0;
    while i < names.len()
        invariant
            i <= names@.len(),
            acc@ == bits_of(views(names@.subrange(0, i as int))),
        decreases names@.len() - i,
    {
        let one = CapSet::from_name_or_other(names[i].as_str());
        acc = acc.union(one);
        proof {
            let pre = views(names@.subrange(0, i as int + 1));
            let p0 = views(names@.subrange(0, i as int));
            assert(pre =~= p0.push(names@[i as int]@));
            assert forall|b: nat| #[trigger] bits_of(pre).contains(b) == acc@.contains(b) by {
                if bits_of(pre).contains(b) {
                    let k = choose|k: int| 0 <= k < pre.len() && bit_of(#[trigger] pre[k]) == b;
                    if k < p0.len() {
                        assert(pre[k] == p0[k]);
                    }
                }
                if bits_of(p0).contains(b) {
                    let k = choose|k: int| 0 <= k < p0.len() && bit_of(#[trigger] p0[k]) == b;
                    assert(pre[k] == p0[k]);
                }
                if one@.contains(b) {
                    assert(bit_of(pre[i as int]) == b);
                }
            }
            assert(acc@ =~= bits_of(pre));
        }
        i = i + 1;
    }
    assert(names@.subrange(0, i as int) =~= names@);
    acc
}

/// The registry's bare names, one per primitive.
fn bare_names(reg: &Vec<Primitive>) -> (r: Vec<String>)
    ensures
        r@.len() == reg@.len(),
        forall|i: int| 0 <= i < reg@.len() ==> (#[trigger] r@[i])@ == bare(reg@[i].name@),
{
    let mut out: Vec<String> = Vec::new();
    let mut i: usize = 0;
    while i < reg.len()
        invariant
            i <= reg@.len(),
            out@.len() == i,
            forall|j: int| 0 <= j < i ==> (#[trigger] out@[j])@ == bare(reg@[j].name@),
        decreases reg@.len() - i,
    {
        out.push(bare_name(reg[i].name.as_str()));
        i = i + 1;
    }
    out
}

/// The registry's table entry for `n`.
fn prim_lookup(reg: &Vec<Primitive>, bares: &Vec<String>, n: &str) -> (r: Option<CapSet>)
    requires
        bares@.len() == reg@.len(),
        forall|i: int| 0 <= i < reg@.len() ==> (#[trigger] bares@[i])@ == bare(reg@[i].name@),
    ensures
        match (r, prim_entry(reg@, n@)) {
            (Some(c), Some(s)) => c@ == s,
            (None, None) => true,
            _ => false,
        },
{
    let mut acc: Option<CapSet> = None;
    let mut i: usize = 0;
    while i < reg.len()
        invariant
            i <= reg@.len(),
            bares@.len() == reg@.len(),
            forall|j: int| 0 <= j < reg@.len() ==> (#[trigger] bares@[j])@ == bare(reg@[j].name@),
            match (acc, prim_entry(reg@.subrange(0, i as int), n@)) {
                (Some(c), Some(s)) => c@ == s,
                (None, None) => true,
                _ => false,
            },
        decreases reg@.len() - i,
    {
        let e = &reg[i];
        proof {
            let pre = reg@.subrange(0, i as int + 1);
            assert(pre.drop_last() =~= reg@.subrange(0, i as int));
            assert(pre.last() == reg@[i as int]);
        }
        if str_eq(e.name.as_str(), n) {
            acc = Some(caps_of_names(&e.caps));
        } else if str_eq(bares[i].as_str(), n) {
            let c = caps_of_names(&e.caps);
            acc = match acc {
                Some(p) => Some(p.union(c)),
                None => Some(c),
            };
        }
        i = i + 1;
    }
    assert(reg@.subrange(0, i as int) =~= reg@);
    acc
}

// ---------------------------------------------------------------------------
// Functions and their callees
// ---------------------------------------------------------------------------

/// The graph key of a function: `Owner::name` for impl methods, else its
/// bare name.
pub open spec fn fn_key(d: FnDecl) -> Seq<char> {
    match d.owner {
        Some(o) => o@ + "::"@ + d.name@,
        None => d.name@,
    }
}

/// The keys of the module's functions.
pub open spec fn key_set(fns: Seq<FnDecl>) -> Set<Seq<char>> {
    Set::new(|k: Seq<char>| exists|i: int| 0 <= i < fns.len() && fn_key(#[trigger] fns[i]) == k)
}

/// The user function a callee names, if any: a simple name of a function of
/// the module, or the last segment of a path that names no primitive.
pub open spec fn resolved_user(c: Callee, ks: Set<Seq<char>>, reg: Seq<Primitive>) -> Option<Seq<char>> {
    match c {
        Callee::Name(n) => if ks.contains(n@) {
            Some(n@)
        } else {
            None
        },
        Callee::Path(segs) => if prim_entry(reg, join(views(segs@), "::"@)) is Some {
            None
        } else if segs@.len() > 0 && ks.contains(segs@.last()@) {
            Some(segs@.last()@)
        } else {
            None
        },
        Callee::Method(_) => None,
    }
}

/// The primitive a callee names, if any: a simple name that no function of
/// the module takes, the whole path, or else the path's last segment.
pub open spec fn resolved_prim(c: Callee, ks: Set<Seq<char>>, reg: Seq<Primitive>) -> Option<Seq<char>> {
    match c {
        Callee::Name(n) => if !ks.contains(n@) && prim_entry(reg, n@) is Some {
            Some(n@)
        } else {
            None
        },
        Callee::Path(segs) => {
            let q = join(views(segs@), "::"@);
            if prim_entry(reg, q) is Some {
                Some(q)
            } else if segs@.len() > 0 && !ks.contains(segs@.last()@) && prim_entry(
                reg,
                segs@.last()@,
            ) is Some {
                Some(segs@.last()@)
            } else {
                None
            }
        },
        Callee::Method(_) => None,
    }
}

/// The method a callee calls by name, if it is a method call.
pub open spec fn resolved_method(c: Callee) -> Option<Seq<char>> {
    match c {
        Callee::Method(m) => Some(m@),
        _ => None,
    }
}

/// The primitives a function calls.
pub open spec fn callee_prims(d: FnDecl, ks: Set<Seq<char>>, reg: Seq<Primitive>) -> Set<Seq<char>> {
    Set::new(|p: Seq<char>| exists|k: int| 0 <= k < d.callees@.len() && resolved_prim(#[trigger] d.callees@[k], ks, reg) == Some(p))
}

/// The user functions a function calls by name or path.
pub open spec fn callee_users(d: FnDecl, ks: Set<Seq<char>>, reg: Seq<Primitive>) -> Set<Seq<char>> {
    Set::new(|u: Seq<char>| exists|k: int| 0 <= k < d.callees@.len() && resolved_user(#[trigger] d.callees@[k], ks, reg) == Some(u))
}

/// The methods a function calls by name.
pub open spec fn callee_methods(d: FnDecl) -> Set<Seq<char>> {
    Set::new(|m: Seq<char>| exists|k: int| 0 <= k < d.callees@.len() && resolved_method(#[trigger] d.callees@[k]) == Some(m))
}

/// The text of a function's key.
fn key_string(d: &FnDecl) -> (r: String)
    ensures
        r@ == fn_key(*d),
{
    match &d.owner {
        Some(o) => {
            let mut r = o.clone();
            r.append("::");
            r.append(d.name.as_str());
            r
        },
        None => d.name.clone(),
    }
}

/// The module's keys, sorted.
fn sorted_keys(fns: &Vec<FnDecl>) -> (r: Vec<String>)
    ensures
        strictly_sorted(views(r@)),
        views(r@).to_set() == key_set(fns@),
{
    let mut out: Vec<String> = Vec::new();
    let mut i: usize = 0;
    assert(views(out@).to_set() =~= Set::<Seq<char>>::empty());
    while i < fns.len()
        invariant
            i <= fns@.len(),
            strictly_sorted(views(out@)),
            views(out@).to_set() == key_set(fns@.subrange(0, i as int)),
        decreases fns@.len() - i,
    {
        let k = key_string(&fns[i]);
        let ghost kv = k@;
        insert_sorted(&mut out, k);
        proof {
            let pre = fns@.subrange(0, i as int + 1);
            let p0 = fns@.subrange(0, i as int);
            assert forall|x: Seq<char>| #[trigger] key_set(pre).contains(x) == key_set(p0).insert(kv).contains(x) by {
                if key_set(pre).contains(x) {
                    let j = choose|j: int| 0 <= j < pre.len() && fn_key(#[trigger] pre[j]) == x;
                    if j < i {
                        assert(p0[j] == pre[j]);
                    }
                }
                if key_set(p0).contains(x) {
                    let j = choose|j: int| 0 <= j < p0.len() && fn_key(#[trigger] p0[j]) == x;
                    assert(p0[j] == pre[j]);
                }
                if x == kv {
                    assert(pre[i as int] == fns@[i as int]);
                }
            }
            assert(key_set(pre) =~= key_set(p0).insert(kv));
        }
        i = i + 1;
    }
    assert(fns@.subrange(0, i as int) =~= fns@);
    out
}

/// Whether `n` is one of `keys`.
fn has_key(keys: &Vec<String>, n: &str) -> (r: bool)
    ensures
        r == views(keys@).to_set().contains(n@),
{
    match index_of(keys, n) {
        Some(i) => {
            assert(views(keys@)[i as int] == n@);
            true
        },
        None => false,
    }
}

/// The position of `n` among `keys`, if it is there.
fn index_of(keys: &Vec<String>, n: &str) -> (r: Option<usize>)
    ensures
        match r {
            Some(i) => i < keys@.len() && keys@[i as int]@ == n@,
            None => !views(keys@).to_set().contains(n@),
        },
{
    let mut i: usize = 0;
    while i < keys.len()
        invariant
            i <= keys@.len(),
            forall|j: int| 0 <= j < i ==> keys@[j]@ != n@,
        decreases keys@.len() - i,
    {
        if str_eq(keys[i].as_str(), n) {
            return Some(i);
        }
        i = i + 1;
    }
    proof {
        if views(keys@).to_set().contains(n@) {
            let j = choose|j: int| 0 <= j < views(keys@).len() && views(keys@)[j] == n@;
            assert(keys@[j]@ == n@);
        }
    }
    None
}

/// How a callee resolves: its primitive, user function and method.
fn resolve(
    c: &Callee,
    keys: &Vec<String>,
    reg: &Vec<Primitive>,
    bares: &Vec<String>,
) -> (r: (Option<String>, Option<String>, Option<String>))
    requires
        bares@.len() == reg@.len(),
        forall|i: int| 0 <= i < reg@.len() ==> (#[trigger] bares@[i])@ == bare(reg@[i].name@),
    ensures
        ({
            let ks = views(keys@).to_set();
            &&& (match r.0 {
                Some(p) => resolved_prim(*c, ks, reg@) == Some(p@),
                None => resolved_prim(*c, ks, reg@) is None,
            })
            &&& (match r.1 {
                Some(u) => resolved_user(*c, ks, reg@) == Some(u@),
                None => resolved_user(*c, ks, reg@) is None,
            })
            &&& (match r.2 {
                Some(m) => resolved_method(*c) == Some(m@),
                None => resolved_method(*c) is None,
            })
        }),
{
    match c {
        Callee::Name(n) => {
            if has_key(keys, n.as_str()) {
                (None, Some(n.clone()), None)
            } else {
                match prim_lookup(reg, bares, n.as_str()) {
                    Some(_) => (Some(n.clone()), None, None),
                    None => (None, None, None),
                }
            }
        },
        Callee::Path(segs) => {
            let q = crate::coherence::join_strings(segs, "::");
            assert(crate::coherence::seg_views(segs@) =~= views(segs@));
            if prim_lookup(reg, bares, q.as_str()).is_some() {
                return (Some(q), None, None);
            }
            if segs.len() == 0 {
                return (None, None, None);
            }
            let last = &segs[segs.len() - 1];
            if has_key(keys, last.as_str()) {
                (None, Some(last.clone()), None)
            } else if prim_lookup(reg, bares, last.as_str()).is_some() {
                (Some(last.clone()), None, None)
            } else {
                (None, None, None)
            }
        },
        Callee::Method(m) => (None, None, Some(m.clone())),
    }
}

/// What a function calls: its primitives, user functions and methods, each
/// sorted.
fn decl_callees(
    d: &FnDecl,
    keys: &Vec<String>,
    reg: &Vec<Primitive>,
    bares: &Vec<String>,
) -> (r: (Vec<String>, Vec<String>, Vec<String>))
    requires
        bares@.len() == reg@.len(),
        forall|i: int| 0 <= i < reg@.len() ==> (#[trigger] bares@[i])@ == bare(reg@[i].name@),
    ensures
        strictly_sorted(views(r.0@)),
        strictly_sorted(views(r.1@)),
        strictly_sorted(views(r.2@)),
        views(r.0@).to_set() == callee_prims(*d, views(keys@).to_set(), reg@),
        views(r.1@).to_set() == callee_users(*d, views(keys@).to_set(), reg@),
        views(r.2@).to_set() == callee_methods(*d),
{
    let ghost ks = views(keys@).to_set();
    let mut prims: Vec<String> = Vec::new();
    let mut users: Vec<String> = Vec::new();
    let mut methods: Vec<String> = Vec::new();
    assert(views(prims@).to_set() =~= Set::<Seq<char>>::empty());
    let mut i: usize = 0;
    while i < d.callees.len()
        invariant
            i <= d.callees@.len(),
            bares@.len() == reg@.len(),
            forall|j: int| 0 <= j < reg@.len() ==> (#[trigger] bares@[j])@ == bare(reg@[j].name@),
            ks == views(keys@).to_set(),
            strictly_sorted(views(prims@)),
            strictly_sorted(views(users@)),
            strictly_sorted(views(methods@)),
            forall|p: Seq<char>| #[trigger] views(prims@).to_set().contains(p) <==> exists|k: int|
                0 <= k < i && resolved_prim(#[trigger] d.callees@[k], ks, reg@) == Some(p),
            forall|u: Seq<char>| #[trigger] views(users@).to_set().contains(u) <==> exists|k: int|
                0 <= k < i && resolved_user(#[trigger] d.callees@[k], ks, reg@) == Some(u),
            forall|m: Seq<char>| #[trigger] views(methods@).to_set().contains(m) <==> exists|k: int|
                0 <= k < i && resolved_method(#[trigger] d.callees@[k]) == Some(m),
        decreases d.callees@.len() - i,
    {
        let (p, u, m) = resolve(&d.callees[i], keys, reg, bares);
        let ghost c = d.callees@[i as int];
        let ghost pv = views(prims@).to_set();
        let ghost uv = views(users@).to_set();
        let ghost mv = views(methods@).to_set();
        match p {
            Some(x) => insert_sorted(&mut prims, x),
            None => {},
        }
        match u {
            Some(x) => insert_sorted(&mut users, x),
            None => {},
        }
        match m {
            Some(x) => insert_sorted(&mut methods, x),
            None => {},
        }
        proof {
            assert forall|q: Seq<char>| #[trigger] views(prims@).to_set().contains(q) <==> exists|k: int|
                0 <= k < i + 1 && resolved_prim(#[trigger] d.callees@[k], ks, reg@) == Some(q) by {
                if views(prims@).to_set().contains(q) && !pv.contains(q) {
                    assert(resolved_prim(d.callees@[i as int], ks, reg@) == Some(q));
                }
                if exists|k: int| 0 <= k < i + 1 && resolved_prim(#[trigger] d.callees@[k], ks, reg@) == Some(q) {
                    let k = choose|k: int| 0 <= k < i + 1 && resolved_prim(#[trigger] d.callees@[k], ks, reg@) == Some(q);
                    if k < i {
                        assert(pv.contains(q));
                    }
                }
            }
            assert forall|q: Seq<char>| #[trigger] views(users@).to_set().contains(q) <==> exists|k: int|
                0 <= k < i + 1 && resolved_user(#[trigger] d.callees@[k], ks, reg@) == Some(q) by {
                if views(users@).to_set().contains(q) && !uv.contains(q) {
                    assert(resolved_user(d.callees@[i as int], ks, reg@) == Some(q));
                }
                if exists|k: int| 0 <= k < i + 1 && resolved_user(#[trigger] d.callees@[k], ks, reg@) == Some(q) {
                    let k = choose|k: int| 0 <= k < i + 1 && resolved_user(#[trigger] d.callees@[k], ks, reg@) == Some(q);
                    if k < i {
                        assert(uv.contains(q));
                    }
                }
            }
            assert forall|q: Seq<char>| #[trigger] views(methods@).to_set().contains(q) <==> exists|k: int|
                0 <= k < i + 1 && resolved_method(#[trigger] d.callees@[k]) == Some(q) by {
                if views(methods@).to_set().contains(q) && !mv.contains(q) {
                    assert(resolved_method(d.callees@[i as int]) == Some(q));
                }
                if exists|k: int| 0 <= k < i + 1 && resolved_method(#[trigger] d.callees@[k]) == Some(q) {
                    let k = choose|k: int| 0 <= k < i + 1 && resolved_method(#[trigger] d.callees@[k]) == Some(q);
                    if k < i {
                        assert(mv.contains(q));
                    }
                }
            }
        }
        i = i + 1;
    }
    assert(views(prims@).to_set() =~= callee_prims(*d, ks, reg@));
    assert(views(users@).to_set() =~= callee_users(*d, ks, reg@));
    assert(views(methods@).to_set() =~= callee_methods(*d));
    (prims, users, methods)
}

// ---------------------------------------------------------------------------
// The call graph
// ---------------------------------------------------------------------------

/// The index of the last function with key `k`, or -1.
pub open spec fn last_decl(fns: Seq<FnDecl>, k: Seq<char>) -> int
    decreases fns.len(),
{
    if fns.len() == 0 {
        -1
    } else if fn_key(fns.last()) == k {
        fns.len() - 1
    } else {
        last_decl(fns.drop_last(), k)
    }
}

/// The constructor rows of the module's `memory` declarations.
pub open spec fn memory_rows(kinds: Seq<String>) -> Set<Seq<char>> {
    Set::new(|p: Seq<char>| exists|i: int| 0 <= i < kinds.len() && p == "memory::"@ + (#[trigger] kinds[i])@)
}

/// The primitives that function `k` calls (for `main`, also the memory
/// constructor rows).
pub open spec fn node_prims(m: CapsModule, reg: Seq<Primitive>, k: Seq<char>) -> Set<Seq<char>> {
    let fns = m.fns@;
    let ld = last_decl(fns, k);
    if ld < 0 {
        Set::empty()
    } else if k == "main"@ {
        callee_prims(fns[ld], key_set(fns), reg).union(memory_rows(m.memory_kinds@))
    } else {
        callee_prims(fns[ld], key_set(fns), reg)
    }
}

/// The user functions that function `k` calls.
pub open spec fn node_users(m: CapsModule, reg: Seq<Primitive>, k: Seq<char>) -> Set<Seq<char>> {
    let fns = m.fns@;
    let ld = last_decl(fns, k);
    if ld < 0 {
        Set::empty()
    } else {
        callee_users(fns[ld], key_set(fns), reg)
    }
}

/// The methods that function `k` calls by name.
pub open spec fn node_methods(m: CapsModule, k: Seq<char>) -> Set<Seq<char>> {
    let fns = m.fns@;
    let ld = last_decl(fns, k);
    if ld < 0 {
        Set::empty()
    } else {
        callee_methods(fns[ld])
    }
}

/// The capabilities a function's annotation grants (the wildcard aside).
pub open spec fn decl_bits(d: FnDecl) -> Set<nat> {
    match d.caps {
        Some(v) => Set::new(|i: nat| exists|j: int| 0 <= j < v@.len() && (#[trigger] v@[j])@ != "*"@ && bit_of(v@[j]@) == i),
        None => Set::empty(),
    }
}

/// Whether a function's annotation holds the wildcard.
pub open spec fn decl_wild(d: FnDecl) -> bool {
    match d.caps {
        Some(v) => exists|j: int| 0 <= j < v@.len() && (#[trigger] v@[j])@ == "*"@,
        None => false,
    }
}

/// The capabilities function `k` declares (its last declaration's).
pub open spec fn declared_bits(m: CapsModule, k: Seq<char>) -> Set<nat> {
    let ld = last_decl(m.fns@, k);
    if ld < 0 {
        Set::empty()
    } else {
        decl_bits(m.fns@[ld])
    }
}

/// Whether function `k` declares the wildcard.
pub open spec fn wildcard(m: CapsModule, k: Seq<char>) -> bool {
    let ld = last_decl(m.fns@, k);
    ld >= 0 && decl_wild(m.fns@[ld])
}

/// Whether some function with key `k` carries a `@caps(...)` annotation.
pub open spec fn annotated(m: CapsModule, k: Seq<char>) -> bool {
    exists|i: int| 0 <= i < m.fns@.len() && fn_key(#[trigger] m.fns@[i]) == k && m.fns@[i].caps is Some
}

/// The impl methods named `meth`, by key.
pub open spec fn method_targets(fns: Seq<FnDecl>, meth: Seq<char>) -> Set<Seq<char>> {
    Set::new(|t: Seq<char>| exists|i: int| 0 <= i < fns.len() && (#[trigger] fns[i]).owner is Some && fns[i].name@ == meth && fn_key(fns[i]) == t)
}

/// Function `a` calls function `b`: by name or path, or through a method
/// call that `b` (an impl method of that name) may answer.
pub open spec fn calls(m: CapsModule, reg: Seq<Primitive>, a: Seq<char>, b: Seq<char>) -> bool {
    node_users(m, reg, a).contains(b) || exists|meth: Seq<char>| #[trigger] node_methods(m, a).contains(meth) && method_targets(m.fns@, meth).contains(b)
}

/// The capabilities function `k` requires directly, through the primitives
/// it calls.
pub open spec fn direct(m: CapsModule, reg: Seq<Primitive>, k: Seq<char>) -> Set<nat> {
    Set::new(|c: nat| exists|p: Seq<char>| #[trigger] node_prims(m, reg, k).contains(p) && (prim_entry(reg, p) matches Some(s) && s.contains(c)))
}

/// A chain of calls.
pub open spec fn is_call_path(m: CapsModule, reg: Seq<Primitive>, w: Seq<Seq<char>>) -> bool {
    w.len() >= 1 && forall|i: int| 0 <= i < w.len() - 1 ==> calls(m, reg, #[trigger] w[i], w[i + 1])
}

/// Function `a` reaches function `b` through zero or more calls.
pub open spec fn reaches(m: CapsModule, reg: Seq<Primitive>, a: Seq<char>, b: Seq<char>) -> bool {
    exists|w: Seq<Seq<char>>| #[trigger] is_call_path(m, reg, w) && w[0] == a && w.last() == b
}

/// The capabilities function `k` requires transitively: those of every
/// function it reaches.
pub open spec fn transitive(m: CapsModule, reg: Seq<Primitive>, k: Seq<char>) -> Set<nat> {
    Set::new(|c: nat| exists|g: Seq<char>| #[trigger] reaches(m, reg, k, g) && direct(m, reg, g).contains(c))
}

/// One function of the graph, with what it calls and declares.
struct Node {
    prims: Vec<String>,
    users: Vec<String>,
    methods: Vec<String>,
    declared: CapSet,
    wildcard: bool,
    annotated: bool,
}

/// The capabilities an annotation grants, and whether it holds the wildcard.
fn decl_caps(d: &FnDecl) -> (r: (CapSet, bool))
    ensures
        r.0@ == decl_bits(*d),
        r.1 == decl_wild(*d),
{
    proof {
        reveal_strlit("*");
    }
    match &d.caps {
        None => {
            let e = CapSet::empty();
            assert(e@ =~= decl_bits(*d));
            (e, false)
        },
        Some(v) => {
            let mut acc = CapSet::empty();
            let mut wild = false;
            let mut i: usize = 0;
            while i < v.len()
                invariant
                    d.caps == Some(*v),
                    i <= v@.len(),
                    acc@ == Set::new(|b: nat| exists|j: int| 0 <= j < i && (#[trigger] v@[j])@ != "*"@ && bit_of(v@[j]@) == b),
                    wild == exists|j: int| 0 <= j < i && (#[trigger] v@[j])@ == "*"@,
                decreases v@.len() - i,
            {
                let ghost a0 = acc@;
                if str_eq(v[i].as_str(), "*") {
                    wild = true;
                } else {
                    let one = CapSet::from_name_or_other(v[i].as_str());
                    acc = acc.union(one);
                }
                proof {
                    let target = Set::new(|b: nat| exists|j: int| 0 <= j < i + 1 && (#[trigger] v@[j])@ != "*"@ && bit_of(v@[j]@) == b);
                    assert forall|b: nat| #[trigger] target.contains(b) == acc@.contains(b) by {
                        if target.contains(b) {
                            let j = choose|j: int| 0 <= j < i + 1 && (#[trigger] v@[j])@ != "*"@ && bit_of(v@[j]@) == b;
                            if j < i {
                                assert(a0.contains(b));
                            }
                        }
                        if a0.contains(b) {
                            let j = choose|j: int| 0 <= j < i && (#[trigger] v@[j])@ != "*"@ && bit_of(v@[j]@) == b;
                            assert(target.contains(b));
                        }
                        if acc@.contains(b) && !a0.contains(b) {
                            assert(bit_of(v@[i as int]@) == b);
                        }
                    }
                    assert(acc@ =~= target);
                }
                i = i + 1;
            }
            assert(acc@ =~= decl_bits(*d));
            (acc, wild)
        },
    }
}

/// The index of the last function with key `k`, if any.
fn find_last_decl(fns: &Vec<FnDecl>, k: &str) -> (r: Option<usize>)
    ensures
        match r {
            Some(i) => i == last_decl(fns@, k@),
            None => last_decl(fns@, k@) == -1,
        },
        last_decl(fns@, k@) >= -1,
        last_decl(fns@, k@) < fns@.len(),
{
    let mut i: usize = fns.len();
    proof {
        assert(fns@.subrange(0, i as int) =~= fns@);
    }
    while i > 0
        invariant
            i <= fns@.len(),
            last_decl(fns@, k@) == last_decl(fns@.subrange(0, i as int), k@),
        decreases i,
    {
        let key = key_string(&fns[i - 1]);
        proof {
            let pre = fns@.subrange(0, i as int);
            assert(pre.last() == fns@[i - 1]);
            assert(pre.drop_last() =~= fns@.subrange(0, i - 1));
        }
        if str_eq(key.as_str(), k) {
            proof {
                lemma_last_decl_range(fns@, k@);
            }
            return Some(i - 1);
        }
        i = i - 1;
    }
    proof {
        lemma_last_decl_range(fns@, k@);
    }
    None
}

/// `last_decl` is -1 or an index, whose key is `k`.
proof fn lemma_last_decl_range(fns: Seq<FnDecl>, k: Seq<char>)
    ensures
        -1 <= last_decl(fns, k) < fns.len(),
        last_decl(fns, k) >= 0 ==> fn_key(fns[last_decl(fns, k)]) == k,
        last_decl(fns, k) == -1 ==> !key_set(fns).contains(k),
    decreases fns.len(),
{
    if fns.len() > 0 {
        lemma_last_decl_range(fns.drop_last(), k);
        if last_decl(fns, k) == -1 && key_set(fns).contains(k) {
            let i = choose|i: int| 0 <= i < fns.len() && fn_key(#[trigger] fns[i]) == k;
            assert(fns.drop_last()[i] == fns[i]);
            assert(key_set(fns.drop_last()).contains(k));
        }
        if last_decl(fns, k) >= 0 && last_decl(fns, k) < fns.len() - 1 {
            assert(fns.drop_last()[last_decl(fns, k)] == fns[last_decl(fns, k)]);
        }
    }
}

/// Whether some function with key `k` is annotated.
fn any_annotated(fns: &Vec<FnDecl>, k: &str) -> (r: bool)
    ensures
        r == exists|i: int| 0 <= i < fns@.len() && fn_key(#[trigger] fns@[i]) == k@ && fns@[i].caps is Some,
{
    let mut i: usize = 0;
    while i < fns.len()
        invariant
            i <= fns@.len(),
            forall|j: int| 0 <= j < i ==> !(fn_key(#[trigger] fns@[j]) == k@ && fns@[j].caps is Some),
        decreases fns@.len() - i,
    {
        if fns[i].caps.is_some() {
            let key = key_string(&fns[i]);
            if str_eq(key.as_str(), k) {
                return true;
            }
        }
        i = i + 1;
    }
    false
}

/// The node of function `k`.
fn build_node(
    m: &CapsModule,
    reg: &Vec<Primitive>,
    bares: &Vec<String>,
    keys: &Vec<String>,
    k: &str,
) -> (r: Node)
    requires
        bares@.len() == reg@.len(),
        forall|i: int| 0 <= i < reg@.len() ==> (#[trigger] bares@[i])@ == bare(reg@[i].name@),
        views(keys@).to_set() == key_set(m.fns@),
    ensures
        strictly_sorted(views(r.prims@)),
        strictly_sorted(views(r.users@)),
        strictly_sorted(views(r.methods@)),
        views(r.prims@).to_set() == node_prims(*m, reg@, k@),
        views(r.users@).to_set() == node_users(*m, reg@, k@),
        views(r.methods@).to_set() == node_methods(*m, k@),
        r.declared@ == declared_bits(*m, k@),
        r.wildcard == wildcard(*m, k@),
        r.annotated == annotated(*m, k@),
{
    proof {
        reveal_strlit("main");
        reveal_strlit("memory::");
    }
    let annotated = any_annotated(&m.fns, k);
    match find_last_decl(&m.fns, k) {
        None => {
            let n = Node {
                prims: Vec::new(),
                users: Vec::new(),
                methods: Vec::new(),
                declared: CapSet::empty(),
                wildcard: false,
                annotated,
            };
            assert(views(n.prims@).to_set() =~= Set::<Seq<char>>::empty());
            assert(views(n.users@).to_set() =~= Set::<Seq<char>>::empty());
            assert(views(n.methods@).to_set() =~= Set::<Seq<char>>::empty());
            n
        },
        Some(ld) => {
            let d = &m.fns[ld];
            let (mut prims, users, methods) = decl_callees(d, keys, reg, bares);
            let (declared, wildcard) = decl_caps(d);
            if str_eq(k, "main") {
                let ghost base = views(prims@).to_set();
                let mut i: usize = 0;
                while i < m.memory_kinds.len()
                    invariant
                        i <= m.memory_kinds@.len(),
                        strictly_sorted(views(prims@)),
                        views(prims@).to_set() == base.union(memory_rows(m.memory_kinds@.subrange(0, i as int))),
                    decreases m.memory_kinds@.len() - i,
                {
                    let mut row = String::new();
                    row.append("memory::");
                    row.append(m.memory_kinds[i].as_str());
                    let ghost rv = row@;
                    insert_sorted(&mut prims, row);
                    proof {
                        let pre = m.memory_kinds@.subrange(0, i as int + 1);
                        let p0 = m.memory_kinds@.subrange(0, i as int);
                        assert forall|q: Seq<char>| #[trigger] memory_rows(pre).contains(q) == memory_rows(p0).insert(rv).contains(q) by {
                            if memory_rows(pre).contains(q) {
                                let j = choose|j: int| 0 <= j < pre.len() && q == "memory::"@ + (#[trigger] pre[j])@;
                                if j < i {
                                    assert(pre[j] == p0[j]);
                                }
                            }
                            if memory_rows(p0).contains(q) {
                                let j = choose|j: int| 0 <= j < p0.len() && q == "memory::"@ + (#[trigger] p0[j])@;
                                assert(pre[j] == p0[j]);
                            }
                            if q == rv {
                                assert(pre[i as int] == m.memory_kinds@[i as int]);
                            }
                        }
                        assert(memory_rows(pre) =~= memory_rows(p0).insert(rv));
                        assert(base.union(memory_rows(pre)) =~= base.union(memory_rows(p0)).insert(rv));
                    }
                    i = i + 1;
                }
                assert(m.memory_kinds@.subrange(0, i as int) =~= m.memory_kinds@);
            } else {
                assert(memory_rows(m.memory_kinds@.subrange(0, 0)) =~= Set::<Seq<char>>::empty());
            }
            Node { prims, users, methods, declared, wildcard, annotated }
        },
    }
}

/// The elements of a strictly sorted sequence are distinct.
proof fn lemma_sorted_distinct(s: Seq<Seq<char>>, i: int, j: int)
    requires
        strictly_sorted(s),
        0 <= i < s.len(),
        0 <= j < s.len(),
        i != j,
    ensures
        s[i] != s[j],
{
    if i < j {
        assert(crate::order::seq_lt(s[i], s[j]));
        crate::order::lemma_lt_irreflexive(s[i]);
    } else {
        assert(crate::order::seq_lt(s[j], s[i]));
        crate::order::lemma_lt_irreflexive(s[j]);
    }
}

/// The users a function calls are functions of the module.
proof fn lemma_users_are_keys(d: FnDecl, ks: Set<Seq<char>>, reg: Seq<Primitive>, u: Seq<char>)
    requires
        callee_users(d, ks, reg).contains(u),
    ensures
        ks.contains(u),
{
    let k = choose|k: int| 0 <= k < d.callees@.len() && resolved_user(#[trigger] d.callees@[k], ks, reg) == Some(u);
}

/// The impl methods named `meth`, sorted.
fn targets_of(fns: &Vec<FnDecl>, meth: &str) -> (r: Vec<String>)
    ensures
        strictly_sorted(views(r@)),
        views(r@).to_set() == method_targets(fns@, meth@),
{
    let mut out: Vec<String> = Vec::new();
    assert(views(out@).to_set() =~= Set::<Seq<char>>::empty());
    let mut i: usize = 0;
    while i < fns.len()
        invariant
            i <= fns@.len(),
            strictly_sorted(views(out@)),
            forall|t: Seq<char>| #[trigger] views(out@).to_set().contains(t) <==> exists|j: int|
                0 <= j < i && (#[trigger] fns@[j]).owner is Some && fns@[j].name@ == meth@ && fn_key(fns@[j]) == t,
        decreases fns@.len() - i,
    {
        let ghost before = views(out@).to_set();
        if fns[i].owner.is_some() && str_eq(fns[i].name.as_str(), meth) {
            let k = key_string(&fns[i]);
            insert_sorted(&mut out, k);
        }
        proof {
            assert forall|t: Seq<char>| #[trigger] views(out@).to_set().contains(t) <==> exists|j: int|
                0 <= j < i + 1 && (#[trigger] fns@[j]).owner is Some && fns@[j].name@ == meth@ && fn_key(fns@[j]) == t by {
                if views(out@).to_set().contains(t) && !before.contains(t) {
                    assert(fns@[i as int].owner is Some && fns@[i as int].name@ == meth@ && fn_key(fns@[i as int]) == t);
                }
            }
        }
        i = i + 1;
    }
    assert(views(out@).to_set() =~= method_targets(fns@, meth@));
    out
}

/// One of the first `i` names is `x`.
spec fn named_upto(v: Seq<String>, i: int, x: Seq<char>) -> bool {
    exists|j: int| 0 <= j < i && (#[trigger] v[j])@ == x
}

/// One of the first `i` methods has `x` among its impl targets.
spec fn targeted_upto(fns: Seq<FnDecl>, methods: Seq<String>, i: int, x: Seq<char>) -> bool {
    exists|j: int| 0 <= j < i && method_targets(fns, (#[trigger] methods[j])@).contains(x)
}

/// The edges out of one node, in call order (users by name, then each
/// method's impl targets), each labelled with the method it goes through.
fn node_edges(
    fns: &Vec<FnDecl>,
    keys: &Vec<String>,
    users: &Vec<String>,
    methods: &Vec<String>,
) -> (r: (Vec<usize>, Vec<Option<String>>))
    requires
        strictly_sorted(views(keys@)),
        views(keys@).to_set() == key_set(fns@),
        views(users@).to_set().subset_of(views(keys@).to_set()),
    ensures
        r.0@.len() == r.1@.len(),
        forall|t: int| 0 <= t < r.0@.len() ==> (#[trigger] r.0@[t]) < keys@.len(),
        forall|b: int| #![trigger keys@[b]] 0 <= b < keys@.len() ==> (r.0@.contains(b as usize) <==> (views(users@).to_set().contains(keys@[b]@)
            || exists|meth: Seq<char>| #[trigger] views(methods@).to_set().contains(meth) && method_targets(fns@, meth).contains(keys@[b]@))),
        forall|t: int| 0 <= t < r.0@.len() ==> match #[trigger] r.1@[t] {
            None => views(users@).to_set().contains(keys@[r.0@[t] as int]@),
            Some(mm) => views(methods@).to_set().contains(mm@) && method_targets(fns@, mm@).contains(keys@[r.0@[t] as int]@),
        },
{
    let nk = keys.len();
    let mut adj: Vec<usize> = Vec::new();
    let mut labels: Vec<Option<String>> = Vec::new();
    let mut i: usize = 0;
    while i < users.len()
        invariant
            nk == keys@.len(),
            i <= users@.len(),
            strictly_sorted(views(keys@)),
            views(users@).to_set().subset_of(views(keys@).to_set()),
            adj@.len() == labels@.len(),
            forall|t: int| 0 <= t < adj@.len() ==> (#[trigger] adj@[t]) < keys@.len(),
            forall|b: int| #![trigger keys@[b]] 0 <= b < keys@.len() ==> (adj@.contains(b as usize) <==> named_upto(users@, i as int, keys@[b]@)),
            forall|t: int| 0 <= t < adj@.len() ==> (#[trigger] labels@[t]) is None && views(users@).to_set().contains(keys@[adj@[t] as int]@),
        decreases users@.len() - i,
    {
        assert(views(users@).to_set().contains(views(users@)[i as int]));
        let b = match index_of(keys, users[i].as_str()) {
            Some(b) => b,
            None => {
                assert(false);
                0
            },
        };
        let ghost a0 = adj@;
        adj.push(b);
        labels.push(None);
        proof {
            assert forall|c: int| #![trigger keys@[c]] 0 <= c < keys@.len() implies (adj@.contains(c as usize) <==> named_upto(users@, i + 1, keys@[c]@)) by {
                if adj@.contains(c as usize) {
                    let t = choose|t: int| 0 <= t < adj@.len() && adj@[t] == c as usize;
                    if t < a0.len() {
                        assert(a0[t] == c as usize);
                        assert(a0.contains(c as usize));
                    } else {
                        assert(adj@[a0.len() as int] == b);
                        assert(c == b as int);
                        assert(users@[i as int]@ == keys@[c]@);
                    }
                }
                if named_upto(users@, i + 1, keys@[c]@) {
                    let j = choose|j: int| 0 <= j < i + 1 && (#[trigger] users@[j])@ == keys@[c]@;
                    if j < i {
                        let t = choose|t: int| 0 <= t < a0.len() && a0[t] == c as usize;
                        assert(adj@[t] == c as usize);
                    } else {
                        if b as int != c {
                            lemma_sorted_distinct(views(keys@), b as int, c);
                        }
                        assert(adj@[a0.len() as int] == c as usize);
                    }
                }
            }
            assert forall|t: int| 0 <= t < adj@.len() implies (#[trigger] labels@[t]) is None && views(users@).to_set().contains(keys@[adj@[t] as int]@) by {
                if t == a0.len() {
                    assert(views(users@)[i as int] == keys@[b as int]@);
                }
            }
        }
        i = i + 1;
    }
    let ghost n_users = adj@.len();
    let mut mi: usize = 0;
    assert forall|b: int| #![trigger keys@[b]] 0 <= b < keys@.len() implies (adj@.contains(b as usize) <==> named_upto(users@, users@.len() as int, keys@[b]@)
        || targeted_upto(fns@, methods@, mi as int, keys@[b]@)) by {
        assert(i == users@.len());
        if adj@.contains(b as usize) {
            let j = choose|j: int| 0 <= j < i && (#[trigger] users@[j])@ == keys@[b]@;
            assert(0 <= j < users@.len() && users@[j]@ == keys@[b]@);
        }
        if exists|j: int| 0 <= j < users@.len() && (#[trigger] users@[j])@ == keys@[b]@ {
            let j = choose|j: int| 0 <= j < users@.len() && (#[trigger] users@[j])@ == keys@[b]@;
            assert(0 <= j < i);
        }
    }
    while mi < methods.len()
        invariant
            nk == keys@.len(),
            i == users@.len(),
            mi <= methods@.len(),
            strictly_sorted(views(keys@)),
            views(keys@).to_set() == key_set(fns@),
            adj@.len() == labels@.len(),
            n_users <= adj@.len(),
            forall|t: int| 0 <= t < adj@.len() ==> (#[trigger] adj@[t]) < keys@.len(),
            forall|b: int| #![trigger keys@[b]] 0 <= b < keys@.len() ==> (adj@.contains(b as usize) <==> named_upto(users@, users@.len() as int, keys@[b]@)
                || targeted_upto(fns@, methods@, mi as int, keys@[b]@)),
            forall|t: int| 0 <= t < adj@.len() ==> match #[trigger] labels@[t] {
                None => views(users@).to_set().contains(keys@[adj@[t] as int]@),
                Some(mm) => views(methods@).to_set().contains(mm@) && method_targets(fns@, mm@).contains(keys@[adj@[t] as int]@),
            },
        decreases methods@.len() - mi,
    {
        let targets = targets_of(fns, methods[mi].as_str());
        let ghost mv = methods@[mi as int]@;
        let ghost a1 = adj@;
        let mut ti: usize = 0;
        while ti < targets.len()
            invariant
                nk == keys@.len(),
                i == users@.len(),
                mi < methods@.len(),
                mv == methods@[mi as int]@,
                ti <= targets@.len(),
                strictly_sorted(views(keys@)),
                views(keys@).to_set() == key_set(fns@),
                views(targets@).to_set() == method_targets(fns@, mv),
                adj@.len() == labels@.len(),
                a1.len() <= adj@.len(),
                adj@.subrange(0, a1.len() as int) == a1,
                forall|t: int| 0 <= t < adj@.len() ==> (#[trigger] adj@[t]) < keys@.len(),
                forall|b: int| #![trigger keys@[b]] 0 <= b < keys@.len() ==> (adj@.contains(b as usize) <==> (a1.contains(b as usize)
                    || named_upto(targets@, ti as int, keys@[b]@))),
                forall|t: int| 0 <= t < adj@.len() ==> match #[trigger] labels@[t] {
                    None => views(users@).to_set().contains(keys@[adj@[t] as int]@),
                    Some(mm) => views(methods@).to_set().contains(mm@) && method_targets(fns@, mm@).contains(keys@[adj@[t] as int]@),
                },
            decreases targets@.len() - ti,
        {
            assert(views(targets@).to_set().contains(views(targets@)[ti as int]));
            let ghost tv = targets@[ti as int]@;
            let b = match index_of(keys, targets[ti].as_str()) {
                Some(b) => b,
                None => {
                    proof {
                        let j = choose|j: int| 0 <= j < fns@.len() && (#[trigger] fns@[j]).owner is Some && fns@[j].name@ == mv && fn_key(fns@[j]) == tv;
                        assert(key_set(fns@).contains(tv));
                    }
                    assert(false);
                    0
                },
            };
            let ghost a2 = adj@;
            adj.push(b);
            labels.push(Some(methods[mi].clone()));
            proof {
                assert(adj@.subrange(0, a1.len() as int) =~= a1) by {
                    assert(a2.subrange(0, a1.len() as int) == a1);
                }
                assert(views(methods@).to_set().contains(views(methods@)[mi as int]));
                assert forall|c: int| #![trigger keys@[c]] 0 <= c < keys@.len() implies (adj@.contains(c as usize) <==> (a1.contains(c as usize)
                    || named_upto(targets@, ti + 1, keys@[c]@))) by {
                    if adj@.contains(c as usize) {
                        let t = choose|t: int| 0 <= t < adj@.len() && adj@[t] == c as usize;
                        if t < a2.len() {
                            assert(a2[t] == c as usize);
                            assert(a2.contains(c as usize));
                        } else {
                            assert(adj@[a2.len() as int] == b);
                            assert(c == b as int);
                            assert(targets@[ti as int]@ == keys@[c]@);
                        }
                    }
                    if a1.contains(c as usize) {
                        let t = choose|t: int| 0 <= t < a1.len() && a1[t] == c as usize;
                        assert(adj@[t] == a1[t]);
                    }
                    if named_upto(targets@, ti + 1, keys@[c]@) {
                        let j = choose|j: int| 0 <= j < ti + 1 && (#[trigger] targets@[j])@ == keys@[c]@;
                        if j < ti {
                            if a1.contains(c as usize) {
                            } else {
                                let t = choose|t: int| 0 <= t < a2.len() && a2[t] == c as usize;
                                assert(adj@[t] == c as usize);
                            }
                        } else {
                            if b as int != c {
                                lemma_sorted_distinct(views(keys@), b as int, c);
                            }
                            assert(adj@[a2.len() as int] == c as usize);
                        }
                    }
                }
                assert forall|t: int| 0 <= t < adj@.len() implies match #[trigger] labels@[t] {
                    None => views(users@).to_set().contains(keys@[adj@[t] as int]@),
                    Some(mm) => views(methods@).to_set().contains(mm@) && method_targets(fns@, mm@).contains(keys@[adj@[t] as int]@),
                } by {
                    if t == a2.len() {
                        assert(views(targets@).to_set().contains(keys@[b as int]@));
                    }
                }
            }
            ti = ti + 1;
        }
        proof {
            assert forall|c: int| #![trigger keys@[c]] 0 <= c < keys@.len() implies (adj@.contains(c as usize) <==> named_upto(users@, users@.len() as int, keys@[c]@)
                || targeted_upto(fns@, methods@, mi + 1, keys@[c]@)) by {
                if targeted_upto(fns@, methods@, mi + 1, keys@[c]@) {
                    let j = choose|j: int| 0 <= j < mi + 1 && method_targets(fns@, (#[trigger] methods@[j])@).contains(keys@[c]@);
                    if j == mi {
                        assert(views(targets@).to_set().contains(keys@[c]@));
                        let q = choose|q: int| 0 <= q < views(targets@).len() && views(targets@)[q] == keys@[c]@;
                        assert(targets@[q]@ == keys@[c]@);
                    }
                }
                if adj@.contains(c as usize) && !a1.contains(c as usize) {
                    let j = choose|j: int| 0 <= j < ti && (#[trigger] targets@[j])@ == keys@[c]@;
                    assert(views(targets@)[j] == targets@[j]@);
                    assert(views(targets@).to_set().contains(keys@[c]@));
                    assert(method_targets(fns@, methods@[mi as int]@).contains(keys@[c]@));
                }
            }
        }
        mi = mi + 1;
    }
    proof {
        assert forall|b: int| #![trigger keys@[b]] 0 <= b < keys@.len() implies (adj@.contains(b as usize) <==> (views(users@).to_set().contains(keys@[b]@)
            || exists|meth: Seq<char>| #[trigger] views(methods@).to_set().contains(meth) && method_targets(fns@, meth).contains(keys@[b]@))) by {
            if views(users@).to_set().contains(keys@[b]@) {
                let j = choose|j: int| 0 <= j < views(users@).len() && views(users@)[j] == keys@[b]@;
                assert(users@[j]@ == keys@[b]@);
            }
            if exists|j: int| 0 <= j < users@.len() && (#[trigger] users@[j])@ == keys@[b]@ {
                let j = choose|j: int| 0 <= j < users@.len() && (#[trigger] users@[j])@ == keys@[b]@;
                assert(views(users@)[j] == keys@[b]@);
            }
            if exists|meth: Seq<char>| #[trigger] views(methods@).to_set().contains(meth) && method_targets(fns@, meth).contains(keys@[b]@) {
                let meth = choose|meth: Seq<char>| #[trigger] views(methods@).to_set().contains(meth) && method_targets(fns@, meth).contains(keys@[b]@);
                let j = choose|j: int| 0 <= j < views(methods@).len() && views(methods@)[j] == meth;
                assert(methods@[j]@ == meth);
            }
            if exists|j: int| 0 <= j < methods@.len() && method_targets(fns@, (#[trigger] methods@[j])@).contains(keys@[b]@) {
                let j = choose|j: int| 0 <= j < methods@.len() && method_targets(fns@, (#[trigger] methods@[j])@).contains(keys@[b]@);
                assert(views(methods@)[j] == methods@[j]@);
                assert(views(methods@).to_set().contains(methods@[j]@));
            }
        }
    }
    (adj, labels)
}

// ---------------------------------------------------------------------------
// Reachability over node indices
// ---------------------------------------------------------------------------

/// An edge `a -> b` of an adjacency list.
pub open spec fn step(adj: Seq<Vec<usize>>, a: usize, b: usize) -> bool {
    (a as int) < adj.len() && adj[a as int]@.contains(b)
}

/// A walk along edges.
pub open spec fn is_walk(adj: Seq<Vec<usize>>, w: Seq<usize>) -> bool {
    w.len() >= 1 && forall|k: int| 0 <= k < w.len() - 1 ==> step(adj, #[trigger] w[k], w[k + 1])
}

/// `b` can be reached from `a` by a walk.
pub open spec fn walks_to(adj: Seq<Vec<usize>>, a: usize, b: usize) -> bool {
    exists|w: Seq<usize>| #[trigger] is_walk(adj, w) && w[0] == a && w.last() == b
}

/// Every entry of every adjacency list names a node.
pub open spec fn adj_in_range(adj: Seq<Vec<usize>>) -> bool {
    forall|a: int, t: int| 0 <= a < adj.len() && 0 <= t < adj[a]@.len() ==> (#[trigger] adj[a]@[t] as int) < adj.len()
}

/// The number of `true` entries.
spec fn count_true(s: Seq<bool>) -> nat
    decreases s.len(),
{
    if s.len() == 0 {
        0
    } else {
        count_true(s.drop_last()) + if s.last() { 1nat } else { 0nat }
    }
}

proof fn lemma_count_true_bound(s: Seq<bool>)
    ensures
        count_true(s) <= s.len(),
    decreases s.len(),
{
    if s.len() > 0 {
        lemma_count_true_bound(s.drop_last());
    }
}

proof fn lemma_count_true_set(s: Seq<bool>, j: int)
    requires
        0 <= j < s.len(),
        !s[j],
    ensures
        count_true(s.update(j, true)) == count_true(s) + 1,
    decreases s.len(),
{
    let u = s.update(j, true);
    if j == s.len() - 1 {
        assert(u.drop_last() =~= s.drop_last());
    } else {
        lemma_count_true_set(s.drop_last(), j);
        assert(u.drop_last() =~= s.drop_last().update(j, true));
    }
}

/// A set of nodes holding the start of a walk and closed under edges holds
/// its end.
proof fn lemma_closed_walk(adj: Seq<Vec<usize>>, seen: Seq<bool>, w: Seq<usize>)
    requires
        is_walk(adj, w),
        seen.len() == adj.len(),
        adj_in_range(adj),
        (w[0] as int) < seen.len(),
        seen[w[0] as int],
        forall|a: int, e: int| 0 <= a < adj.len() && seen[a] && 0 <= e < adj[a]@.len() ==> seen[#[trigger] adj[a]@[e] as int],
    ensures
        (w.last() as int) < seen.len(),
        seen[w.last() as int],
    decreases w.len(),
{
    if w.len() > 1 {
        let v = w.drop_last();
        assert forall|k: int| 0 <= k < v.len() - 1 implies step(adj, #[trigger] v[k], v[k + 1]) by {
            assert(step(adj, w[k], w[k + 1]));
        }
        lemma_closed_walk(adj, seen, v);
        let a = v.last();
        assert(step(adj, w[w.len() - 2], w[w.len() - 1]));
        let e = choose|e: int| 0 <= e < adj[a as int]@.len() && adj[a as int]@[e] == w.last();
        assert(seen[adj[a as int]@[e] as int]);
    }
}

/// A breadth-first search from one node: the nodes reached, in visit order,
/// each with the node and edge it was first reached through.
struct Search {
    seen: Vec<bool>,
    order: Vec<usize>,
    rank: Vec<usize>,
    parent: Vec<usize>,
    edge: Vec<usize>,
}

/// The search's facts: what it reached is exactly what walks reach, and the
/// parent links lead back to the start in ever-smaller ranks.
spec fn search_ok(adj: Seq<Vec<usize>>, src: usize, r: Search) -> bool {
    let n = adj.len();
    &&& r.seen@.len() == n
    &&& r.rank@.len() == n
    &&& r.parent@.len() == n
    &&& r.edge@.len() == n
    &&& (src as int) < n
    &&& r.order@.len() >= 1
    &&& r.order@[0] == src
    &&& forall|j: int| 0 <= j < n ==> (r.seen@[j] <==> walks_to(adj, src, j as usize))
    &&& forall|t: int| 0 <= t < r.order@.len() ==> (#[trigger] r.order@[t] as int) < n && r.seen@[r.order@[t] as int] && r.rank@[r.order@[t] as int] as int == t
    &&& forall|j: int| 0 <= j < n && #[trigger] r.seen@[j] ==> (r.rank@[j] as int) < r.order@.len() && r.order@[r.rank@[j] as int] as int == j
    &&& forall|j: int| 0 <= j < n && #[trigger] r.seen@[j] && j != src ==> {
        let p = r.parent@[j] as int;
        &&& 0 <= p < n
        &&& r.seen@[p]
        &&& r.rank@[p] < r.rank@[j]
        &&& (r.edge@[j] as int) < adj[p]@.len()
        &&& adj[p]@[r.edge@[j] as int] as int == j
    }
}

/// Breadth-first search from `src`.
fn search(adj: &Vec<Vec<usize>>, src: usize) -> (r: Search)
    requires
        (src as int) < adj@.len(),
        adj_in_range(adj@),
    ensures
        search_ok(adj@, src, r),
{
    let n = adj.len();
    let mut seen: Vec<bool> = Vec::new();
    let mut rank: Vec<usize> = Vec::new();
    let mut parent: Vec<usize> = Vec::new();
    let mut edge: Vec<usize> = Vec::new();
    let mut k: usize = 0;
    while k < n
        invariant
            n == adj@.len(),
            k <= n,
            seen@.len() == k,
            rank@.len() == k,
            parent@.len() == k,
            edge@.len() == k,
            forall|j: int| 0 <= j < k ==> !(#[trigger] seen@[j]),
        decreases n - k,
    {
        seen.push(false);
        rank.push(0);
        parent.push(0);
        edge.push(0);
        k = k + 1;
    }
    proof {
        assert(count_true(seen@) == 0) by {
            let z = seen@;
            assert forall|m: int| 0 <= m <= z.len() implies count_true(#[trigger] z.subrange(0, m)) == 0 by {
                lemma_count_prefix_zero(z, m);
            }
            assert(z.subrange(0, z.len() as int) =~= z);
        }
        lemma_count_true_set(seen@, src as int);
        let w = seq![src];
        assert(is_walk(adj@, w));
    }
    seen.set(src, true);
    rank.set(src, 0);
    let mut order: Vec<usize> = Vec::new();
    order.push(src);
    let mut head: usize = 0;
    while head < order.len()
        invariant
            n == adj@.len(),
            adj_in_range(adj@),
            (src as int) < n,
            seen@.len() == n,
            rank@.len() == n,
            parent@.len() == n,
            edge@.len() == n,
            head <= order@.len(),
            order@.len() == count_true(seen@),
            order@.len() >= 1,
            order@[0] == src,
            seen@[src as int],
            forall|t: int| 0 <= t < order@.len() ==> (#[trigger] order@[t] as int) < n && seen@[order@[t] as int] && rank@[order@[t] as int] as int == t,
            forall|j: int| 0 <= j < n && #[trigger] seen@[j] ==> (rank@[j] as int) < order@.len() && order@[rank@[j] as int] as int == j,
            forall|j: int| 0 <= j < n && #[trigger] seen@[j] && j != src ==> {
                let p = parent@[j] as int;
                &&& 0 <= p < n
                &&& seen@[p]
                &&& rank@[p] < rank@[j]
                &&& (edge@[j] as int) < adj@[p]@.len()
                &&& adj@[p]@[edge@[j] as int] as int == j
            },
            forall|t: int, e: int| 0 <= t < head && 0 <= e < adj@[order@[t] as int]@.len() ==> seen@[#[trigger] adj@[order@[t] as int]@[e] as int],
            forall|j: int| 0 <= j < n && #[trigger] seen@[j] ==> walks_to(adj@, src, j as usize),
        decreases n - head,
    {
        proof {
            lemma_count_true_bound(seen@);
        }
        let cur = order[head];
        let mut e: usize = 0;
        while e < adj[cur].len()
            invariant
                n == adj@.len(),
                adj_in_range(adj@),
                (src as int) < n,
                (cur as int) < n,
                head < order@.len(),
                order@[head as int] == cur,
                seen@.len() == n,
                rank@.len() == n,
                parent@.len() == n,
                edge@.len() == n,
                order@.len() == count_true(seen@),
                order@.len() >= 1,
                order@[0] == src,
                seen@[src as int],
                seen@[cur as int],
                rank@[cur as int] == head,
                e <= adj@[cur as int]@.len(),
                forall|t: int| 0 <= t < order@.len() ==> (#[trigger] order@[t] as int) < n && seen@[order@[t] as int] && rank@[order@[t] as int] as int == t,
                forall|j: int| 0 <= j < n && #[trigger] seen@[j] ==> (rank@[j] as int) < order@.len() && order@[rank@[j] as int] as int == j,
                forall|j: int| 0 <= j < n && #[trigger] seen@[j] && j != src ==> {
                    let p = parent@[j] as int;
                    &&& 0 <= p < n
                    &&& seen@[p]
                    &&& rank@[p] < rank@[j]
                    &&& (edge@[j] as int) < adj@[p]@.len()
                    &&& adj@[p]@[edge@[j] as int] as int == j
                },
                forall|t: int, f: int| 0 <= t < head && 0 <= f < adj@[order@[t] as int]@.len() ==> seen@[#[trigger] adj@[order@[t] as int]@[f] as int],
                forall|f: int| 0 <= f < e ==> seen@[#[trigger] adj@[cur as int]@[f] as int],
                forall|j: int| 0 <= j < n && #[trigger] seen@[j] ==> walks_to(adj@, src, j as usize),
            decreases adj@[cur as int]@.len() - e,
        {
            let b = adj[cur][e];
            assert((b as int) < n);
            if !seen[b] {
                proof {
                    lemma_count_true_set(seen@, b as int);
                    lemma_count_true_bound(seen@.update(b as int, true));
                    let w = choose|w: Seq<usize>| #[trigger] is_walk(adj@, w) && w[0] == src && w.last() == cur;
                    let w2 = w.push(b);
                    assert forall|k: int| 0 <= k < w2.len() - 1 implies step(adj@, #[trigger] w2[k], w2[k + 1]) by {
                        if k < w.len() - 1 {
                            assert(step(adj@, w[k], w[k + 1]));
                        } else {
                            assert(adj@[cur as int]@[e as int] == b);
                        }
                    }
                    assert(is_walk(adj@, w2));
                }
                let ghost s0 = seen@;
                let ghost r0 = rank@;
                let ghost o0 = order@;
                seen.set(b, true);
                rank.set(b, order.len());
                parent.set(b, cur);
                edge.set(b, e);
                order.push(b);
                proof {
                    assert forall|t: int| 0 <= t < order@.len() implies (#[trigger] order@[t] as int) < n && seen@[order@[t] as int] && rank@[order@[t] as int] as int == t by {
                        if t < o0.len() {
                            assert(o0[t] == order@[t]);
                            assert(order@[t] != b);
                        }
                    }
                }
            }
            e = e + 1;
        }
        head = head + 1;
    }
    proof {
        assert forall|j: int| 0 <= j < n implies (seen@[j] <==> walks_to(adj@, src, j as usize)) by {
            if walks_to(adj@, src, j as usize) {
                let w = choose|w: Seq<usize>| #[trigger] is_walk(adj@, w) && w[0] == src && w.last() == j as usize;
                assert forall|a: int, f: int| 0 <= a < adj@.len() && seen@[a] && 0 <= f < adj@[a]@.len() implies seen@[#[trigger] adj@[a]@[f] as int] by {
                    let t = rank@[a] as int;
                    assert(order@[t] as int == a);
                }
                lemma_closed_walk(adj@, seen@, w);
            }
        }
    }
    Search { seen, order, rank, parent, edge }
}

/// A prefix of all-`false` entries counts zero.
proof fn lemma_count_prefix_zero(z: Seq<bool>, m: int)
    requires
        0 <= m <= z.len(),
        forall|j: int| 0 <= j < z.len() ==> !(#[trigger] z[j]),
    ensures
        count_true(z.subrange(0, m)) == 0,
    decreases m,
{
    if m > 0 {
        lemma_count_prefix_zero(z, m - 1);
        assert(z.subrange(0, m).drop_last() =~= z.subrange(0, m - 1));
    }
}

// ---------------------------------------------------------------------------
// The assembled graph
// ---------------------------------------------------------------------------

/// The call graph over the module's sorted keys.
struct Graph {
    keys: Vec<String>,
    nodes: Vec<Node>,
    adj: Vec<Vec<usize>>,
    labels: Vec<Vec<Option<String>>>,
    direct: Vec<CapSet>,
    bares: Vec<String>,
}

/// The graph is that of the module under the registry.
spec fn graph_ok(m: CapsModule, reg: Seq<Primitive>, g: Graph) -> bool {
    let keys = g.keys@;
    let n = keys.len();
    &&& strictly_sorted(views(keys))
    &&& views(keys).to_set() == key_set(m.fns@)
    &&& g.nodes@.len() == n
    &&& g.adj@.len() == n
    &&& g.labels@.len() == n
    &&& g.direct@.len() == n
    &&& g.bares@.len() == reg.len()
    &&& forall|i: int| 0 <= i < reg.len() ==> (#[trigger] g.bares@[i])@ == bare(reg[i].name@)
    &&& adj_in_range(g.adj@)
    &&& forall|i: int| 0 <= i < n ==> {
        let nd = #[trigger] g.nodes@[i];
        let k = keys[i]@;
        &&& strictly_sorted(views(nd.prims@))
        &&& views(nd.prims@).to_set() == node_prims(m, reg, k)
        &&& nd.declared@ == declared_bits(m, k)
        &&& nd.wildcard == wildcard(m, k)
        &&& nd.annotated == annotated(m, k)
        &&& g.direct@[i]@ == direct(m, reg, k)
        &&& g.labels@[i]@.len() == g.adj@[i]@.len()
    }
    &&& forall|a: int, b: int| 0 <= a < n && 0 <= b < n ==> (step(g.adj@, a as usize, b as usize) <==> calls(m, reg, #[trigger] keys[a]@, #[trigger] keys[b]@))
    &&& forall|a: int, t: int| 0 <= a < n && 0 <= t < g.adj@[a]@.len() ==> match #[trigger] g.labels@[a]@[t] {
        None => node_users(m, reg, keys[a]@).contains(keys[g.adj@[a]@[t] as int]@),
        Some(mm) => node_methods(m, keys[a]@).contains(mm@) && method_targets(m.fns@, mm@).contains(keys[g.adj@[a]@[t] as int]@),
    }
}

/// The capabilities function `k` requires directly.
fn direct_caps(reg: &Vec<Primitive>, bares: &Vec<String>, prims: &Vec<String>, Ghost(want): Ghost<Set<Seq<char>>>) -> (r: CapSet)
    requires
        bares@.len() == reg@.len(),
        forall|i: int| 0 <= i < reg@.len() ==> (#[trigger] bares@[i])@ == bare(reg@[i].name@),
        views(prims@).to_set() == want,
    ensures
        r@ == Set::new(|c: nat| exists|p: Seq<char>| #[trigger] want.contains(p) && (prim_entry(reg@, p) matches Some(s) && s.contains(c))),
{
    let mut acc = CapSet::empty();
    let mut i: usize = 0;
    while i < prims.len()
        invariant
            i <= prims@.len(),
            bares@.len() == reg@.len(),
            forall|j: int| 0 <= j < reg@.len() ==> (#[trigger] bares@[j])@ == bare(reg@[j].name@),
            acc@ == Set::new(|c: nat| exists|j: int| 0 <= j < i && (prim_entry(reg@, (#[trigger] prims@[j])@) matches Some(s) && s.contains(c))),
        decreases prims@.len() - i,
    {
        let ghost a0 = acc@;
        match prim_lookup(reg, bares, prims[i].as_str()) {
            Some(c) => {
                acc = acc.union(c);
            },
            None => {},
        }
        proof {
            let target = Set::new(|c: nat| exists|j: int| 0 <= j < i + 1 && (prim_entry(reg@, (#[trigger] prims@[j])@) matches Some(s) && s.contains(c)));
            assert forall|c: nat| #[trigger] target.contains(c) == acc@.contains(c) by {
                if target.contains(c) {
                    let j = choose|j: int| 0 <= j < i + 1 && (prim_entry(reg@, (#[trigger] prims@[j])@) matches Some(s) && s.contains(c));
                    if j < i {
                        assert(a0.contains(c));
                    }
                }
                if a0.contains(c) {
                    let j = choose|j: int| 0 <= j < i && (prim_entry(reg@, (#[trigger] prims@[j])@) matches Some(s) && s.contains(c));
                    assert(target.contains(c));
                }
            }
            assert(acc@ =~= target);
        }
        i = i + 1;
    }
    proof {
        let goal = Set::new(|c: nat| exists|p: Seq<char>| #[trigger] want.contains(p) && (prim_entry(reg@, p) matches Some(s) && s.contains(c)));
        assert forall|c: nat| #[trigger] goal.contains(c) == acc@.contains(c) by {
            if goal.contains(c) {
                let p = choose|p: Seq<char>| #[trigger] want.contains(p) && (prim_entry(reg@, p) matches Some(s) && s.contains(c));
                let j = choose|j: int| 0 <= j < views(prims@).len() && views(prims@)[j] == p;
                assert(prims@[j]@ == p);
            }
            if acc@.contains(c) {
                let j = choose|j: int| 0 <= j < i && (prim_entry(reg@, (#[trigger] prims@[j])@) matches Some(s) && s.contains(c));
                assert(views(prims@)[j] == prims@[j]@);
                assert(want.contains(prims@[j]@));
            }
        }
        assert(acc@ =~= goal);
    }
    acc
}

/// Builds the call graph of the module.
fn build_graph(m: &CapsModule, reg: &Vec<Primitive>) -> (g: Graph)
    ensures
        graph_ok(*m, reg@, g),
{
    let bares = bare_names(reg);
    let keys = sorted_keys(&m.fns);
    let n = keys.len();
    let mut nodes: Vec<Node> = Vec::new();
    let mut adj: Vec<Vec<usize>> = Vec::new();
    let mut labels: Vec<Vec<Option<String>>> = Vec::new();
    let mut dirs: Vec<CapSet> = Vec::new();
    let mut i: usize = 0;
    while i < n
        invariant
            n == keys@.len(),
            i <= n,
            strictly_sorted(views(keys@)),
            views(keys@).to_set() == key_set(m.fns@),
            bares@.len() == reg@.len(),
            forall|j: int| 0 <= j < reg@.len() ==> (#[trigger] bares@[j])@ == bare(reg@[j].name@),
            nodes@.len() == i,
            adj@.len() == i,
            labels@.len() == i,
            dirs@.len() == i,
            forall|a: int, t: int| 0 <= a < i && 0 <= t < adj@[a]@.len() ==> (#[trigger] adj@[a]@[t] as int) < n,
            forall|j: int| 0 <= j < i ==> {
                let nd = #[trigger] nodes@[j];
                let k = keys@[j]@;
                &&& strictly_sorted(views(nd.prims@))
                &&& views(nd.prims@).to_set() == node_prims(*m, reg@, k)
                &&& nd.declared@ == declared_bits(*m, k)
                &&& nd.wildcard == wildcard(*m, k)
                &&& nd.annotated == annotated(*m, k)
                &&& dirs@[j]@ == direct(*m, reg@, k)
                &&& labels@[j]@.len() == adj@[j]@.len()
            },
            forall|a: int, b: int| 0 <= a < i && 0 <= b < n ==> (step(adj@, a as usize, b as usize) <==> calls(*m, reg@, #[trigger] keys@[a]@, #[trigger] keys@[b]@)),
            forall|a: int, t: int| 0 <= a < i && 0 <= t < adj@[a]@.len() ==> match #[trigger] labels@[a]@[t] {
                None => node_users(*m, reg@, keys@[a]@).contains(keys@[adj@[a]@[t] as int]@),
                Some(mm) => node_methods(*m, keys@[a]@).contains(mm@) && method_targets(m.fns@, mm@).contains(keys@[adj@[a]@[t] as int]@),
            },
        decreases n - i,
    {
        let nd = build_node(m, reg, &bares, &keys, keys[i].as_str());
        proof {
            let ld = last_decl(m.fns@, keys@[i as int]@);
            if ld >= 0 {
                assert forall|u: Seq<char>| views(nd.users@).to_set().contains(u) implies views(keys@).to_set().contains(u) by {
                    lemma_users_are_keys(m.fns@[ld], key_set(m.fns@), reg@, u);
                }
            }
            assert(views(nd.users@).to_set().subset_of(views(keys@).to_set()));
        }
        let (out, lab) = node_edges(&m.fns, &keys, &nd.users, &nd.methods);
        let dc = direct_caps(reg, &bares, &nd.prims, Ghost(node_prims(*m, reg@, keys@[i as int]@)));
        proof {
            assert(dc@ =~= direct(*m, reg@, keys@[i as int]@));
        }
        let ghost a0 = adj@;
        let ghost l0 = labels@;
        let ghost n0 = nodes@;
        let ghost d0 = dirs@;
        nodes.push(nd);
        adj.push(out);
        labels.push(lab);
        dirs.push(dc);
        proof {
            assert forall|a: int, t: int| 0 <= a < i + 1 && 0 <= t < adj@[a]@.len() implies (#[trigger] adj@[a]@[t] as int) < n by {
                if a < i {
                    assert(adj@[a] == a0[a]);
                }
            }
            assert forall|j: int| 0 <= j < i + 1 implies {
                let nd = #[trigger] nodes@[j];
                let k = keys@[j]@;
                &&& strictly_sorted(views(nd.prims@))
                &&& views(nd.prims@).to_set() == node_prims(*m, reg@, k)
                &&& nd.declared@ == declared_bits(*m, k)
                &&& nd.wildcard == wildcard(*m, k)
                &&& nd.annotated == annotated(*m, k)
                &&& dirs@[j]@ == direct(*m, reg@, k)
                &&& labels@[j]@.len() == adj@[j]@.len()
            } by {
                if j < i {
                    assert(nodes@[j] == n0[j]);
                    assert(dirs@[j] == d0[j]);
                    assert(labels@[j] == l0[j]);
                    assert(adj@[j] == a0[j]);
                }
            }
            assert forall|a: int, b: int| 0 <= a < i + 1 && 0 <= b < n implies (step(adj@, a as usize, b as usize) <==> calls(*m, reg@, #[trigger] keys@[a]@, #[trigger] keys@[b]@)) by {
                if a < i {
                    assert(adj@[a] == a0[a]);
                    assert(step(a0, a as usize, b as usize) <==> calls(*m, reg@, keys@[a]@, keys@[b]@));
                } else {
                    let k = keys@[a]@;
                    if calls(*m, reg@, k, keys@[b]@) {
                        if node_users(*m, reg@, k).contains(keys@[b]@) {
                        } else {
                            let meth = choose|meth: Seq<char>| #[trigger] node_methods(*m, k).contains(meth) && method_targets(m.fns@, meth).contains(keys@[b]@);
                            assert(views(nd.methods@).to_set().contains(meth));
                        }
                    }
                }
            }
            assert forall|a: int, t: int| 0 <= a < i + 1 && 0 <= t < adj@[a]@.len() implies match #[trigger] labels@[a]@[t] {
                None => node_users(*m, reg@, keys@[a]@).contains(keys@[adj@[a]@[t] as int]@),
                Some(mm) => node_methods(*m, keys@[a]@).contains(mm@) && method_targets(m.fns@, mm@).contains(keys@[adj@[a]@[t] as int]@),
            } by {
                if a < i {
                    assert(adj@[a] == a0[a]);
                    assert(labels@[a] == l0[a]);
                }
            }
        }
        i = i + 1;
    }
    Graph { keys, nodes, adj, labels, direct: dirs, bares }
}

/// The key a call path's function has among the sorted keys.
spec fn key_index(keys: Seq<String>, x: Seq<char>) -> int {
    choose|b: int| 0 <= b < keys.len() && keys[b]@ == x
}

/// What a function calls is a function of the module.
proof fn lemma_callee_is_key(m: CapsModule, reg: Seq<Primitive>, a: Seq<char>, b: Seq<char>)
    requires
        calls(m, reg, a, b),
    ensures
        key_set(m.fns@).contains(b),
{
    let ld = last_decl(m.fns@, a);
    if node_users(m, reg, a).contains(b) {
        lemma_users_are_keys(m.fns@[ld], key_set(m.fns@), reg, b);
    } else {
        let meth = choose|meth: Seq<char>| #[trigger] node_methods(m, a).contains(meth) && method_targets(m.fns@, meth).contains(b);
        let i = choose|i: int| 0 <= i < m.fns@.len() && (#[trigger] m.fns@[i]).owner is Some && m.fns@[i].name@ == meth && fn_key(m.fns@[i]) == b;
    }
}

/// A walk over indices is a call path over keys, and back.
proof fn lemma_walks_are_paths(m: CapsModule, reg: Seq<Primitive>, g: Graph, a: int, b: int)
    requires
        graph_ok(m, reg, g),
        0 <= a < g.keys@.len(),
        0 <= b < g.keys@.len(),
    ensures
        walks_to(g.adj@, a as usize, b as usize) <==> reaches(m, reg, g.keys@[a]@, g.keys@[b]@),
{
    let keys = g.keys@;
    let n = keys.len();
    assert(g.keys@.len() == g.keys.len());
    assert((a as usize) as int == a && (b as usize) as int == b);
    if walks_to(g.adj@, a as usize, b as usize) {
        let w = choose|w: Seq<usize>| #[trigger] is_walk(g.adj@, w) && w[0] == a as usize && w.last() == b as usize;
        assert forall|k: int| 0 <= k < w.len() implies (#[trigger] w[k] as int) < n by {
            if k > 0 {
                assert(step(g.adj@, w[k - 1], w[k]));
                let t = choose|t: int| 0 <= t < g.adj@[w[k - 1] as int]@.len() && #[trigger] g.adj@[w[k - 1] as int]@[t] == w[k];
                assert((g.adj@[w[k - 1] as int]@[t] as int) < n);
            }
        }
        let kw = Seq::new(w.len(), |k: int| keys[w[k] as int]@);
        assert forall|k: int| 0 <= k < kw.len() - 1 implies calls(m, reg, #[trigger] kw[k], kw[k + 1]) by {
            assert(step(g.adj@, w[k], w[k + 1]));
            assert((w[k] as int) < n && (w[k + 1] as int) < n);
            assert(step(g.adj@, (w[k] as int) as usize, (w[k + 1] as int) as usize));
        }
        assert(is_call_path(m, reg, kw));
        assert(kw[0] == keys[a]@);
        assert(kw.last() == keys[b]@);
    }
    if reaches(m, reg, keys[a]@, keys[b]@) {
        let kw = choose|kw: Seq<Seq<char>>| #[trigger] is_call_path(m, reg, kw) && kw[0] == keys[a]@ && kw.last() == keys[b]@;
        assert forall|k: int| 0 <= k < kw.len() implies #[trigger] key_set(m.fns@).contains(kw[k]) by {
            if k == 0 {
                assert(views(keys)[a] == keys[a]@);
            } else {
                assert(calls(m, reg, kw[k - 1], kw[k]));
                lemma_callee_is_key(m, reg, kw[k - 1], kw[k]);
            }
        }
        assert forall|k: int| 0 <= k < kw.len() implies {
            let x = key_index(keys, kw[k]);
            0 <= x < n && #[trigger] keys[key_index(keys, kw[k])]@ == kw[k]
        } by {
            assert(views(keys).to_set().contains(kw[k]));
            let j = choose|j: int| 0 <= j < views(keys).len() && views(keys)[j] == kw[k];
            assert(keys[j]@ == kw[k]);
        }
        let w = Seq::new(kw.len(), |k: int| key_index(keys, kw[k]) as usize);
        assert forall|k: int| 0 <= k < w.len() - 1 implies step(g.adj@, #[trigger] w[k], w[k + 1]) by {
            let x = key_index(keys, kw[k]);
            let y = key_index(keys, kw[k + 1]);
            assert(keys[x]@ == kw[k]);
            assert(keys[y]@ == kw[k + 1]);
            assert(calls(m, reg, kw[k], kw[k + 1]));
            assert(calls(m, reg, keys[x]@, keys[y]@));
        }
        assert(keys[key_index(keys, kw[0])]@ == keys[a]@);
        if key_index(keys, kw[0]) != a {
            lemma_sorted_distinct(views(keys), key_index(keys, kw[0]), a);
        }
        let last = kw.len() - 1;
        assert(keys[key_index(keys, kw[last])]@ == keys[b]@);
        if key_index(keys, kw[last]) != b {
            lemma_sorted_distinct(views(keys), key_index(keys, kw[last]), b);
        }
        assert(is_walk(g.adj@, w));
    }
}

// ---------------------------------------------------------------------------
// The report
// ---------------------------------------------------------------------------

/// A function's declared capabilities miss one that it transitively needs.
#[derive(Debug, PartialEq, Eq)]
pub struct CapsViolation {
    /// The function missing the capability declaration.
    pub fn_name: String,
    /// The capability its `@caps(...)` does not cover.
    pub missing: String,
    /// The primitive that needs it, by qualified name, followed by the
    /// calls that reach that primitive: `fs::write_file (via b → a)`.
    pub via: String,
}

/// The propagation's report.
#[derive(Debug)]
pub struct CapsReport {
    pub violations: Vec<CapsViolation>,
    /// Each function's transitive capabilities, by key in sorted order.
    pub transitive: Vec<(String, CapSet)>,
}

/// Whether function `k`'s coverage is checked: not under the wildcard, and
/// annotated (`main` always is).
pub open spec fn checked(m: CapsModule, k: Seq<char>) -> bool {
    !wildcard(m, k) && (annotated(m, k) || k == "main"@)
}

/// The capability names function `k` misses, in lexicographic order.
pub open spec fn missing_names(m: CapsModule, reg: Seq<Primitive>, k: Seq<char>) -> Seq<Seq<char>> {
    cap_names(transitive(m, reg, k).difference(declared_bits(m, k)))
}

/// The `(function, missing capability)` pairs over the keys `ks`, in order.
pub open spec fn expected_pairs(m: CapsModule, reg: Seq<Primitive>, ks: Seq<Seq<char>>) -> Seq<(Seq<char>, Seq<char>)>
    decreases ks.len(),
{
    if ks.len() == 0 {
        Seq::empty()
    } else {
        let k = ks.last();
        let here = if checked(m, k) {
            missing_names(m, reg, k).map_values(|nm: Seq<char>| (k, nm))
        } else {
            Seq::empty()
        };
        expected_pairs(m, reg, ks.drop_last()) + here
    }
}

/// The qualified name to report for primitive `p` needing capability `c`:
/// the first registry entry under `p` (by qualified or bare name) that
/// requires `c`.
pub open spec fn qualify(reg: Seq<Primitive>, p: Seq<char>, c: nat) -> Seq<char>
    decreases reg.len(),
{
    if reg.len() == 0 {
        p
    } else if (reg[0].name@ == p || bare(reg[0].name@) == p) && prim_bits(reg[0]).contains(c) {
        reg[0].name@
    } else {
        qualify(reg.drop_first(), p, c)
    }
}

/// One hop of a `via` path: the callee's key, or `.m() → Owner::m` for a
/// call through method `m`.
pub open spec fn hop_ok(m: CapsModule, reg: Seq<Primitive>, a: Seq<char>, b: Seq<char>, hop: Seq<char>) -> bool {
    (node_users(m, reg, a).contains(b) && hop == b) || exists|meth: Seq<char>| #[trigger] node_methods(m, a).contains(meth)
        && method_targets(m.fns@, meth).contains(b) && hop == "."@ + meth + "() → "@ + b
}

/// The hops as shown: a path of more than six hops keeps its first three
/// and last three around an ellipsis.
pub open spec fn shown_hops(hops: Seq<Seq<char>>) -> Seq<Seq<char>> {
    if hops.len() > 6 {
        hops.subrange(0, 3) + seq!["…"@] + hops.subrange(hops.len() - 3, hops.len() as int)
    } else {
        hops
    }
}

/// The text of a `via`: the primitive, then the hops if there are any.
pub open spec fn render_via(q: Seq<char>, hops: Seq<Seq<char>>) -> Seq<char> {
    if hops.len() == 0 {
        q
    } else {
        q + " (via "@ + join(shown_hops(hops), " → "@) + ")"@
    }
}

/// The hops as shown.
fn shorten_hops(hops: Vec<String>) -> (r: Vec<String>)
    ensures
        views(r@) == shown_hops(views(hops@)),
{
    let n = hops.len();
    if n <= 6 {
        return hops;
    }
    let mut out: Vec<String> = Vec::new();
    out.push(hops[0].clone());
    out.push(hops[1].clone());
    out.push(hops[2].clone());
    out.push("…".to_owned());
    out.push(hops[n - 3].clone());
    out.push(hops[n - 2].clone());
    out.push(hops[n - 1].clone());
    let ghost h = views(hops@);
    assert(views(out@) =~= h.subrange(0, 3) + seq!["…"@] + h.subrange(h.len() - 3, h.len() as int));
    out
}

/// `via` names a primitive needing capability `c` that function `k` reaches,
/// with the calls that lead to it.
pub open spec fn via_ok(m: CapsModule, reg: Seq<Primitive>, k: Seq<char>, c: nat, via: Seq<char>) -> bool {
    exists|w: Seq<Seq<char>>, hops: Seq<Seq<char>>, p: Seq<char>|
        #[trigger] is_call_path(m, reg, w) && w[0] == k && #[trigger] node_prims(m, reg, w.last()).contains(p)
        && (prim_entry(reg, p) matches Some(s) && s.contains(c))
        && hops.len() == w.len() - 1
        && (forall|h: int| 0 <= h < hops.len() ==> hop_ok(m, reg, w[h], w[h + 1], #[trigger] hops[h]))
        && via == #[trigger] render_via(qualify(reg, p, c), hops)
}

/// The transitive capabilities of node `i`.
fn transitive_at(Ghost(m): Ghost<CapsModule>, Ghost(reg): Ghost<Seq<Primitive>>, g: &Graph, i: usize) -> (r: CapSet)
    requires
        graph_ok(m, reg, *g),
        (i as int) < g.keys@.len(),
    ensures
        r@ == transitive(m, reg, g.keys@[i as int]@),
{
    let sr = search(&g.adj, i);
    let n = g.keys.len();
    let mut acc = CapSet::empty();
    let mut j: usize = 0;
    while j < n
        invariant
            n == g.keys@.len(),
            graph_ok(m, reg, *g),
            search_ok(g.adj@, i, sr),
            j <= n,
            acc@ == Set::new(|c: nat| exists|x: int| 0 <= x < j && #[trigger] sr.seen@[x] && g.direct@[x]@.contains(c)),
        decreases n - j,
    {
        let ghost a0 = acc@;
        if sr.seen[j] {
            acc = acc.union(g.direct[j]);
        }
        proof {
            let target = Set::new(|c: nat| exists|x: int| 0 <= x < j + 1 && #[trigger] sr.seen@[x] && g.direct@[x]@.contains(c));
            assert forall|c: nat| #[trigger] target.contains(c) == acc@.contains(c) by {
                if target.contains(c) {
                    let x = choose|x: int| 0 <= x < j + 1 && #[trigger] sr.seen@[x] && g.direct@[x]@.contains(c);
                    if x < j {
                        assert(a0.contains(c));
                    }
                }
                if a0.contains(c) {
                    let x = choose|x: int| 0 <= x < j && #[trigger] sr.seen@[x] && g.direct@[x]@.contains(c);
                    assert(target.contains(c));
                }
            }
            assert(acc@ =~= target);
        }
        j = j + 1;
    }
    proof {
        let keys = g.keys@;
        let goal = transitive(m, reg, keys[i as int]@);
        assert forall|c: nat| #[trigger] goal.contains(c) == acc@.contains(c) by {
            if goal.contains(c) {
                let gk = choose|gk: Seq<char>| #[trigger] reaches(m, reg, keys[i as int]@, gk) && direct(m, reg, gk).contains(c);
                let kw = choose|kw: Seq<Seq<char>>| #[trigger] is_call_path(m, reg, kw) && kw[0] == keys[i as int]@ && kw.last() == gk;
                if kw.len() > 1 {
                    assert(calls(m, reg, kw[kw.len() - 2], kw[kw.len() - 1]));
                    lemma_callee_is_key(m, reg, kw[kw.len() - 2], kw[kw.len() - 1]);
                    assert(views(keys).to_set().contains(gk));
                } else {
                    assert(views(keys)[i as int] == gk);
                }
                let x = choose|x: int| 0 <= x < views(keys).len() && views(keys)[x] == gk;
                assert(keys[x]@ == gk);
                lemma_walks_are_paths(m, reg, *g, i as int, x);
                assert(g.nodes@[x].prims@.len() >= 0);
                assert(sr.seen@[x]);
            }
            if acc@.contains(c) {
                let x = choose|x: int| 0 <= x < n && #[trigger] sr.seen@[x] && g.direct@[x]@.contains(c);
                lemma_walks_are_paths(m, reg, *g, i as int, x);
                assert(g.nodes@[x].prims@.len() >= 0);
                assert(reaches(m, reg, keys[i as int]@, keys[x]@));
            }
        }
        assert(acc@ =~= goal);
    }
    acc
}

/// The qualified name to report for primitive `p` needing capability `name`.
fn qualified_name(reg: &Vec<Primitive>, bares: &Vec<String>, p: &str, name: &str) -> (r: String)
    requires
        bares@.len() == reg@.len(),
        forall|i: int| 0 <= i < reg@.len() ==> (#[trigger] bares@[i])@ == bare(reg@[i].name@),
        canonical_index(name@) is Some,
    ensures
        r@ == qualify(reg@, p@, canonical_index(name@)->0),
{
    let ghost c = canonical_index(name@)->0;
    let mut t: usize = 0;
    assert(reg@.subrange(0, reg@.len() as int) =~= reg@);
    while t < reg.len()
        invariant
            t <= reg@.len(),
            bares@.len() == reg@.len(),
            forall|i: int| 0 <= i < reg@.len() ==> (#[trigger] bares@[i])@ == bare(reg@[i].name@),
            canonical_index(name@) == Some(c),
            qualify(reg@, p@, c) == qualify(reg@.subrange(t as int, reg@.len() as int), p@, c),
        decreases reg@.len() - t,
    {
        proof {
            let rest = reg@.subrange(t as int, reg@.len() as int);
            assert(rest[0] == reg@[t as int]);
            assert(rest.drop_first() =~= reg@.subrange(t as int + 1, reg@.len() as int));
        }
        let e = &reg[t];
        if (str_eq(e.name.as_str(), p) || str_eq(bares[t].as_str(), p)) && caps_of_names(&e.caps).contains(name) {
            return e.name.clone();
        }
        t = t + 1;
    }
    assert(reg@.subrange(t as int, reg@.len() as int) =~= Seq::<Primitive>::empty());
    p.to_owned()
}

/// The text of one hop: the callee's key, or `.m() → key` through method `m`.
fn hop_text(label: &Option<String>, key: &String) -> (r: String)
    ensures
        r@ == match label {
            None => key@,
            Some(mm) => "."@ + mm@ + "() → "@ + key@,
        },
{
    match label {
        None => key.clone(),
        Some(mm) => {
            let mut r = String::new();
            r.append(".");
            r.append(mm.as_str());
            r.append("() → ");
            r.append(key.as_str());
            r
        },
    }
}

/// The `via` of function `i` missing capability `name`: the first function
/// in breadth-first order from `i` that needs it directly, its first
/// primitive needing it, and the calls that lead there.
fn find_via(m: &CapsModule, reg: &Vec<Primitive>, g: &Graph, i: usize, name: &str) -> (r: String)
    requires
        graph_ok(*m, reg@, *g),
        (i as int) < g.keys@.len(),
        canonical_index(name@) matches Some(c) && transitive(*m, reg@, g.keys@[i as int]@).contains(c),
    ensures
        via_ok(*m, reg@, g.keys@[i as int]@, canonical_index(name@)->0, r@),
{
    let ghost c = canonical_index(name@)->0;
    let ghost keys = g.keys@;
    let n = g.keys.len();
    let sr = search(&g.adj, i);
    let mut t: usize = 0;
    let mut found: Option<usize> = None;
    while t < sr.order.len() && found.is_none()
        invariant
            n == keys.len(),
            keys == g.keys@,
            graph_ok(*m, reg@, *g),
            search_ok(g.adj@, i, sr),
            canonical_index(name@) == Some(c),
            t <= sr.order@.len(),
            match found {
                Some(j) => (j as int) < n && sr.seen@[j as int] && g.direct@[j as int]@.contains(c),
                None => forall|u: int| 0 <= u < t ==> !g.direct@[#[trigger] sr.order@[u] as int]@.contains(c),
            },
        decreases sr.order@.len() - t,
    {
        let j = sr.order[t];
        if g.direct[j].contains(name) {
            found = Some(j);
        }
        t = t + 1;
    }
    let j = match found {
        Some(j) => j,
        None => {
            proof {
                let gk = choose|gk: Seq<char>| #[trigger] reaches(*m, reg@, keys[i as int]@, gk) && direct(*m, reg@, gk).contains(c);
                let kw = choose|kw: Seq<Seq<char>>| #[trigger] is_call_path(*m, reg@, kw) && kw[0] == keys[i as int]@ && kw.last() == gk;
                if kw.len() > 1 {
                    assert(calls(*m, reg@, kw[kw.len() - 2], kw[kw.len() - 1]));
                    lemma_callee_is_key(*m, reg@, kw[kw.len() - 2], kw[kw.len() - 1]);
                    assert(views(keys).to_set().contains(gk));
                } else {
                    assert(views(keys)[i as int] == gk);
                }
                let x = choose|x: int| 0 <= x < views(keys).len() && views(keys)[x] == gk;
                assert(keys[x]@ == gk);
                lemma_walks_are_paths(*m, reg@, *g, i as int, x);
                assert(g.nodes@[x].prims@.len() >= 0);
                assert(sr.seen@[x]);
                let u = sr.rank@[x] as int;
                assert(sr.order@[u] as int == x);
            }
            assert(false);
            return String::new();
        },
    };
    // The first primitive of `j` that needs the capability.
    let nd = &g.nodes[j];
    let mut q: usize = 0;
    let mut prim: Option<usize> = None;
    assert(g.nodes@[j as int].prims@.len() >= 0);
    while q < nd.prims.len() && prim.is_none()
        invariant
            nd == g.nodes@[j as int],
            (j as int) < n,
            n == keys.len(),
            graph_ok(*m, reg@, *g),
            canonical_index(name@) == Some(c),
            q <= nd.prims@.len(),
            match prim {
                Some(x) => (x as int) < nd.prims@.len() && (prim_entry(reg@, nd.prims@[x as int]@) matches Some(s) && s.contains(c)),
                None => forall|u: int| 0 <= u < q ==> !(prim_entry(reg@, (#[trigger] nd.prims@[u])@) matches Some(s) && s.contains(c)),
            },
        decreases nd.prims@.len() - q,
    {
        match prim_lookup(reg, &g.bares, nd.prims[q].as_str()) {
            Some(cs) => {
                if cs.contains(name) {
                    prim = Some(q);
                }
            },
            None => {},
        }
        q = q + 1;
    }
    let x = match prim {
        Some(x) => x,
        None => {
            proof {
                assert(direct(*m, reg@, keys[j as int]@).contains(c));
                let pp = choose|pp: Seq<char>| #[trigger] node_prims(*m, reg@, keys[j as int]@).contains(pp) && (prim_entry(reg@, pp) matches Some(s) && s.contains(c));
                let u = choose|u: int| 0 <= u < views(nd.prims@).len() && views(nd.prims@)[u] == pp;
                assert(nd.prims@[u]@ == pp);
            }
            assert(false);
            return String::new();
        },
    };
    let qual = qualified_name(reg, &g.bares, nd.prims[x].as_str(), name);
    // Walk the parent links back to `i`.
    let mut cur = j;
    let mut hops: Vec<String> = Vec::new();
    let ghost mut ws: Seq<usize> = seq![j];
    proof {
        assert(is_walk(g.adj@, ws));
    }
    while cur != i
        invariant
            n == keys.len(),
            keys == g.keys@,
            graph_ok(*m, reg@, *g),
            search_ok(g.adj@, i, sr),
            (cur as int) < n,
            sr.seen@[cur as int],
            is_walk(g.adj@, ws),
            ws[0] == cur,
            ws.last() == j,
            forall|h: int| 0 <= h < ws.len() ==> (#[trigger] ws[h] as int) < n,
            hops@.len() == ws.len() - 1,
            forall|h: int| 0 <= h < hops@.len() ==> hop_ok(*m, reg@, keys[ws[h] as int]@, keys[ws[h + 1] as int]@, (#[trigger] hops@[h])@),
        decreases sr.rank@[cur as int],
    {
        let px = sr.parent[cur];
        let ex = sr.edge[cur];
        assert(g.nodes@[px as int].prims@.len() >= 0);
        assert(g.labels@[px as int]@.len() == g.adj@[px as int]@.len());
        let label = hop_text(&g.labels[px][ex], &g.keys[cur]);
        let ghost h0 = hops@;
        let ghost w0 = ws;
        hops.insert(0, label);
        proof {
            ws = seq![px].add(w0);
            assert(g.adj@[px as int]@[ex as int] == cur);
            assert(step(g.adj@, px, cur));
            assert forall|k: int| 0 <= k < ws.len() - 1 implies step(g.adj@, #[trigger] ws[k], ws[k + 1]) by {
                if k > 0 {
                    assert(ws[k] == w0[k - 1] && ws[k + 1] == w0[k]);
                    assert(step(g.adj@, w0[k - 1], w0[k]));
                }
            }
            assert forall|h: int| 0 <= h < ws.len() implies (#[trigger] ws[h] as int) < n by {
                if h > 0 {
                    assert(ws[h] == w0[h - 1]);
                }
            }
            assert forall|h: int| 0 <= h < hops@.len() implies hop_ok(*m, reg@, keys[ws[h] as int]@, keys[ws[h + 1] as int]@, (#[trigger] hops@[h])@) by {
                if h > 0 {
                    assert(hops@[h] == h0[h - 1]);
                    assert(ws[h] == w0[h - 1] && ws[h + 1] == w0[h]);
                } else {
                    let lab = g.labels@[px as int]@[ex as int];
                    match lab {
                        None => {},
                        Some(mm) => {
                            assert(node_methods(*m, keys[px as int]@).contains(mm@));
                        },
                    }
                }
            }
        }
        cur = px;
    }
    let ghost hops_v = hops@;
    let via = if hops.len() == 0 {
        qual
    } else {
        let shown = shorten_hops(hops);
        let joined = crate::coherence::join_strings(&shown, " → ");
        proof {
            assert(crate::coherence::seg_views(shown@) =~= views(shown@));
        }
        let mut v = qual;
        v.append(" (via ");
        v.append(joined.as_str());
        v.append(")");
        v
    };
    proof {
        let kw = Seq::new(ws.len(), |h: int| keys[ws[h] as int]@);
        assert forall|h: int| 0 <= h < kw.len() - 1 implies calls(*m, reg@, #[trigger] kw[h], kw[h + 1]) by {
            assert(step(g.adj@, ws[h], ws[h + 1]));
            assert(step(g.adj@, (ws[h] as int) as usize, (ws[h + 1] as int) as usize));
        }
        assert(is_call_path(*m, reg@, kw));
        let hv = views(hops_v);
        assert forall|h: int| 0 <= h < hv.len() implies hop_ok(*m, reg@, kw[h], kw[h + 1], #[trigger] hv[h]) by {
            assert(hv[h] == hops_v[h]@);
        }
        let pp = nd.prims@[x as int]@;
        assert(views(nd.prims@)[x as int] == pp);
        assert(node_prims(*m, reg@, kw.last()).contains(pp));
        assert(via@ == render_via(qualify(reg@, pp, c), hv));
    }
    via
}

/// The violations pairs: `(function, missing capability)`.
pub open spec fn violation_pairs(v: Seq<CapsViolation>) -> Seq<(Seq<char>, Seq<char>)> {
    v.map_values(|e: CapsViolation| (e.fn_name@, e.missing@))
}

/// The keys of a transitive listing.
pub open spec fn listed_keys(v: Seq<(String, CapSet)>) -> Seq<Seq<char>> {
    v.map_values(|e: (String, CapSet)| e.0@)
}

/// Propagates capabilities over the module's call graph and checks every
/// annotated function's declaration against what it transitively needs.
///
/// The report lists each function's transitive capabilities by key in
/// sorted order, and one violation per (function, missing capability), in
/// key order and then capability order, for the functions whose coverage is
/// checked.
pub fn check_caps_coverage(module: &CapsModule, registry: &Vec<Primitive>) -> (r: CapsReport)
    ensures
        strictly_sorted(listed_keys(r.transitive@)),
        listed_keys(r.transitive@).to_set() == key_set(module.fns@),
        forall|x: int| 0 <= x < r.transitive@.len() ==> (#[trigger] r.transitive@[x]).1@ == transitive(*module, registry@, r.transitive@[x].0@),
        violation_pairs(r.violations@) == expected_pairs(*module, registry@, listed_keys(r.transitive@)),
        forall|x: int| 0 <= x < r.violations@.len() ==> ({
            let v = #[trigger] r.violations@[x];
            canonical_index(v.missing@) is Some && via_ok(*module, registry@, v.fn_name@, canonical_index(v.missing@)->0, v.via@)
        }),
{
    let g = build_graph(module, registry);
    let n = g.keys.len();
    let mut violations: Vec<CapsViolation> = Vec::new();
    let mut trans: Vec<(String, CapSet)> = Vec::new();
    let mut i: usize = 0;
    while i < n
        invariant
            n == g.keys@.len(),
            graph_ok(*module, registry@, g),
            i <= n,
            listed_keys(trans@) == views(g.keys@.subrange(0, i as int)),
            forall|x: int| 0 <= x < trans@.len() ==> (#[trigger] trans@[x]).1@ == transitive(*module, registry@, trans@[x].0@),
            violation_pairs(violations@) == expected_pairs(*module, registry@, views(g.keys@.subrange(0, i as int))),
            forall|x: int| 0 <= x < violations@.len() ==> ({
                let v = #[trigger] violations@[x];
                canonical_index(v.missing@) is Some && via_ok(*module, registry@, v.fn_name@, canonical_index(v.missing@)->0, v.via@)
            }),
        decreases n - i,
    {
        let ghost k = g.keys@[i as int]@;
        let t = transitive_at(Ghost(*module), Ghost(registry@), &g, i);
        let ghost tr0 = trans@;
        trans.push((g.keys[i].clone(), t));
        let ghost pre = views(g.keys@.subrange(0, i as int + 1));
        proof {
            assert(pre.drop_last() =~= views(g.keys@.subrange(0, i as int)));
            assert(pre.last() == k);
            assert(listed_keys(trans@) =~= listed_keys(tr0).push(k));
            assert(g.nodes@[i as int].prims@.len() >= 0);
        }
        let nd = &g.nodes[i];
        let is_main = str_eq(g.keys[i].as_str(), "main");
        if !nd.wildcard && (nd.annotated || is_main) {
            let missing = t.difference(nd.declared);
            let names = missing.iter_names();
            proof {
                crate::capset::lemma_cap_names_set(missing@);
            }
            let ghost v0 = violations@;
            let mut q: usize = 0;
            while q < names.len()
                invariant
                    n == g.keys@.len(),
                    graph_ok(*module, registry@, g),
                    (i as int) < n,
                    k == g.keys@[i as int]@,
                    missing@ == transitive(*module, registry@, k).difference(declared_bits(*module, k)),
                    crate::text::str_views(names@) == cap_names(missing@),
                    cap_names(missing@).to_set() == crate::capset::names_of_bits(missing@),
                    q <= names@.len(),
                    violations@.len() == v0.len() + q,
                    violations@.subrange(0, v0.len() as int) == v0,
                    forall|x: int| 0 <= x < q ==> (#[trigger] violations@[v0.len() + x]).fn_name@ == k && violations@[v0.len() + x].missing@ == names@[x]@,
                    forall|x: int| 0 <= x < violations@.len() ==> ({
                        let v = #[trigger] violations@[x];
                        canonical_index(v.missing@) is Some && via_ok(*module, registry@, v.fn_name@, canonical_index(v.missing@)->0, v.via@)
                    }),
                decreases names@.len() - q,
            {
                let nm = names[q];
                proof {
                    assert(crate::text::str_views(names@)[q as int] == nm@);
                    assert(cap_names(missing@).to_set().contains(nm@));
                    let b = choose|b: nat| b < 8 && missing@.contains(b) && nm@ == #[trigger] crate::capset::cap_name(b);
                    crate::capset::lemma_canonical_roundtrip(b);
                }
                let via = find_via(module, registry, &g, i, nm);
                let ghost vb = violations@;
                violations.push(CapsViolation { fn_name: g.keys[i].clone(), missing: nm.to_owned(), via });
                proof {
                    assert forall|x: int| 0 <= x < q + 1 implies (#[trigger] violations@[v0.len() + x]).fn_name@ == k && violations@[v0.len() + x].missing@ == names@[x]@ by {
                        if x < q {
                            assert(violations@[v0.len() + x] == vb[v0.len() + x]);
                        }
                    }
                    assert(violations@.subrange(0, v0.len() as int) =~= v0) by {
                        assert(vb.subrange(0, v0.len() as int) == v0);
                    }
                    assert forall|x: int| 0 <= x < violations@.len() implies ({
                        let v = #[trigger] violations@[x];
                        canonical_index(v.missing@) is Some && via_ok(*module, registry@, v.fn_name@, canonical_index(v.missing@)->0, v.via@)
                    }) by {
                        if x < vb.len() {
                            assert(violations@[x] == vb[x]);
                        }
                    }
                }
                q = q + 1;
            }
            proof {
                reveal_strlit("main");
                assert(checked(*module, k));
                let here = missing_names(*module, registry@, k).map_values(|nm: Seq<char>| (k, nm));
                assert(violation_pairs(violations@) =~= violation_pairs(v0) + here) by {
                    assert forall|x: int| 0 <= x < violations@.len() implies #[trigger] violation_pairs(violations@)[x] == (violation_pairs(v0) + here)[x] by {
                        if x < v0.len() {
                            assert(violations@[x] == v0[x]);
                        } else {
                            let y = x - v0.len();
                            assert(violations@[v0.len() + y].missing@ == names@[y]@);
                            assert(crate::text::str_views(names@)[y] == names@[y]@);
                        }
                    }
                }
            }
        } else {
            proof {
                reveal_strlit("main");
                assert(!checked(*module, k));
                assert(violation_pairs(violations@) =~= violation_pairs(violations@) + Seq::<(Seq<char>, Seq<char>)>::empty());
            }
        }
        i = i + 1;
    }
    proof {
        assert(g.keys@.subrange(0, n as int) =~= g.keys@);
    }
    CapsReport { violations, transitive: trans }
}

impl CapsReport {
    /// The transitive capabilities recorded for function `key`, if any.
    pub fn transitive_of(&self, key: &str) -> (r: Option<CapSet>)
        ensures
            match r {
                Some(c) => exists|x: int| 0 <= x < self.transitive@.len() && (#[trigger] self.transitive@[x]).0@ == key@ && self.transitive@[x].1 == c,
                None => forall|x: int| 0 <= x < self.transitive@.len() ==> (#[trigger] self.transitive@[x]).0@ != key@,
            },
    {
        let mut i: usize = 0;
        while i < self.transitive.len()
            invariant
                i <= self.transitive@.len(),
                forall|x: int| 0 <= x < i ==> (#[trigger] self.transitive@[x]).0@ != key@,
            decreases self.transitive@.len() - i,
        {
            if str_eq(self.transitive[i].0.as_str(), key) {
                return Some(self.transitive[i].1);
            }
            i = i + 1;
        }
        None
    }
}

// ---------------------------------------------------------------------------
// Laws
// ---------------------------------------------------------------------------

/// Reaching is transitive: two call paths chain into one.
pub proof fn lemma_reaches_trans(m: CapsModule, reg: Seq<Primitive>, a: Seq<char>, b: Seq<char>, c: Seq<char>)
    requires
        reaches(m, reg, a, b),
        reaches(m, reg, b, c),
    ensures
        reaches(m, reg, a, c),
{
    let u = choose|u: Seq<Seq<char>>| #[trigger] is_call_path(m, reg, u) && u[0] == a && u.last() == b;
    let v = choose|v: Seq<Seq<char>>| #[trigger] is_call_path(m, reg, v) && v[0] == b && v.last() == c;
    let w = u + v.drop_first();
    assert forall|i: int| 0 <= i < w.len() - 1 implies calls(m, reg, #[trigger] w[i], w[i + 1]) by {
        if i < u.len() - 1 {
            assert(w[i] == u[i] && w[i + 1] == u[i + 1]);
        } else if i == u.len() - 1 {
            assert(w[i] == v[0]);
            assert(w[i + 1] == v[1]);
            assert(calls(m, reg, v[0], v[1]));
        } else {
            let k = i - u.len() + 1;
            assert(w[i] == v[k] && w[i + 1] == v[k + 1]);
            assert(calls(m, reg, v[k], v[k + 1]));
        }
    }
    assert(is_call_path(m, reg, w));
    if v.len() == 1 {
        assert(w =~= u);
    }
}

/// A function needs, transitively, everything any function it reaches
/// needs.
pub proof fn lemma_transitive_monotone(m: CapsModule, reg: Seq<Primitive>, a: Seq<char>, b: Seq<char>)
    requires
        reaches(m, reg, a, b),
    ensures
        transitive(m, reg, b).subset_of(transitive(m, reg, a)),
{
    assert forall|c: nat| transitive(m, reg, b).contains(c) implies transitive(m, reg, a).contains(c) by {
        let g = choose|g: Seq<char>| #[trigger] reaches(m, reg, b, g) && direct(m, reg, g).contains(c);
        lemma_reaches_trans(m, reg, a, b, g);
    }
}

/// The members of a call cycle share one transitive capability set,
/// whatever their names: functions that reach each other need the same.
pub proof fn lemma_cycle_members_agree(m: CapsModule, reg: Seq<Primitive>, a: Seq<char>, b: Seq<char>)
    requires
        reaches(m, reg, a, b),
        reaches(m, reg, b, a),
    ensures
        transitive(m, reg, a) == transitive(m, reg, b),
{
    lemma_transitive_monotone(m, reg, a, b);
    lemma_transitive_monotone(m, reg, b, a);
    assert(transitive(m, reg, a) =~= transitive(m, reg, b));
}

/// A function needs at least what its own primitives need.
pub proof fn lemma_direct_in_transitive(m: CapsModule, reg: Seq<Primitive>, a: Seq<char>)
    ensures
        direct(m, reg, a).subset_of(transitive(m, reg, a)),
{
    let w = seq![a];
    assert(is_call_path(m, reg, w));
    assert(reaches(m, reg, a, a));
}

} // verus!
