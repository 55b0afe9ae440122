//! Per-function and per-actor surfaces: the explosive operations of each
//! function (unconditional loops and spawns, with the default ceilings that
//! govern them) and the concurrency contract of each actor (its message
//! protocols, asks and tells, and its handler count).
//!
//! Both listings are sorted by name, stably: entries with equal names keep
//! their source order.

use vstd::prelude::*;
use crate::order::{strictly_sorted, views, insert_sorted, sorted_of, lemma_sorted_of};
use crate::span::Span;
use crate::text::str_eq;

verus! {

// ---------------------------------------------------------------------------
// Stable order by name
// ---------------------------------------------------------------------------

/// The positions, in increasing order, whose key is `k`.
pub open spec fn key_positions(ks: Seq<Seq<char>>, k: Seq<char>) -> Seq<int>
    decreases ks.len(),
{
    if ks.len() == 0 {
        Seq::empty()
    } else {
        key_positions(ks.drop_last(), k) + if ks.last() == k {
            seq![ks.len() - 1]
        } else {
            Seq::empty()
        }
    }
}

/// The positions of each of `names` in turn.
pub open spec fn grouped_positions(ks: Seq<Seq<char>>, names: Seq<Seq<char>>) -> Seq<int>
    decreases names.len(),
{
    if names.len() == 0 {
        Seq::empty()
    } else {
        grouped_positions(ks, names.drop_last()) + key_positions(ks, names.last())
    }
}

/// The positions of `ks` in stable sorted order of their keys.
pub open spec fn stable_positions(ks: Seq<Seq<char>>) -> Seq<int> {
    grouped_positions(ks, sorted_of(ks.to_set()))
}

/// The positions of one key are in range, hold that key, and increase.
proof fn lemma_key_positions(ks: Seq<Seq<char>>, k: Seq<char>)
    ensures
        forall|t: int| 0 <= t < key_positions(ks, k).len() ==> {
            let p = #[trigger] key_positions(ks, k)[t];
            0 <= p < ks.len() && ks[p] == k
        },
        forall|t: int, u: int| 0 <= t < u < key_positions(ks, k).len() ==> #[trigger] key_positions(ks, k)[t] < #[trigger] key_positions(ks, k)[u],
    decreases ks.len(),
{
    if ks.len() > 0 {
        lemma_key_positions(ks.drop_last(), k);
        let a = key_positions(ks.drop_last(), k);
        assert forall|t: int| 0 <= t < a.len() implies {
            let p = #[trigger] a[t];
            0 <= p < ks.len() && ks[p] == k
        } by {
            assert(ks.drop_last()[a[t]] == ks[a[t]]);
        }
    }
}

/// The positions grouped by `names` hold keys among `names`.
proof fn lemma_grouped_keys(ks: Seq<Seq<char>>, names: Seq<Seq<char>>)
    ensures
        forall|t: int| 0 <= t < grouped_positions(ks, names).len() ==> {
            let p = #[trigger] grouped_positions(ks, names)[t];
            0 <= p < ks.len() && names.contains(ks[p])
        },
    decreases names.len(),
{
    if names.len() > 0 {
        let front = names.drop_last();
        lemma_grouped_keys(ks, front);
        lemma_key_positions(ks, names.last());
        let a = grouped_positions(ks, front);
        let b = key_positions(ks, names.last());
        assert forall|t: int| 0 <= t < (a + b).len() implies {
            let p = #[trigger] (a + b)[t];
            0 <= p < ks.len() && names.contains(ks[p])
        } by {
            if t < a.len() {
                let p = a[t];
                let g = choose|g: int| 0 <= g < front.len() && front[g] == ks[p];
                assert(names[g] == ks[p]);
            } else {
                assert((a + b)[t] == b[t - a.len()]);
                assert(names[names.len() - 1] == names.last());
            }
        }
    }
}

/// The stable order is sorted by key, and keeps the source order of equal
/// keys: keys never decrease along it, and equal keys appear in increasing
/// position.
pub proof fn lemma_stable_positions_sorted(ks: Seq<Seq<char>>)
    ensures
        forall|t: int, u: int| 0 <= t < u < stable_positions(ks).len() ==> {
            let p = #[trigger] stable_positions(ks)[t];
            let q = #[trigger] stable_positions(ks)[u];
            &&& !crate::order::seq_lt(ks[q], ks[p])
            &&& ks[p] == ks[q] ==> p < q
        },
{
    let names = sorted_of(ks.to_set());
    crate::order::lemma_sorted_listing_exists(ks);
    lemma_grouped_sorted(ks, names);
}

proof fn lemma_grouped_sorted(ks: Seq<Seq<char>>, names: Seq<Seq<char>>)
    requires
        strictly_sorted(names),
    ensures
        forall|t: int, u: int| 0 <= t < u < grouped_positions(ks, names).len() ==> {
            let p = #[trigger] grouped_positions(ks, names)[t];
            let q = #[trigger] grouped_positions(ks, names)[u];
            &&& !crate::order::seq_lt(ks[q], ks[p])
            &&& ks[p] == ks[q] ==> p < q
        },
    decreases names.len(),
{
    if names.len() > 0 {
        let front = names.drop_last();
        let last = names.last();
        assert(strictly_sorted(front)) by {
            assert forall|i: int, j: int| 0 <= i < j < front.len() implies crate::order::seq_lt(#[trigger] front[i], #[trigger] front[j]) by {
                assert(front[i] == names[i] && front[j] == names[j]);
            }
        }
        lemma_grouped_sorted(ks, front);
        lemma_grouped_keys(ks, front);
        lemma_key_positions(ks, last);
        let a = grouped_positions(ks, front);
        let b = key_positions(ks, last);
        assert(grouped_positions(ks, names) == a + b);
        assert forall|t: int, u: int| 0 <= t < u < (a + b).len() implies {
            let p = #[trigger] (a + b)[t];
            let q = #[trigger] (a + b)[u];
            &&& !crate::order::seq_lt(ks[q], ks[p])
            &&& ks[p] == ks[q] ==> p < q
        } by {
            let p = (a + b)[t];
            let q = (a + b)[u];
            if u < a.len() {
                assert(a[t] == p && a[u] == q);
            } else if t >= a.len() {
                assert(b[t - a.len()] == p && b[u - a.len()] == q);
                crate::order::lemma_lt_irreflexive(last);
            } else {
                assert(a[t] == p && b[u - a.len()] == q);
                let g = choose|g: int| 0 <= g < front.len() && front[g] == ks[p];
                assert(names[g] == ks[p]);
                assert(crate::order::seq_lt(names[g], names[names.len() - 1]));
                assert(ks[q] == last);
                crate::order::lemma_lt_asymmetric(ks[p], last);
                crate::order::lemma_lt_irreflexive(last);
            }
        }
    }
}

/// Indices as integers.
pub open spec fn ints(v: Seq<usize>) -> Seq<int> {
    v.map_values(|i: usize| i as int)
}

/// The positions of the keys in stable sorted order.
pub fn stable_order(keys: &Vec<String>) -> (r: Vec<usize>)
    ensures
        ints(r@) == stable_positions(views(keys@)),
        forall|t: int| 0 <= t < r@.len() ==> (#[trigger] r@[t] as int) < keys@.len(),
{
    let ghost ks = views(keys@);
    let n = keys.len();
    let mut names: Vec<String> = Vec::new();
    let mut i: usize = 0;
    assert(views(names@).to_set() =~= ks.subrange(0, 0).to_set());
    while i < n
        invariant
            n == keys@.len(),
            ks == views(keys@),
            i <= n,
            strictly_sorted(views(names@)),
            views(names@).to_set() == ks.subrange(0, i as int).to_set(),
        decreases n - i,
    {
        insert_sorted(&mut names, keys[i].clone());
        proof {
            let pre = ks.subrange(0, i as int + 1);
            let p0 = ks.subrange(0, i as int);
            assert forall|x: Seq<char>| #[trigger] pre.to_set().contains(x) == p0.to_set().insert(ks[i as int]).contains(x) by {
                if pre.contains(x) {
                    let j = choose|j: int| 0 <= j < pre.len() && pre[j] == x;
                    if j < i {
                        assert(p0[j] == x);
                    }
                }
                if p0.contains(x) {
                    let j = choose|j: int| 0 <= j < p0.len() && p0[j] == x;
                    assert(pre[j] == x);
                }
                if x == ks[i as int] {
                    assert(pre[i as int] == x);
                }
            }
            assert(pre.to_set() =~= p0.to_set().insert(ks[i as int]));
        }
        i = i + 1;
    }
    proof {
        assert(ks.subrange(0, n as int) =~= ks);
        lemma_sorted_of(views(names@));
    }
    let ghost names_v = views(names@);
    let mut out: Vec<usize> = Vec::new();
    let mut j: usize = 0;
    assert(ints(out@) =~= grouped_positions(ks, names_v.subrange(0, 0)));
    while j < names.len()
        invariant
            n == keys@.len(),
            ks == views(keys@),
            names_v == views(names@),
            j <= names@.len(),
            ints(out@) == grouped_positions(ks, names_v.subrange(0, j as int)),
            forall|t: int| 0 <= t < out@.len() ==> (#[trigger] out@[t] as int) < n,
        decreases names@.len() - j,
    {
        let ghost base = ints(out@);
        let ghost nm = names_v[j as int];
        let mut k: usize = 0;
        while k < n
            invariant
                n == keys@.len(),
                ks == views(keys@),
                k <= n,
                nm == names@[j as int]@,
                j < names@.len(),
                ints(out@) == base + key_positions(ks.subrange(0, k as int), nm),
                forall|t: int| 0 <= t < out@.len() ==> (#[trigger] out@[t] as int) < n,
            decreases n - k,
        {
            let ghost o0 = out@;
            if str_eq(keys[k].as_str(), names[j].as_str()) {
                out.push(k);
            }
            proof {
                let pre = ks.subrange(0, k as int + 1);
                assert(pre.drop_last() =~= ks.subrange(0, k as int));
                assert(pre.last() == keys@[k as int]@);
                if out@.len() > o0.len() {
                    assert(ints(out@) =~= ints(o0).push(k as int));
                } else {
                    assert(out@ == o0);
                }
                assert(ints(out@) =~= base + key_positions(pre, nm));
            }
            k = k + 1;
        }
        proof {
            assert(ks.subrange(0, n as int) =~= ks);
            let pre = names_v.subrange(0, j as int + 1);
            assert(pre.drop_last() =~= names_v.subrange(0, j as int));
            assert(pre.last() == nm);
        }
        j = j + 1;
    }
    assert(names_v.subrange(0, j as int) =~= names_v);
    out
}

// ---------------------------------------------------------------------------
// Explosive operations
// ---------------------------------------------------------------------------

/// The iteration ceiling applied to an unconditional loop that declares no
/// `@bounded` budget.
pub const DEFAULT_LOOP_CEILING: u64 = 10_000_000;

/// The fan-out ceiling applied to a `spawn` that declares no `@fan_out`.
pub const DEFAULT_SPAWN_FANOUT: u64 = 1_024;

/// The kind of an explosive operation.
#[derive(Debug, Clone, Copy, PartialEq, Eq, Structural)]
pub enum ExplosiveKind {
    /// An unconditional `loop`: unbounded iteration.
    UnconditionalLoop,
    /// A `spawn`: unbounded actor fan-out.
    Spawn,
}

/// One explosive-operation site.
#[derive(Debug, Clone, Copy, PartialEq, Eq, Structural)]
pub struct ExplosiveOp {
    pub kind: ExplosiveKind,
    pub span: Span,
}

/// The explosive operations of one function, and whether it declares the
/// annotations that govern them.
#[derive(Debug)]
pub struct FnExplosiveReport {
    pub fn_name: String,
    /// The sites in the order the body's walk meets them.
    pub ops: Vec<ExplosiveOp>,
    /// It declares `@bounded(N)`, which governs unconditional loops.
    pub has_bounded: bool,
    /// It declares `@fan_out(K)`, which governs spawns.
    pub has_fan_out: bool,
}

/// A report as plain values: name, operations, and the two governing
/// annotations.
pub open spec fn explosive_view(r: FnExplosiveReport) -> (Seq<char>, Seq<ExplosiveOp>, bool, bool) {
    (r.fn_name@, r.ops@, r.has_bounded, r.has_fan_out)
}

/// The views of a list of reports.
pub open spec fn explosive_views(rs: Seq<FnExplosiveReport>) -> Seq<(Seq<char>, Seq<ExplosiveOp>, bool, bool)> {
    rs.map_values(|r: FnExplosiveReport| explosive_view(r))
}

/// The reports that hold at least one operation, in order.
pub open spec fn with_ops(rs: Seq<(Seq<char>, Seq<ExplosiveOp>, bool, bool)>) -> Seq<(Seq<char>, Seq<ExplosiveOp>, bool, bool)>
    decreases rs.len(),
{
    if rs.len() == 0 {
        Seq::empty()
    } else {
        with_ops(rs.drop_last()) + if rs.last().1.len() > 0 {
            seq![rs.last()]
        } else {
            Seq::empty()
        }
    }
}

/// The names of reports.
pub open spec fn report_names(rs: Seq<(Seq<char>, Seq<ExplosiveOp>, bool, bool)>) -> Seq<Seq<char>> {
    rs.map_values(|r: (Seq<char>, Seq<ExplosiveOp>, bool, bool)| r.0)
}

/// The listing of reports: those with at least one operation, sorted by
/// name, stably.
pub open spec fn explosive_listing(rs: Seq<(Seq<char>, Seq<ExplosiveOp>, bool, bool)>) -> Seq<(Seq<char>, Seq<ExplosiveOp>, bool, bool)> {
    let kept = with_ops(rs);
    stable_positions(report_names(kept)).map_values(|p: int| kept[p])
}

/// A copy of a report.
fn copy_report(r: &FnExplosiveReport) -> (c: FnExplosiveReport)
    ensures
        explosive_view(c) == explosive_view(*r),
{
    let mut ops: Vec<ExplosiveOp> = Vec::new();
    let mut i: usize = 0;
    while i < r.ops.len()
        invariant
            i <= r.ops@.len(),
            ops@ == r.ops@.subrange(0, i as int),
        decreases r.ops@.len() - i,
    {
        ops.push(r.ops[i]);
        assert(ops@ =~= r.ops@.subrange(0, i as int + 1));
        i = i + 1;
    }
    assert(ops@ =~= r.ops@);
    FnExplosiveReport { fn_name: r.fn_name.clone(), ops, has_bounded: r.has_bounded, has_fan_out: r.has_fan_out }
}

/// Reports given in source order, listed: those with at least one
/// operation, sorted by name (stably).
pub fn sort_explosive_reports(fns: &Vec<FnExplosiveReport>) -> (r: Vec<FnExplosiveReport>)
    ensures
        explosive_views(r@) == explosive_listing(explosive_views(fns@)),
{
    let ghost fv = explosive_views(fns@);
    let mut kept: Vec<FnExplosiveReport> = Vec::new();
    let mut i: usize = 0;
    while i < fns.len()
        invariant
            fv == explosive_views(fns@),
            i <= fns@.len(),
            explosive_views(kept@) == with_ops(fv.subrange(0, i as int)),
        decreases fns@.len() - i,
    {
        let ghost k0 = kept@;
        if fns[i].ops.len() > 0 {
            kept.push(copy_report(&fns[i]));
        }
        proof {
            let pre = fv.subrange(0, i as int + 1);
            assert(pre.drop_last() =~= fv.subrange(0, i as int));
            assert(pre.last() == fv[i as int]);
            assert(explosive_views(kept@) =~= with_ops(pre));
        }
        i = i + 1;
    }
    assert(fv.subrange(0, i as int) =~= fv);
    let ghost kv = with_ops(fv);
    let mut names: Vec<String> = Vec::new();
    let mut q: usize = 0;
    while q < kept.len()
        invariant
            q <= kept@.len(),
            explosive_views(kept@) == kv,
            names@.len() == q,
            views(names@) == report_names(kv).subrange(0, q as int),
        decreases kept@.len() - q,
    {
        names.push(kept[q].fn_name.clone());
        proof {
            assert(explosive_views(kept@)[q as int] == kv[q as int]);
            assert(views(names@) =~= report_names(kv).subrange(0, q as int + 1));
        }
        q = q + 1;
    }
    assert(views(names@) =~= report_names(kv));
    let order = stable_order(&names);
    let ghost pos = stable_positions(report_names(kv));
    let mut out: Vec<FnExplosiveReport> = Vec::new();
    let mut t: usize = 0;
    while t < order.len()
        invariant
            t <= order@.len(),
            explosive_views(kept@) == kv,
            names@.len() == kv.len(),
            kept@.len() == kv.len(),
            ints(order@) == pos,
            forall|u: int| 0 <= u < order@.len() ==> (#[trigger] order@[u] as int) < names@.len(),
            explosive_views(out@) == pos.map_values(|p: int| kv[p]).subrange(0, t as int),
        decreases order@.len() - t,
    {
        let x = order[t];
        let ghost o0 = out@;
        out.push(copy_report(&kept[x]));
        proof {
            assert(ints(order@)[t as int] == x as int);
            assert(explosive_views(kept@)[x as int] == kv[x as int]);
            assert(explosive_views(out@) =~= pos.map_values(|p: int| kv[p]).subrange(0, t as int + 1)) by {
                assert(explosive_views(out@) =~= explosive_views(o0).push(explosive_view(out@[t as int])));
            }
        }
        t = t + 1;
    }
    assert(pos.map_values(|p: int| kv[p]).subrange(0, t as int) =~= pos.map_values(|p: int| kv[p]));
    out
}

// ---------------------------------------------------------------------------
// Concurrency contracts
// ---------------------------------------------------------------------------

/// One actor message protocol.
#[derive(Debug, Clone, PartialEq, Eq)]
pub struct ProtocolSig {
    pub name: String,
    pub arity: usize,
    /// The protocol returns a value: an `ask` (request-reply); otherwise a
    /// `tell` (fire-and-forget).
    pub reply: bool,
}

/// A protocol as plain values.
pub open spec fn protocol_view(p: ProtocolSig) -> (Seq<char>, usize, bool) {
    (p.name@, p.arity, p.reply)
}

/// The concurrency contract of one actor.
#[derive(Debug, Clone, PartialEq, Eq)]
pub struct ActorContract {
    pub name: String,
    pub protocols: Vec<ProtocolSig>,
    pub handlers: usize,
}

/// An item of an actor's body.
#[derive(Debug)]
pub enum ActorItem {
    /// `protocol name(params) [-> Ret]`.
    Protocol(ProtocolSig),
    /// `on name(..) { .. }`.
    Handler,
    /// A `memory` declaration.
    Memory,
    /// A `let` binding.
    Let,
}

/// An actor of the module: its name and body items, in source order.
#[derive(Debug)]
pub struct ActorDecl {
    pub name: String,
    pub items: Vec<ActorItem>,
}

/// The protocols of an actor's items, in source order.
pub open spec fn protocols_of(items: Seq<ActorItem>) -> Seq<ProtocolSig>
    decreases items.len(),
{
    if items.len() == 0 {
        Seq::empty()
    } else {
        protocols_of(items.drop_last()) + match items.last() {
            ActorItem::Protocol(p) => seq![p],
            _ => Seq::empty(),
        }
    }
}

/// The number of handlers among an actor's items.
pub open spec fn handlers_of(items: Seq<ActorItem>) -> nat
    decreases items.len(),
{
    if items.len() == 0 {
        0
    } else {
        handlers_of(items.drop_last()) + match items.last() {
            ActorItem::Handler => 1nat,
            _ => 0nat,
        }
    }
}

/// The names of protocols.
pub open spec fn protocol_names(ps: Seq<ProtocolSig>) -> Seq<Seq<char>> {
    ps.map_values(|p: ProtocolSig| p.name@)
}

/// The names of actors.
pub open spec fn actor_names(a: Seq<ActorDecl>) -> Seq<Seq<char>> {
    a.map_values(|d: ActorDecl| d.name@)
}

/// An actor's contract is that of its declaration: its protocols sorted by
/// name (stably) and its handler count.
pub open spec fn contract_of(c: ActorContract, d: ActorDecl) -> bool {
    let ps = protocols_of(d.items@);
    let pos = stable_positions(protocol_names(ps));
    &&& c.name@ == d.name@
    &&& c.handlers == handlers_of(d.items@)
    &&& c.protocols@.len() == pos.len()
    &&& forall|t: int| 0 <= t < pos.len() ==> protocol_view(#[trigger] c.protocols@[t]) == protocol_view(ps[pos[t]])
}

/// A copy of a protocol.
fn copy_protocol(p: &ProtocolSig) -> (c: ProtocolSig)
    ensures
        protocol_view(c) == protocol_view(*p),
{
    ProtocolSig { name: p.name.clone(), arity: p.arity, reply: p.reply }
}

/// The contract of one actor.
fn actor_contract(d: &ActorDecl) -> (c: ActorContract)
    ensures
        contract_of(c, *d),
{
    let mut ps: Vec<ProtocolSig> = Vec::new();
    let mut handlers: usize = 0;
    let mut i: usize = 0;
    while i < d.items.len()
        invariant
            i <= d.items@.len(),
            handlers == handlers_of(d.items@.subrange(0, i as int)),
            handlers <= i,
            ps@.len() == protocols_of(d.items@.subrange(0, i as int)).len(),
            forall|t: int| 0 <= t < ps@.len() ==> protocol_view(#[trigger] ps@[t]) == protocol_view(protocols_of(d.items@.subrange(0, i as int))[t]),
        decreases d.items@.len() - i,
    {
        let ghost p0 = ps@;
        proof {
            let pre = d.items@.subrange(0, i as int + 1);
            assert(pre.drop_last() =~= d.items@.subrange(0, i as int));
            assert(pre.last() == d.items@[i as int]);
        }
        match &d.items[i] {
            ActorItem::Protocol(p) => {
                ps.push(copy_protocol(p));
            },
            ActorItem::Handler => {
                handlers = handlers + 1;
            },
            _ => {},
        }
        proof {
            let pre = d.items@.subrange(0, i as int + 1);
            assert forall|t: int| 0 <= t < ps@.len() implies protocol_view(#[trigger] ps@[t]) == protocol_view(protocols_of(pre)[t]) by {
                if t < p0.len() {
                    assert(ps@[t] == p0[t]);
                }
            }
        }
        i = i + 1;
    }
    assert(d.items@.subrange(0, i as int) =~= d.items@);
    let ghost pv = protocols_of(d.items@);
    let mut names: Vec<String> = Vec::new();
    let mut q: usize = 0;
    while q < ps.len()
        invariant
            q <= ps@.len(),
            ps@.len() == pv.len(),
            forall|t: int| 0 <= t < ps@.len() ==> protocol_view(#[trigger] ps@[t]) == protocol_view(pv[t]),
            names@.len() == q,
            views(names@) == protocol_names(pv).subrange(0, q as int),
        decreases ps@.len() - q,
    {
        names.push(ps[q].name.clone());
        proof {
            assert(protocol_view(ps@[q as int]) == protocol_view(pv[q as int]));
            assert(names@[q as int]@ == pv[q as int].name@);
            assert(views(names@) =~= protocol_names(pv).subrange(0, q as int + 1));
        }
        q = q + 1;
    }
    assert(views(names@) =~= protocol_names(pv));
    let order = stable_order(&names);
    let mut sorted: Vec<ProtocolSig> = Vec::new();
    let mut t: usize = 0;
    while t < order.len()
        invariant
            t <= order@.len(),
            ps@.len() == pv.len(),
            names@.len() == pv.len(),
            forall|u: int| 0 <= u < ps@.len() ==> protocol_view(#[trigger] ps@[u]) == protocol_view(pv[u]),
            ints(order@) == stable_positions(protocol_names(pv)),
            forall|u: int| 0 <= u < order@.len() ==> (#[trigger] order@[u] as int) < names@.len(),
            sorted@.len() == t,
            forall|u: int| 0 <= u < t ==> protocol_view(#[trigger] sorted@[u]) == protocol_view(pv[stable_positions(protocol_names(pv))[u]]),
        decreases order@.len() - t,
    {
        let x = order[t];
        sorted.push(copy_protocol(&ps[x]));
        proof {
            assert(ints(order@)[t as int] == x as int);
        }
        t = t + 1;
    }
    ActorContract { name: d.name.clone(), protocols: sorted, handlers }
}

/// The concurrency contract of each actor of a module (given in source
/// order), sorted by actor name (stably), each with its protocols sorted by
/// name.
pub fn concurrency_surface(actors: &Vec<ActorDecl>) -> (r: Vec<ActorContract>)
    ensures
        ({
            let pos = stable_positions(actor_names(actors@));
            &&& r@.len() == pos.len()
            &&& forall|t: int| 0 <= t < r@.len() ==> contract_of(#[trigger] r@[t], actors@[pos[t]])
        }),
{
    let mut names: Vec<String> = Vec::new();
    let mut q: usize = 0;
    while q < actors.len()
        invariant
            q <= actors@.len(),
            names@.len() == q,
            views(names@) == actor_names(actors@).subrange(0, q as int),
        decreases actors@.len() - q,
    {
        names.push(actors[q].name.clone());
        assert(names@[q as int]@ == actors@[q as int].name@);
        assert(views(names@) =~= actor_names(actors@).subrange(0, q as int + 1));
        q = q + 1;
    }
    assert(views(names@) =~= actor_names(actors@));
    let order = stable_order(&names);
    let mut out: Vec<ActorContract> = Vec::new();
    let mut t: usize = 0;
    while t < order.len()
        invariant
            t <= order@.len(),
            names@.len() == actors@.len(),
            ints(order@) == stable_positions(actor_names(actors@)),
            forall|u: int| 0 <= u < order@.len() ==> (#[trigger] order@[u] as int) < names@.len(),
            out@.len() == t,
            forall|u: int| 0 <= u < t ==> contract_of(#[trigger] out@[u], actors@[stable_positions(actor_names(actors@))[u]]),
        decreases order@.len() - t,
    {
        let x = order[t];
        out.push(actor_contract(&actors[x]));
        proof {
            assert(ints(order@)[t as int] == x as int);
        }
        t = t + 1;
    }
    out
}

} // verus!
