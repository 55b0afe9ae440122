//! The borrow-checker pass over safe-mode function bodies.
//!
//! Passing a binding (or a field or index place of one) to a parameter
//! declared `own` moves it: a later use of an overlapping place in the same
//! function is a use-after-move. Within one call, a place passed as `mut`
//! may not overlap any other argument (aliasing-XOR-mutation), and two
//! `own` arguments may not overlap (the same place would be dropped twice).
//! A `let`, `var` or `const` rebinds its name; an assignment rebinds its
//! place.
//!
//! Branches are joined conservatively: the moves of every branch that may
//! continue are merged after an `if` or a `match`; a branch that returns
//! does not poison the code after it. A loop body that may continue is
//! taken once. The names a `for` loop or a `match` arm binds are scoped to
//! it: afterwards an outer binding of the same name has its state back.
//! Closure and spawn bodies are not entered.
//!
//! Direct calls resolve against the module's top-level functions (the last
//! of a name wins). Method calls resolve by the receiver's declared simple
//! type when it has one, else by the method name alone; a method name bound
//! to two different signatures resolves to nothing.

use vstd::prelude::*;
use crate::ast::{Block, Expr, FnDef, Item, MatchArm, Module, Ownership, Param, Pattern, Rescue, Stmt};
use crate::borrow::{
    covers, dot_free, format_place, lemma_split_join, move_view, only_covered, overlapping, place_views,
    places_overlap, simple_name_of, split_dots, without_covered, Env, MoveRecord,
};
use crate::coherence::TypeExpr;
use crate::diagnostics::{CheckError, FnMode};
use crate::text::join;

verus! {

// ---------------------------------------------------------------------------
// The state the pass carries, and what it reports
// ---------------------------------------------------------------------------

/// The moved places (place text to `(binding, callee)`) and the declared
/// simple types of bindings.
pub struct Flow {
    pub moved: Map<Seq<char>, (Seq<char>, Seq<char>)>,
    pub types: Map<Seq<char>, Seq<char>>,
}

/// What the pass reports at one point: a use of `place` in function `f`
/// while `moved` holds an overlapping move, or a fixed message.
pub enum Finding {
    UseAfterMove { f: Seq<char>, place: Seq<Seq<char>>, moved: Map<Seq<char>, (Seq<char>, Seq<char>)> },
    Text(Seq<char>),
}

/// The use-after-move message.
pub open spec fn use_after_move_message(f: Seq<char>, binding: Seq<char>, callee: Seq<char>) -> Seq<char> {
    "use-after-move: in `"@ + f + "`, `"@ + binding + "` was moved into `"@ + callee
        + "` and cannot be used again"@
}

/// The drop-discipline message.
pub open spec fn drop_message(f: Seq<char>, first: Seq<char>, second: Seq<char>, callee: Seq<char>) -> Seq<char> {
    "drop discipline violation: in `"@ + f + "`, `"@ + first + "` and `"@ + second
        + "` are both passed as `own` to `"@ + callee + "`, which would drop the same place twice"@
}

/// The aliasing message.
pub open spec fn alias_message(f: Seq<char>, place: Seq<char>, callee: Seq<char>) -> Seq<char> {
    "aliasing violation: in `"@ + f + "`, `"@ + place + "` is passed as `mut` to `"@ + callee
        + "` while another reference to the same binding is in flight"@
}

/// Whether the diagnostic `d` reports the finding `x`. A use-after-move
/// names one of the moves that overlap the used place.
pub open spec fn reports(x: Finding, d: CheckError) -> bool {
    match d {
        CheckError::SafeModeViolation(s) => match x {
            Finding::Text(t) => s@ == t,
            Finding::UseAfterMove { f, place, moved } => exists|k: Seq<char>|
                moved.contains_key(k) && #[trigger] overlapping(split_dots(k), place)
                    && s@ == use_after_move_message(f, moved[k].0, moved[k].1),
        },
        _ => false,
    }
}

/// `after` is `before` followed by one diagnostic reporting each finding.
pub open spec fn extends(before: Seq<CheckError>, after: Seq<CheckError>, xs: Seq<Finding>) -> bool {
    &&& after.len() == before.len() + xs.len()
    &&& after.subrange(0, before.len() as int) == before
    &&& forall|i: int| 0 <= i < xs.len() ==> reports(#[trigger] xs[i], after[before.len() + i])
}

/// Reports chain: two extensions in a row extend by both lists.
pub proof fn lemma_extends_chain(a: Seq<CheckError>, b: Seq<CheckError>, c: Seq<CheckError>, x: Seq<Finding>, y: Seq<Finding>)
    requires
        extends(a, b, x),
        extends(b, c, y),
    ensures
        extends(a, c, x + y),
{
    assert(c.subrange(0, a.len() as int) =~= b.subrange(0, a.len() as int)) by {
        assert forall|i: int| 0 <= i < a.len() implies c[i] == b[i] by {
            assert(c.subrange(0, b.len() as int)[i] == b[i]);
        }
    }
    assert forall|i: int| 0 <= i < (x + y).len() implies reports(#[trigger] (x + y)[i], c[a.len() + i]) by {
        if i < x.len() {
            assert(c.subrange(0, b.len() as int)[a.len() + i] == b[a.len() + i]);
            assert((x + y)[i] == x[i]);
        } else {
            assert((x + y)[i] == y[i - x.len()]);
        }
    }
}

/// Nothing reported: the list is unchanged.
pub proof fn lemma_extends_none(a: Seq<CheckError>)
    ensures
        extends(a, a, Seq::empty()),
{
    assert(a.subrange(0, a.len() as int) =~= a);
}

/// The state an environment denotes.
pub open spec fn flow_of(env: Env) -> Flow {
    Flow { moved: env.moved_map(), types: env.type_map() }
}

/// The state after a place is rebound.
pub open spec fn rebound(st: Flow, b: Seq<char>) -> Flow {
    Flow { moved: without_covered(st.moved, b), types: st.types }
}

/// The state after a binding is rebound with a declared type name.
pub open spec fn rebound_typed(st: Flow, b: Seq<char>, t: Option<Seq<char>>) -> Flow {
    Flow {
        moved: without_covered(st.moved, b),
        types: match t {
            Some(n) => st.types.insert(b, n),
            None => st.types.remove(b),
        },
    }
}

/// The simple name of an optional declared type.
pub open spec fn declared_name(t: Option<TypeExpr>) -> Option<Seq<char>> {
    match t {
        Some(x) => simple_name_of(Some(&x)),
        None => None,
    }
}

/// The state after a loop body over `var` that may continue: everything
/// at and below `var` comes back from the state before the loop.
pub open spec fn restored(st: Flow, v: Seq<char>, snap: Flow) -> Flow {
    Flow {
        moved: without_covered(st.moved, v).union_prefer_right(only_covered(snap.moved, v)),
        types: match snap.types.get(v) {
            Some(t) => st.types.insert(v, t),
            None => st.types.remove(v),
        },
    }
}

/// A use of `place` in function `f`: reported when some move overlaps it.
pub open spec fn use_of(f: Seq<char>, place: Seq<Seq<char>>, st: Flow) -> Seq<Finding> {
    if exists|k: Seq<char>| st.moved.contains_key(k) && #[trigger] overlapping(split_dots(k), place) {
        seq![Finding::UseAfterMove { f, place, moved: st.moved }]
    } else {
        Seq::empty()
    }
}

// ---------------------------------------------------------------------------
// Signatures
// ---------------------------------------------------------------------------

/// The ownership of each parameter.
pub open spec fn kinds(ps: Seq<Param>) -> Seq<Option<Ownership>> {
    ps.map_values(|p: Param| p.ownership)
}

/// The parameter kinds of the last top-level function named `name`.
pub open spec fn fn_kinds(items: Seq<Item>, name: Seq<char>) -> Option<Seq<Option<Ownership>>>
    decreases items.len(),
{
    if items.len() == 0 {
        None
    } else {
        match items.last() {
            Item::Fn(fd) => if fd.name@ == name {
                Some(kinds(fd.params@))
            } else {
                fn_kinds(items.drop_last(), name)
            },
            _ => fn_kinds(items.drop_last(), name),
        }
    }
}

/// A method's ownership contract: its receiver (when the first parameter
/// is `self`) and its other arguments.
pub struct MethodSig {
    pub receiver: Option<Ownership>,
    pub args: Seq<Option<Ownership>>,
}

/// The contract of a method.
pub open spec fn method_sig(m: FnDef) -> MethodSig {
    if m.params@.len() > 0 && m.params@[0].name@ == "self"@ {
        MethodSig { receiver: m.params@[0].ownership, args: kinds(m.params@.subrange(1, m.params@.len() as int)) }
    } else {
        MethodSig { receiver: None, args: kinds(m.params@) }
    }
}

/// What a method name is bound to so far: nothing, one contract, or two
/// different ones.
pub enum Binding {
    Absent,
    Unique(MethodSig),
    Ambiguous,
}

/// Registering one more method under a name.
pub open spec fn register(b: Binding, s: MethodSig) -> Binding {
    match b {
        Binding::Absent => Binding::Unique(s),
        Binding::Unique(e) => if e == s {
            Binding::Unique(e)
        } else {
            Binding::Ambiguous
        },
        Binding::Ambiguous => Binding::Ambiguous,
    }
}

/// Registers the methods of one impl block named `name`, in order.
pub open spec fn register_methods(ms: Seq<FnDef>, name: Seq<char>, b: Binding) -> Binding
    decreases ms.len(),
{
    if ms.len() == 0 {
        b
    } else {
        let b1 = if ms[0].name@ == name {
            register(b, method_sig(ms[0]))
        } else {
            b
        };
        register_methods(ms.subrange(1, ms.len() as int), name, b1)
    }
}

/// The binding of method `name` over the module's impl blocks, in order;
/// with `Some(t)`, only over the impl blocks whose target's simple name is
/// `t`.
pub open spec fn method_binding(items: Seq<Item>, target: Option<Seq<char>>, name: Seq<char>, b: Binding) -> Binding
    decreases items.len(),
{
    if items.len() == 0 {
        b
    } else {
        let b1 = match items[0] {
            Item::Impl(ib) => if target is None || simple_name_of(Some(&ib.target)) == target {
                register_methods(ib.methods@, name, b)
            } else {
                b
            },
            _ => b,
        };
        method_binding(items.subrange(1, items.len() as int), target, name, b1)
    }
}

/// The contract a binding resolves to.
pub open spec fn resolved(b: Binding) -> Option<MethodSig> {
    match b {
        Binding::Unique(s) => Some(s),
        _ => None,
    }
}

/// The contract of method `m` called on `receiver`: by the receiver's
/// declared type when it is a binding with one, else by the name alone.
pub open spec fn method_for(items: Seq<Item>, receiver: Expr, m: Seq<char>, st: Flow) -> Option<MethodSig> {
    match receiver {
        Expr::Ident(n) => if st.types.contains_key(n@) {
            resolved(method_binding(items, Some(st.types[n@]), m, Binding::Absent))
        } else {
            resolved(method_binding(items, None, m, Binding::Absent))
        },
        _ => resolved(method_binding(items, None, m, Binding::Absent)),
    }
}

// ---------------------------------------------------------------------------
// Places and argument ownership
// ---------------------------------------------------------------------------

/// The place an expression names: a binding followed by field segments,
/// with `[*]` standing for any index.
pub open spec fn place_of(e: Expr) -> Option<Seq<Seq<char>>>
    decreases e,
{
    match e {
        Expr::Ident(n) => Some(seq![n@]),
        Expr::Field { receiver, field } => match place_of(*receiver) {
            Some(p) => Some(p.push(field@)),
            None => None,
        },
        Expr::Index { receiver, .. } => match place_of(*receiver) {
            Some(p) => Some(p.push("[*]"@)),
            None => None,
        },
        _ => None,
    }
}

/// The places of the arguments.
pub open spec fn places_of(es: Seq<Expr>) -> Seq<Option<Seq<Seq<char>>>> {
    es.map_values(|e: Expr| place_of(e))
}

/// Arguments paired with parameter kinds, as far as both go.
pub open spec fn zip_kinds(ps: Seq<Option<Seq<Seq<char>>>>, ks: Seq<Option<Ownership>>) -> Seq<(Option<Seq<Seq<char>>>, Option<Ownership>)> {
    let n = if ps.len() <= ks.len() { ps.len() } else { ks.len() };
    Seq::new(n, |i: int| (ps[i], ks[i]))
}

/// The text of a place.
pub open spec fn place_text(p: Seq<Seq<char>>) -> Seq<char> {
    join(p, "."@)
}

/// The first index of `owned` whose place overlaps `p`.
pub open spec fn first_overlap(owned: Seq<Seq<Seq<char>>>, p: Seq<Seq<char>>) -> int
    decreases owned.len(),
{
    if owned.len() == 0 {
        -1
    } else if overlapping(owned[0], p) {
        0
    } else {
        let r = first_overlap(owned.subrange(1, owned.len() as int), p);
        if r < 0 { r } else { r + 1 }
    }
}

/// The drop-discipline finding of a call: the first `own` place that
/// overlaps an earlier `own` place, named with the earliest such one.
pub open spec fn drop_findings(f: Seq<char>, callee: Seq<char>, pairs: Seq<(Option<Seq<Seq<char>>>, Option<Ownership>)>, owned: Seq<Seq<Seq<char>>>) -> Seq<Finding>
    decreases pairs.len(),
{
    if pairs.len() == 0 {
        Seq::empty()
    } else {
        let rest = pairs.subrange(1, pairs.len() as int);
        match pairs[0] {
            (Some(p), Some(Ownership::Own)) => {
                let j = first_overlap(owned, p);
                if j >= 0 {
                    seq![Finding::Text(drop_message(f, place_text(owned[j]), place_text(p), callee))]
                } else {
                    drop_findings(f, callee, rest, owned.push(p))
                }
            },
            _ => drop_findings(f, callee, rest, owned),
        }
    }
}

/// The places passed as `mut`.
pub open spec fn mut_places(pairs: Seq<(Option<Seq<Seq<char>>>, Option<Ownership>)>) -> Seq<Seq<Seq<char>>>
    decreases pairs.len(),
{
    if pairs.len() == 0 {
        Seq::empty()
    } else {
        let rest = mut_places(pairs.drop_last());
        match pairs.last() {
            (Some(p), Some(Ownership::Mut)) => rest.push(p),
            _ => rest,
        }
    }
}

/// The places passed otherwise.
pub open spec fn other_places(pairs: Seq<(Option<Seq<Seq<char>>>, Option<Ownership>)>) -> Seq<Seq<Seq<char>>>
    decreases pairs.len(),
{
    if pairs.len() == 0 {
        Seq::empty()
    } else {
        let rest = other_places(pairs.drop_last());
        match pairs.last() {
            (Some(p), Some(Ownership::Mut)) => rest,
            (Some(p), _) => rest.push(p),
            _ => rest,
        }
    }
}

/// Whether the `mut` place at index `i` overlaps another argument.
pub open spec fn aliased(ms: Seq<Seq<Seq<char>>>, os: Seq<Seq<Seq<char>>>, i: int) -> bool {
    (exists|j: int| 0 <= j < ms.len() && j != i && #[trigger] overlapping(ms[i], ms[j]))
        || (exists|j: int| 0 <= j < os.len() && #[trigger] overlapping(ms[i], os[j]))
}

/// The aliasing findings for the first `n` `mut` places, in order.
pub open spec fn alias_findings(f: Seq<char>, callee: Seq<char>, ms: Seq<Seq<Seq<char>>>, os: Seq<Seq<Seq<char>>>, n: int) -> Seq<Finding>
    decreases n,
{
    if n <= 0 {
        Seq::empty()
    } else {
        let pre = alias_findings(f, callee, ms, os, n - 1);
        if aliased(ms, os, n - 1) {
            pre.push(Finding::Text(alias_message(f, place_text(ms[n - 1]), callee)))
        } else {
            pre
        }
    }
}

/// The moves a call records, in argument order.
pub open spec fn moves_after(moved: Map<Seq<char>, (Seq<char>, Seq<char>)>, callee: Seq<char>, pairs: Seq<(Option<Seq<Seq<char>>>, Option<Ownership>)>) -> Map<Seq<char>, (Seq<char>, Seq<char>)>
    decreases pairs.len(),
{
    if pairs.len() == 0 {
        moved
    } else {
        let m = moves_after(moved, callee, pairs.drop_last());
        match pairs.last() {
            (Some(p), Some(Ownership::Own)) => m.insert(place_text(p), (place_text(p), callee)),
            _ => m,
        }
    }
}

/// A resolved call: its drop-discipline and aliasing findings, then the
/// moves into its `own` parameters.
pub open spec fn applied(f: Seq<char>, callee: Seq<char>, pairs: Seq<(Option<Seq<Seq<char>>>, Option<Ownership>)>, st: Flow) -> (Flow, Seq<Finding>) {
    let ms = mut_places(pairs);
    let os = other_places(pairs);
    (
        Flow { moved: moves_after(st.moved, callee, pairs), types: st.types },
        drop_findings(f, callee, pairs, Seq::empty()) + alias_findings(f, callee, ms, os, ms.len() as int),
    )
}

// ---------------------------------------------------------------------------
// The pass, as the spec sees it
// ---------------------------------------------------------------------------

/// The pass over an expression in function `f`: the state after it and
/// its findings, in order.
pub open spec fn expr_flow(it: Seq<Item>, f: Seq<char>, e: Expr, st: Flow) -> (Flow, Seq<Finding>)
    decreases e,
{
    match e {
        Expr::Ident(n) => (st, use_of(f, seq![n@], st)),
        Expr::Call { callee, args } => {
            let a = exprs_flow(it, f, args@, st);
            match *callee {
                Expr::Ident(cn) => match fn_kinds(it, cn@) {
                    Some(ks) => {
                        let b = applied(f, cn@, zip_kinds(places_of(args@), ks), a.0);
                        (b.0, a.1 + b.1)
                    },
                    None => a,
                },
                _ => {
                    let b = expr_flow(it, f, *callee, a.0);
                    (b.0, a.1 + b.1)
                },
            }
        },
        Expr::Method { receiver, method, args } => {
            let a = expr_flow(it, f, *receiver, st);
            let b = exprs_flow(it, f, args@, a.0);
            match method_for(it, *receiver, method@, b.0) {
                Some(sig) => {
                    let pairs = seq![(place_of(*receiver), sig.receiver)] + zip_kinds(places_of(args@), sig.args);
                    let c = applied(f, method@, pairs, b.0);
                    (c.0, a.1 + b.1 + c.1)
                },
                None => (b.0, a.1 + b.1),
            }
        },
        Expr::Field { receiver, field } => match place_of(*receiver) {
            Some(p) => {
                let a = operands_flow(it, f, *receiver, st);
                (a.0, a.1 + use_of(f, p.push(field@), a.0))
            },
            None => expr_flow(it, f, *receiver, st),
        },
        Expr::Index { receiver, index } => {
            let a = expr_flow(it, f, *index, st);
            match place_of(*receiver) {
                Some(p) => {
                    let b = operands_flow(it, f, *receiver, a.0);
                    (b.0, a.1 + b.1 + use_of(f, p.push("[*]"@), b.0))
                },
                None => {
                    let b = expr_flow(it, f, *receiver, a.0);
                    (b.0, a.1 + b.1)
                },
            }
        },
        Expr::Cast { expr, .. } => expr_flow(it, f, *expr, st),
        Expr::Binary { lhs, rhs, .. } => {
            let a = expr_flow(it, f, *lhs, st);
            let b = expr_flow(it, f, *rhs, a.0);
            (b.0, a.1 + b.1)
        },
        Expr::Unary { expr } => expr_flow(it, f, *expr, st),
        Expr::If { condition, then_block, elsif_clauses, else_block } => {
            let a = expr_flow(it, f, *condition, st);
            let t = block_flow(it, f, then_block, a.0);
            let m1 = if t.1 {
                a.0.moved.union_prefer_right(t.0.moved)
            } else {
                a.0.moved
            };
            let c = elsifs_flow(it, f, elsif_clauses@, a.0, m1);
            match else_block {
                Some(eb) => {
                    let x = block_flow(it, f, eb, a.0);
                    let m3 = if x.1 {
                        c.0.union_prefer_right(x.0.moved)
                    } else {
                        c.0
                    };
                    (Flow { moved: m3, types: a.0.types }, a.1 + t.2 + c.1 + x.2)
                },
                None => (Flow { moved: c.0, types: a.0.types }, a.1 + t.2 + c.1),
            }
        },
        Expr::Match { subject, arms } => {
            let a = expr_flow(it, f, *subject, st);
            let b = arms_flow(it, f, arms@, a.0, a.0.moved);
            (Flow { moved: b.0, types: a.0.types }, a.1 + b.1)
        },
        Expr::Try { body, rescues, ensure } => {
            let a = seq_block_flow(it, f, body, st);
            let b = rescues_flow(it, f, rescues@, a.0);
            match ensure {
                Some(en) => {
                    let c = seq_block_flow(it, f, en, b.0);
                    (c.0, a.1 + b.1 + c.1)
                },
                None => (b.0, a.1 + b.1),
            }
        },
        Expr::Array { elements } => exprs_flow(it, f, elements@, st),
        Expr::MapLit { entries } => entries_flow(it, f, entries@, st),
        _ => (st, Seq::empty()),
    }
}

/// The pass over expressions in order.
pub open spec fn exprs_flow(it: Seq<Item>, f: Seq<char>, es: Seq<Expr>, st: Flow) -> (Flow, Seq<Finding>)
    decreases es,
{
    if es.len() == 0 {
        (st, Seq::empty())
    } else {
        let a = expr_flow(it, f, es[0], st);
        let b = exprs_flow(it, f, es.subrange(1, es.len() as int), a.0);
        (b.0, a.1 + b.1)
    }
}

/// The pass over map entries, key then value, in order.
pub open spec fn entries_flow(it: Seq<Item>, f: Seq<char>, es: Seq<(Expr, Expr)>, st: Flow) -> (Flow, Seq<Finding>)
    decreases es,
{
    if es.len() == 0 {
        (st, Seq::empty())
    } else {
        let a = expr_flow(it, f, es[0].0, st);
        let b = expr_flow(it, f, es[0].1, a.0);
        let c = entries_flow(it, f, es.subrange(1, es.len() as int), b.0);
        (c.0, a.1 + b.1 + c.1)
    }
}

/// The operands inside a place expression: the index expressions.
pub open spec fn operands_flow(it: Seq<Item>, f: Seq<char>, e: Expr, st: Flow) -> (Flow, Seq<Finding>)
    decreases e,
{
    match e {
        Expr::Field { receiver, .. } => operands_flow(it, f, *receiver, st),
        Expr::Index { receiver, index } => {
            let a = operands_flow(it, f, *receiver, st);
            let b = expr_flow(it, f, *index, a.0);
            (b.0, a.1 + b.1)
        },
        _ => (st, Seq::empty()),
    }
}

/// The `elsif` clauses: each checked from `snap`, the moves of each one
/// that may continue (else those of its condition) merged into `m`.
pub open spec fn elsifs_flow(it: Seq<Item>, f: Seq<char>, cs: Seq<(Expr, Block)>, snap: Flow, m: Map<Seq<char>, (Seq<char>, Seq<char>)>) -> (Map<Seq<char>, (Seq<char>, Seq<char>)>, Seq<Finding>)
    decreases cs,
{
    if cs.len() == 0 {
        (m, Seq::empty())
    } else {
        let a = expr_flow(it, f, cs[0].0, snap);
        let b = block_flow(it, f, cs[0].1, a.0);
        let m1 = if b.1 {
            m.union_prefer_right(b.0.moved)
        } else {
            m.union_prefer_right(a.0.moved)
        };
        let r = elsifs_flow(it, f, cs.subrange(1, cs.len() as int), snap, m1);
        (r.0, a.1 + b.2 + r.1)
    }
}

/// The arms of a `match`: each checked from `snap` with its pattern's
/// names bound, then those names given back their state from `snap` (a
/// move of a pattern binding does not reach an outer binding of the same
/// name), its moves merged into `m`.
pub open spec fn arms_flow(it: Seq<Item>, f: Seq<char>, arms: Seq<MatchArm>, snap: Flow, m: Map<Seq<char>, (Seq<char>, Seq<char>)>) -> (Map<Seq<char>, (Seq<char>, Seq<char>)>, Seq<Finding>)
    decreases arms,
{
    if arms.len() == 0 {
        (m, Seq::empty())
    } else {
        let a0 = pattern_flow(arms[0].pattern, snap);
        let g = match arms[0].guard {
            Some(ge) => expr_flow(it, f, ge, a0),
            None => (a0, Seq::empty()),
        };
        let b = seq_block_flow(it, f, arms[0].body, g.0);
        let c = pattern_unbound(arms[0].pattern, b.0, snap);
        let r = arms_flow(it, f, arms.subrange(1, arms.len() as int), snap, m.union_prefer_right(c.moved));
        (r.0, g.1 + b.1 + r.1)
    }
}

/// The `rescue` clauses, in order, each rebinding its name first.
pub open spec fn rescues_flow(it: Seq<Item>, f: Seq<char>, rs: Seq<Rescue>, st: Flow) -> (Flow, Seq<Finding>)
    decreases rs,
{
    if rs.len() == 0 {
        (st, Seq::empty())
    } else {
        let s1 = match rs[0].name {
            Some(n) => rebound(st, n@),
            None => st,
        };
        let a = seq_block_flow(it, f, rs[0].body, s1);
        let r = rescues_flow(it, f, rs.subrange(1, rs.len() as int), a.0);
        (r.0, a.1 + r.1)
    }
}

/// A block as a branch: the state after it, whether it may continue (no
/// `return` among its statements), and its findings. The statements after
/// a `return` are not checked.
pub open spec fn block_flow(it: Seq<Item>, f: Seq<char>, b: Block, base: Flow) -> (Flow, bool, Seq<Finding>)
    decreases b,
{
    let s = branch_stmts_flow(it, f, b.stmts@, base);
    if s.1 {
        (s.0, false, s.2)
    } else {
        match b.tail_expr {
            Some(t) => {
                let x = expr_flow(it, f, *t, s.0);
                (x.0, true, s.2 + x.1)
            },
            None => (s.0, true, s.2),
        }
    }
}

/// Statements of a branch, up to and including the first `return`: the
/// state, whether a `return` was met, the findings.
pub open spec fn branch_stmts_flow(it: Seq<Item>, f: Seq<char>, ss: Seq<Stmt>, st: Flow) -> (Flow, bool, Seq<Finding>)
    decreases ss,
{
    if ss.len() == 0 {
        (st, false, Seq::empty())
    } else {
        let a = stmt_flow(it, f, ss[0], st);
        if ss[0] is Return {
            (a.0, true, a.1)
        } else {
            let r = branch_stmts_flow(it, f, ss.subrange(1, ss.len() as int), a.0);
            (r.0, r.1, a.1 + r.2)
        }
    }
}

/// A block checked straight through (the body of a `try`, a `rescue` or
/// an `ensure`).
pub open spec fn seq_block_flow(it: Seq<Item>, f: Seq<char>, b: Block, st: Flow) -> (Flow, Seq<Finding>)
    decreases b,
{
    let s = stmts_flow(it, f, b.stmts@, st);
    match b.tail_expr {
        Some(t) => {
            let x = expr_flow(it, f, *t, s.0);
            (x.0, s.1 + x.1)
        },
        None => s,
    }
}

/// Statements straight through.
pub open spec fn stmts_flow(it: Seq<Item>, f: Seq<char>, ss: Seq<Stmt>, st: Flow) -> (Flow, Seq<Finding>)
    decreases ss,
{
    if ss.len() == 0 {
        (st, Seq::empty())
    } else {
        let a = stmt_flow(it, f, ss[0], st);
        let r = stmts_flow(it, f, ss.subrange(1, ss.len() as int), a.0);
        (r.0, a.1 + r.1)
    }
}

/// An optional expression.
pub open spec fn opt_flow(it: Seq<Item>, f: Seq<char>, e: Option<Expr>, st: Flow) -> (Flow, Seq<Finding>)
    decreases e,
{
    match e {
        Some(x) => expr_flow(it, f, x, st),
        None => (st, Seq::empty()),
    }
}

/// A loop body taken once: its state when it may continue, else the state
/// before it.
pub open spec fn loop_state(b: (Flow, bool, Seq<Finding>), before: Flow) -> Flow {
    if b.1 { b.0 } else { before }
}

/// The pass over a statement.
pub open spec fn stmt_flow(it: Seq<Item>, f: Seq<char>, s: Stmt, st: Flow) -> (Flow, Seq<Finding>)
    decreases s,
{
    match s {
        Stmt::Let(d) => {
            let a = expr_flow(it, f, d.value, st);
            (rebound_typed(a.0, d.name@, declared_name(d.ty)), a.1)
        },
        Stmt::Var(d) => {
            let a = expr_flow(it, f, d.value, st);
            (rebound_typed(a.0, d.name@, declared_name(d.ty)), a.1)
        },
        Stmt::Const(d) => {
            let a = expr_flow(it, f, d.value, st);
            (rebound_typed(a.0, d.name@, declared_name(d.ty)), a.1)
        },
        Stmt::Assign { target, value, .. } => {
            let a = expr_flow(it, f, value, st);
            match place_of(target) {
                Some(p) => {
                    let b = operands_flow(it, f, target, a.0);
                    (rebound(b.0, place_text(p)), a.1 + b.1)
                },
                None => a,
            }
        },
        Stmt::While { condition, body, .. } => {
            let a = expr_flow(it, f, condition, st);
            let b = block_flow(it, f, body, a.0);
            (loop_state(b, a.0), a.1 + b.2)
        },
        Stmt::For { var, iter, body, .. } => {
            let a = expr_flow(it, f, iter, st);
            let base = Flow { moved: without_covered(a.0.moved, var@), types: a.0.types.remove(var@) };
            let b = block_flow(it, f, body, base);
            (if b.1 { restored(b.0, var@, a.0) } else { a.0 }, a.1 + b.2)
        },
        Stmt::Loop { body, .. } => {
            let b = block_flow(it, f, body, st);
            (loop_state(b, st), b.2)
        },
        Stmt::Break { value } => opt_flow(it, f, value, st),
        Stmt::Return { value } => opt_flow(it, f, value, st),
        Stmt::Yield { value } => opt_flow(it, f, value, st),
        Stmt::Next { value } => opt_flow(it, f, value, st),
        Stmt::Raise { value } => expr_flow(it, f, value, st),
        Stmt::Continue => (st, Seq::empty()),
        Stmt::Expr(x) => expr_flow(it, f, x, st),
    }
}

/// Binding a pattern's names: each is rebound and loses its declared type.
pub open spec fn pattern_flow(p: Pattern, st: Flow) -> Flow
    decreases p,
{
    match p {
        Pattern::Ident(n) => Flow { moved: without_covered(st.moved, n@), types: st.types.remove(n@) },
        Pattern::Tuple(ps) => patterns_flow(ps@, st),
        Pattern::Enum(_, ps) => patterns_flow(ps@, st),
        _ => st,
    }
}

/// Binding several patterns' names, in order.
pub open spec fn patterns_flow(ps: Seq<Pattern>, st: Flow) -> Flow
    decreases ps,
{
    if ps.len() == 0 {
        st
    } else {
        patterns_flow(ps.subrange(1, ps.len() as int), pattern_flow(ps[0], st))
    }
}

/// Leaving a pattern's scope: each name it binds gets back its state from
/// `snap`.
pub open spec fn pattern_unbound(p: Pattern, st: Flow, snap: Flow) -> Flow
    decreases p,
{
    match p {
        Pattern::Ident(n) => restored(st, n@, snap),
        Pattern::Tuple(ps) => patterns_unbound(ps@, st, snap),
        Pattern::Enum(_, ps) => patterns_unbound(ps@, st, snap),
        _ => st,
    }
}

/// Leaving several patterns' scopes, in order.
pub open spec fn patterns_unbound(ps: Seq<Pattern>, st: Flow, snap: Flow) -> Flow
    decreases ps,
{
    if ps.len() == 0 {
        st
    } else {
        patterns_unbound(ps.subrange(1, ps.len() as int), pattern_unbound(ps[0], st, snap), snap)
    }
}

/// The state before a function body: every parameter bound with its
/// declared type name, in order.
pub open spec fn params_flow(ps: Seq<Param>, st: Flow) -> Flow
    decreases ps.len(),
{
    if ps.len() == 0 {
        st
    } else {
        params_flow(ps.subrange(1, ps.len() as int), rebound_typed(st, ps[0].name@, declared_name(ps[0].ty)))
    }
}

/// The state with nothing moved and no type known.
pub open spec fn empty_flow() -> Flow {
    Flow { moved: Map::empty(), types: Map::empty() }
}

/// The findings in one function's body.
pub open spec fn fn_findings(it: Seq<Item>, fd: FnDef) -> Seq<Finding> {
    block_flow(it, fd.name@, fd.body, params_flow(fd.params@, empty_flow())).2
}

/// Whether a function is borrow-checked: it is safe, or its module is.
pub open spec fn is_checked(module_safe: bool, fd: FnDef) -> bool {
    module_safe || fd.mode == FnMode::Safe
}

/// The findings of the checked top-level functions among `items`, in
/// order, each resolved against the module's items `it`.
pub open spec fn items_findings(it: Seq<Item>, safe: bool, items: Seq<Item>) -> Seq<Finding>
    decreases items.len(),
{
    if items.len() == 0 {
        Seq::empty()
    } else {
        let pre = items_findings(it, safe, items.drop_last());
        match items.last() {
            Item::Fn(fd) => if is_checked(safe, fd) {
                pre + fn_findings(it, fd)
            } else {
                pre
            },
            _ => pre,
        }
    }
}

/// The findings of the borrow checker over a module.
pub open spec fn module_findings(m: Module) -> Seq<Finding> {
    items_findings(m.items@, m.safe, m.items@)
}

// ---------------------------------------------------------------------------
// Messages, places, argument ownership
// ---------------------------------------------------------------------------

/// The use-after-move message for a record.
fn use_after_move_text(f: &str, rec: &MoveRecord) -> (s: String)
    ensures
        s@ == use_after_move_message(f@, rec.binding@, rec.callee@),
{
    let mut m = String::from_str("use-after-move: in `");
    m.append(f);
    m.append("`, `");
    m.append(rec.binding.as_str());
    m.append("` was moved into `");
    m.append(rec.callee.as_str());
    m.append("` and cannot be used again");
    m
}

/// The drop-discipline message.
fn drop_text(f: &str, first: &String, second: &String, callee: &str) -> (s: String)
    ensures
        s@ == drop_message(f@, first@, second@, callee@),
{
    let mut m = String::from_str("drop discipline violation: in `");
    m.append(f);
    m.append("`, `");
    m.append(first.as_str());
    m.append("` and `");
    m.append(second.as_str());
    m.append("` are both passed as `own` to `");
    m.append(callee);
    m.append("`, which would drop the same place twice");
    m
}

/// The aliasing message.
fn alias_text(f: &str, place: &String, callee: &str) -> (s: String)
    ensures
        s@ == alias_message(f@, place@, callee@),
{
    let mut m = String::from_str("aliasing violation: in `");
    m.append(f);
    m.append("`, `");
    m.append(place.as_str());
    m.append("` is passed as `mut` to `");
    m.append(callee);
    m.append("` while another reference to the same binding is in flight");
    m
}

/// The view of an optional place.
pub open spec fn opt_place(o: Option<Vec<String>>) -> Option<Seq<Seq<char>>> {
    match o {
        Some(v) => Some(place_views(v@)),
        None => None,
    }
}

/// The place an expression names, if any.
pub fn place_path(e: &Expr) -> (r: Option<Vec<String>>)
    ensures
        opt_place(r) == place_of(*e),
    decreases e,
{
    match e {
        Expr::Ident(n) => {
            let v = vec![n.clone()];
            assert(place_views(v@) =~= seq![n@]);
            Some(v)
        },
        Expr::Field { receiver, field } => match place_path(receiver) {
            Some(mut v) => {
                let ghost v0 = v@;
                v.push(field.clone());
                assert(place_views(v@) =~= place_views(v0).push(field@));
                Some(v)
            },
            None => None,
        },
        Expr::Index { receiver, .. } => match place_path(receiver) {
            Some(mut v) => {
                let ghost v0 = v@;
                v.push(String::from_str("[*]"));
                assert(place_views(v@) =~= place_views(v0).push("[*]"@));
                Some(v)
            },
            None => None,
        },
        _ => None,
    }
}

/// A copy of a place.
fn copy_place(p: &Vec<String>) -> (r: Vec<String>)
    ensures
        place_views(r@) == place_views(p@),
{
    let mut r: Vec<String> = Vec::new();
    let mut i: usize = 0;
    while i < p.len()
        invariant
            i <= p@.len(),
            place_views(r@) == place_views(p@.subrange(0, i as int)),
        decreases p@.len() - i,
    {
        let ghost r0 = r@;
        r.push(p[i].clone());
        assert(place_views(r@) =~= place_views(p@.subrange(0, i as int + 1))) by {
            assert(place_views(r@) =~= place_views(r0).push(p@[i as int]@));
        }
        i = i + 1;
    }
    assert(p@.subrange(0, i as int) =~= p@);
    r
}

/// One more diagnostic reporting one more finding.
proof fn lemma_extends_push(a: Seq<CheckError>, b: Seq<CheckError>, xs: Seq<Finding>, x: Finding, d: CheckError)
    requires
        extends(a, b, xs),
        reports(x, d),
    ensures
        extends(a, b.push(d), xs.push(x)),
{
    assert(b.push(d).subrange(0, a.len() as int) =~= b.subrange(0, a.len() as int));
    assert forall|i: int| 0 <= i < xs.push(x).len() implies reports(#[trigger] xs.push(x)[i], b.push(d)[a.len() + i]) by {
        if i < xs.len() {
            assert(xs.push(x)[i] == xs[i]);
        }
    }
}

/// Reports a use of `place` when a move overlaps it.
fn report_use(f: &str, place: &[String], env: &Env, diags: &mut Vec<CheckError>)
    requires
        env.wf(),
    ensures
        extends(old(diags)@, final(diags)@, use_of(f@, place_views(place@), flow_of(*env))),
{
    let ghost d0 = diags@;
    proof {
        lemma_extends_none(d0);
    }
    match env.moved_record_for_place(place) {
        Some(rec) => {
            let text = use_after_move_text(f, rec);
            let ghost tv = text@;
            let d = CheckError::SafeModeViolation(text);
            proof {
                let st = flow_of(*env);
                let x = Finding::UseAfterMove { f: f@, place: place_views(place@), moved: st.moved };
                let k = choose|k: Seq<char>| env.moved_map().contains_key(k) && #[trigger] overlapping(split_dots(k), place_views(place@))
                    && env.moved_map()[k] == move_view(*rec);
                assert(overlapping(split_dots(k), place_views(place@)));
                assert(tv == use_after_move_message(f@, st.moved[k].0, st.moved[k].1));
                assert(exists|k2: Seq<char>| st.moved.contains_key(k2) && #[trigger] overlapping(split_dots(k2), place_views(place@))
                    && tv == use_after_move_message(f@, st.moved[k2].0, st.moved[k2].1));
                assert(d is SafeModeViolation);
                assert(d matches CheckError::SafeModeViolation(t) && t@ == tv);
                assert(x->f == f@ && x->place == place_views(place@) && x->moved == st.moved);
                assert(reports(x, d));
                assert(use_of(f@, place_views(place@), st) == seq![x]);
                lemma_extends_push(d0, d0, Seq::empty(), x, d);
                assert(Seq::<Finding>::empty().push(x) =~= seq![x]);
            }
            diags.push(d);
        },
        None => {
            assert(use_of(f@, place_views(place@), flow_of(*env)) =~= Seq::<Finding>::empty());
        },
    }
}

/// The view of argument places paired with parameter kinds.
pub open spec fn pairs_view(v: Seq<(Option<Vec<String>>, Option<Ownership>)>) -> Seq<(Option<Seq<Seq<char>>>, Option<Ownership>)> {
    v.map_values(|x: (Option<Vec<String>>, Option<Ownership>)| (opt_place(x.0), x.1))
}

/// The views of a list of places.
pub open spec fn places_view(v: Seq<Vec<String>>) -> Seq<Seq<Seq<char>>> {
    v.map_values(|p: Vec<String>| place_views(p@))
}

/// Appends the arguments' places paired with the kinds, as far as both go.
fn push_pairs(pairs: &mut Vec<(Option<Vec<String>>, Option<Ownership>)>, args: &Vec<Expr>, ks: &Vec<Option<Ownership>>)
    ensures
        pairs_view(final(pairs)@) == pairs_view(old(pairs)@) + zip_kinds(places_of(args@), ks@),
{
    let ghost p0 = pairs_view(pairs@);
    let n = if args.len() <= ks.len() { args.len() } else { ks.len() };
    let mut i: usize = 0;
    while i < n
        invariant
            n == if args@.len() <= ks@.len() { args@.len() } else { ks@.len() },
            i <= n,
            pairs_view(pairs@) == p0 + zip_kinds(places_of(args@), ks@).subrange(0, i as int),
        decreases n - i,
    {
        let ghost q = pairs@;
        let e = (place_path(&args[i]), ks[i]);
        pairs.push(e);
        assert(pairs_view(pairs@) =~= p0 + zip_kinds(places_of(args@), ks@).subrange(0, i as int + 1)) by {
            assert(pairs_view(pairs@) =~= pairs_view(q).push((opt_place(e.0), e.1)));
        }
        i = i + 1;
    }
    assert(zip_kinds(places_of(args@), ks@).subrange(0, i as int) =~= zip_kinds(places_of(args@), ks@));
}

/// `first_overlap` finds the first overlapping place.
proof fn lemma_first_overlap(owned: Seq<Seq<Seq<char>>>, p: Seq<Seq<char>>, j: int)
    requires
        -1 <= j < owned.len(),
        forall|k: int| 0 <= k < j ==> !overlapping(#[trigger] owned[k], p),
        j >= 0 ==> overlapping(owned[j], p),
        j == -1 ==> forall|k: int| 0 <= k < owned.len() ==> !overlapping(#[trigger] owned[k], p),
    ensures
        first_overlap(owned, p) == j,
    decreases owned.len(),
{
    if owned.len() > 0 {
        let t = owned.subrange(1, owned.len() as int);
        if j != 0 {
            assert(!overlapping(owned[0], p));
            let j1 = if j == -1 { -1 } else { j - 1 };
            assert forall|k: int| 0 <= k < j1 implies !overlapping(#[trigger] t[k], p) by {
                assert(t[k] == owned[k + 1]);
            }
            if j == -1 {
                assert forall|k: int| 0 <= k < t.len() implies !overlapping(#[trigger] t[k], p) by {
                    assert(t[k] == owned[k + 1]);
                }
            } else {
                assert(t[j1] == owned[j]);
            }
            lemma_first_overlap(t, p, j1);
        }
    }
}

/// Reports the first `own` argument whose place overlaps an earlier `own`
/// argument's place.
fn detect_drop(f: &str, callee: &str, pairs: &Vec<(Option<Vec<String>>, Option<Ownership>)>, diags: &mut Vec<CheckError>)
    ensures
        extends(old(diags)@, final(diags)@, drop_findings(f@, callee@, pairs_view(pairs@), Seq::empty())),
{
    let ghost pv = pairs_view(pairs@);
    let ghost d0 = diags@;
    let mut owned: Vec<Vec<String>> = Vec::new();
    let mut i: usize = 0;
    assert(pv.subrange(0, pv.len() as int) =~= pv);
    assert(places_view(owned@) =~= Seq::<Seq<Seq<char>>>::empty());
    while i < pairs.len()
        invariant
            pv == pairs_view(pairs@),
            i <= pairs@.len(),
            diags@ == d0,
            d0 == old(diags)@,
            drop_findings(f@, callee@, pv, Seq::empty()) == drop_findings(f@, callee@, pv.subrange(i as int, pv.len() as int), places_view(owned@)),
        decreases pairs@.len() - i,
    {
        let ghost ov = places_view(owned@);
        let ghost rest = pv.subrange(i as int, pv.len() as int);
        assert(rest[0] == pv[i as int]);
        assert(rest.subrange(1, rest.len() as int) =~= pv.subrange(i as int + 1, pv.len() as int));
        match pairs[i].1 {
            Some(Ownership::Own) => match &pairs[i].0 {
                Some(p) => {
                    let mut j: usize = 0;
                    while j < owned.len()
                        invariant
                            ov == places_view(owned@),
                            j <= owned@.len(),
                            diags@ == d0,
                            d0 == old(diags)@,
                            pv == pairs_view(pairs@),
                            i < pairs@.len(),
                            rest == pv.subrange(i as int, pv.len() as int),
                            rest[0] == (Some(place_views(p@)), Some(Ownership::Own)),
                            drop_findings(f@, callee@, pv, Seq::empty()) == drop_findings(f@, callee@, rest, ov),
                            forall|k: int| 0 <= k < j ==> !overlapping(#[trigger] ov[k], place_views(p@)),
                        decreases owned@.len() - j,
                    {
                        if places_overlap(owned[j].as_slice(), p.as_slice()) {
                            let first = format_place(owned[j].as_slice());
                            let second = format_place(p.as_slice());
                            let d = CheckError::SafeModeViolation(drop_text(f, &first, &second, callee));
                            let ghost x = Finding::Text(drop_message(f@, place_text(ov[j as int]), place_text(place_views(p@)), callee@));
                            proof {
                                lemma_first_overlap(ov, place_views(p@), j as int);
                                assert(drop_findings(f@, callee@, rest, ov) == seq![x]);
                                lemma_extends_none(d0);
                                lemma_extends_push(d0, d0, Seq::empty(), x, d);
                                assert(Seq::<Finding>::empty().push(x) =~= seq![x]);
                            }
                            diags.push(d);
                            assert(diags@ == d0.push(d));
                            assert(extends(d0, diags@, drop_findings(f@, callee@, pv, Seq::empty())));
                            return;
                        }
                        j = j + 1;
                    }
                    proof {
                        lemma_first_overlap(ov, place_views(p@), -1);
                    }
                    let ghost o0 = owned@;
                    owned.push(copy_place(p));
                    assert(places_view(owned@) =~= ov.push(place_views(p@))) by {
                        assert(places_view(owned@) =~= places_view(o0).push(place_views(owned@.last()@)));
                    }
                },
                None => {},
            },
            _ => {},
        }
        i = i + 1;
    }
    proof {
        lemma_extends_none(d0);
    }
}

/// Whether `p` overlaps any place of `ps` other than index `skip`.
fn overlaps_any(ps: &Vec<Vec<String>>, p: &Vec<String>, skip: usize, use_skip: bool) -> (r: bool)
    ensures
        r == exists|j: int| 0 <= j < ps@.len() && !(use_skip && j == skip) && #[trigger] overlapping(place_views(p@), places_view(ps@)[j]),
{
    let mut j: usize = 0;
    while j < ps.len()
        invariant
            j <= ps@.len(),
            forall|k: int| 0 <= k < j && !(use_skip && k == skip) ==> !#[trigger] overlapping(place_views(p@), places_view(ps@)[k]),
        decreases ps@.len() - j,
    {
        if !(use_skip && j == skip) && places_overlap(p.as_slice(), ps[j].as_slice()) {
            assert(places_view(ps@)[j as int] == place_views(ps@[j as int]@));
            return true;
        }
        j = j + 1;
    }
    false
}

/// Reports each `mut` argument whose place overlaps another argument's.
fn detect_aliasing(f: &str, callee: &str, pairs: &Vec<(Option<Vec<String>>, Option<Ownership>)>, diags: &mut Vec<CheckError>)
    ensures
        ({
            let pv = pairs_view(pairs@);
            extends(old(diags)@, final(diags)@, alias_findings(f@, callee@, mut_places(pv), other_places(pv), mut_places(pv).len() as int))
        }),
{
    let ghost pv = pairs_view(pairs@);
    let mut muts: Vec<Vec<String>> = Vec::new();
    let mut others: Vec<Vec<String>> = Vec::new();
    let mut i: usize = 0;
    assert(pv.subrange(0, 0) =~= Seq::<(Option<Seq<Seq<char>>>, Option<Ownership>)>::empty());
    assert(places_view(muts@) =~= Seq::<Seq<Seq<char>>>::empty());
    assert(places_view(others@) =~= Seq::<Seq<Seq<char>>>::empty());
    while i < pairs.len()
        invariant
            pv == pairs_view(pairs@),
            i <= pairs@.len(),
            places_view(muts@) == mut_places(pv.subrange(0, i as int)),
            places_view(others@) == other_places(pv.subrange(0, i as int)),
        decreases pairs@.len() - i,
    {
        let ghost pre = pv.subrange(0, i as int + 1);
        assert(pre.drop_last() =~= pv.subrange(0, i as int));
        assert(pre.last() == pv[i as int]);
        let ghost m0 = muts@;
        let ghost o0 = others@;
        match &pairs[i].0 {
            Some(p) => match pairs[i].1 {
                Some(Ownership::Mut) => {
                    muts.push(copy_place(p));
                    assert(places_view(muts@) =~= places_view(m0).push(place_views(p@))) by {
                        assert(places_view(muts@) =~= places_view(m0).push(place_views(muts@.last()@)));
                    }
                },
                _ => {
                    others.push(copy_place(p));
                    assert(places_view(others@) =~= places_view(o0).push(place_views(p@))) by {
                        assert(places_view(others@) =~= places_view(o0).push(place_views(others@.last()@)));
                    }
                },
            },
            None => {},
        }
        i = i + 1;
    }
    assert(pv.subrange(0, i as int) =~= pv);
    let ghost ms = places_view(muts@);
    let ghost os = places_view(others@);
    let ghost d0 = diags@;
    proof {
        lemma_extends_none(d0);
    }
    let mut idx: usize = 0;
    while idx < muts.len()
        invariant
            ms == places_view(muts@),
            os == places_view(others@),
            idx <= muts@.len(),
            extends(d0, diags@, alias_findings(f@, callee@, ms, os, idx as int)),
        decreases muts@.len() - idx,
    {
        let a = overlaps_any(&muts, &muts[idx], idx, true);
        let b = overlaps_any(&others, &muts[idx], 0, false);
        assert(ms[idx as int] == place_views(muts@[idx as int]@));
        if a || b {
            let text = format_place(muts[idx].as_slice());
            let d = CheckError::SafeModeViolation(alias_text(f, &text, callee));
            proof {
                assert(aliased(ms, os, idx as int)) by {
                    if a {
                        let j = choose|j: int| 0 <= j < ms.len() && !(true && j == idx) && #[trigger] overlapping(place_views(muts@[idx as int]@), ms[j]);
                        assert(overlapping(ms[idx as int], ms[j]));
                    } else {
                        let j = choose|j: int| 0 <= j < os.len() && !(false && j == 0) && #[trigger] overlapping(place_views(muts@[idx as int]@), os[j]);
                        assert(overlapping(ms[idx as int], os[j]));
                    }
                }
                let x = Finding::Text(alias_message(f@, place_text(ms[idx as int]), callee@));
                lemma_extends_push(d0, diags@, alias_findings(f@, callee@, ms, os, idx as int), x, d);
            }
            diags.push(d);
        } else {
            proof {
                if aliased(ms, os, idx as int) {
                    if exists|j: int| 0 <= j < ms.len() && j != idx && #[trigger] overlapping(ms[idx as int], ms[j]) {
                        let j = choose|j: int| 0 <= j < ms.len() && j != idx && #[trigger] overlapping(ms[idx as int], ms[j]);
                        assert(overlapping(place_views(muts@[idx as int]@), places_view(muts@)[j]));
                    } else {
                        let j = choose|j: int| 0 <= j < os.len() && #[trigger] overlapping(ms[idx as int], os[j]);
                        assert(overlapping(place_views(muts@[idx as int]@), places_view(others@)[j]));
                    }
                }
            }
        }
        idx = idx + 1;
    }
}

/// Applies a resolved call's parameter kinds to its arguments: reports
/// drop-discipline and aliasing violations, then records the moves into
/// `own` parameters.
fn apply_ownership(f: &str, callee: &str, pairs: &Vec<(Option<Vec<String>>, Option<Ownership>)>, env: &mut Env, diags: &mut Vec<CheckError>)
    requires
        old(env).wf(),
    ensures
        final(env).wf(),
        flow_of(*final(env)) == applied(f@, callee@, pairs_view(pairs@), flow_of(*old(env))).0,
        extends(old(diags)@, final(diags)@, applied(f@, callee@, pairs_view(pairs@), flow_of(*old(env))).1),
{
    let ghost pv = pairs_view(pairs@);
    let ghost d0 = diags@;
    detect_drop(f, callee, pairs, diags);
    let ghost d1 = diags@;
    detect_aliasing(f, callee, pairs, diags);
    proof {
        lemma_extends_chain(d0, d1, diags@, drop_findings(f@, callee@, pv, Seq::empty()),
            alias_findings(f@, callee@, mut_places(pv), other_places(pv), mut_places(pv).len() as int));
    }
    let ghost m0 = env.moved_map();
    let ghost t0 = env.type_map();
    let mut i: usize = 0;
    assert(pv.subrange(0, 0) =~= Seq::<(Option<Seq<Seq<char>>>, Option<Ownership>)>::empty());
    while i < pairs.len()
        invariant
            pv == pairs_view(pairs@),
            i <= pairs@.len(),
            env.wf(),
            env.moved_map() == moves_after(m0, callee@, pv.subrange(0, i as int)),
            env.type_map() == t0,
        decreases pairs@.len() - i,
    {
        let ghost pre = pv.subrange(0, i as int + 1);
        assert(pre.drop_last() =~= pv.subrange(0, i as int));
        assert(pre.last() == pv[i as int]);
        match pairs[i].1 {
            Some(Ownership::Own) => match &pairs[i].0 {
                Some(p) => {
                    env.record_move_place(p.as_slice(), callee);
                },
                None => {},
            },
            _ => {},
        }
        i = i + 1;
    }
    assert(pv.subrange(0, i as int) =~= pv);
}

// ---------------------------------------------------------------------------
// Resolving calls
// ---------------------------------------------------------------------------

/// The ownership of the parameters from index `from` on.
fn kinds_from(ps: &Vec<Param>, from: usize) -> (r: Vec<Option<Ownership>>)
    requires
        from <= ps@.len(),
    ensures
        r@ == kinds(ps@.subrange(from as int, ps@.len() as int)),
{
    let mut r: Vec<Option<Ownership>> = Vec::new();
    let mut i: usize = from;
    while i < ps.len()
        invariant
            from <= i <= ps@.len(),
            r@ == kinds(ps@.subrange(from as int, i as int)),
        decreases ps@.len() - i,
    {
        r.push(ps[i].ownership);
        assert(r@ =~= kinds(ps@.subrange(from as int, i as int + 1)));
        i = i + 1;
    }
    r
}

/// The parameter kinds of the last top-level function named `name`.
fn fn_kinds_of(items: &Vec<Item>, name: &str) -> (r: Option<Vec<Option<Ownership>>>)
    ensures
        match r {
            Some(v) => fn_kinds(items@, name@) == Some(v@),
            None => fn_kinds(items@, name@) is None,
        },
{
    let mut i: usize = items.len();
    assert(items@.subrange(0, i as int) =~= items@);
    while i > 0
        invariant
            i <= items@.len(),
            fn_kinds(items@, name@) == fn_kinds(items@.subrange(0, i as int), name@),
        decreases i,
    {
        let ghost pre = items@.subrange(0, i as int);
        assert(pre.drop_last() =~= items@.subrange(0, i as int - 1));
        assert(pre.last() == items@[i as int - 1]);
        match &items[i - 1] {
            Item::Fn(fd) => {
                if crate::text::str_eq(fd.name.as_str(), name) {
                    let r = kinds_from(&fd.params, 0);
                    assert(fd.params@.subrange(0, fd.params@.len() as int) =~= fd.params@);
                    return Some(r);
                }
            },
            _ => {},
        }
        i = i - 1;
    }
    None
}

/// A method's ownership contract.
struct MethodContract {
    receiver: Option<Ownership>,
    args: Vec<Option<Ownership>>,
}

/// The contract as the spec sees it.
spec fn contract_view(c: MethodContract) -> MethodSig {
    MethodSig { receiver: c.receiver, args: c.args@ }
}

/// The contract of a method definition.
fn contract_of(m: &FnDef) -> (r: MethodContract)
    ensures
        contract_view(r) == method_sig(*m),
{
    if m.params.len() > 0 && crate::text::str_eq(m.params[0].name.as_str(), "self") {
        MethodContract { receiver: m.params[0].ownership, args: kinds_from(&m.params, 1) }
    } else {
        let args = kinds_from(&m.params, 0);
        assert(m.params@.subrange(0, m.params@.len() as int) =~= m.params@);
        MethodContract { receiver: None, args }
    }
}

/// Whether two parameter kinds agree.
fn kind_eq(a: Option<Ownership>, b: Option<Ownership>) -> (r: bool)
    ensures
        r == (a == b),
{
    match (a, b) {
        (None, None) => true,
        (Some(x), Some(y)) => x == y,
        _ => false,
    }
}

/// Whether two contracts agree.
fn contracts_equal(a: &MethodContract, b: &MethodContract) -> (r: bool)
    ensures
        r == (contract_view(*a) == contract_view(*b)),
{
    if !kind_eq(a.receiver, b.receiver) || a.args.len() != b.args.len() {
        return false;
    }
    let mut i: usize = 0;
    while i < a.args.len()
        invariant
            a.args@.len() == b.args@.len(),
            i <= a.args@.len(),
            forall|j: int| 0 <= j < i ==> a.args@[j] == b.args@[j],
        decreases a.args@.len() - i,
    {
        if !kind_eq(a.args[i], b.args[i]) {
            return false;
        }
        i = i + 1;
    }
    assert(a.args@ =~= b.args@);
    true
}

/// A copy of a contract.
fn copy_contract(c: &MethodContract) -> (r: MethodContract)
    ensures
        contract_view(r) == contract_view(*c),
{
    let mut args: Vec<Option<Ownership>> = Vec::new();
    let mut i: usize = 0;
    while i < c.args.len()
        invariant
            i <= c.args@.len(),
            args@ == c.args@.subrange(0, i as int),
        decreases c.args@.len() - i,
    {
        args.push(c.args[i]);
        assert(args@ =~= c.args@.subrange(0, i as int + 1));
        i = i + 1;
    }
    assert(c.args@.subrange(0, i as int) =~= c.args@);
    MethodContract { receiver: c.receiver, args }
}

/// What a method name is bound to so far.
enum Bound {
    Absent,
    Unique(MethodContract),
    Ambiguous,
}

/// The binding as the spec sees it.
spec fn bound_view(b: Bound) -> Binding {
    match b {
        Bound::Absent => Binding::Absent,
        Bound::Unique(c) => Binding::Unique(contract_view(c)),
        Bound::Ambiguous => Binding::Ambiguous,
    }
}

/// Registers one more method contract.
fn register_contract(b: Bound, c: MethodContract) -> (r: Bound)
    ensures
        bound_view(r) == register(bound_view(b), contract_view(c)),
{
    match b {
        Bound::Absent => Bound::Unique(c),
        Bound::Unique(e) => if contracts_equal(&e, &c) {
            Bound::Unique(e)
        } else {
            Bound::Ambiguous
        },
        Bound::Ambiguous => Bound::Ambiguous,
    }
}

/// The optional target name as the spec sees it.
spec fn target_view(t: Option<&str>) -> Option<Seq<char>> {
    match t {
        Some(s) => Some(s@),
        None => None,
    }
}

/// Whether an impl block's target is the wanted one (any, with `None`).
fn target_matches(target: Option<&str>, ty: &TypeExpr) -> (r: bool)
    ensures
        r == (target_view(target) is None || simple_name_of(Some(ty)) == target_view(target)),
{
    match target {
        None => true,
        Some(t) => match crate::borrow::simple_type_name(Some(ty)) {
            Some(n) => crate::text::str_eq(n.as_str(), t),
            None => false,
        },
    }
}

/// The contract method `name` resolves to over the impl blocks (only those
/// of the target type, when one is given).
fn resolve_method(items: &Vec<Item>, target: Option<&str>, name: &str) -> (r: Option<MethodContract>)
    ensures
        match r {
            Some(c) => resolved(method_binding(items@, target_view(target), name@, Binding::Absent)) == Some(contract_view(c)),
            None => resolved(method_binding(items@, target_view(target), name@, Binding::Absent)) is None,
        },
{
    let ghost tv = target_view(target);
    let ghost want = method_binding(items@, tv, name@, Binding::Absent);
    let mut b = Bound::Absent;
    let mut i: usize = 0;
    assert(items@.subrange(0, items@.len() as int) =~= items@);
    while i < items.len()
        invariant
            i <= items@.len(),
            tv == target_view(target),
            want == method_binding(items@.subrange(i as int, items@.len() as int), tv, name@, bound_view(b)),
        decreases items@.len() - i,
    {
        let ghost rest = items@.subrange(i as int, items@.len() as int);
        assert(rest[0] == items@[i as int]);
        assert(rest.subrange(1, rest.len() as int) =~= items@.subrange(i as int + 1, items@.len() as int));
        match &items[i] {
            Item::Impl(ib) => {
                if target_matches(target, &ib.target) {
                    let ghost bm = register_methods(ib.methods@, name@, bound_view(b));
                    let mut j: usize = 0;
                    assert(ib.methods@.subrange(0, ib.methods@.len() as int) =~= ib.methods@);
                    while j < ib.methods.len()
                        invariant
                            j <= ib.methods@.len(),
                            bm == register_methods(ib.methods@.subrange(j as int, ib.methods@.len() as int), name@, bound_view(b)),
                        decreases ib.methods@.len() - j,
                    {
                        let ghost ms = ib.methods@.subrange(j as int, ib.methods@.len() as int);
                        assert(ms[0] == ib.methods@[j as int]);
                        assert(ms.subrange(1, ms.len() as int) =~= ib.methods@.subrange(j as int + 1, ib.methods@.len() as int));
                        if crate::text::str_eq(ib.methods[j].name.as_str(), name) {
                            let c = contract_of(&ib.methods[j]);
                            b = register_contract(b, c);
                        }
                        j = j + 1;
                    }
                }
            },
            _ => {},
        }
        i = i + 1;
    }
    match b {
        Bound::Unique(c) => Some(c),
        _ => None,
    }
}

/// The contract of method `m` called on `receiver`: by the receiver's
/// declared type when it is a binding with one, else by the name alone.
fn method_for_receiver(items: &Vec<Item>, receiver: &Expr, m: &str, env: &Env) -> (r: Option<MethodContract>)
    requires
        env.wf(),
    ensures
        match r {
            Some(c) => method_for(items@, *receiver, m@, flow_of(*env)) == Some(contract_view(c)),
            None => method_for(items@, *receiver, m@, flow_of(*env)) is None,
        },
{
    match receiver {
        Expr::Ident(n) => match env.type_of(n.as_str()) {
            Some(t) => resolve_method(items, Some(t), m),
            None => resolve_method(items, None, m),
        },
        _ => resolve_method(items, None, m),
    }
}

// ---------------------------------------------------------------------------
// The pass
// ---------------------------------------------------------------------------

/// The environment `env` denotes the state of `r` and the diagnostics
/// went from `before` to `after` by reporting `r`'s findings.
pub open spec fn steps(env: Env, before: Seq<CheckError>, after: Seq<CheckError>, r: (Flow, Seq<Finding>)) -> bool {
    env.wf() && flow_of(env) == r.0 && extends(before, after, r.1)
}

/// Checks an expression.
fn check_expr(it: &Vec<Item>, f: &str, e: &Expr, env: &mut Env, diags: &mut Vec<CheckError>)
    requires
        old(env).wf(),
    ensures
        steps(*final(env), old(diags)@, final(diags)@, expr_flow(it@, f@, *e, flow_of(*old(env)))),
    decreases e,
{
    let ghost st = flow_of(*env);
    let ghost d0 = diags@;
    match e {
        Expr::Ident(n) => {
            let place = vec![n.clone()];
            assert(place_views(place@) =~= seq![n@]);
            report_use(f, place.as_slice(), env, diags);
        },
        Expr::Call { callee, args } => {
            check_exprs(it, f, args, env, diags);
            let ghost a = exprs_flow(it@, f@, args@, st);
            let ghost d1 = diags@;
            match &**callee {
                Expr::Ident(cn) => match fn_kinds_of(it, cn.as_str()) {
                    Some(ks) => {
                        let mut pairs: Vec<(Option<Vec<String>>, Option<Ownership>)> = Vec::new();
                        assert(pairs_view(pairs@) =~= Seq::<(Option<Seq<Seq<char>>>, Option<Ownership>)>::empty());
                        push_pairs(&mut pairs, args, &ks);
                        let ghost pv = pairs_view(pairs@);
                        assert(pv =~= zip_kinds(places_of(args@), ks@));
                        apply_ownership(f, cn.as_str(), &pairs, env, diags);
                        proof {
                            lemma_extends_chain(d0, d1, diags@, a.1, applied(f@, cn@, pv, a.0).1);
                        }
                    },
                    None => {},
                },
                _ => {
                    check_expr(it, f, callee, env, diags);
                    proof {
                        lemma_extends_chain(d0, d1, diags@, a.1, expr_flow(it@, f@, **callee, a.0).1);
                    }
                },
            }
        },
        Expr::Method { receiver, method, args } => {
            check_expr(it, f, receiver, env, diags);
            let ghost a = expr_flow(it@, f@, **receiver, st);
            let ghost d1 = diags@;
            check_exprs(it, f, args, env, diags);
            let ghost b = exprs_flow(it@, f@, args@, a.0);
            let ghost d2 = diags@;
            proof {
                lemma_extends_chain(d0, d1, d2, a.1, b.1);
            }
            match method_for_receiver(it, receiver, method.as_str(), env) {
                Some(c) => {
                    let mut pairs: Vec<(Option<Vec<String>>, Option<Ownership>)> = Vec::new();
                    pairs.push((place_path(receiver), c.receiver));
                    let ghost p1 = pairs_view(pairs@);
                    assert(p1 =~= seq![(place_of(**receiver), c.receiver)]);
                    push_pairs(&mut pairs, args, &c.args);
                    let ghost pv = pairs_view(pairs@);
                    apply_ownership(f, method.as_str(), &pairs, env, diags);
                    proof {
                        lemma_extends_chain(d0, d2, diags@, a.1 + b.1, applied(f@, method@, pv, b.0).1);
                    }
                },
                None => {},
            }
        },
        Expr::Field { receiver, field } => match place_path(receiver) {
            Some(mut p) => {
                check_operands(it, f, receiver, env, diags);
                let ghost a = operands_flow(it@, f@, **receiver, st);
                let ghost d1 = diags@;
                let ghost p0 = p@;
                p.push(field.clone());
                assert(place_views(p@) =~= place_views(p0).push(field@));
                report_use(f, p.as_slice(), env, diags);
                proof {
                    lemma_extends_chain(d0, d1, diags@, a.1, use_of(f@, place_views(p@), a.0));
                }
            },
            None => {
                check_expr(it, f, receiver, env, diags);
            },
        },
        Expr::Index { receiver, index } => {
            check_expr(it, f, index, env, diags);
            let ghost a = expr_flow(it@, f@, **index, st);
            let ghost d1 = diags@;
            match place_path(receiver) {
                Some(mut p) => {
                    check_operands(it, f, receiver, env, diags);
                    let ghost b = operands_flow(it@, f@, **receiver, a.0);
                    let ghost d2 = diags@;
                    let ghost p0 = p@;
                    p.push(String::from_str("[*]"));
                    assert(place_views(p@) =~= place_views(p0).push("[*]"@));
                    report_use(f, p.as_slice(), env, diags);
                    proof {
                        lemma_extends_chain(d0, d1, d2, a.1, b.1);
                        lemma_extends_chain(d0, d2, diags@, a.1 + b.1, use_of(f@, place_views(p@), b.0));
                    }
                },
                None => {
                    check_expr(it, f, receiver, env, diags);
                    proof {
                        lemma_extends_chain(d0, d1, diags@, a.1, expr_flow(it@, f@, **receiver, a.0).1);
                    }
                },
            }
        },
        Expr::Cast { expr, .. } => {
            check_expr(it, f, expr, env, diags);
        },
        Expr::Binary { lhs, rhs, .. } => {
            check_expr(it, f, lhs, env, diags);
            let ghost a = expr_flow(it@, f@, **lhs, st);
            let ghost d1 = diags@;
            check_expr(it, f, rhs, env, diags);
            proof {
                lemma_extends_chain(d0, d1, diags@, a.1, expr_flow(it@, f@, **rhs, a.0).1);
            }
        },
        Expr::Unary { expr } => {
            check_expr(it, f, expr, env, diags);
        },
        Expr::If { condition, then_block, elsif_clauses, else_block } => {
            check_expr(it, f, condition, env, diags);
            let ghost a = expr_flow(it@, f@, **condition, st);
            let ghost d1 = diags@;
            let snapshot = env.snapshot();
            let mut merged = env.snapshot();
            let (tenv, tc) = check_branch_block(it, f, then_block, &snapshot, diags);
            let ghost t = block_flow(it@, f@, *then_block, a.0);
            let ghost d2 = diags@;
            if tc {
                merged.absorb_moved(&tenv);
            }
            check_elsifs(it, f, elsif_clauses, &snapshot, &mut merged, diags);
            let ghost m1 = if t.1 { a.0.moved.union_prefer_right(t.0.moved) } else { a.0.moved };
            let ghost c = elsifs_flow(it@, f@, elsif_clauses@, a.0, m1);
            let ghost d3 = diags@;
            proof {
                lemma_extends_chain(d0, d1, d2, a.1, t.2);
                lemma_extends_chain(d0, d2, d3, a.1 + t.2, c.1);
            }
            match else_block {
                Some(eb) => {
                    let (xenv, xc) = check_branch_block(it, f, eb, &snapshot, diags);
                    proof {
                        lemma_extends_chain(d0, d3, diags@, a.1 + t.2 + c.1, block_flow(it@, f@, *eb, a.0).2);
                    }
                    if xc {
                        merged.absorb_moved(&xenv);
                    }
                },
                None => {},
            }
            *env = merged;
        },
        Expr::Match { subject, arms } => {
            check_expr(it, f, subject, env, diags);
            let ghost a = expr_flow(it@, f@, **subject, st);
            let ghost d1 = diags@;
            let snapshot = env.snapshot();
            check_arms(it, f, arms, &snapshot, env, diags);
            proof {
                lemma_extends_chain(d0, d1, diags@, a.1, arms_flow(it@, f@, arms@, a.0, a.0.moved).1);
            }
        },
        Expr::Try { body, rescues, ensure } => {
            check_seq_block(it, f, body, env, diags);
            let ghost a = seq_block_flow(it@, f@, *body, st);
            let ghost d1 = diags@;
            check_rescues(it, f, rescues, env, diags);
            let ghost b = rescues_flow(it@, f@, rescues@, a.0);
            let ghost d2 = diags@;
            proof {
                lemma_extends_chain(d0, d1, d2, a.1, b.1);
            }
            match ensure {
                Some(en) => {
                    check_seq_block(it, f, en, env, diags);
                    proof {
                        lemma_extends_chain(d0, d2, diags@, a.1 + b.1, seq_block_flow(it@, f@, *en, b.0).1);
                    }
                },
                None => {},
            }
        },
        Expr::Array { elements } => {
            check_exprs(it, f, elements, env, diags);
        },
        Expr::MapLit { entries } => {
            check_entries(it, f, entries, env, diags);
        },
        _ => {
            proof {
                lemma_extends_none(d0);
            }
        },
    }
}

/// Checks expressions in order.
fn check_exprs(it: &Vec<Item>, f: &str, es: &Vec<Expr>, env: &mut Env, diags: &mut Vec<CheckError>)
    requires
        old(env).wf(),
    ensures
        steps(*final(env), old(diags)@, final(diags)@, exprs_flow(it@, f@, es@, flow_of(*old(env)))),
    decreases es,
{
    let ghost total = exprs_flow(it@, f@, es@, flow_of(*env));
    let ghost d0 = diags@;
    let ghost mut acc: Seq<Finding> = Seq::empty();
    proof {
        lemma_extends_none(d0);
        assert(es@.subrange(0, es@.len() as int) =~= es@);
        assert(acc + total.1 =~= total.1);
    }
    let mut i: usize = 0;
    while i < es.len()
        invariant
            i <= es@.len(),
            env.wf(),
            total.0 == exprs_flow(it@, f@, es@.subrange(i as int, es@.len() as int), flow_of(*env)).0,
            total.1 == acc + exprs_flow(it@, f@, es@.subrange(i as int, es@.len() as int), flow_of(*env)).1,
            extends(d0, diags@, acc),
        decreases es@.len() - i,
    {
        let ghost rest = es@.subrange(i as int, es@.len() as int);
        assert(rest[0] == es@[i as int]);
        assert(rest.subrange(1, rest.len() as int) =~= es@.subrange(i as int + 1, es@.len() as int));
        let ghost cur = flow_of(*env);
        let ghost d1 = diags@;
        proof {
            assert(decreases_to!(*es => es@));
            assert(decreases_to!(es@ => es@[i as int]));
        }
        check_expr(it, f, &es[i], env, diags);
        proof {
            let x = expr_flow(it@, f@, es@[i as int], cur);
            let r = exprs_flow(it@, f@, es@.subrange(i as int + 1, es@.len() as int), x.0);
            lemma_extends_chain(d0, d1, diags@, acc, x.1);
            assert(acc + (x.1 + r.1) =~= (acc + x.1) + r.1);
            acc = acc + x.1;
        }
        i = i + 1;
    }
    proof {
        assert(acc + Seq::<Finding>::empty() =~= acc);
    }
}

/// Checks map entries, key then value, in order.
fn check_entries(it: &Vec<Item>, f: &str, es: &Vec<(Expr, Expr)>, env: &mut Env, diags: &mut Vec<CheckError>)
    requires
        old(env).wf(),
    ensures
        steps(*final(env), old(diags)@, final(diags)@, entries_flow(it@, f@, es@, flow_of(*old(env)))),
    decreases es,
{
    let ghost total = entries_flow(it@, f@, es@, flow_of(*env));
    let ghost d0 = diags@;
    let ghost mut acc: Seq<Finding> = Seq::empty();
    proof {
        lemma_extends_none(d0);
        assert(es@.subrange(0, es@.len() as int) =~= es@);
        assert(acc + total.1 =~= total.1);
    }
    let mut i: usize = 0;
    while i < es.len()
        invariant
            i <= es@.len(),
            env.wf(),
            total.0 == entries_flow(it@, f@, es@.subrange(i as int, es@.len() as int), flow_of(*env)).0,
            total.1 == acc + entries_flow(it@, f@, es@.subrange(i as int, es@.len() as int), flow_of(*env)).1,
            extends(d0, diags@, acc),
        decreases es@.len() - i,
    {
        let ghost rest = es@.subrange(i as int, es@.len() as int);
        assert(rest[0] == es@[i as int]);
        assert(rest.subrange(1, rest.len() as int) =~= es@.subrange(i as int + 1, es@.len() as int));
        let ghost cur = flow_of(*env);
        let ghost d1 = diags@;
        proof {
            assert(decreases_to!(*es => es@));
            assert(decreases_to!(es@ => es@[i as int]));
            assert(decreases_to!(es@[i as int] => es@[i as int].0));
            assert(decreases_to!(es@[i as int] => es@[i as int].1));
        }
        check_expr(it, f, &es[i].0, env, diags);
        let ghost d2 = diags@;
        let ghost x = expr_flow(it@, f@, es@[i as int].0, cur);
        check_expr(it, f, &es[i].1, env, diags);
        proof {
            let y = expr_flow(it@, f@, es@[i as int].1, x.0);
            let r = entries_flow(it@, f@, es@.subrange(i as int + 1, es@.len() as int), y.0);
            lemma_extends_chain(d0, d1, d2, acc, x.1);
            lemma_extends_chain(d0, d2, diags@, acc + x.1, y.1);
            assert(acc + (x.1 + y.1 + r.1) =~= (acc + x.1 + y.1) + r.1);
            acc = acc + x.1 + y.1;
        }
        i = i + 1;
    }
    proof {
        assert(acc + Seq::<Finding>::empty() =~= acc);
    }
}

/// Checks the index expressions inside a place expression.
fn check_operands(it: &Vec<Item>, f: &str, e: &Expr, env: &mut Env, diags: &mut Vec<CheckError>)
    requires
        old(env).wf(),
    ensures
        steps(*final(env), old(diags)@, final(diags)@, operands_flow(it@, f@, *e, flow_of(*old(env)))),
    decreases e,
{
    let ghost st = flow_of(*env);
    let ghost d0 = diags@;
    match e {
        Expr::Field { receiver, .. } => {
            check_operands(it, f, receiver, env, diags);
        },
        Expr::Index { receiver, index } => {
            check_operands(it, f, receiver, env, diags);
            let ghost a = operands_flow(it@, f@, **receiver, st);
            let ghost d1 = diags@;
            check_expr(it, f, index, env, diags);
            proof {
                lemma_extends_chain(d0, d1, diags@, a.1, expr_flow(it@, f@, **index, a.0).1);
            }
        },
        _ => {
            proof {
                lemma_extends_none(d0);
            }
        },
    }
}

/// Checks the `elsif` clauses, each from `snap`, merging into `merged`.
fn check_elsifs(it: &Vec<Item>, f: &str, cs: &Vec<(Expr, Block)>, snap: &Env, merged: &mut Env, diags: &mut Vec<CheckError>)
    requires
        snap.wf(),
        old(merged).wf(),
    ensures
        final(merged).wf(),
        final(merged).moved_map() == elsifs_flow(it@, f@, cs@, flow_of(*snap), old(merged).moved_map()).0,
        final(merged).type_map() == old(merged).type_map(),
        extends(old(diags)@, final(diags)@, elsifs_flow(it@, f@, cs@, flow_of(*snap), old(merged).moved_map()).1),
    decreases cs,
{
    let ghost sn = flow_of(*snap);
    let ghost total = elsifs_flow(it@, f@, cs@, sn, merged.moved_map());
    let ghost t0 = merged.type_map();
    let ghost d0 = diags@;
    let ghost mut acc: Seq<Finding> = Seq::empty();
    proof {
        lemma_extends_none(d0);
        assert(cs@.subrange(0, cs@.len() as int) =~= cs@);
        assert(acc + total.1 =~= total.1);
    }
    let mut i: usize = 0;
    while i < cs.len()
        invariant
            i <= cs@.len(),
            snap.wf(),
            sn == flow_of(*snap),
            merged.wf(),
            merged.type_map() == t0,
            total.0 == elsifs_flow(it@, f@, cs@.subrange(i as int, cs@.len() as int), sn, merged.moved_map()).0,
            total.1 == acc + elsifs_flow(it@, f@, cs@.subrange(i as int, cs@.len() as int), sn, merged.moved_map()).1,
            extends(d0, diags@, acc),
        decreases cs@.len() - i,
    {
        let ghost rest = cs@.subrange(i as int, cs@.len() as int);
        assert(rest[0] == cs@[i as int]);
        assert(rest.subrange(1, rest.len() as int) =~= cs@.subrange(i as int + 1, cs@.len() as int));
        let ghost m = merged.moved_map();
        let ghost d1 = diags@;
        proof {
            assert(decreases_to!(*cs => cs@));
            assert(decreases_to!(cs@ => cs@[i as int]));
            assert(decreases_to!(cs@[i as int] => cs@[i as int].0));
            assert(decreases_to!(cs@[i as int] => cs@[i as int].1));
        }
        let mut alt = snap.snapshot();
        check_expr(it, f, &cs[i].0, &mut alt, diags);
        let ghost a = expr_flow(it@, f@, cs@[i as int].0, sn);
        let ghost d2 = diags@;
        let (benv, bc) = check_branch_block(it, f, &cs[i].1, &alt, diags);
        let ghost b = block_flow(it@, f@, cs@[i as int].1, a.0);
        if bc {
            merged.absorb_moved(&benv);
        } else {
            merged.absorb_moved(&alt);
        }
        proof {
            let r = elsifs_flow(it@, f@, cs@.subrange(i as int + 1, cs@.len() as int), sn, merged.moved_map());
            lemma_extends_chain(d0, d1, d2, acc, a.1);
            lemma_extends_chain(d0, d2, diags@, acc + a.1, b.2);
            assert(acc + (a.1 + b.2 + r.1) =~= (acc + a.1 + b.2) + r.1);
            acc = acc + a.1 + b.2;
        }
        i = i + 1;
    }
    proof {
        assert(acc + Seq::<Finding>::empty() =~= acc);
    }
}

/// Checks the arms of a `match`, each from `snap`, merging their moves
/// into `env`.
fn check_arms(it: &Vec<Item>, f: &str, arms: &Vec<MatchArm>, snap: &Env, env: &mut Env, diags: &mut Vec<CheckError>)
    requires
        snap.wf(),
        old(env).wf(),
    ensures
        final(env).wf(),
        final(env).moved_map() == arms_flow(it@, f@, arms@, flow_of(*snap), old(env).moved_map()).0,
        final(env).type_map() == old(env).type_map(),
        extends(old(diags)@, final(diags)@, arms_flow(it@, f@, arms@, flow_of(*snap), old(env).moved_map()).1),
    decreases arms,
{
    let ghost sn = flow_of(*snap);
    let ghost total = arms_flow(it@, f@, arms@, sn, env.moved_map());
    let ghost t0 = env.type_map();
    let ghost d0 = diags@;
    let ghost mut acc: Seq<Finding> = Seq::empty();
    proof {
        lemma_extends_none(d0);
        assert(arms@.subrange(0, arms@.len() as int) =~= arms@);
        assert(acc + total.1 =~= total.1);
    }
    let mut i: usize = 0;
    while i < arms.len()
        invariant
            i <= arms@.len(),
            snap.wf(),
            sn == flow_of(*snap),
            env.wf(),
            env.type_map() == t0,
            total.0 == arms_flow(it@, f@, arms@.subrange(i as int, arms@.len() as int), sn, env.moved_map()).0,
            total.1 == acc + arms_flow(it@, f@, arms@.subrange(i as int, arms@.len() as int), sn, env.moved_map()).1,
            extends(d0, diags@, acc),
        decreases arms@.len() - i,
    {
        let ghost rest = arms@.subrange(i as int, arms@.len() as int);
        assert(rest[0] == arms@[i as int]);
        assert(rest.subrange(1, rest.len() as int) =~= arms@.subrange(i as int + 1, arms@.len() as int));
        let ghost m = env.moved_map();
        let ghost d1 = diags@;
        let ghost arm = arms@[i as int];
        proof {
            assert(decreases_to!(*arms => arms@));
            assert(decreases_to!(arms@ => arms@[i as int]));
            assert(decreases_to!(arms@[i as int] => arms@[i as int].body));
        }
        let mut arm_env = snap.snapshot();
        bind_pattern(&arms[i].pattern, &mut arm_env);
        let ghost a0 = pattern_flow(arm.pattern, sn);
        match &arms[i].guard {
            Some(g) => {
                proof {
                    assert(decreases_to!(arms@[i as int] => arms@[i as int].guard));
                    assert(decreases_to!(arms@[i as int].guard => arms@[i as int].guard->0));
                }
                check_expr(it, f, g, &mut arm_env, diags);
            },
            None => {
                proof {
                    lemma_extends_none(d1);
                }
            },
        }
        let ghost g = match arm.guard {
            Some(ge) => expr_flow(it@, f@, ge, a0),
            None => (a0, Seq::<Finding>::empty()),
        };
        let ghost d2 = diags@;
        check_seq_block(it, f, &arms[i].body, &mut arm_env, diags);
        let ghost b = seq_block_flow(it@, f@, arm.body, g.0);
        unbind_pattern(&arms[i].pattern, &mut arm_env, snap);
        env.absorb_moved(&arm_env);
        proof {
            let r = arms_flow(it@, f@, arms@.subrange(i as int + 1, arms@.len() as int), sn, env.moved_map());
            lemma_extends_chain(d0, d1, d2, acc, g.1);
            lemma_extends_chain(d0, d2, diags@, acc + g.1, b.1);
            assert(acc + (g.1 + b.1 + r.1) =~= (acc + g.1 + b.1) + r.1);
            acc = acc + g.1 + b.1;
        }
        i = i + 1;
    }
    proof {
        assert(acc + Seq::<Finding>::empty() =~= acc);
    }
}

/// Checks the `rescue` clauses in order.
fn check_rescues(it: &Vec<Item>, f: &str, rs: &Vec<Rescue>, env: &mut Env, diags: &mut Vec<CheckError>)
    requires
        old(env).wf(),
    ensures
        steps(*final(env), old(diags)@, final(diags)@, rescues_flow(it@, f@, rs@, flow_of(*old(env)))),
    decreases rs,
{
    let ghost total = rescues_flow(it@, f@, rs@, flow_of(*env));
    let ghost d0 = diags@;
    let ghost mut acc: Seq<Finding> = Seq::empty();
    proof {
        lemma_extends_none(d0);
        assert(rs@.subrange(0, rs@.len() as int) =~= rs@);
        assert(acc + total.1 =~= total.1);
    }
    let mut i: usize = 0;
    while i < rs.len()
        invariant
            i <= rs@.len(),
            env.wf(),
            total.0 == rescues_flow(it@, f@, rs@.subrange(i as int, rs@.len() as int), flow_of(*env)).0,
            total.1 == acc + rescues_flow(it@, f@, rs@.subrange(i as int, rs@.len() as int), flow_of(*env)).1,
            extends(d0, diags@, acc),
        decreases rs@.len() - i,
    {
        let ghost rest = rs@.subrange(i as int, rs@.len() as int);
        assert(rest[0] == rs@[i as int]);
        assert(rest.subrange(1, rest.len() as int) =~= rs@.subrange(i as int + 1, rs@.len() as int));
        let ghost cur = flow_of(*env);
        let ghost d1 = diags@;
        proof {
            assert(decreases_to!(*rs => rs@));
            assert(decreases_to!(rs@ => rs@[i as int]));
            assert(decreases_to!(rs@[i as int] => rs@[i as int].body));
        }
        match &rs[i].name {
            Some(n) => env.rebind(n.as_str()),
            None => {},
        }
        let ghost s1 = flow_of(*env);
        check_seq_block(it, f, &rs[i].body, env, diags);
        proof {
            let x = seq_block_flow(it@, f@, rs@[i as int].body, s1);
            let r = rescues_flow(it@, f@, rs@.subrange(i as int + 1, rs@.len() as int), x.0);
            lemma_extends_chain(d0, d1, diags@, acc, x.1);
            assert(acc + (x.1 + r.1) =~= (acc + x.1) + r.1);
            acc = acc + x.1;
        }
        i = i + 1;
    }
    proof {
        assert(acc + Seq::<Finding>::empty() =~= acc);
    }
}

/// Checks a block as a branch from `base`: the state after it and whether
/// it may continue.
fn check_branch_block(it: &Vec<Item>, f: &str, b: &Block, base: &Env, diags: &mut Vec<CheckError>) -> (r: (Env, bool))
    requires
        base.wf(),
    ensures
        r.0.wf(),
        flow_of(r.0) == block_flow(it@, f@, *b, flow_of(*base)).0,
        r.1 == block_flow(it@, f@, *b, flow_of(*base)).1,
        extends(old(diags)@, final(diags)@, block_flow(it@, f@, *b, flow_of(*base)).2),
    decreases b,
{
    let ghost total = branch_stmts_flow(it@, f@, b.stmts@, flow_of(*base));
    let ghost d0 = diags@;
    let ghost mut acc: Seq<Finding> = Seq::empty();
    let mut env = base.snapshot();
    proof {
        lemma_extends_none(d0);
        assert(b.stmts@.subrange(0, b.stmts@.len() as int) =~= b.stmts@);
        assert(acc + total.2 =~= total.2);
    }
    let mut i: usize = 0;
    while i < b.stmts.len()
        invariant
            i <= b.stmts@.len(),
            env.wf(),
            total == branch_stmts_flow(it@, f@, b.stmts@, flow_of(*base)),
            total.0 == branch_stmts_flow(it@, f@, b.stmts@.subrange(i as int, b.stmts@.len() as int), flow_of(env)).0,
            total.1 == branch_stmts_flow(it@, f@, b.stmts@.subrange(i as int, b.stmts@.len() as int), flow_of(env)).1,
            total.2 == acc + branch_stmts_flow(it@, f@, b.stmts@.subrange(i as int, b.stmts@.len() as int), flow_of(env)).2,
            extends(d0, diags@, acc),
            d0 == old(diags)@,
        decreases b.stmts@.len() - i,
    {
        let ghost rest = b.stmts@.subrange(i as int, b.stmts@.len() as int);
        assert(rest[0] == b.stmts@[i as int]);
        assert(rest.subrange(1, rest.len() as int) =~= b.stmts@.subrange(i as int + 1, b.stmts@.len() as int));
        let ghost cur = flow_of(env);
        let ghost d1 = diags@;
        proof {
            assert(decreases_to!(*b => b.stmts));
            assert(decreases_to!(b.stmts => b.stmts@));
            assert(decreases_to!(b.stmts@ => b.stmts@[i as int]));
        }
        check_stmt(it, f, &b.stmts[i], &mut env, diags);
        let ghost x = stmt_flow(it@, f@, b.stmts@[i as int], cur);
        proof {
            lemma_extends_chain(d0, d1, diags@, acc, x.1);
        }
        let is_return = match &b.stmts[i] {
            Stmt::Return { .. } => true,
            _ => false,
        };
        if is_return {
            return (env, false);
        }
        proof {
            let r = branch_stmts_flow(it@, f@, b.stmts@.subrange(i as int + 1, b.stmts@.len() as int), x.0);
            assert(acc + (x.1 + r.2) =~= (acc + x.1) + r.2);
            acc = acc + x.1;
        }
        i = i + 1;
    }
    proof {
        assert(acc + Seq::<Finding>::empty() =~= acc);
    }
    let ghost d2 = diags@;
    match &b.tail_expr {
        Some(t) => {
            proof {
                assert(decreases_to!(*b => b.tail_expr));
                assert(decreases_to!(b.tail_expr => b.tail_expr->0));
            }
            let ghost s0 = flow_of(env);
            check_expr(it, f, t, &mut env, diags);
            proof {
                lemma_extends_chain(d0, d2, diags@, acc, expr_flow(it@, f@, **t, s0).1);
            }
        },
        None => {},
    }
    (env, true)
}

/// Checks a block straight through.
fn check_seq_block(it: &Vec<Item>, f: &str, b: &Block, env: &mut Env, diags: &mut Vec<CheckError>)
    requires
        old(env).wf(),
    ensures
        steps(*final(env), old(diags)@, final(diags)@, seq_block_flow(it@, f@, *b, flow_of(*old(env)))),
    decreases b,
{
    let ghost st = flow_of(*env);
    let ghost d0 = diags@;
    check_stmts(it, f, &b.stmts, env, diags);
    let ghost a = stmts_flow(it@, f@, b.stmts@, st);
    let ghost d1 = diags@;
    match &b.tail_expr {
        Some(t) => {
            proof {
                assert(decreases_to!(*b => b.tail_expr));
                assert(decreases_to!(b.tail_expr => b.tail_expr->0));
            }
            check_expr(it, f, t, env, diags);
            proof {
                lemma_extends_chain(d0, d1, diags@, a.1, expr_flow(it@, f@, **t, a.0).1);
            }
        },
        None => {},
    }
}

/// Checks statements straight through.
fn check_stmts(it: &Vec<Item>, f: &str, ss: &Vec<Stmt>, env: &mut Env, diags: &mut Vec<CheckError>)
    requires
        old(env).wf(),
    ensures
        steps(*final(env), old(diags)@, final(diags)@, stmts_flow(it@, f@, ss@, flow_of(*old(env)))),
    decreases ss,
{
    let ghost total = stmts_flow(it@, f@, ss@, flow_of(*env));
    let ghost d0 = diags@;
    let ghost mut acc: Seq<Finding> = Seq::empty();
    proof {
        lemma_extends_none(d0);
        assert(ss@.subrange(0, ss@.len() as int) =~= ss@);
        assert(acc + total.1 =~= total.1);
    }
    let mut i: usize = 0;
    while i < ss.len()
        invariant
            i <= ss@.len(),
            env.wf(),
            total.0 == stmts_flow(it@, f@, ss@.subrange(i as int, ss@.len() as int), flow_of(*env)).0,
            total.1 == acc + stmts_flow(it@, f@, ss@.subrange(i as int, ss@.len() as int), flow_of(*env)).1,
            extends(d0, diags@, acc),
        decreases ss@.len() - i,
    {
        let ghost rest = ss@.subrange(i as int, ss@.len() as int);
        assert(rest[0] == ss@[i as int]);
        assert(rest.subrange(1, rest.len() as int) =~= ss@.subrange(i as int + 1, ss@.len() as int));
        let ghost cur = flow_of(*env);
        let ghost d1 = diags@;
        proof {
            assert(decreases_to!(*ss => ss@));
            assert(decreases_to!(ss@ => ss@[i as int]));
        }
        check_stmt(it, f, &ss[i], env, diags);
        proof {
            let x = stmt_flow(it@, f@, ss@[i as int], cur);
            let r = stmts_flow(it@, f@, ss@.subrange(i as int + 1, ss@.len() as int), x.0);
            lemma_extends_chain(d0, d1, diags@, acc, x.1);
            assert(acc + (x.1 + r.1) =~= (acc + x.1) + r.1);
            acc = acc + x.1;
        }
        i = i + 1;
    }
    proof {
        assert(acc + Seq::<Finding>::empty() =~= acc);
    }
}

/// Binds a declaration's name with its declared type.
fn bind_decl(name: &String, ty: &Option<TypeExpr>, env: &mut Env)
    requires
        old(env).wf(),
    ensures
        final(env).wf(),
        flow_of(*final(env)) == rebound_typed(flow_of(*old(env)), name@, declared_name(*ty)),
{
    match ty {
        Some(t) => env.rebind_with_type(name.as_str(), Some(t)),
        None => env.rebind_with_type(name.as_str(), None),
    }
}

/// Checks a statement.
fn check_stmt(it: &Vec<Item>, f: &str, s: &Stmt, env: &mut Env, diags: &mut Vec<CheckError>)
    requires
        old(env).wf(),
    ensures
        steps(*final(env), old(diags)@, final(diags)@, stmt_flow(it@, f@, *s, flow_of(*old(env)))),
    decreases s,
{
    let ghost st = flow_of(*env);
    let ghost d0 = diags@;
    match s {
        Stmt::Let(d) => {
            check_expr(it, f, &d.value, env, diags);
            bind_decl(&d.name, &d.ty, env);
        },
        Stmt::Var(d) => {
            check_expr(it, f, &d.value, env, diags);
            bind_decl(&d.name, &d.ty, env);
        },
        Stmt::Const(d) => {
            check_expr(it, f, &d.value, env, diags);
            bind_decl(&d.name, &d.ty, env);
        },
        Stmt::Assign { target, value, .. } => {
            check_expr(it, f, value, env, diags);
            let ghost a = expr_flow(it@, f@, *value, st);
            let ghost d1 = diags@;
            match place_path(target) {
                Some(p) => {
                    check_operands(it, f, target, env, diags);
                    proof {
                        lemma_extends_chain(d0, d1, diags@, a.1, operands_flow(it@, f@, *target, a.0).1);
                    }
                    env.rebind_place(p.as_slice());
                },
                None => {},
            }
        },
        Stmt::While { condition, body, .. } => {
            check_expr(it, f, condition, env, diags);
            let ghost a = expr_flow(it@, f@, *condition, st);
            let ghost d1 = diags@;
            let snapshot = env.snapshot();
            let (benv, c) = check_branch_block(it, f, body, &snapshot, diags);
            proof {
                lemma_extends_chain(d0, d1, diags@, a.1, block_flow(it@, f@, *body, a.0).2);
            }
            if c {
                *env = benv;
            } else {
                *env = snapshot;
            }
        },
        Stmt::For { var, iter, body, .. } => {
            check_expr(it, f, iter, env, diags);
            let ghost a = expr_flow(it@, f@, *iter, st);
            let ghost d1 = diags@;
            let snapshot = env.snapshot();
            let mut base = env.snapshot();
            base.rebind(var.as_str());
            base.forget_type(var.as_str());
            let (benv, c) = check_branch_block(it, f, body, &base, diags);
            proof {
                lemma_extends_chain(d0, d1, diags@, a.1, block_flow(it@, f@, *body, flow_of(base)).2);
            }
            if c {
                *env = benv;
                env.restore_binding_from(var.as_str(), &snapshot);
            } else {
                *env = snapshot;
            }
        },
        Stmt::Loop { body, .. } => {
            let snapshot = env.snapshot();
            let (benv, c) = check_branch_block(it, f, body, &snapshot, diags);
            if c {
                *env = benv;
            } else {
                *env = snapshot;
            }
        },
        Stmt::Break { value } | Stmt::Return { value } | Stmt::Yield { value } | Stmt::Next { value } => {
            match value {
                Some(v) => {
                    proof {
                        assert(decreases_to!(*value => value->0));
                    }
                    check_expr(it, f, v, env, diags);
                },
                None => {
                    proof {
                        lemma_extends_none(d0);
                    }
                },
            }
        },
        Stmt::Raise { value } => {
            check_expr(it, f, value, env, diags);
        },
        Stmt::Continue => {
            proof {
                lemma_extends_none(d0);
            }
        },
        Stmt::Expr(x) => {
            check_expr(it, f, x, env, diags);
        },
    }
}

/// Binds a pattern's names.
fn bind_pattern(p: &Pattern, env: &mut Env)
    requires
        old(env).wf(),
    ensures
        final(env).wf(),
        flow_of(*final(env)) == pattern_flow(*p, flow_of(*old(env))),
    decreases p,
{
    match p {
        Pattern::Ident(n) => {
            env.rebind(n.as_str());
            env.forget_type(n.as_str());
        },
        Pattern::Tuple(ps) => bind_patterns(ps, env),
        Pattern::Enum(_, ps) => bind_patterns(ps, env),
        _ => {},
    }
}

/// Binds several patterns' names, in order.
fn bind_patterns(ps: &Vec<Pattern>, env: &mut Env)
    requires
        old(env).wf(),
    ensures
        final(env).wf(),
        flow_of(*final(env)) == patterns_flow(ps@, flow_of(*old(env))),
    decreases ps,
{
    let ghost total = patterns_flow(ps@, flow_of(*env));
    assert(ps@.subrange(0, ps@.len() as int) =~= ps@);
    let mut i: usize = 0;
    while i < ps.len()
        invariant
            i <= ps@.len(),
            env.wf(),
            total == patterns_flow(ps@.subrange(i as int, ps@.len() as int), flow_of(*env)),
        decreases ps@.len() - i,
    {
        let ghost rest = ps@.subrange(i as int, ps@.len() as int);
        assert(rest[0] == ps@[i as int]);
        assert(rest.subrange(1, rest.len() as int) =~= ps@.subrange(i as int + 1, ps@.len() as int));
        proof {
            assert(decreases_to!(*ps => ps@));
            assert(decreases_to!(ps@ => ps@[i as int]));
        }
        bind_pattern(&ps[i], env);
        i = i + 1;
    }
}

/// Leaves a pattern's scope: each name it binds gets back its state from
/// `snap`.
fn unbind_pattern(p: &Pattern, env: &mut Env, snap: &Env)
    requires
        old(env).wf(),
        snap.wf(),
    ensures
        final(env).wf(),
        flow_of(*final(env)) == pattern_unbound(*p, flow_of(*old(env)), flow_of(*snap)),
    decreases p,
{
    match p {
        Pattern::Ident(n) => env.restore_binding_from(n.as_str(), snap),
        Pattern::Tuple(ps) => unbind_patterns(ps, env, snap),
        Pattern::Enum(_, ps) => unbind_patterns(ps, env, snap),
        _ => {},
    }
}

/// Leaves several patterns' scopes, in order.
fn unbind_patterns(ps: &Vec<Pattern>, env: &mut Env, snap: &Env)
    requires
        old(env).wf(),
        snap.wf(),
    ensures
        final(env).wf(),
        flow_of(*final(env)) == patterns_unbound(ps@, flow_of(*old(env)), flow_of(*snap)),
    decreases ps,
{
    let ghost sn = flow_of(*snap);
    let ghost total = patterns_unbound(ps@, flow_of(*env), sn);
    assert(ps@.subrange(0, ps@.len() as int) =~= ps@);
    let mut i: usize = 0;
    while i < ps.len()
        invariant
            i <= ps@.len(),
            env.wf(),
            snap.wf(),
            sn == flow_of(*snap),
            total == patterns_unbound(ps@.subrange(i as int, ps@.len() as int), flow_of(*env), sn),
        decreases ps@.len() - i,
    {
        let ghost rest = ps@.subrange(i as int, ps@.len() as int);
        assert(rest[0] == ps@[i as int]);
        assert(rest.subrange(1, rest.len() as int) =~= ps@.subrange(i as int + 1, ps@.len() as int));
        proof {
            assert(decreases_to!(*ps => ps@));
            assert(decreases_to!(ps@ => ps@[i as int]));
        }
        unbind_pattern(&ps[i], env, snap);
        i = i + 1;
    }
}

/// Checks one function's body, its parameters bound first.
fn check_fn_body(it: &Vec<Item>, fd: &FnDef, diags: &mut Vec<CheckError>)
    ensures
        extends(old(diags)@, final(diags)@, fn_findings(it@, *fd)),
{
    let mut env = Env::new();
    let ghost total = params_flow(fd.params@, empty_flow());
    assert(flow_of(env) == empty_flow());
    assert(fd.params@.subrange(0, fd.params@.len() as int) =~= fd.params@);
    let mut i: usize = 0;
    while i < fd.params.len()
        invariant
            i <= fd.params@.len(),
            env.wf(),
            total == params_flow(fd.params@.subrange(i as int, fd.params@.len() as int), flow_of(env)),
        decreases fd.params@.len() - i,
    {
        let ghost rest = fd.params@.subrange(i as int, fd.params@.len() as int);
        assert(rest[0] == fd.params@[i as int]);
        assert(rest.subrange(1, rest.len() as int) =~= fd.params@.subrange(i as int + 1, fd.params@.len() as int));
        bind_decl(&fd.params[i].name, &fd.params[i].ty, &mut env);
        i = i + 1;
    }
    let _ = check_branch_block(it, fd.name.as_str(), &fd.body, &env, diags);
}

/// Runs the borrow checker over a module: the move, aliasing and drop
/// diagnostics of its checked top-level functions, in order.
pub fn check_borrows(module: &Module) -> (r: Vec<CheckError>)
    ensures
        extends(Seq::empty(), r@, module_findings(*module)),
{
    let mut diags: Vec<CheckError> = Vec::new();
    let ghost it = module.items@;
    let mut i: usize = 0;
    assert(it.subrange(0, 0) =~= Seq::<Item>::empty());
    proof {
        lemma_extends_none(diags@);
    }
    while i < module.items.len()
        invariant
            it == module.items@,
            i <= it.len(),
            extends(Seq::empty(), diags@, items_findings(it, module.safe, it.subrange(0, i as int))),
        decreases it.len() - i,
    {
        let ghost pre = it.subrange(0, i as int + 1);
        assert(pre.drop_last() =~= it.subrange(0, i as int));
        assert(pre.last() == it[i as int]);
        let ghost d1 = diags@;
        match &module.items[i] {
            Item::Fn(fd) => {
                if module.safe || fd.mode == FnMode::Safe {
                    check_fn_body(&module.items, fd, &mut diags);
                    proof {
                        lemma_extends_chain(Seq::empty(), d1, diags@, items_findings(it, module.safe, it.subrange(0, i as int)), fn_findings(it, *fd));
                    }
                }
            },
            _ => {},
        }
        i = i + 1;
    }
    assert(it.subrange(0, i as int) =~= it);
    diags
}

// ---------------------------------------------------------------------------
// Laws
// ---------------------------------------------------------------------------

/// A place whose segments hold no dot (every place the parser builds from
/// identifiers and fields).
pub open spec fn plain_place(p: Seq<Seq<char>>) -> bool {
    p.len() >= 1 && forall|i: int| 0 <= i < p.len() ==> dot_free(#[trigger] p[i])
}

/// A call's moves keep every earlier move's place, and record each `own`
/// argument's place.
proof fn lemma_moves_after_has(moved: Map<Seq<char>, (Seq<char>, Seq<char>)>, callee: Seq<char>, pairs: Seq<(Option<Seq<Seq<char>>>, Option<Ownership>)>, i: int)
    requires
        0 <= i < pairs.len(),
        pairs[i].0 is Some,
        pairs[i].1 == Some(Ownership::Own),
    ensures
        moves_after(moved, callee, pairs).contains_key(place_text(pairs[i].0->0)),
    decreases pairs.len(),
{
    if i < pairs.len() - 1 {
        lemma_moves_after_has(moved, callee, pairs.drop_last(), i);
    }
}

/// Use after `own`: once a call passes a place to an `own` parameter, a
/// later use of that place (before it is rebound) is reported as a
/// use-after-move.
pub proof fn lemma_use_after_own_is_reported(f: Seq<char>, g: Seq<char>, callee: Seq<char>, pairs: Seq<(Option<Seq<Seq<char>>>, Option<Ownership>)>, st: Flow, i: int)
    requires
        0 <= i < pairs.len(),
        pairs[i].0 is Some,
        pairs[i].1 == Some(Ownership::Own),
        plain_place(pairs[i].0->0),
    ensures
        use_of(g, pairs[i].0->0, applied(f, callee, pairs, st).0).len() == 1,
{
    let p = pairs[i].0->0;
    lemma_moves_after_has(st.moved, callee, pairs, i);
    lemma_split_join(p);
    let after = applied(f, callee, pairs, st).0;
    assert(after.moved.contains_key(place_text(p)) && overlapping(split_dots(place_text(p)), p));
}

/// Rebinding: after `let`, `var` or `const`, nothing at or below the
/// declared name is moved.
pub proof fn lemma_declaration_rebinds(it: Seq<Item>, f: Seq<char>, s: Stmt, st: Flow, k: Seq<char>)
    requires
        s is Let || s is Var || s is Const,
        stmt_flow(it, f, s, st).0.moved.contains_key(k),
    ensures
        match s {
            Stmt::Let(d) => !covers(d.name@, k),
            Stmt::Var(d) => !covers(d.name@, k),
            Stmt::Const(d) => !covers(d.name@, k),
            _ => true,
        },
{
}

/// The number of `mut` places among the first `n` pairs.
spec fn mut_count(pairs: Seq<(Option<Seq<Seq<char>>>, Option<Ownership>)>, n: int) -> nat {
    mut_places(pairs.subrange(0, n)).len()
}

/// Where a pair's place lands among the `mut` places or the other places.
proof fn lemma_place_lands(pairs: Seq<(Option<Seq<Seq<char>>>, Option<Ownership>)>, n: int, i: int)
    requires
        0 <= i < n <= pairs.len(),
        pairs[i].0 is Some,
    ensures
        pairs[i].1 == Some(Ownership::Mut) ==> ({
            let ms = mut_places(pairs.subrange(0, n));
            let c = mut_count(pairs, i);
            &&& c < ms.len()
            &&& ms[c as int] == pairs[i].0->0
            &&& c < mut_count(pairs, n)
        }),
        pairs[i].1 != Some(Ownership::Mut) ==> ({
            let os = other_places(pairs.subrange(0, n));
            exists|j: int| 0 <= j < os.len() && os[j] == pairs[i].0->0
        }),
        mut_count(pairs, i) <= mut_count(pairs, n),
    decreases n,
{
    let pre = pairs.subrange(0, n);
    assert(pre.drop_last() =~= pairs.subrange(0, n - 1));
    assert(pre.last() == pairs[n - 1]);
    if i < n - 1 {
        lemma_place_lands(pairs, n - 1, i);
        let ms0 = mut_places(pairs.subrange(0, n - 1));
        let os0 = other_places(pairs.subrange(0, n - 1));
        if pairs[i].1 != Some(Ownership::Mut) {
            let j = choose|j: int| 0 <= j < os0.len() && os0[j] == pairs[i].0->0;
            let os = other_places(pre);
            assert(os[j] == os0[j]);
        }
    } else {
        assert(pairs.subrange(0, i) =~= pairs.subrange(0, n - 1));
        if pairs[i].1 != Some(Ownership::Mut) {
            let os = other_places(pre);
            assert(os[os.len() - 1] == pairs[i].0->0);
        }
    }
}

/// The aliasing findings grow with the number of places looked at, and
/// include one for every aliased place.
proof fn lemma_alias_found(f: Seq<char>, callee: Seq<char>, ms: Seq<Seq<Seq<char>>>, os: Seq<Seq<Seq<char>>>, n: int, idx: int)
    requires
        0 <= idx < n,
        aliased(ms, os, idx),
    ensures
        alias_findings(f, callee, ms, os, n).len() >= 1,
    decreases n,
{
    if idx < n - 1 {
        lemma_alias_found(f, callee, ms, os, n - 1, idx);
    }
}

/// Aliasing-XOR-mutation: when a call passes a place as `mut` and an
/// overlapping place as another argument, it is reported.
pub proof fn lemma_mut_alias_is_reported(f: Seq<char>, callee: Seq<char>, pairs: Seq<(Option<Seq<Seq<char>>>, Option<Ownership>)>, st: Flow, i: int, j: int)
    requires
        0 <= i < pairs.len(),
        0 <= j < pairs.len(),
        i != j,
        pairs[i].0 is Some,
        pairs[j].0 is Some,
        pairs[i].1 == Some(Ownership::Mut),
        overlapping(pairs[i].0->0, pairs[j].0->0),
    ensures
        applied(f, callee, pairs, st).1.len() >= 1,
{
    let n = pairs.len() as int;
    assert(pairs.subrange(0, n) =~= pairs);
    let ms = mut_places(pairs);
    let os = other_places(pairs);
    lemma_place_lands(pairs, n, i);
    lemma_place_lands(pairs, n, j);
    let ci = mut_count(pairs, i);
    if pairs[j].1 == Some(Ownership::Mut) {
        let cj = mut_count(pairs, j);
        if i < j {
            lemma_place_lands(pairs, j, i);
        } else {
            lemma_place_lands(pairs, i, j);
        }
        assert(ci != cj);
        assert(overlapping(ms[ci as int], ms[cj as int]));
    } else {
        let k = choose|k: int| 0 <= k < os.len() && os[k] == pairs[j].0->0;
        assert(overlapping(ms[ci as int], os[k]));
    }
    assert(aliased(ms, os, ci as int));
    lemma_alias_found(f, callee, ms, os, ms.len() as int, ci as int);
}

/// `first_overlap` is negative only when nothing overlaps.
proof fn lemma_no_overlap(owned: Seq<Seq<Seq<char>>>, p: Seq<Seq<char>>, k: int)
    requires
        first_overlap(owned, p) < 0,
        0 <= k < owned.len(),
    ensures
        !overlapping(owned[k], p),
    decreases owned.len(),
{
    if k > 0 {
        let t = owned.subrange(1, owned.len() as int);
        assert(t[k - 1] == owned[k]);
        lemma_no_overlap(t, p, k - 1);
    }
}

/// The drop-discipline finding appears when an `own` place overlaps one
/// already owned, or two `own` places of the call overlap.
proof fn lemma_drop_found(f: Seq<char>, callee: Seq<char>, pairs: Seq<(Option<Seq<Seq<char>>>, Option<Ownership>)>, owned: Seq<Seq<Seq<char>>>, i: int, o: Seq<Seq<char>>)
    requires
        0 <= i < pairs.len(),
        pairs[i].0 is Some,
        pairs[i].1 == Some(Ownership::Own),
        overlapping(o, pairs[i].0->0),
        owned.contains(o) || exists|j: int| 0 <= j < i && pairs[j].1 == Some(Ownership::Own) && pairs[j].0 == Some(o),
    ensures
        drop_findings(f, callee, pairs, owned).len() == 1,
    decreases pairs.len(),
{
    let rest = pairs.subrange(1, pairs.len() as int);
    match pairs[0] {
        (Some(p), Some(Ownership::Own)) => {
            if first_overlap(owned, p) < 0 {
                if i == 0 {
                    let k = choose|k: int| 0 <= k < owned.len() && owned[k] == o;
                    lemma_no_overlap(owned, p, k);
                    assert(false);
                } else {
                    assert(rest[i - 1] == pairs[i]);
                    if !owned.contains(o) {
                        let j = choose|j: int| 0 <= j < i && pairs[j].1 == Some(Ownership::Own) && pairs[j].0 == Some(o);
                        if j == 0 {
                            assert(owned.push(p)[owned.len() as int] == o);
                        } else {
                            assert(rest[j - 1] == pairs[j]);
                        }
                    } else {
                        let k = choose|k: int| 0 <= k < owned.len() && owned[k] == o;
                        assert(owned.push(p)[k] == o);
                    }
                    lemma_drop_found(f, callee, rest, owned.push(p), i - 1, o);
                }
            }
        },
        _ => {
            assert(i != 0);
            assert(rest[i - 1] == pairs[i]);
            if !owned.contains(o) {
                let j = choose|j: int| 0 <= j < i && pairs[j].1 == Some(Ownership::Own) && pairs[j].0 == Some(o);
                assert(j != 0);
                assert(rest[j - 1] == pairs[j]);
            }
            lemma_drop_found(f, callee, rest, owned, i - 1, o);
        },
    }
}

/// Drop discipline: when one call passes two overlapping places to `own`
/// parameters, it is reported.
pub proof fn lemma_double_own_is_reported(f: Seq<char>, callee: Seq<char>, pairs: Seq<(Option<Seq<Seq<char>>>, Option<Ownership>)>, st: Flow, i: int, j: int)
    requires
        0 <= j < i < pairs.len(),
        pairs[i].0 is Some,
        pairs[j].0 is Some,
        pairs[i].1 == Some(Ownership::Own),
        pairs[j].1 == Some(Ownership::Own),
        overlapping(pairs[j].0->0, pairs[i].0->0),
    ensures
        applied(f, callee, pairs, st).1.len() >= 1,
{
    lemma_drop_found(f, callee, pairs, Seq::empty(), i, pairs[j].0->0);
}

/// Managed code is not borrow-checked: in a module that is not `@safe`,
/// functions declared with `def` contribute no findings.
pub proof fn lemma_managed_functions_unchecked(it: Seq<Item>, items: Seq<Item>)
    requires
        forall|i: int| 0 <= i < items.len() ==> (#[trigger] items[i] matches Item::Fn(fd) ==> fd.mode == FnMode::Managed),
    ensures
        items_findings(it, false, items) == Seq::<Finding>::empty(),
    decreases items.len(),
{
    if items.len() > 0 {
        let pre = items.drop_last();
        assert forall|i: int| 0 <= i < pre.len() implies (#[trigger] pre[i] matches Item::Fn(fd) ==> fd.mode == FnMode::Managed) by {
            assert(pre[i] == items[i]);
        }
        lemma_managed_functions_unchecked(it, pre);
        assert(items.last() == items[items.len() - 1]);
    }
}

} // verus!
