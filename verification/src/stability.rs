//! `@stability` advisories at primitive call sites.
//!
//! Every call that names a primitive by its qualified path (`std::json::parse`)
//! and whose tier, in the given map, is not `stable` gets one diagnostic per
//! (function, primitive) pair: experimental and deprecated primitives get a
//! warning, frozen ones an info line. Under the opt-in error mode,
//! experimental and deprecated call sites become fatal errors; frozen stays
//! informational. Bare-name calls are never advised: a bare name is
//! ambiguous with the built-in builders, user functions and stable
//! primitives that share it.

use vstd::prelude::*;
use crate::ast::{Block, Expr, FnDef, Item, MatchArm, Module, Rescue, Stmt};
use crate::coherence::{join_strings, seg_views};
use crate::diagnostics::CheckError;
use crate::text::{join, str_eq};

verus! {

/// A primitive's stability tier.
#[derive(Debug, Clone, Copy, PartialEq, Eq, Structural)]
pub enum Stability {
    Stable,
    Experimental,
    Deprecated,
    Frozen,
}

/// The tier of the first entry named `name`, if any.
pub open spec fn tier_of(map: Seq<(String, Stability)>, name: Seq<char>) -> Option<Stability>
    decreases map.len(),
{
    if map.len() == 0 {
        None
    } else if map[0].0@ == name {
        Some(map[0].1)
    } else {
        tier_of(map.drop_first(), name)
    }
}

/// The primitive a call's callee names: a qualified path present in the
/// map.
pub open spec fn prim_of(callee: Expr, map: Seq<(String, Stability)>) -> Seq<Seq<char>> {
    match callee {
        Expr::Path(segs) => {
            let q = join(seg_views(segs@), "::"@);
            if tier_of(map, q) is Some { seq![q] } else { Seq::empty() }
        },
        _ => Seq::empty(),
    }
}

// ---------------------------------------------------------------------------
// The primitives a function calls, in walk order
// ---------------------------------------------------------------------------

/// The primitives called within an expression.
pub open spec fn calls_expr(e: Expr, map: Seq<(String, Stability)>) -> Seq<Seq<char>>
    decreases e,
{
    match e {
        Expr::Call { callee, args } => prim_of(*callee, map) + calls_expr(*callee, map) + calls_exprs(args@, map),
        Expr::Method { receiver, args, .. } => calls_expr(*receiver, map) + calls_exprs(args@, map),
        Expr::Binary { lhs, rhs, .. } => calls_expr(*lhs, map) + calls_expr(*rhs, map),
        Expr::Unary { expr } => calls_expr(*expr, map),
        Expr::Cast { expr, .. } => calls_expr(*expr, map),
        Expr::Field { receiver, .. } => calls_expr(*receiver, map),
        Expr::Index { receiver, index } => calls_expr(*receiver, map) + calls_expr(*index, map),
        Expr::If { condition, then_block, elsif_clauses, else_block } => {
            let tail = match else_block {
                Some(b) => calls_block(b, map),
                None => Seq::empty(),
            };
            calls_expr(*condition, map) + calls_block(then_block, map) + calls_elsifs(elsif_clauses@, map) + tail
        },
        Expr::Match { subject, arms } => calls_expr(*subject, map) + calls_arms(arms@, map),
        Expr::Try { body, rescues, ensure } => {
            let tail = match ensure {
                Some(b) => calls_block(b, map),
                None => Seq::empty(),
            };
            calls_block(body, map) + calls_rescues(rescues@, map) + tail
        },
        Expr::Array { elements } => calls_exprs(elements@, map),
        Expr::MapLit { entries } => calls_entries(entries@, map),
        Expr::Spawn { expr, .. } => calls_expr(*expr, map),
        _ => Seq::empty(),
    }
}

/// The primitives called within expressions, in order.
pub open spec fn calls_exprs(es: Seq<Expr>, map: Seq<(String, Stability)>) -> Seq<Seq<char>>
    decreases es,
{
    if es.len() == 0 {
        Seq::empty()
    } else {
        calls_expr(es[0], map) + calls_exprs(es.subrange(1, es.len() as int), map)
    }
}

/// The primitives called within map entries.
pub open spec fn calls_entries(es: Seq<(Expr, Expr)>, map: Seq<(String, Stability)>) -> Seq<Seq<char>>
    decreases es,
{
    if es.len() == 0 {
        Seq::empty()
    } else {
        calls_expr(es[0].0, map) + calls_expr(es[0].1, map) + calls_entries(es.subrange(1, es.len() as int), map)
    }
}

/// The primitives called within `elsif` clauses.
pub open spec fn calls_elsifs(cs: Seq<(Expr, Block)>, map: Seq<(String, Stability)>) -> Seq<Seq<char>>
    decreases cs,
{
    if cs.len() == 0 {
        Seq::empty()
    } else {
        calls_expr(cs[0].0, map) + calls_block(cs[0].1, map) + calls_elsifs(cs.subrange(1, cs.len() as int), map)
    }
}

/// The primitives called within `match` arm bodies (guards are not read).
pub open spec fn calls_arms(arms: Seq<MatchArm>, map: Seq<(String, Stability)>) -> Seq<Seq<char>>
    decreases arms,
{
    if arms.len() == 0 {
        Seq::empty()
    } else {
        calls_block(arms[0].body, map) + calls_arms(arms.subrange(1, arms.len() as int), map)
    }
}

/// The primitives called within `rescue` bodies.
pub open spec fn calls_rescues(rs: Seq<Rescue>, map: Seq<(String, Stability)>) -> Seq<Seq<char>>
    decreases rs,
{
    if rs.len() == 0 {
        Seq::empty()
    } else {
        calls_block(rs[0].body, map) + calls_rescues(rs.subrange(1, rs.len() as int), map)
    }
}

/// The primitives called within a block.
pub open spec fn calls_block(b: Block, map: Seq<(String, Stability)>) -> Seq<Seq<char>>
    decreases b,
{
    let tail = match b.tail_expr {
        Some(t) => calls_expr(*t, map),
        None => Seq::empty(),
    };
    calls_stmts(b.stmts@, map) + tail
}

/// The primitives called within statements, in order.
pub open spec fn calls_stmts(ss: Seq<Stmt>, map: Seq<(String, Stability)>) -> Seq<Seq<char>>
    decreases ss,
{
    if ss.len() == 0 {
        Seq::empty()
    } else {
        calls_stmt(ss[0], map) + calls_stmts(ss.subrange(1, ss.len() as int), map)
    }
}

/// The primitives called within an optional expression.
pub open spec fn calls_opt(e: Option<Expr>, map: Seq<(String, Stability)>) -> Seq<Seq<char>>
    decreases e,
{
    match e {
        Some(x) => calls_expr(x, map),
        None => Seq::empty(),
    }
}

/// The primitives called within a statement.
pub open spec fn calls_stmt(s: Stmt, map: Seq<(String, Stability)>) -> Seq<Seq<char>>
    decreases s,
{
    match s {
        Stmt::Expr(x) => calls_expr(x, map),
        Stmt::Let(d) => calls_expr(d.value, map),
        Stmt::Var(d) => calls_expr(d.value, map),
        Stmt::Const(d) => calls_expr(d.value, map),
        Stmt::Assign { target, value, .. } => calls_expr(target, map) + calls_expr(value, map),
        Stmt::Return { value } => calls_opt(value, map),
        Stmt::Yield { value } => calls_opt(value, map),
        Stmt::Next { value } => calls_opt(value, map),
        Stmt::Break { value } => calls_opt(value, map),
        Stmt::Raise { value } => calls_expr(value, map),
        Stmt::While { condition, body, .. } => calls_expr(condition, map) + calls_block(body, map),
        Stmt::For { iter, body, .. } => calls_expr(iter, map) + calls_block(body, map),
        Stmt::Loop { body, .. } => calls_block(body, map),
        Stmt::Continue => Seq::empty(),
    }
}

/// Every function of the module tree (top-level, nested modules, impl
/// methods) with the primitives it calls, in source order.
pub open spec fn fn_calls(items: Seq<Item>, map: Seq<(String, Stability)>) -> Seq<(Seq<char>, Seq<Seq<char>>)>
    decreases items,
{
    if items.len() == 0 {
        Seq::empty()
    } else {
        let head = match items[0] {
            Item::Fn(f) => seq![(f.name@, calls_block(f.body, map))],
            Item::Module(m) => fn_calls(m.items@, map),
            Item::Impl(b) => b.methods@.map_values(|m: FnDef| (m.name@, calls_block(m.body, map))),
            Item::Enum(_) | Item::Struct(_) | Item::Trait(_) | Item::Protocol(_) | Item::Actor(_) | Item::Memory(_) | Item::Other => Seq::empty(),
        };
        head + fn_calls(items.subrange(1, items.len() as int), map)
    }
}

/// Whatever either part of a concatenation holds, the whole holds.
proof fn lemma_concat_holds<A>(a: Seq<A>, b: Seq<A>)
    ensures
        forall|x: A| #[trigger] a.contains(x) ==> (a + b).contains(x),
        forall|x: A| #[trigger] b.contains(x) ==> (a + b).contains(x),
{
    assert forall|x: A| #[trigger] a.contains(x) implies (a + b).contains(x) by {
        let i = choose|i: int| 0 <= i < a.len() && a[i] == x;
        assert((a + b)[i] == x);
    }
    assert forall|x: A| #[trigger] b.contains(x) implies (a + b).contains(x) by {
        let i = choose|i: int| 0 <= i < b.len() && b[i] == x;
        assert((a + b)[a.len() + i] == x);
    }
}

/// A primitive called in the body of a `for`, `while` or `loop`, or in its
/// iterable or condition, is a call of the loop statement.
pub proof fn lemma_loop_calls_collected(s: Stmt, map: Seq<(String, Stability)>)
    ensures
        s matches Stmt::For { iter, body, .. } ==> forall|p: Seq<char>|
            (#[trigger] calls_block(body, map).contains(p) || calls_expr(iter, map).contains(p))
                ==> calls_stmt(s, map).contains(p),
        s matches Stmt::While { condition, body, .. } ==> forall|p: Seq<char>|
            (#[trigger] calls_block(body, map).contains(p) || calls_expr(condition, map).contains(p))
                ==> calls_stmt(s, map).contains(p),
        s matches Stmt::Loop { body, .. } ==> forall|p: Seq<char>|
            #[trigger] calls_block(body, map).contains(p) ==> calls_stmt(s, map).contains(p),
{
    match s {
        Stmt::For { iter, body, .. } => lemma_concat_holds(calls_expr(iter, map), calls_block(body, map)),
        Stmt::While { condition, body, .. } => lemma_concat_holds(calls_expr(condition, map), calls_block(body, map)),
        _ => {},
    }
}

/// A primitive called by any statement of a statement list is a call of
/// the list.
pub proof fn lemma_stmt_calls_collected(ss: Seq<Stmt>, i: int, map: Seq<(String, Stability)>)
    requires
        0 <= i < ss.len(),
    ensures
        forall|p: Seq<char>| #[trigger] calls_stmt(ss[i], map).contains(p) ==> calls_stmts(ss, map).contains(p),
    decreases ss.len(),
{
    let rest = ss.subrange(1, ss.len() as int);
    lemma_concat_holds(calls_stmt(ss[0], map), calls_stmts(rest, map));
    if i > 0 {
        lemma_stmt_calls_collected(rest, i - 1, map);
        assert(rest[i - 1] == ss[i]);
    }
}

/// A primitive called by any statement of a block, or by its tail, is a
/// call of the block; so a call nested anywhere in a function body (a
/// `for` body among them) is among the function's collected calls.
pub proof fn lemma_block_calls_collected(b: Block, map: Seq<(String, Stability)>)
    ensures
        forall|i: int, p: Seq<char>| 0 <= i < b.stmts@.len() && #[trigger] calls_stmt(b.stmts@[i], map).contains(p)
            ==> calls_block(b, map).contains(p),
        b.tail_expr matches Some(t) ==> forall|p: Seq<char>| #[trigger] calls_expr(*t, map).contains(p)
            ==> calls_block(b, map).contains(p),
{
    let tail = match b.tail_expr {
        Some(t) => calls_expr(*t, map),
        None => Seq::empty(),
    };
    lemma_concat_holds(calls_stmts(b.stmts@, map), tail);
    assert forall|i: int, p: Seq<char>| 0 <= i < b.stmts@.len() && #[trigger] calls_stmt(b.stmts@[i], map).contains(p)
        implies calls_block(b, map).contains(p) by {
        lemma_stmt_calls_collected(b.stmts@, i, map);
    }
}

/// A call within any argument of a list is a call of the list.
proof fn lemma_exprs_calls_collected(es: Seq<Expr>, i: int, map: Seq<(String, Stability)>)
    requires
        0 <= i < es.len(),
    ensures
        forall|p: Seq<char>| #[trigger] calls_expr(es[i], map).contains(p) ==> calls_exprs(es, map).contains(p),
    decreases es.len(),
{
    let rest = es.subrange(1, es.len() as int);
    lemma_concat_holds(calls_expr(es[0], map), calls_exprs(rest, map));
    if i > 0 {
        lemma_exprs_calls_collected(rest, i - 1, map);
        assert(rest[i - 1] == es[i]);
    }
}

/// A call within any arm body is a call of the arms.
proof fn lemma_arms_calls_collected(arms: Seq<MatchArm>, i: int, map: Seq<(String, Stability)>)
    requires
        0 <= i < arms.len(),
    ensures
        forall|p: Seq<char>| #[trigger] calls_block(arms[i].body, map).contains(p) ==> calls_arms(arms, map).contains(p),
    decreases arms.len(),
{
    let rest = arms.subrange(1, arms.len() as int);
    lemma_concat_holds(calls_block(arms[0].body, map), calls_arms(rest, map));
    if i > 0 {
        lemma_arms_calls_collected(rest, i - 1, map);
        assert(rest[i - 1] == arms[i]);
    }
}

/// A call of a primitive named by a qualified path in the tier map is
/// collected, as are the calls in its arguments, in the branches of an
/// `if`, in the arm bodies of a `match` and in the blocks of a `try`.
pub proof fn lemma_expr_calls_collected(e: Expr, map: Seq<(String, Stability)>)
    ensures
        e matches Expr::Call { callee, args } ==> {
            &&& (*callee matches Expr::Path(segs) ==> (tier_of(map, join(seg_views(segs@), "::"@)) is Some
                ==> calls_expr(e, map).contains(join(seg_views(segs@), "::"@))))
            &&& forall|i: int, p: Seq<char>| 0 <= i < args@.len() && #[trigger] calls_expr(args@[i], map).contains(p)
                ==> calls_expr(e, map).contains(p)
        },
        e matches Expr::If { then_block, else_block, .. } ==> forall|p: Seq<char>|
            (#[trigger] calls_block(then_block, map).contains(p) || (else_block matches Some(b) && calls_block(b, map).contains(p)))
                ==> calls_expr(e, map).contains(p),
        e matches Expr::Match { arms, .. } ==> forall|i: int, p: Seq<char>|
            0 <= i < arms@.len() && #[trigger] calls_block(arms@[i].body, map).contains(p) ==> calls_expr(e, map).contains(p),
        e matches Expr::Try { body, ensure, .. } ==> forall|p: Seq<char>|
            (#[trigger] calls_block(body, map).contains(p) || (ensure matches Some(b) && calls_block(b, map).contains(p)))
                ==> calls_expr(e, map).contains(p),
{
    match e {
        Expr::Call { callee, args } => {
            let a = prim_of(*callee, map);
            let b = calls_expr(*callee, map);
            let c = calls_exprs(args@, map);
            lemma_concat_holds(a, b);
            lemma_concat_holds(a + b, c);
            match *callee {
                Expr::Path(segs) => {
                    let q = join(seg_views(segs@), "::"@);
                    if tier_of(map, q) is Some {
                        assert(a[0] == q);
                        assert(a.contains(q));
                    }
                },
                _ => {},
            }
            assert forall|i: int, p: Seq<char>| 0 <= i < args@.len() && #[trigger] calls_expr(args@[i], map).contains(p)
                implies calls_expr(e, map).contains(p) by {
                lemma_exprs_calls_collected(args@, i, map);
            }
        },
        Expr::If { condition, then_block, elsif_clauses, else_block } => {
            let tail = match else_block {
                Some(b) => calls_block(b, map),
                None => Seq::empty(),
            };
            let a = calls_expr(*condition, map);
            let b1 = calls_block(then_block, map);
            let c = calls_elsifs(elsif_clauses@, map);
            lemma_concat_holds(a, b1);
            lemma_concat_holds(a + b1, c);
            lemma_concat_holds(a + b1 + c, tail);
        },
        Expr::Match { subject, arms } => {
            lemma_concat_holds(calls_expr(*subject, map), calls_arms(arms@, map));
            assert forall|i: int, p: Seq<char>| 0 <= i < arms@.len() && #[trigger] calls_block(arms@[i].body, map).contains(p)
                implies calls_expr(e, map).contains(p) by {
                lemma_arms_calls_collected(arms@, i, map);
            }
        },
        Expr::Try { body, rescues, ensure } => {
            let tail = match ensure {
                Some(b) => calls_block(b, map),
                None => Seq::empty(),
            };
            let a = calls_block(body, map);
            let c = calls_rescues(rescues@, map);
            lemma_concat_holds(a, c);
            lemma_concat_holds(a + c, tail);
        },
        _ => {},
    }
}

// ---------------------------------------------------------------------------
// Advisories
// ---------------------------------------------------------------------------

/// Whether a tier's advisory is fatal under the given mode.
pub open spec fn is_error_tier(t: Stability, error_mode: bool) -> bool {
    error_mode && (t == Stability::Experimental || t == Stability::Deprecated)
}

/// The text of an advisory.
pub open spec fn advisory_text(f: Seq<char>, prim: Seq<char>, t: Stability, error_mode: bool) -> Seq<char> {
    let severity = if is_error_tier(t, error_mode) {
        "error"@
    } else if t == Stability::Frozen {
        "info"@
    } else {
        "warning"@
    };
    let detail = match t {
        Stability::Experimental => "calls experimental primitive `"@ + prim + "`; its API may change between minor releases"@,
        Stability::Deprecated => "calls deprecated primitive `"@ + prim
            + "`; it is scheduled for removal — migrate to its replacement"@,
        Stability::Frozen => "calls frozen primitive `"@ + prim + "`; it is supported but will not grow"@,
        Stability::Stable => "calls `"@ + prim + "`"@,
    };
    "stability "@ + severity + ": function `"@ + f + "` "@ + detail
}

/// The advisories for one function's calls, in order, given the pairs
/// already advised: `(fatal, text)`.
pub open spec fn fn_advisories(f: Seq<char>, prims: Seq<Seq<char>>, map: Seq<(String, Stability)>, error_mode: bool, seen: Set<(Seq<char>, Seq<char>)>) -> (Seq<(bool, Seq<char>)>, Set<(Seq<char>, Seq<char>)>)
    decreases prims.len(),
{
    if prims.len() == 0 {
        (Seq::empty(), seen)
    } else {
        let p = prims[0];
        let rest = prims.subrange(1, prims.len() as int);
        match tier_of(map, p) {
            Some(t) => if t == Stability::Stable || seen.contains((f, p)) {
                fn_advisories(f, rest, map, error_mode, seen)
            } else {
                let r = fn_advisories(f, rest, map, error_mode, seen.insert((f, p)));
                (seq![(is_error_tier(t, error_mode), advisory_text(f, p, t, error_mode))] + r.0, r.1)
            },
            None => fn_advisories(f, rest, map, error_mode, seen),
        }
    }
}

/// The advisories of all functions, in order, each (function, primitive)
/// pair advised once.
pub open spec fn all_advisories(fs: Seq<(Seq<char>, Seq<Seq<char>>)>, map: Seq<(String, Stability)>, error_mode: bool, seen: Set<(Seq<char>, Seq<char>)>) -> Seq<(bool, Seq<char>)>
    decreases fs.len(),
{
    if fs.len() == 0 {
        Seq::empty()
    } else {
        let r = fn_advisories(fs[0].0, fs[0].1, map, error_mode, seen);
        r.0 + all_advisories(fs.subrange(1, fs.len() as int), map, error_mode, r.1)
    }
}

/// A diagnostic as `(fatal, text)`: a fatal `StabilityError` or a
/// non-fatal `StabilityAdvice`.
pub open spec fn stability_view(e: CheckError) -> Option<(bool, Seq<char>)> {
    match e {
        CheckError::StabilityError(m) => Some((true, m@)),
        CheckError::StabilityAdvice(m) => Some((false, m@)),
        _ => None,
    }
}

/// The diagnostics as `(fatal, text)`.
pub open spec fn stability_views(v: Seq<CheckError>) -> Seq<Option<(bool, Seq<char>)>> {
    v.map_values(|e: CheckError| stability_view(e))
}

/// Each advisory, as a diagnostic would show it.
pub open spec fn as_found(v: Seq<(bool, Seq<char>)>) -> Seq<Option<(bool, Seq<char>)>> {
    v.map_values(|x: (bool, Seq<char>)| Some(x))
}

// ---------------------------------------------------------------------------
// The walk
// ---------------------------------------------------------------------------

/// The tier of the first entry named `name`.
fn tier_lookup(map: &Vec<(String, Stability)>, name: &str) -> (r: Option<Stability>)
    ensures
        r == tier_of(map@, name@),
{
    let mut i: usize = 0;
    assert(map@.subrange(0, map@.len() as int) =~= map@);
    while i < map.len()
        invariant
            i <= map@.len(),
            tier_of(map@, name@) == tier_of(map@.subrange(i as int, map@.len() as int), name@),
        decreases map@.len() - i,
    {
        let ghost rest = map@.subrange(i as int, map@.len() as int);
        assert(rest.drop_first() =~= map@.subrange(i as int + 1, map@.len() as int));
        if str_eq(map[i].0.as_str(), name) {
            return Some(map[i].1);
        }
        i = i + 1;
    }
    None
}

/// Appends the primitive a callee names, if any.
fn push_prim(callee: &Expr, map: &Vec<(String, Stability)>, out: &mut Vec<String>)
    ensures
        views_of(final(out)@) == views_of(old(out)@) + prim_of(*callee, map@),
{
    let ghost o0 = views_of(out@);
    match callee {
        Expr::Path(segs) => {
            let q = join_strings(segs, "::");
            if tier_lookup(map, q.as_str()).is_some() {
                out.push(q);
                assert(views_of(out@) =~= o0 + seq![q@]);
            } else {
                assert(views_of(out@) =~= o0 + Seq::<Seq<char>>::empty());
            }
        },
        _ => {
            assert(views_of(out@) =~= o0 + Seq::<Seq<char>>::empty());
        },
    }
}

/// The views of a list of strings.
pub open spec fn views_of(v: Seq<String>) -> Seq<Seq<char>> {
    v.map_values(|s: String| s@)
}

/// Appends the primitives called within an expression.
fn collect_expr(e: &Expr, map: &Vec<(String, Stability)>, out: &mut Vec<String>)
    ensures
        views_of(final(out)@) == views_of(old(out)@) + calls_expr(*e, map@),
    decreases e,
{
    let ghost o0 = views_of(out@);
    match e {
        Expr::Call { callee, args } => {
            push_prim(callee, map, out);
            collect_expr(callee, map, out);
            collect_exprs(args, map, out);
        },
        Expr::Method { receiver, args, .. } => {
            collect_expr(receiver, map, out);
            collect_exprs(args, map, out);
        },
        Expr::Binary { lhs, rhs, .. } => {
            collect_expr(lhs, map, out);
            collect_expr(rhs, map, out);
        },
        Expr::Unary { expr } => collect_expr(expr, map, out),
        Expr::Cast { expr, .. } => collect_expr(expr, map, out),
        Expr::Field { receiver, .. } => collect_expr(receiver, map, out),
        Expr::Index { receiver, index } => {
            collect_expr(receiver, map, out);
            collect_expr(index, map, out);
        },
        Expr::If { condition, then_block, elsif_clauses, else_block } => {
            collect_expr(condition, map, out);
            collect_block(then_block, map, out);
            collect_elsifs(elsif_clauses, map, out);
            match else_block {
                Some(b) => collect_block(b, map, out),
                None => {},
            }
        },
        Expr::Match { subject, arms } => {
            collect_expr(subject, map, out);
            collect_arms(arms, map, out);
        },
        Expr::Try { body, rescues, ensure } => {
            collect_block(body, map, out);
            collect_rescues(rescues, map, out);
            match ensure {
                Some(b) => collect_block(b, map, out),
                None => {},
            }
        },
        Expr::Array { elements } => collect_exprs(elements, map, out),
        Expr::MapLit { entries } => collect_entries(entries, map, out),
        Expr::Spawn { expr, .. } => collect_expr(expr, map, out),
        _ => {},
    }
    assert(views_of(out@) =~= o0 + calls_expr(*e, map@));
}

/// Appends the primitives called within expressions.
fn collect_exprs(es: &Vec<Expr>, map: &Vec<(String, Stability)>, out: &mut Vec<String>)
    ensures
        views_of(final(out)@) == views_of(old(out)@) + calls_exprs(es@, map@),
    decreases es,
{
    let ghost o0 = views_of(out@);
    let mut i: usize = 0;
    assert(es@.subrange(0, es@.len() as int) =~= es@);
    assert(o0 + calls_exprs(es@, map@) =~= views_of(out@) + calls_exprs(es@.subrange(0, es@.len() as int), map@));
    while i < es.len()
        invariant
            i <= es@.len(),
            o0 + calls_exprs(es@, map@) == views_of(out@) + calls_exprs(es@.subrange(i as int, es@.len() as int), map@),
        decreases es@.len() - i,
    {
        let ghost rest = es@.subrange(i as int, es@.len() as int);
        assert(rest[0] == es@[i as int]);
        assert(rest.subrange(1, rest.len() as int) =~= es@.subrange(i as int + 1, es@.len() as int));
        let ghost before = views_of(out@);
        proof {
            assert(decreases_to!(*es => es@));
            assert(decreases_to!(es@ => es@[i as int]));
        }
        collect_expr(&es[i], map, out);
        assert(before + (calls_expr(es@[i as int], map@) + calls_exprs(es@.subrange(i as int + 1, es@.len() as int), map@))
            =~= views_of(out@) + calls_exprs(es@.subrange(i as int + 1, es@.len() as int), map@));
        i = i + 1;
    }
    assert(views_of(out@) + calls_exprs(es@.subrange(i as int, es@.len() as int), map@) =~= views_of(out@));
}

/// Appends the primitives called within map entries.
fn collect_entries(es: &Vec<(Expr, Expr)>, map: &Vec<(String, Stability)>, out: &mut Vec<String>)
    ensures
        views_of(final(out)@) == views_of(old(out)@) + calls_entries(es@, map@),
    decreases es,
{
    let ghost o0 = views_of(out@);
    let mut i: usize = 0;
    assert(es@.subrange(0, es@.len() as int) =~= es@);
    assert(o0 + calls_entries(es@, map@) =~= views_of(out@) + calls_entries(es@.subrange(0, es@.len() as int), map@));
    while i < es.len()
        invariant
            i <= es@.len(),
            o0 + calls_entries(es@, map@) == views_of(out@) + calls_entries(es@.subrange(i as int, es@.len() as int), map@),
        decreases es@.len() - i,
    {
        let ghost rest = es@.subrange(i as int, es@.len() as int);
        assert(rest[0] == es@[i as int]);
        assert(rest.subrange(1, rest.len() as int) =~= es@.subrange(i as int + 1, es@.len() as int));
        let ghost before = views_of(out@);
        proof {
            assert(decreases_to!(*es => es@));
            assert(decreases_to!(es@ => es@[i as int]));
            assert(decreases_to!(es@[i as int] => es@[i as int].0));
            assert(decreases_to!(es@[i as int] => es@[i as int].1));
        }
        collect_expr(&es[i].0, map, out);
        collect_expr(&es[i].1, map, out);
        assert(before + (calls_expr(es@[i as int].0, map@) + calls_expr(es@[i as int].1, map@) + calls_entries(es@.subrange(i as int + 1, es@.len() as int), map@))
            =~= views_of(out@) + calls_entries(es@.subrange(i as int + 1, es@.len() as int), map@));
        i = i + 1;
    }
    assert(views_of(out@) + calls_entries(es@.subrange(i as int, es@.len() as int), map@) =~= views_of(out@));
}

/// Appends the primitives called within `elsif` clauses.
fn collect_elsifs(cs: &Vec<(Expr, Block)>, map: &Vec<(String, Stability)>, out: &mut Vec<String>)
    ensures
        views_of(final(out)@) == views_of(old(out)@) + calls_elsifs(cs@, map@),
    decreases cs,
{
    let ghost o0 = views_of(out@);
    let mut i: usize = 0;
    assert(cs@.subrange(0, cs@.len() as int) =~= cs@);
    assert(o0 + calls_elsifs(cs@, map@) =~= views_of(out@) + calls_elsifs(cs@.subrange(0, cs@.len() as int), map@));
    while i < cs.len()
        invariant
            i <= cs@.len(),
            o0 + calls_elsifs(cs@, map@) == views_of(out@) + calls_elsifs(cs@.subrange(i as int, cs@.len() as int), map@),
        decreases cs@.len() - i,
    {
        let ghost rest = cs@.subrange(i as int, cs@.len() as int);
        assert(rest[0] == cs@[i as int]);
        assert(rest.subrange(1, rest.len() as int) =~= cs@.subrange(i as int + 1, cs@.len() as int));
        let ghost before = views_of(out@);
        proof {
            assert(decreases_to!(*cs => cs@));
            assert(decreases_to!(cs@ => cs@[i as int]));
            assert(decreases_to!(cs@[i as int] => cs@[i as int].0));
            assert(decreases_to!(cs@[i as int] => cs@[i as int].1));
        }
        collect_expr(&cs[i].0, map, out);
        collect_block(&cs[i].1, map, out);
        assert(before + (calls_expr(cs@[i as int].0, map@) + calls_block(cs@[i as int].1, map@) + calls_elsifs(cs@.subrange(i as int + 1, cs@.len() as int), map@))
            =~= views_of(out@) + calls_elsifs(cs@.subrange(i as int + 1, cs@.len() as int), map@));
        i = i + 1;
    }
    assert(views_of(out@) + calls_elsifs(cs@.subrange(i as int, cs@.len() as int), map@) =~= views_of(out@));
}

/// Appends the primitives called within `match` arm bodies.
fn collect_arms(arms: &Vec<MatchArm>, map: &Vec<(String, Stability)>, out: &mut Vec<String>)
    ensures
        views_of(final(out)@) == views_of(old(out)@) + calls_arms(arms@, map@),
    decreases arms,
{
    let ghost o0 = views_of(out@);
    let mut i: usize = 0;
    assert(arms@.subrange(0, arms@.len() as int) =~= arms@);
    assert(o0 + calls_arms(arms@, map@) =~= views_of(out@) + calls_arms(arms@.subrange(0, arms@.len() as int), map@));
    while i < arms.len()
        invariant
            i <= arms@.len(),
            o0 + calls_arms(arms@, map@) == views_of(out@) + calls_arms(arms@.subrange(i as int, arms@.len() as int), map@),
        decreases arms@.len() - i,
    {
        let ghost rest = arms@.subrange(i as int, arms@.len() as int);
        assert(rest[0] == arms@[i as int]);
        assert(rest.subrange(1, rest.len() as int) =~= arms@.subrange(i as int + 1, arms@.len() as int));
        let ghost before = views_of(out@);
        proof {
            assert(decreases_to!(*arms => arms@));
            assert(decreases_to!(arms@ => arms@[i as int]));
            assert(decreases_to!(arms@[i as int] => arms@[i as int].body));
        }
        collect_block(&arms[i].body, map, out);
        assert(before + (calls_block(arms@[i as int].body, map@) + calls_arms(arms@.subrange(i as int + 1, arms@.len() as int), map@))
            =~= views_of(out@) + calls_arms(arms@.subrange(i as int + 1, arms@.len() as int), map@));
        i = i + 1;
    }
    assert(views_of(out@) + calls_arms(arms@.subrange(i as int, arms@.len() as int), map@) =~= views_of(out@));
}

/// Appends the primitives called within `rescue` bodies.
fn collect_rescues(rs: &Vec<Rescue>, map: &Vec<(String, Stability)>, out: &mut Vec<String>)
    ensures
        views_of(final(out)@) == views_of(old(out)@) + calls_rescues(rs@, map@),
    decreases rs,
{
    let ghost o0 = views_of(out@);
    let mut i: usize = 0;
    assert(rs@.subrange(0, rs@.len() as int) =~= rs@);
    assert(o0 + calls_rescues(rs@, map@) =~= views_of(out@) + calls_rescues(rs@.subrange(0, rs@.len() as int), map@));
    while i < rs.len()
        invariant
            i <= rs@.len(),
            o0 + calls_rescues(rs@, map@) == views_of(out@) + calls_rescues(rs@.subrange(i as int, rs@.len() as int), map@),
        decreases rs@.len() - i,
    {
        let ghost rest = rs@.subrange(i as int, rs@.len() as int);
        assert(rest[0] == rs@[i as int]);
        assert(rest.subrange(1, rest.len() as int) =~= rs@.subrange(i as int + 1, rs@.len() as int));
        let ghost before = views_of(out@);
        proof {
            assert(decreases_to!(*rs => rs@));
            assert(decreases_to!(rs@ => rs@[i as int]));
            assert(decreases_to!(rs@[i as int] => rs@[i as int].body));
        }
        collect_block(&rs[i].body, map, out);
        assert(before + (calls_block(rs@[i as int].body, map@) + calls_rescues(rs@.subrange(i as int + 1, rs@.len() as int), map@))
            =~= views_of(out@) + calls_rescues(rs@.subrange(i as int + 1, rs@.len() as int), map@));
        i = i + 1;
    }
    assert(views_of(out@) + calls_rescues(rs@.subrange(i as int, rs@.len() as int), map@) =~= views_of(out@));
}

/// Appends the primitives called within a block.
fn collect_block(b: &Block, map: &Vec<(String, Stability)>, out: &mut Vec<String>)
    ensures
        views_of(final(out)@) == views_of(old(out)@) + calls_block(*b, map@),
    decreases b,
{
    let ghost o0 = views_of(out@);
    collect_stmts(&b.stmts, map, out);
    match &b.tail_expr {
        Some(t) => {
            proof {
                assert(decreases_to!(*b => b.tail_expr));
                assert(decreases_to!(b.tail_expr => b.tail_expr->0));
            }
            collect_expr(t, map, out);
        },
        None => {},
    }
    assert(views_of(out@) =~= o0 + calls_block(*b, map@));
}

/// Appends the primitives called within statements.
fn collect_stmts(ss: &Vec<Stmt>, map: &Vec<(String, Stability)>, out: &mut Vec<String>)
    ensures
        views_of(final(out)@) == views_of(old(out)@) + calls_stmts(ss@, map@),
    decreases ss,
{
    let ghost o0 = views_of(out@);
    let mut i: usize = 0;
    assert(ss@.subrange(0, ss@.len() as int) =~= ss@);
    assert(o0 + calls_stmts(ss@, map@) =~= views_of(out@) + calls_stmts(ss@.subrange(0, ss@.len() as int), map@));
    while i < ss.len()
        invariant
            i <= ss@.len(),
            o0 + calls_stmts(ss@, map@) == views_of(out@) + calls_stmts(ss@.subrange(i as int, ss@.len() as int), map@),
        decreases ss@.len() - i,
    {
        let ghost rest = ss@.subrange(i as int, ss@.len() as int);
        assert(rest[0] == ss@[i as int]);
        assert(rest.subrange(1, rest.len() as int) =~= ss@.subrange(i as int + 1, ss@.len() as int));
        let ghost before = views_of(out@);
        proof {
            assert(decreases_to!(*ss => ss@));
            assert(decreases_to!(ss@ => ss@[i as int]));
        }
        collect_stmt(&ss[i], map, out);
        assert(before + (calls_stmt(ss@[i as int], map@) + calls_stmts(ss@.subrange(i as int + 1, ss@.len() as int), map@))
            =~= views_of(out@) + calls_stmts(ss@.subrange(i as int + 1, ss@.len() as int), map@));
        i = i + 1;
    }
    assert(views_of(out@) + calls_stmts(ss@.subrange(i as int, ss@.len() as int), map@) =~= views_of(out@));
}

/// Appends the primitives called within a statement.
fn collect_stmt(s: &Stmt, map: &Vec<(String, Stability)>, out: &mut Vec<String>)
    ensures
        views_of(final(out)@) == views_of(old(out)@) + calls_stmt(*s, map@),
    decreases s,
{
    let ghost o0 = views_of(out@);
    match s {
        Stmt::Expr(x) => collect_expr(x, map, out),
        Stmt::Let(d) => collect_expr(&d.value, map, out),
        Stmt::Var(d) => collect_expr(&d.value, map, out),
        Stmt::Const(d) => collect_expr(&d.value, map, out),
        Stmt::Assign { target, value, .. } => {
            collect_expr(target, map, out);
            collect_expr(value, map, out);
        },
        Stmt::Return { value } | Stmt::Yield { value } | Stmt::Next { value } | Stmt::Break { value } => {
            match value {
                Some(v) => {
                    proof {
                        assert(decreases_to!(*value => value->0));
                    }
                    collect_expr(v, map, out);
                },
                None => {},
            }
        },
        Stmt::Raise { value } => collect_expr(value, map, out),
        Stmt::While { condition, body, .. } => {
            collect_expr(condition, map, out);
            collect_block(body, map, out);
        },
        Stmt::For { iter, body, .. } => {
            collect_expr(iter, map, out);
            collect_block(body, map, out);
        },
        Stmt::Loop { body, .. } => collect_block(body, map, out),
        Stmt::Continue => {},
    }
    assert(views_of(out@) =~= o0 + calls_stmt(*s, map@));
}

/// The text of an advisory.
fn advisory_message(f: &str, prim: &str, t: Stability, error_mode: bool) -> (r: String)
    ensures
        r@ == advisory_text(f@, prim@, t, error_mode),
{
    let is_error = error_mode && (t == Stability::Experimental || t == Stability::Deprecated);
    let mut m = String::from_str("stability ");
    if is_error {
        m.append("error");
    } else if t == Stability::Frozen {
        m.append("info");
    } else {
        m.append("warning");
    }
    m.append(": function `");
    m.append(f);
    m.append("` ");
    match t {
        Stability::Experimental => {
            m.append("calls experimental primitive `");
            m.append(prim);
            m.append("`; its API may change between minor releases");
        },
        Stability::Deprecated => {
            m.append("calls deprecated primitive `");
            m.append(prim);
            m.append("`; it is scheduled for removal — migrate to its replacement");
        },
        Stability::Frozen => {
            m.append("calls frozen primitive `");
            m.append(prim);
            m.append("`; it is supported but will not grow");
        },
        Stability::Stable => {
            m.append("calls `");
            m.append(prim);
            m.append("`");
        },
    }
    m
}

/// The pairs already advised, as a set.
pub open spec fn seen_set(v: Seq<(String, String)>) -> Set<(Seq<char>, Seq<char>)> {
    v.map_values(|p: (String, String)| (p.0@, p.1@)).to_set()
}

/// Whether the pair was already advised.
fn seen_contains(seen: &Vec<(String, String)>, f: &str, p: &str) -> (r: bool)
    ensures
        r == seen_set(seen@).contains((f@, p@)),
{
    let ghost sv = seen@.map_values(|q: (String, String)| (q.0@, q.1@));
    let mut i: usize = 0;
    while i < seen.len()
        invariant
            i <= seen@.len(),
            sv == seen@.map_values(|q: (String, String)| (q.0@, q.1@)),
            forall|j: int| 0 <= j < i ==> (#[trigger] sv[j]) != (f@, p@),
        decreases seen@.len() - i,
    {
        if str_eq(seen[i].0.as_str(), f) && str_eq(seen[i].1.as_str(), p) {
            assert(sv[i as int] == (f@, p@));
            return true;
        }
        i = i + 1;
    }
    proof {
        if sv.to_set().contains((f@, p@)) {
            let j = choose|j: int| 0 <= j < sv.len() && sv[j] == (f@, p@);
            assert(sv[j] != (f@, p@));
        }
    }
    false
}

/// Records the advisories of one function's calls.
fn advise_fn(f: &String, prims: &Vec<String>, map: &Vec<(String, Stability)>, error_mode: bool, seen: &mut Vec<(String, String)>, out: &mut Vec<CheckError>)
    ensures
        ({
            let r = fn_advisories(f@, views_of(prims@), map@, error_mode, seen_set(old(seen)@));
            &&& stability_views(final(out)@) == stability_views(old(out)@) + as_found(r.0)
            &&& seen_set(final(seen)@) == r.1
        }),
{
    let ghost pv = views_of(prims@);
    let ghost total = fn_advisories(f@, pv, map@, error_mode, seen_set(seen@));
    let ghost o0 = stability_views(out@);
    let ghost mut acc: Seq<(bool, Seq<char>)> = Seq::empty();
    let mut i: usize = 0;
    assert(pv.subrange(0, pv.len() as int) =~= pv);
    proof {
        assert(acc + total.0 =~= total.0);
        assert(o0 + as_found(acc) =~= o0);
    }
    while i < prims.len()
        invariant
            i <= prims@.len(),
            pv == views_of(prims@),
            total.0 == acc + fn_advisories(f@, pv.subrange(i as int, pv.len() as int), map@, error_mode, seen_set(seen@)).0,
            total.1 == fn_advisories(f@, pv.subrange(i as int, pv.len() as int), map@, error_mode, seen_set(seen@)).1,
            stability_views(out@) == o0 + as_found(acc),
        decreases prims@.len() - i,
    {
        let ghost rest = pv.subrange(i as int, pv.len() as int);
        assert(rest[0] == pv[i as int]);
        assert(rest.subrange(1, rest.len() as int) =~= pv.subrange(i as int + 1, pv.len() as int));
        let p = &prims[i];
        match tier_lookup(map, p.as_str()) {
            Some(t) => {
                if t != Stability::Stable && !seen_contains(seen, f.as_str(), p.as_str()) {
                    let ghost s0 = seen@;
                    seen.push((f.clone(), p.clone()));
                    proof {
                        let m0 = s0.map_values(|q: (String, String)| (q.0@, q.1@));
                        assert(seen@.map_values(|q: (String, String)| (q.0@, q.1@)) =~= m0.push((f@, p@)));
                        m0.lemma_push_to_set_commute((f@, p@));
                    }
                    let msg = advisory_message(f.as_str(), p.as_str(), t, error_mode);
                    let ghost mv = msg@;
                    let is_error = error_mode && (t == Stability::Experimental || t == Stability::Deprecated);
                    let ghost o1 = out@;
                    if is_error {
                        out.push(CheckError::StabilityError(msg));
                    } else {
                        out.push(CheckError::StabilityAdvice(msg));
                    }
                    proof {
                        let x = (is_error_tier(t, error_mode), advisory_text(f@, p@, t, error_mode));
                        assert(stability_views(out@) =~= stability_views(o1).push(Some(x)));
                        assert(as_found(acc.push(x)) =~= as_found(acc).push(Some(x)));
                        assert(acc + (seq![x] + fn_advisories(f@, pv.subrange(i as int + 1, pv.len() as int), map@, error_mode, seen_set(seen@)).0)
                            =~= acc.push(x) + fn_advisories(f@, pv.subrange(i as int + 1, pv.len() as int), map@, error_mode, seen_set(seen@)).0);
                        acc = acc.push(x);
                    }
                }
            },
            None => {},
        }
        i = i + 1;
    }
    proof {
        assert(acc + Seq::<(bool, Seq<char>)>::empty() =~= acc);
    }
}

/// The functions of the module tree with the primitives they call.
fn collect_fns(items: &Vec<Item>, map: &Vec<(String, Stability)>, out: &mut Vec<(String, Vec<String>)>)
    ensures
        fn_views(final(out)@) == fn_views(old(out)@) + fn_calls(items@, map@),
    decreases items,
{
    let ghost o0 = fn_views(out@);
    let mut i: usize = 0;
    assert(items@.subrange(0, items@.len() as int) =~= items@);
    assert(o0 + fn_calls(items@, map@) =~= fn_views(out@) + fn_calls(items@.subrange(0, items@.len() as int), map@));
    while i < items.len()
        invariant
            i <= items@.len(),
            o0 + fn_calls(items@, map@) == fn_views(out@) + fn_calls(items@.subrange(i as int, items@.len() as int), map@),
        decreases items@.len() - i,
    {
        let ghost rest = items@.subrange(i as int, items@.len() as int);
        assert(rest[0] == items@[i as int]);
        assert(rest.subrange(1, rest.len() as int) =~= items@.subrange(i as int + 1, items@.len() as int));
        let ghost before = fn_views(out@);
        let ghost tail = fn_calls(items@.subrange(i as int + 1, items@.len() as int), map@);
        match &items[i] {
            Item::Fn(f) => {
                let mut prims: Vec<String> = Vec::new();
                collect_block(&f.body, map, &mut prims);
                assert(views_of(prims@) =~= calls_block(f.body, map@));
                out.push((f.name.clone(), prims));
                assert(fn_views(out@) =~= before.push((f.name@, calls_block(f.body, map@))));
                assert(before + (seq![(f.name@, calls_block(f.body, map@))] + tail) =~= fn_views(out@) + tail);
            },
            Item::Module(m) => {
                proof {
                    assert(decreases_to!(*items => items@));
                    assert(decreases_to!(items@ => items@[i as int]));
                    assert(decreases_to!(items@[i as int] => m.items));
                }
                collect_fns(&m.items, map, out);
                assert(before + (fn_calls(m.items@, map@) + tail) =~= fn_views(out@) + tail);
            },
            Item::Impl(b) => {
                let ghost ms = b.methods@.map_values(|m: FnDef| (m.name@, calls_block(m.body, map@)));
                let mut j: usize = 0;
                while j < b.methods.len()
                    invariant
                        j <= b.methods@.len(),
                        ms == b.methods@.map_values(|m: FnDef| (m.name@, calls_block(m.body, map@))),
                        fn_views(out@) == before + ms.subrange(0, j as int),
                    decreases b.methods@.len() - j,
                {
                    let mut prims: Vec<String> = Vec::new();
                    collect_block(&b.methods[j].body, map, &mut prims);
                    assert(views_of(prims@) =~= calls_block(b.methods@[j as int].body, map@));
                    let ghost v0 = fn_views(out@);
                    out.push((b.methods[j].name.clone(), prims));
                    assert(fn_views(out@) =~= before + ms.subrange(0, j as int + 1)) by {
                        assert(fn_views(out@) =~= v0.push(ms[j as int]));
                    }
                    j = j + 1;
                }
                assert(ms.subrange(0, j as int) =~= ms);
                assert(before + (ms + tail) =~= fn_views(out@) + tail);
            },
            Item::Enum(_) | Item::Struct(_) | Item::Trait(_) | Item::Protocol(_) | Item::Actor(_) | Item::Memory(_) | Item::Other => {
                assert(before + (Seq::empty() + tail) =~= fn_views(out@) + tail);
            },
        }
        i = i + 1;
    }
    assert(fn_views(out@) + fn_calls(items@.subrange(i as int, items@.len() as int), map@) =~= fn_views(out@));
}

/// Functions with their called primitives, as plain values.
pub open spec fn fn_views(v: Seq<(String, Vec<String>)>) -> Seq<(Seq<char>, Seq<Seq<char>>)> {
    v.map_values(|e: (String, Vec<String>)| (e.0@, views_of(e.1@)))
}

/// The `@stability` diagnostics of a module against a tier map: for every
/// function (top-level, in nested modules, impl methods), in source order,
/// one diagnostic per newly met (function, non-stable primitive) pair, in
/// call order; fatal `StabilityError`s for experimental and deprecated
/// primitives when `error_mode` is on, else non-fatal `StabilityAdvice`.
pub fn advise(module: &Module, map: &Vec<(String, Stability)>, error_mode: bool) -> (r: Vec<CheckError>)
    ensures
        stability_views(r@) == as_found(all_advisories(fn_calls(module.items@, map@), map@, error_mode, Set::empty())),
{
    let mut fns: Vec<(String, Vec<String>)> = Vec::new();
    assert(fn_views(fns@) =~= Seq::<(Seq<char>, Seq<Seq<char>>)>::empty());
    collect_fns(&module.items, map, &mut fns);
    let ghost fs = fn_views(fns@);
    assert(fs =~= fn_calls(module.items@, map@));
    let mut seen: Vec<(String, String)> = Vec::new();
    let mut out: Vec<CheckError> = Vec::new();
    let ghost total = all_advisories(fs, map@, error_mode, Set::empty());
    let ghost mut acc: Seq<(bool, Seq<char>)> = Seq::empty();
    assert(seen_set(seen@) =~= Set::<(Seq<char>, Seq<char>)>::empty());
    assert(fs.subrange(0, fs.len() as int) =~= fs);
    proof {
        assert(acc + total =~= total);
        assert(stability_views(out@) =~= as_found(acc));
    }
    let mut i: usize = 0;
    while i < fns.len()
        invariant
            i <= fns@.len(),
            fs == fn_views(fns@),
            total == acc + all_advisories(fs.subrange(i as int, fs.len() as int), map@, error_mode, seen_set(seen@)),
            stability_views(out@) == as_found(acc),
        decreases fns@.len() - i,
    {
        let ghost rest = fs.subrange(i as int, fs.len() as int);
        assert(rest[0] == fs[i as int]);
        assert(rest.subrange(1, rest.len() as int) =~= fs.subrange(i as int + 1, fs.len() as int));
        let ghost o0 = stability_views(out@);
        let ghost r = fn_advisories(fs[i as int].0, fs[i as int].1, map@, error_mode, seen_set(seen@));
        advise_fn(&fns[i].0, &fns[i].1, map, error_mode, &mut seen, &mut out);
        proof {
            assert(as_found(acc + r.0) =~= as_found(acc) + as_found(r.0));
            assert(acc + (r.0 + all_advisories(fs.subrange(i as int + 1, fs.len() as int), map@, error_mode, seen_set(seen@)))
                =~= (acc + r.0) + all_advisories(fs.subrange(i as int + 1, fs.len() as int), map@, error_mode, seen_set(seen@)));
            acc = acc + r.0;
        }
        i = i + 1;
    }
    proof {
        assert(acc + Seq::<(bool, Seq<char>)>::empty() =~= acc);
    }
    out
}

// ---------------------------------------------------------------------------
// Laws
// ---------------------------------------------------------------------------

/// No called primitive's tier is fatal under the mode.
pub open spec fn no_error_tier(fs: Seq<(Seq<char>, Seq<Seq<char>>)>, map: Seq<(String, Stability)>, error_mode: bool) -> bool {
    forall|i: int, j: int| 0 <= i < fs.len() && 0 <= j < fs[i].1.len()
        ==> (#[trigger] tier_of(map, fs[i].1[j]) is Some ==> !is_error_tier(tier_of(map, fs[i].1[j])->0, error_mode))
}

proof fn lemma_fn_not_fatal(f: Seq<char>, prims: Seq<Seq<char>>, map: Seq<(String, Stability)>, error_mode: bool, seen: Set<(Seq<char>, Seq<char>)>)
    requires
        forall|j: int| 0 <= j < prims.len() ==> (#[trigger] tier_of(map, prims[j]) is Some ==> !is_error_tier(tier_of(map, prims[j])->0, error_mode)),
    ensures
        forall|k: int| 0 <= k < fn_advisories(f, prims, map, error_mode, seen).0.len()
            ==> !(#[trigger] fn_advisories(f, prims, map, error_mode, seen).0[k]).0,
    decreases prims.len(),
{
    if prims.len() > 0 {
        let rest = prims.subrange(1, prims.len() as int);
        let p = prims[0];
        assert(tier_of(map, prims[0]) is Some ==> !is_error_tier(tier_of(map, prims[0])->0, error_mode));
        assert forall|j: int| 0 <= j < rest.len() implies (#[trigger] tier_of(map, rest[j]) is Some ==> !is_error_tier(tier_of(map, rest[j])->0, error_mode)) by {
            assert(rest[j] == prims[j + 1]);
        }
        let all = fn_advisories(f, prims, map, error_mode, seen).0;
        match tier_of(map, p) {
            Some(t) => {
                if t == Stability::Stable || seen.contains((f, p)) {
                    lemma_fn_not_fatal(f, rest, map, error_mode, seen);
                    assert(all == fn_advisories(f, rest, map, error_mode, seen).0);
                } else {
                    lemma_fn_not_fatal(f, rest, map, error_mode, seen.insert((f, p)));
                    let r = fn_advisories(f, rest, map, error_mode, seen.insert((f, p)));
                    assert(all == seq![(is_error_tier(t, error_mode), advisory_text(f, p, t, error_mode))] + r.0);
                    assert(!is_error_tier(t, error_mode));
                    assert forall|k: int| 0 <= k < all.len() implies !(#[trigger] all[k]).0 by {
                        if k > 0 {
                            assert(all[k] == r.0[k - 1]);
                        }
                    }
                }
            },
            None => {
                lemma_fn_not_fatal(f, rest, map, error_mode, seen);
                assert(all == fn_advisories(f, rest, map, error_mode, seen).0);
            },
        }
    }
}

proof fn lemma_all_not_fatal(fs: Seq<(Seq<char>, Seq<Seq<char>>)>, map: Seq<(String, Stability)>, error_mode: bool, seen: Set<(Seq<char>, Seq<char>)>)
    requires
        no_error_tier(fs, map, error_mode),
    ensures
        forall|k: int| 0 <= k < all_advisories(fs, map, error_mode, seen).len()
            ==> !(#[trigger] all_advisories(fs, map, error_mode, seen)[k]).0,
    decreases fs.len(),
{
    if fs.len() > 0 {
        let rest = fs.subrange(1, fs.len() as int);
        assert forall|i: int, j: int| 0 <= i < rest.len() && 0 <= j < rest[i].1.len()
            implies (#[trigger] tier_of(map, rest[i].1[j]) is Some ==> !is_error_tier(tier_of(map, rest[i].1[j])->0, error_mode)) by {
            assert(rest[i] == fs[i + 1]);
        }
        assert forall|j: int| 0 <= j < fs[0].1.len()
            implies (#[trigger] tier_of(map, fs[0].1[j]) is Some ==> !is_error_tier(tier_of(map, fs[0].1[j])->0, error_mode)) by {
            assert(tier_of(map, fs[0].1[j]) == tier_of(map, fs[0].1[j]));
        }
        lemma_fn_not_fatal(fs[0].0, fs[0].1, map, error_mode, seen);
        let r = fn_advisories(fs[0].0, fs[0].1, map, error_mode, seen);
        lemma_all_not_fatal(rest, map, error_mode, r.1);
        let all = all_advisories(fs, map, error_mode, seen);
        assert forall|k: int| 0 <= k < all.len() implies !(#[trigger] all[k]).0 by {
            if k >= r.0.len() {
                assert(all[k] == all_advisories(rest, map, error_mode, r.1)[k - r.0.len()]);
            } else {
                assert(all[k] == r.0[k]);
            }
        }
    }
}

/// Without the opt-in error mode, every `@stability` diagnostic is a
/// non-fatal advisory.
pub proof fn lemma_default_mode_never_fatal(module: Module, map: Seq<(String, Stability)>)
    ensures
        forall|k: int| 0 <= k < all_advisories(fn_calls(module.items@, map), map, false, Set::empty()).len()
            ==> !(#[trigger] all_advisories(fn_calls(module.items@, map), map, false, Set::empty())[k]).0,
{
    lemma_all_not_fatal(fn_calls(module.items@, map), map, false, Set::empty());
}

/// Frozen primitives stay informational: even under the error mode, a
/// program whose primitive calls are all `stable` or `frozen` gets no fatal
/// diagnostic.
pub proof fn lemma_frozen_never_fatal(module: Module, map: Seq<(String, Stability)>)
    requires
        forall|i: int, j: int| 0 <= i < fn_calls(module.items@, map).len() && 0 <= j < fn_calls(module.items@, map)[i].1.len()
            ==> (#[trigger] tier_of(map, fn_calls(module.items@, map)[i].1[j]) == Some(Stability::Stable)
                || tier_of(map, fn_calls(module.items@, map)[i].1[j]) == Some(Stability::Frozen)),
    ensures
        forall|k: int| 0 <= k < all_advisories(fn_calls(module.items@, map), map, true, Set::empty()).len()
            ==> !(#[trigger] all_advisories(fn_calls(module.items@, map), map, true, Set::empty())[k]).0,
{
    let fs = fn_calls(module.items@, map);
    assert forall|i: int, j: int| 0 <= i < fs.len() && 0 <= j < fs[i].1.len()
        implies (#[trigger] tier_of(map, fs[i].1[j]) is Some ==> !is_error_tier(tier_of(map, fs[i].1[j])->0, true)) by {
        assert(tier_of(map, fs[i].1[j]) == Some(Stability::Stable) || tier_of(map, fs[i].1[j]) == Some(Stability::Frozen));
    }
    lemma_all_not_fatal(fs, map, true, Set::empty());
}

proof fn lemma_fn_silent(f: Seq<char>, prims: Seq<Seq<char>>, map: Seq<(String, Stability)>, error_mode: bool, seen: Set<(Seq<char>, Seq<char>)>)
    requires
        forall|j: int| 0 <= j < prims.len() ==> #[trigger] tier_of(map, prims[j]) == Some(Stability::Stable),
    ensures
        fn_advisories(f, prims, map, error_mode, seen).0 == Seq::<(bool, Seq<char>)>::empty(),
    decreases prims.len(),
{
    if prims.len() > 0 {
        let rest = prims.subrange(1, prims.len() as int);
        assert(tier_of(map, prims[0]) == Some(Stability::Stable));
        assert forall|j: int| 0 <= j < rest.len() implies #[trigger] tier_of(map, rest[j]) == Some(Stability::Stable) by {
            assert(rest[j] == prims[j + 1]);
        }
        lemma_fn_silent(f, rest, map, error_mode, seen);
    }
}

proof fn lemma_all_silent(fs: Seq<(Seq<char>, Seq<Seq<char>>)>, map: Seq<(String, Stability)>, error_mode: bool, seen: Set<(Seq<char>, Seq<char>)>)
    requires
        forall|i: int, j: int| 0 <= i < fs.len() && 0 <= j < fs[i].1.len()
            ==> #[trigger] tier_of(map, fs[i].1[j]) == Some(Stability::Stable),
    ensures
        all_advisories(fs, map, error_mode, seen) == Seq::<(bool, Seq<char>)>::empty(),
    decreases fs.len(),
{
    if fs.len() > 0 {
        let rest = fs.subrange(1, fs.len() as int);
        assert forall|i: int, j: int| 0 <= i < rest.len() && 0 <= j < rest[i].1.len()
            implies #[trigger] tier_of(map, rest[i].1[j]) == Some(Stability::Stable) by {
            assert(rest[i] == fs[i + 1]);
        }
        assert forall|j: int| 0 <= j < fs[0].1.len() implies #[trigger] tier_of(map, fs[0].1[j]) == Some(Stability::Stable) by {
            assert(tier_of(map, fs[0].1[j]) == Some(Stability::Stable));
        }
        lemma_fn_silent(fs[0].0, fs[0].1, map, error_mode, seen);
        let r = fn_advisories(fs[0].0, fs[0].1, map, error_mode, seen);
        lemma_all_silent(rest, map, error_mode, r.1);
        assert(r.0 + all_advisories(rest, map, error_mode, r.1) =~= Seq::<(bool, Seq<char>)>::empty());
    }
}

/// An advisory never fires on a program that does nothing unstable: when
/// every primitive a function calls by its qualified path is `stable`, no
/// diagnostic is produced, whatever the mode.
pub proof fn lemma_stable_calls_are_silent(module: Module, map: Seq<(String, Stability)>, error_mode: bool)
    requires
        forall|i: int, j: int| 0 <= i < fn_calls(module.items@, map).len() && 0 <= j < fn_calls(module.items@, map)[i].1.len()
            ==> #[trigger] tier_of(map, fn_calls(module.items@, map)[i].1[j]) == Some(Stability::Stable),
    ensures
        all_advisories(fn_calls(module.items@, map), map, error_mode, Set::empty()) == Seq::<(bool, Seq<char>)>::empty(),
{
    lemma_all_silent(fn_calls(module.items@, map), map, error_mode, Set::empty());
}

/// The pairs a function's walk has advised only grow.
proof fn lemma_seen_grows(f: Seq<char>, prims: Seq<Seq<char>>, map: Seq<(String, Stability)>, error_mode: bool, seen: Set<(Seq<char>, Seq<char>)>)
    ensures
        seen.subset_of(fn_advisories(f, prims, map, error_mode, seen).1),
    decreases prims.len(),
{
    if prims.len() > 0 {
        let p = prims[0];
        let rest = prims.subrange(1, prims.len() as int);
        lemma_seen_grows(f, rest, map, error_mode, seen);
        lemma_seen_grows(f, rest, map, error_mode, seen.insert((f, p)));
    }
}

/// Walking `xs` then `p` is walking `xs.push(p)`.
proof fn lemma_advise_push(f: Seq<char>, xs: Seq<Seq<char>>, p: Seq<char>, map: Seq<(String, Stability)>, error_mode: bool, seen: Set<(Seq<char>, Seq<char>)>)
    ensures
        ({
            let a = fn_advisories(f, xs, map, error_mode, seen);
            let b = fn_advisories(f, seq![p], map, error_mode, a.1);
            fn_advisories(f, xs.push(p), map, error_mode, seen) == (a.0 + b.0, b.1)
        }),
    decreases xs.len(),
{
    let ys = xs.push(p);
    if xs.len() == 0 {
        assert(ys =~= seq![p]);
        let a = fn_advisories(f, xs, map, error_mode, seen);
        assert(a.0 + fn_advisories(f, seq![p], map, error_mode, a.1).0 =~= fn_advisories(f, seq![p], map, error_mode, a.1).0);
    } else {
        let q = xs[0];
        let rest = xs.subrange(1, xs.len() as int);
        assert(ys[0] == q);
        assert(ys.subrange(1, ys.len() as int) =~= rest.push(p));
        lemma_advise_push(f, rest, p, map, error_mode, seen);
        lemma_advise_push(f, rest, p, map, error_mode, seen.insert((f, q)));
        let a = fn_advisories(f, xs, map, error_mode, seen);
        let b = fn_advisories(f, seq![p], map, error_mode, a.1);
        match tier_of(map, q) {
            Some(t) => if !(t == Stability::Stable || seen.contains((f, q))) {
                let r = fn_advisories(f, rest, map, error_mode, seen.insert((f, q)));
                assert(seq![(is_error_tier(t, error_mode), advisory_text(f, q, t, error_mode))] + (r.0 + b.0)
                    =~= (seq![(is_error_tier(t, error_mode), advisory_text(f, q, t, error_mode))] + r.0) + b.0);
            },
            None => {},
        }
    }
}

/// A primitive of a non-stable tier among a function's calls yields its
/// advisory, with that tier's text, unless the (function, primitive) pair
/// was already advised.
pub proof fn lemma_unstable_call_advised(f: Seq<char>, prims: Seq<Seq<char>>, p: Seq<char>, map: Seq<(String, Stability)>, error_mode: bool, seen: Set<(Seq<char>, Seq<char>)>)
    requires
        prims.contains(p),
        tier_of(map, p) matches Some(t) && t != Stability::Stable,
        !seen.contains((f, p)),
    ensures
        fn_advisories(f, prims, map, error_mode, seen).0.contains(
            (is_error_tier(tier_of(map, p)->0, error_mode), advisory_text(f, p, tier_of(map, p)->0, error_mode)),
        ),
    decreases prims.len(),
{
    let q = prims[0];
    let rest = prims.subrange(1, prims.len() as int);
    let k = choose|k: int| 0 <= k < prims.len() && prims[k] == p;
    let t = tier_of(map, p)->0;
    let item = (is_error_tier(t, error_mode), advisory_text(f, p, t, error_mode));
    if q == p {
        let r = fn_advisories(f, rest, map, error_mode, seen.insert((f, p)));
        assert((seq![item] + r.0)[0] == item);
    } else {
        assert(rest[k - 1] == p);
        match tier_of(map, q) {
            Some(tq) => if tq == Stability::Stable || seen.contains((f, q)) {
                lemma_unstable_call_advised(f, rest, p, map, error_mode, seen);
            } else {
                lemma_unstable_call_advised(f, rest, p, map, error_mode, seen.insert((f, q)));
                let r = fn_advisories(f, rest, map, error_mode, seen.insert((f, q)));
                lemma_concat_holds(seq![(is_error_tier(tq, error_mode), advisory_text(f, q, tq, error_mode))], r.0);
            },
            None => {
                lemma_unstable_call_advised(f, rest, p, map, error_mode, seen);
            },
        }
    }
}

/// A primitive called again in the same function adds no advisory: each
/// (function, primitive) pair is advised at most once.
pub proof fn lemma_repeated_call_adds_nothing(f: Seq<char>, prims: Seq<Seq<char>>, p: Seq<char>, map: Seq<(String, Stability)>, error_mode: bool, seen: Set<(Seq<char>, Seq<char>)>)
    requires
        prims.contains(p),
    ensures
        fn_advisories(f, prims.push(p), map, error_mode, seen).0 == fn_advisories(f, prims, map, error_mode, seen).0,
    decreases prims.len(),
{
    let a = fn_advisories(f, prims, map, error_mode, seen);
    lemma_advise_push(f, prims, p, map, error_mode, seen);
    lemma_pair_recorded(f, prims, p, map, error_mode, seen);
    let b = fn_advisories(f, seq![p], map, error_mode, a.1);
    assert(seq![p][0] == p);
    assert(seq![p].subrange(1, 1) =~= Seq::<Seq<char>>::empty());
    assert(b.0 =~= Seq::<(bool, Seq<char>)>::empty()) by {
        let e = Seq::<Seq<char>>::empty();
        assert(fn_advisories(f, e, map, error_mode, a.1).0 =~= Seq::<(bool, Seq<char>)>::empty());
        match tier_of(map, p) {
            Some(t) => {
                assert(t == Stability::Stable || a.1.contains((f, p)));
            },
            None => {},
        }
    }
    assert(a.0 + b.0 =~= a.0);
}

/// After a walk over primitives containing `p`, either `p` is unadvisable
/// (unmapped or `stable`) or the pair (f, p) is recorded.
proof fn lemma_pair_recorded(f: Seq<char>, prims: Seq<Seq<char>>, p: Seq<char>, map: Seq<(String, Stability)>, error_mode: bool, seen: Set<(Seq<char>, Seq<char>)>)
    requires
        prims.contains(p),
    ensures
        tier_of(map, p) is None || tier_of(map, p) == Some(Stability::Stable)
            || fn_advisories(f, prims, map, error_mode, seen).1.contains((f, p)),
    decreases prims.len(),
{
    let q = prims[0];
    let rest = prims.subrange(1, prims.len() as int);
    let k = choose|k: int| 0 <= k < prims.len() && prims[k] == p;
    if k == 0 {
        lemma_seen_grows(f, rest, map, error_mode, seen);
        lemma_seen_grows(f, rest, map, error_mode, seen.insert((f, q)));
    } else {
        assert(rest[k - 1] == p);
        lemma_pair_recorded(f, rest, p, map, error_mode, seen);
        lemma_pair_recorded(f, rest, p, map, error_mode, seen.insert((f, q)));
    }
}

} // verus!
