//! Sites found by walking every statement and expression of a function
//! body: unconditional `loop`s and `spawn`s (the explosive operations) and
//! catch-all `rescue` clauses (over-catches).
//!
//! The walk visits, in source order, every nested statement and expression,
//! closure bodies and spawned expressions included, so no nested site is
//! missed.

use vstd::prelude::*;
use crate::ast::{Annotation, Block, ClosureBody, Expr, FnDef, Item, MatchArm, Module, Rescue, Stmt};
use crate::span::Span;
use crate::surfaces::{explosive_listing, explosive_view, explosive_views, sort_explosive_reports, ExplosiveKind, ExplosiveOp, FnExplosiveReport};

verus! {

/// A site met by the walk.
#[derive(Debug, Clone, Copy, PartialEq, Eq, Structural)]
pub enum Site {
    /// An unconditional `loop`.
    Loop(Span),
    /// A `spawn`.
    Spawn(Span),
    /// A `rescue` clause with no exception type.
    CatchAll(Span),
}

// ---------------------------------------------------------------------------
// The walk, as the spec sees it
// ---------------------------------------------------------------------------

/// The sites of an expression, in walk order.
pub open spec fn expr_sites(e: Expr) -> Seq<Site>
    decreases e,
{
    match e {
        Expr::Binary { lhs, rhs, .. } => expr_sites(*lhs) + expr_sites(*rhs),
        Expr::Unary { expr } => expr_sites(*expr),
        Expr::Cast { expr, .. } => expr_sites(*expr),
        Expr::Call { callee, args } => expr_sites(*callee) + exprs_sites(args@),
        Expr::Method { receiver, args, .. } => expr_sites(*receiver) + exprs_sites(args@),
        Expr::Field { receiver, .. } => expr_sites(*receiver),
        Expr::Index { receiver, index } => expr_sites(*receiver) + expr_sites(*index),
        Expr::If { condition, then_block, elsif_clauses, else_block } => {
            let tail = match else_block {
                Some(b) => block_sites(b),
                None => Seq::empty(),
            };
            expr_sites(*condition) + block_sites(then_block) + elsifs_sites(elsif_clauses@) + tail
        },
        Expr::Match { subject, arms } => expr_sites(*subject) + arms_sites(arms@),
        Expr::Try { body, rescues, ensure } => {
            let tail = match ensure {
                Some(b) => block_sites(b),
                None => Seq::empty(),
            };
            block_sites(body) + rescues_sites(rescues@) + tail
        },
        Expr::Closure { body, .. } => match *body {
            ClosureBody::Block(b) => block_sites(b),
            ClosureBody::Expr(x) => expr_sites(*x),
        },
        Expr::Spawn { expr, span } => seq![Site::Spawn(span)] + expr_sites(*expr),
        Expr::Array { elements } => exprs_sites(elements@),
        Expr::MapLit { entries } => entries_sites(entries@),
        _ => Seq::empty(),
    }
}

/// The sites of expressions in order.
pub open spec fn exprs_sites(es: Seq<Expr>) -> Seq<Site>
    decreases es,
{
    if es.len() == 0 {
        Seq::empty()
    } else {
        expr_sites(es[0]) + exprs_sites(es.subrange(1, es.len() as int))
    }
}

/// The sites of map entries, key then value.
pub open spec fn entries_sites(es: Seq<(Expr, Expr)>) -> Seq<Site>
    decreases es,
{
    if es.len() == 0 {
        Seq::empty()
    } else {
        expr_sites(es[0].0) + expr_sites(es[0].1) + entries_sites(es.subrange(1, es.len() as int))
    }
}

/// The sites of `elsif` clauses, condition then block.
pub open spec fn elsifs_sites(cs: Seq<(Expr, Block)>) -> Seq<Site>
    decreases cs,
{
    if cs.len() == 0 {
        Seq::empty()
    } else {
        expr_sites(cs[0].0) + block_sites(cs[0].1) + elsifs_sites(cs.subrange(1, cs.len() as int))
    }
}

/// The sites of `match` arms, guard then body.
pub open spec fn arms_sites(arms: Seq<MatchArm>) -> Seq<Site>
    decreases arms,
{
    if arms.len() == 0 {
        Seq::empty()
    } else {
        let g = match arms[0].guard {
            Some(x) => expr_sites(x),
            None => Seq::empty(),
        };
        g + block_sites(arms[0].body) + arms_sites(arms.subrange(1, arms.len() as int))
    }
}

/// The sites of `rescue` clauses: a catch-all clause is a site, met before
/// its body.
pub open spec fn rescues_sites(rs: Seq<Rescue>) -> Seq<Site>
    decreases rs,
{
    if rs.len() == 0 {
        Seq::empty()
    } else {
        let c = if rs[0].ty is None {
            seq![Site::CatchAll(rs[0].span)]
        } else {
            Seq::empty()
        };
        c + block_sites(rs[0].body) + rescues_sites(rs.subrange(1, rs.len() as int))
    }
}

/// The sites of a block: its statements, then its tail.
pub open spec fn block_sites(b: Block) -> Seq<Site>
    decreases b,
{
    let tail = match b.tail_expr {
        Some(t) => expr_sites(*t),
        None => Seq::empty(),
    };
    stmts_sites(b.stmts@) + tail
}

/// The sites of statements in order.
pub open spec fn stmts_sites(ss: Seq<Stmt>) -> Seq<Site>
    decreases ss,
{
    if ss.len() == 0 {
        Seq::empty()
    } else {
        stmt_sites(ss[0]) + stmts_sites(ss.subrange(1, ss.len() as int))
    }
}

/// The sites of an optional expression.
pub open spec fn opt_sites(e: Option<Expr>) -> Seq<Site>
    decreases e,
{
    match e {
        Some(x) => expr_sites(x),
        None => Seq::empty(),
    }
}

/// The sites of a statement; an unconditional loop is a site, met before
/// its body.
pub open spec fn stmt_sites(s: Stmt) -> Seq<Site>
    decreases s,
{
    match s {
        Stmt::Let(d) => expr_sites(d.value),
        Stmt::Var(d) => expr_sites(d.value),
        Stmt::Const(d) => expr_sites(d.value),
        Stmt::Assign { target, value, .. } => expr_sites(target) + expr_sites(value),
        Stmt::While { condition, body, .. } => expr_sites(condition) + block_sites(body),
        Stmt::For { iter, body, .. } => expr_sites(iter) + block_sites(body),
        Stmt::Loop { body, span } => seq![Site::Loop(span)] + block_sites(body),
        Stmt::Break { value } => opt_sites(value),
        Stmt::Return { value } => opt_sites(value),
        Stmt::Yield { value } => opt_sites(value),
        Stmt::Next { value } => opt_sites(value),
        Stmt::Raise { value } => expr_sites(value),
        Stmt::Continue => Seq::empty(),
        Stmt::Expr(x) => expr_sites(x),
    }
}

// ---------------------------------------------------------------------------
// The walk
// ---------------------------------------------------------------------------

/// Appends the sites of an expression.
fn walk_expr(e: &Expr, out: &mut Vec<Site>)
    ensures
        final(out)@ == old(out)@ + expr_sites(*e),
    decreases e,
{
    let ghost o0 = out@;
    match e {
        Expr::Binary { lhs, rhs, .. } => {
            walk_expr(lhs, out);
            walk_expr(rhs, out);
            assert(out@ =~= o0 + expr_sites(*e));
        },
        Expr::Unary { expr } => walk_expr(expr, out),
        Expr::Cast { expr, .. } => walk_expr(expr, out),
        Expr::Call { callee, args } => {
            walk_expr(callee, out);
            walk_exprs(args, out);
            assert(out@ =~= o0 + expr_sites(*e));
        },
        Expr::Method { receiver, args, .. } => {
            walk_expr(receiver, out);
            walk_exprs(args, out);
            assert(out@ =~= o0 + expr_sites(*e));
        },
        Expr::Field { receiver, .. } => walk_expr(receiver, out),
        Expr::Index { receiver, index } => {
            walk_expr(receiver, out);
            walk_expr(index, out);
            assert(out@ =~= o0 + expr_sites(*e));
        },
        Expr::If { condition, then_block, elsif_clauses, else_block } => {
            walk_expr(condition, out);
            walk_block(then_block, out);
            walk_elsifs(elsif_clauses, out);
            match else_block {
                Some(b) => walk_block(b, out),
                None => {},
            }
            assert(out@ =~= o0 + expr_sites(*e));
        },
        Expr::Match { subject, arms } => {
            walk_expr(subject, out);
            walk_arms(arms, out);
            assert(out@ =~= o0 + expr_sites(*e));
        },
        Expr::Try { body, rescues, ensure } => {
            walk_block(body, out);
            walk_rescues(rescues, out);
            match ensure {
                Some(b) => walk_block(b, out),
                None => {},
            }
            assert(out@ =~= o0 + expr_sites(*e));
        },
        Expr::Closure { body, .. } => match &**body {
            ClosureBody::Block(b) => {
                proof {
                    assert(decreases_to!(*e => **body));
                }
                walk_block(b, out);
            },
            ClosureBody::Expr(x) => {
                proof {
                    assert(decreases_to!(*e => **body));
                }
                walk_expr(x, out);
            },
        },
        Expr::Spawn { expr, span } => {
            out.push(Site::Spawn(*span));
            walk_expr(expr, out);
            assert(out@ =~= o0 + expr_sites(*e));
        },
        Expr::Array { elements } => walk_exprs(elements, out),
        Expr::MapLit { entries } => walk_entries(entries, out),
        _ => {
            assert(out@ =~= o0 + expr_sites(*e));
        },
    }
}

/// Appends the sites of expressions in order.
fn walk_exprs(es: &Vec<Expr>, out: &mut Vec<Site>)
    ensures
        final(out)@ == old(out)@ + exprs_sites(es@),
    decreases es,
{
    let ghost o0 = out@;
    let mut i: usize = 0;
    assert(es@.subrange(0, es@.len() as int) =~= es@);
    assert(o0 + exprs_sites(es@) =~= out@ + exprs_sites(es@.subrange(0, es@.len() as int)));
    while i < es.len()
        invariant
            i <= es@.len(),
            o0 + exprs_sites(es@) == out@ + exprs_sites(es@.subrange(i as int, es@.len() as int)),
        decreases es@.len() - i,
    {
        let ghost rest = es@.subrange(i as int, es@.len() as int);
        assert(rest[0] == es@[i as int]);
        assert(rest.subrange(1, rest.len() as int) =~= es@.subrange(i as int + 1, es@.len() as int));
        let ghost before = out@;
        proof {
            assert(decreases_to!(*es => es@));
            assert(decreases_to!(es@ => es@[i as int]));
        }
        walk_expr(&es[i], out);
        assert(before + (expr_sites(es@[i as int]) + exprs_sites(es@.subrange(i as int + 1, es@.len() as int)))
            =~= out@ + exprs_sites(es@.subrange(i as int + 1, es@.len() as int)));
        i = i + 1;
    }
    assert(out@ + exprs_sites(es@.subrange(i as int, es@.len() as int)) =~= out@);
}

/// Appends the sites of map entries.
fn walk_entries(es: &Vec<(Expr, Expr)>, out: &mut Vec<Site>)
    ensures
        final(out)@ == old(out)@ + entries_sites(es@),
    decreases es,
{
    let ghost o0 = out@;
    let mut i: usize = 0;
    assert(es@.subrange(0, es@.len() as int) =~= es@);
    assert(o0 + entries_sites(es@) =~= out@ + entries_sites(es@.subrange(0, es@.len() as int)));
    while i < es.len()
        invariant
            i <= es@.len(),
            o0 + entries_sites(es@) == out@ + entries_sites(es@.subrange(i as int, es@.len() as int)),
        decreases es@.len() - i,
    {
        let ghost rest = es@.subrange(i as int, es@.len() as int);
        assert(rest[0] == es@[i as int]);
        assert(rest.subrange(1, rest.len() as int) =~= es@.subrange(i as int + 1, es@.len() as int));
        let ghost before = out@;
        proof {
            assert(decreases_to!(*es => es@));
            assert(decreases_to!(es@ => es@[i as int]));
            assert(decreases_to!(es@[i as int] => es@[i as int].0));
            assert(decreases_to!(es@[i as int] => es@[i as int].1));
        }
        walk_expr(&es[i].0, out);
        walk_expr(&es[i].1, out);
        assert(before + (expr_sites(es@[i as int].0) + expr_sites(es@[i as int].1) + entries_sites(es@.subrange(i as int + 1, es@.len() as int)))
            =~= out@ + entries_sites(es@.subrange(i as int + 1, es@.len() as int)));
        i = i + 1;
    }
    assert(out@ + entries_sites(es@.subrange(i as int, es@.len() as int)) =~= out@);
}

/// Appends the sites of `elsif` clauses.
fn walk_elsifs(cs: &Vec<(Expr, Block)>, out: &mut Vec<Site>)
    ensures
        final(out)@ == old(out)@ + elsifs_sites(cs@),
    decreases cs,
{
    let ghost o0 = out@;
    let mut i: usize = 0;
    assert(cs@.subrange(0, cs@.len() as int) =~= cs@);
    assert(o0 + elsifs_sites(cs@) =~= out@ + elsifs_sites(cs@.subrange(0, cs@.len() as int)));
    while i < cs.len()
        invariant
            i <= cs@.len(),
            o0 + elsifs_sites(cs@) == out@ + elsifs_sites(cs@.subrange(i as int, cs@.len() as int)),
        decreases cs@.len() - i,
    {
        let ghost rest = cs@.subrange(i as int, cs@.len() as int);
        assert(rest[0] == cs@[i as int]);
        assert(rest.subrange(1, rest.len() as int) =~= cs@.subrange(i as int + 1, cs@.len() as int));
        let ghost before = out@;
        proof {
            assert(decreases_to!(*cs => cs@));
            assert(decreases_to!(cs@ => cs@[i as int]));
            assert(decreases_to!(cs@[i as int] => cs@[i as int].0));
            assert(decreases_to!(cs@[i as int] => cs@[i as int].1));
        }
        walk_expr(&cs[i].0, out);
        walk_block(&cs[i].1, out);
        assert(before + (expr_sites(cs@[i as int].0) + block_sites(cs@[i as int].1) + elsifs_sites(cs@.subrange(i as int + 1, cs@.len() as int)))
            =~= out@ + elsifs_sites(cs@.subrange(i as int + 1, cs@.len() as int)));
        i = i + 1;
    }
    assert(out@ + elsifs_sites(cs@.subrange(i as int, cs@.len() as int)) =~= out@);
}

/// Appends the sites of `match` arms.
fn walk_arms(arms: &Vec<MatchArm>, out: &mut Vec<Site>)
    ensures
        final(out)@ == old(out)@ + arms_sites(arms@),
    decreases arms,
{
    let ghost o0 = out@;
    let mut i: usize = 0;
    assert(arms@.subrange(0, arms@.len() as int) =~= arms@);
    assert(o0 + arms_sites(arms@) =~= out@ + arms_sites(arms@.subrange(0, arms@.len() as int)));
    while i < arms.len()
        invariant
            i <= arms@.len(),
            o0 + arms_sites(arms@) == out@ + arms_sites(arms@.subrange(i as int, arms@.len() as int)),
        decreases arms@.len() - i,
    {
        let ghost rest = arms@.subrange(i as int, arms@.len() as int);
        assert(rest[0] == arms@[i as int]);
        assert(rest.subrange(1, rest.len() as int) =~= arms@.subrange(i as int + 1, arms@.len() as int));
        let ghost before = out@;
        let ghost arm = arms@[i as int];
        proof {
            assert(decreases_to!(*arms => arms@));
            assert(decreases_to!(arms@ => arms@[i as int]));
            assert(decreases_to!(arms@[i as int] => arms@[i as int].body));
        }
        match &arms[i].guard {
            Some(g) => {
                proof {
                    assert(decreases_to!(arms@[i as int] => arms@[i as int].guard));
                    assert(decreases_to!(arms@[i as int].guard => arms@[i as int].guard->0));
                }
                walk_expr(g, out);
            },
            None => {},
        }
        walk_block(&arms[i].body, out);
        let ghost g = match arm.guard {
            Some(x) => expr_sites(x),
            None => Seq::<Site>::empty(),
        };
        assert(before + (g + block_sites(arm.body) + arms_sites(arms@.subrange(i as int + 1, arms@.len() as int)))
            =~= out@ + arms_sites(arms@.subrange(i as int + 1, arms@.len() as int)));
        i = i + 1;
    }
    assert(out@ + arms_sites(arms@.subrange(i as int, arms@.len() as int)) =~= out@);
}

/// Appends the sites of `rescue` clauses.
fn walk_rescues(rs: &Vec<Rescue>, out: &mut Vec<Site>)
    ensures
        final(out)@ == old(out)@ + rescues_sites(rs@),
    decreases rs,
{
    let ghost o0 = out@;
    let mut i: usize = 0;
    assert(rs@.subrange(0, rs@.len() as int) =~= rs@);
    assert(o0 + rescues_sites(rs@) =~= out@ + rescues_sites(rs@.subrange(0, rs@.len() as int)));
    while i < rs.len()
        invariant
            i <= rs@.len(),
            o0 + rescues_sites(rs@) == out@ + rescues_sites(rs@.subrange(i as int, rs@.len() as int)),
        decreases rs@.len() - i,
    {
        let ghost rest = rs@.subrange(i as int, rs@.len() as int);
        assert(rest[0] == rs@[i as int]);
        assert(rest.subrange(1, rest.len() as int) =~= rs@.subrange(i as int + 1, rs@.len() as int));
        let ghost before = out@;
        let ghost r = rs@[i as int];
        proof {
            assert(decreases_to!(*rs => rs@));
            assert(decreases_to!(rs@ => rs@[i as int]));
            assert(decreases_to!(rs@[i as int] => rs@[i as int].body));
        }
        if rs[i].ty.is_none() {
            out.push(Site::CatchAll(rs[i].span));
        }
        walk_block(&rs[i].body, out);
        let ghost c = if r.ty is None {
            seq![Site::CatchAll(r.span)]
        } else {
            Seq::<Site>::empty()
        };
        assert(before + (c + block_sites(r.body) + rescues_sites(rs@.subrange(i as int + 1, rs@.len() as int)))
            =~= out@ + rescues_sites(rs@.subrange(i as int + 1, rs@.len() as int)));
        i = i + 1;
    }
    assert(out@ + rescues_sites(rs@.subrange(i as int, rs@.len() as int)) =~= out@);
}

/// Appends the sites of a block.
fn walk_block(b: &Block, out: &mut Vec<Site>)
    ensures
        final(out)@ == old(out)@ + block_sites(*b),
    decreases b,
{
    let ghost o0 = out@;
    walk_stmts(&b.stmts, out);
    match &b.tail_expr {
        Some(t) => {
            proof {
                assert(decreases_to!(*b => b.tail_expr));
                assert(decreases_to!(b.tail_expr => b.tail_expr->0));
            }
            walk_expr(t, out);
        },
        None => {},
    }
    assert(out@ =~= o0 + block_sites(*b));
}

/// Appends the sites of statements in order.
fn walk_stmts(ss: &Vec<Stmt>, out: &mut Vec<Site>)
    ensures
        final(out)@ == old(out)@ + stmts_sites(ss@),
    decreases ss,
{
    let ghost o0 = out@;
    let mut i: usize = 0;
    assert(ss@.subrange(0, ss@.len() as int) =~= ss@);
    assert(o0 + stmts_sites(ss@) =~= out@ + stmts_sites(ss@.subrange(0, ss@.len() as int)));
    while i < ss.len()
        invariant
            i <= ss@.len(),
            o0 + stmts_sites(ss@) == out@ + stmts_sites(ss@.subrange(i as int, ss@.len() as int)),
        decreases ss@.len() - i,
    {
        let ghost rest = ss@.subrange(i as int, ss@.len() as int);
        assert(rest[0] == ss@[i as int]);
        assert(rest.subrange(1, rest.len() as int) =~= ss@.subrange(i as int + 1, ss@.len() as int));
        let ghost before = out@;
        proof {
            assert(decreases_to!(*ss => ss@));
            assert(decreases_to!(ss@ => ss@[i as int]));
        }
        walk_stmt(&ss[i], out);
        assert(before + (stmt_sites(ss@[i as int]) + stmts_sites(ss@.subrange(i as int + 1, ss@.len() as int)))
            =~= out@ + stmts_sites(ss@.subrange(i as int + 1, ss@.len() as int)));
        i = i + 1;
    }
    assert(out@ + stmts_sites(ss@.subrange(i as int, ss@.len() as int)) =~= out@);
}

/// Appends the sites of a statement.
fn walk_stmt(s: &Stmt, out: &mut Vec<Site>)
    ensures
        final(out)@ == old(out)@ + stmt_sites(*s),
    decreases s,
{
    let ghost o0 = out@;
    match s {
        Stmt::Let(d) => walk_expr(&d.value, out),
        Stmt::Var(d) => walk_expr(&d.value, out),
        Stmt::Const(d) => walk_expr(&d.value, out),
        Stmt::Assign { target, value, .. } => {
            walk_expr(target, out);
            walk_expr(value, out);
            assert(out@ =~= o0 + stmt_sites(*s));
        },
        Stmt::While { condition, body, .. } => {
            walk_expr(condition, out);
            walk_block(body, out);
            assert(out@ =~= o0 + stmt_sites(*s));
        },
        Stmt::For { iter, body, .. } => {
            walk_expr(iter, out);
            walk_block(body, out);
            assert(out@ =~= o0 + stmt_sites(*s));
        },
        Stmt::Loop { body, span } => {
            out.push(Site::Loop(*span));
            walk_block(body, out);
            assert(out@ =~= o0 + stmt_sites(*s));
        },
        Stmt::Break { value } | Stmt::Return { value } | Stmt::Yield { value } | Stmt::Next { value } => {
            match value {
                Some(v) => {
                    proof {
                        assert(decreases_to!(*value => value->0));
                    }
                    walk_expr(v, out);
                },
                None => {
                    assert(out@ =~= o0 + stmt_sites(*s));
                },
            }
        },
        Stmt::Raise { value } => walk_expr(value, out),
        Stmt::Continue => {
            assert(out@ =~= o0 + stmt_sites(*s));
        },
        Stmt::Expr(x) => walk_expr(x, out),
    }
}

// ---------------------------------------------------------------------------
// Explosive operations
// ---------------------------------------------------------------------------

/// The explosive operations among sites, in order.
pub open spec fn explosive_of(ss: Seq<Site>) -> Seq<ExplosiveOp>
    decreases ss.len(),
{
    if ss.len() == 0 {
        Seq::empty()
    } else {
        let last = match ss.last() {
            Site::Loop(sp) => seq![ExplosiveOp { kind: ExplosiveKind::UnconditionalLoop, span: sp }],
            Site::Spawn(sp) => seq![ExplosiveOp { kind: ExplosiveKind::Spawn, span: sp }],
            Site::CatchAll(_) => Seq::empty(),
        };
        explosive_of(ss.drop_last()) + last
    }
}

/// Whether some annotation is `@bounded(..)`.
pub open spec fn has_bounded_ann(anns: Seq<Annotation>) -> bool {
    exists|i: int| 0 <= i < anns.len() && anns[i] is Bounded
}

/// Whether some annotation is `@fan_out(..)`.
pub open spec fn has_fan_out_ann(anns: Seq<Annotation>) -> bool {
    exists|i: int| 0 <= i < anns.len() && anns[i] is FanOut
}

/// A function's explosive report, as plain values.
pub open spec fn fn_explosive(fd: FnDef) -> (Seq<char>, Seq<ExplosiveOp>, bool, bool) {
    (fd.name@, explosive_of(block_sites(fd.body)), has_bounded_ann(fd.annotations@), has_fan_out_ann(fd.annotations@))
}

/// The reports of the top-level functions among `items`, in order.
pub open spec fn items_explosive(items: Seq<Item>) -> Seq<(Seq<char>, Seq<ExplosiveOp>, bool, bool)>
    decreases items.len(),
{
    if items.len() == 0 {
        Seq::empty()
    } else {
        let last = match items.last() {
            Item::Fn(fd) => seq![fn_explosive(fd)],
            _ => Seq::empty(),
        };
        items_explosive(items.drop_last()) + last
    }
}

/// The explosive operations among sites.
fn explosive_sites(ss: &Vec<Site>) -> (r: Vec<ExplosiveOp>)
    ensures
        r@ == explosive_of(ss@),
{
    let mut r: Vec<ExplosiveOp> = Vec::new();
    let mut i: usize = 0;
    while i < ss.len()
        invariant
            i <= ss@.len(),
            r@ == explosive_of(ss@.subrange(0, i as int)),
        decreases ss@.len() - i,
    {
        let ghost pre = ss@.subrange(0, i as int + 1);
        assert(pre.drop_last() =~= ss@.subrange(0, i as int));
        assert(pre.last() == ss@[i as int]);
        match ss[i] {
            Site::Loop(sp) => r.push(ExplosiveOp { kind: ExplosiveKind::UnconditionalLoop, span: sp }),
            Site::Spawn(sp) => r.push(ExplosiveOp { kind: ExplosiveKind::Spawn, span: sp }),
            Site::CatchAll(_) => {},
        }
        assert(r@ =~= explosive_of(pre));
        i = i + 1;
    }
    assert(ss@.subrange(0, i as int) =~= ss@);
    r
}

/// Whether some annotation is `@bounded(..)` (with `bounded`) or
/// `@fan_out(..)` (without).
fn has_annotation(anns: &Vec<Annotation>, bounded: bool) -> (r: bool)
    ensures
        r == if bounded { has_bounded_ann(anns@) } else { has_fan_out_ann(anns@) },
{
    let mut i: usize = 0;
    while i < anns.len()
        invariant
            i <= anns@.len(),
            forall|j: int| 0 <= j < i ==> !(if bounded { anns@[j] is Bounded } else { anns@[j] is FanOut }),
        decreases anns@.len() - i,
    {
        let hit = match &anns[i] {
            Annotation::Bounded(_) => bounded,
            Annotation::FanOut(_) => !bounded,
            _ => false,
        };
        if hit {
            return true;
        }
        i = i + 1;
    }
    false
}

/// The explosive operations of each top-level function: the functions with
/// at least one, sorted by name (stably), each with whether it declares
/// `@bounded` and `@fan_out`.
pub fn explosive_ops(module: &Module) -> (r: Vec<FnExplosiveReport>)
    ensures
        explosive_views(r@) == explosive_listing(items_explosive(module.items@)),
{
    let ghost it = module.items@;
    let mut fns: Vec<FnExplosiveReport> = Vec::new();
    let mut i: usize = 0;
    assert(explosive_views(fns@) =~= items_explosive(it.subrange(0, 0)));
    while i < module.items.len()
        invariant
            it == module.items@,
            i <= it.len(),
            explosive_views(fns@) == items_explosive(it.subrange(0, i as int)),
        decreases it.len() - i,
    {
        let ghost pre = it.subrange(0, i as int + 1);
        assert(pre.drop_last() =~= it.subrange(0, i as int));
        assert(pre.last() == it[i as int]);
        let ghost f0 = fns@;
        match &module.items[i] {
            Item::Fn(fd) => {
                let mut sites: Vec<Site> = Vec::new();
                walk_block(&fd.body, &mut sites);
                assert(sites@ =~= block_sites(fd.body));
                let ops = explosive_sites(&sites);
                let rep = FnExplosiveReport {
                    fn_name: fd.name.clone(),
                    ops,
                    has_bounded: has_annotation(&fd.annotations, true),
                    has_fan_out: has_annotation(&fd.annotations, false),
                };
                fns.push(rep);
                assert(explosive_views(fns@) =~= explosive_views(f0).push(explosive_view(rep)));
            },
            _ => {},
        }
        assert(explosive_views(fns@) =~= items_explosive(pre));
        i = i + 1;
    }
    assert(it.subrange(0, i as int) =~= it);
    sort_explosive_reports(&fns)
}

// ---------------------------------------------------------------------------
// Over-catch
// ---------------------------------------------------------------------------

/// One catch-all `rescue` site: a `rescue` clause with no exception type.
#[derive(Debug, Clone, Copy, PartialEq, Eq, Structural)]
pub struct OverCatchSite {
    pub span: Span,
}

/// The catch-all sites among sites, in order.
pub open spec fn catch_alls(ss: Seq<Site>) -> Seq<OverCatchSite>
    decreases ss.len(),
{
    if ss.len() == 0 {
        Seq::empty()
    } else {
        let last = match ss.last() {
            Site::CatchAll(sp) => seq![OverCatchSite { span: sp }],
            _ => Seq::empty(),
        };
        catch_alls(ss.drop_last()) + last
    }
}

/// The sites of the bodies of the top-level functions among `items`.
pub open spec fn items_sites(items: Seq<Item>) -> Seq<Site>
    decreases items.len(),
{
    if items.len() == 0 {
        Seq::empty()
    } else {
        let last = match items.last() {
            Item::Fn(fd) => block_sites(fd.body),
            _ => Seq::empty(),
        };
        items_sites(items.drop_last()) + last
    }
}

/// The catch-all `rescue` sites across the top-level functions, in source
/// order.
pub fn overcatch_sites(module: &Module) -> (r: Vec<OverCatchSite>)
    ensures
        r@ == catch_alls(items_sites(module.items@)),
{
    let ghost it = module.items@;
    let mut sites: Vec<Site> = Vec::new();
    let mut i: usize = 0;
    assert(sites@ =~= items_sites(it.subrange(0, 0)));
    while i < module.items.len()
        invariant
            it == module.items@,
            i <= it.len(),
            sites@ == items_sites(it.subrange(0, i as int)),
        decreases it.len() - i,
    {
        let ghost pre = it.subrange(0, i as int + 1);
        assert(pre.drop_last() =~= it.subrange(0, i as int));
        assert(pre.last() == it[i as int]);
        match &module.items[i] {
            Item::Fn(fd) => walk_block(&fd.body, &mut sites),
            _ => {},
        }
        assert(sites@ =~= items_sites(pre));
        i = i + 1;
    }
    assert(it.subrange(0, i as int) =~= it);
    let mut out: Vec<OverCatchSite> = Vec::new();
    let mut j: usize = 0;
    while j < sites.len()
        invariant
            j <= sites@.len(),
            out@ == catch_alls(sites@.subrange(0, j as int)),
        decreases sites@.len() - j,
    {
        let ghost pre = sites@.subrange(0, j as int + 1);
        assert(pre.drop_last() =~= sites@.subrange(0, j as int));
        assert(pre.last() == sites@[j as int]);
        match sites[j] {
            Site::CatchAll(sp) => out.push(OverCatchSite { span: sp }),
            _ => {},
        }
        assert(out@ =~= catch_alls(pre));
        j = j + 1;
    }
    assert(sites@.subrange(0, j as int) =~= sites@);
    out
}

} // verus!
