//! The call graph of a module as the transitive `@caps` check reads it:
//! each function (free, in nested modules, impl methods) with its owner,
//! its declared capabilities and every call in its body, and the kinds of
//! the module's `memory` declarations.

use vstd::prelude::*;
use crate::ast::{ActorMember, Block, Expr, FnDef, Item, MatchArm, Module, Rescue, Stmt};
use crate::caps_graph::{Callee, CapsModule, FnDecl};
use crate::checker::{caps_names, has_caps};
use crate::coherence::{seg_views, TypeExpr};

verus! {

/// A call as a value: by name, by qualified path, or a method by name.
pub enum CalleeV {
    Name(Seq<char>),
    Path(Seq<Seq<char>>),
    Method(Seq<char>),
}

/// A recorded call, as a value.
pub open spec fn callee_view(c: Callee) -> CalleeV {
    match c {
        Callee::Name(n) => CalleeV::Name(n@),
        Callee::Path(p) => CalleeV::Path(seg_views(p@)),
        Callee::Method(m) => CalleeV::Method(m@),
    }
}

/// Recorded calls, as values.
pub open spec fn callee_views(v: Seq<Callee>) -> Seq<CalleeV> {
    v.map_values(|c: Callee| callee_view(c))
}

/// The call a call expression's callee names: a simple name or a path.
pub open spec fn callee_of(callee: Expr) -> Seq<CalleeV> {
    match callee {
        Expr::Ident(n) => seq![CalleeV::Name(n@)],
        Expr::Path(segs) => seq![CalleeV::Path(seg_views(segs@))],
        _ => Seq::empty(),
    }
}

// ---------------------------------------------------------------------------
// The calls of a function body, in walk order (closures are not entered,
// `match` guards are not read)
// ---------------------------------------------------------------------------

/// The calls within an expression.
pub open spec fn callees_expr(e: Expr) -> Seq<CalleeV>
    decreases e,
{
    match e {
        Expr::Call { callee, args } => callee_of(*callee) + callees_expr(*callee) + callees_exprs(args@),
        Expr::Method { receiver, method, args } => seq![CalleeV::Method(method@)] + callees_expr(*receiver) + callees_exprs(args@),
        Expr::Binary { lhs, rhs, .. } => callees_expr(*lhs) + callees_expr(*rhs),
        Expr::Unary { expr } => callees_expr(*expr),
        Expr::Cast { expr, .. } => callees_expr(*expr),
        Expr::Field { receiver, .. } => callees_expr(*receiver),
        Expr::Index { receiver, index } => callees_expr(*receiver) + callees_expr(*index),
        Expr::If { condition, then_block, elsif_clauses, else_block } => {
            let tail = match else_block {
                Some(b) => callees_block(b),
                None => Seq::empty(),
            };
            callees_expr(*condition) + callees_block(then_block) + callees_elsifs(elsif_clauses@) + tail
        },
        Expr::Match { subject, arms } => callees_expr(*subject) + callees_arms(arms@),
        Expr::Try { body, rescues, ensure } => {
            let tail = match ensure {
                Some(b) => callees_block(b),
                None => Seq::empty(),
            };
            callees_block(body) + callees_rescues(rescues@) + tail
        },
        Expr::Array { elements } => callees_exprs(elements@),
        Expr::MapLit { entries } => callees_entries(entries@),
        Expr::Spawn { expr, .. } => callees_expr(*expr),
        _ => Seq::empty(),
    }
}

/// The calls within expressions, in order.
pub open spec fn callees_exprs(es: Seq<Expr>) -> Seq<CalleeV>
    decreases es,
{
    if es.len() == 0 {
        Seq::empty()
    } else {
        callees_expr(es[0]) + callees_exprs(es.subrange(1, es.len() as int))
    }
}

/// The calls within map entries.
pub open spec fn callees_entries(es: Seq<(Expr, Expr)>) -> Seq<CalleeV>
    decreases es,
{
    if es.len() == 0 {
        Seq::empty()
    } else {
        callees_expr(es[0].0) + callees_expr(es[0].1) + callees_entries(es.subrange(1, es.len() as int))
    }
}

/// The calls within `elsif` clauses.
pub open spec fn callees_elsifs(cs: Seq<(Expr, Block)>) -> Seq<CalleeV>
    decreases cs,
{
    if cs.len() == 0 {
        Seq::empty()
    } else {
        callees_expr(cs[0].0) + callees_block(cs[0].1) + callees_elsifs(cs.subrange(1, cs.len() as int))
    }
}

/// The calls within `match` arm bodies (guards are not read).
pub open spec fn callees_arms(arms: Seq<MatchArm>) -> Seq<CalleeV>
    decreases arms,
{
    if arms.len() == 0 {
        Seq::empty()
    } else {
        callees_block(arms[0].body) + callees_arms(arms.subrange(1, arms.len() as int))
    }
}

/// The calls within `rescue` bodies.
pub open spec fn callees_rescues(rs: Seq<Rescue>) -> Seq<CalleeV>
    decreases rs,
{
    if rs.len() == 0 {
        Seq::empty()
    } else {
        callees_block(rs[0].body) + callees_rescues(rs.subrange(1, rs.len() as int))
    }
}

/// The calls within a block.
pub open spec fn callees_block(b: Block) -> Seq<CalleeV>
    decreases b,
{
    let tail = match b.tail_expr {
        Some(t) => callees_expr(*t),
        None => Seq::empty(),
    };
    callees_stmts(b.stmts@) + tail
}

/// The calls within statements, in order.
pub open spec fn callees_stmts(ss: Seq<Stmt>) -> Seq<CalleeV>
    decreases ss,
{
    if ss.len() == 0 {
        Seq::empty()
    } else {
        callees_stmt(ss[0]) + callees_stmts(ss.subrange(1, ss.len() as int))
    }
}

/// The calls within an optional expression.
pub open spec fn callees_opt(e: Option<Expr>) -> Seq<CalleeV>
    decreases e,
{
    match e {
        Some(x) => callees_expr(x),
        None => Seq::empty(),
    }
}

/// The calls within a statement.
pub open spec fn callees_stmt(s: Stmt) -> Seq<CalleeV>
    decreases s,
{
    match s {
        Stmt::Expr(x) => callees_expr(x),
        Stmt::Let(d) => callees_expr(d.value),
        Stmt::Var(d) => callees_expr(d.value),
        Stmt::Const(d) => callees_expr(d.value),
        Stmt::Assign { target, value, .. } => callees_expr(target) + callees_expr(value),
        Stmt::Return { value } => callees_opt(value),
        Stmt::Yield { value } => callees_opt(value),
        Stmt::Next { value } => callees_opt(value),
        Stmt::Break { value } => callees_opt(value),
        Stmt::Raise { value } => callees_expr(value),
        Stmt::While { condition, body, .. } => callees_expr(condition) + callees_block(body),
        Stmt::For { iter, body, .. } => callees_expr(iter) + callees_block(body),
        Stmt::Loop { body, .. } => callees_block(body),
        Stmt::Continue => Seq::empty(),
    }
}


// ---------------------------------------------------------------------------
// Functions and memory declarations
// ---------------------------------------------------------------------------

/// The owner label of an impl block: the last segment of its target type's
/// path, or `impl`.
pub open spec fn type_label(t: TypeExpr) -> Seq<char> {
    match t {
        TypeExpr::Named { path, .. } => if path@.len() > 0 { path@.last()@ } else { "impl"@ },
        _ => "impl"@,
    }
}

/// A function declaration as a value: owner, name, declared capabilities
/// (when it carries a `@caps`) and calls.
pub open spec fn decl_view(d: FnDecl) -> (Option<Seq<char>>, Seq<char>, Option<Seq<Seq<char>>>, Seq<CalleeV>) {
    (
        match d.owner { Some(o) => Some(o@), None => None },
        d.name@,
        match d.caps { Some(c) => Some(seg_views(c@)), None => None },
        callee_views(d.callees@),
    )
}

/// Declarations as values.
pub open spec fn decl_views(v: Seq<FnDecl>) -> Seq<(Option<Seq<char>>, Seq<char>, Option<Seq<Seq<char>>>, Seq<CalleeV>)> {
    v.map_values(|d: FnDecl| decl_view(d))
}

/// The declaration of a function with the given owner.
pub open spec fn fn_decl_of(f: FnDef, owner: Option<Seq<char>>) -> (Option<Seq<char>>, Seq<char>, Option<Seq<Seq<char>>>, Seq<CalleeV>) {
    (owner, f.name@, if has_caps(f.annotations@) { Some(caps_names(f.annotations@)) } else { None }, callees_block(f.body))
}

/// The functions of the module tree in source order: free functions,
/// those of nested modules, and impl methods owned by the impl's type label.
pub open spec fn fn_decls_of(items: Seq<Item>) -> Seq<(Option<Seq<char>>, Seq<char>, Option<Seq<Seq<char>>>, Seq<CalleeV>)>
    decreases items,
{
    if items.len() == 0 {
        Seq::empty()
    } else {
        let head = match items[0] {
            Item::Fn(f) => seq![fn_decl_of(f, None)],
            Item::Module(m) => fn_decls_of(m.items@),
            Item::Impl(b) => b.methods@.map_values(|m: FnDef| fn_decl_of(m, Some(type_label(b.target)))),
            _ => Seq::empty(),
        };
        head + fn_decls_of(items.subrange(1, items.len() as int))
    }
}

/// The memory kinds an actor declares.
pub open spec fn actor_memory(ms: Seq<ActorMember>) -> Seq<Seq<char>>
    decreases ms.len(),
{
    if ms.len() == 0 {
        Seq::empty()
    } else {
        let head = match ms[0] {
            ActorMember::Memory(k) => seq![k@],
            _ => Seq::empty(),
        };
        head + actor_memory(ms.subrange(1, ms.len() as int))
    }
}

/// The kinds of the `memory` declarations of the module tree (top level,
/// nested modules, actor bodies), in source order.
pub open spec fn memory_kinds_of(items: Seq<Item>) -> Seq<Seq<char>>
    decreases items,
{
    if items.len() == 0 {
        Seq::empty()
    } else {
        let head = match items[0] {
            Item::Memory(k) => seq![k@],
            Item::Actor(a) => actor_memory(a.items@),
            Item::Module(m) => memory_kinds_of(m.items@),
            _ => Seq::empty(),
        };
        head + memory_kinds_of(items.subrange(1, items.len() as int))
    }
}

// ---------------------------------------------------------------------------
// The walk
// ---------------------------------------------------------------------------

/// Appends the call a callee names, if any.
fn push_callee(callee: &Expr, out: &mut Vec<Callee>)
    ensures
        callee_views(final(out)@) == callee_views(old(out)@) + callee_of(*callee),
{
    let ghost o0 = callee_views(out@);
    match callee {
        Expr::Ident(n) => {
            out.push(Callee::Name(n.clone()));
            assert(callee_views(out@) =~= o0 + seq![CalleeV::Name(n@)]);
        },
        Expr::Path(segs) => {
            let p = copy_path(segs);
            out.push(Callee::Path(p));
            assert(callee_views(out@) =~= o0 + seq![CalleeV::Path(seg_views(segs@))]);
        },
        _ => {
            assert(callee_views(out@) =~= o0 + Seq::<CalleeV>::empty());
        },
    }
}

/// A copy of a path.
fn copy_path(v: &Vec<String>) -> (r: Vec<String>)
    ensures
        seg_views(r@) == seg_views(v@),
{
    let mut r: Vec<String> = Vec::new();
    let mut i: usize = 0;
    while i < v.len()
        invariant
            i <= v@.len(),
            seg_views(r@) == seg_views(v@.subrange(0, i as int)),
        decreases v@.len() - i,
    {
        let ghost r0 = r@;
        r.push(v[i].clone());
        assert(seg_views(r@) =~= seg_views(v@.subrange(0, i as int + 1))) by {
            assert(seg_views(r@) =~= seg_views(r0).push(v@[i as int]@));
        }
        i = i + 1;
    }
    assert(v@.subrange(0, i as int) =~= v@);
    r
}


/// Appends the calls within an expression.
fn gather_expr(e: &Expr, out: &mut Vec<Callee>)
    ensures
        callee_views(final(out)@) == callee_views(old(out)@) + callees_expr(*e),
    decreases e,
{
    let ghost o0 = callee_views(out@);
    match e {
        Expr::Call { callee, args } => {
            push_callee(callee, out);
            gather_expr(callee, out);
            gather_exprs(args, out);
        },
        Expr::Method { receiver, method, args } => {
            let ghost o1 = callee_views(out@);
            out.push(Callee::Method(method.clone()));
            assert(callee_views(out@) =~= o1 + seq![CalleeV::Method(method@)]);
            gather_expr(receiver, out);
            gather_exprs(args, out);
        },
        Expr::Binary { lhs, rhs, .. } => {
            gather_expr(lhs, out);
            gather_expr(rhs, out);
        },
        Expr::Unary { expr } => gather_expr(expr, out),
        Expr::Cast { expr, .. } => gather_expr(expr, out),
        Expr::Field { receiver, .. } => gather_expr(receiver, out),
        Expr::Index { receiver, index } => {
            gather_expr(receiver, out);
            gather_expr(index, out);
        },
        Expr::If { condition, then_block, elsif_clauses, else_block } => {
            gather_expr(condition, out);
            gather_block(then_block, out);
            gather_elsifs(elsif_clauses, out);
            match else_block {
                Some(b) => gather_block(b, out),
                None => {},
            }
        },
        Expr::Match { subject, arms } => {
            gather_expr(subject, out);
            gather_arms(arms, out);
        },
        Expr::Try { body, rescues, ensure } => {
            gather_block(body, out);
            gather_rescues(rescues, out);
            match ensure {
                Some(b) => gather_block(b, out),
                None => {},
            }
        },
        Expr::Array { elements } => gather_exprs(elements, out),
        Expr::MapLit { entries } => gather_entries(entries, out),
        Expr::Spawn { expr, .. } => gather_expr(expr, out),
        _ => {},
    }
    assert(callee_views(out@) =~= o0 + callees_expr(*e));
}

/// Appends the calls within expressions.
fn gather_exprs(es: &Vec<Expr>, out: &mut Vec<Callee>)
    ensures
        callee_views(final(out)@) == callee_views(old(out)@) + callees_exprs(es@),
    decreases es,
{
    let ghost o0 = callee_views(out@);
    let mut i: usize = 0;
    assert(es@.subrange(0, es@.len() as int) =~= es@);
    assert(o0 + callees_exprs(es@) =~= callee_views(out@) + callees_exprs(es@.subrange(0, es@.len() as int)));
    while i < es.len()
        invariant
            i <= es@.len(),
            o0 + callees_exprs(es@) == callee_views(out@) + callees_exprs(es@.subrange(i as int, es@.len() as int)),
        decreases es@.len() - i,
    {
        let ghost rest = es@.subrange(i as int, es@.len() as int);
        assert(rest[0] == es@[i as int]);
        assert(rest.subrange(1, rest.len() as int) =~= es@.subrange(i as int + 1, es@.len() as int));
        let ghost before = callee_views(out@);
        proof {
            assert(decreases_to!(*es => es@));
            assert(decreases_to!(es@ => es@[i as int]));
        }
        gather_expr(&es[i], out);
        assert(before + (callees_expr(es@[i as int]) + callees_exprs(es@.subrange(i as int + 1, es@.len() as int)))
            =~= callee_views(out@) + callees_exprs(es@.subrange(i as int + 1, es@.len() as int)));
        i = i + 1;
    }
    assert(callee_views(out@) + callees_exprs(es@.subrange(i as int, es@.len() as int)) =~= callee_views(out@));
}

/// Appends the calls within map entries.
fn gather_entries(es: &Vec<(Expr, Expr)>, out: &mut Vec<Callee>)
    ensures
        callee_views(final(out)@) == callee_views(old(out)@) + callees_entries(es@),
    decreases es,
{
    let ghost o0 = callee_views(out@);
    let mut i: usize = 0;
    assert(es@.subrange(0, es@.len() as int) =~= es@);
    assert(o0 + callees_entries(es@) =~= callee_views(out@) + callees_entries(es@.subrange(0, es@.len() as int)));
    while i < es.len()
        invariant
            i <= es@.len(),
            o0 + callees_entries(es@) == callee_views(out@) + callees_entries(es@.subrange(i as int, es@.len() as int)),
        decreases es@.len() - i,
    {
        let ghost rest = es@.subrange(i as int, es@.len() as int);
        assert(rest[0] == es@[i as int]);
        assert(rest.subrange(1, rest.len() as int) =~= es@.subrange(i as int + 1, es@.len() as int));
        let ghost before = callee_views(out@);
        proof {
            assert(decreases_to!(*es => es@));
            assert(decreases_to!(es@ => es@[i as int]));
            assert(decreases_to!(es@[i as int] => es@[i as int].0));
            assert(decreases_to!(es@[i as int] => es@[i as int].1));
        }
        gather_expr(&es[i].0, out);
        gather_expr(&es[i].1, out);
        assert(before + (callees_expr(es@[i as int].0) + callees_expr(es@[i as int].1) + callees_entries(es@.subrange(i as int + 1, es@.len() as int)))
            =~= callee_views(out@) + callees_entries(es@.subrange(i as int + 1, es@.len() as int)));
        i = i + 1;
    }
    assert(callee_views(out@) + callees_entries(es@.subrange(i as int, es@.len() as int)) =~= callee_views(out@));
}

/// Appends the calls within `elsif` clauses.
fn gather_elsifs(cs: &Vec<(Expr, Block)>, out: &mut Vec<Callee>)
    ensures
        callee_views(final(out)@) == callee_views(old(out)@) + callees_elsifs(cs@),
    decreases cs,
{
    let ghost o0 = callee_views(out@);
    let mut i: usize = 0;
    assert(cs@.subrange(0, cs@.len() as int) =~= cs@);
    assert(o0 + callees_elsifs(cs@) =~= callee_views(out@) + callees_elsifs(cs@.subrange(0, cs@.len() as int)));
    while i < cs.len()
        invariant
            i <= cs@.len(),
            o0 + callees_elsifs(cs@) == callee_views(out@) + callees_elsifs(cs@.subrange(i as int, cs@.len() as int)),
        decreases cs@.len() - i,
    {
        let ghost rest = cs@.subrange(i as int, cs@.len() as int);
        assert(rest[0] == cs@[i as int]);
        assert(rest.subrange(1, rest.len() as int) =~= cs@.subrange(i as int + 1, cs@.len() as int));
        let ghost before = callee_views(out@);
        proof {
            assert(decreases_to!(*cs => cs@));
            assert(decreases_to!(cs@ => cs@[i as int]));
            assert(decreases_to!(cs@[i as int] => cs@[i as int].0));
            assert(decreases_to!(cs@[i as int] => cs@[i as int].1));
        }
        gather_expr(&cs[i].0, out);
        gather_block(&cs[i].1, out);
        assert(before + (callees_expr(cs@[i as int].0) + callees_block(cs@[i as int].1) + callees_elsifs(cs@.subrange(i as int + 1, cs@.len() as int)))
            =~= callee_views(out@) + callees_elsifs(cs@.subrange(i as int + 1, cs@.len() as int)));
        i = i + 1;
    }
    assert(callee_views(out@) + callees_elsifs(cs@.subrange(i as int, cs@.len() as int)) =~= callee_views(out@));
}

/// Appends the calls within `match` arm bodies.
fn gather_arms(arms: &Vec<MatchArm>, out: &mut Vec<Callee>)
    ensures
        callee_views(final(out)@) == callee_views(old(out)@) + callees_arms(arms@),
    decreases arms,
{
    let ghost o0 = callee_views(out@);
    let mut i: usize = 0;
    assert(arms@.subrange(0, arms@.len() as int) =~= arms@);
    assert(o0 + callees_arms(arms@) =~= callee_views(out@) + callees_arms(arms@.subrange(0, arms@.len() as int)));
    while i < arms.len()
        invariant
            i <= arms@.len(),
            o0 + callees_arms(arms@) == callee_views(out@) + callees_arms(arms@.subrange(i as int, arms@.len() as int)),
        decreases arms@.len() - i,
    {
        let ghost rest = arms@.subrange(i as int, arms@.len() as int);
        assert(rest[0] == arms@[i as int]);
        assert(rest.subrange(1, rest.len() as int) =~= arms@.subrange(i as int + 1, arms@.len() as int));
        let ghost before = callee_views(out@);
        proof {
            assert(decreases_to!(*arms => arms@));
            assert(decreases_to!(arms@ => arms@[i as int]));
            assert(decreases_to!(arms@[i as int] => arms@[i as int].body));
        }
        gather_block(&arms[i].body, out);
        assert(before + (callees_block(arms@[i as int].body) + callees_arms(arms@.subrange(i as int + 1, arms@.len() as int)))
            =~= callee_views(out@) + callees_arms(arms@.subrange(i as int + 1, arms@.len() as int)));
        i = i + 1;
    }
    assert(callee_views(out@) + callees_arms(arms@.subrange(i as int, arms@.len() as int)) =~= callee_views(out@));
}

/// Appends the calls within `rescue` bodies.
fn gather_rescues(rs: &Vec<Rescue>, out: &mut Vec<Callee>)
    ensures
        callee_views(final(out)@) == callee_views(old(out)@) + callees_rescues(rs@),
    decreases rs,
{
    let ghost o0 = callee_views(out@);
    let mut i: usize = 0;
    assert(rs@.subrange(0, rs@.len() as int) =~= rs@);
    assert(o0 + callees_rescues(rs@) =~= callee_views(out@) + callees_rescues(rs@.subrange(0, rs@.len() as int)));
    while i < rs.len()
        invariant
            i <= rs@.len(),
            o0 + callees_rescues(rs@) == callee_views(out@) + callees_rescues(rs@.subrange(i as int, rs@.len() as int)),
        decreases rs@.len() - i,
    {
        let ghost rest = rs@.subrange(i as int, rs@.len() as int);
        assert(rest[0] == rs@[i as int]);
        assert(rest.subrange(1, rest.len() as int) =~= rs@.subrange(i as int + 1, rs@.len() as int));
        let ghost before = callee_views(out@);
        proof {
            assert(decreases_to!(*rs => rs@));
            assert(decreases_to!(rs@ => rs@[i as int]));
            assert(decreases_to!(rs@[i as int] => rs@[i as int].body));
        }
        gather_block(&rs[i].body, out);
        assert(before + (callees_block(rs@[i as int].body) + callees_rescues(rs@.subrange(i as int + 1, rs@.len() as int)))
            =~= callee_views(out@) + callees_rescues(rs@.subrange(i as int + 1, rs@.len() as int)));
        i = i + 1;
    }
    assert(callee_views(out@) + callees_rescues(rs@.subrange(i as int, rs@.len() as int)) =~= callee_views(out@));
}

/// Appends the calls within a block.
fn gather_block(b: &Block, out: &mut Vec<Callee>)
    ensures
        callee_views(final(out)@) == callee_views(old(out)@) + callees_block(*b),
    decreases b,
{
    let ghost o0 = callee_views(out@);
    gather_stmts(&b.stmts, out);
    match &b.tail_expr {
        Some(t) => {
            proof {
                assert(decreases_to!(*b => b.tail_expr));
                assert(decreases_to!(b.tail_expr => b.tail_expr->0));
            }
            gather_expr(t, out);
        },
        None => {},
    }
    assert(callee_views(out@) =~= o0 + callees_block(*b));
}

/// Appends the calls within statements.
fn gather_stmts(ss: &Vec<Stmt>, out: &mut Vec<Callee>)
    ensures
        callee_views(final(out)@) == callee_views(old(out)@) + callees_stmts(ss@),
    decreases ss,
{
    let ghost o0 = callee_views(out@);
    let mut i: usize = 0;
    assert(ss@.subrange(0, ss@.len() as int) =~= ss@);
    assert(o0 + callees_stmts(ss@) =~= callee_views(out@) + callees_stmts(ss@.subrange(0, ss@.len() as int)));
    while i < ss.len()
        invariant
            i <= ss@.len(),
            o0 + callees_stmts(ss@) == callee_views(out@) + callees_stmts(ss@.subrange(i as int, ss@.len() as int)),
        decreases ss@.len() - i,
    {
        let ghost rest = ss@.subrange(i as int, ss@.len() as int);
        assert(rest[0] == ss@[i as int]);
        assert(rest.subrange(1, rest.len() as int) =~= ss@.subrange(i as int + 1, ss@.len() as int));
        let ghost before = callee_views(out@);
        proof {
            assert(decreases_to!(*ss => ss@));
            assert(decreases_to!(ss@ => ss@[i as int]));
        }
        gather_stmt(&ss[i], out);
        assert(before + (callees_stmt(ss@[i as int]) + callees_stmts(ss@.subrange(i as int + 1, ss@.len() as int)))
            =~= callee_views(out@) + callees_stmts(ss@.subrange(i as int + 1, ss@.len() as int)));
        i = i + 1;
    }
    assert(callee_views(out@) + callees_stmts(ss@.subrange(i as int, ss@.len() as int)) =~= callee_views(out@));
}

/// Appends the calls within a statement.
fn gather_stmt(s: &Stmt, out: &mut Vec<Callee>)
    ensures
        callee_views(final(out)@) == callee_views(old(out)@) + callees_stmt(*s),
    decreases s,
{
    let ghost o0 = callee_views(out@);
    match s {
        Stmt::Expr(x) => gather_expr(x, out),
        Stmt::Let(d) => gather_expr(&d.value, out),
        Stmt::Var(d) => gather_expr(&d.value, out),
        Stmt::Const(d) => gather_expr(&d.value, out),
        Stmt::Assign { target, value, .. } => {
            gather_expr(target, out);
            gather_expr(value, out);
        },
        Stmt::Return { value } | Stmt::Yield { value } | Stmt::Next { value } | Stmt::Break { value } => {
            match value {
                Some(v) => {
                    proof {
                        assert(decreases_to!(*value => value->0));
                    }
                    gather_expr(v, out);
                },
                None => {},
            }
        },
        Stmt::Raise { value } => gather_expr(value, out),
        Stmt::While { condition, body, .. } => {
            gather_expr(condition, out);
            gather_block(body, out);
        },
        Stmt::For { iter, body, .. } => {
            gather_expr(iter, out);
            gather_block(body, out);
        },
        Stmt::Loop { body, .. } => gather_block(body, out),
        Stmt::Continue => {},
    }
    assert(callee_views(out@) =~= o0 + callees_stmt(*s));
}

/// The owner label of an impl block's type.
fn type_label_exec(t: &TypeExpr) -> (r: String)
    ensures
        r@ == type_label(*t),
{
    match t {
        TypeExpr::Named { path, .. } => {
            let n = path.len();
            if n > 0 {
                path[n - 1].clone()
            } else {
                proof { reveal_strlit("impl"); }
                String::from_str("impl")
            }
        },
        _ => {
            proof { reveal_strlit("impl"); }
            String::from_str("impl")
        },
    }
}

/// The declaration of one function.
fn decl_of(f: &FnDef, owner: Option<String>) -> (r: FnDecl)
    ensures
        decl_view(r) == fn_decl_of(*f, match owner { Some(o) => Some(o@), None => None }),
{
    let mut caps: Vec<String> = Vec::new();
    let mut seen = false;
    let anns = &f.annotations;
    let mut i: usize = 0;
    assert(anns@.subrange(0, anns@.len() as int) =~= anns@);
    assert(seg_views(caps@) =~= Seq::<Seq<char>>::empty());
    while i < anns.len()
        invariant
            i <= anns@.len(),
            seen == (exists|k: int| 0 <= k < i && #[trigger] anns@[k] is Caps),
            caps_names(anns@) == seg_views(caps@) + caps_names(anns@.subrange(i as int, anns@.len() as int)),
        decreases anns@.len() - i,
    {
        let ghost rest = anns@.subrange(i as int, anns@.len() as int);
        assert(rest[0] == anns@[i as int]);
        assert(rest.subrange(1, rest.len() as int) =~= anns@.subrange(i as int + 1, anns@.len() as int));
        let ghost c0 = seg_views(caps@);
        match &anns[i] {
            crate::ast::Annotation::Caps(cs) => {
                let mut j: usize = 0;
                while j < cs.len()
                    invariant
                        j <= cs@.len(),
                        seg_views(caps@) == c0 + seg_views(cs@.subrange(0, j as int)),
                    decreases cs@.len() - j,
                {
                    let ghost cc = caps@;
                    caps.push(cs[j].clone());
                    assert(seg_views(caps@) =~= c0 + seg_views(cs@.subrange(0, j as int + 1))) by {
                        assert(seg_views(caps@) =~= seg_views(cc).push(cs@[j as int]@));
                    }
                    j = j + 1;
                }
                assert(cs@.subrange(0, j as int) =~= cs@);
                assert(c0 + (seg_views(cs@) + caps_names(anns@.subrange(i as int + 1, anns@.len() as int)))
                    =~= seg_views(caps@) + caps_names(anns@.subrange(i as int + 1, anns@.len() as int)));
                seen = true;
            },
            _ => {
                assert(c0 + (Seq::<Seq<char>>::empty() + caps_names(anns@.subrange(i as int + 1, anns@.len() as int)))
                    =~= seg_views(caps@) + caps_names(anns@.subrange(i as int + 1, anns@.len() as int)));
            },
        }
        i = i + 1;
    }
    proof {
        assert(seg_views(caps@) + caps_names(anns@.subrange(i as int, anns@.len() as int)) =~= seg_views(caps@));
        if seen {
            let k = choose|k: int| 0 <= k < i && #[trigger] anns@[k] is Caps;
            assert(has_caps(anns@));
        }
    }
    let mut callees: Vec<Callee> = Vec::new();
    assert(callee_views(callees@) =~= Seq::<CalleeV>::empty());
    gather_block(&f.body, &mut callees);
    assert(callee_views(callees@) =~= callees_block(f.body));
    FnDecl { owner, name: f.name.clone(), caps: if seen { Some(caps) } else { None }, callees }
}

/// Appends the declarations of the module tree's functions.
fn gather_decls(items: &Vec<Item>, out: &mut Vec<FnDecl>)
    ensures
        decl_views(final(out)@) == decl_views(old(out)@) + fn_decls_of(items@),
    decreases items,
{
    let ghost o0 = decl_views(out@);
    let mut i: usize = 0;
    assert(items@.subrange(0, items@.len() as int) =~= items@);
    assert(o0 + fn_decls_of(items@) =~= decl_views(out@) + fn_decls_of(items@.subrange(0, items@.len() as int)));
    while i < items.len()
        invariant
            i <= items@.len(),
            o0 + fn_decls_of(items@) == decl_views(out@) + fn_decls_of(items@.subrange(i as int, items@.len() as int)),
        decreases items@.len() - i,
    {
        let ghost rest = items@.subrange(i as int, items@.len() as int);
        assert(rest[0] == items@[i as int]);
        assert(rest.subrange(1, rest.len() as int) =~= items@.subrange(i as int + 1, items@.len() as int));
        let ghost before = decl_views(out@);
        let ghost tail = fn_decls_of(items@.subrange(i as int + 1, items@.len() as int));
        match &items[i] {
            Item::Fn(f) => {
                let d = decl_of(f, None);
                out.push(d);
                assert(decl_views(out@) =~= before.push(fn_decl_of(*f, None)));
                assert(before + (seq![fn_decl_of(*f, None)] + tail) =~= decl_views(out@) + tail);
            },
            Item::Module(m) => {
                proof {
                    assert(decreases_to!(*items => items@));
                    assert(decreases_to!(items@ => items@[i as int]));
                    assert(decreases_to!(items@[i as int] => m.items));
                }
                gather_decls(&m.items, out);
                assert(before + (fn_decls_of(m.items@) + tail) =~= decl_views(out@) + tail);
            },
            Item::Impl(b) => {
                let label = type_label_exec(&b.target);
                let ghost lv = Some(label@);
                let ghost ms = b.methods@.map_values(|m: FnDef| fn_decl_of(m, Some(type_label(b.target))));
                let mut j: usize = 0;
                while j < b.methods.len()
                    invariant
                        j <= b.methods@.len(),
                        label@ == type_label(b.target),
                        ms == b.methods@.map_values(|m: FnDef| fn_decl_of(m, Some(type_label(b.target)))),
                        decl_views(out@) == before + ms.subrange(0, j as int),
                    decreases b.methods@.len() - j,
                {
                    let ghost v0 = out@;
                    let d = decl_of(&b.methods[j], Some(label.clone()));
                    out.push(d);
                    assert(decl_views(out@) =~= before + ms.subrange(0, j as int + 1)) by {
                        assert(decl_views(out@) =~= decl_views(v0).push(ms[j as int]));
                    }
                    j = j + 1;
                }
                assert(ms.subrange(0, j as int) =~= ms);
                assert(before + (ms + tail) =~= decl_views(out@) + tail);
            },
            _ => {
                assert(before + (Seq::empty() + tail) =~= decl_views(out@) + tail);
            },
        }
        i = i + 1;
    }
    assert(decl_views(out@) + fn_decls_of(items@.subrange(i as int, items@.len() as int)) =~= decl_views(out@));
}

/// Appends the memory kinds of the module tree.
fn gather_memory(items: &Vec<Item>, out: &mut Vec<String>)
    ensures
        seg_views(final(out)@) == seg_views(old(out)@) + memory_kinds_of(items@),
    decreases items,
{
    let ghost o0 = seg_views(out@);
    let mut i: usize = 0;
    assert(items@.subrange(0, items@.len() as int) =~= items@);
    assert(o0 + memory_kinds_of(items@) =~= seg_views(out@) + memory_kinds_of(items@.subrange(0, items@.len() as int)));
    while i < items.len()
        invariant
            i <= items@.len(),
            o0 + memory_kinds_of(items@) == seg_views(out@) + memory_kinds_of(items@.subrange(i as int, items@.len() as int)),
        decreases items@.len() - i,
    {
        let ghost rest = items@.subrange(i as int, items@.len() as int);
        assert(rest[0] == items@[i as int]);
        assert(rest.subrange(1, rest.len() as int) =~= items@.subrange(i as int + 1, items@.len() as int));
        let ghost before = seg_views(out@);
        let ghost tail = memory_kinds_of(items@.subrange(i as int + 1, items@.len() as int));
        match &items[i] {
            Item::Memory(k) => {
                out.push(k.clone());
                assert(seg_views(out@) =~= before.push(k@));
                assert(before + (seq![k@] + tail) =~= seg_views(out@) + tail);
            },
            Item::Actor(a) => {
                let ms = &a.items;
                let mut j: usize = 0;
                let ghost am = actor_memory(ms@);
                assert(ms@.subrange(0, ms@.len() as int) =~= ms@);
                assert(before + am =~= seg_views(out@) + actor_memory(ms@.subrange(0, ms@.len() as int)));
                while j < ms.len()
                    invariant
                        j <= ms@.len(),
                        am == actor_memory(ms@),
                        before + am == seg_views(out@) + actor_memory(ms@.subrange(j as int, ms@.len() as int)),
                    decreases ms@.len() - j,
                {
                    let ghost mr = ms@.subrange(j as int, ms@.len() as int);
                    assert(mr[0] == ms@[j as int]);
                    assert(mr.subrange(1, mr.len() as int) =~= ms@.subrange(j as int + 1, ms@.len() as int));
                    let ghost b2 = seg_views(out@);
                    let ghost t2 = actor_memory(ms@.subrange(j as int + 1, ms@.len() as int));
                    match &ms[j] {
                        ActorMember::Memory(k) => {
                            out.push(k.clone());
                            assert(seg_views(out@) =~= b2.push(k@));
                            assert(b2 + (seq![k@] + t2) =~= seg_views(out@) + t2);
                        },
                        _ => {
                            assert(b2 + (Seq::<Seq<char>>::empty() + t2) =~= seg_views(out@) + t2);
                        },
                    }
                    j = j + 1;
                }
                assert(seg_views(out@) + actor_memory(ms@.subrange(j as int, ms@.len() as int)) =~= seg_views(out@));
                assert(before + (am + tail) =~= seg_views(out@) + tail);
            },
            Item::Module(m) => {
                proof {
                    assert(decreases_to!(*items => items@));
                    assert(decreases_to!(items@ => items@[i as int]));
                    assert(decreases_to!(items@[i as int] => m.items));
                }
                gather_memory(&m.items, out);
                assert(before + (memory_kinds_of(m.items@) + tail) =~= seg_views(out@) + tail);
            },
            _ => {
                assert(before + (Seq::<Seq<char>>::empty() + tail) =~= seg_views(out@) + tail);
            },
        }
        i = i + 1;
    }
    assert(seg_views(out@) + memory_kinds_of(items@.subrange(i as int, items@.len() as int)) =~= seg_views(out@));
}

/// The call graph of a module: its functions in source order, each with its
/// owner, declared capabilities and every call in its body, and the kinds
/// of its `memory` declarations.
pub fn caps_module_of(module: &Module) -> (m: CapsModule)
    ensures
        decl_views(m.fns@) == fn_decls_of(module.items@),
        seg_views(m.memory_kinds@) == memory_kinds_of(module.items@),
{
    let mut fns: Vec<FnDecl> = Vec::new();
    assert(decl_views(fns@) =~= Seq::<(Option<Seq<char>>, Seq<char>, Option<Seq<Seq<char>>>, Seq<CalleeV>)>::empty());
    gather_decls(&module.items, &mut fns);
    let mut kinds: Vec<String> = Vec::new();
    assert(seg_views(kinds@) =~= Seq::<Seq<char>>::empty());
    gather_memory(&module.items, &mut kinds);
    assert(decl_views(fns@) =~= fn_decls_of(module.items@));
    assert(seg_views(kinds@) =~= memory_kinds_of(module.items@));
    CapsModule { fns, memory_kinds: kinds }
}

} // verus!
