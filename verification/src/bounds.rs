//! `@bounded` budgets and the static bounded-loop verifier.
//!
//! `@bounded(N)` declares a fuel budget of N units; the budgets declared by
//! the top-level functions are listed by name. The verifier checks the loops
//! of every function in scope (safe functions, functions of `@safe` modules,
//! and functions declaring `@bounded`): a loop is proven bounded when it is
//! a `for` over a literal range or array, a `while` whose condition is the
//! literal `false`, a `while` over a counter with a literal start and limit
//! that moves toward the limit, or a loop whose body exits before its next
//! turn. Every other loop is reported. No fuel metering or runtime loop
//! enforcement is claimed.

use vstd::prelude::*;
use vstd::string::*;
use crate::ast::{Annotation, AssignOp, BinOp, Block, ClosureBody, Expr, FnDef, Item, MatchArm, Module, Rescue, Stmt};
use crate::borrow::lookup;
use crate::diagnostics::FnMode;
use crate::surfaces::stable_positions;
use crate::text::{decimal, push_decimal_wide, str_eq};

verus! {

/// One loop the conservative verifier could not bound.
#[derive(Debug, Clone)]
pub struct UncheckableLoop {
    pub function: String,
    pub kind: &'static str,
    pub span_start: usize,
    pub span_len: usize,
    pub message: String,
}

/// Summary of the static loop proof over a module.
#[derive(Debug, Clone)]
pub struct BoundedLoopReport {
    pub checked_functions: usize,
    pub skipped_functions: usize,
    pub proven_loops: usize,
    pub uncheckable_loops: Vec<UncheckableLoop>,
}

/// The explanation of an uncheckable loop.
pub open spec fn uncheckable_message(function: Seq<char>, kind: Seq<char>, start: nat, end: nat) -> Seq<char> {
    "static bounded-loop verifier: function `"@ + function + "` contains an uncheckable "@ + kind
        + " loop at "@ + decimal(start) + ".."@ + decimal(end)
        + ". No Wasmtime fuel or runtime loop enforcement is claimed; rewrite as a statically bounded `for` over a literal range/array, a literal counter `while`, a loop body that exits before continuing, or keep the loop outside safe/@bounded scope."@
}

impl BoundedLoopReport {
    /// An empty report.
    pub fn new() -> (r: BoundedLoopReport)
        ensures
            r.checked_functions == 0,
            r.skipped_functions == 0,
            r.proven_loops == 0,
            r.uncheckable_loops@.len() == 0,
    {
        BoundedLoopReport {
            checked_functions: 0,
            skipped_functions: 0,
            proven_loops: 0,
            uncheckable_loops: Vec::new(),
        }
    }

    /// Whether every checked loop was proven bounded.
    pub fn ok(&self) -> (r: bool)
        ensures
            r == (self.uncheckable_loops@.len() == 0),
    {
        self.uncheckable_loops.len() == 0
    }
}

/// Records a loop the verifier could not bound, spanning
/// `span_start..span_start + span_len`; nothing else in the report changes.
pub fn push_uncheckable(
    report: &mut BoundedLoopReport,
    function_name: &str,
    kind: &'static str,
    span_start: usize,
    span_len: usize,
)
    ensures
        final(report).checked_functions == old(report).checked_functions,
        final(report).skipped_functions == old(report).skipped_functions,
        final(report).proven_loops == old(report).proven_loops,
        final(report).uncheckable_loops@.len() == old(report).uncheckable_loops@.len() + 1,
        forall|i: int|
            0 <= i < old(report).uncheckable_loops@.len() ==> final(report).uncheckable_loops@[i]
                == old(report).uncheckable_loops@[i],
        ({
            let l = final(report).uncheckable_loops@.last();
            &&& l.function@ == function_name@
            &&& l.kind == kind
            &&& l.span_start == span_start
            &&& l.span_len == span_len
            &&& l.message@ == uncheckable_message(
                function_name@,
                kind@,
                span_start as nat,
                (span_start + span_len) as nat,
            )
        }),
{
    let mut message = String::from_str("static bounded-loop verifier: function `");
    message.append(function_name);
    message.append("` contains an uncheckable ");
    message.append(kind);
    message.append(" loop at ");
    push_decimal_wide(&mut message, span_start as u128);
    message.append("..");
    push_decimal_wide(&mut message, span_start as u128 + span_len as u128);
    message.append(
        ". No Wasmtime fuel or runtime loop enforcement is claimed; rewrite as a statically bounded `for` over a literal range/array, a literal counter `while`, a loop body that exits before continuing, or keep the loop outside safe/@bounded scope.",
    );
    report.uncheckable_loops.push(
        UncheckableLoop {
            function: function_name.to_owned(),
            kind,
            span_start,
            span_len,
            message,
        },
    );
}

// ---------------------------------------------------------------------------
// Integer facts: bindings known to hold a literal
// ---------------------------------------------------------------------------

/// The facts an entry list denotes: the first entry of a name decides it,
/// `None` meaning nothing is known.
pub open spec fn facts_map(s: Seq<(Seq<char>, Option<i64>)>) -> Map<Seq<char>, i64> {
    Map::new(|k: Seq<char>| lookup(s, k) matches Some(Some(_)), |k: Seq<char>| lookup(s, k)->0->0)
}

/// The value known for `name`, if any.
pub open spec fn fact(facts: Map<Seq<char>, i64>, name: Seq<char>) -> Option<i64> {
    if facts.contains_key(name) {
        Some(facts[name])
    } else {
        None
    }
}

/// A binding's fact after `let name = value`: known when the value is an
/// integer literal.
pub open spec fn bind_fact(facts: Map<Seq<char>, i64>, name: Seq<char>, value: Expr) -> Map<Seq<char>, i64> {
    match value {
        Expr::Int(v) => facts.insert(name, v),
        _ => facts.remove(name),
    }
}

/// A binding's fact after an assignment: `=` of a literal sets it, `+=`
/// and `-=` of a literal move it (forgotten on overflow or when unknown),
/// anything else forgets it.
pub open spec fn assign_fact(facts: Map<Seq<char>, i64>, target: Expr, op: AssignOp, value: Expr) -> Map<Seq<char>, i64> {
    match target {
        Expr::Ident(name) => match (op, value) {
            (AssignOp::Eq, Expr::Int(v)) => facts.insert(name@, v),
            (AssignOp::PlusEq, Expr::Int(d)) => if facts.contains_key(name@) && i64::MIN <= facts[name@] + d <= i64::MAX {
                facts.insert(name@, (facts[name@] + d) as i64)
            } else {
                facts.remove(name@)
            },
            (AssignOp::MinusEq, Expr::Int(d)) => if facts.contains_key(name@) && i64::MIN <= facts[name@] - d <= i64::MAX {
                facts.insert(name@, (facts[name@] - d) as i64)
            } else {
                facts.remove(name@)
            },
            _ => facts.remove(name@),
        },
        _ => facts,
    }
}

/// The facts after a loop: every binding the body assigns is forgotten.
pub open spec fn cleared(facts: Map<Seq<char>, i64>, ss: Seq<Stmt>) -> Map<Seq<char>, i64>
    decreases ss.len(),
{
    if ss.len() == 0 {
        facts
    } else {
        let f1 = match ss[0] {
            Stmt::Assign { target: Expr::Ident(name), .. } => facts.remove(name@),
            _ => facts,
        };
        cleared(f1, ss.subrange(1, ss.len() as int))
    }
}

// ---------------------------------------------------------------------------
// Loop bounds
// ---------------------------------------------------------------------------

/// Whether a block's statements reach `break`, `return` or `raise` before
/// any `continue` or nested loop.
pub open spec fn exits_early(ss: Seq<Stmt>) -> bool
    decreases ss.len(),
{
    if ss.len() == 0 {
        false
    } else {
        match ss[0] {
            Stmt::Break { .. } => true,
            Stmt::Return { .. } => true,
            Stmt::Raise { .. } => true,
            Stmt::Continue => false,
            Stmt::While { .. } => false,
            Stmt::For { .. } => false,
            Stmt::Loop { .. } => false,
            _ => exits_early(ss.subrange(1, ss.len() as int)),
        }
    }
}

/// The number of turns of a literal range `start..end` (or `..=`), when it
/// fits an `i64`.
pub open spec fn range_bound(start: i64, end: i64, inclusive: bool) -> Option<i64> {
    if start > end {
        Some(0)
    } else if end - start > i64::MAX {
        None
    } else if inclusive {
        if end - start + 1 > i64::MAX {
            None
        } else {
            Some((end - start + 1) as i64)
        }
    } else {
        Some((end - start) as i64)
    }
}

/// The static bound of a `for` loop's iterable: a literal array's length or
/// a literal range's size.
pub open spec fn iter_bound(e: Expr) -> Option<i64> {
    match e {
        Expr::Array { elements } => if elements@.len() <= i64::MAX {
            Some(elements@.len() as i64)
        } else {
            None
        },
        Expr::Binary { op, lhs, rhs } => if op == BinOp::Range || op == BinOp::RangeInclusive {
            match (*lhs, *rhs) {
                (Expr::Int(a), Expr::Int(b)) => range_bound(a, b, op == BinOp::RangeInclusive),
                _ => None,
            }
        } else {
            None
        },
        _ => None,
    }
}

/// An ordering comparison of two integers.
pub open spec fn compare(a: i64, b: i64, op: BinOp) -> Option<bool> {
    match op {
        BinOp::Lt => Some(a < b),
        BinOp::LtEq => Some(a <= b),
        BinOp::Gt => Some(a > b),
        BinOp::GtEq => Some(a >= b),
        _ => None,
    }
}

/// A counter condition: the counter, the direction it must move in, and
/// a bound on the turns the analysis claims (0 when the condition starts
/// false).
pub struct Counter {
    pub var: Seq<char>,
    pub step_sign: int,
    pub hint: int,
}

/// The counter condition from its parts (`reversed` when the literal is on
/// the left).
pub open spec fn counter_from(var: Seq<char>, start: i64, limit: i64, op: BinOp, reversed: bool) -> Option<Counter> {
    let holds = if reversed { compare(limit, start, op) } else { compare(start, limit, op) };
    match holds {
        None => None,
        Some(false) => Some(Counter { var, step_sign: 1, hint: 0 }),
        Some(true) => {
            let up = (!reversed && (op == BinOp::Lt || op == BinOp::LtEq)) || (reversed && (op == BinOp::Gt || op == BinOp::GtEq));
            Some(Counter { var, step_sign: if up { 1 } else { -1 }, hint: 1 })
        },
    }
}

/// The counter condition of a `while`: a comparison of a binding with a
/// known literal start against an integer literal.
pub open spec fn counter_of(cond: Expr, facts: Map<Seq<char>, i64>) -> Option<Counter> {
    match cond {
        Expr::Binary { op, lhs, rhs } => match (*lhs, *rhs) {
            (Expr::Ident(v), Expr::Int(limit)) => match fact(facts, v@) {
                Some(start) => counter_from(v@, start, limit, op, false),
                None => None,
            },
            (Expr::Int(limit), Expr::Ident(v)) => match fact(facts, v@) {
                Some(start) => counter_from(v@, start, limit, op, true),
                None => None,
            },
            _ => None,
        },
        _ => None,
    }
}

/// How one statement of a loop body moves the counter: `Some(Some(d))` for
/// `var += d` / `var -= d` with a positive literal, `Some(None)` when it
/// leaves the counter alone, `None` for any other assignment to it.
pub open spec fn step_of(s: Stmt, var: Seq<char>) -> Option<Option<int>> {
    match s {
        Stmt::Assign { target: Expr::Ident(name), op, value } => if name@ == var {
            match (op, value) {
                (AssignOp::PlusEq, Expr::Int(d)) => if d > 0 { Some(Some(d as int)) } else { None },
                (AssignOp::MinusEq, Expr::Int(d)) => if d > 0 { Some(Some(-d)) } else { None },
                _ => None,
            }
        } else {
            Some(None)
        },
        _ => Some(None),
    }
}

/// The counter's total step over the body's statements, starting from
/// `acc`; `None` when a statement assigns it otherwise or the sum leaves
/// `i64`.
pub open spec fn steps_of(ss: Seq<Stmt>, var: Seq<char>, acc: int) -> Option<int>
    decreases ss.len(),
{
    if ss.len() == 0 {
        Some(acc)
    } else {
        match step_of(ss[0], var) {
            None => None,
            Some(None) => steps_of(ss.subrange(1, ss.len() as int), var, acc),
            Some(Some(d)) => if i64::MIN <= acc + d <= i64::MAX {
                steps_of(ss.subrange(1, ss.len() as int), var, acc + d)
            } else {
                None
            },
        }
    }
}

/// The sign of an integer.
pub open spec fn sign(x: int) -> int {
    if x > 0 { 1 } else if x < 0 { -1 } else { 0 }
}

/// A literal counter `while`: bounded when the body moves the counter
/// toward its limit.
pub open spec fn counter_bound(cond: Expr, body: Block, facts: Map<Seq<char>, i64>) -> Option<int> {
    match counter_of(cond, facts) {
        None => None,
        Some(c) => if c.hint == 0 {
            Some(0)
        } else {
            match steps_of(body.stmts@, c.var, 0) {
                Some(step) => if step != 0 && sign(step) == c.step_sign { Some(c.hint) } else { None },
                None => None,
            }
        },
    }
}

/// Whether a `while` loop is statically bounded.
pub open spec fn while_bounded(cond: Expr, body: Block, facts: Map<Seq<char>, i64>) -> bool {
    cond == Expr::Bool(false) || exits_early(body.stmts@) || counter_bound(cond, body, facts) is Some
}

/// Whether the comparison of counter value `x` with `limit` holds: `x op
/// limit`, or `limit op x` when the literal stands on the left.
pub open spec fn comparison_holds(x: int, limit: int, op: BinOp, reversed: bool) -> bool {
    let a = if reversed { limit } else { x };
    let b = if reversed { x } else { limit };
    ||| (op == BinOp::Lt && a < b)
    ||| (op == BinOp::LtEq && a <= b)
    ||| (op == BinOp::Gt && a > b)
    ||| (op == BinOp::GtEq && a >= b)
}

/// The `while` condition comparing binding `v` with literal `limit`.
pub open spec fn counter_condition(v: String, limit: i64, op: BinOp, reversed: bool) -> Expr {
    if reversed {
        Expr::Binary { op, lhs: Box::new(Expr::Int(limit)), rhs: Box::new(Expr::Ident(v)) }
    } else {
        Expr::Binary { op, lhs: Box::new(Expr::Ident(v)), rhs: Box::new(Expr::Int(limit)) }
    }
}

/// A counter loop that starts with its condition true, whose body moves the
/// counter by `step` each turn, is proven bounded exactly when some number
/// of turns makes the condition false: `while v > lit` needs a decreasing
/// counter, `while v < lit` an increasing one, and likewise with the
/// literal on the left.
pub proof fn lemma_counter_loop_bounded_iff_it_ends(
    v: String,
    limit: i64,
    op: BinOp,
    reversed: bool,
    body: Block,
    facts: Map<Seq<char>, i64>,
    start: i64,
    step: int,
)
    requires
        op == BinOp::Lt || op == BinOp::LtEq || op == BinOp::Gt || op == BinOp::GtEq,
        facts.contains_key(v@),
        facts[v@] == start,
        comparison_holds(start as int, limit as int, op, reversed),
        steps_of(body.stmts@, v@, 0) == Some(step),
    ensures
        counter_bound(counter_condition(v, limit, op, reversed), body, facts) is Some
            <==> exists|n: nat| !#[trigger] comparison_holds(start + n * step, limit as int, op, reversed),
        !exits_early(body.stmts@) ==> (while_bounded(counter_condition(v, limit, op, reversed), body, facts)
            <==> exists|n: nat| !#[trigger] comparison_holds(start + n * step, limit as int, op, reversed)),
{
    let cond = counter_condition(v, limit, op, reversed);
    if counter_bound(cond, body, facts) is Some {
        let d: int = if limit >= start { limit - start } else { start - limit };
        let n: nat = (d + 1) as nat;
        if step > 0 {
            assert(n * step >= n) by (nonlinear_arith)
                requires
                    step >= 1,
                    n >= 0,
            ;
        } else {
            assert(n * step <= -n) by (nonlinear_arith)
                requires
                    step <= -1,
                    n >= 0,
            ;
        }
        assert(!comparison_holds(start + n * step, limit as int, op, reversed));
    }
    if exists|n: nat| !#[trigger] comparison_holds(start + n * step, limit as int, op, reversed) {
        let n = choose|n: nat| !#[trigger] comparison_holds(start + n * step, limit as int, op, reversed);
        if step >= 0 {
            assert(n * step >= 0) by (nonlinear_arith)
                requires
                    step >= 0,
                    n >= 0,
            ;
        } else {
            assert(n * step <= 0) by (nonlinear_arith)
                requires
                    step <= 0,
                    n >= 0,
            ;
        }
        assert(counter_bound(cond, body, facts) is Some);
    }
}

/// A binding the facts have lost stays lost over assignments that move the
/// counter by literals: only `v = lit` could restore it, and that is no
/// counter step.
proof fn lemma_lost_fact_stays_lost(ss: Seq<Stmt>, v: Seq<char>, f: Seq<char>, t: Tally, facts: Map<Seq<char>, i64>, acc: int)
    requires
        forall|i: int| 0 <= i < ss.len() ==> #[trigger] ss[i] is Assign,
        !facts.contains_key(v),
        steps_of(ss, v, acc) is Some,
    ensures
        !loops_stmts(ss, f, t, facts).1.contains_key(v),
    decreases ss.len(),
{
    if ss.len() > 0 {
        let rest = ss.subrange(1, ss.len() as int);
        assert forall|i: int| 0 <= i < rest.len() implies #[trigger] rest[i] is Assign by {
            assert(rest[i] == ss[i + 1]);
        }
        assert(ss[0] is Assign);
        let r = loops_stmt(ss[0], f, t, facts);
        match step_of(ss[0], v) {
            Some(Some(d)) => lemma_lost_fact_stays_lost(rest, v, f, r.0, r.1, acc + d),
            _ => lemma_lost_fact_stays_lost(rest, v, f, r.0, r.1, acc),
        }
    }
}

/// The counter step the analysis reads off a loop body agrees with how the
/// verifier tracks the counter's value through those assignments: when the
/// value is still known after the body, it moved by exactly the step
/// (`v -= d` lowers it by `d`, `v += d` raises it by `d`).
pub proof fn lemma_step_agrees_with_tracked_value(
    ss: Seq<Stmt>,
    v: Seq<char>,
    f: Seq<char>,
    t: Tally,
    facts: Map<Seq<char>, i64>,
    acc: int,
    total: int,
)
    requires
        forall|i: int| 0 <= i < ss.len() ==> #[trigger] ss[i] is Assign,
        facts.contains_key(v),
        steps_of(ss, v, acc) == Some(total),
        loops_stmts(ss, f, t, facts).1.contains_key(v),
    ensures
        loops_stmts(ss, f, t, facts).1[v] == facts[v] + (total - acc),
    decreases ss.len(),
{
    if ss.len() > 0 {
        let rest = ss.subrange(1, ss.len() as int);
        assert forall|i: int| 0 <= i < rest.len() implies #[trigger] rest[i] is Assign by {
            assert(rest[i] == ss[i + 1]);
        }
        assert(ss[0] is Assign);
        let r = loops_stmt(ss[0], f, t, facts);
        assert(loops_stmts(ss, f, t, facts) == loops_stmts(rest, f, r.0, r.1));
        match step_of(ss[0], v) {
            Some(Some(d)) => {
                if r.1.contains_key(v) {
                    lemma_step_agrees_with_tracked_value(rest, v, f, r.0, r.1, acc + d, total);
                } else {
                    lemma_lost_fact_stays_lost(rest, v, f, r.0, r.1, acc + d);
                }
            },
            _ => {
                if r.1.contains_key(v) {
                    lemma_step_agrees_with_tracked_value(rest, v, f, r.0, r.1, acc, total);
                } else {
                    lemma_lost_fact_stays_lost(rest, v, f, r.0, r.1, acc);
                }
            },
        }
    }
}

/// `let v = lit` makes `lit` the known value of `v`; any other initialiser
/// makes it unknown; other bindings keep their values.
pub proof fn lemma_let_records_literal(facts: Map<Seq<char>, i64>, name: Seq<char>, value: Expr, other: Seq<char>)
    requires
        other != name,
    ensures
        value matches Expr::Int(k) ==> fact(bind_fact(facts, name, value), name) == Some(k),
        !(value is Int) ==> fact(bind_fact(facts, name, value), name) is None,
        fact(bind_fact(facts, name, value), other) == fact(facts, other),
{
}

// ---------------------------------------------------------------------------
// The verifier, as the spec sees it
// ---------------------------------------------------------------------------

/// The verifier's tally: functions checked and skipped, loops proven, and
/// the loops it could not bound as (function, kind, span start, span
/// length).
pub struct Tally {
    pub checked: nat,
    pub skipped: nat,
    pub proven: nat,
    pub bad: Seq<(Seq<char>, Seq<char>, usize, usize)>,
}

/// A count one higher, held at `usize::MAX` (the count of a report
/// field).
pub open spec fn bump(n: nat) -> nat {
    if n < usize::MAX { n + 1 } else { n }
}

/// One more loop proven, or one more reported.
pub open spec fn judged(t: Tally, ok: bool, f: Seq<char>, kind: Seq<char>, start: usize, len: usize) -> Tally {
    if ok {
        Tally { proven: bump(t.proven), ..t }
    } else {
        Tally { bad: t.bad.push((f, kind, start, len)), ..t }
    }
}

/// The verifier over an expression (its nested blocks start with no facts).
pub open spec fn loops_expr(e: Expr, f: Seq<char>, t: Tally) -> Tally
    decreases e,
{
    match e {
        Expr::Binary { lhs, rhs, .. } => loops_expr(*rhs, f, loops_expr(*lhs, f, t)),
        Expr::Unary { expr } => loops_expr(*expr, f, t),
        Expr::Cast { expr, .. } => loops_expr(*expr, f, t),
        Expr::Spawn { expr, .. } => loops_expr(*expr, f, t),
        Expr::Call { callee, args } => loops_exprs(args@, f, loops_expr(*callee, f, t)),
        Expr::Method { receiver, args, .. } => loops_exprs(args@, f, loops_expr(*receiver, f, t)),
        Expr::Field { receiver, .. } => loops_expr(*receiver, f, t),
        Expr::Index { receiver, index } => loops_expr(*index, f, loops_expr(*receiver, f, t)),
        Expr::If { condition, then_block, elsif_clauses, else_block } => {
            let t1 = loops_elsifs(elsif_clauses@, f, loops_block(then_block, f, loops_expr(*condition, f, t)));
            match else_block {
                Some(b) => loops_block(b, f, t1),
                None => t1,
            }
        },
        Expr::Match { subject, arms } => loops_arms(arms@, f, loops_expr(*subject, f, t)),
        Expr::Try { body, rescues, ensure } => {
            let t1 = loops_rescues(rescues@, f, loops_block(body, f, t));
            match ensure {
                Some(b) => loops_block(b, f, t1),
                None => t1,
            }
        },
        Expr::Closure { body, .. } => match *body {
            ClosureBody::Block(b) => loops_block(b, f, t),
            ClosureBody::Expr(x) => loops_expr(*x, f, t),
        },
        Expr::Array { elements } => loops_exprs(elements@, f, t),
        Expr::MapLit { entries } => loops_entries(entries@, f, t),
        _ => t,
    }
}

/// The verifier over expressions in order.
pub open spec fn loops_exprs(es: Seq<Expr>, f: Seq<char>, t: Tally) -> Tally
    decreases es,
{
    if es.len() == 0 {
        t
    } else {
        loops_exprs(es.subrange(1, es.len() as int), f, loops_expr(es[0], f, t))
    }
}

/// The verifier over map entries.
pub open spec fn loops_entries(es: Seq<(Expr, Expr)>, f: Seq<char>, t: Tally) -> Tally
    decreases es,
{
    if es.len() == 0 {
        t
    } else {
        loops_entries(es.subrange(1, es.len() as int), f, loops_expr(es[0].1, f, loops_expr(es[0].0, f, t)))
    }
}

/// The verifier over `elsif` clauses.
pub open spec fn loops_elsifs(cs: Seq<(Expr, Block)>, f: Seq<char>, t: Tally) -> Tally
    decreases cs,
{
    if cs.len() == 0 {
        t
    } else {
        loops_elsifs(cs.subrange(1, cs.len() as int), f, loops_block(cs[0].1, f, loops_expr(cs[0].0, f, t)))
    }
}

/// The verifier over `match` arms.
pub open spec fn loops_arms(arms: Seq<MatchArm>, f: Seq<char>, t: Tally) -> Tally
    decreases arms,
{
    if arms.len() == 0 {
        t
    } else {
        let t1 = match arms[0].guard {
            Some(g) => loops_expr(g, f, t),
            None => t,
        };
        loops_arms(arms.subrange(1, arms.len() as int), f, loops_block(arms[0].body, f, t1))
    }
}

/// The verifier over `rescue` bodies.
pub open spec fn loops_rescues(rs: Seq<Rescue>, f: Seq<char>, t: Tally) -> Tally
    decreases rs,
{
    if rs.len() == 0 {
        t
    } else {
        loops_rescues(rs.subrange(1, rs.len() as int), f, loops_block(rs[0].body, f, t))
    }
}

/// The verifier over a block, which starts with no facts: its statements,
/// then its tail.
pub open spec fn loops_block(b: Block, f: Seq<char>, t: Tally) -> Tally
    decreases b,
{
    let r = loops_stmts(b.stmts@, f, t, Map::empty());
    match b.tail_expr {
        Some(x) => loops_expr(*x, f, r.0),
        None => r.0,
    }
}

/// The verifier over statements in order, carrying the facts.
pub open spec fn loops_stmts(ss: Seq<Stmt>, f: Seq<char>, t: Tally, facts: Map<Seq<char>, i64>) -> (Tally, Map<Seq<char>, i64>)
    decreases ss,
{
    if ss.len() == 0 {
        (t, facts)
    } else {
        let r = loops_stmt(ss[0], f, t, facts);
        loops_stmts(ss.subrange(1, ss.len() as int), f, r.0, r.1)
    }
}

/// The verifier over an optional expression.
pub open spec fn loops_opt(e: Option<Expr>, f: Seq<char>, t: Tally) -> Tally
    decreases e,
{
    match e {
        Some(x) => loops_expr(x, f, t),
        None => t,
    }
}

/// The verifier over a statement: loops are judged, then walked; bindings
/// update the facts.
pub open spec fn loops_stmt(s: Stmt, f: Seq<char>, t: Tally, facts: Map<Seq<char>, i64>) -> (Tally, Map<Seq<char>, i64>)
    decreases s,
{
    match s {
        Stmt::Let(d) => (loops_expr(d.value, f, t), bind_fact(facts, d.name@, d.value)),
        Stmt::Var(d) => (loops_expr(d.value, f, t), bind_fact(facts, d.name@, d.value)),
        Stmt::Const(d) => (loops_expr(d.value, f, t), bind_fact(facts, d.name@, d.value)),
        Stmt::Assign { target, op, value } => (loops_expr(value, f, loops_expr(target, f, t)), assign_fact(facts, target, op, value)),
        Stmt::While { condition, body, span } => {
            let t1 = judged(t, while_bounded(condition, body, facts), f, "while"@, span.start, span.len);
            (loops_block(body, f, loops_expr(condition, f, t1)), cleared(facts, body.stmts@))
        },
        Stmt::For { var, iter, body, span } => {
            let t1 = judged(t, iter_bound(iter) is Some || exits_early(body.stmts@), f, "for"@, span.start, span.len);
            (loops_block(body, f, loops_expr(iter, f, t1)), cleared(facts.remove(var@), body.stmts@))
        },
        Stmt::Loop { body, span } => {
            let t1 = judged(t, exits_early(body.stmts@), f, "loop"@, span.start, span.len);
            (loops_block(body, f, t1), cleared(facts, body.stmts@))
        },
        Stmt::Break { value } => (loops_opt(value, f, t), facts),
        Stmt::Return { value } => (loops_opt(value, f, t), facts),
        Stmt::Yield { value } => (loops_opt(value, f, t), facts),
        Stmt::Next { value } => (loops_opt(value, f, t), facts),
        Stmt::Raise { value } => (loops_expr(value, f, t), facts),
        Stmt::Continue => (t, facts),
        Stmt::Expr(x) => (loops_expr(x, f, t), facts),
    }
}

/// Whether some annotation is `@bounded(..)`.
pub open spec fn declares_bounded(anns: Seq<Annotation>) -> bool {
    exists|i: int| 0 <= i < anns.len() && anns[i] is Bounded
}

/// A function: checked (its body walked from no facts) when it is in
/// scope, else skipped.
pub open spec fn loops_fn(fd: FnDef, module_safe: bool, t: Tally) -> Tally {
    if module_safe || fd.mode == FnMode::Safe || declares_bounded(fd.annotations@) {
        loops_block(fd.body, fd.name@, Tally { checked: bump(t.checked), ..t })
    } else {
        Tally { skipped: bump(t.skipped), ..t }
    }
}

/// Methods of an impl block, in order.
pub open spec fn loops_methods(ms: Seq<FnDef>, module_safe: bool, t: Tally) -> Tally
    decreases ms.len(),
{
    if ms.len() == 0 {
        t
    } else {
        loops_methods(ms.subrange(1, ms.len() as int), module_safe, loops_fn(ms[0], module_safe, t))
    }
}

/// Items in order; a nested module is in a `@safe` scope when it or an
/// enclosing module is.
pub open spec fn loops_items(items: Seq<Item>, module_safe: bool, t: Tally) -> Tally
    decreases items,
{
    if items.len() == 0 {
        t
    } else {
        let t1 = match items[0] {
            Item::Fn(fd) => loops_fn(fd, module_safe, t),
            Item::Module(m) => loops_items(m.items@, module_safe || m.safe, t),
            Item::Impl(ib) => loops_methods(ib.methods@, module_safe, t),
            Item::Enum(_) | Item::Struct(_) | Item::Trait(_) | Item::Protocol(_) | Item::Actor(_) | Item::Memory(_) | Item::Other => t,
        };
        loops_items(items.subrange(1, items.len() as int), module_safe, t1)
    }
}

/// The verifier's tally over a module.
pub open spec fn module_tally(m: Module) -> Tally {
    loops_items(m.items@, m.safe, Tally { checked: 0, skipped: 0, proven: 0, bad: Seq::empty() })
}

// ---------------------------------------------------------------------------
// Facts, executable
// ---------------------------------------------------------------------------

/// The entries as plain values.
pub open spec fn fact_views(v: Seq<(String, Option<i64>)>) -> Seq<(Seq<char>, Option<i64>)> {
    v.map_values(|e: (String, Option<i64>)| (e.0@, e.1))
}

/// Bindings known to hold an integer literal. The first entry of a name
/// decides it; an entry holding `None` means nothing is known.
pub struct Facts {
    entries: Vec<(String, Option<i64>)>,
}

/// Entries before the first one of `k` do not matter to it.
proof fn lemma_lookup_skip<V>(s: Seq<(Seq<char>, V)>, k: Seq<char>, i: int)
    requires
        0 <= i <= s.len(),
        forall|j: int| 0 <= j < i ==> (#[trigger] s[j]).0 != k,
    ensures
        lookup(s, k) == lookup(s.subrange(i, s.len() as int), k),
    decreases i,
{
    if i == 0 {
        assert(s.subrange(0, s.len() as int) =~= s);
    } else {
        let t = s.subrange(1, s.len() as int);
        assert forall|j: int| 0 <= j < i - 1 implies (#[trigger] t[j]).0 != k by {
            assert(t[j] == s[j + 1]);
        }
        lemma_lookup_skip(t, k, i - 1);
        assert(t.subrange(i - 1, t.len() as int) =~= s.subrange(i, s.len() as int));
    }
}

impl Facts {
    /// The known values.
    pub closed spec fn view(&self) -> Map<Seq<char>, i64> {
        facts_map(fact_views(self.entries@))
    }

    /// Nothing known.
    pub fn new() -> (r: Facts)
        ensures
            r.view() == Map::<Seq<char>, i64>::empty(),
    {
        let r = Facts { entries: Vec::new() };
        assert(r.view() =~= Map::<Seq<char>, i64>::empty());
        r
    }

    /// The value known for `name`.
    pub fn get(&self, name: &str) -> (r: Option<i64>)
        ensures
            r == fact(self.view(), name@),
    {
        let ghost s = fact_views(self.entries@);
        let mut i: usize = 0;
        while i < self.entries.len()
            invariant
                s == fact_views(self.entries@),
                i <= s.len(),
                forall|j: int| 0 <= j < i ==> (#[trigger] s[j]).0 != name@,
            decreases s.len() - i,
        {
            if str_eq(self.entries[i].0.as_str(), name) {
                proof {
                    lemma_lookup_skip(s, name@, i as int);
                    assert(s.subrange(i as int, s.len() as int)[0] == s[i as int]);
                }
                return self.entries[i].1;
            }
            i = i + 1;
        }
        proof {
            lemma_lookup_skip(s, name@, i as int);
            assert(s.subrange(i as int, s.len() as int).len() == 0);
        }
        None
    }

    /// Sets what is known of `name`: `Some(v)` records it, `None` forgets it.
    pub fn set(&mut self, name: &str, v: Option<i64>)
        ensures
            final(self).view() == match v {
                Some(x) => old(self).view().insert(name@, x),
                None => old(self).view().remove(name@),
            },
    {
        let ghost s0 = fact_views(self.entries@);
        self.entries.insert(0, (name.to_owned(), v));
        proof {
            let s1 = fact_views(self.entries@);
            assert(s1.subrange(1, s1.len() as int) =~= s0);
            assert(s1[0] == (name@, v));
            let want = match v {
                Some(x) => facts_map(s0).insert(name@, x),
                None => facts_map(s0).remove(name@),
            };
            assert(facts_map(s1) =~= want);
        }
    }

    /// Forgets every binding a statement list assigns.
    pub fn clear_assigned(&mut self, ss: &Vec<Stmt>)
        ensures
            final(self).view() == cleared(old(self).view(), ss@),
    {
        let ghost f0 = self.view();
        let mut i: usize = 0;
        assert(ss@.subrange(0, ss@.len() as int) =~= ss@);
        while i < ss.len()
            invariant
                i <= ss@.len(),
                cleared(f0, ss@) == cleared(self.view(), ss@.subrange(i as int, ss@.len() as int)),
            decreases ss@.len() - i,
        {
            let ghost rest = ss@.subrange(i as int, ss@.len() as int);
            assert(rest[0] == ss@[i as int]);
            assert(rest.subrange(1, rest.len() as int) =~= ss@.subrange(i as int + 1, ss@.len() as int));
            match &ss[i] {
                Stmt::Assign { target: Expr::Ident(name), .. } => self.set(name.as_str(), None),
                _ => {},
            }
            i = i + 1;
        }
    }
}

/// Records what `let name = value` makes known.
fn bind_fact_exec(facts: &mut Facts, name: &str, value: &Expr)
    ensures
        final(facts).view() == bind_fact(old(facts).view(), name@, *value),
{
    match value {
        Expr::Int(v) => facts.set(name, Some(*v)),
        _ => facts.set(name, None),
    }
}

/// Records what an assignment makes known.
fn assign_fact_exec(facts: &mut Facts, target: &Expr, op: AssignOp, value: &Expr)
    ensures
        final(facts).view() == assign_fact(old(facts).view(), *target, op, *value),
{
    match target {
        Expr::Ident(name) => match (op, value) {
            (AssignOp::Eq, Expr::Int(v)) => facts.set(name.as_str(), Some(*v)),
            (AssignOp::PlusEq, Expr::Int(d)) => match facts.get(name.as_str()) {
                Some(cur) => facts.set(name.as_str(), cur.checked_add(*d)),
                None => facts.set(name.as_str(), None),
            },
            (AssignOp::MinusEq, Expr::Int(d)) => match facts.get(name.as_str()) {
                Some(cur) => facts.set(name.as_str(), cur.checked_sub(*d)),
                None => facts.set(name.as_str(), None),
            },
            _ => facts.set(name.as_str(), None),
        },
        _ => {},
    }
}

// ---------------------------------------------------------------------------
// Loop bounds, executable
// ---------------------------------------------------------------------------

/// Whether the statements reach `break`, `return` or `raise` before any
/// `continue` or nested loop.
fn exits_early_exec(ss: &Vec<Stmt>) -> (r: bool)
    ensures
        r == exits_early(ss@),
{
    let mut i: usize = 0;
    assert(ss@.subrange(0, ss@.len() as int) =~= ss@);
    while i < ss.len()
        invariant
            i <= ss@.len(),
            exits_early(ss@) == exits_early(ss@.subrange(i as int, ss@.len() as int)),
        decreases ss@.len() - i,
    {
        let ghost rest = ss@.subrange(i as int, ss@.len() as int);
        assert(rest[0] == ss@[i as int]);
        assert(rest.subrange(1, rest.len() as int) =~= ss@.subrange(i as int + 1, ss@.len() as int));
        match &ss[i] {
            Stmt::Break { .. } | Stmt::Return { .. } | Stmt::Raise { .. } => {
                return true;
            },
            Stmt::Continue | Stmt::While { .. } | Stmt::For { .. } | Stmt::Loop { .. } => {
                return false;
            },
            _ => {},
        }
        i = i + 1;
    }
    false
}

/// The turns of a literal range.
fn range_bound_exec(start: i64, end: i64, inclusive: bool) -> (r: Option<i64>)
    ensures
        r == range_bound(start, end, inclusive),
{
    if start > end {
        return Some(0);
    }
    match end.checked_sub(start) {
        Some(d) => if inclusive {
            d.checked_add(1)
        } else {
            Some(d)
        },
        None => None,
    }
}

/// The static bound of a `for` loop's iterable.
fn iter_bound_exec(e: &Expr) -> (r: Option<i64>)
    ensures
        r == iter_bound(*e),
{
    match e {
        Expr::Array { elements } => if elements.len() as u64 <= i64::MAX as u64 {
            Some(elements.len() as i64)
        } else {
            None
        },
        Expr::Binary { op, lhs, rhs } => if *op == BinOp::Range || *op == BinOp::RangeInclusive {
            match (&**lhs, &**rhs) {
                (Expr::Int(a), Expr::Int(b)) => range_bound_exec(*a, *b, *op == BinOp::RangeInclusive),
                _ => None,
            }
        } else {
            None
        },
        _ => None,
    }
}

/// An ordering comparison.
fn compare_exec(a: i64, b: i64, op: BinOp) -> (r: Option<bool>)
    ensures
        r == compare(a, b, op),
{
    match op {
        BinOp::Lt => Some(a < b),
        BinOp::LtEq => Some(a <= b),
        BinOp::Gt => Some(a > b),
        BinOp::GtEq => Some(a >= b),
        _ => None,
    }
}

/// A counter condition, executable: the counter, its direction, the hint.
struct CounterExec {
    var: String,
    step_sign: i64,
    hint: i64,
}

/// The counter condition as the spec sees it.
spec fn counter_view(c: CounterExec) -> Counter {
    Counter { var: c.var@, step_sign: c.step_sign as int, hint: c.hint as int }
}

/// The counter condition from its parts.
fn counter_from_exec(var: &String, start: i64, limit: i64, op: BinOp, reversed: bool) -> (r: Option<CounterExec>)
    ensures
        match r {
            Some(c) => counter_from(var@, start, limit, op, reversed) == Some(counter_view(c)),
            None => counter_from(var@, start, limit, op, reversed) is None,
        },
{
    let holds = if reversed { compare_exec(limit, start, op) } else { compare_exec(start, limit, op) };
    match holds {
        None => None,
        Some(false) => Some(CounterExec { var: var.clone(), step_sign: 1, hint: 0 }),
        Some(true) => {
            let up = (!reversed && (op == BinOp::Lt || op == BinOp::LtEq)) || (reversed && (op == BinOp::Gt || op == BinOp::GtEq));
            Some(CounterExec { var: var.clone(), step_sign: if up { 1 } else { -1 }, hint: 1 })
        },
    }
}

/// The counter condition of a `while`.
fn counter_of_exec(cond: &Expr, facts: &Facts) -> (r: Option<CounterExec>)
    ensures
        match r {
            Some(c) => counter_of(*cond, facts.view()) == Some(counter_view(c)),
            None => counter_of(*cond, facts.view()) is None,
        },
{
    match cond {
        Expr::Binary { op, lhs, rhs } => match (&**lhs, &**rhs) {
            (Expr::Ident(v), Expr::Int(limit)) => match facts.get(v.as_str()) {
                Some(start) => counter_from_exec(v, start, *limit, *op, false),
                None => None,
            },
            (Expr::Int(limit), Expr::Ident(v)) => match facts.get(v.as_str()) {
                Some(start) => counter_from_exec(v, start, *limit, *op, true),
                None => None,
            },
            _ => None,
        },
        _ => None,
    }
}

/// The counter's total step over a loop body.
fn steps_of_exec(ss: &Vec<Stmt>, var: &String) -> (r: Option<i64>)
    ensures
        match r {
            Some(x) => steps_of(ss@, var@, 0) == Some(x as int),
            None => steps_of(ss@, var@, 0) is None,
        },
{
    let mut acc: i64 = 0;
    let mut i: usize = 0;
    assert(ss@.subrange(0, ss@.len() as int) =~= ss@);
    while i < ss.len()
        invariant
            i <= ss@.len(),
            steps_of(ss@, var@, 0) == steps_of(ss@.subrange(i as int, ss@.len() as int), var@, acc as int),
        decreases ss@.len() - i,
    {
        let ghost rest = ss@.subrange(i as int, ss@.len() as int);
        assert(rest[0] == ss@[i as int]);
        assert(rest.subrange(1, rest.len() as int) =~= ss@.subrange(i as int + 1, ss@.len() as int));
        match &ss[i] {
            Stmt::Assign { target: Expr::Ident(name), op, value } => {
                if str_eq(name.as_str(), var.as_str()) {
                    let d: i64 = match (op, value) {
                        (AssignOp::PlusEq, Expr::Int(d)) => if *d > 0 { *d } else { return None },
                        (AssignOp::MinusEq, Expr::Int(d)) => if *d > 0 { -*d } else { return None },
                        _ => {
                            return None;
                        },
                    };
                    match acc.checked_add(d) {
                        Some(n) => {
                            acc = n;
                        },
                        None => {
                            return None;
                        },
                    }
                }
            },
            _ => {},
        }
        i = i + 1;
    }
    Some(acc)
}

/// Whether a `while` loop is statically bounded.
fn while_bounded_exec(cond: &Expr, body: &Block, facts: &Facts) -> (r: bool)
    ensures
        r == while_bounded(*cond, *body, facts.view()),
{
    if let Expr::Bool(false) = cond {
        return true;
    }
    if exits_early_exec(&body.stmts) {
        return true;
    }
    match counter_of_exec(cond, facts) {
        None => false,
        Some(c) => if c.hint == 0 {
            true
        } else {
            match steps_of_exec(&body.stmts, &c.var) {
                Some(step) => {
                    let s: i64 = if step > 0 { 1 } else if step < 0 { -1 } else { 0 };
                    step != 0 && s == c.step_sign
                },
                None => false,
            }
        },
    }
}

// ---------------------------------------------------------------------------
// The verifier
// ---------------------------------------------------------------------------

/// The tally a report denotes.
pub open spec fn tally_of(r: BoundedLoopReport) -> Tally {
    Tally {
        checked: r.checked_functions as nat,
        skipped: r.skipped_functions as nat,
        proven: r.proven_loops as nat,
        bad: r.uncheckable_loops@.map_values(|u: UncheckableLoop| (u.function@, u.kind@, u.span_start, u.span_len)),
    }
}

/// Every reported loop carries its explanation.
pub open spec fn explained(r: BoundedLoopReport) -> bool {
    forall|i: int| 0 <= i < r.uncheckable_loops@.len() ==> {
        let u = #[trigger] r.uncheckable_loops@[i];
        u.message@ == uncheckable_message(u.function@, u.kind@, u.span_start as nat, (u.span_start + u.span_len) as nat)
    }
}

/// A loop judged: proven, or reported with its explanation.
fn judge(rep: &mut BoundedLoopReport, ok: bool, f: &str, kind: &'static str, span_start: usize, span_len: usize)
    requires
        explained(*old(rep)),
    ensures
        explained(*final(rep)),
        tally_of(*final(rep)) == judged(tally_of(*old(rep)), ok, f@, kind@, span_start, span_len),
{
    if ok {
        if rep.proven_loops < usize::MAX {
            rep.proven_loops = rep.proven_loops + 1;
        }
        assert(tally_of(*rep) =~= judged(tally_of(*old(rep)), ok, f@, kind@, span_start, span_len));
    } else {
        let ghost u0 = rep.uncheckable_loops@;
        push_uncheckable(rep, f, kind, span_start, span_len);
        proof {
            assert(rep.uncheckable_loops@ =~= u0.push(rep.uncheckable_loops@.last()));
            assert(tally_of(*rep).bad =~= tally_of(*old(rep)).bad.push((f@, kind@, span_start, span_len)));
        }
    }
}

/// Walks an expression.
fn walk_expr(e: &Expr, f: &str, rep: &mut BoundedLoopReport)
    requires
        explained(*old(rep)),
    ensures
        explained(*final(rep)),
        tally_of(*final(rep)) == loops_expr(*e, f@, tally_of(*old(rep))),
    decreases e,
{
    match e {
        Expr::Binary { lhs, rhs, .. } => {
            walk_expr(lhs, f, rep);
            walk_expr(rhs, f, rep);
        },
        Expr::Unary { expr } => walk_expr(expr, f, rep),
        Expr::Cast { expr, .. } => walk_expr(expr, f, rep),
        Expr::Spawn { expr, .. } => walk_expr(expr, f, rep),
        Expr::Call { callee, args } => {
            walk_expr(callee, f, rep);
            walk_exprs(args, f, rep);
        },
        Expr::Method { receiver, args, .. } => {
            walk_expr(receiver, f, rep);
            walk_exprs(args, f, rep);
        },
        Expr::Field { receiver, .. } => walk_expr(receiver, f, rep),
        Expr::Index { receiver, index } => {
            walk_expr(receiver, f, rep);
            walk_expr(index, f, rep);
        },
        Expr::If { condition, then_block, elsif_clauses, else_block } => {
            walk_expr(condition, f, rep);
            walk_block(then_block, f, rep);
            walk_elsifs(elsif_clauses, f, rep);
            match else_block {
                Some(b) => walk_block(b, f, rep),
                None => {},
            }
        },
        Expr::Match { subject, arms } => {
            walk_expr(subject, f, rep);
            walk_arms(arms, f, rep);
        },
        Expr::Try { body, rescues, ensure } => {
            walk_block(body, f, rep);
            walk_rescues(rescues, f, rep);
            match ensure {
                Some(b) => walk_block(b, f, rep),
                None => {},
            }
        },
        Expr::Closure { body, .. } => match &**body {
            ClosureBody::Block(b) => {
                proof {
                    assert(decreases_to!(*e => **body));
                }
                walk_block(b, f, rep);
            },
            ClosureBody::Expr(x) => {
                proof {
                    assert(decreases_to!(*e => **body));
                }
                walk_expr(x, f, rep);
            },
        },
        Expr::Array { elements } => walk_exprs(elements, f, rep),
        Expr::MapLit { entries } => walk_entries(entries, f, rep),
        _ => {},
    }
}

/// Walks expressions in order.
fn walk_exprs(es: &Vec<Expr>, f: &str, rep: &mut BoundedLoopReport)
    requires
        explained(*old(rep)),
    ensures
        explained(*final(rep)),
        tally_of(*final(rep)) == loops_exprs(es@, f@, tally_of(*old(rep))),
    decreases es,
{
    let ghost total = loops_exprs(es@, f@, tally_of(*rep));
    let mut i: usize = 0;
    assert(es@.subrange(0, es@.len() as int) =~= es@);
    while i < es.len()
        invariant
            i <= es@.len(),
            explained(*rep),
            total == loops_exprs(es@.subrange(i as int, es@.len() as int), f@, tally_of(*rep)),
        decreases es@.len() - i,
    {
        let ghost rest = es@.subrange(i as int, es@.len() as int);
        assert(rest[0] == es@[i as int]);
        assert(rest.subrange(1, rest.len() as int) =~= es@.subrange(i as int + 1, es@.len() as int));
        proof {
            assert(decreases_to!(*es => es@));
            assert(decreases_to!(es@ => es@[i as int]));
        }
        walk_expr(&es[i], f, rep);
        i = i + 1;
    }
}

/// Walks map entries.
fn walk_entries(es: &Vec<(Expr, Expr)>, f: &str, rep: &mut BoundedLoopReport)
    requires
        explained(*old(rep)),
    ensures
        explained(*final(rep)),
        tally_of(*final(rep)) == loops_entries(es@, f@, tally_of(*old(rep))),
    decreases es,
{
    let ghost total = loops_entries(es@, f@, tally_of(*rep));
    let mut i: usize = 0;
    assert(es@.subrange(0, es@.len() as int) =~= es@);
    while i < es.len()
        invariant
            i <= es@.len(),
            explained(*rep),
            total == loops_entries(es@.subrange(i as int, es@.len() as int), f@, tally_of(*rep)),
        decreases es@.len() - i,
    {
        let ghost rest = es@.subrange(i as int, es@.len() as int);
        assert(rest[0] == es@[i as int]);
        assert(rest.subrange(1, rest.len() as int) =~= es@.subrange(i as int + 1, es@.len() as int));
        proof {
            assert(decreases_to!(*es => es@));
            assert(decreases_to!(es@ => es@[i as int]));
            assert(decreases_to!(es@[i as int] => es@[i as int].0));
            assert(decreases_to!(es@[i as int] => es@[i as int].1));
        }
        walk_expr(&es[i].0, f, rep);
        walk_expr(&es[i].1, f, rep);
        i = i + 1;
    }
}

/// Walks `elsif` clauses.
fn walk_elsifs(cs: &Vec<(Expr, Block)>, f: &str, rep: &mut BoundedLoopReport)
    requires
        explained(*old(rep)),
    ensures
        explained(*final(rep)),
        tally_of(*final(rep)) == loops_elsifs(cs@, f@, tally_of(*old(rep))),
    decreases cs,
{
    let ghost total = loops_elsifs(cs@, f@, tally_of(*rep));
    let mut i: usize = 0;
    assert(cs@.subrange(0, cs@.len() as int) =~= cs@);
    while i < cs.len()
        invariant
            i <= cs@.len(),
            explained(*rep),
            total == loops_elsifs(cs@.subrange(i as int, cs@.len() as int), f@, tally_of(*rep)),
        decreases cs@.len() - i,
    {
        let ghost rest = cs@.subrange(i as int, cs@.len() as int);
        assert(rest[0] == cs@[i as int]);
        assert(rest.subrange(1, rest.len() as int) =~= cs@.subrange(i as int + 1, cs@.len() as int));
        proof {
            assert(decreases_to!(*cs => cs@));
            assert(decreases_to!(cs@ => cs@[i as int]));
            assert(decreases_to!(cs@[i as int] => cs@[i as int].0));
            assert(decreases_to!(cs@[i as int] => cs@[i as int].1));
        }
        walk_expr(&cs[i].0, f, rep);
        walk_block(&cs[i].1, f, rep);
        i = i + 1;
    }
}

/// Walks `match` arms.
fn walk_arms(arms: &Vec<MatchArm>, f: &str, rep: &mut BoundedLoopReport)
    requires
        explained(*old(rep)),
    ensures
        explained(*final(rep)),
        tally_of(*final(rep)) == loops_arms(arms@, f@, tally_of(*old(rep))),
    decreases arms,
{
    let ghost total = loops_arms(arms@, f@, tally_of(*rep));
    let mut i: usize = 0;
    assert(arms@.subrange(0, arms@.len() as int) =~= arms@);
    while i < arms.len()
        invariant
            i <= arms@.len(),
            explained(*rep),
            total == loops_arms(arms@.subrange(i as int, arms@.len() as int), f@, tally_of(*rep)),
        decreases arms@.len() - i,
    {
        let ghost rest = arms@.subrange(i as int, arms@.len() as int);
        assert(rest[0] == arms@[i as int]);
        assert(rest.subrange(1, rest.len() as int) =~= arms@.subrange(i as int + 1, arms@.len() as int));
        proof {
            assert(decreases_to!(*arms => arms@));
            assert(decreases_to!(arms@ => arms@[i as int]));
            assert(decreases_to!(arms@[i as int] => arms@[i as int].body));
        }
        match &arms[i].guard {
            Some(g) => {
                proof {
                    assert(decreases_to!(arms@[i as int] => arms@[i as int].guard));
                    assert(decreases_to!(arms@[i as int].guard => arms@[i as int].guard->0));
                }
                walk_expr(g, f, rep);
            },
            None => {},
        }
        walk_block(&arms[i].body, f, rep);
        i = i + 1;
    }
}

/// Walks `rescue` bodies.
fn walk_rescues(rs: &Vec<Rescue>, f: &str, rep: &mut BoundedLoopReport)
    requires
        explained(*old(rep)),
    ensures
        explained(*final(rep)),
        tally_of(*final(rep)) == loops_rescues(rs@, f@, tally_of(*old(rep))),
    decreases rs,
{
    let ghost total = loops_rescues(rs@, f@, tally_of(*rep));
    let mut i: usize = 0;
    assert(rs@.subrange(0, rs@.len() as int) =~= rs@);
    while i < rs.len()
        invariant
            i <= rs@.len(),
            explained(*rep),
            total == loops_rescues(rs@.subrange(i as int, rs@.len() as int), f@, tally_of(*rep)),
        decreases rs@.len() - i,
    {
        let ghost rest = rs@.subrange(i as int, rs@.len() as int);
        assert(rest[0] == rs@[i as int]);
        assert(rest.subrange(1, rest.len() as int) =~= rs@.subrange(i as int + 1, rs@.len() as int));
        proof {
            assert(decreases_to!(*rs => rs@));
            assert(decreases_to!(rs@ => rs@[i as int]));
            assert(decreases_to!(rs@[i as int] => rs@[i as int].body));
        }
        walk_block(&rs[i].body, f, rep);
        i = i + 1;
    }
}

/// Walks a block from no facts.
fn walk_block(b: &Block, f: &str, rep: &mut BoundedLoopReport)
    requires
        explained(*old(rep)),
    ensures
        explained(*final(rep)),
        tally_of(*final(rep)) == loops_block(*b, f@, tally_of(*old(rep))),
    decreases b,
{
    let mut facts = Facts::new();
    walk_stmts(&b.stmts, f, rep, &mut facts);
    match &b.tail_expr {
        Some(x) => {
            proof {
                assert(decreases_to!(*b => b.tail_expr));
                assert(decreases_to!(b.tail_expr => b.tail_expr->0));
            }
            walk_expr(x, f, rep);
        },
        None => {},
    }
}

/// Walks statements in order, carrying the facts.
fn walk_stmts(ss: &Vec<Stmt>, f: &str, rep: &mut BoundedLoopReport, facts: &mut Facts)
    requires
        explained(*old(rep)),
    ensures
        explained(*final(rep)),
        (tally_of(*final(rep)), final(facts).view()) == loops_stmts(ss@, f@, tally_of(*old(rep)), old(facts).view()),
    decreases ss,
{
    let ghost total = loops_stmts(ss@, f@, tally_of(*rep), facts.view());
    let mut i: usize = 0;
    assert(ss@.subrange(0, ss@.len() as int) =~= ss@);
    while i < ss.len()
        invariant
            i <= ss@.len(),
            explained(*rep),
            total == loops_stmts(ss@.subrange(i as int, ss@.len() as int), f@, tally_of(*rep), facts.view()),
        decreases ss@.len() - i,
    {
        let ghost rest = ss@.subrange(i as int, ss@.len() as int);
        assert(rest[0] == ss@[i as int]);
        assert(rest.subrange(1, rest.len() as int) =~= ss@.subrange(i as int + 1, ss@.len() as int));
        proof {
            assert(decreases_to!(*ss => ss@));
            assert(decreases_to!(ss@ => ss@[i as int]));
        }
        walk_stmt(&ss[i], f, rep, facts);
        i = i + 1;
    }
}

/// Walks a statement.
fn walk_stmt(s: &Stmt, f: &str, rep: &mut BoundedLoopReport, facts: &mut Facts)
    requires
        explained(*old(rep)),
    ensures
        explained(*final(rep)),
        (tally_of(*final(rep)), final(facts).view()) == loops_stmt(*s, f@, tally_of(*old(rep)), old(facts).view()),
    decreases s,
{
    match s {
        Stmt::Let(d) => {
            walk_expr(&d.value, f, rep);
            bind_fact_exec(facts, d.name.as_str(), &d.value);
        },
        Stmt::Var(d) => {
            walk_expr(&d.value, f, rep);
            bind_fact_exec(facts, d.name.as_str(), &d.value);
        },
        Stmt::Const(d) => {
            walk_expr(&d.value, f, rep);
            bind_fact_exec(facts, d.name.as_str(), &d.value);
        },
        Stmt::Assign { target, op, value } => {
            walk_expr(target, f, rep);
            walk_expr(value, f, rep);
            assign_fact_exec(facts, target, *op, value);
        },
        Stmt::While { condition, body, span } => {
            let ok = while_bounded_exec(condition, body, facts);
            judge(rep, ok, f, "while", span.start, span.len);
            walk_expr(condition, f, rep);
            walk_block(body, f, rep);
            facts.clear_assigned(&body.stmts);
        },
        Stmt::For { var, iter, body, span } => {
            let ok = iter_bound_exec(iter).is_some() || exits_early_exec(&body.stmts);
            judge(rep, ok, f, "for", span.start, span.len);
            walk_expr(iter, f, rep);
            walk_block(body, f, rep);
            facts.set(var.as_str(), None);
            facts.clear_assigned(&body.stmts);
        },
        Stmt::Loop { body, span } => {
            let ok = exits_early_exec(&body.stmts);
            judge(rep, ok, f, "loop", span.start, span.len);
            walk_block(body, f, rep);
            facts.clear_assigned(&body.stmts);
        },
        Stmt::Break { value } | Stmt::Return { value } | Stmt::Yield { value } | Stmt::Next { value } => {
            match value {
                Some(v) => {
                    proof {
                        assert(decreases_to!(*value => value->0));
                    }
                    walk_expr(v, f, rep);
                },
                None => {},
            }
        },
        Stmt::Raise { value } => walk_expr(value, f, rep),
        Stmt::Continue => {},
        Stmt::Expr(x) => walk_expr(x, f, rep),
    }
}

/// Whether some annotation is `@bounded(..)`.
fn declares_bounded_exec(anns: &Vec<Annotation>) -> (r: bool)
    ensures
        r == declares_bounded(anns@),
{
    let mut i: usize = 0;
    while i < anns.len()
        invariant
            i <= anns@.len(),
            forall|j: int| 0 <= j < i ==> !(anns@[j] is Bounded),
        decreases anns@.len() - i,
    {
        if let Annotation::Bounded(_) = &anns[i] {
            return true;
        }
        i = i + 1;
    }
    false
}

/// Checks one function, or counts it as skipped.
fn check_function(fd: &FnDef, module_safe: bool, rep: &mut BoundedLoopReport)
    requires
        explained(*old(rep)),
    ensures
        explained(*final(rep)),
        tally_of(*final(rep)) == loops_fn(*fd, module_safe, tally_of(*old(rep))),
{
    if module_safe || fd.mode == FnMode::Safe || declares_bounded_exec(&fd.annotations) {
        if rep.checked_functions < usize::MAX {
            rep.checked_functions = rep.checked_functions + 1;
        }
        assert(tally_of(*rep) =~= Tally { checked: bump(tally_of(*old(rep)).checked), ..tally_of(*old(rep)) });
        walk_block(&fd.body, fd.name.as_str(), rep);
    } else {
        if rep.skipped_functions < usize::MAX {
            rep.skipped_functions = rep.skipped_functions + 1;
        }
        assert(tally_of(*rep) =~= Tally { skipped: bump(tally_of(*old(rep)).skipped), ..tally_of(*old(rep)) });
    }
}

/// Checks items in order, nested modules included.
fn check_items(items: &Vec<Item>, module_safe: bool, rep: &mut BoundedLoopReport)
    requires
        explained(*old(rep)),
    ensures
        explained(*final(rep)),
        tally_of(*final(rep)) == loops_items(items@, module_safe, tally_of(*old(rep))),
    decreases items,
{
    let ghost total = loops_items(items@, module_safe, tally_of(*rep));
    let mut i: usize = 0;
    assert(items@.subrange(0, items@.len() as int) =~= items@);
    while i < items.len()
        invariant
            i <= items@.len(),
            explained(*rep),
            total == loops_items(items@.subrange(i as int, items@.len() as int), module_safe, tally_of(*rep)),
        decreases items@.len() - i,
    {
        let ghost rest = items@.subrange(i as int, items@.len() as int);
        assert(rest[0] == items@[i as int]);
        assert(rest.subrange(1, rest.len() as int) =~= items@.subrange(i as int + 1, items@.len() as int));
        match &items[i] {
            Item::Fn(fd) => check_function(fd, module_safe, rep),
            Item::Module(m) => {
                proof {
                    assert(decreases_to!(*items => items@));
                    assert(decreases_to!(items@ => items@[i as int]));
                    assert(decreases_to!(items@[i as int] => m.items));
                }
                check_items(&m.items, module_safe || m.safe, rep);
            },
            Item::Impl(ib) => {
                let ghost t0 = loops_methods(ib.methods@, module_safe, tally_of(*rep));
                let mut j: usize = 0;
                assert(ib.methods@.subrange(0, ib.methods@.len() as int) =~= ib.methods@);
                while j < ib.methods.len()
                    invariant
                        j <= ib.methods@.len(),
                        explained(*rep),
                        t0 == loops_methods(ib.methods@.subrange(j as int, ib.methods@.len() as int), module_safe, tally_of(*rep)),
                    decreases ib.methods@.len() - j,
                {
                    let ghost ms = ib.methods@.subrange(j as int, ib.methods@.len() as int);
                    assert(ms[0] == ib.methods@[j as int]);
                    assert(ms.subrange(1, ms.len() as int) =~= ib.methods@.subrange(j as int + 1, ib.methods@.len() as int));
                    check_function(&ib.methods[j], module_safe, rep);
                    j = j + 1;
                }
            },
            Item::Enum(_) | Item::Struct(_) | Item::Trait(_) | Item::Protocol(_) | Item::Actor(_) | Item::Memory(_) | Item::Other => {},
        }
        i = i + 1;
    }
}

/// The static loop verifier over a module: the functions checked and
/// skipped, the loops proven bounded, and each loop it could not bound
/// with its explanation, in source order.
pub fn bounded_loop_report(module: &Module) -> (r: BoundedLoopReport)
    ensures
        tally_of(r) == module_tally(*module),
        explained(r),
{
    let mut rep = BoundedLoopReport::new();
    assert(tally_of(rep).bad =~= Seq::<(Seq<char>, Seq<char>, usize, usize)>::empty());
    check_items(&module.items, module.safe, &mut rep);
    rep
}

/// A block that binds a counter to a literal and then loops on it, moving
/// the counter by a literal each turn (for instance a countdown from ten
/// while it stays above zero), is judged once: its loop counts as bounded
/// when some number of turns makes the condition false (it starts false,
/// or the counter moves toward the limit), and is reported as an
/// uncheckable `while` otherwise.
pub proof fn lemma_counter_block_verdict(
    b: Block,
    f: Seq<char>,
    t: Tally,
    v: String,
    lit: i64,
    limit: i64,
    op: BinOp,
    reversed: bool,
    d: i64,
    up: bool,
    step: int,
)
    requires
        op == BinOp::Lt || op == BinOp::LtEq || op == BinOp::Gt || op == BinOp::GtEq,
        d > 0,
        step == if up { d as int } else { -d },
        b.tail_expr is None,
        b.stmts@.len() == 2,
        b.stmts@[0] matches Stmt::Let(decl) && decl.name@ == v@ && decl.value == Expr::Int(lit),
        b.stmts@[1] matches Stmt::While { condition, body, .. } && condition == counter_condition(v, limit, op, reversed)
            && body.tail_expr is None && body.stmts@.len() == 1
            && (body.stmts@[0] matches Stmt::Assign { target: Expr::Ident(w), op: aop, value: Expr::Int(k) }
                && w@ == v@ && k == d && aop == (if up { AssignOp::PlusEq } else { AssignOp::MinusEq })),
    ensures
        loops_block(b, f, t) == judged(
            t,
            exists|n: nat| !#[trigger] comparison_holds(lit + n * step, limit as int, op, reversed),
            f,
            "while"@,
            b.stmts@[1]->While_span.start,
            b.stmts@[1]->While_span.len,
        ),
{
    let s0 = b.stmts@[0];
    let s1 = b.stmts@[1];
    let facts = bind_fact(Map::empty(), v@, Expr::Int(lit));
    let body = s1->While_body;
    let cond = counter_condition(v, limit, op, reversed);
    let a = body.stmts@[0];
    let rest1 = body.stmts@.subrange(1, 1);
    assert(rest1 =~= Seq::<Stmt>::empty());
    assert(step_of(a, v@) == Some(Some(step)));
    assert(steps_of(body.stmts@, v@, 0) == Some(step)) by {
        assert(steps_of(rest1, v@, step) == Some(step));
    }
    assert(!exits_early(body.stmts@)) by {
        assert(!exits_early(rest1));
    }
    let ok = exists|n: nat| !#[trigger] comparison_holds(lit + n * step, limit as int, op, reversed);
    if comparison_holds(lit as int, limit as int, op, reversed) {
        lemma_counter_loop_bounded_iff_it_ends(v, limit, op, reversed, body, facts, lit, step);
    } else {
        assert(!comparison_holds(lit + 0 * step, limit as int, op, reversed));
        assert(counter_bound(cond, body, facts) == Some(0int));
    }
    assert(while_bounded(cond, body, facts) == ok);
    let t1 = judged(t, ok, f, "while"@, s1->While_span.start, s1->While_span.len);
    assert(loops_expr(Expr::Int(limit), f, t1) == t1);
    assert(loops_expr(Expr::Ident(v), f, t1) == t1);
    assert(loops_expr(cond, f, t1) == t1);
    let ra = loops_stmt(a, f, t1, Map::empty());
    assert(ra.0 == t1);
    assert(loops_stmts(body.stmts@, f, t1, Map::empty()).0 == t1) by {
        assert(loops_stmts(rest1, f, ra.0, ra.1) == (ra.0, ra.1));
    }
    assert(loops_block(body, f, t1) == t1);
    let r0 = loops_stmt(s0, f, t, Map::empty());
    assert(r0 == (t, facts));
    let r1 = loops_stmt(s1, f, t, facts);
    assert(r1.0 == t1);
    let rest = b.stmts@.subrange(1, 2);
    assert(rest[0] == s1);
    assert(rest.subrange(1, 1) =~= Seq::<Stmt>::empty());
    assert(loops_stmts(rest, f, t, facts).0 == t1) by {
        assert(loops_stmts(rest.subrange(1, 1), f, r1.0, r1.1) == (r1.0, r1.1));
    }
    assert(loops_stmts(b.stmts@, f, t, Map::empty()).0 == t1);
    assert(loops_block(b, f, t) == t1);
}

// ---------------------------------------------------------------------------
// Declared budgets
// ---------------------------------------------------------------------------

/// The last `@bounded(N)` budget among annotations.
pub open spec fn last_budget(anns: Seq<Annotation>) -> Option<i64>
    decreases anns.len(),
{
    if anns.len() == 0 {
        None
    } else {
        match anns.last() {
            Annotation::Bounded(n) => Some(n),
            _ => last_budget(anns.drop_last()),
        }
    }
}

/// The declared budgets of the top-level functions among `items`, in
/// source order.
pub open spec fn items_budgets(items: Seq<Item>) -> Seq<(Seq<char>, i64)>
    decreases items.len(),
{
    if items.len() == 0 {
        Seq::empty()
    } else {
        let pre = items_budgets(items.drop_last());
        match items.last() {
            Item::Fn(fd) => match last_budget(fd.annotations@) {
                Some(n) => pre.push((fd.name@, n)),
                None => pre,
            },
            _ => pre,
        }
    }
}

/// The names of budget entries.
pub open spec fn budget_names(bs: Seq<(Seq<char>, i64)>) -> Seq<Seq<char>> {
    bs.map_values(|b: (Seq<char>, i64)| b.0)
}

/// The last declared budget of a function.
fn last_budget_exec(anns: &Vec<Annotation>) -> (r: Option<i64>)
    ensures
        r == last_budget(anns@),
{
    let mut budget: Option<i64> = None;
    let mut i: usize = 0;
    assert(anns@.subrange(0, 0) =~= Seq::<Annotation>::empty());
    while i < anns.len()
        invariant
            i <= anns@.len(),
            budget == last_budget(anns@.subrange(0, i as int)),
        decreases anns@.len() - i,
    {
        let ghost pre = anns@.subrange(0, i as int + 1);
        assert(pre.drop_last() =~= anns@.subrange(0, i as int));
        assert(pre.last() == anns@[i as int]);
        if let Annotation::Bounded(n) = &anns[i] {
            budget = Some(*n);
        }
        i = i + 1;
    }
    assert(anns@.subrange(0, i as int) =~= anns@);
    budget
}

/// The `@bounded(N)` budgets declared by the top-level functions, as
/// `(name, N)` (the last one when a function declares several), sorted by
/// name, stably.
pub fn bounded_functions(module: &Module) -> (r: Vec<(String, i64)>)
    ensures
        ({
            let bs = items_budgets(module.items@);
            let pos = stable_positions(budget_names(bs));
            &&& r@.len() == pos.len()
            &&& forall|t: int| 0 <= t < r@.len() ==> (#[trigger] r@[t]).0@ == bs[pos[t]].0 && r@[t].1 == bs[pos[t]].1
        }),
{
    let ghost it = module.items@;
    let mut all: Vec<(String, i64)> = Vec::new();
    let mut i: usize = 0;
    assert(it.subrange(0, 0) =~= Seq::<Item>::empty());
    while i < module.items.len()
        invariant
            it == module.items@,
            i <= it.len(),
            all@.len() == items_budgets(it.subrange(0, i as int)).len(),
            forall|t: int| 0 <= t < all@.len() ==> (#[trigger] all@[t]).0@ == items_budgets(it.subrange(0, i as int))[t].0
                && all@[t].1 == items_budgets(it.subrange(0, i as int))[t].1,
        decreases it.len() - i,
    {
        let ghost pre = it.subrange(0, i as int + 1);
        assert(pre.drop_last() =~= it.subrange(0, i as int));
        assert(pre.last() == it[i as int]);
        let ghost a0 = all@;
        match &module.items[i] {
            Item::Fn(fd) => match last_budget_exec(&fd.annotations) {
                Some(n) => {
                    all.push((fd.name.clone(), n));
                    assert(forall|t: int| 0 <= t < a0.len() ==> all@[t] == a0[t]);
                },
                None => {},
            },
            _ => {},
        }
        i = i + 1;
    }
    assert(it.subrange(0, i as int) =~= it);
    let ghost bs = items_budgets(it);
    let mut names: Vec<String> = Vec::new();
    let mut q: usize = 0;
    while q < all.len()
        invariant
            q <= all@.len(),
            all@.len() == bs.len(),
            forall|t: int| 0 <= t < all@.len() ==> (#[trigger] all@[t]).0@ == bs[t].0 && all@[t].1 == bs[t].1,
            names@.len() == q,
            crate::order::views(names@) == budget_names(bs).subrange(0, q as int),
        decreases all@.len() - q,
    {
        names.push(all[q].0.clone());
        proof {
            assert(crate::order::views(names@) =~= budget_names(bs).subrange(0, q as int + 1));
        }
        q = q + 1;
    }
    assert(crate::order::views(names@) =~= budget_names(bs));
    let order = crate::surfaces::stable_order(&names);
    let ghost pos = stable_positions(budget_names(bs));
    let mut out: Vec<(String, i64)> = Vec::new();
    let mut t: usize = 0;
    while t < order.len()
        invariant
            t <= order@.len(),
            all@.len() == bs.len(),
            names@.len() == bs.len(),
            forall|u: int| 0 <= u < all@.len() ==> (#[trigger] all@[u]).0@ == bs[u].0 && all@[u].1 == bs[u].1,
            crate::surfaces::ints(order@) == pos,
            forall|u: int| 0 <= u < order@.len() ==> (#[trigger] order@[u] as int) < names@.len(),
            out@.len() == t,
            forall|u: int| 0 <= u < t ==> (#[trigger] out@[u]).0@ == bs[pos[u]].0 && out@[u].1 == bs[pos[u]].1,
        decreases order@.len() - t,
    {
        let x = order[t];
        out.push((all[x].0.clone(), all[x].1));
        proof {
            assert(crate::surfaces::ints(order@)[t as int] == x as int);
        }
        t = t + 1;
    }
    out
}

} // verus!
