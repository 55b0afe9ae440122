//! The safe-mode checks of each function and item: mode tagging, the
//! annotation ranges and `@caps` discipline, fully typed safe signatures,
//! reference-return lifetime elision, the `@safe` syntax restrictions (`var`,
//! `raise`, `try`), `@dynamic` in safe modules, `@nonsendable` types at actor
//! boundaries, and the count of call sites that may cross the managed/safe
//! boundary.

use vstd::prelude::*;
use crate::ast::{
    ActorDef, ActorMember, Annotation, Block, Expr, FnDef, Item, MatchArm, Param, Ownership, Stmt,
};
use crate::coherence::{seg_views, TypeExpr};
use crate::diagnostics::{CheckError, CheckReport, FnMode};
use crate::order::{insert_sorted, lemma_sorted_of, sorted_of, strictly_sorted, views};
use crate::text::{push_signed_decimal_wide, signed_decimal, str_eq};

verus! {

// ---------------------------------------------------------------------------
// Diagnostics as values
// ---------------------------------------------------------------------------

/// A diagnostic of these checks: a safe-mode violation or an annotation
/// error, with its text.
pub enum Diag {
    Safe(Seq<char>),
    Annotation(Seq<char>),
}

/// What a reported diagnostic is, if it is one of these checks'.
pub open spec fn diag_of(e: CheckError) -> Option<Diag> {
    match e {
        CheckError::SafeModeViolation(m) => Some(Diag::Safe(m@)),
        CheckError::AnnotationError(m) => Some(Diag::Annotation(m@)),
        _ => None,
    }
}

/// The reported diagnostics, as values.
pub open spec fn diags_of(v: Seq<CheckError>) -> Seq<Option<Diag>> {
    v.map_values(|e: CheckError| diag_of(e))
}

/// The diagnostics, as they are reported.
pub open spec fn as_reported(v: Seq<Diag>) -> Seq<Option<Diag>> {
    v.map_values(|d: Diag| Some(d))
}

// ---------------------------------------------------------------------------
// Annotations
// ---------------------------------------------------------------------------

/// The capability names a `@caps(...)` may list.
pub open spec fn known_cap(c: Seq<char>) -> bool {
    c == "fs"@ || c == "net"@ || c == "net_internal"@ || c == "time"@ || c == "proc"@ || c == "ffi"@
        || c == "*"@ || c == "env"@
}

pub open spec fn range_msg(ann: Seq<char>, f: Seq<char>, range: Seq<char>, n: i64) -> Seq<char> {
    ann + " on '"@ + f + "' must be in "@ + range + ", got "@ + signed_decimal(n as int)
}

pub open spec fn bounded_msg(f: Seq<char>, n: i64) -> Seq<char> {
    "@bounded on '"@ + f + "' must declare a positive fuel budget, got "@ + signed_decimal(n as int)
}

pub open spec fn multiple_caps_msg(f: Seq<char>) -> Seq<char> {
    "function '"@ + f + "' has multiple @caps(...) annotations; merge them"@
}

pub open spec fn unknown_cap_msg(f: Seq<char>, c: Seq<char>) -> Seq<char> {
    "function '"@ + f + "' declares unknown capability '"@ + c
        + "'; known caps: fs, net, net_internal, time, proc, env, ffi, *"@
}

pub open spec fn wildcard_msg(f: Seq<char>) -> Seq<char> {
    "safe function '"@ + f + "' may not use @caps(*) wildcard; enumerate the specific capabilities required"@
}

pub open spec fn main_caps_msg() -> Seq<char> {
    "`main` function must declare its required capabilities; use @caps() for purely-computational programs, or @caps(fs, net, ...) listing the OS authority required"@
}

/// The unknown-capability errors of one `@caps(...)` list.
pub open spec fn unknown_caps(f: Seq<char>, cs: Seq<Seq<char>>) -> Seq<Diag>
    decreases cs.len(),
{
    if cs.len() == 0 {
        Seq::empty()
    } else {
        let head = if known_cap(cs[0]) { Seq::empty() } else { seq![Diag::Annotation(unknown_cap_msg(f, cs[0]))] };
        head + unknown_caps(f, cs.subrange(1, cs.len() as int))
    }
}

/// The errors of one annotation, given whether a `@caps` came before it.
pub open spec fn ann_diags(f: Seq<char>, a: Annotation, caps_seen: bool) -> Seq<Diag> {
    match a {
        Annotation::MaxDepth(n) => if n <= 0 || n > 64 {
            seq![Diag::Annotation(range_msg("@max_depth"@, f, "1..=64"@, n))]
        } else {
            Seq::empty()
        },
        Annotation::FanOut(n) => if n <= 0 || n > 1024 {
            seq![Diag::Annotation(range_msg("@fan_out"@, f, "1..=1024"@, n))]
        } else {
            Seq::empty()
        },
        Annotation::Mailbox(n) => if n <= 0 || n > 1048576 {
            seq![Diag::Annotation(range_msg("@mailbox"@, f, "1..=1048576"@, n))]
        } else {
            Seq::empty()
        },
        Annotation::Bounded(n) => if n <= 0 { seq![Diag::Annotation(bounded_msg(f, n))] } else { Seq::empty() },
        Annotation::Caps(cs) => {
            let multi = if caps_seen { seq![Diag::Annotation(multiple_caps_msg(f))] } else { Seq::empty() };
            multi + unknown_caps(f, seg_views(cs@))
        },
        _ => Seq::empty(),
    }
}

/// The errors of a function's annotations, in order.
pub open spec fn anns_diags(f: Seq<char>, anns: Seq<Annotation>, caps_seen: bool) -> Seq<Diag>
    decreases anns.len(),
{
    if anns.len() == 0 {
        Seq::empty()
    } else {
        ann_diags(f, anns[0], caps_seen)
            + anns_diags(f, anns.subrange(1, anns.len() as int), caps_seen || anns[0] is Caps)
    }
}

/// Whether a function carries a `@caps(...)` annotation.
pub open spec fn has_caps(anns: Seq<Annotation>) -> bool {
    exists|i: int| 0 <= i < anns.len() && #[trigger] anns[i] is Caps
}

/// The names of all its `@caps(...)` annotations, in order.
pub open spec fn caps_names(anns: Seq<Annotation>) -> Seq<Seq<char>>
    decreases anns.len(),
{
    if anns.len() == 0 {
        Seq::empty()
    } else {
        let head = match anns[0] {
            Annotation::Caps(cs) => seg_views(cs@),
            _ => Seq::empty(),
        };
        head + caps_names(anns.subrange(1, anns.len() as int))
    }
}

// ---------------------------------------------------------------------------
// Signatures and lifetimes
// ---------------------------------------------------------------------------

/// Whether a type mentions a reference anywhere.
pub open spec fn has_ref(t: TypeExpr) -> bool
    decreases t,
{
    match t {
        TypeExpr::Ref { .. } => true,
        TypeExpr::Named { args, .. } => any_ref(args@),
        TypeExpr::Fn { params, ret } => any_ref(params@) || has_ref(*ret),
        TypeExpr::Tuple { elements } => any_ref(elements@),
        TypeExpr::Dyn { trait_ty } => has_ref(*trait_ty),
    }
}

/// Whether any of the types mentions a reference.
pub open spec fn any_ref(ts: Seq<TypeExpr>) -> bool
    decreases ts,
{
    if ts.len() == 0 {
        false
    } else {
        has_ref(ts[0]) || any_ref(ts.subrange(1, ts.len() as int))
    }
}

/// A borrowing ownership mode.
pub open spec fn borrowing(o: Option<Ownership>) -> bool {
    o == Some(Ownership::Borrow) || o == Some(Ownership::Mut) || o == Some(Ownership::Ref)
}

/// Whether a parameter contributes an input lifetime.
pub open spec fn contributes(p: Param) -> bool {
    borrowing(p.ownership) || (p.ty matches Some(t) && has_ref(t))
}

/// How many parameters contribute an input lifetime.
pub open spec fn lifetime_inputs(ps: Seq<Param>) -> nat
    decreases ps.len(),
{
    if ps.len() == 0 {
        0
    } else {
        (if contributes(ps[0]) { 1nat } else { 0nat }) + lifetime_inputs(ps.subrange(1, ps.len() as int))
    }
}

/// Whether a parameter is a borrowed `self`.
pub open spec fn borrowed_self(p: Param) -> bool {
    p.name@ == "self"@ && borrowing(p.ownership)
}

pub open spec fn no_lifetime_msg(f: Seq<char>) -> Seq<char> {
    "missing lifetime specifier: safe function '"@ + f
        + "' returns a reference but has no borrowed input lifetime to tie it to"@
}

pub open spec fn ambiguous_lifetime_msg(f: Seq<char>) -> Seq<char> {
    "missing lifetime specifier: safe function '"@ + f
        + "' returns a reference with multiple borrowed inputs; write an explicit lifetime once lifetime syntax is enabled"@
}

/// The lifetime-elision errors of a safe function: a returned reference
/// needs exactly one borrowed input, or a borrowed `self`.
pub open spec fn elision_diags(f: FnDef) -> Seq<Diag> {
    match f.return_ty {
        Some(t) => if !has_ref(t) {
            Seq::empty()
        } else if lifetime_inputs(f.params@) == 0 {
            seq![Diag::Safe(no_lifetime_msg(f.name@))]
        } else if lifetime_inputs(f.params@) > 1 && !(exists|i: int| 0 <= i < f.params@.len() && #[trigger] borrowed_self(f.params@[i])) {
            seq![Diag::Safe(ambiguous_lifetime_msg(f.name@))]
        } else {
            Seq::empty()
        },
        None => Seq::empty(),
    }
}

pub open spec fn untyped_param_msg(f: Seq<char>, p: Seq<char>) -> Seq<char> {
    "safe function '"@ + f + "' parameter '"@ + p + "' missing type annotation"@
}

pub open spec fn no_return_msg(f: Seq<char>) -> Seq<char> {
    "safe function '"@ + f + "' missing return type"@
}

/// One error per untyped parameter of a safe function.
pub open spec fn untyped_params(f: Seq<char>, ps: Seq<Param>) -> Seq<Diag>
    decreases ps.len(),
{
    if ps.len() == 0 {
        Seq::empty()
    } else {
        let head = if ps[0].ty is None { seq![Diag::Safe(untyped_param_msg(f, ps[0].name@))] } else { Seq::empty() };
        head + untyped_params(f, ps.subrange(1, ps.len() as int))
    }
}

/// The signature errors of a function declared `fn`.
pub open spec fn signature_diags(f: FnDef) -> Seq<Diag> {
    if f.mode == FnMode::Safe {
        let ret = if f.return_ty is None { seq![Diag::Safe(no_return_msg(f.name@))] } else { Seq::empty() };
        untyped_params(f.name@, f.params@) + ret + elision_diags(f)
    } else {
        Seq::empty()
    }
}

// ---------------------------------------------------------------------------
// The body walk
// ---------------------------------------------------------------------------

pub open spec fn var_msg(f: Seq<char>) -> Seq<char> {
    "safe function '"@ + f + "' uses `var`; use `let mut` instead"@
}

pub open spec fn raise_msg(f: Seq<char>) -> Seq<char> {
    "safe function '"@ + f + "' uses `raise`; return Result::Err(...) instead"@
}

pub open spec fn try_msg(f: Seq<char>) -> Seq<char> {
    "safe function '"@ + f + "' uses `try`/`rescue`; use Result<T, E> and `?` instead"@
}

/// The walk over an expression: the safe-mode violations it finds (only in
/// safe scope) and the number of call sites it passes. The walk enters
/// branches of `if` and arm bodies of `match`, operands of binary operators,
/// and callees, receivers and arguments of calls; it does not enter a `try`.
pub open spec fn expr_walk(e: Expr, f: Seq<char>, safe: bool) -> (Seq<Diag>, nat)
    decreases e,
{
    match e {
        Expr::Try { .. } => (if safe { seq![Diag::Safe(try_msg(f))] } else { Seq::empty() }, 0),
        Expr::If { then_block, elsif_clauses, else_block, .. } => {
            let a = block_walk(then_block, f, safe);
            let b = elsif_walk(elsif_clauses@, f, safe);
            let c = match else_block {
                Some(bl) => block_walk(bl, f, safe),
                None => (Seq::empty(), 0),
            };
            (a.0 + b.0 + c.0, a.1 + b.1 + c.1)
        },
        Expr::Match { arms, .. } => arms_walk(arms@, f, safe),
        Expr::Binary { lhs, rhs, .. } => {
            let a = expr_walk(*lhs, f, safe);
            let b = expr_walk(*rhs, f, safe);
            (a.0 + b.0, a.1 + b.1)
        },
        Expr::Call { callee, args } => {
            let a = expr_walk(*callee, f, safe);
            let b = exprs_walk(args@, f, safe);
            (a.0 + b.0, a.1 + b.1 + 1)
        },
        Expr::Method { receiver, args, .. } => {
            let a = expr_walk(*receiver, f, safe);
            let b = exprs_walk(args@, f, safe);
            (a.0 + b.0, a.1 + b.1 + 1)
        },
        _ => (Seq::empty(), 0),
    }
}

/// The walk over expressions, in order.
pub open spec fn exprs_walk(es: Seq<Expr>, f: Seq<char>, safe: bool) -> (Seq<Diag>, nat)
    decreases es,
{
    if es.len() == 0 {
        (Seq::empty(), 0)
    } else {
        let a = expr_walk(es[0], f, safe);
        let b = exprs_walk(es.subrange(1, es.len() as int), f, safe);
        (a.0 + b.0, a.1 + b.1)
    }
}

/// The walk over the blocks of `elsif` clauses.
pub open spec fn elsif_walk(cs: Seq<(Expr, Block)>, f: Seq<char>, safe: bool) -> (Seq<Diag>, nat)
    decreases cs,
{
    if cs.len() == 0 {
        (Seq::empty(), 0)
    } else {
        let a = block_walk(cs[0].1, f, safe);
        let b = elsif_walk(cs.subrange(1, cs.len() as int), f, safe);
        (a.0 + b.0, a.1 + b.1)
    }
}

/// The walk over `match` arm bodies.
pub open spec fn arms_walk(arms: Seq<MatchArm>, f: Seq<char>, safe: bool) -> (Seq<Diag>, nat)
    decreases arms,
{
    if arms.len() == 0 {
        (Seq::empty(), 0)
    } else {
        let a = block_walk(arms[0].body, f, safe);
        let b = arms_walk(arms.subrange(1, arms.len() as int), f, safe);
        (a.0 + b.0, a.1 + b.1)
    }
}

/// The walk over a block: its statements, then its tail.
pub open spec fn block_walk(b: Block, f: Seq<char>, safe: bool) -> (Seq<Diag>, nat)
    decreases b,
{
    let a = stmts_walk(b.stmts@, f, safe);
    let t = match b.tail_expr {
        Some(x) => expr_walk(*x, f, safe),
        None => (Seq::empty(), 0),
    };
    (a.0 + t.0, a.1 + t.1)
}

/// The walk over statements.
pub open spec fn stmts_walk(ss: Seq<Stmt>, f: Seq<char>, safe: bool) -> (Seq<Diag>, nat)
    decreases ss,
{
    if ss.len() == 0 {
        (Seq::empty(), 0)
    } else {
        let a = stmt_walk(ss[0], f, safe);
        let b = stmts_walk(ss.subrange(1, ss.len() as int), f, safe);
        (a.0 + b.0, a.1 + b.1)
    }
}

/// The walk over a statement: `var` and `raise` are violations in safe
/// scope; `yield`/`next` values, loop bodies and expression statements are
/// entered; nothing else is.
pub open spec fn stmt_walk(s: Stmt, f: Seq<char>, safe: bool) -> (Seq<Diag>, nat)
    decreases s,
{
    match s {
        Stmt::Var(_) => (if safe { seq![Diag::Safe(var_msg(f))] } else { Seq::empty() }, 0),
        Stmt::Raise { .. } => (if safe { seq![Diag::Safe(raise_msg(f))] } else { Seq::empty() }, 0),
        Stmt::Yield { value } => match value {
            Some(v) => expr_walk(v, f, safe),
            None => (Seq::empty(), 0),
        },
        Stmt::Next { value } => match value {
            Some(v) => expr_walk(v, f, safe),
            None => (Seq::empty(), 0),
        },
        Stmt::While { body, .. } => block_walk(body, f, safe),
        Stmt::For { body, .. } => block_walk(body, f, safe),
        Stmt::Loop { body, .. } => block_walk(body, f, safe),
        Stmt::Expr(e) => expr_walk(e, f, safe),
        _ => (Seq::empty(), 0),
    }
}

// ---------------------------------------------------------------------------
// Functions and items
// ---------------------------------------------------------------------------

/// Whether any `@caps(...)` of the annotations lists the wildcard.
pub open spec fn uses_wildcard(anns: Seq<Annotation>) -> bool {
    caps_names(anns).contains("*"@)
}

/// The diagnostics of one function, in order: its annotations, the safe
/// wildcard and `main` rules, its signature (for `fn`), then its body (whose
/// violations count only in safe scope: a safe module or a `fn`).
pub open spec fn fn_diags(f: FnDef, module_safe: bool) -> Seq<Diag> {
    let wild = if uses_wildcard(f.annotations@) && f.mode == FnMode::Safe {
        seq![Diag::Annotation(wildcard_msg(f.name@))]
    } else {
        Seq::empty()
    };
    let main = if f.name@ == "main"@ && !has_caps(f.annotations@) {
        seq![Diag::Annotation(main_caps_msg())]
    } else {
        Seq::empty()
    };
    anns_diags(f.name@, f.annotations@, false) + wild + main + signature_diags(f)
        + block_walk(f.body, f.name@, module_safe || f.mode == FnMode::Safe).0
}

/// Whether annotations include `@dynamic`.
pub open spec fn has_dynamic(anns: Seq<Annotation>) -> bool {
    exists|i: int| 0 <= i < anns.len() && #[trigger] anns[i] is Dynamic
}

/// Whether annotations include `@nonsendable`.
pub open spec fn has_nonsendable(anns: Seq<Annotation>) -> bool {
    exists|i: int| 0 <= i < anns.len() && #[trigger] anns[i] is NonSendable
}

/// The `@nonsendable` struct names of the module tree.
pub open spec fn nonsendable_names(items: Seq<Item>) -> Set<Seq<char>>
    decreases items,
{
    if items.len() == 0 {
        Set::empty()
    } else {
        let head = match items[0] {
            Item::Struct(s) => if has_nonsendable(s.annotations@) { set![s.name@] } else { Set::empty() },
            Item::Module(m) => nonsendable_names(m.items@),
            _ => Set::empty(),
        };
        head.union(nonsendable_names(items.subrange(1, items.len() as int)))
    }
}

/// The names of `ns` that a type mentions as the last segment of a path.
pub open spec fn type_ns(t: TypeExpr, ns: Set<Seq<char>>) -> Set<Seq<char>>
    decreases t,
{
    match t {
        TypeExpr::Named { path, args } => {
            let own = if path@.len() > 0 && ns.contains(path@.last()@) { set![path@.last()@] } else { Set::empty() };
            own.union(types_ns(args@, ns))
        },
        TypeExpr::Fn { params, ret } => types_ns(params@, ns).union(type_ns(*ret, ns)),
        TypeExpr::Tuple { elements } => types_ns(elements@, ns),
        TypeExpr::Ref { inner, .. } => type_ns(*inner, ns),
        TypeExpr::Dyn { trait_ty } => type_ns(*trait_ty, ns),
    }
}

/// The names of `ns` that any of the types mentions.
pub open spec fn types_ns(ts: Seq<TypeExpr>, ns: Set<Seq<char>>) -> Set<Seq<char>>
    decreases ts,
{
    if ts.len() == 0 {
        Set::empty()
    } else {
        type_ns(ts[0], ns).union(types_ns(ts.subrange(1, ts.len() as int), ns))
    }
}

pub open spec fn nonsendable_msg(name: Seq<char>, actor: Seq<char>, kind: Seq<char>, b: Seq<char>, p: Seq<char>) -> Seq<char> {
    "@nonsendable type `"@ + name + "` cannot cross actor `"@ + actor + "` "@ + kind + " `"@ + b
        + "` via parameter `"@ + p + "`"@
}

/// One error per (typed parameter, non-sendable name it mentions, in name
/// order) of a protocol or handler.
pub open spec fn params_ns(actor: Seq<char>, kind: Seq<char>, b: Seq<char>, ps: Seq<Param>, ns: Set<Seq<char>>) -> Seq<Diag>
    decreases ps.len(),
{
    if ps.len() == 0 {
        Seq::empty()
    } else {
        let head = match ps[0].ty {
            Some(t) => sorted_of(type_ns(t, ns)).map_values(|n: Seq<char>|
                Diag::Annotation(nonsendable_msg(n, actor, kind, b, ps[0].name@))),
            None => Seq::empty(),
        };
        head + params_ns(actor, kind, b, ps.subrange(1, ps.len() as int), ns)
    }
}

/// The non-sendable crossings of an actor's protocols and handlers.
pub open spec fn actor_diags(members: Seq<ActorMember>, actor: Seq<char>, ns: Set<Seq<char>>) -> Seq<Diag>
    decreases members.len(),
{
    if members.len() == 0 {
        Seq::empty()
    } else {
        let head = match members[0] {
            ActorMember::Protocol(p) => params_ns(actor, "protocol"@, p.name@, p.params@, ns),
            ActorMember::Handler(h) => params_ns(actor, "handler"@, h.name@, h.params@, ns),
            _ => Seq::empty(),
        };
        head + actor_diags(members.subrange(1, members.len() as int), actor, ns)
    }
}

pub open spec fn dynamic_impl_msg() -> Seq<char> {
    "@dynamic impl blocks are not permitted in @safe modules; use static trait dispatch"@
}

pub open spec fn dynamic_struct_msg(name: Seq<char>) -> Seq<char> {
    "@dynamic struct '"@ + name + "' is not permitted in @safe modules; use trait + dyn Trait"@
}

/// The diagnostics of impl methods.
pub open spec fn methods_diags(ms: Seq<FnDef>, module_safe: bool) -> Seq<Diag>
    decreases ms.len(),
{
    if ms.len() == 0 {
        Seq::empty()
    } else {
        fn_diags(ms[0], module_safe) + methods_diags(ms.subrange(1, ms.len() as int), module_safe)
    }
}

/// The diagnostics of one item.
pub open spec fn item_diags(it: Item, module_safe: bool, ns: Set<Seq<char>>) -> Seq<Diag>
    decreases it,
{
    match it {
        Item::Fn(f) => fn_diags(f, module_safe),
        Item::Module(m) => items_diags(m.items@, module_safe || m.safe, ns),
        Item::Impl(b) => {
            let dynamic = if module_safe && has_dynamic(b.annotations@) {
                seq![Diag::Annotation(dynamic_impl_msg())]
            } else {
                Seq::empty()
            };
            dynamic + methods_diags(b.methods@, module_safe)
        },
        Item::Struct(s) => if module_safe && has_dynamic(s.annotations@) {
            seq![Diag::Annotation(dynamic_struct_msg(s.name@))]
        } else {
            Seq::empty()
        },
        Item::Actor(a) => actor_diags(a.items@, a.name@, ns),
        _ => Seq::empty(),
    }
}

/// The diagnostics of the items of a module tree, in source order.
pub open spec fn items_diags(items: Seq<Item>, module_safe: bool, ns: Set<Seq<char>>) -> Seq<Diag>
    decreases items,
{
    if items.len() == 0 {
        Seq::empty()
    } else {
        item_diags(items[0], module_safe, ns) + items_diags(items.subrange(1, items.len() as int), module_safe, ns)
    }
}

/// The functions of one item with their modes.
pub open spec fn item_modes(it: Item) -> Seq<(String, FnMode)>
    decreases it,
{
    match it {
        Item::Fn(f) => seq![(f.name, f.mode)],
        Item::Module(m) => mode_map_of(m.items@),
        Item::Impl(b) => b.methods@.map_values(|m: FnDef| (m.name, m.mode)),
        _ => Seq::empty(),
    }
}

/// The functions of the module tree (impl methods included) with their
/// modes, in source order.
pub open spec fn mode_map_of(items: Seq<Item>) -> Seq<(String, FnMode)>
    decreases items,
{
    if items.len() == 0 {
        Seq::empty()
    } else {
        item_modes(items[0]) + mode_map_of(items.subrange(1, items.len() as int))
    }
}

/// The functions that carry a `@caps(...)`, with all the names declared.
pub open spec fn fn_caps_of_fns(fs: Seq<FnDef>) -> Seq<(Seq<char>, Seq<Seq<char>>)>
    decreases fs.len(),
{
    if fs.len() == 0 {
        Seq::empty()
    } else {
        let head = if has_caps(fs[0].annotations@) {
            seq![(fs[0].name@, caps_names(fs[0].annotations@))]
        } else {
            Seq::empty()
        };
        head + fn_caps_of_fns(fs.subrange(1, fs.len() as int))
    }
}

/// The functions of one item.
pub open spec fn item_fns(it: Item) -> Seq<FnDef>
    decreases it,
{
    match it {
        Item::Fn(f) => seq![f],
        Item::Module(m) => all_fns(m.items@),
        Item::Impl(b) => b.methods@,
        _ => Seq::empty(),
    }
}

/// The functions of the module tree in source order.
pub open spec fn all_fns(items: Seq<Item>) -> Seq<FnDef>
    decreases items,
{
    if items.len() == 0 {
        Seq::empty()
    } else {
        item_fns(items[0]) + all_fns(items.subrange(1, items.len() as int))
    }
}

/// The number of call sites the body walks pass.
pub open spec fn calls_of_fns(fs: Seq<FnDef>) -> nat
    decreases fs.len(),
{
    if fs.len() == 0 {
        0
    } else {
        block_walk(fs[0].body, fs[0].name@, false).1 + calls_of_fns(fs.subrange(1, fs.len() as int))
    }
}

/// A count that stops at `usize::MAX`.
pub open spec fn capped(n: int) -> nat {
    if n > usize::MAX { usize::MAX as nat } else if n < 0 { 0 } else { n as nat }
}

/// The captured capability lists, as names.
pub open spec fn fn_caps_view(v: Seq<(String, Vec<String>)>) -> Seq<(Seq<char>, Seq<Seq<char>>)> {
    v.map_values(|e: (String, Vec<String>)| (e.0@, seg_views(e.1@)))
}

/// The call sites the body walks of one item pass.
pub open spec fn item_calls(it: Item, module_safe: bool) -> nat
    decreases it,
{
    match it {
        Item::Fn(f) => block_walk(f.body, f.name@, module_safe || f.mode == FnMode::Safe).1,
        Item::Module(m) => items_calls(m.items@, module_safe || m.safe),
        Item::Impl(b) => methods_calls(b.methods@, module_safe),
        _ => 0,
    }
}

/// The call sites the body walks of the items pass, each function walked in
/// its scope.
pub open spec fn items_calls(items: Seq<Item>, module_safe: bool) -> nat
    decreases items,
{
    if items.len() == 0 {
        0
    } else {
        item_calls(items[0], module_safe) + items_calls(items.subrange(1, items.len() as int), module_safe)
    }
}

/// The call sites the body walks of impl methods pass.
pub open spec fn methods_calls(ms: Seq<FnDef>, module_safe: bool) -> nat
    decreases ms.len(),
{
    if ms.len() == 0 {
        0
    } else {
        block_walk(ms[0].body, ms[0].name@, module_safe || ms[0].mode == FnMode::Safe).1
            + methods_calls(ms.subrange(1, ms.len() as int), module_safe)
    }
}

// ---------------------------------------------------------------------------
// Executable checks
// ---------------------------------------------------------------------------

/// Appends a diagnostic.
fn report_diag(report: &mut CheckReport, safe: bool, m: String)
    ensures
        final(report).mode_map == old(report).mode_map,
        final(report).fn_caps == old(report).fn_caps,
        final(report).boundary_call_sites == old(report).boundary_call_sites,
        diags_of(final(report).errors@) == diags_of(old(report).errors@).push(
            Some(if safe { Diag::Safe(m@) } else { Diag::Annotation(m@) }),
        ),
{
    let ghost e0 = report.errors@;
    if safe {
        report.errors.push(CheckError::SafeModeViolation(m));
    } else {
        report.errors.push(CheckError::AnnotationError(m));
    }
    assert(diags_of(report.errors@) =~= diags_of(e0).push(
        Some(if safe { Diag::Safe(m@) } else { Diag::Annotation(m@) }),
    ));
}

/// `a + b + c + d + e` as a string.
fn cat5(a: &str, b: &str, c: &str, d: &str, e: &str) -> (r: String)
    ensures
        r@ == a@ + b@ + c@ + d@ + e@,
{
    let mut m = String::from_str(a);
    m.append(b);
    m.append(c);
    m.append(d);
    m.append(e);
    m
}

/// `ann on 'f' must be in range, got n`.
fn range_message(ann: &str, f: &str, range: &str, n: i64) -> (r: String)
    ensures
        r@ == range_msg(ann@, f@, range@, n),
{
    let mut m = cat5(ann, " on '", f, "' must be in ", range);
    m.append(", got ");
    push_signed_decimal_wide(&mut m, n);
    proof {
        reveal_strlit(" on '");
        reveal_strlit("' must be in ");
        reveal_strlit(", got ");
    }
    m
}

/// Whether `s` is among the strings of `v`.
fn has_str(v: &Vec<String>, s: &str) -> (r: bool)
    ensures
        r == seg_views(v@).contains(s@),
{
    let mut i: usize = 0;
    while i < v.len()
        invariant
            i <= v@.len(),
            forall|k: int| 0 <= k < i ==> v@[k]@ != s@,
        decreases v@.len() - i,
    {
        if str_eq(v[i].as_str(), s) {
            assert(seg_views(v@)[i as int] == s@);
            return true;
        }
        i = i + 1;
    }
    proof {
        if seg_views(v@).contains(s@) {
            let k = choose|k: int| 0 <= k < seg_views(v@).len() && seg_views(v@)[k] == s@;
            assert(v@[k]@ == s@);
        }
    }
    false
}

/// Whether a capability name is one `@caps(...)` may list.
fn is_known_cap(c: &str) -> (r: bool)
    ensures
        r == known_cap(c@),
{
    proof {
        reveal_strlit("fs");
        reveal_strlit("net");
        reveal_strlit("net_internal");
        reveal_strlit("time");
        reveal_strlit("proc");
        reveal_strlit("ffi");
        reveal_strlit("*");
        reveal_strlit("env");
    }
    str_eq(c, "fs") || str_eq(c, "net") || str_eq(c, "net_internal") || str_eq(c, "time") || str_eq(c, "proc")
        || str_eq(c, "ffi") || str_eq(c, "*") || str_eq(c, "env")
}

/// Reporting distributes over concatenation.
proof fn lemma_reported_concat(a: Seq<Diag>, b: Seq<Diag>)
    ensures
        as_reported(a + b) == as_reported(a) + as_reported(b),
{
    assert(as_reported(a + b) =~= as_reported(a) + as_reported(b));
}

/// Checks the annotations of function `f`; returns whether it carries a
/// `@caps(...)` and all the names declared.
fn check_annotations(f: &str, anns: &Vec<Annotation>, report: &mut CheckReport) -> (r: (bool, Vec<String>))
    ensures
        final(report).mode_map == old(report).mode_map,
        final(report).fn_caps == old(report).fn_caps,
        final(report).boundary_call_sites == old(report).boundary_call_sites,
        diags_of(final(report).errors@) == diags_of(old(report).errors@) + as_reported(anns_diags(f@, anns@, false)),
        r.0 == has_caps(anns@),
        seg_views(r.1@) == caps_names(anns@),
{
    let ghost d0 = diags_of(report.errors@);
    let mut seen = false;
    let mut names: Vec<String> = Vec::new();
    let mut i: usize = 0;
    assert(anns@.subrange(0, anns@.len() as int) =~= anns@);
    assert(seg_views(names@) =~= Seq::<Seq<char>>::empty());
    assert(d0 + as_reported(anns_diags(f@, anns@, false)) =~= diags_of(report.errors@) + as_reported(anns_diags(f@, anns@.subrange(0, anns@.len() as int), seen)));
    while i < anns.len()
        invariant
            i <= anns@.len(),
            report.mode_map == old(report).mode_map,
            report.fn_caps == old(report).fn_caps,
            report.boundary_call_sites == old(report).boundary_call_sites,
            d0 == diags_of(old(report).errors@),
            d0 + as_reported(anns_diags(f@, anns@, false))
                == diags_of(report.errors@) + as_reported(anns_diags(f@, anns@.subrange(i as int, anns@.len() as int), seen)),
            seen == (exists|k: int| 0 <= k < i && #[trigger] anns@[k] is Caps),
            caps_names(anns@) == seg_views(names@) + caps_names(anns@.subrange(i as int, anns@.len() as int)),
        decreases anns@.len() - i,
    {
        let ghost rest = anns@.subrange(i as int, anns@.len() as int);
        assert(rest[0] == anns@[i as int]);
        assert(rest.subrange(1, rest.len() as int) =~= anns@.subrange(i as int + 1, anns@.len() as int));
        let ghost before = diags_of(report.errors@);
        let ghost n0 = seg_views(names@);
        let ghost seen0 = seen;
        let ghost own = ann_diags(f@, anns@[i as int], seen0);
        let ghost head_names: Seq<Seq<char>> = match anns@[i as int] {
            Annotation::Caps(cs) => seg_views(cs@),
            _ => Seq::empty(),
        };
        match &anns[i] {
            Annotation::MaxDepth(n) => {
                proof { reveal_strlit("@max_depth"); reveal_strlit("1..=64"); }
                if *n <= 0 || *n > 64 {
                    let m = range_message("@max_depth", f, "1..=64", *n);
                    report_diag(report, false, m);
                }
            },
            Annotation::FanOut(n) => {
                proof { reveal_strlit("@fan_out"); reveal_strlit("1..=1024"); }
                if *n <= 0 || *n > 1024 {
                    let m = range_message("@fan_out", f, "1..=1024", *n);
                    report_diag(report, false, m);
                }
            },
            Annotation::Mailbox(n) => {
                proof { reveal_strlit("@mailbox"); reveal_strlit("1..=1048576"); }
                if *n <= 0 || *n > 1048576 {
                    let m = range_message("@mailbox", f, "1..=1048576", *n);
                    report_diag(report, false, m);
                }
            },
            Annotation::Bounded(n) => {
                if *n <= 0 {
                    let mut m = String::from_str("@bounded on '");
                    m.append(f);
                    m.append("' must declare a positive fuel budget, got ");
                    push_signed_decimal_wide(&mut m, *n);
                    proof {
                        reveal_strlit("@bounded on '");
                        reveal_strlit("' must declare a positive fuel budget, got ");
                    }
                    report_diag(report, false, m);
                }
            },
            Annotation::Caps(cs) => {
                let ghost multi: Seq<Diag> = if seen { seq![Diag::Annotation(multiple_caps_msg(f@))] } else { Seq::empty() };
                if seen {
                    let mut m = String::from_str("function '");
                    m.append(f);
                    m.append("' has multiple @caps(...) annotations; merge them");
                    proof {
                        reveal_strlit("function '");
                        reveal_strlit("' has multiple @caps(...) annotations; merge them");
                    }
                    report_diag(report, false, m);
                }
                assert(diags_of(report.errors@) =~= before + as_reported(multi));
                let ghost mid = diags_of(report.errors@);
                let mut j: usize = 0;
                let ghost cv = seg_views(cs@);
                let ghost mut done: Seq<Diag> = Seq::empty();
                assert(cv.subrange(0, cv.len() as int) =~= cv);
                assert(mid + as_reported(done) =~= mid);
                assert(seg_views(names@) =~= n0 + cv.subrange(0, 0));
                while j < cs.len()
                    invariant
                        j <= cs@.len(),
                        cv == seg_views(cs@),
                        report.mode_map == old(report).mode_map,
                        report.fn_caps == old(report).fn_caps,
                        report.boundary_call_sites == old(report).boundary_call_sites,
                        diags_of(report.errors@) == mid + as_reported(done),
                        unknown_caps(f@, cv) == done + unknown_caps(f@, cv.subrange(j as int, cv.len() as int)),
                        seg_views(names@) == n0 + cv.subrange(0, j as int),
                    decreases cs@.len() - j,
                {
                    let ghost r2 = cv.subrange(j as int, cv.len() as int);
                    assert(r2[0] == cv[j as int]);
                    assert(cv[j as int] == cs@[j as int]@);
                    assert(r2.subrange(1, r2.len() as int) =~= cv.subrange(j as int + 1, cv.len() as int));
                    if !is_known_cap(cs[j].as_str()) {
                        let mut m = String::from_str("function '");
                        m.append(f);
                        m.append("' declares unknown capability '");
                        m.append(cs[j].as_str());
                        m.append("'; known caps: fs, net, net_internal, time, proc, env, ffi, *");
                        proof {
                            reveal_strlit("function '");
                            reveal_strlit("' declares unknown capability '");
                            reveal_strlit("'; known caps: fs, net, net_internal, time, proc, env, ffi, *");
                        }
                        report_diag(report, false, m);
                        proof {
                            lemma_reported_concat(done, seq![Diag::Annotation(unknown_cap_msg(f@, cv[j as int]))]);
                            assert(as_reported(seq![Diag::Annotation(unknown_cap_msg(f@, cv[j as int]))]) =~= seq![Some(Diag::Annotation(unknown_cap_msg(f@, cv[j as int])))]);
                            assert(done + (seq![Diag::Annotation(unknown_cap_msg(f@, cv[j as int]))] + unknown_caps(f@, cv.subrange(j as int + 1, cv.len() as int)))
                                =~= done.push(Diag::Annotation(unknown_cap_msg(f@, cv[j as int]))) + unknown_caps(f@, cv.subrange(j as int + 1, cv.len() as int)));
                            done = done.push(Diag::Annotation(unknown_cap_msg(f@, cv[j as int])));
                        }
                    } else {
                        assert(done + unknown_caps(f@, r2) =~= done + unknown_caps(f@, cv.subrange(j as int + 1, cv.len() as int)));
                    }
                    let ghost nm = names@;
                    names.push(cs[j].clone());
                    assert(seg_views(names@) =~= n0 + cv.subrange(0, j as int + 1)) by {
                        assert(seg_views(names@) =~= seg_views(nm).push(cv[j as int]));
                    }
                    j = j + 1;
                }
                assert(cv.subrange(j as int, cv.len() as int) =~= Seq::<Seq<char>>::empty());
                assert(done + unknown_caps(f@, Seq::<Seq<char>>::empty()) =~= done);
                assert(cv.subrange(0, j as int) =~= cv);
                proof {
                    lemma_reported_concat(multi, done);
                }
                assert(diags_of(report.errors@) =~= before + as_reported(own));
                seen = true;
            },
            _ => {},
        }
        proof {
            if !(anns@[i as int] is Caps) {
                assert(seg_views(names@) =~= n0 + head_names);
            }
            assert(diags_of(report.errors@) =~= before + as_reported(own));
            assert(seg_views(names@) =~= n0 + head_names);
            let tail = anns_diags(f@, anns@.subrange(i as int + 1, anns@.len() as int), seen);
            assert(anns_diags(f@, rest, seen0) == own + tail);
            lemma_reported_concat(own, tail);
            assert(before + as_reported(own + tail) =~= diags_of(report.errors@) + as_reported(tail));
            assert(caps_names(rest) == head_names + caps_names(anns@.subrange(i as int + 1, anns@.len() as int)));
            assert(n0 + (head_names + caps_names(anns@.subrange(i as int + 1, anns@.len() as int)))
                =~= seg_views(names@) + caps_names(anns@.subrange(i as int + 1, anns@.len() as int)));
            if seen {
                if !seen0 {
                    assert(anns@[i as int] is Caps);
                }
            } else {
                assert forall|k: int| 0 <= k < i + 1 implies !(#[trigger] anns@[k] is Caps) by {
                    if k < i {
                    } else {
                        assert(!(anns@[i as int] is Caps));
                    }
                }
            }
        }
        i = i + 1;
    }
    proof {
        assert(anns@.subrange(i as int, anns@.len() as int) =~= Seq::<Annotation>::empty());
        assert(diags_of(report.errors@) + as_reported(Seq::<Diag>::empty()) =~= diags_of(report.errors@));
        assert(seg_views(names@) + Seq::<Seq<char>>::empty() =~= seg_views(names@));
        if seen {
            let k = choose|k: int| 0 <= k < i && #[trigger] anns@[k] is Caps;
            assert(has_caps(anns@));
        }
    }
    (seen, names)
}

// ---------------------------------------------------------------------------
// The body walk, executable
// ---------------------------------------------------------------------------

/// Counts one call site (the count stops at `usize::MAX`).
fn bump(report: &mut CheckReport)
    ensures
        final(report).mode_map == old(report).mode_map,
        final(report).fn_caps == old(report).fn_caps,
        final(report).errors == old(report).errors,
        final(report).boundary_call_sites == capped(old(report).boundary_call_sites + 1),
{
    if report.boundary_call_sites < usize::MAX {
        report.boundary_call_sites = report.boundary_call_sites + 1;
    }
}

/// A violation message `safe function 'f'<tail>`.
fn safe_fn_message(f: &str, tail: &str) -> (r: String)
    ensures
        r@ == "safe function '"@ + f@ + tail@,
{
    let mut m = String::from_str("safe function '");
    m.append(f);
    m.append(tail);
    proof { reveal_strlit("safe function '"); }
    m
}

/// The walk over an expression (see `expr_walk`).
fn walk_expr(e: &Expr, f: &str, safe: bool, report: &mut CheckReport)
    ensures
        final(report).mode_map == old(report).mode_map,
        final(report).fn_caps == old(report).fn_caps,
        diags_of(final(report).errors@) == diags_of(old(report).errors@) + as_reported(expr_walk(*e, f@, safe).0),
        final(report).boundary_call_sites == capped(old(report).boundary_call_sites + expr_walk(*e, f@, safe).1),
    decreases e,
{
    let ghost d0 = diags_of(report.errors@);
    let ghost b0 = report.boundary_call_sites as nat;
    match e {
        Expr::Try { .. } => {
            if safe {
                let m = safe_fn_message(f, "' uses `try`/`rescue`; use Result<T, E> and `?` instead");
                proof { reveal_strlit("' uses `try`/`rescue`; use Result<T, E> and `?` instead"); }
                report_diag(report, true, m);
                assert(diags_of(report.errors@) =~= d0 + as_reported(seq![Diag::Safe(try_msg(f@))]));
            } else {
                assert(diags_of(report.errors@) =~= d0 + as_reported(Seq::<Diag>::empty()));
            }
        },
        Expr::If { then_block, elsif_clauses, else_block, .. } => {
            let ghost a = block_walk(*then_block, f@, safe);
            let ghost b = elsif_walk(elsif_clauses@, f@, safe);
            walk_block(then_block, f, safe, report);
            walk_elsifs(elsif_clauses, f, safe, report);
            let ghost c: (Seq<Diag>, nat) = match else_block {
                Some(bl) => block_walk(*bl, f@, safe),
                None => (Seq::empty(), 0),
            };
            match else_block {
                Some(bl) => walk_block(bl, f, safe, report),
                None => {},
            }
            proof {
                lemma_reported_concat(a.0, b.0);
                lemma_reported_concat(a.0 + b.0, c.0);
                assert(diags_of(report.errors@) =~= d0 + as_reported(a.0 + b.0 + c.0));
            }
        },
        Expr::Match { arms, .. } => walk_arms(arms, f, safe, report),
        Expr::Binary { lhs, rhs, .. } => {
            let ghost a = expr_walk(**lhs, f@, safe);
            let ghost b = expr_walk(**rhs, f@, safe);
            walk_expr(lhs, f, safe, report);
            walk_expr(rhs, f, safe, report);
            proof {
                lemma_reported_concat(a.0, b.0);
                assert(diags_of(report.errors@) =~= d0 + as_reported(a.0 + b.0));
            }
        },
        Expr::Call { callee, args } => {
            let ghost a = expr_walk(**callee, f@, safe);
            let ghost b = exprs_walk(args@, f@, safe);
            walk_expr(callee, f, safe, report);
            walk_exprs(args, f, safe, report);
            bump(report);
            proof {
                lemma_reported_concat(a.0, b.0);
                assert(diags_of(report.errors@) =~= d0 + as_reported(a.0 + b.0));
            }
        },
        Expr::Method { receiver, args, .. } => {
            let ghost a = expr_walk(**receiver, f@, safe);
            let ghost b = exprs_walk(args@, f@, safe);
            walk_expr(receiver, f, safe, report);
            walk_exprs(args, f, safe, report);
            bump(report);
            proof {
                lemma_reported_concat(a.0, b.0);
                assert(diags_of(report.errors@) =~= d0 + as_reported(a.0 + b.0));
            }
        },
        _ => {
            assert(diags_of(report.errors@) =~= d0 + as_reported(Seq::<Diag>::empty()));
        },
    }
}

/// The walk over a list (see `exprs_walk`).
fn walk_exprs(es: &Vec<Expr>, f: &str, safe: bool, report: &mut CheckReport)
    ensures
        final(report).mode_map == old(report).mode_map,
        final(report).fn_caps == old(report).fn_caps,
        diags_of(final(report).errors@) == diags_of(old(report).errors@) + as_reported(exprs_walk(es@, f@, safe).0),
        final(report).boundary_call_sites == capped(old(report).boundary_call_sites + exprs_walk(es@, f@, safe).1),
    decreases es,
{
    let ghost d0 = diags_of(report.errors@);
    let ghost b0 = report.boundary_call_sites as nat;
    let ghost all = exprs_walk(es@, f@, safe);
    let ghost mut dacc: Seq<Diag> = Seq::empty();
    let ghost mut cacc: nat = 0;
    let mut i: usize = 0;
    assert(es@.subrange(0, es@.len() as int) =~= es@);
    assert(all.0 =~= dacc + exprs_walk(es@.subrange(0, es@.len() as int), f@, safe).0);
    assert(diags_of(report.errors@) =~= d0 + as_reported(dacc));
    while i < es.len()
        invariant
            i <= es@.len(),
            report.mode_map == old(report).mode_map,
            report.fn_caps == old(report).fn_caps,
            d0 == diags_of(old(report).errors@),
            b0 == old(report).boundary_call_sites as nat,
            all == exprs_walk(es@, f@, safe),
            all.0 == dacc + exprs_walk(es@.subrange(i as int, es@.len() as int), f@, safe).0,
            all.1 == cacc + exprs_walk(es@.subrange(i as int, es@.len() as int), f@, safe).1,
            diags_of(report.errors@) == d0 + as_reported(dacc),
            report.boundary_call_sites == capped((b0 + cacc) as int),
        decreases es@.len() - i,
    {
        let ghost rest = es@.subrange(i as int, es@.len() as int);
        assert(rest[0] == es@[i as int]);
        assert(rest.subrange(1, rest.len() as int) =~= es@.subrange(i as int + 1, es@.len() as int));
        proof {
            assert(decreases_to!(*es => es@));
            assert(decreases_to!(es@ => es@[i as int]));

        }
        let ghost before = diags_of(report.errors@);
        let ghost w = expr_walk(es@[i as int], f@, safe);
        walk_expr(&es[i], f, safe, report);
        proof {
            lemma_reported_concat(dacc, w.0);
            assert(dacc + (w.0 + exprs_walk(es@.subrange(i as int + 1, es@.len() as int), f@, safe).0)
                =~= (dacc + w.0) + exprs_walk(es@.subrange(i as int + 1, es@.len() as int), f@, safe).0);
            dacc = dacc + w.0;
            cacc = cacc + w.1;
        }
        i = i + 1;
    }
    proof {
        assert(es@.subrange(i as int, es@.len() as int) =~= Seq::<Expr>::empty());
        assert(dacc + Seq::<Diag>::empty() =~= dacc);
    }
}

/// The walk over a list (see `elsif_walk`).
fn walk_elsifs(es: &Vec<(Expr, Block)>, f: &str, safe: bool, report: &mut CheckReport)
    ensures
        final(report).mode_map == old(report).mode_map,
        final(report).fn_caps == old(report).fn_caps,
        diags_of(final(report).errors@) == diags_of(old(report).errors@) + as_reported(elsif_walk(es@, f@, safe).0),
        final(report).boundary_call_sites == capped(old(report).boundary_call_sites + elsif_walk(es@, f@, safe).1),
    decreases es,
{
    let ghost d0 = diags_of(report.errors@);
    let ghost b0 = report.boundary_call_sites as nat;
    let ghost all = elsif_walk(es@, f@, safe);
    let ghost mut dacc: Seq<Diag> = Seq::empty();
    let ghost mut cacc: nat = 0;
    let mut i: usize = 0;
    assert(es@.subrange(0, es@.len() as int) =~= es@);
    assert(all.0 =~= dacc + elsif_walk(es@.subrange(0, es@.len() as int), f@, safe).0);
    assert(diags_of(report.errors@) =~= d0 + as_reported(dacc));
    while i < es.len()
        invariant
            i <= es@.len(),
            report.mode_map == old(report).mode_map,
            report.fn_caps == old(report).fn_caps,
            d0 == diags_of(old(report).errors@),
            b0 == old(report).boundary_call_sites as nat,
            all == elsif_walk(es@, f@, safe),
            all.0 == dacc + elsif_walk(es@.subrange(i as int, es@.len() as int), f@, safe).0,
            all.1 == cacc + elsif_walk(es@.subrange(i as int, es@.len() as int), f@, safe).1,
            diags_of(report.errors@) == d0 + as_reported(dacc),
            report.boundary_call_sites == capped((b0 + cacc) as int),
        decreases es@.len() - i,
    {
        let ghost rest = es@.subrange(i as int, es@.len() as int);
        assert(rest[0] == es@[i as int]);
        assert(rest.subrange(1, rest.len() as int) =~= es@.subrange(i as int + 1, es@.len() as int));
        proof {
            assert(decreases_to!(*es => es@));
            assert(decreases_to!(es@ => es@[i as int]));
            assert(decreases_to!(es@[i as int] => es@[i as int].1));
        }
        let ghost before = diags_of(report.errors@);
        let ghost w = block_walk(es@[i as int].1, f@, safe);
        walk_block(&es[i].1, f, safe, report);
        proof {
            lemma_reported_concat(dacc, w.0);
            assert(dacc + (w.0 + elsif_walk(es@.subrange(i as int + 1, es@.len() as int), f@, safe).0)
                =~= (dacc + w.0) + elsif_walk(es@.subrange(i as int + 1, es@.len() as int), f@, safe).0);
            dacc = dacc + w.0;
            cacc = cacc + w.1;
        }
        i = i + 1;
    }
    proof {
        assert(es@.subrange(i as int, es@.len() as int) =~= Seq::<(Expr, Block)>::empty());
        assert(dacc + Seq::<Diag>::empty() =~= dacc);
    }
}

/// The walk over a list (see `arms_walk`).
fn walk_arms(es: &Vec<MatchArm>, f: &str, safe: bool, report: &mut CheckReport)
    ensures
        final(report).mode_map == old(report).mode_map,
        final(report).fn_caps == old(report).fn_caps,
        diags_of(final(report).errors@) == diags_of(old(report).errors@) + as_reported(arms_walk(es@, f@, safe).0),
        final(report).boundary_call_sites == capped(old(report).boundary_call_sites + arms_walk(es@, f@, safe).1),
    decreases es,
{
    let ghost d0 = diags_of(report.errors@);
    let ghost b0 = report.boundary_call_sites as nat;
    let ghost all = arms_walk(es@, f@, safe);
    let ghost mut dacc: Seq<Diag> = Seq::empty();
    let ghost mut cacc: nat = 0;
    let mut i: usize = 0;
    assert(es@.subrange(0, es@.len() as int) =~= es@);
    assert(all.0 =~= dacc + arms_walk(es@.subrange(0, es@.len() as int), f@, safe).0);
    assert(diags_of(report.errors@) =~= d0 + as_reported(dacc));
    while i < es.len()
        invariant
            i <= es@.len(),
            report.mode_map == old(report).mode_map,
            report.fn_caps == old(report).fn_caps,
            d0 == diags_of(old(report).errors@),
            b0 == old(report).boundary_call_sites as nat,
            all == arms_walk(es@, f@, safe),
            all.0 == dacc + arms_walk(es@.subrange(i as int, es@.len() as int), f@, safe).0,
            all.1 == cacc + arms_walk(es@.subrange(i as int, es@.len() as int), f@, safe).1,
            diags_of(report.errors@) == d0 + as_reported(dacc),
            report.boundary_call_sites == capped((b0 + cacc) as int),
        decreases es@.len() - i,
    {
        let ghost rest = es@.subrange(i as int, es@.len() as int);
        assert(rest[0] == es@[i as int]);
        assert(rest.subrange(1, rest.len() as int) =~= es@.subrange(i as int + 1, es@.len() as int));
        proof {
            assert(decreases_to!(*es => es@));
            assert(decreases_to!(es@ => es@[i as int]));
            assert(decreases_to!(es@[i as int] => es@[i as int].body));
        }
        let ghost before = diags_of(report.errors@);
        let ghost w = block_walk(es@[i as int].body, f@, safe);
        walk_block(&es[i].body, f, safe, report);
        proof {
            lemma_reported_concat(dacc, w.0);
            assert(dacc + (w.0 + arms_walk(es@.subrange(i as int + 1, es@.len() as int), f@, safe).0)
                =~= (dacc + w.0) + arms_walk(es@.subrange(i as int + 1, es@.len() as int), f@, safe).0);
            dacc = dacc + w.0;
            cacc = cacc + w.1;
        }
        i = i + 1;
    }
    proof {
        assert(es@.subrange(i as int, es@.len() as int) =~= Seq::<MatchArm>::empty());
        assert(dacc + Seq::<Diag>::empty() =~= dacc);
    }
}

/// The walk over a list (see `stmts_walk`).
fn walk_stmts(es: &Vec<Stmt>, f: &str, safe: bool, report: &mut CheckReport)
    ensures
        final(report).mode_map == old(report).mode_map,
        final(report).fn_caps == old(report).fn_caps,
        diags_of(final(report).errors@) == diags_of(old(report).errors@) + as_reported(stmts_walk(es@, f@, safe).0),
        final(report).boundary_call_sites == capped(old(report).boundary_call_sites + stmts_walk(es@, f@, safe).1),
    decreases es,
{
    let ghost d0 = diags_of(report.errors@);
    let ghost b0 = report.boundary_call_sites as nat;
    let ghost all = stmts_walk(es@, f@, safe);
    let ghost mut dacc: Seq<Diag> = Seq::empty();
    let ghost mut cacc: nat = 0;
    let mut i: usize = 0;
    assert(es@.subrange(0, es@.len() as int) =~= es@);
    assert(all.0 =~= dacc + stmts_walk(es@.subrange(0, es@.len() as int), f@, safe).0);
    assert(diags_of(report.errors@) =~= d0 + as_reported(dacc));
    while i < es.len()
        invariant
            i <= es@.len(),
            report.mode_map == old(report).mode_map,
            report.fn_caps == old(report).fn_caps,
            d0 == diags_of(old(report).errors@),
            b0 == old(report).boundary_call_sites as nat,
            all == stmts_walk(es@, f@, safe),
            all.0 == dacc + stmts_walk(es@.subrange(i as int, es@.len() as int), f@, safe).0,
            all.1 == cacc + stmts_walk(es@.subrange(i as int, es@.len() as int), f@, safe).1,
            diags_of(report.errors@) == d0 + as_reported(dacc),
            report.boundary_call_sites == capped((b0 + cacc) as int),
        decreases es@.len() - i,
    {
        let ghost rest = es@.subrange(i as int, es@.len() as int);
        assert(rest[0] == es@[i as int]);
        assert(rest.subrange(1, rest.len() as int) =~= es@.subrange(i as int + 1, es@.len() as int));
        proof {
            assert(decreases_to!(*es => es@));
            assert(decreases_to!(es@ => es@[i as int]));

        }
        let ghost before = diags_of(report.errors@);
        let ghost w = stmt_walk(es@[i as int], f@, safe);
        walk_stmt(&es[i], f, safe, report);
        proof {
            lemma_reported_concat(dacc, w.0);
            assert(dacc + (w.0 + stmts_walk(es@.subrange(i as int + 1, es@.len() as int), f@, safe).0)
                =~= (dacc + w.0) + stmts_walk(es@.subrange(i as int + 1, es@.len() as int), f@, safe).0);
            dacc = dacc + w.0;
            cacc = cacc + w.1;
        }
        i = i + 1;
    }
    proof {
        assert(es@.subrange(i as int, es@.len() as int) =~= Seq::<Stmt>::empty());
        assert(dacc + Seq::<Diag>::empty() =~= dacc);
    }
}

/// The walk over a block (see `block_walk`).
fn walk_block(b: &Block, f: &str, safe: bool, report: &mut CheckReport)
    ensures
        final(report).mode_map == old(report).mode_map,
        final(report).fn_caps == old(report).fn_caps,
        diags_of(final(report).errors@) == diags_of(old(report).errors@) + as_reported(block_walk(*b, f@, safe).0),
        final(report).boundary_call_sites == capped(old(report).boundary_call_sites + block_walk(*b, f@, safe).1),
    decreases b,
{
    let ghost d0 = diags_of(report.errors@);
    let ghost a = stmts_walk(b.stmts@, f@, safe);
    walk_stmts(&b.stmts, f, safe, report);
    let ghost t: (Seq<Diag>, nat) = if b.tail_expr is Some {
        expr_walk(*b.tail_expr->0, f@, safe)
    } else {
        (Seq::empty(), 0)
    };
    match &b.tail_expr {
        Some(x) => {
            proof {
                assert(decreases_to!(*b => b.tail_expr));
                assert(decreases_to!(b.tail_expr => b.tail_expr->0));
            }
            walk_expr(x, f, safe, report);
        },
        None => {},
    }
    proof {
        lemma_reported_concat(a.0, t.0);
        assert(diags_of(report.errors@) =~= d0 + as_reported(a.0 + t.0));
    }
}

/// The walk over a statement (see `stmt_walk`).
fn walk_stmt(s: &Stmt, f: &str, safe: bool, report: &mut CheckReport)
    ensures
        final(report).mode_map == old(report).mode_map,
        final(report).fn_caps == old(report).fn_caps,
        diags_of(final(report).errors@) == diags_of(old(report).errors@) + as_reported(stmt_walk(*s, f@, safe).0),
        final(report).boundary_call_sites == capped(old(report).boundary_call_sites + stmt_walk(*s, f@, safe).1),
    decreases s,
{
    let ghost d0 = diags_of(report.errors@);
    match s {
        Stmt::Var(_) => {
            if safe {
                let m = safe_fn_message(f, "' uses `var`; use `let mut` instead");
                proof { reveal_strlit("' uses `var`; use `let mut` instead"); }
                report_diag(report, true, m);
                assert(diags_of(report.errors@) =~= d0 + as_reported(seq![Diag::Safe(var_msg(f@))]));
            } else {
                assert(diags_of(report.errors@) =~= d0 + as_reported(Seq::<Diag>::empty()));
            }
        },
        Stmt::Raise { .. } => {
            if safe {
                let m = safe_fn_message(f, "' uses `raise`; return Result::Err(...) instead");
                proof { reveal_strlit("' uses `raise`; return Result::Err(...) instead"); }
                report_diag(report, true, m);
                assert(diags_of(report.errors@) =~= d0 + as_reported(seq![Diag::Safe(raise_msg(f@))]));
            } else {
                assert(diags_of(report.errors@) =~= d0 + as_reported(Seq::<Diag>::empty()));
            }
        },
        Stmt::Yield { value } | Stmt::Next { value } => {
            match value {
                Some(v) => {
                    proof { assert(decreases_to!(*value => value->0)); }
                    walk_expr(v, f, safe, report);
                },
                None => {
                    assert(diags_of(report.errors@) =~= d0 + as_reported(Seq::<Diag>::empty()));
                },
            }
        },
        Stmt::While { body, .. } => walk_block(body, f, safe, report),
        Stmt::For { body, .. } => walk_block(body, f, safe, report),
        Stmt::Loop { body, .. } => walk_block(body, f, safe, report),
        Stmt::Expr(x) => walk_expr(x, f, safe, report),
        _ => {
            assert(diags_of(report.errors@) =~= d0 + as_reported(Seq::<Diag>::empty()));
        },
    }
}

// ---------------------------------------------------------------------------
// Signatures, executable
// ---------------------------------------------------------------------------

/// Whether a type mentions a reference.
fn type_has_ref(t: &TypeExpr) -> (r: bool)
    ensures
        r == has_ref(*t),
    decreases t,
{
    match t {
        TypeExpr::Ref { .. } => true,
        TypeExpr::Named { args, .. } => types_have_ref(args),
        TypeExpr::Fn { params, ret } => types_have_ref(params) || type_has_ref(ret),
        TypeExpr::Tuple { elements } => types_have_ref(elements),
        TypeExpr::Dyn { trait_ty } => type_has_ref(trait_ty),
    }
}

/// Whether any of the types mentions a reference.
fn types_have_ref(ts: &Vec<TypeExpr>) -> (r: bool)
    ensures
        r == any_ref(ts@),
    decreases ts,
{
    let mut i: usize = 0;
    assert(ts@.subrange(0, ts@.len() as int) =~= ts@);
    while i < ts.len()
        invariant
            i <= ts@.len(),
            any_ref(ts@) == any_ref(ts@.subrange(i as int, ts@.len() as int)),
        decreases ts@.len() - i,
    {
        let ghost rest = ts@.subrange(i as int, ts@.len() as int);
        assert(rest[0] == ts@[i as int]);
        assert(rest.subrange(1, rest.len() as int) =~= ts@.subrange(i as int + 1, ts@.len() as int));
        proof {
            assert(decreases_to!(*ts => ts@));
            assert(decreases_to!(ts@ => ts@[i as int]));
        }
        if type_has_ref(&ts[i]) {
            return true;
        }
        i = i + 1;
    }
    false
}

/// Whether an ownership mode borrows.
fn is_borrowing(o: &Option<Ownership>) -> (r: bool)
    ensures
        r == borrowing(*o),
{
    match o {
        Some(Ownership::Borrow) | Some(Ownership::Mut) | Some(Ownership::Ref) => true,
        _ => false,
    }
}

/// Appends the signature errors of a function declared `fn`.
fn check_signature(f: &FnDef, report: &mut CheckReport)
    ensures
        final(report).mode_map == old(report).mode_map,
        final(report).fn_caps == old(report).fn_caps,
        final(report).boundary_call_sites == old(report).boundary_call_sites,
        diags_of(final(report).errors@) == diags_of(old(report).errors@) + as_reported(signature_diags(*f)),
{
    let ghost d0 = diags_of(report.errors@);
    if f.mode != FnMode::Safe {
        assert(diags_of(report.errors@) =~= d0 + as_reported(Seq::<Diag>::empty()));
        return;
    }
    let ps = &f.params;
    let ghost all = untyped_params(f.name@, ps@);
    let ghost mut dacc: Seq<Diag> = Seq::empty();
    let mut i: usize = 0;
    let mut inputs: usize = 0;
    let mut borrowed_self_seen = false;
    assert(ps@.subrange(0, ps@.len() as int) =~= ps@);
    assert(diags_of(report.errors@) =~= d0 + as_reported(dacc));
    while i < ps.len()
        invariant
            i <= ps@.len(),
            inputs <= i,
            report.mode_map == old(report).mode_map,
            report.fn_caps == old(report).fn_caps,
            report.boundary_call_sites == old(report).boundary_call_sites,
            d0 == diags_of(old(report).errors@),
            all == untyped_params(f.name@, ps@),
            all == dacc + untyped_params(f.name@, ps@.subrange(i as int, ps@.len() as int)),
            diags_of(report.errors@) == d0 + as_reported(dacc),
            lifetime_inputs(ps@) == inputs + lifetime_inputs(ps@.subrange(i as int, ps@.len() as int)),
            borrowed_self_seen == (exists|k: int| 0 <= k < i && #[trigger] borrowed_self(ps@[k])),
        decreases ps@.len() - i,
    {
        let ghost rest = ps@.subrange(i as int, ps@.len() as int);
        assert(rest[0] == ps@[i as int]);
        assert(rest.subrange(1, rest.len() as int) =~= ps@.subrange(i as int + 1, ps@.len() as int));
        let p = &ps[i];
        if p.ty.is_none() {
            let mut m = safe_fn_message(f.name.as_str(), "' parameter '");
            m.append(p.name.as_str());
            m.append("' missing type annotation");
            proof {
                reveal_strlit("' parameter '");
                reveal_strlit("' missing type annotation");
            }
            report_diag(report, true, m);
            proof {
                lemma_reported_concat(dacc, seq![Diag::Safe(untyped_param_msg(f.name@, p.name@))]);
                assert(as_reported(seq![Diag::Safe(untyped_param_msg(f.name@, p.name@))]) =~= seq![Some(Diag::Safe(untyped_param_msg(f.name@, p.name@)))]);
                assert(dacc + (seq![Diag::Safe(untyped_param_msg(f.name@, p.name@))] + untyped_params(f.name@, ps@.subrange(i as int + 1, ps@.len() as int)))
                    =~= dacc.push(Diag::Safe(untyped_param_msg(f.name@, p.name@))) + untyped_params(f.name@, ps@.subrange(i as int + 1, ps@.len() as int)));
                dacc = dacc.push(Diag::Safe(untyped_param_msg(f.name@, p.name@)));
            }
        } else {
            assert(dacc + untyped_params(f.name@, rest) =~= dacc + untyped_params(f.name@, ps@.subrange(i as int + 1, ps@.len() as int)));
        }
        let b = is_borrowing(&p.ownership);
        let c = b || match &p.ty {
            Some(t) => type_has_ref(t),
            None => false,
        };
        if c {
            inputs = inputs + 1;
        }
        proof {
            reveal_strlit("self");
        }
        if b && str_eq(p.name.as_str(), "self") {
            borrowed_self_seen = true;
        }
        proof {
            if b && p.name@ == "self"@ {
                assert(borrowed_self(ps@[i as int]));
            } else {
                assert(!borrowed_self(ps@[i as int]));
                assert forall|k: int| 0 <= k < i + 1 && #[trigger] borrowed_self(ps@[k]) implies k < i by {}
            }
        }
        i = i + 1;
    }
    proof {
        assert(ps@.subrange(i as int, ps@.len() as int) =~= Seq::<Param>::empty());
        assert(dacc + Seq::<Diag>::empty() =~= dacc);
    }
    let ghost mid = diags_of(report.errors@);
    let ghost ret: Seq<Diag> = if f.return_ty is None { seq![Diag::Safe(no_return_msg(f.name@))] } else { Seq::empty() };
    if f.return_ty.is_none() {
        let m = safe_fn_message(f.name.as_str(), "' missing return type");
        proof { reveal_strlit("' missing return type"); }
        report_diag(report, true, m);
    }
    assert(diags_of(report.errors@) =~= mid + as_reported(ret));
    let ghost mid2 = diags_of(report.errors@);
    let ghost el = elision_diags(*f);
    match &f.return_ty {
        Some(t) => {
            if type_has_ref(t) {
                if inputs == 0 {
                    let mut m = String::from_str("missing lifetime specifier: safe function '");
                    m.append(f.name.as_str());
                    m.append("' returns a reference but has no borrowed input lifetime to tie it to");
                    proof {
                        reveal_strlit("missing lifetime specifier: safe function '");
                        reveal_strlit("' returns a reference but has no borrowed input lifetime to tie it to");
                    }
                    report_diag(report, true, m);
                } else if inputs > 1 && !borrowed_self_seen {
                    let mut m = String::from_str("missing lifetime specifier: safe function '");
                    m.append(f.name.as_str());
                    m.append("' returns a reference with multiple borrowed inputs; write an explicit lifetime once lifetime syntax is enabled");
                    proof {
                        reveal_strlit("missing lifetime specifier: safe function '");
                        reveal_strlit("' returns a reference with multiple borrowed inputs; write an explicit lifetime once lifetime syntax is enabled");
                    }
                    report_diag(report, true, m);
                }
            }
        },
        None => {},
    }
    assert(diags_of(report.errors@) =~= mid2 + as_reported(el));
    proof {
        lemma_reported_concat(dacc, ret);
        lemma_reported_concat(dacc + ret, el);
        assert(diags_of(report.errors@) =~= d0 + as_reported(dacc + ret + el));
    }
}

/// Whether annotations include `@dynamic` (`dynamic`) or `@nonsendable`.
fn has_marker(anns: &Vec<Annotation>, dynamic: bool) -> (r: bool)
    ensures
        r == (if dynamic { has_dynamic(anns@) } else { has_nonsendable(anns@) }),
{
    let mut i: usize = 0;
    while i < anns.len()
        invariant
            i <= anns@.len(),
            forall|k: int| 0 <= k < i ==> !(if dynamic { #[trigger] anns@[k] is Dynamic } else { anns@[k] is NonSendable }),
        decreases anns@.len() - i,
    {
        let hit = match &anns[i] {
            Annotation::Dynamic => dynamic,
            Annotation::NonSendable => !dynamic,
            _ => false,
        };
        if hit {
            return true;
        }
        i = i + 1;
    }
    false
}

/// Checks one function: records its mode (and its capabilities, when it
/// carries a `@caps(...)`), appends its diagnostics and counts the call
/// sites its body walk passes.
pub fn check_fn(f: &FnDef, module_safe: bool, report: &mut CheckReport)
    ensures
        diags_of(final(report).errors@) == diags_of(old(report).errors@) + as_reported(fn_diags(*f, module_safe)),
        final(report).mode_map@ == old(report).mode_map@.push((f.name, f.mode)),
        fn_caps_view(final(report).fn_caps@) == fn_caps_view(old(report).fn_caps@) + (if has_caps(f.annotations@) {
            seq![(f.name@, caps_names(f.annotations@))]
        } else {
            Seq::empty()
        }),
        final(report).boundary_call_sites == capped(
            old(report).boundary_call_sites + block_walk(f.body, f.name@, module_safe || f.mode == FnMode::Safe).1,
        ),
{
    let ghost d0 = diags_of(report.errors@);
    let ghost fc0 = fn_caps_view(report.fn_caps@);
    report.mode_map.push((f.name.clone(), f.mode));
    let ghost mm = report.mode_map@;
    let name = f.name.as_str();
    let (seen, names) = check_annotations(name, &f.annotations, report);
    let ghost a = anns_diags(f.name@, f.annotations@, false);
    let ghost d1 = diags_of(report.errors@);
    proof {
        reveal_strlit("*");
        reveal_strlit("main");
    }
    let ghost wild: Seq<Diag> = if uses_wildcard(f.annotations@) && f.mode == FnMode::Safe {
        seq![Diag::Annotation(wildcard_msg(f.name@))]
    } else {
        Seq::empty()
    };
    if has_str(&names, "*") && f.mode == FnMode::Safe {
        let m = safe_fn_message(name, "' may not use @caps(*) wildcard; enumerate the specific capabilities required");
        proof { reveal_strlit("' may not use @caps(*) wildcard; enumerate the specific capabilities required"); }
        report_diag(report, false, m);
    }
    assert(diags_of(report.errors@) =~= d1 + as_reported(wild));
    let ghost d2 = diags_of(report.errors@);
    let ghost main: Seq<Diag> = if f.name@ == "main"@ && !has_caps(f.annotations@) {
        seq![Diag::Annotation(main_caps_msg())]
    } else {
        Seq::empty()
    };
    if str_eq(name, "main") && !seen {
        let m = String::from_str("`main` function must declare its required capabilities; use @caps() for purely-computational programs, or @caps(fs, net, ...) listing the OS authority required");
        proof { reveal_strlit("`main` function must declare its required capabilities; use @caps() for purely-computational programs, or @caps(fs, net, ...) listing the OS authority required"); }
        report_diag(report, false, m);
    }
    assert(diags_of(report.errors@) =~= d2 + as_reported(main));
    if seen {
        let ghost fc1 = report.fn_caps@;
        report.fn_caps.push((f.name.clone(), names));
        assert(fn_caps_view(report.fn_caps@) =~= fn_caps_view(fc1).push((f.name@, caps_names(f.annotations@))));
    }
    let ghost d3 = diags_of(report.errors@);
    check_signature(f, report);
    let ghost d4 = diags_of(report.errors@);
    let safe = module_safe || f.mode == FnMode::Safe;
    walk_block(&f.body, name, safe, report);
    proof {
        let sig = signature_diags(*f);
        let body = block_walk(f.body, f.name@, safe).0;
        lemma_reported_concat(a, wild);
        lemma_reported_concat(a + wild, main);
        lemma_reported_concat(a + wild + main, sig);
        lemma_reported_concat(a + wild + main + sig, body);
        assert(diags_of(report.errors@) =~= d0 + as_reported(a + wild + main + sig + body));
        assert(fn_caps_view(report.fn_caps@) =~= fc0 + (if has_caps(f.annotations@) {
            seq![(f.name@, caps_names(f.annotations@))]
        } else {
            Seq::empty()
        }));
    }
}

// ---------------------------------------------------------------------------
// Items, executable
// ---------------------------------------------------------------------------

/// Adds the `@nonsendable` struct names of the module tree to `out`.
pub(crate) fn collect_nonsendable(items: &Vec<Item>, out: &mut Vec<String>)
    ensures
        seg_views(final(out)@).to_set() == seg_views(old(out)@).to_set().union(nonsendable_names(items@)),
    decreases items,
{
    let ghost s0 = seg_views(out@).to_set();
    let mut i: usize = 0;
    assert(items@.subrange(0, items@.len() as int) =~= items@);
    while i < items.len()
        invariant
            i <= items@.len(),
            s0.union(nonsendable_names(items@)) == seg_views(out@).to_set().union(nonsendable_names(items@.subrange(i as int, items@.len() as int))),
        decreases items@.len() - i,
    {
        let ghost rest = items@.subrange(i as int, items@.len() as int);
        assert(rest[0] == items@[i as int]);
        assert(rest.subrange(1, rest.len() as int) =~= items@.subrange(i as int + 1, items@.len() as int));
        let ghost cur = seg_views(out@).to_set();
        let ghost tail = nonsendable_names(items@.subrange(i as int + 1, items@.len() as int));
        match &items[i] {
            Item::Struct(sd) => {
                if has_marker(&sd.annotations, false) {
                    let ghost o = seg_views(out@);
                    out.push(sd.name.clone());
                    proof {
                        assert(seg_views(out@) =~= o.push(sd.name@));
                        o.lemma_push_to_set_commute(sd.name@);
                    }
                    assert(cur.union(set![sd.name@].union(tail)) =~= seg_views(out@).to_set().union(tail));
                } else {
                    assert(cur.union(Set::<Seq<char>>::empty().union(tail)) =~= seg_views(out@).to_set().union(tail));
                }
            },
            Item::Module(m) => {
                proof {
                    assert(decreases_to!(*items => items@));
                    assert(decreases_to!(items@ => items@[i as int]));
                    assert(decreases_to!(items@[i as int] => m.items));
                }
                collect_nonsendable(&m.items, out);
                assert(cur.union(nonsendable_names(m.items@).union(tail)) =~= seg_views(out@).to_set().union(tail));
            },
            _ => {
                assert(cur.union(Set::<Seq<char>>::empty().union(tail)) =~= seg_views(out@).to_set().union(tail));
            },
        }
        i = i + 1;
    }
    assert(nonsendable_names(items@.subrange(i as int, items@.len() as int)) =~= Set::<Seq<char>>::empty());
    assert(seg_views(out@).to_set().union(Set::<Seq<char>>::empty()) =~= seg_views(out@).to_set());
}

/// Adds to the sorted `out` the names of `ns` a type mentions.
fn collect_type_ns(t: &TypeExpr, ns: &Vec<String>, out: &mut Vec<String>)
    requires
        strictly_sorted(views(old(out)@)),
    ensures
        strictly_sorted(views(final(out)@)),
        views(final(out)@).to_set() == views(old(out)@).to_set().union(type_ns(*t, seg_views(ns@).to_set())),
    decreases t,
{
    let ghost nsv = seg_views(ns@).to_set();
    let ghost o0 = views(out@).to_set();
    match t {
        TypeExpr::Named { path, args } => {
            let n = path.len();
            let ghost own: Set<Seq<char>> = if path@.len() > 0 && nsv.contains(path@.last()@) { set![path@.last()@] } else { Set::empty() };
            if n > 0 && has_str(ns, path[n - 1].as_str()) {
                insert_sorted(out, path[n - 1].clone());
            }
            assert(views(out@).to_set() =~= o0.union(own));
            let ghost o1 = views(out@).to_set();
            collect_types_ns(args, ns, out);
            assert(views(out@).to_set() =~= o0.union(own.union(types_ns(args@, nsv))));
        },
        TypeExpr::Fn { params, ret } => {
            collect_types_ns(params, ns, out);
            collect_type_ns(ret, ns, out);
            assert(views(out@).to_set() =~= o0.union(types_ns(params@, nsv).union(type_ns(**ret, nsv))));
        },
        TypeExpr::Tuple { elements } => collect_types_ns(elements, ns, out),
        TypeExpr::Ref { inner, .. } => collect_type_ns(inner, ns, out),
        TypeExpr::Dyn { trait_ty } => collect_type_ns(trait_ty, ns, out),
    }
}

/// Adds to the sorted `out` the names of `ns` the types mention.
fn collect_types_ns(ts: &Vec<TypeExpr>, ns: &Vec<String>, out: &mut Vec<String>)
    requires
        strictly_sorted(views(old(out)@)),
    ensures
        strictly_sorted(views(final(out)@)),
        views(final(out)@).to_set() == views(old(out)@).to_set().union(types_ns(ts@, seg_views(ns@).to_set())),
    decreases ts,
{
    let ghost nsv = seg_views(ns@).to_set();
    let ghost o0 = views(out@).to_set();
    let mut i: usize = 0;
    assert(ts@.subrange(0, ts@.len() as int) =~= ts@);
    assert(o0.union(types_ns(ts@, nsv)) =~= views(out@).to_set().union(types_ns(ts@.subrange(0, ts@.len() as int), nsv)));
    while i < ts.len()
        invariant
            i <= ts@.len(),
            nsv == seg_views(ns@).to_set(),
            strictly_sorted(views(out@)),
            o0.union(types_ns(ts@, nsv)) == views(out@).to_set().union(types_ns(ts@.subrange(i as int, ts@.len() as int), nsv)),
        decreases ts@.len() - i,
    {
        let ghost rest = ts@.subrange(i as int, ts@.len() as int);
        assert(rest[0] == ts@[i as int]);
        assert(rest.subrange(1, rest.len() as int) =~= ts@.subrange(i as int + 1, ts@.len() as int));
        let ghost cur = views(out@).to_set();
        proof {
            assert(decreases_to!(*ts => ts@));
            assert(decreases_to!(ts@ => ts@[i as int]));
        }
        collect_type_ns(&ts[i], ns, out);
        assert(cur.union(type_ns(ts@[i as int], nsv).union(types_ns(ts@.subrange(i as int + 1, ts@.len() as int), nsv)))
            =~= views(out@).to_set().union(types_ns(ts@.subrange(i as int + 1, ts@.len() as int), nsv)));
        i = i + 1;
    }
    assert(types_ns(ts@.subrange(i as int, ts@.len() as int), nsv) =~= Set::<Seq<char>>::empty());
    assert(views(out@).to_set().union(Set::<Seq<char>>::empty()) =~= views(out@).to_set());
}

/// Appends the non-sendable crossings of one protocol's or handler's
/// parameters.
fn check_params_ns(actor: &str, kind: &str, b: &str, ps: &Vec<Param>, ns: &Vec<String>, report: &mut CheckReport)
    ensures
        final(report).mode_map == old(report).mode_map,
        final(report).fn_caps == old(report).fn_caps,
        final(report).boundary_call_sites == old(report).boundary_call_sites,
        diags_of(final(report).errors@) == diags_of(old(report).errors@)
            + as_reported(params_ns(actor@, kind@, b@, ps@, seg_views(ns@).to_set())),
{
    let ghost nsv = seg_views(ns@).to_set();
    let ghost d0 = diags_of(report.errors@);
    let ghost mut dacc: Seq<Diag> = Seq::empty();
    let mut i: usize = 0;
    assert(ps@.subrange(0, ps@.len() as int) =~= ps@);
    assert(diags_of(report.errors@) =~= d0 + as_reported(dacc));
    while i < ps.len()
        invariant
            i <= ps@.len(),
            nsv == seg_views(ns@).to_set(),
            report.mode_map == old(report).mode_map,
            report.fn_caps == old(report).fn_caps,
            report.boundary_call_sites == old(report).boundary_call_sites,
            d0 == diags_of(old(report).errors@),
            params_ns(actor@, kind@, b@, ps@, nsv) == dacc + params_ns(actor@, kind@, b@, ps@.subrange(i as int, ps@.len() as int), nsv),
            diags_of(report.errors@) == d0 + as_reported(dacc),
        decreases ps@.len() - i,
    {
        let ghost rest = ps@.subrange(i as int, ps@.len() as int);
        assert(rest[0] == ps@[i as int]);
        assert(rest.subrange(1, rest.len() as int) =~= ps@.subrange(i as int + 1, ps@.len() as int));
        let ghost tail = params_ns(actor@, kind@, b@, ps@.subrange(i as int + 1, ps@.len() as int), nsv);
        let ghost pname = ps@[i as int].name@;
        match &ps[i].ty {
            Some(t) => {
                let mut found: Vec<String> = Vec::new();
                assert(views(found@) =~= Seq::<Seq<char>>::empty());
                collect_type_ns(t, ns, &mut found);
                let ghost fv = views(found@);
                proof {
                    lemma_sorted_of(fv);
                    assert(fv.to_set() =~= type_ns(*t, nsv));
                }
                let ghost head = fv.map_values(|n: Seq<char>| Diag::Annotation(nonsendable_msg(n, actor@, kind@, b@, pname)));
                assert(head == sorted_of(type_ns(*t, nsv)).map_values(|n: Seq<char>| Diag::Annotation(nonsendable_msg(n, actor@, kind@, b@, pname))));
                let mut j: usize = 0;
                let ghost start = dacc;
                while j < found.len()
                    invariant
                        j <= found@.len(),
                        fv == views(found@),
                        head == fv.map_values(|n: Seq<char>| Diag::Annotation(nonsendable_msg(n, actor@, kind@, b@, pname))),
                        pname == ps@[i as int].name@,
                        i < ps@.len(),
                        report.mode_map == old(report).mode_map,
                        report.fn_caps == old(report).fn_caps,
                        report.boundary_call_sites == old(report).boundary_call_sites,
                        dacc == start + head.subrange(0, j as int),
                        diags_of(report.errors@) == d0 + as_reported(dacc),
                    decreases found@.len() - j,
                {
                    let mut m = String::from_str("@nonsendable type `");
                    m.append(found[j].as_str());
                    m.append("` cannot cross actor `");
                    m.append(actor);
                    m.append("` ");
                    m.append(kind);
                    m.append(" `");
                    m.append(b);
                    m.append("` via parameter `");
                    m.append(ps[i].name.as_str());
                    m.append("`");
                    proof {
                        reveal_strlit("@nonsendable type `");
                        reveal_strlit("` cannot cross actor `");
                        reveal_strlit("` ");
                        reveal_strlit(" `");
                        reveal_strlit("` via parameter `");
                        reveal_strlit("`");
                        assert(fv[j as int] == found@[j as int]@);
                    }
                    report_diag(report, false, m);
                    proof {
                        let d = Diag::Annotation(nonsendable_msg(fv[j as int], actor@, kind@, b@, pname));
                        assert(head[j as int] == d);
                        lemma_reported_concat(dacc, seq![d]);
                        assert(as_reported(seq![d]) =~= seq![Some(d)]);
                        assert(start + head.subrange(0, j as int + 1) =~= dacc.push(d));
                        dacc = dacc.push(d);
                    }
                    j = j + 1;
                }
                assert(head.subrange(0, j as int) =~= head);
                assert(start + (head + tail) =~= dacc + tail);
            },
            None => {
                assert(dacc + (Seq::<Diag>::empty() + tail) =~= dacc + tail);
            },
        }
        i = i + 1;
    }
    assert(dacc + params_ns(actor@, kind@, b@, ps@.subrange(i as int, ps@.len() as int), nsv) =~= dacc);
}

/// Appends the non-sendable crossings of an actor.
fn check_actor(a: &ActorDef, ns: &Vec<String>, report: &mut CheckReport)
    ensures
        final(report).mode_map == old(report).mode_map,
        final(report).fn_caps == old(report).fn_caps,
        final(report).boundary_call_sites == old(report).boundary_call_sites,
        diags_of(final(report).errors@) == diags_of(old(report).errors@)
            + as_reported(actor_diags(a.items@, a.name@, seg_views(ns@).to_set())),
{
    let ghost nsv = seg_views(ns@).to_set();
    let ghost d0 = diags_of(report.errors@);
    let ghost mut dacc: Seq<Diag> = Seq::empty();
    let ms = &a.items;
    let mut i: usize = 0;
    assert(ms@.subrange(0, ms@.len() as int) =~= ms@);
    assert(diags_of(report.errors@) =~= d0 + as_reported(dacc));
    proof {
        reveal_strlit("protocol");
        reveal_strlit("handler");
    }
    while i < ms.len()
        invariant
            i <= ms@.len(),
            nsv == seg_views(ns@).to_set(),
            report.mode_map == old(report).mode_map,
            report.fn_caps == old(report).fn_caps,
            report.boundary_call_sites == old(report).boundary_call_sites,
            d0 == diags_of(old(report).errors@),
            actor_diags(ms@, a.name@, nsv) == dacc + actor_diags(ms@.subrange(i as int, ms@.len() as int), a.name@, nsv),
            diags_of(report.errors@) == d0 + as_reported(dacc),
        decreases ms@.len() - i,
    {
        let ghost rest = ms@.subrange(i as int, ms@.len() as int);
        assert(rest[0] == ms@[i as int]);
        assert(rest.subrange(1, rest.len() as int) =~= ms@.subrange(i as int + 1, ms@.len() as int));
        let ghost tail = actor_diags(ms@.subrange(i as int + 1, ms@.len() as int), a.name@, nsv);
        let ghost d1 = diags_of(report.errors@);
        let ghost head: Seq<Diag> = match ms@[i as int] {
            ActorMember::Protocol(p) => params_ns(a.name@, "protocol"@, p.name@, p.params@, nsv),
            ActorMember::Handler(h) => params_ns(a.name@, "handler"@, h.name@, h.params@, nsv),
            _ => Seq::empty(),
        };
        match &ms[i] {
            ActorMember::Protocol(p) => check_params_ns(a.name.as_str(), "protocol", p.name.as_str(), &p.params, ns, report),
            ActorMember::Handler(h) => check_params_ns(a.name.as_str(), "handler", h.name.as_str(), &h.params, ns, report),
            _ => {
                assert(diags_of(report.errors@) =~= d1 + as_reported(head));
            },
        }
        proof {
            lemma_reported_concat(dacc, head);
            assert(dacc + (head + tail) =~= (dacc + head) + tail);
            dacc = dacc + head;
        }
        i = i + 1;
    }
    assert(dacc + actor_diags(ms@.subrange(i as int, ms@.len() as int), a.name@, nsv) =~= dacc);
}

/// The captured capabilities of a concatenation of functions.
proof fn lemma_fn_caps_concat(a: Seq<FnDef>, b: Seq<FnDef>)
    ensures
        fn_caps_of_fns(a + b) == fn_caps_of_fns(a) + fn_caps_of_fns(b),
    decreases a.len(),
{
    if a.len() > 0 {
        let rest = a.subrange(1, a.len() as int);
        assert((a + b).subrange(1, (a + b).len() as int) =~= rest + b);
        assert((a + b)[0] == a[0]);
        lemma_fn_caps_concat(rest, b);
        let h: Seq<(Seq<char>, Seq<Seq<char>>)> = if has_caps(a[0].annotations@) {
            seq![(a[0].name@, caps_names(a[0].annotations@))]
        } else {
            Seq::empty()
        };
        assert(h + (fn_caps_of_fns(rest) + fn_caps_of_fns(b)) =~= (h + fn_caps_of_fns(rest)) + fn_caps_of_fns(b));
    } else {
        assert(a + b =~= b);
        assert(Seq::<(Seq<char>, Seq<Seq<char>>)>::empty() + fn_caps_of_fns(b) =~= fn_caps_of_fns(b));
    }
}

/// The one-function capability entry.
pub open spec fn fn_caps_entry(f: FnDef) -> Seq<(Seq<char>, Seq<Seq<char>>)> {
    if has_caps(f.annotations@) { seq![(f.name@, caps_names(f.annotations@))] } else { Seq::empty() }
}

/// A single function's captured capabilities.
proof fn lemma_fn_caps_single(f: FnDef)
    ensures
        fn_caps_of_fns(seq![f]) == fn_caps_entry(f),
{
    let s = seq![f];
    assert(s[0] == f);
    assert(s.subrange(1, 1) =~= Seq::<FnDef>::empty());
    assert(fn_caps_of_fns(s.subrange(1, 1)) == Seq::<(Seq<char>, Seq<Seq<char>>)>::empty());
    assert(fn_caps_of_fns(s) == fn_caps_entry(f) + fn_caps_of_fns(s.subrange(1, 1)));
    assert(fn_caps_entry(f) + Seq::<(Seq<char>, Seq<Seq<char>>)>::empty() =~= fn_caps_entry(f));
}

/// Checks the methods of an impl block.
fn check_methods(ms: &Vec<FnDef>, module_safe: bool, report: &mut CheckReport)
    ensures
        diags_of(final(report).errors@) == diags_of(old(report).errors@) + as_reported(methods_diags(ms@, module_safe)),
        final(report).mode_map@ == old(report).mode_map@ + ms@.map_values(|m: FnDef| (m.name, m.mode)),
        fn_caps_view(final(report).fn_caps@) == fn_caps_view(old(report).fn_caps@) + fn_caps_of_fns(ms@),
        final(report).boundary_call_sites == capped(old(report).boundary_call_sites + methods_calls(ms@, module_safe)),
{
    let ghost dm = diags_of(report.errors@);
    let ghost mm1 = report.mode_map@;
    let ghost cv1 = fn_caps_view(report.fn_caps@);
    let ghost bc1 = report.boundary_call_sites as nat;
    let ghost mut dd: Seq<Diag> = Seq::empty();
    let ghost mut cc: nat = 0;
    let mut j: usize = 0;
    assert(ms@.subrange(0, ms@.len() as int) =~= ms@);
    assert(dm + as_reported(dd) =~= dm);
    assert(report.mode_map@ =~= mm1 + ms@.subrange(0, 0).map_values(|m: FnDef| (m.name, m.mode)));
    assert(fn_caps_of_fns(ms@.subrange(0, 0)) =~= Seq::<(Seq<char>, Seq<Seq<char>>)>::empty());
    assert(fn_caps_view(report.fn_caps@) =~= cv1 + fn_caps_of_fns(ms@.subrange(0, 0)));
    while j < ms.len()
        invariant
            j <= ms@.len(),
            dm == diags_of(old(report).errors@),
            mm1 == old(report).mode_map@,
            cv1 == fn_caps_view(old(report).fn_caps@),
            bc1 == old(report).boundary_call_sites as nat,
            methods_diags(ms@, module_safe) == dd + methods_diags(ms@.subrange(j as int, ms@.len() as int), module_safe),
            methods_calls(ms@, module_safe) == cc + methods_calls(ms@.subrange(j as int, ms@.len() as int), module_safe),
            diags_of(report.errors@) == dm + as_reported(dd),
            report.mode_map@ == mm1 + ms@.subrange(0, j as int).map_values(|m: FnDef| (m.name, m.mode)),
            fn_caps_view(report.fn_caps@) == cv1 + fn_caps_of_fns(ms@.subrange(0, j as int)),
            report.boundary_call_sites == capped((bc1 + cc) as int),
        decreases ms@.len() - j,
    {
        let ghost mrest = ms@.subrange(j as int, ms@.len() as int);
        assert(mrest[0] == ms@[j as int]);
        assert(mrest.subrange(1, mrest.len() as int) =~= ms@.subrange(j as int + 1, ms@.len() as int));
        let ghost mf = ms@[j as int];
        check_fn(&ms[j], module_safe, report);
        proof {
            lemma_reported_concat(dd, fn_diags(mf, module_safe));
            assert(dd + (fn_diags(mf, module_safe) + methods_diags(ms@.subrange(j as int + 1, ms@.len() as int), module_safe))
                =~= (dd + fn_diags(mf, module_safe)) + methods_diags(ms@.subrange(j as int + 1, ms@.len() as int), module_safe));
            dd = dd + fn_diags(mf, module_safe);
            cc = cc + block_walk(mf.body, mf.name@, module_safe || mf.mode == FnMode::Safe).1;
            assert(ms@.subrange(0, j as int + 1) =~= ms@.subrange(0, j as int) + seq![mf]);
            lemma_fn_caps_concat(ms@.subrange(0, j as int), seq![mf]);
            lemma_fn_caps_single(mf);
            assert(report.mode_map@ =~= mm1 + ms@.subrange(0, j as int + 1).map_values(|m: FnDef| (m.name, m.mode)));
        }
        j = j + 1;
    }
    proof {
        assert(ms@.subrange(0, j as int) =~= ms@);
        assert(dd + methods_diags(ms@.subrange(j as int, ms@.len() as int), module_safe) =~= dd);
    }
}

/// Checks one item (see `item_diags`, `item_modes`, `item_fns` and
/// `item_calls`).
fn check_item(it: &Item, module_safe: bool, ns: &Vec<String>, report: &mut CheckReport)
    ensures
        diags_of(final(report).errors@) == diags_of(old(report).errors@)
            + as_reported(item_diags(*it, module_safe, seg_views(ns@).to_set())),
        final(report).mode_map@ == old(report).mode_map@ + item_modes(*it),
        fn_caps_view(final(report).fn_caps@) == fn_caps_view(old(report).fn_caps@) + fn_caps_of_fns(item_fns(*it)),
        final(report).boundary_call_sites == capped(old(report).boundary_call_sites + item_calls(*it, module_safe)),
    decreases it,
{
    let ghost d1 = diags_of(report.errors@);
    let ghost mm1 = report.mode_map@;
    let ghost cv1 = fn_caps_view(report.fn_caps@);
    match it {
        Item::Fn(f) => {
            check_fn(f, module_safe, report);
            proof { lemma_fn_caps_single(*f); }
        },
        Item::Module(m) => {
            proof { assert(decreases_to!(*it => m.items)); }
            check_items(&m.items, module_safe || m.safe, ns, report);
        },
        Item::Impl(b) => {
            if module_safe && has_marker(&b.annotations, true) {
                let m = String::from_str("@dynamic impl blocks are not permitted in @safe modules; use static trait dispatch");
                proof { reveal_strlit("@dynamic impl blocks are not permitted in @safe modules; use static trait dispatch"); }
                report_diag(report, false, m);
            }
            let ghost dyn_d: Seq<Diag> = if module_safe && has_dynamic(b.annotations@) {
                seq![Diag::Annotation(dynamic_impl_msg())]
            } else {
                Seq::empty()
            };
            assert(diags_of(report.errors@) =~= d1 + as_reported(dyn_d));
            check_methods(&b.methods, module_safe, report);
            proof {
                lemma_reported_concat(dyn_d, methods_diags(b.methods@, module_safe));
            }
        },
        Item::Struct(sd) => {
            if module_safe && has_marker(&sd.annotations, true) {
                let mut m = String::from_str("@dynamic struct '");
                m.append(sd.name.as_str());
                m.append("' is not permitted in @safe modules; use trait + dyn Trait");
                proof {
                    reveal_strlit("@dynamic struct '");
                    reveal_strlit("' is not permitted in @safe modules; use trait + dyn Trait");
                }
                report_diag(report, false, m);
            }
            assert(diags_of(report.errors@) =~= d1 + as_reported(item_diags(*it, module_safe, seg_views(ns@).to_set())));
            assert(report.mode_map@ =~= mm1 + item_modes(*it));
            assert(fn_caps_view(report.fn_caps@) =~= cv1 + fn_caps_of_fns(item_fns(*it)));
        },
        Item::Actor(a) => {
            check_actor(a, ns, report);
            assert(report.mode_map@ =~= mm1 + item_modes(*it));
            assert(fn_caps_view(report.fn_caps@) =~= cv1 + fn_caps_of_fns(item_fns(*it)));
        },
        _ => {
            assert(diags_of(report.errors@) =~= d1 + as_reported(item_diags(*it, module_safe, seg_views(ns@).to_set())));
            assert(report.mode_map@ =~= mm1 + item_modes(*it));
            assert(fn_caps_view(report.fn_caps@) =~= cv1 + fn_caps_of_fns(item_fns(*it)));
        },
    }
}

/// Checks the items of a module tree (see `items_diags`, `mode_map_of`,
/// `fn_caps_of_fns` and `items_calls`); `ns` holds the module's
/// `@nonsendable` struct names.
pub fn check_items(items: &Vec<Item>, module_safe: bool, ns: &Vec<String>, report: &mut CheckReport)
    ensures
        diags_of(final(report).errors@) == diags_of(old(report).errors@)
            + as_reported(items_diags(items@, module_safe, seg_views(ns@).to_set())),
        final(report).mode_map@ == old(report).mode_map@ + mode_map_of(items@),
        fn_caps_view(final(report).fn_caps@) == fn_caps_view(old(report).fn_caps@) + fn_caps_of_fns(all_fns(items@)),
        final(report).boundary_call_sites == capped(old(report).boundary_call_sites + items_calls(items@, module_safe)),
    decreases items,
{
    let ghost nsv = seg_views(ns@).to_set();
    let ghost d0 = diags_of(report.errors@);
    let ghost m0 = report.mode_map@;
    let ghost c0 = fn_caps_view(report.fn_caps@);
    let ghost b0 = report.boundary_call_sites as nat;
    let ghost mut dacc: Seq<Diag> = Seq::empty();
    let ghost mut macc: Seq<(String, FnMode)> = Seq::empty();
    let ghost mut facc: Seq<FnDef> = Seq::empty();
    let ghost mut cacc: nat = 0;
    let mut i: usize = 0;
    assert(items@.subrange(0, items@.len() as int) =~= items@);
    assert(diags_of(report.errors@) =~= d0 + as_reported(dacc));
    assert(report.mode_map@ =~= m0 + macc);
    assert(fn_caps_of_fns(facc) =~= Seq::<(Seq<char>, Seq<Seq<char>>)>::empty());
    assert(fn_caps_view(report.fn_caps@) =~= c0 + fn_caps_of_fns(facc));
    while i < items.len()
        invariant
            i <= items@.len(),
            nsv == seg_views(ns@).to_set(),
            d0 == diags_of(old(report).errors@),
            m0 == old(report).mode_map@,
            c0 == fn_caps_view(old(report).fn_caps@),
            b0 == old(report).boundary_call_sites as nat,
            items_diags(items@, module_safe, nsv) == dacc + items_diags(items@.subrange(i as int, items@.len() as int), module_safe, nsv),
            mode_map_of(items@) == macc + mode_map_of(items@.subrange(i as int, items@.len() as int)),
            all_fns(items@) == facc + all_fns(items@.subrange(i as int, items@.len() as int)),
            items_calls(items@, module_safe) == cacc + items_calls(items@.subrange(i as int, items@.len() as int), module_safe),
            diags_of(report.errors@) == d0 + as_reported(dacc),
            report.mode_map@ == m0 + macc,
            fn_caps_view(report.fn_caps@) == c0 + fn_caps_of_fns(facc),
            report.boundary_call_sites == capped((b0 + cacc) as int),
        decreases items@.len() - i,
    {
        let ghost rest = items@.subrange(i as int, items@.len() as int);
        assert(rest[0] == items@[i as int]);
        assert(rest.subrange(1, rest.len() as int) =~= items@.subrange(i as int + 1, items@.len() as int));
        let ghost it = items@[i as int];
        proof {
            assert(decreases_to!(*items => items@));
            assert(decreases_to!(items@ => items@[i as int]));
        }
        check_item(&items[i], module_safe, ns, report);
        proof {
            let hd = item_diags(it, module_safe, nsv);
            let hm = item_modes(it);
            let hf = item_fns(it);
            let tl = items_diags(items@.subrange(i as int + 1, items@.len() as int), module_safe, nsv);
            lemma_reported_concat(dacc, hd);
            assert(dacc + (hd + tl) =~= (dacc + hd) + tl);
            dacc = dacc + hd;
            let tm = mode_map_of(items@.subrange(i as int + 1, items@.len() as int));
            assert(macc + (hm + tm) =~= (macc + hm) + tm);
            assert(report.mode_map@ =~= m0 + (macc + hm));
            macc = macc + hm;
            let tf = all_fns(items@.subrange(i as int + 1, items@.len() as int));
            assert(facc + (hf + tf) =~= (facc + hf) + tf);
            lemma_fn_caps_concat(facc, hf);
            assert(fn_caps_view(report.fn_caps@) =~= c0 + fn_caps_of_fns(facc + hf));
            facc = facc + hf;
            cacc = cacc + item_calls(it, module_safe);
        }
        i = i + 1;
    }
    proof {
        assert(items@.subrange(i as int, items@.len() as int) =~= Seq::<Item>::empty());
        assert(dacc + Seq::<Diag>::empty() =~= dacc);
        assert(macc + Seq::<(String, FnMode)>::empty() =~= macc);
        assert(facc + Seq::<FnDef>::empty() =~= facc);
    }
}

// ---------------------------------------------------------------------------
// Laws
// ---------------------------------------------------------------------------

proof fn lemma_expr_walk_managed(e: Expr, f: Seq<char>)
    ensures
        expr_walk(e, f, false).0 == Seq::<Diag>::empty(),
    decreases e,
{
    match e {
        Expr::If { then_block, elsif_clauses, else_block, .. } => {
            lemma_block_walk_managed(then_block, f);
            lemma_elsif_walk_managed(elsif_clauses@, f);
            match else_block {
                Some(b) => lemma_block_walk_managed(b, f),
                None => {},
            }
        },
        Expr::Match { arms, .. } => lemma_arms_walk_managed(arms@, f),
        Expr::Binary { lhs, rhs, .. } => {
            lemma_expr_walk_managed(*lhs, f);
            lemma_expr_walk_managed(*rhs, f);
        },
        Expr::Call { callee, args } => {
            lemma_expr_walk_managed(*callee, f);
            lemma_exprs_walk_managed(args@, f);
        },
        Expr::Method { receiver, args, .. } => {
            lemma_expr_walk_managed(*receiver, f);
            lemma_exprs_walk_managed(args@, f);
        },
        _ => {},
    }
    assert(expr_walk(e, f, false).0 =~= Seq::<Diag>::empty());
}

proof fn lemma_exprs_walk_managed(es: Seq<Expr>, f: Seq<char>)
    ensures
        exprs_walk(es, f, false).0 == Seq::<Diag>::empty(),
    decreases es,
{
    if es.len() > 0 {
        lemma_expr_walk_managed(es[0], f);
        lemma_exprs_walk_managed(es.subrange(1, es.len() as int), f);
        assert(exprs_walk(es, f, false).0 =~= Seq::<Diag>::empty());
    }
}

proof fn lemma_elsif_walk_managed(cs: Seq<(Expr, Block)>, f: Seq<char>)
    ensures
        elsif_walk(cs, f, false).0 == Seq::<Diag>::empty(),
    decreases cs,
{
    if cs.len() > 0 {
        lemma_block_walk_managed(cs[0].1, f);
        lemma_elsif_walk_managed(cs.subrange(1, cs.len() as int), f);
        assert(elsif_walk(cs, f, false).0 =~= Seq::<Diag>::empty());
    }
}

proof fn lemma_arms_walk_managed(arms: Seq<MatchArm>, f: Seq<char>)
    ensures
        arms_walk(arms, f, false).0 == Seq::<Diag>::empty(),
    decreases arms,
{
    if arms.len() > 0 {
        lemma_block_walk_managed(arms[0].body, f);
        lemma_arms_walk_managed(arms.subrange(1, arms.len() as int), f);
        assert(arms_walk(arms, f, false).0 =~= Seq::<Diag>::empty());
    }
}

proof fn lemma_block_walk_managed(b: Block, f: Seq<char>)
    ensures
        block_walk(b, f, false).0 == Seq::<Diag>::empty(),
    decreases b,
{
    lemma_stmts_walk_managed(b.stmts@, f);
    match b.tail_expr {
        Some(x) => lemma_expr_walk_managed(*x, f),
        None => {},
    }
    assert(block_walk(b, f, false).0 =~= Seq::<Diag>::empty());
}

proof fn lemma_stmts_walk_managed(ss: Seq<Stmt>, f: Seq<char>)
    ensures
        stmts_walk(ss, f, false).0 == Seq::<Diag>::empty(),
    decreases ss,
{
    if ss.len() > 0 {
        lemma_stmt_walk_managed(ss[0], f);
        lemma_stmts_walk_managed(ss.subrange(1, ss.len() as int), f);
        assert(stmts_walk(ss, f, false).0 =~= Seq::<Diag>::empty());
    }
}

proof fn lemma_stmt_walk_managed(s: Stmt, f: Seq<char>)
    ensures
        stmt_walk(s, f, false).0 == Seq::<Diag>::empty(),
    decreases s,
{
    match s {
        Stmt::Yield { value } => match value {
            Some(v) => lemma_expr_walk_managed(v, f),
            None => {},
        },
        Stmt::Next { value } => match value {
            Some(v) => lemma_expr_walk_managed(v, f),
            None => {},
        },
        Stmt::While { body, .. } => lemma_block_walk_managed(body, f),
        Stmt::For { body, .. } => lemma_block_walk_managed(body, f),
        Stmt::Loop { body, .. } => lemma_block_walk_managed(body, f),
        Stmt::Expr(e) => lemma_expr_walk_managed(e, f),
        _ => {},
    }
}

/// Managed code is not held to the safe-mode restrictions: the body of a
/// function outside safe scope (`var`, `raise`, `try` included) yields no
/// safe-mode violation, and a `def` outside a safe module yields none at
/// all (its signature is not checked either).
pub proof fn lemma_managed_code_has_no_safe_violations(f: FnDef)
    requires
        f.mode == FnMode::Managed,
    ensures
        block_walk(f.body, f.name@, false).0 == Seq::<Diag>::empty(),
        signature_diags(f) == Seq::<Diag>::empty(),
        forall|k: int| 0 <= k < fn_diags(f, false).len() ==> (#[trigger] fn_diags(f, false)[k]) is Annotation,
{
    lemma_block_walk_managed(f.body, f.name@);
    let a = anns_diags(f.name@, f.annotations@, false);
    lemma_anns_are_annotation_errors(f.name@, f.annotations@, false);
    let d = fn_diags(f, false);
    assert forall|k: int| 0 <= k < d.len() implies (#[trigger] d[k]) is Annotation by {
        let w: Seq<Diag> = if uses_wildcard(f.annotations@) && f.mode == FnMode::Safe {
            seq![Diag::Annotation(wildcard_msg(f.name@))]
        } else {
            Seq::empty()
        };
        let m: Seq<Diag> = if f.name@ == "main"@ && !has_caps(f.annotations@) {
            seq![Diag::Annotation(main_caps_msg())]
        } else {
            Seq::empty()
        };
        assert(d =~= a + w + m);
        if k < a.len() {
            assert(d[k] == a[k]);
        } else if k < a.len() + w.len() {
            assert(d[k] == w[k - a.len()]);
        } else {
            assert(d[k] == m[k - a.len() - w.len()]);
        }
    }
}

/// Annotation checks only ever report annotation errors.
proof fn lemma_anns_are_annotation_errors(f: Seq<char>, anns: Seq<Annotation>, seen: bool)
    ensures
        forall|k: int| 0 <= k < anns_diags(f, anns, seen).len() ==> (#[trigger] anns_diags(f, anns, seen)[k]) is Annotation,
    decreases anns.len(),
{
    if anns.len() > 0 {
        let rest = anns.subrange(1, anns.len() as int);
        let seen2 = seen || anns[0] is Caps;
        lemma_anns_are_annotation_errors(f, rest, seen2);
        let h = ann_diags(f, anns[0], seen);
        match anns[0] {
            Annotation::Caps(cs) => lemma_unknown_caps_annotation(f, seg_views(cs@)),
            _ => {},
        }
        assert forall|k: int| 0 <= k < h.len() implies (#[trigger] h[k]) is Annotation by {
            match anns[0] {
                Annotation::Caps(cs) => {
                    let multi: Seq<Diag> = if seen { seq![Diag::Annotation(multiple_caps_msg(f))] } else { Seq::empty() };
                    let u = unknown_caps(f, seg_views(cs@));
                    assert(h =~= multi + u);
                    if k < multi.len() {
                        assert(h[k] == multi[k]);
                    } else {
                        assert(h[k] == u[k - multi.len()]);
                    }
                },
                _ => {},
            }
        }
        let all = anns_diags(f, anns, seen);
        let t = anns_diags(f, rest, seen2);
        assert(all =~= h + t);
        assert forall|k: int| 0 <= k < all.len() implies (#[trigger] all[k]) is Annotation by {
            if k < h.len() {
                assert(all[k] == h[k]);
            } else {
                assert(all[k] == t[k - h.len()]);
            }
        }
    }
}

proof fn lemma_unknown_caps_annotation(f: Seq<char>, cs: Seq<Seq<char>>)
    ensures
        forall|k: int| 0 <= k < unknown_caps(f, cs).len() ==> (#[trigger] unknown_caps(f, cs)[k]) is Annotation,
    decreases cs.len(),
{
    if cs.len() > 0 {
        let rest = cs.subrange(1, cs.len() as int);
        lemma_unknown_caps_annotation(f, rest);
        let h: Seq<Diag> = if known_cap(cs[0]) { Seq::empty() } else { seq![Diag::Annotation(unknown_cap_msg(f, cs[0]))] };
        let all = unknown_caps(f, cs);
        let t = unknown_caps(f, rest);
        assert(all =~= h + t);
        assert forall|k: int| 0 <= k < all.len() implies (#[trigger] all[k]) is Annotation by {
            if k < h.len() {
                assert(all[k] == h[k]);
            } else {
                assert(all[k] == t[k - h.len()]);
            }
        }
    }
}

} // verus!
