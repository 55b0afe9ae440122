//! Match coverage for finite domains in safe code.
//!
//! A deliberately narrow slice: it proves exhaustiveness and simple
//! reachability of `match` arms whose subject is a `Bool` or a same-module
//! enum, where the subject's type is visible from a parameter or local
//! annotation, a `Bool` literal, or a cast. It does no type inference, no
//! nested constructor coverage and no guard reasoning: a guarded arm covers
//! nothing.

use vstd::prelude::*;
use crate::ast::{Block, ClosureBody, EnumDef, Expr, FnDef, Item, MatchArm, Module, Param, Pattern, Rescue, Stmt};
use crate::coherence::{join_strings, seg_views, TypeExpr};
use crate::diagnostics::{CheckError, FnMode};
use crate::order::{lemma_sorted_of, sorted_of, strictly_sorted, views, insert_sorted};
use crate::text::{join, push_signed_decimal_wide, signed_decimal, str_eq};

verus! {

// ---------------------------------------------------------------------------
// Enums of the module tree
// ---------------------------------------------------------------------------

/// The enums declared in the module tree, in source order: each with its
/// full path (enclosing module names, then its own) and its variant names.
pub open spec fn enum_entries(items: Seq<Item>, prefix: Seq<Seq<char>>) -> Seq<(Seq<Seq<char>>, Set<Seq<char>>)>
    decreases items,
{
    if items.len() == 0 {
        Seq::empty()
    } else {
        let head = match items[0] {
            Item::Enum(e) => seq![(prefix.push(e.name@), seg_views(e.variants@).to_set())],
            Item::Module(m) => enum_entries(m.items@, prefix.push(m.name@)),
            _ => Seq::empty(),
        };
        head + enum_entries(items.subrange(1, items.len() as int), prefix)
    }
}

/// The variants of the last enum declared at `path` (a later declaration
/// replaces an earlier one).
pub open spec fn latest(t: Seq<(Seq<Seq<char>>, Set<Seq<char>>)>, path: Seq<Seq<char>>) -> Option<Set<Seq<char>>>
    decreases t.len(),
{
    if t.len() == 0 {
        None
    } else if t.last().0 == path {
        Some(t.last().1)
    } else {
        latest(t.drop_last(), path)
    }
}

/// How many distinct enum paths end in a given name: none, exactly one
/// (which), or several.
pub enum Bare {
    Zero,
    One(Seq<Seq<char>>),
    Many,
}

/// One step of the count of distinct paths ending in `name`.
pub open spec fn bare_step(st: Bare, p: Seq<Seq<char>>, name: Seq<char>) -> Bare {
    if p.len() > 0 && p.last() == name {
        match st {
            Bare::Zero => Bare::One(p),
            Bare::One(q) => if q == p { Bare::One(q) } else { Bare::Many },
            Bare::Many => Bare::Many,
        }
    } else {
        st
    }
}

/// The distinct enum paths of the table that end in `name`.
pub open spec fn bare_scan(t: Seq<(Seq<Seq<char>>, Set<Seq<char>>)>, name: Seq<char>) -> Bare
    decreases t.len(),
{
    if t.len() == 0 {
        Bare::Zero
    } else {
        bare_step(bare_scan(t.drop_last(), name), t.last().0, name)
    }
}

/// The enum a type path names: the one declared at exactly that path, else,
/// for a single-segment path, the only enum whose path ends in it.
pub open spec fn lookup_enum(t: Seq<(Seq<Seq<char>>, Set<Seq<char>>)>, path: Seq<Seq<char>>) -> Option<(Seq<Seq<char>>, Set<Seq<char>>)> {
    match latest(t, path) {
        Some(vs) => Some((path, vs)),
        None => if path.len() == 1 {
            match bare_scan(t, path[0]) {
                Bare::One(p) => match latest(t, p) {
                    Some(vs) => Some((p, vs)),
                    None => None,
                },
                _ => None,
            }
        } else {
            None
        },
    }
}

// ---------------------------------------------------------------------------
// Domains
// ---------------------------------------------------------------------------

/// A finite domain: `Bool`, or an enum with its path and variant names.
pub enum DomainV {
    Bool,
    Enum(Seq<Seq<char>>, Set<Seq<char>>),
}

/// The finite domain a type annotation names, if any.
pub open spec fn domain_of_type(ty: TypeExpr, t: Seq<(Seq<Seq<char>>, Set<Seq<char>>)>) -> Option<DomainV> {
    match ty {
        TypeExpr::Named { path, .. } => {
            let p = seg_views(path@);
            if p.len() > 0 && p.last() == "Bool"@ {
                Some(DomainV::Bool)
            } else {
                match lookup_enum(t, p) {
                    Some(e) => Some(DomainV::Enum(e.0, e.1)),
                    None => None,
                }
            }
        },
        _ => None,
    }
}

/// The finite domain of a `match` subject: a `Bool` literal, a variable of
/// known domain, or a cast to an annotated type.
pub open spec fn domain_of_expr(e: Expr, env: Map<Seq<char>, DomainV>, t: Seq<(Seq<Seq<char>>, Set<Seq<char>>)>) -> Option<DomainV> {
    match e {
        Expr::Bool(_) => Some(DomainV::Bool),
        Expr::Ident(n) => if env.contains_key(n@) { Some(env[n@]) } else { None },
        Expr::Cast { ty, .. } => domain_of_type(ty, t),
        _ => None,
    }
}

/// Whether the covered values exhaust the domain.
pub open spec fn fully_covered(d: DomainV, covered: Set<Seq<char>>) -> bool {
    match d {
        DomainV::Bool => covered.contains("true"@) && covered.contains("false"@),
        DomainV::Enum(_, vs) => vs.subset_of(covered),
    }
}

/// The uncovered values among `names`, in order, each as `` `prefix name` ``.
pub open spec fn missing_of(names: Seq<Seq<char>>, covered: Set<Seq<char>>, prefix: Seq<char>) -> Seq<Seq<char>>
    decreases names.len(),
{
    if names.len() == 0 {
        Seq::empty()
    } else {
        let head = if covered.contains(names[0]) { Seq::empty() } else { seq!["`"@ + prefix + names[0] + "`"@] };
        head + missing_of(names.subrange(1, names.len() as int), covered, prefix)
    }
}

/// The uncovered values of a domain, comma-separated: `true` before
/// `false`; enum variants in name order, each written with the enum's path.
pub open spec fn missing_text(d: DomainV, covered: Set<Seq<char>>) -> Seq<char> {
    match d {
        DomainV::Bool => join(missing_of(seq!["true"@, "false"@], covered, ""@), ", "@),
        DomainV::Enum(p, vs) => join(missing_of(sorted_of(vs), covered, join(p, "::"@) + "::"@), ", "@),
    }
}

/// The value of the domain a pattern covers, if it names one: a `Bool`
/// literal, or a variant of the enum written bare or with the enum's path.
pub open spec fn coverage_key(d: DomainV, p: Pattern) -> Option<Seq<char>> {
    match d {
        DomainV::Bool => match p {
            Pattern::Literal(Expr::Bool(b)) => Some(if b { "true"@ } else { "false"@ }),
            _ => None,
        },
        DomainV::Enum(epath, vs) => match p {
            Pattern::Enum(path, _) => {
                let segs = seg_views(path@);
                if segs.len() > 0 && vs.contains(segs.last()) && (segs.len() == 1 || segs.drop_last() == epath) {
                    Some(segs.last())
                } else {
                    None
                }
            },
            _ => None,
        },
    }
}

/// A pattern that matches anything.
pub open spec fn is_catch_all(p: Pattern) -> bool {
    p is Ident || p is Wildcard || p is Rest
}

/// How a pattern is written in a diagnostic.
pub open spec fn describe(p: Pattern) -> Seq<char> {
    match p {
        Pattern::Literal(e) => match e {
            Expr::Bool(b) => if b { "`true`"@ } else { "`false`"@ },
            Expr::Int(v) => "`"@ + signed_decimal(v as int) + "`"@,
            Expr::Float(t) => "`"@ + t@ + "`"@,
            Expr::Nil => "`nil`"@,
            Expr::Str(s) => "`\""@ + s@ + "\"`"@,
            Expr::Symbol(s) => "`:"@ + s@ + "`"@,
            _ => "`<literal>`"@,
        },
        Pattern::Ident(n) => "`"@ + n@ + "`"@,
        Pattern::Tuple(_) => "`<tuple>`"@,
        Pattern::Enum(path, _) => "`"@ + join(seg_views(path@), "::"@) + "`"@,
        Pattern::Wildcard => "`_`"@,
        Pattern::Rest => "`..`"@,
    }
}

// ---------------------------------------------------------------------------
// Arms
// ---------------------------------------------------------------------------

pub open spec fn after_catch_all(f: Seq<char>, p: Seq<char>) -> Seq<char> {
    "unreachable match arm in safe function '"@ + f + "': pattern "@ + p + " is covered by prior catch-all arm"@
}

pub open spec fn after_full_cover(f: Seq<char>, p: Seq<char>) -> Seq<char> {
    "unreachable match arm in safe function '"@ + f + "': finite domain is already fully covered before pattern "@ + p
}

pub open spec fn already_covered(f: Seq<char>, p: Seq<char>) -> Seq<char> {
    "unreachable match arm in safe function '"@ + f + "': pattern "@ + p + " is already covered by prior arm"@
}

pub open spec fn non_exhaustive(f: Seq<char>, missing: Seq<char>) -> Seq<char> {
    "non-exhaustive match in safe function '"@ + f + "': missing "@ + missing
}

/// The findings on a `match`'s arms over domain `d`, given the values the
/// earlier unguarded arms covered and whether one of them was a catch-all:
/// each arm after a catch-all, or after the domain is covered, is
/// unreachable (and covers nothing more); an arm whose value is already
/// covered is unreachable; at the end, a domain neither covered nor caught
/// is non-exhaustive.
pub open spec fn arms_findings(f: Seq<char>, d: DomainV, arms: Seq<MatchArm>, covered: Set<Seq<char>>, caught: bool) -> Seq<Seq<char>>
    decreases arms.len(),
{
    if arms.len() == 0 {
        if !caught && !fully_covered(d, covered) {
            seq![non_exhaustive(f, missing_text(d, covered))]
        } else {
            Seq::empty()
        }
    } else {
        let arm = arms[0];
        let rest = arms.subrange(1, arms.len() as int);
        let p = describe(arm.pattern);
        if caught {
            seq![after_catch_all(f, p)] + arms_findings(f, d, rest, covered, caught)
        } else if fully_covered(d, covered) {
            seq![after_full_cover(f, p)] + arms_findings(f, d, rest, covered, caught)
        } else {
            let key = coverage_key(d, arm.pattern);
            let head = match key {
                Some(k) => if covered.contains(k) { seq![already_covered(f, p)] } else { Seq::empty() },
                None => Seq::empty(),
            };
            if arm.guard is Some {
                head + arms_findings(f, d, rest, covered, caught)
            } else if is_catch_all(arm.pattern) {
                head + arms_findings(f, d, rest, covered, true)
            } else {
                match key {
                    Some(k) => head + arms_findings(f, d, rest, covered.insert(k), caught),
                    None => head + arms_findings(f, d, rest, covered, caught),
                }
            }
        }
    }
}

// ---------------------------------------------------------------------------
// The walk
// ---------------------------------------------------------------------------

/// The enums of the module tree, as `enum_entries` lists them.
pub type Enums = Seq<(Seq<Seq<char>>, Set<Seq<char>>)>;

/// The variables of known finite domain at a point of a function body.
pub type Scope = Map<Seq<char>, DomainV>;

/// The scope after a pattern's bindings are removed (they shadow whatever
/// the names held).
pub open spec fn unbind(p: Pattern, env: Scope) -> Scope
    decreases p,
{
    match p {
        Pattern::Ident(n) => env.remove(n@),
        Pattern::Tuple(items) => unbind_all(items@, env),
        Pattern::Enum(_, items) => unbind_all(items@, env),
        _ => env,
    }
}

/// The scope after the bindings of several patterns are removed.
pub open spec fn unbind_all(ps: Seq<Pattern>, env: Scope) -> Scope
    decreases ps,
{
    if ps.len() == 0 {
        env
    } else {
        unbind_all(ps.subrange(1, ps.len() as int), unbind(ps[0], env))
    }
}

/// The scope after a declaration: a name annotated with a finite domain's
/// type now has that domain; otherwise nothing changes.
pub open spec fn bind_decl(name: Seq<char>, ty: Option<TypeExpr>, env: Scope, t: Enums) -> Scope {
    match ty {
        Some(ty) => match domain_of_type(ty, t) {
            Some(d) => env.insert(name, d),
            None => env,
        },
        None => env,
    }
}

/// The scope after a statement (`let` and `var` declarations bind).
pub open spec fn stmt_scope(s: Stmt, env: Scope, t: Enums) -> Scope {
    match s {
        Stmt::Let(d) => bind_decl(d.name@, d.ty, env, t),
        Stmt::Var(d) => bind_decl(d.name@, d.ty, env, t),
        _ => env,
    }
}

/// The scope after a sequence of statements.
pub open spec fn stmts_scope(ss: Seq<Stmt>, env: Scope, t: Enums) -> Scope
    decreases ss.len(),
{
    if ss.len() == 0 {
        env
    } else {
        stmts_scope(ss.subrange(1, ss.len() as int), stmt_scope(ss[0], env, t), t)
    }
}

/// The scope a function body starts in: its annotated parameters.
pub open spec fn params_scope(ps: Seq<Param>, env: Scope, t: Enums) -> Scope
    decreases ps.len(),
{
    if ps.len() == 0 {
        env
    } else {
        params_scope(ps.subrange(1, ps.len() as int), bind_decl(ps[0].name@, ps[0].ty, env, t), t)
    }
}

/// The findings within an expression of function `f`, in walk order.
/// Every nested block starts from the enclosing scope and its bindings do
/// not leak out of it.
pub open spec fn expr_findings(e: Expr, f: Seq<char>, env: Scope, t: Enums) -> Seq<Seq<char>>
    decreases e,
{
    match e {
        Expr::Binary { lhs, rhs, .. } => expr_findings(*lhs, f, env, t) + expr_findings(*rhs, f, env, t),
        Expr::Unary { expr } => expr_findings(*expr, f, env, t),
        Expr::Cast { expr, .. } => expr_findings(*expr, f, env, t),
        Expr::Spawn { expr, .. } => expr_findings(*expr, f, env, t),
        Expr::Call { callee, args } => expr_findings(*callee, f, env, t) + exprs_findings(args@, f, env, t),
        Expr::Method { receiver, args, .. } => expr_findings(*receiver, f, env, t) + exprs_findings(args@, f, env, t),
        Expr::Field { receiver, .. } => expr_findings(*receiver, f, env, t),
        Expr::Index { receiver, index } => expr_findings(*receiver, f, env, t) + expr_findings(*index, f, env, t),
        Expr::If { condition, then_block, elsif_clauses, else_block } => {
            let tail = match else_block {
                Some(b) => block_findings(b, f, env, t),
                None => Seq::empty(),
            };
            expr_findings(*condition, f, env, t) + block_findings(then_block, f, env, t)
                + elsifs_findings(elsif_clauses@, f, env, t) + tail
        },
        Expr::Match { subject, arms } => {
            let own = match domain_of_expr(*subject, env, t) {
                Some(d) => arms_findings(f, d, arms@, Set::empty(), false),
                None => Seq::empty(),
            };
            expr_findings(*subject, f, env, t) + own + arms_walk(arms@, f, env, t)
        },
        Expr::Try { body, rescues, ensure } => {
            let tail = match ensure {
                Some(b) => block_findings(b, f, env, t),
                None => Seq::empty(),
            };
            block_findings(body, f, env, t) + rescues_findings(rescues@, f, env, t) + tail
        },
        Expr::Closure { body, .. } => match *body {
            ClosureBody::Block(b) => block_findings(b, f, env, t),
            ClosureBody::Expr(x) => expr_findings(*x, f, env, t),
        },
        Expr::Array { elements } => exprs_findings(elements@, f, env, t),
        Expr::MapLit { entries } => entries_findings(entries@, f, env, t),
        _ => Seq::empty(),
    }
}

/// The findings within expressions, in order.
pub open spec fn exprs_findings(es: Seq<Expr>, f: Seq<char>, env: Scope, t: Enums) -> Seq<Seq<char>>
    decreases es,
{
    if es.len() == 0 {
        Seq::empty()
    } else {
        expr_findings(es[0], f, env, t) + exprs_findings(es.subrange(1, es.len() as int), f, env, t)
    }
}

/// The findings within map entries, keys before values.
pub open spec fn entries_findings(es: Seq<(Expr, Expr)>, f: Seq<char>, env: Scope, t: Enums) -> Seq<Seq<char>>
    decreases es,
{
    if es.len() == 0 {
        Seq::empty()
    } else {
        expr_findings(es[0].0, f, env, t) + expr_findings(es[0].1, f, env, t)
            + entries_findings(es.subrange(1, es.len() as int), f, env, t)
    }
}

/// The findings within `elsif` clauses.
pub open spec fn elsifs_findings(cs: Seq<(Expr, Block)>, f: Seq<char>, env: Scope, t: Enums) -> Seq<Seq<char>>
    decreases cs,
{
    if cs.len() == 0 {
        Seq::empty()
    } else {
        expr_findings(cs[0].0, f, env, t) + block_findings(cs[0].1, f, env, t)
            + elsifs_findings(cs.subrange(1, cs.len() as int), f, env, t)
    }
}

/// The findings within `match` arms: each guard, then each body in the
/// scope without the arm pattern's bindings.
pub open spec fn arms_walk(arms: Seq<MatchArm>, f: Seq<char>, env: Scope, t: Enums) -> Seq<Seq<char>>
    decreases arms,
{
    if arms.len() == 0 {
        Seq::empty()
    } else {
        let guard = match arms[0].guard {
            Some(g) => expr_findings(g, f, env, t),
            None => Seq::empty(),
        };
        guard + block_findings(arms[0].body, f, unbind(arms[0].pattern, env), t)
            + arms_walk(arms.subrange(1, arms.len() as int), f, env, t)
    }
}

/// The findings within `rescue` bodies.
pub open spec fn rescues_findings(rs: Seq<Rescue>, f: Seq<char>, env: Scope, t: Enums) -> Seq<Seq<char>>
    decreases rs,
{
    if rs.len() == 0 {
        Seq::empty()
    } else {
        block_findings(rs[0].body, f, env, t) + rescues_findings(rs.subrange(1, rs.len() as int), f, env, t)
    }
}

/// The findings within a block: its statements, each in the scope the
/// earlier ones leave, then its tail.
pub open spec fn block_findings(b: Block, f: Seq<char>, env: Scope, t: Enums) -> Seq<Seq<char>>
    decreases b,
{
    let tail = match b.tail_expr {
        Some(x) => expr_findings(*x, f, stmts_scope(b.stmts@, env, t), t),
        None => Seq::empty(),
    };
    stmts_findings(b.stmts@, f, env, t) + tail
}

/// The findings within statements.
pub open spec fn stmts_findings(ss: Seq<Stmt>, f: Seq<char>, env: Scope, t: Enums) -> Seq<Seq<char>>
    decreases ss,
{
    if ss.len() == 0 {
        Seq::empty()
    } else {
        stmt_findings(ss[0], f, env, t) + stmts_findings(ss.subrange(1, ss.len() as int), f, stmt_scope(ss[0], env, t), t)
    }
}

/// The findings within an optional expression.
pub open spec fn opt_findings(e: Option<Expr>, f: Seq<char>, env: Scope, t: Enums) -> Seq<Seq<char>>
    decreases e,
{
    match e {
        Some(x) => expr_findings(x, f, env, t),
        None => Seq::empty(),
    }
}

/// The findings within a statement.
pub open spec fn stmt_findings(s: Stmt, f: Seq<char>, env: Scope, t: Enums) -> Seq<Seq<char>>
    decreases s,
{
    match s {
        Stmt::Let(d) => expr_findings(d.value, f, env, t),
        Stmt::Var(d) => expr_findings(d.value, f, env, t),
        Stmt::Const(d) => expr_findings(d.value, f, env, t),
        Stmt::Assign { target, value, .. } => expr_findings(target, f, env, t) + expr_findings(value, f, env, t),
        Stmt::While { condition, body, .. } => expr_findings(condition, f, env, t) + block_findings(body, f, env, t),
        Stmt::For { iter, body, .. } => expr_findings(iter, f, env, t) + block_findings(body, f, env, t),
        Stmt::Loop { body, .. } => block_findings(body, f, env, t),
        Stmt::Return { value } => opt_findings(value, f, env, t),
        Stmt::Yield { value } => opt_findings(value, f, env, t),
        Stmt::Next { value } => opt_findings(value, f, env, t),
        Stmt::Break { value } => opt_findings(value, f, env, t),
        Stmt::Raise { value } => expr_findings(value, f, env, t),
        Stmt::Expr(x) => expr_findings(x, f, env, t),
        Stmt::Continue => Seq::empty(),
    }
}

/// The findings of a function: none unless it is checked as safe code.
pub open spec fn fn_findings(fd: FnDef, safe: bool, t: Enums) -> Seq<Seq<char>> {
    if safe {
        block_findings(fd.body, fd.name@, params_scope(fd.params@, Map::empty(), t), t)
    } else {
        Seq::empty()
    }
}

/// The findings of impl methods; a method is safe code in a safe module or
/// when declared `fn`.
pub open spec fn methods_findings(ms: Seq<FnDef>, module_safe: bool, t: Enums) -> Seq<Seq<char>>
    decreases ms.len(),
{
    if ms.len() == 0 {
        Seq::empty()
    } else {
        fn_findings(ms[0], module_safe || ms[0].mode == FnMode::Safe, t)
            + methods_findings(ms.subrange(1, ms.len() as int), module_safe, t)
    }
}

/// The findings of the items of a module tree, in source order.
pub open spec fn items_findings(items: Seq<Item>, module_safe: bool, t: Enums) -> Seq<Seq<char>>
    decreases items,
{
    if items.len() == 0 {
        Seq::empty()
    } else {
        let head = match items[0] {
            Item::Fn(fd) => fn_findings(fd, module_safe || fd.mode == FnMode::Safe, t),
            Item::Module(m) => items_findings(m.items@, module_safe || m.safe, t),
            Item::Impl(b) => methods_findings(b.methods@, module_safe, t),
            _ => Seq::empty(),
        };
        head + items_findings(items.subrange(1, items.len() as int), module_safe, t)
    }
}

/// The match-coverage findings of a module.
pub open spec fn coverage_findings(m: Module) -> Seq<Seq<char>> {
    items_findings(m.items@, m.safe, enum_entries(m.items@, Seq::empty()))
}

// ---------------------------------------------------------------------------
// The enum table
// ---------------------------------------------------------------------------

/// An enum of the module tree: its full path and its variant names in
/// strictly increasing order.
struct EnumEntry {
    path: Vec<String>,
    variants: Vec<String>,
}

/// The table as paths and variant sets.
spec fn tview(t: Seq<EnumEntry>) -> Seq<(Seq<Seq<char>>, Set<Seq<char>>)> {
    t.map_values(|e: EnumEntry| (seg_views(e.path@), seg_views(e.variants@).to_set()))
}

/// Every entry's variants are strictly sorted.
spec fn table_ok(t: Seq<EnumEntry>) -> bool {
    forall|i: int| 0 <= i < t.len() ==> strictly_sorted(#[trigger] seg_views(t[i].variants@))
}

/// `prefix` with `name` appended.
fn extend_path(prefix: &Vec<String>, name: &String) -> (r: Vec<String>)
    ensures
        seg_views(r@) == seg_views(prefix@).push(name@),
{
    let mut r: Vec<String> = Vec::new();
    let mut i: usize = 0;
    while i < prefix.len()
        invariant
            i <= prefix@.len(),
            seg_views(r@) == seg_views(prefix@.subrange(0, i as int)),
        decreases prefix@.len() - i,
    {
        let ghost r0 = r@;
        r.push(prefix[i].clone());
        assert(seg_views(r@) =~= seg_views(prefix@.subrange(0, i as int + 1))) by {
            assert(seg_views(r@) =~= seg_views(r0).push(prefix@[i as int]@));
        }
        i = i + 1;
    }
    assert(prefix@.subrange(0, i as int) =~= prefix@);
    let ghost r0 = r@;
    r.push(name.clone());
    assert(seg_views(r@) =~= seg_views(r0).push(name@));
    r
}

/// The variant names, strictly sorted.
fn sorted_variants(e: &EnumDef) -> (r: Vec<String>)
    ensures
        strictly_sorted(seg_views(r@)),
        seg_views(r@).to_set() == seg_views(e.variants@).to_set(),
{
    let mut r: Vec<String> = Vec::new();
    let mut i: usize = 0;
    assert(views(r@) =~= seg_views(r@));
    while i < e.variants.len()
        invariant
            i <= e.variants@.len(),
            strictly_sorted(views(r@)),
            views(r@).to_set() == seg_views(e.variants@.subrange(0, i as int)).to_set(),
        decreases e.variants@.len() - i,
    {
        let ghost s0 = seg_views(e.variants@.subrange(0, i as int));
        insert_sorted(&mut r, e.variants[i].clone());
        assert(seg_views(e.variants@.subrange(0, i as int + 1)) =~= s0.push(e.variants@[i as int]@));
        proof {
            s0.lemma_push_to_set_commute(e.variants@[i as int]@);
        }
        i = i + 1;
    }
    assert(e.variants@.subrange(0, i as int) =~= e.variants@);
    assert(views(r@) =~= seg_views(r@));
    r
}

/// Appends the enums of the module tree to the table.
fn collect_enums(items: &Vec<Item>, prefix: &Vec<String>, table: &mut Vec<EnumEntry>)
    requires
        table_ok(old(table)@),
    ensures
        table_ok(final(table)@),
        tview(final(table)@) == tview(old(table)@) + enum_entries(items@, seg_views(prefix@)),
    decreases items,
{
    let ghost t0 = tview(table@);
    let ghost pv = seg_views(prefix@);
    let mut i: usize = 0;
    assert(items@.subrange(0, items@.len() as int) =~= items@);
    assert(t0 + enum_entries(items@, pv) =~= tview(table@) + enum_entries(items@.subrange(0, items@.len() as int), pv));
    while i < items.len()
        invariant
            i <= items@.len(),
            pv == seg_views(prefix@),
            table_ok(table@),
            t0 + enum_entries(items@, pv) == tview(table@) + enum_entries(items@.subrange(i as int, items@.len() as int), pv),
        decreases items@.len() - i,
    {
        let ghost rest = items@.subrange(i as int, items@.len() as int);
        assert(rest[0] == items@[i as int]);
        assert(rest.subrange(1, rest.len() as int) =~= items@.subrange(i as int + 1, items@.len() as int));
        let ghost before = tview(table@);
        let ghost tail = enum_entries(items@.subrange(i as int + 1, items@.len() as int), pv);
        match &items[i] {
            Item::Enum(e) => {
                let path = extend_path(prefix, &e.name);
                let vs = sorted_variants(e);
                let ghost t1 = table@;
                table.push(EnumEntry { path, variants: vs });
                assert(tview(table@) =~= before.push((pv.push(e.name@), seg_views(e.variants@).to_set())));
                assert(before + (seq![(pv.push(e.name@), seg_views(e.variants@).to_set())] + tail) =~= tview(table@) + tail);
                assert(forall|k: int| 0 <= k < t1.len() ==> table@[k] == t1[k]);
            },
            Item::Module(m) => {
                proof {
                    assert(decreases_to!(*items => items@));
                    assert(decreases_to!(items@ => items@[i as int]));
                    assert(decreases_to!(items@[i as int] => m.items));
                }
                let np = extend_path(prefix, &m.name);
                collect_enums(&m.items, &np, table);
                assert(before + (enum_entries(m.items@, pv.push(m.name@)) + tail) =~= tview(table@) + tail);
            },
            _ => {
                assert(before + (Seq::empty() + tail) =~= tview(table@) + tail);
            },
        }
        i = i + 1;
    }
    assert(tview(table@) + enum_entries(items@.subrange(i as int, items@.len() as int), pv) =~= tview(table@));
}

/// Whether two paths are equal.
fn paths_eq(a: &Vec<String>, b: &Vec<String>) -> (r: bool)
    ensures
        r == (seg_views(a@) == seg_views(b@)),
{
    if a.len() != b.len() {
        assert(seg_views(a@).len() != seg_views(b@).len());
        return false;
    }
    let mut i: usize = 0;
    while i < a.len()
        invariant
            i <= a@.len(),
            a@.len() == b@.len(),
            forall|k: int| 0 <= k < i ==> a@[k]@ == b@[k]@,
        decreases a@.len() - i,
    {
        if !str_eq(a[i].as_str(), b[i].as_str()) {
            assert(seg_views(a@)[i as int] != seg_views(b@)[i as int]);
            return false;
        }
        i = i + 1;
    }
    assert(seg_views(a@) =~= seg_views(b@));
    true
}

/// The index of the last entry declared at `path`.
fn latest_index(table: &Vec<EnumEntry>, path: &Vec<String>) -> (r: Option<usize>)
    ensures
        match r {
            Some(k) => k < table@.len() && latest(tview(table@), seg_views(path@)) == Some(tview(table@)[k as int].1)
                && tview(table@)[k as int].0 == seg_views(path@),
            None => latest(tview(table@), seg_views(path@)) is None,
        },
{
    let ghost t = tview(table@);
    let ghost p = seg_views(path@);
    let mut i: usize = table.len();
    assert(t.subrange(0, t.len() as int) =~= t);
    while i > 0
        invariant
            i <= table@.len(),
            t == tview(table@),
            p == seg_views(path@),
            latest(t, p) == latest(t.subrange(0, i as int), p),
        decreases i,
    {
        let ghost sub = t.subrange(0, i as int);
        assert(sub.drop_last() =~= t.subrange(0, i as int - 1));
        assert(sub.last() == t[i as int - 1]);
        if paths_eq(&table[i - 1].path, path) {
            return Some(i - 1);
        }
        i = i - 1;
    }
    None
}

/// The distinct-path count of the entries ending in `name`, with the index
/// of the first entry of the one path when there is exactly one.
fn bare_index(table: &Vec<EnumEntry>, name: &String) -> (r: Option<usize>)
    ensures
        match bare_scan(tview(table@), name@) {
            Bare::One(p) => r is Some && r->0 < table@.len() && tview(table@)[r->0 as int].0 == p,
            _ => r is None,
        },
{
    let ghost t = tview(table@);
    let mut first: Option<usize> = None;
    let mut many = false;
    let mut i: usize = 0;
    while i < table.len()
        invariant
            i <= table@.len(),
            t == tview(table@),
            match bare_scan(t.subrange(0, i as int), name@) {
                Bare::Zero => first is None && !many,
                Bare::One(p) => first is Some && first->0 < i && t[first->0 as int].0 == p && !many,
                Bare::Many => many,
            },
        decreases table@.len() - i,
    {
        let ghost sub = t.subrange(0, i as int + 1);
        assert(sub.drop_last() =~= t.subrange(0, i as int));
        assert(sub.last() == t[i as int]);
        let n = table[i].path.len();
        if !many && n > 0 && str_eq(table[i].path[n - 1].as_str(), name.as_str()) {
            assert(seg_views(table@[i as int].path@).last() == name@);
            match first {
                None => {
                    first = Some(i);
                },
                Some(j) => {
                    if !paths_eq(&table[j].path, &table[i].path) {
                        many = true;
                    }
                },
            }
        } else if !many {
            proof {
                if n > 0 {
                    assert(seg_views(table@[i as int].path@).last() == table@[i as int].path@[n - 1]@);
                }
            }
        }
        i = i + 1;
    }
    assert(t.subrange(0, i as int) =~= t);
    if many { None } else { first }
}

/// The index of the entry a type path names (see `lookup_enum`).
fn lookup_index(table: &Vec<EnumEntry>, path: &Vec<String>) -> (r: Option<usize>)
    ensures
        match r {
            Some(k) => k < table@.len() && lookup_enum(tview(table@), seg_views(path@)) == Some(tview(table@)[k as int]),
            None => lookup_enum(tview(table@), seg_views(path@)) is None,
        },
{
    match latest_index(table, path) {
        Some(k) => Some(k),
        None => {
            if path.len() == 1 {
                match bare_index(table, &path[0]) {
                    Some(j) => {
                        let r = latest_index(table, &table[j].path);
                        proof {
                            if r is None {
                                let t = tview(table@);
                                let p = t[j as int].0;
                                assert(t[j as int] == t[j as int]);
                                lemma_latest_of_member(t, j as int);
                            }
                        }
                        r
                    },
                    None => None,
                }
            } else {
                None
            }
        },
    }
}

/// A path present in the table has a latest entry.
proof fn lemma_latest_of_member(t: Seq<(Seq<Seq<char>>, Set<Seq<char>>)>, j: int)
    requires
        0 <= j < t.len(),
    ensures
        latest(t, t[j].0) is Some,
    decreases t.len(),
{
    if t.last().0 != t[j].0 {
        assert(j != t.len() - 1);
        assert(t.drop_last()[j] == t[j]);
        lemma_latest_of_member(t.drop_last(), j);
    }
}

/// An exec finite domain: `Bool`, or the index of an enum's table entry.
#[derive(Clone, Copy)]
enum Domain {
    Bool,
    Enum(usize),
}

/// The domain an exec domain stands for.
spec fn dom_view(d: Domain, t: Seq<(Seq<Seq<char>>, Set<Seq<char>>)>) -> DomainV {
    match d {
        Domain::Bool => DomainV::Bool,
        Domain::Enum(k) => DomainV::Enum(t[k as int].0, t[k as int].1),
    }
}

/// An exec domain whose index is in the table.
spec fn dom_ok(d: Domain, n: nat) -> bool {
    match d {
        Domain::Bool => true,
        Domain::Enum(k) => k < n,
    }
}

/// The finite domain a type annotation names, if any.
fn domain_from_type(ty: &TypeExpr, table: &Vec<EnumEntry>) -> (r: Option<Domain>)
    ensures
        match r {
            Some(d) => dom_ok(d, table@.len()) && domain_of_type(*ty, tview(table@)) == Some(dom_view(d, tview(table@))),
            None => domain_of_type(*ty, tview(table@)) is None,
        },
{
    match ty {
        TypeExpr::Named { path, .. } => {
            let n = path.len();
            if n > 0 && str_eq(path[n - 1].as_str(), "Bool") {
                assert(seg_views(path@).last() == path@[n - 1]@);
                proof { reveal_strlit("Bool"); }
                return Some(Domain::Bool);
            }
            proof {
                if n > 0 {
                    assert(seg_views(path@).last() == path@[n - 1]@);
                }
            }
            match lookup_index(table, path) {
                Some(k) => Some(Domain::Enum(k)),
                None => None,
            }
        },
        _ => None,
    }
}

// ---------------------------------------------------------------------------
// Checking the arms of one `match`
// ---------------------------------------------------------------------------

/// The covered values, as a set.
spec fn cov(v: Seq<String>) -> Set<Seq<char>> {
    seg_views(v).to_set()
}

/// Whether `s` is among the strings of `v`.
fn contains_str(v: &Vec<String>, s: &str) -> (r: bool)
    ensures
        r == cov(v@).contains(s@),
{
    let mut i: usize = 0;
    while i < v.len()
        invariant
            i <= v@.len(),
            forall|k: int| 0 <= k < i ==> v@[k]@ != s@,
        decreases v@.len() - i,
    {
        if str_eq(v[i].as_str(), s) {
            assert(seg_views(v@)[i as int] == s@);
            return true;
        }
        i = i + 1;
    }
    proof {
        if seg_views(v@).contains(s@) {
            let k = choose|k: int| 0 <= k < seg_views(v@).len() && seg_views(v@)[k] == s@;
            assert(v@[k]@ == s@);
        }
    }
    false
}

/// Whether the covered values exhaust the domain.
fn fully(d: Domain, covered: &Vec<String>, table: &Vec<EnumEntry>) -> (r: bool)
    requires
        dom_ok(d, table@.len()),
    ensures
        r == fully_covered(dom_view(d, tview(table@)), cov(covered@)),
{
    match d {
        Domain::Bool => {
            proof {
                reveal_strlit("true");
                reveal_strlit("false");
            }
            contains_str(covered, "true") && contains_str(covered, "false")
        },
        Domain::Enum(k) => {
            let vs = &table[k].variants;
            let ghost set = seg_views(vs@).to_set();
            assert(tview(table@)[k as int].1 == set);
            let mut i: usize = 0;
            while i < vs.len()
                invariant
                    i <= vs@.len(),
                    set == seg_views(vs@).to_set(),
                    k < table@.len(),
                    d == Domain::Enum(k),
                    tview(table@)[k as int].1 == set,
                    forall|j: int| 0 <= j < i ==> cov(covered@).contains(#[trigger] seg_views(vs@)[j]),
                decreases vs@.len() - i,
            {
                if !contains_str(covered, vs[i].as_str()) {
                    assert(seg_views(vs@)[i as int] == vs@[i as int]@);
                    assert(!cov(covered@).contains(seg_views(vs@)[i as int]));
                    assert(seg_views(vs@).contains(seg_views(vs@)[i as int]));
                    assert(set.contains(seg_views(vs@)[i as int]));
                    return false;
                }
                i = i + 1;
            }
            assert forall|x: Seq<char>| set.contains(x) implies cov(covered@).contains(x) by {
                let j = choose|j: int| 0 <= j < seg_views(vs@).len() && seg_views(vs@)[j] == x;
                assert(cov(covered@).contains(seg_views(vs@)[j]));
            }
            true
        },
    }
}

/// The uncovered names, each as `` `prefix name` ``.
fn missing_list(names: &Vec<String>, covered: &Vec<String>, prefix: &str) -> (r: Vec<String>)
    ensures
        seg_views(r@) == missing_of(seg_views(names@), cov(covered@), prefix@),
{
    let ghost ns = seg_views(names@);
    let ghost cs = cov(covered@);
    let mut r: Vec<String> = Vec::new();
    let mut i: usize = 0;
    assert(ns.subrange(0, ns.len() as int) =~= ns);
    while i < names.len()
        invariant
            i <= names@.len(),
            ns == seg_views(names@),
            cs == cov(covered@),
            missing_of(ns, cs, prefix@) == seg_views(r@) + missing_of(ns.subrange(i as int, ns.len() as int), cs, prefix@),
        decreases names@.len() - i,
    {
        let ghost rest = ns.subrange(i as int, ns.len() as int);
        assert(rest[0] == ns[i as int]);
        assert(rest.subrange(1, rest.len() as int) =~= ns.subrange(i as int + 1, ns.len() as int));
        let ghost r0 = seg_views(r@);
        let ghost tail = missing_of(ns.subrange(i as int + 1, ns.len() as int), cs, prefix@);
        if !contains_str(covered, names[i].as_str()) {
            let mut m = String::from_str("`");
            m.append(prefix);
            m.append(names[i].as_str());
            m.append("`");
            proof {
                reveal_strlit("`");
            }
            r.push(m);
            assert(seg_views(r@) =~= r0.push("`"@ + prefix@ + ns[i as int] + "`"@));
            assert(r0 + (seq!["`"@ + prefix@ + ns[i as int] + "`"@] + tail) =~= seg_views(r@) + tail);
        } else {
            assert(r0 + (Seq::empty() + tail) =~= seg_views(r@) + tail);
        }
        i = i + 1;
    }
    assert(seg_views(r@) + missing_of(ns.subrange(i as int, ns.len() as int), cs, prefix@) =~= seg_views(r@));
    r
}

/// The uncovered values of the domain, comma-separated.
fn missing_string(d: Domain, covered: &Vec<String>, table: &Vec<EnumEntry>) -> (r: String)
    requires
        table_ok(table@),
        dom_ok(d, table@.len()),
    ensures
        r@ == missing_text(dom_view(d, tview(table@)), cov(covered@)),
{
    match d {
        Domain::Bool => {
            let mut names: Vec<String> = Vec::new();
            names.push(String::from_str("true"));
            names.push(String::from_str("false"));
            proof {
                reveal_strlit("true");
                reveal_strlit("false");
                reveal_strlit("");
            }
            assert(seg_views(names@) =~= seq!["true"@, "false"@]);
            let list = missing_list(&names, covered, "");
            join_strings(&list, ", ")
        },
        Domain::Enum(k) => {
            let mut prefix = join_strings(&table[k].path, "::");
            prefix.append("::");
            proof {
                assert(table_ok(table@));
                assert(strictly_sorted(seg_views(table@[k as int].variants@)));
                lemma_sorted_of(seg_views(table@[k as int].variants@));
            }
            let list = missing_list(&table[k].variants, covered, prefix.as_str());
            join_strings(&list, ", ")
        },
    }
}

/// Whether the first `m` segments of `path` are exactly `other`.
fn prefix_is(path: &Vec<String>, m: usize, other: &Vec<String>) -> (r: bool)
    requires
        m <= path@.len(),
    ensures
        r == (seg_views(path@).subrange(0, m as int) == seg_views(other@)),
{
    if m != other.len() {
        assert(seg_views(path@).subrange(0, m as int).len() != seg_views(other@).len());
        return false;
    }
    let mut i: usize = 0;
    while i < m
        invariant
            i <= m,
            m <= path@.len(),
            m == other@.len(),
            forall|k: int| 0 <= k < i ==> path@[k]@ == other@[k]@,
        decreases m - i,
    {
        if !str_eq(path[i].as_str(), other[i].as_str()) {
            assert(seg_views(path@).subrange(0, m as int)[i as int] != seg_views(other@)[i as int]);
            return false;
        }
        i = i + 1;
    }
    assert(seg_views(path@).subrange(0, m as int) =~= seg_views(other@));
    true
}

/// The value of the domain a pattern covers, if any.
fn key_of(d: Domain, p: &Pattern, table: &Vec<EnumEntry>) -> (r: Option<String>)
    requires
        dom_ok(d, table@.len()),
    ensures
        match r {
            Some(k) => coverage_key(dom_view(d, tview(table@)), *p) == Some(k@),
            None => coverage_key(dom_view(d, tview(table@)), *p) is None,
        },
{
    match d {
        Domain::Bool => match p {
            Pattern::Literal(Expr::Bool(b)) => {
                proof {
                    reveal_strlit("true");
                    reveal_strlit("false");
                }
                if *b { Some(String::from_str("true")) } else { Some(String::from_str("false")) }
            },
            _ => None,
        },
        Domain::Enum(k) => match p {
            Pattern::Enum(path, _) => {
                let n = path.len();
                if n == 0 {
                    return None;
                }
                let ghost segs = seg_views(path@);
                assert(segs.last() == path@[n - 1]@);
                assert(segs.drop_last() =~= segs.subrange(0, n as int - 1));
                assert(tview(table@)[k as int].1 == cov(table@[k as int].variants@));
                if contains_str(&table[k].variants, path[n - 1].as_str())
                    && (n == 1 || prefix_is(path, n - 1, &table[k].path)) {
                    Some(path[n - 1].clone())
                } else {
                    None
                }
            },
            _ => None,
        },
    }
}

/// Whether a pattern matches anything.
fn catch_all(p: &Pattern) -> (r: bool)
    ensures
        r == is_catch_all(*p),
{
    match p {
        Pattern::Ident(_) | Pattern::Wildcard | Pattern::Rest => true,
        _ => false,
    }
}

/// How a pattern is written in a diagnostic.
fn describe_pattern(p: &Pattern) -> (r: String)
    ensures
        r@ == describe(*p),
{
    proof {
        reveal_strlit("`true`");
        reveal_strlit("`false`");
        reveal_strlit("`");
        reveal_strlit("`nil`");
        reveal_strlit("`\"");
        reveal_strlit("\"`");
        reveal_strlit("`:");
        reveal_strlit("`<literal>`");
        reveal_strlit("`<tuple>`");
        reveal_strlit("`_`");
        reveal_strlit("`..`");
    }
    match p {
        Pattern::Literal(e) => match e {
            Expr::Bool(b) => if *b { String::from_str("`true`") } else { String::from_str("`false`") },
            Expr::Int(v) => {
                let mut m = String::from_str("`");
                push_signed_decimal_wide(&mut m, *v);
                m.append("`");
                m
            },
            Expr::Float(t) => {
                let mut m = String::from_str("`");
                m.append(t.as_str());
                m.append("`");
                m
            },
            Expr::Nil => String::from_str("`nil`"),
            Expr::Str(t) => {
                let mut m = String::from_str("`\"");
                m.append(t.as_str());
                m.append("\"`");
                m
            },
            Expr::Symbol(t) => {
                let mut m = String::from_str("`:");
                m.append(t.as_str());
                m.append("`");
                m
            },
            _ => String::from_str("`<literal>`"),
        },
        Pattern::Ident(n) => {
            let mut m = String::from_str("`");
            m.append(n.as_str());
            m.append("`");
            m
        },
        Pattern::Tuple(_) => String::from_str("`<tuple>`"),
        Pattern::Enum(path, _) => {
            let mut m = String::from_str("`");
            let j = join_strings(path, "::");
            m.append(j.as_str());
            m.append("`");
            m
        },
        Pattern::Wildcard => String::from_str("`_`"),
        Pattern::Rest => String::from_str("`..`"),
    }
}

/// `"<head>'<f><mid><p><tail>"`: the shape of every finding.
fn finding(head: &str, f: &str, mid: &str, p: &str, tail: &str) -> (r: String)
    ensures
        r@ == head@ + f@ + mid@ + p@ + tail@,
{
    let mut m = String::from_str(head);
    m.append(f);
    m.append(mid);
    m.append(p);
    m.append(tail);
    m
}

/// Appends the findings on a `match`'s arms over domain `d`.
fn check_arms(f: &str, d: Domain, arms: &Vec<MatchArm>, table: &Vec<EnumEntry>, out: &mut Vec<String>)
    requires
        table_ok(table@),
        dom_ok(d, table@.len()),
    ensures
        seg_views(final(out)@) == seg_views(old(out)@) + arms_findings(f@, dom_view(d, tview(table@)), arms@, Set::empty(), false),
{
    let ghost dv = dom_view(d, tview(table@));
    let ghost o0 = seg_views(out@);
    let mut covered: Vec<String> = Vec::new();
    let mut caught = false;
    let mut i: usize = 0;
    proof {
        reveal_strlit("unreachable match arm in safe function '");
        reveal_strlit("': pattern ");
        reveal_strlit(" is covered by prior catch-all arm");
        reveal_strlit("': finite domain is already fully covered before pattern ");
        reveal_strlit("");
        reveal_strlit(" is already covered by prior arm");
        reveal_strlit("non-exhaustive match in safe function '");
        reveal_strlit("': missing ");
    }
    assert(cov(covered@) =~= Set::<Seq<char>>::empty());
    assert(arms@.subrange(0, arms@.len() as int) =~= arms@);
    while i < arms.len()
        invariant
            i <= arms@.len(),
            table_ok(table@),
            dom_ok(d, table@.len()),
            dv == dom_view(d, tview(table@)),
            o0 + arms_findings(f@, dv, arms@, Set::empty(), false)
                == seg_views(out@) + arms_findings(f@, dv, arms@.subrange(i as int, arms@.len() as int), cov(covered@), caught),
        decreases arms@.len() - i,
    {
        let ghost rest = arms@.subrange(i as int, arms@.len() as int);
        assert(rest[0] == arms@[i as int]);
        assert(rest.subrange(1, rest.len() as int) =~= arms@.subrange(i as int + 1, arms@.len() as int));
        let ghost before = seg_views(out@);
        let ghost cs = cov(covered@);
        let arm = &arms[i];
        let p = describe_pattern(&arm.pattern);
        proof {
            reveal_strlit("");
        }
        if caught {
            out.push(finding("unreachable match arm in safe function '", f, "': pattern ", p.as_str(), " is covered by prior catch-all arm"));
            assert(seg_views(out@) =~= before.push(after_catch_all(f@, p@)));
            assert(before + (seq![after_catch_all(f@, p@)] + arms_findings(f@, dv, rest.subrange(1, rest.len() as int), cs, caught))
                =~= seg_views(out@) + arms_findings(f@, dv, rest.subrange(1, rest.len() as int), cs, caught));
        } else if fully(d, &covered, table) {
            out.push(finding("unreachable match arm in safe function '", f, "': finite domain is already fully covered before pattern ", p.as_str(), ""));
            assert(after_full_cover(f@, p@) + ""@ =~= after_full_cover(f@, p@));
            assert(seg_views(out@) =~= before.push(after_full_cover(f@, p@)));
            assert(before + (seq![after_full_cover(f@, p@)] + arms_findings(f@, dv, rest.subrange(1, rest.len() as int), cs, caught))
                =~= seg_views(out@) + arms_findings(f@, dv, rest.subrange(1, rest.len() as int), cs, caught));
        } else {
            let key = key_of(d, &arm.pattern, table);
            let dup = match &key {
                Some(k) => contains_str(&covered, k.as_str()),
                None => false,
            };
            let ghost head: Seq<Seq<char>> = if dup { seq![already_covered(f@, p@)] } else { Seq::empty() };
            if dup {
                out.push(finding("unreachable match arm in safe function '", f, "': pattern ", p.as_str(), " is already covered by prior arm"));
                assert(seg_views(out@) =~= before + head);
            } else {
                assert(seg_views(out@) =~= before + head);
            }
            let ghost mid = seg_views(out@);
            if arm.guard.is_some() {
                assert(before + (head + arms_findings(f@, dv, rest.subrange(1, rest.len() as int), cs, caught))
                    =~= mid + arms_findings(f@, dv, rest.subrange(1, rest.len() as int), cs, caught));
            } else if catch_all(&arm.pattern) {
                caught = true;
                assert(before + (head + arms_findings(f@, dv, rest.subrange(1, rest.len() as int), cs, true))
                    =~= mid + arms_findings(f@, dv, rest.subrange(1, rest.len() as int), cs, true));
            } else {
                match key {
                    Some(k) => {
                        let ghost kv = k@;
                        let ghost c0 = covered@;
                        covered.push(k);
                        proof {
                            assert(seg_views(covered@) =~= seg_views(c0).push(kv));
                            seg_views(c0).lemma_push_to_set_commute(kv);
                        }
                        assert(before + (head + arms_findings(f@, dv, rest.subrange(1, rest.len() as int), cs.insert(kv), caught))
                            =~= mid + arms_findings(f@, dv, rest.subrange(1, rest.len() as int), cov(covered@), caught));
                    },
                    None => {
                        assert(before + (head + arms_findings(f@, dv, rest.subrange(1, rest.len() as int), cs, caught))
                            =~= mid + arms_findings(f@, dv, rest.subrange(1, rest.len() as int), cs, caught));
                    },
                }
            }
        }
        i = i + 1;
    }
    let ghost before = seg_views(out@);
    proof {
        reveal_strlit("");
    }
    if !caught && !fully(d, &covered, table) {
        let missing = missing_string(d, &covered, table);
        out.push(finding("non-exhaustive match in safe function '", f, "': missing ", missing.as_str(), ""));
        assert(non_exhaustive(f@, missing@) + ""@ =~= non_exhaustive(f@, missing@));
        assert(seg_views(out@) =~= before.push(non_exhaustive(f@, missing@)));
    } else {
        assert(seg_views(out@) =~= before + Seq::<Seq<char>>::empty());
    }
}

// ---------------------------------------------------------------------------
// Scopes as stacks of bindings
// ---------------------------------------------------------------------------

/// The scope a stack of bindings stands for: a later entry shadows an
/// earlier one of the same name, and `None` unbinds it.
spec fn env_map(s: Seq<(String, Option<Domain>)>, t: Enums) -> Scope
    decreases s.len(),
{
    if s.len() == 0 {
        Map::empty()
    } else {
        let m = env_map(s.drop_last(), t);
        match s.last().1 {
            Some(d) => m.insert(s.last().0@, dom_view(d, t)),
            None => m.remove(s.last().0@),
        }
    }
}

/// Every domain on the stack indexes the table.
spec fn env_ok(s: Seq<(String, Option<Domain>)>, n: nat) -> bool {
    forall|i: int| 0 <= i < s.len() && (#[trigger] s[i]).1 is Some ==> dom_ok(s[i].1->0, n)
}

/// `b` is `a` with entries pushed on top.
spec fn grows(a: Seq<(String, Option<Domain>)>, b: Seq<(String, Option<Domain>)>) -> bool {
    b.len() >= a.len() && forall|i: int| 0 <= i < a.len() ==> #[trigger] b[i] == a[i]
}

/// The domain bound to `name`, if any.
fn env_lookup(stack: &Vec<(String, Option<Domain>)>, name: &str, table: &Vec<EnumEntry>) -> (r: Option<Domain>)
    requires
        env_ok(stack@, table@.len()),
    ensures
        match r {
            Some(d) => dom_ok(d, table@.len()) && env_map(stack@, tview(table@)).contains_key(name@)
                && env_map(stack@, tview(table@))[name@] == dom_view(d, tview(table@)),
            None => !env_map(stack@, tview(table@)).contains_key(name@),
        },
{
    let ghost t = tview(table@);
    let mut i: usize = stack.len();
    assert(stack@.subrange(0, stack@.len() as int) =~= stack@);
    while i > 0
        invariant
            i <= stack@.len(),
            env_ok(stack@, table@.len()),
            t == tview(table@),
            env_map(stack@, t).contains_key(name@) == env_map(stack@.subrange(0, i as int), t).contains_key(name@),
            env_map(stack@.subrange(0, i as int), t).contains_key(name@)
                ==> env_map(stack@, t)[name@] == env_map(stack@.subrange(0, i as int), t)[name@],
        decreases i,
    {
        let ghost sub = stack@.subrange(0, i as int);
        assert(sub.drop_last() =~= stack@.subrange(0, i as int - 1));
        assert(sub.last() == stack@[i as int - 1]);
        if str_eq(stack[i - 1].0.as_str(), name) {
            let r = stack[i - 1].1;
            assert(r == stack@[i as int - 1].1);
            return r;
        }
        i = i - 1;
    }
    None
}

/// Pushes entries that unbind the names a pattern binds.
fn push_unbind(p: &Pattern, stack: &mut Vec<(String, Option<Domain>)>, table: &Vec<EnumEntry>)
    requires
        env_ok(old(stack)@, table@.len()),
    ensures
        env_ok(final(stack)@, table@.len()),
        grows(old(stack)@, final(stack)@),
        env_map(final(stack)@, tview(table@)) == unbind(*p, env_map(old(stack)@, tview(table@))),
    decreases p,
{
    match p {
        Pattern::Ident(n) => {
            let ghost s0 = stack@;
            stack.push((n.clone(), None));
            assert(stack@.drop_last() =~= s0);
        },
        Pattern::Tuple(items) => push_unbind_all(items, stack, table),
        Pattern::Enum(_, items) => push_unbind_all(items, stack, table),
        _ => {},
    }
}

/// Pushes entries that unbind the names several patterns bind.
fn push_unbind_all(ps: &Vec<Pattern>, stack: &mut Vec<(String, Option<Domain>)>, table: &Vec<EnumEntry>)
    requires
        env_ok(old(stack)@, table@.len()),
    ensures
        env_ok(final(stack)@, table@.len()),
        grows(old(stack)@, final(stack)@),
        env_map(final(stack)@, tview(table@)) == unbind_all(ps@, env_map(old(stack)@, tview(table@))),
    decreases ps,
{
    let ghost t = tview(table@);
    let ghost s0 = stack@;
    let mut i: usize = 0;
    assert(ps@.subrange(0, ps@.len() as int) =~= ps@);
    while i < ps.len()
        invariant
            i <= ps@.len(),
            t == tview(table@),
            env_ok(stack@, table@.len()),
            grows(s0, stack@),
            unbind_all(ps@, env_map(s0, t)) == unbind_all(ps@.subrange(i as int, ps@.len() as int), env_map(stack@, t)),
        decreases ps@.len() - i,
    {
        let ghost rest = ps@.subrange(i as int, ps@.len() as int);
        assert(rest[0] == ps@[i as int]);
        assert(rest.subrange(1, rest.len() as int) =~= ps@.subrange(i as int + 1, ps@.len() as int));
        proof {
            assert(decreases_to!(*ps => ps@));
            assert(decreases_to!(ps@ => ps@[i as int]));
        }
        push_unbind(&ps[i], stack, table);
        i = i + 1;
    }
}

/// The finite domain of a `match` subject, if any.
fn domain_from_expr(e: &Expr, stack: &Vec<(String, Option<Domain>)>, table: &Vec<EnumEntry>) -> (r: Option<Domain>)
    requires
        env_ok(stack@, table@.len()),
    ensures
        match r {
            Some(d) => dom_ok(d, table@.len()) && domain_of_expr(*e, env_map(stack@, tview(table@)), tview(table@)) == Some(dom_view(d, tview(table@))),
            None => domain_of_expr(*e, env_map(stack@, tview(table@)), tview(table@)) is None,
        },
{
    match e {
        Expr::Bool(_) => Some(Domain::Bool),
        Expr::Ident(n) => env_lookup(stack, n.as_str(), table),
        Expr::Cast { ty, .. } => domain_from_type(ty, table),
        _ => None,
    }
}

// ---------------------------------------------------------------------------
// Walking function bodies
// ---------------------------------------------------------------------------

/// Appends the findings within an expression.
fn walk_expr(e: &Expr, f: &str, stack: &mut Vec<(String, Option<Domain>)>, table: &Vec<EnumEntry>, out: &mut Vec<String>)
    requires
        table_ok(table@),
        env_ok(old(stack)@, table@.len()),
    ensures
        final(stack)@ == old(stack)@,
        seg_views(final(out)@) == seg_views(old(out)@) + expr_findings(*e, f@, env_map(old(stack)@, tview(table@)), tview(table@)),
    decreases e,
{
    let ghost o0 = seg_views(out@);
    let ghost t = tview(table@);
    let ghost env = env_map(stack@, t);
    match e {
        Expr::Binary { lhs, rhs, .. } => {
            walk_expr(lhs, f, stack, table, out);
            walk_expr(rhs, f, stack, table, out);
        },
        Expr::Unary { expr } => walk_expr(expr, f, stack, table, out),
        Expr::Cast { expr, .. } => walk_expr(expr, f, stack, table, out),
        Expr::Spawn { expr, .. } => walk_expr(expr, f, stack, table, out),
        Expr::Call { callee, args } => {
            walk_expr(callee, f, stack, table, out);
            walk_exprs(args, f, stack, table, out);
        },
        Expr::Method { receiver, args, .. } => {
            walk_expr(receiver, f, stack, table, out);
            walk_exprs(args, f, stack, table, out);
        },
        Expr::Field { receiver, .. } => walk_expr(receiver, f, stack, table, out),
        Expr::Index { receiver, index } => {
            walk_expr(receiver, f, stack, table, out);
            walk_expr(index, f, stack, table, out);
        },
        Expr::If { condition, then_block, elsif_clauses, else_block } => {
            walk_expr(condition, f, stack, table, out);
            walk_block(then_block, f, stack, table, out);
            walk_elsifs(elsif_clauses, f, stack, table, out);
            match else_block {
                Some(b) => walk_block(b, f, stack, table, out),
                None => {},
            }
        },
        Expr::Match { subject, arms } => {
            walk_expr(subject, f, stack, table, out);
            match domain_from_expr(subject, stack, table) {
                Some(d) => check_arms(f, d, arms, table, out),
                None => {},
            }
            walk_arms(arms, f, stack, table, out);
        },
        Expr::Try { body, rescues, ensure } => {
            walk_block(body, f, stack, table, out);
            walk_rescues(rescues, f, stack, table, out);
            match ensure {
                Some(b) => walk_block(b, f, stack, table, out),
                None => {},
            }
        },
        Expr::Closure { body, .. } => {
            match &**body {
                ClosureBody::Block(b) => walk_block(b, f, stack, table, out),
                ClosureBody::Expr(x) => walk_expr(x, f, stack, table, out),
            }
        },
        Expr::Array { elements } => walk_exprs(elements, f, stack, table, out),
        Expr::MapLit { entries } => walk_entries(entries, f, stack, table, out),
        _ => {},
    }
    assert(seg_views(out@) =~= o0 + expr_findings(*e, f@, env, t));
}

/// Appends the findings within expressions.
fn walk_exprs(es: &Vec<Expr>, f: &str, stack: &mut Vec<(String, Option<Domain>)>, table: &Vec<EnumEntry>, out: &mut Vec<String>)
    requires
        table_ok(table@),
        env_ok(old(stack)@, table@.len()),
    ensures
        final(stack)@ == old(stack)@,
        seg_views(final(out)@) == seg_views(old(out)@) + exprs_findings(es@, f@, env_map(old(stack)@, tview(table@)), tview(table@)),
    decreases es,
{
    let ghost o0 = seg_views(out@);
    let ghost t = tview(table@);
    let ghost s0 = stack@;
    let ghost env = env_map(stack@, t);
    let mut i: usize = 0;
    assert(es@.subrange(0, es@.len() as int) =~= es@);
    assert(o0 + exprs_findings(es@, f@, env, t) =~= seg_views(out@) + exprs_findings(es@.subrange(0, es@.len() as int), f@, env, t));
    while i < es.len()
        invariant
            i <= es@.len(),
            table_ok(table@),
            t == tview(table@),
            stack@ == s0,
            env == env_map(s0, t),
            env_ok(s0, table@.len()),
            o0 + exprs_findings(es@, f@, env, t) == seg_views(out@) + exprs_findings(es@.subrange(i as int, es@.len() as int), f@, env, t),
        decreases es@.len() - i,
    {
        let ghost rest = es@.subrange(i as int, es@.len() as int);
        assert(rest[0] == es@[i as int]);
        assert(rest.subrange(1, rest.len() as int) =~= es@.subrange(i as int + 1, es@.len() as int));
        let ghost before = seg_views(out@);
        proof {
            assert(decreases_to!(*es => es@));
            assert(decreases_to!(es@ => es@[i as int]));
        }
        walk_expr(&es[i], f, stack, table, out);
        assert(before + (expr_findings(es@[i as int], f@, env, t) + exprs_findings(es@.subrange(i as int + 1, es@.len() as int), f@, env, t))
            =~= seg_views(out@) + exprs_findings(es@.subrange(i as int + 1, es@.len() as int), f@, env, t));
        i = i + 1;
    }
    assert(seg_views(out@) + exprs_findings(es@.subrange(i as int, es@.len() as int), f@, env, t) =~= seg_views(out@));
}

/// Appends the findings within map entries.
fn walk_entries(es: &Vec<(Expr, Expr)>, f: &str, stack: &mut Vec<(String, Option<Domain>)>, table: &Vec<EnumEntry>, out: &mut Vec<String>)
    requires
        table_ok(table@),
        env_ok(old(stack)@, table@.len()),
    ensures
        final(stack)@ == old(stack)@,
        seg_views(final(out)@) == seg_views(old(out)@) + entries_findings(es@, f@, env_map(old(stack)@, tview(table@)), tview(table@)),
    decreases es,
{
    let ghost o0 = seg_views(out@);
    let ghost t = tview(table@);
    let ghost s0 = stack@;
    let ghost env = env_map(stack@, t);
    let mut i: usize = 0;
    assert(es@.subrange(0, es@.len() as int) =~= es@);
    assert(o0 + entries_findings(es@, f@, env, t) =~= seg_views(out@) + entries_findings(es@.subrange(0, es@.len() as int), f@, env, t));
    while i < es.len()
        invariant
            i <= es@.len(),
            table_ok(table@),
            t == tview(table@),
            stack@ == s0,
            env == env_map(s0, t),
            env_ok(s0, table@.len()),
            o0 + entries_findings(es@, f@, env, t) == seg_views(out@) + entries_findings(es@.subrange(i as int, es@.len() as int), f@, env, t),
        decreases es@.len() - i,
    {
        let ghost rest = es@.subrange(i as int, es@.len() as int);
        assert(rest[0] == es@[i as int]);
        assert(rest.subrange(1, rest.len() as int) =~= es@.subrange(i as int + 1, es@.len() as int));
        let ghost before = seg_views(out@);
        proof {
            assert(decreases_to!(*es => es@));
            assert(decreases_to!(es@ => es@[i as int]));
            assert(decreases_to!(es@[i as int] => es@[i as int].0));
            assert(decreases_to!(es@[i as int] => es@[i as int].1));
        }
        walk_expr(&es[i].0, f, stack, table, out);
        walk_expr(&es[i].1, f, stack, table, out);
        assert(before + (expr_findings(es@[i as int].0, f@, env, t) + expr_findings(es@[i as int].1, f@, env, t)
            + entries_findings(es@.subrange(i as int + 1, es@.len() as int), f@, env, t))
            =~= seg_views(out@) + entries_findings(es@.subrange(i as int + 1, es@.len() as int), f@, env, t));
        i = i + 1;
    }
    assert(seg_views(out@) + entries_findings(es@.subrange(i as int, es@.len() as int), f@, env, t) =~= seg_views(out@));
}

/// Appends the findings within `elsif` clauses.
fn walk_elsifs(cs: &Vec<(Expr, Block)>, f: &str, stack: &mut Vec<(String, Option<Domain>)>, table: &Vec<EnumEntry>, out: &mut Vec<String>)
    requires
        table_ok(table@),
        env_ok(old(stack)@, table@.len()),
    ensures
        final(stack)@ == old(stack)@,
        seg_views(final(out)@) == seg_views(old(out)@) + elsifs_findings(cs@, f@, env_map(old(stack)@, tview(table@)), tview(table@)),
    decreases cs,
{
    let ghost o0 = seg_views(out@);
    let ghost t = tview(table@);
    let ghost s0 = stack@;
    let ghost env = env_map(stack@, t);
    let mut i: usize = 0;
    assert(cs@.subrange(0, cs@.len() as int) =~= cs@);
    assert(o0 + elsifs_findings(cs@, f@, env, t) =~= seg_views(out@) + elsifs_findings(cs@.subrange(0, cs@.len() as int), f@, env, t));
    while i < cs.len()
        invariant
            i <= cs@.len(),
            table_ok(table@),
            t == tview(table@),
            stack@ == s0,
            env == env_map(s0, t),
            env_ok(s0, table@.len()),
            o0 + elsifs_findings(cs@, f@, env, t) == seg_views(out@) + elsifs_findings(cs@.subrange(i as int, cs@.len() as int), f@, env, t),
        decreases cs@.len() - i,
    {
        let ghost rest = cs@.subrange(i as int, cs@.len() as int);
        assert(rest[0] == cs@[i as int]);
        assert(rest.subrange(1, rest.len() as int) =~= cs@.subrange(i as int + 1, cs@.len() as int));
        let ghost before = seg_views(out@);
        proof {
            assert(decreases_to!(*cs => cs@));
            assert(decreases_to!(cs@ => cs@[i as int]));
            assert(decreases_to!(cs@[i as int] => cs@[i as int].0));
            assert(decreases_to!(cs@[i as int] => cs@[i as int].1));
        }
        walk_expr(&cs[i].0, f, stack, table, out);
        walk_block(&cs[i].1, f, stack, table, out);
        assert(before + (expr_findings(cs@[i as int].0, f@, env, t) + block_findings(cs@[i as int].1, f@, env, t)
            + elsifs_findings(cs@.subrange(i as int + 1, cs@.len() as int), f@, env, t))
            =~= seg_views(out@) + elsifs_findings(cs@.subrange(i as int + 1, cs@.len() as int), f@, env, t));
        i = i + 1;
    }
    assert(seg_views(out@) + elsifs_findings(cs@.subrange(i as int, cs@.len() as int), f@, env, t) =~= seg_views(out@));
}

/// Appends the findings within `match` arms.
fn walk_arms(arms: &Vec<MatchArm>, f: &str, stack: &mut Vec<(String, Option<Domain>)>, table: &Vec<EnumEntry>, out: &mut Vec<String>)
    requires
        table_ok(table@),
        env_ok(old(stack)@, table@.len()),
    ensures
        final(stack)@ == old(stack)@,
        seg_views(final(out)@) == seg_views(old(out)@) + arms_walk(arms@, f@, env_map(old(stack)@, tview(table@)), tview(table@)),
    decreases arms,
{
    let ghost o0 = seg_views(out@);
    let ghost t = tview(table@);
    let ghost s0 = stack@;
    let ghost env = env_map(stack@, t);
    let mut i: usize = 0;
    assert(arms@.subrange(0, arms@.len() as int) =~= arms@);
    assert(o0 + arms_walk(arms@, f@, env, t) =~= seg_views(out@) + arms_walk(arms@.subrange(0, arms@.len() as int), f@, env, t));
    while i < arms.len()
        invariant
            i <= arms@.len(),
            table_ok(table@),
            t == tview(table@),
            stack@ == s0,
            env == env_map(s0, t),
            env_ok(s0, table@.len()),
            o0 + arms_walk(arms@, f@, env, t) == seg_views(out@) + arms_walk(arms@.subrange(i as int, arms@.len() as int), f@, env, t),
        decreases arms@.len() - i,
    {
        let ghost rest = arms@.subrange(i as int, arms@.len() as int);
        assert(rest[0] == arms@[i as int]);
        assert(rest.subrange(1, rest.len() as int) =~= arms@.subrange(i as int + 1, arms@.len() as int));
        let ghost before = seg_views(out@);
        let arm = &arms[i];
        proof {
            assert(decreases_to!(*arms => arms@));
            assert(decreases_to!(arms@ => arms@[i as int]));
            assert(decreases_to!(arms@[i as int] => arms@[i as int].guard));
            assert(decreases_to!(arms@[i as int] => arms@[i as int].body));
        }
        match &arm.guard {
            Some(g) => {
                proof {
                    assert(decreases_to!(arms@[i as int].guard => arms@[i as int].guard->0));
                }
                walk_expr(g, f, stack, table, out);
            },
            None => {},
        }
        let ghost mid = seg_views(out@);
        let n = stack.len();
        push_unbind(&arm.pattern, stack, table);
        walk_block(&arm.body, f, stack, table, out);
        stack.truncate(n);
        assert(stack@ =~= s0);
        let ghost guard: Seq<Seq<char>> = match arms@[i as int].guard {
            Some(g) => expr_findings(g, f@, env, t),
            None => Seq::empty(),
        };
        assert(mid == before + guard);
        assert(before + (guard + block_findings(arms@[i as int].body, f@, unbind(arms@[i as int].pattern, env), t)
            + arms_walk(arms@.subrange(i as int + 1, arms@.len() as int), f@, env, t))
            =~= seg_views(out@) + arms_walk(arms@.subrange(i as int + 1, arms@.len() as int), f@, env, t));
        i = i + 1;
    }
    assert(seg_views(out@) + arms_walk(arms@.subrange(i as int, arms@.len() as int), f@, env, t) =~= seg_views(out@));
}

/// Appends the findings within `rescue` bodies.
fn walk_rescues(rs: &Vec<Rescue>, f: &str, stack: &mut Vec<(String, Option<Domain>)>, table: &Vec<EnumEntry>, out: &mut Vec<String>)
    requires
        table_ok(table@),
        env_ok(old(stack)@, table@.len()),
    ensures
        final(stack)@ == old(stack)@,
        seg_views(final(out)@) == seg_views(old(out)@) + rescues_findings(rs@, f@, env_map(old(stack)@, tview(table@)), tview(table@)),
    decreases rs,
{
    let ghost o0 = seg_views(out@);
    let ghost t = tview(table@);
    let ghost s0 = stack@;
    let ghost env = env_map(stack@, t);
    let mut i: usize = 0;
    assert(rs@.subrange(0, rs@.len() as int) =~= rs@);
    assert(o0 + rescues_findings(rs@, f@, env, t) =~= seg_views(out@) + rescues_findings(rs@.subrange(0, rs@.len() as int), f@, env, t));
    while i < rs.len()
        invariant
            i <= rs@.len(),
            table_ok(table@),
            t == tview(table@),
            stack@ == s0,
            env == env_map(s0, t),
            env_ok(s0, table@.len()),
            o0 + rescues_findings(rs@, f@, env, t) == seg_views(out@) + rescues_findings(rs@.subrange(i as int, rs@.len() as int), f@, env, t),
        decreases rs@.len() - i,
    {
        let ghost rest = rs@.subrange(i as int, rs@.len() as int);
        assert(rest[0] == rs@[i as int]);
        assert(rest.subrange(1, rest.len() as int) =~= rs@.subrange(i as int + 1, rs@.len() as int));
        let ghost before = seg_views(out@);
        proof {
            assert(decreases_to!(*rs => rs@));
            assert(decreases_to!(rs@ => rs@[i as int]));
            assert(decreases_to!(rs@[i as int] => rs@[i as int].body));
        }
        walk_block(&rs[i].body, f, stack, table, out);
        assert(before + (block_findings(rs@[i as int].body, f@, env, t) + rescues_findings(rs@.subrange(i as int + 1, rs@.len() as int), f@, env, t))
            =~= seg_views(out@) + rescues_findings(rs@.subrange(i as int + 1, rs@.len() as int), f@, env, t));
        i = i + 1;
    }
    assert(seg_views(out@) + rescues_findings(rs@.subrange(i as int, rs@.len() as int), f@, env, t) =~= seg_views(out@));
}

/// Appends the findings within a block; the scope is left as it was.
fn walk_block(b: &Block, f: &str, stack: &mut Vec<(String, Option<Domain>)>, table: &Vec<EnumEntry>, out: &mut Vec<String>)
    requires
        table_ok(table@),
        env_ok(old(stack)@, table@.len()),
    ensures
        final(stack)@ == old(stack)@,
        seg_views(final(out)@) == seg_views(old(out)@) + block_findings(*b, f@, env_map(old(stack)@, tview(table@)), tview(table@)),
    decreases b,
{
    let ghost o0 = seg_views(out@);
    let ghost t = tview(table@);
    let ghost s0 = stack@;
    let ghost env = env_map(stack@, t);
    let n = stack.len();
    walk_stmts(&b.stmts, f, stack, table, out);
    let ghost mid = seg_views(out@);
    match &b.tail_expr {
        Some(x) => {
            proof {
                assert(decreases_to!(*b => b.tail_expr));
                assert(decreases_to!(b.tail_expr => b.tail_expr->0));
            }
            walk_expr(x, f, stack, table, out);
        },
        None => {},
    }
    stack.truncate(n);
    assert(stack@ =~= s0);
    assert(seg_views(out@) =~= o0 + block_findings(*b, f@, env, t));
}

/// Appends the findings within statements; each `let` or `var` of a finite
/// domain stays bound on the stack.
fn walk_stmts(ss: &Vec<Stmt>, f: &str, stack: &mut Vec<(String, Option<Domain>)>, table: &Vec<EnumEntry>, out: &mut Vec<String>)
    requires
        table_ok(table@),
        env_ok(old(stack)@, table@.len()),
    ensures
        env_ok(final(stack)@, table@.len()),
        grows(old(stack)@, final(stack)@),
        env_map(final(stack)@, tview(table@)) == stmts_scope(ss@, env_map(old(stack)@, tview(table@)), tview(table@)),
        seg_views(final(out)@) == seg_views(old(out)@) + stmts_findings(ss@, f@, env_map(old(stack)@, tview(table@)), tview(table@)),
    decreases ss,
{
    let ghost o0 = seg_views(out@);
    let ghost t = tview(table@);
    let ghost s0 = stack@;
    let ghost env0 = env_map(stack@, t);
    let mut i: usize = 0;
    assert(ss@.subrange(0, ss@.len() as int) =~= ss@);
    while i < ss.len()
        invariant
            i <= ss@.len(),
            table_ok(table@),
            t == tview(table@),
            env_ok(stack@, table@.len()),
            grows(s0, stack@),
            env0 == env_map(s0, t),
            stmts_scope(ss@, env0, t) == stmts_scope(ss@.subrange(i as int, ss@.len() as int), env_map(stack@, t), t),
            o0 + stmts_findings(ss@, f@, env0, t)
                == seg_views(out@) + stmts_findings(ss@.subrange(i as int, ss@.len() as int), f@, env_map(stack@, t), t),
        decreases ss@.len() - i,
    {
        let ghost rest = ss@.subrange(i as int, ss@.len() as int);
        assert(rest[0] == ss@[i as int]);
        assert(rest.subrange(1, rest.len() as int) =~= ss@.subrange(i as int + 1, ss@.len() as int));
        let ghost before = seg_views(out@);
        let ghost env = env_map(stack@, t);
        proof {
            assert(decreases_to!(*ss => ss@));
            assert(decreases_to!(ss@ => ss@[i as int]));
        }
        walk_stmt(&ss[i], f, stack, table, out);
        assert(before + (stmt_findings(ss@[i as int], f@, env, t)
            + stmts_findings(ss@.subrange(i as int + 1, ss@.len() as int), f@, stmt_scope(ss@[i as int], env, t), t))
            =~= seg_views(out@) + stmts_findings(ss@.subrange(i as int + 1, ss@.len() as int), f@, env_map(stack@, t), t));
        i = i + 1;
    }
    assert(seg_views(out@) + stmts_findings(ss@.subrange(i as int, ss@.len() as int), f@, env_map(stack@, t), t) =~= seg_views(out@));
}

/// Binds a declared name to its annotated type's finite domain, if any.
fn push_decl(name: &String, ty: &Option<TypeExpr>, stack: &mut Vec<(String, Option<Domain>)>, table: &Vec<EnumEntry>)
    requires
        env_ok(old(stack)@, table@.len()),
    ensures
        env_ok(final(stack)@, table@.len()),
        grows(old(stack)@, final(stack)@),
        env_map(final(stack)@, tview(table@)) == bind_decl(name@, *ty, env_map(old(stack)@, tview(table@)), tview(table@)),
{
    match ty {
        Some(ty) => match domain_from_type(ty, table) {
            Some(d) => {
                let ghost s0 = stack@;
                stack.push((name.clone(), Some(d)));
                assert(stack@.drop_last() =~= s0);
            },
            None => {},
        },
        None => {},
    }
}

/// Appends the findings within a statement; a `let` or `var` of a finite
/// domain is pushed on the stack.
fn walk_stmt(s: &Stmt, f: &str, stack: &mut Vec<(String, Option<Domain>)>, table: &Vec<EnumEntry>, out: &mut Vec<String>)
    requires
        table_ok(table@),
        env_ok(old(stack)@, table@.len()),
    ensures
        env_ok(final(stack)@, table@.len()),
        grows(old(stack)@, final(stack)@),
        env_map(final(stack)@, tview(table@)) == stmt_scope(*s, env_map(old(stack)@, tview(table@)), tview(table@)),
        seg_views(final(out)@) == seg_views(old(out)@) + stmt_findings(*s, f@, env_map(old(stack)@, tview(table@)), tview(table@)),
    decreases s,
{
    let ghost o0 = seg_views(out@);
    let ghost t = tview(table@);
    let ghost env = env_map(stack@, t);
    match s {
        Stmt::Let(d) => {
            walk_expr(&d.value, f, stack, table, out);
            push_decl(&d.name, &d.ty, stack, table);
        },
        Stmt::Var(d) => {
            walk_expr(&d.value, f, stack, table, out);
            push_decl(&d.name, &d.ty, stack, table);
        },
        Stmt::Const(d) => walk_expr(&d.value, f, stack, table, out),
        Stmt::Assign { target, value, .. } => {
            walk_expr(target, f, stack, table, out);
            walk_expr(value, f, stack, table, out);
        },
        Stmt::While { condition, body, .. } => {
            walk_expr(condition, f, stack, table, out);
            walk_block(body, f, stack, table, out);
        },
        Stmt::For { iter, body, .. } => {
            walk_expr(iter, f, stack, table, out);
            walk_block(body, f, stack, table, out);
        },
        Stmt::Loop { body, .. } => walk_block(body, f, stack, table, out),
        Stmt::Return { value } | Stmt::Yield { value } | Stmt::Next { value } | Stmt::Break { value } => {
            match value {
                Some(v) => {
                    proof {
                        assert(decreases_to!(*value => value->0));
                    }
                    walk_expr(v, f, stack, table, out);
                },
                None => {},
            }
        },
        Stmt::Raise { value } => walk_expr(value, f, stack, table, out),
        Stmt::Expr(x) => walk_expr(x, f, stack, table, out),
        Stmt::Continue => {},
    }
    assert(seg_views(out@) =~= o0 + stmt_findings(*s, f@, env, t));
}

// ---------------------------------------------------------------------------
// Functions and items
// ---------------------------------------------------------------------------

/// Appends the findings of a function checked as safe code (nothing
/// otherwise).
fn check_fn(fd: &FnDef, safe: bool, table: &Vec<EnumEntry>, out: &mut Vec<String>)
    requires
        table_ok(table@),
    ensures
        seg_views(final(out)@) == seg_views(old(out)@) + fn_findings(*fd, safe, tview(table@)),
{
    if !safe {
        assert(seg_views(out@) =~= seg_views(old(out)@) + Seq::<Seq<char>>::empty());
        return;
    }
    let ghost t = tview(table@);
    let mut stack: Vec<(String, Option<Domain>)> = Vec::new();
    let ps = &fd.params;
    let mut i: usize = 0;
    assert(env_map(stack@, t) =~= Map::<Seq<char>, DomainV>::empty());
    assert(ps@.subrange(0, ps@.len() as int) =~= ps@);
    while i < ps.len()
        invariant
            i <= ps@.len(),
            t == tview(table@),
            env_ok(stack@, table@.len()),
            params_scope(ps@, Map::empty(), t) == params_scope(ps@.subrange(i as int, ps@.len() as int), env_map(stack@, t), t),
        decreases ps@.len() - i,
    {
        let ghost rest = ps@.subrange(i as int, ps@.len() as int);
        assert(rest[0] == ps@[i as int]);
        assert(rest.subrange(1, rest.len() as int) =~= ps@.subrange(i as int + 1, ps@.len() as int));
        push_decl(&ps[i].name, &ps[i].ty, &mut stack, table);
        i = i + 1;
    }
    walk_block(&fd.body, fd.name.as_str(), &mut stack, table, out);
}

/// Appends the findings of the items of a module tree.
fn check_items(items: &Vec<Item>, module_safe: bool, table: &Vec<EnumEntry>, out: &mut Vec<String>)
    requires
        table_ok(table@),
    ensures
        seg_views(final(out)@) == seg_views(old(out)@) + items_findings(items@, module_safe, tview(table@)),
    decreases items,
{
    let ghost o0 = seg_views(out@);
    let ghost t = tview(table@);
    let mut i: usize = 0;
    assert(items@.subrange(0, items@.len() as int) =~= items@);
    assert(o0 + items_findings(items@, module_safe, t)
        =~= seg_views(out@) + items_findings(items@.subrange(0, items@.len() as int), module_safe, t));
    while i < items.len()
        invariant
            i <= items@.len(),
            table_ok(table@),
            t == tview(table@),
            o0 + items_findings(items@, module_safe, t)
                == seg_views(out@) + items_findings(items@.subrange(i as int, items@.len() as int), module_safe, t),
        decreases items@.len() - i,
    {
        let ghost rest = items@.subrange(i as int, items@.len() as int);
        assert(rest[0] == items@[i as int]);
        assert(rest.subrange(1, rest.len() as int) =~= items@.subrange(i as int + 1, items@.len() as int));
        let ghost before = seg_views(out@);
        let ghost tail = items_findings(items@.subrange(i as int + 1, items@.len() as int), module_safe, t);
        match &items[i] {
            Item::Fn(fd) => {
                check_fn(fd, module_safe || fd.mode == FnMode::Safe, table, out);
                assert(before + (fn_findings(*fd, module_safe || fd.mode == FnMode::Safe, t) + tail) =~= seg_views(out@) + tail);
            },
            Item::Module(m) => {
                proof {
                    assert(decreases_to!(*items => items@));
                    assert(decreases_to!(items@ => items@[i as int]));
                    assert(decreases_to!(items@[i as int] => m.items));
                }
                check_items(&m.items, module_safe || m.safe, table, out);
                assert(before + (items_findings(m.items@, module_safe || m.safe, t) + tail) =~= seg_views(out@) + tail);
            },
            Item::Impl(b) => {
                let ms = &b.methods;
                let ghost all = methods_findings(ms@, module_safe, t);
                let mut j: usize = 0;
                assert(ms@.subrange(0, ms@.len() as int) =~= ms@);
                assert(before + all =~= seg_views(out@) + methods_findings(ms@.subrange(0, ms@.len() as int), module_safe, t));
                while j < ms.len()
                    invariant
                        j <= ms@.len(),
                        table_ok(table@),
                        t == tview(table@),
                        all == methods_findings(ms@, module_safe, t),
                        before + all == seg_views(out@) + methods_findings(ms@.subrange(j as int, ms@.len() as int), module_safe, t),
                    decreases ms@.len() - j,
                {
                    let ghost mrest = ms@.subrange(j as int, ms@.len() as int);
                    assert(mrest[0] == ms@[j as int]);
                    assert(mrest.subrange(1, mrest.len() as int) =~= ms@.subrange(j as int + 1, ms@.len() as int));
                    let ghost mb = seg_views(out@);
                    check_fn(&ms[j], module_safe || ms[j].mode == FnMode::Safe, table, out);
                    assert(mb + (fn_findings(ms@[j as int], module_safe || ms@[j as int].mode == FnMode::Safe, t)
                        + methods_findings(ms@.subrange(j as int + 1, ms@.len() as int), module_safe, t))
                        =~= seg_views(out@) + methods_findings(ms@.subrange(j as int + 1, ms@.len() as int), module_safe, t));
                    j = j + 1;
                }
                assert(seg_views(out@) + methods_findings(ms@.subrange(j as int, ms@.len() as int), module_safe, t) =~= seg_views(out@));
                assert(before + (all + tail) =~= seg_views(out@) + tail);
            },
            _ => {
                assert(before + (Seq::empty() + tail) =~= seg_views(out@) + tail);
            },
        }
        i = i + 1;
    }
    assert(seg_views(out@) + items_findings(items@.subrange(i as int, items@.len() as int), module_safe, t) =~= seg_views(out@));
}

/// A diagnostic as the text of a safe-mode violation, if it is one.
pub open spec fn violation_view(e: CheckError) -> Option<Seq<char>> {
    match e {
        CheckError::SafeModeViolation(m) => Some(m@),
        _ => None,
    }
}

/// The diagnostics as safe-mode violation texts.
pub open spec fn violation_views(v: Seq<CheckError>) -> Seq<Option<Seq<char>>> {
    v.map_values(|e: CheckError| violation_view(e))
}

/// The match-coverage diagnostics of a module: for every function checked
/// as safe code (declared `fn`, or in a safe module), in source order, the
/// unreachable and non-exhaustive `match`es over `Bool` and the module's
/// enums, each a `SafeModeViolation`, in walk order.
pub fn check_match_coverage(module: &Module) -> (r: Vec<CheckError>)
    ensures
        violation_views(r@) == coverage_findings(*module).map_values(|m: Seq<char>| Some(m)),
{
    let mut table: Vec<EnumEntry> = Vec::new();
    let prefix: Vec<String> = Vec::new();
    assert(seg_views(prefix@) =~= Seq::<Seq<char>>::empty());
    assert(tview(table@) =~= Seq::<(Seq<Seq<char>>, Set<Seq<char>>)>::empty());
    collect_enums(&module.items, &prefix, &mut table);
    assert(tview(table@) =~= enum_entries(module.items@, Seq::empty()));
    let mut msgs: Vec<String> = Vec::new();
    check_items(&module.items, module.safe, &table, &mut msgs);
    assert(seg_views(msgs@) =~= coverage_findings(*module));
    let mut r: Vec<CheckError> = Vec::new();
    let mut i: usize = 0;
    while i < msgs.len()
        invariant
            i <= msgs@.len(),
            seg_views(msgs@) == coverage_findings(*module),
            violation_views(r@) == seg_views(msgs@).subrange(0, i as int).map_values(|m: Seq<char>| Some(m)),
        decreases msgs@.len() - i,
    {
        let ghost r0 = r@;
        r.push(CheckError::SafeModeViolation(msgs[i].clone()));
        assert(violation_views(r@) =~= seg_views(msgs@).subrange(0, i as int + 1).map_values(|m: Seq<char>| Some(m))) by {
            assert(violation_views(r@) =~= violation_views(r0).push(Some(msgs@[i as int]@)));
        }
        i = i + 1;
    }
    assert(seg_views(msgs@).subrange(0, i as int) =~= seg_views(msgs@));
    r
}

// ---------------------------------------------------------------------------
// Laws
// ---------------------------------------------------------------------------

/// Whatever either part of a concatenation holds, the whole holds.
proof fn lemma_concat_holds<A>(a: Seq<A>, b: Seq<A>)
    ensures
        forall|x: A| #[trigger] a.contains(x) ==> (a + b).contains(x),
        forall|x: A| #[trigger] b.contains(x) ==> (a + b).contains(x),
{
    assert forall|x: A| #[trigger] a.contains(x) implies (a + b).contains(x) by {
        let i = choose|i: int| 0 <= i < a.len() && a[i] == x;
        assert((a + b)[i] == x);
    }
    assert forall|x: A| #[trigger] b.contains(x) implies (a + b).contains(x) by {
        let i = choose|i: int| 0 <= i < b.len() && b[i] == x;
        assert((a + b)[a.len() + i] == x);
    }
}

/// The body of a `for`, `while` or `loop` is checked: each of its findings,
/// and each finding of the iterable or condition, is a finding of the loop
/// statement, in the same scope.
pub proof fn lemma_loop_bodies_checked(s: Stmt, f: Seq<char>, env: Scope, t: Enums)
    ensures
        s matches Stmt::For { iter, body, .. } ==> forall|m: Seq<char>|
            (#[trigger] block_findings(body, f, env, t).contains(m) || expr_findings(iter, f, env, t).contains(m))
                ==> stmt_findings(s, f, env, t).contains(m),
        s matches Stmt::While { condition, body, .. } ==> forall|m: Seq<char>|
            (#[trigger] block_findings(body, f, env, t).contains(m) || expr_findings(condition, f, env, t).contains(m))
                ==> stmt_findings(s, f, env, t).contains(m),
        s matches Stmt::Loop { body, .. } ==> forall|m: Seq<char>|
            #[trigger] block_findings(body, f, env, t).contains(m) ==> stmt_findings(s, f, env, t).contains(m),
{
    match s {
        Stmt::For { iter, body, .. } => lemma_concat_holds(expr_findings(iter, f, env, t), block_findings(body, f, env, t)),
        Stmt::While { condition, body, .. } => lemma_concat_holds(
            expr_findings(condition, f, env, t),
            block_findings(body, f, env, t),
        ),
        _ => {},
    }
}

/// Every statement of a statement list is checked in the scope the
/// statements before it leave: its findings are findings of the list.
pub proof fn lemma_statements_checked(ss: Seq<Stmt>, i: int, f: Seq<char>, env: Scope, t: Enums)
    requires
        0 <= i < ss.len(),
    ensures
        forall|m: Seq<char>| #[trigger] stmt_findings(ss[i], f, stmts_scope(ss.take(i), env, t), t).contains(m)
            ==> stmts_findings(ss, f, env, t).contains(m),
    decreases ss.len(),
{
    let rest = ss.subrange(1, ss.len() as int);
    let env1 = stmt_scope(ss[0], env, t);
    lemma_concat_holds(stmt_findings(ss[0], f, env, t), stmts_findings(rest, f, env1, t));
    if i == 0 {
        assert(ss.take(0) =~= Seq::<Stmt>::empty());
    } else {
        lemma_statements_checked(rest, i - 1, f, env1, t);
        assert(rest[i - 1] == ss[i]);
        let pre = ss.take(i);
        assert(pre[0] == ss[0]);
        assert(pre.subrange(1, pre.len() as int) =~= rest.take(i - 1));
        assert(stmts_scope(pre, env, t) == stmts_scope(rest.take(i - 1), env1, t));
    }
}

/// A `match` nested anywhere in a `for` body of a block is checked: a
/// finding of such a body, in the scope its loop statement starts in, is a
/// finding of the block.
pub proof fn lemma_for_body_in_block_checked(b: Block, i: int, f: Seq<char>, env: Scope, t: Enums)
    requires
        0 <= i < b.stmts@.len(),
        b.stmts@[i] is For,
    ensures
        forall|m: Seq<char>| #[trigger] block_findings(b.stmts@[i]->For_body, f, stmts_scope(b.stmts@.take(i), env, t), t).contains(m)
            ==> block_findings(b, f, env, t).contains(m),
{
    let e = stmts_scope(b.stmts@.take(i), env, t);
    lemma_loop_bodies_checked(b.stmts@[i], f, e, t);
    lemma_statements_checked(b.stmts@, i, f, env, t);
    let tail = match b.tail_expr {
        Some(x) => expr_findings(*x, f, stmts_scope(b.stmts@, env, t), t),
        None => Seq::empty(),
    };
    lemma_concat_holds(stmts_findings(b.stmts@, f, env, t), tail);
}

/// The domain values the unguarded arms name.
pub open spec fn arm_keys(d: DomainV, arms: Seq<MatchArm>) -> Set<Seq<char>>
    decreases arms.len(),
{
    if arms.len() == 0 {
        Set::empty()
    } else {
        let rest = arm_keys(d, arms.subrange(1, arms.len() as int));
        if arms[0].guard is None && coverage_key(d, arms[0].pattern) is Some {
            rest.insert(coverage_key(d, arms[0].pattern)->0)
        } else {
            rest
        }
    }
}

/// Whether some unguarded arm matches anything.
pub open spec fn has_unguarded_catch_all(arms: Seq<MatchArm>) -> bool {
    exists|i: int| 0 <= i < arms.len() && (#[trigger] arms[i]).guard is None && is_catch_all(arms[i].pattern)
}

/// Whether a finding reports a non-exhaustive match of `f`.
pub open spec fn reports_non_exhaustive(f: Seq<char>, findings: Seq<Seq<char>>) -> bool {
    exists|m: Seq<char>| #[trigger] findings.contains(non_exhaustive(f, m))
}

/// An unreachable-arm finding is never a non-exhaustive one.
proof fn lemma_unreachable_is_not_non_exhaustive(f: Seq<char>, p: Seq<char>, m: Seq<char>)
    ensures
        after_catch_all(f, p) != non_exhaustive(f, m),
        after_full_cover(f, p) != non_exhaustive(f, m),
        already_covered(f, p) != non_exhaustive(f, m),
{
    reveal_strlit("unreachable match arm in safe function '");
    reveal_strlit("non-exhaustive match in safe function '");
    let u = "unreachable match arm in safe function '"@;
    let n = "non-exhaustive match in safe function '"@;
    assert(after_catch_all(f, p)[0] == u[0]);
    assert(after_full_cover(f, p)[0] == u[0]);
    assert(already_covered(f, p)[0] == u[0]);
    assert(non_exhaustive(f, m)[0] == n[0]);
}

/// A finding list with an unreachable-arm finding in front reports a
/// non-exhaustive match exactly when the rest does.
proof fn lemma_front_unreachable(f: Seq<char>, head: Seq<Seq<char>>, rest: Seq<Seq<char>>)
    requires
        forall|i: int, m: Seq<char>| #![trigger head[i], non_exhaustive(f, m)] 0 <= i < head.len() ==> head[i] != non_exhaustive(f, m),
    ensures
        reports_non_exhaustive(f, head + rest) <==> reports_non_exhaustive(f, rest),
{
    if reports_non_exhaustive(f, rest) {
        let m = choose|m: Seq<char>| #[trigger] rest.contains(non_exhaustive(f, m));
        let i = choose|i: int| 0 <= i < rest.len() && rest[i] == non_exhaustive(f, m);
        assert((head + rest)[head.len() + i] == non_exhaustive(f, m));
        assert((head + rest).contains(non_exhaustive(f, m)));
    }
    if reports_non_exhaustive(f, head + rest) {
        let m = choose|m: Seq<char>| #[trigger] (head + rest).contains(non_exhaustive(f, m));
        let i = choose|i: int| 0 <= i < (head + rest).len() && (head + rest)[i] == non_exhaustive(f, m);
        if i < head.len() {
            assert(head[i] != non_exhaustive(f, m));
            assert(false);
        }
        assert(rest[i - head.len()] == non_exhaustive(f, m));
        assert(rest.contains(non_exhaustive(f, m)));
    }
}

/// A `match` over a finite domain is reported non-exhaustive exactly when no
/// unguarded arm is a catch-all and the values its unguarded arms name
/// (with those already covered) leave some value of the domain uncovered.
pub proof fn lemma_non_exhaustive_iff_uncovered(f: Seq<char>, d: DomainV, arms: Seq<MatchArm>, covered: Set<Seq<char>>, caught: bool)
    ensures
        reports_non_exhaustive(f, arms_findings(f, d, arms, covered, caught))
            <==> !caught && !has_unguarded_catch_all(arms) && !fully_covered(d, covered.union(arm_keys(d, arms))),
    decreases arms.len(),
{
    if arms.len() == 0 {
        assert(covered.union(arm_keys(d, arms)) =~= covered);
        let fs = arms_findings(f, d, arms, covered, caught);
        if !caught && !fully_covered(d, covered) {
            assert(fs[0] == non_exhaustive(f, missing_text(d, covered)));
            assert(fs.contains(non_exhaustive(f, missing_text(d, covered))));
        } else {
            assert(fs =~= Seq::<Seq<char>>::empty());
        }
    } else {
        let arm = arms[0];
        let rest = arms.subrange(1, arms.len() as int);
        let p = describe(arm.pattern);
        let key = coverage_key(d, arm.pattern);
        assert forall|m: Seq<char>| true implies after_catch_all(f, p) != non_exhaustive(f, m)
            && after_full_cover(f, p) != non_exhaustive(f, m) && already_covered(f, p) != non_exhaustive(f, m) by {
            lemma_unreachable_is_not_non_exhaustive(f, p, m);
        }
        let keys_rest = arm_keys(d, rest);
        assert(has_unguarded_catch_all(arms) <==> (arm.guard is None && is_catch_all(arm.pattern))
            || has_unguarded_catch_all(rest)) by {
            if has_unguarded_catch_all(rest) {
                let i = choose|i: int| 0 <= i < rest.len() && (#[trigger] rest[i]).guard is None && is_catch_all(rest[i].pattern);
                assert(arms[i + 1] == rest[i]);
            }
            if has_unguarded_catch_all(arms) {
                let i = choose|i: int| 0 <= i < arms.len() && (#[trigger] arms[i]).guard is None && is_catch_all(arms[i].pattern);
                if i > 0 {
                    assert(rest[i - 1] == arms[i]);
                }
            }
            if arm.guard is None && is_catch_all(arm.pattern) {
                assert(arms[0] == arm);
            }
        }
        if caught {
            lemma_non_exhaustive_iff_uncovered(f, d, rest, covered, caught);
            lemma_front_unreachable(f, seq![after_catch_all(f, p)], arms_findings(f, d, rest, covered, caught));
        } else if fully_covered(d, covered) {
            lemma_non_exhaustive_iff_uncovered(f, d, rest, covered, caught);
            lemma_front_unreachable(f, seq![after_full_cover(f, p)], arms_findings(f, d, rest, covered, caught));
            assert(covered.subset_of(covered.union(arm_keys(d, arms))));
            assert(covered.subset_of(covered.union(keys_rest)));
        } else {
            let head: Seq<Seq<char>> = match key {
                Some(k) => if covered.contains(k) { seq![already_covered(f, p)] } else { Seq::empty() },
                None => Seq::empty(),
            };
            if arm.guard is Some {
                lemma_non_exhaustive_iff_uncovered(f, d, rest, covered, caught);
                lemma_front_unreachable(f, head, arms_findings(f, d, rest, covered, caught));
                assert(arm_keys(d, arms) == keys_rest);
            } else if is_catch_all(arm.pattern) {
                lemma_non_exhaustive_iff_uncovered(f, d, rest, covered, true);
                lemma_front_unreachable(f, head, arms_findings(f, d, rest, covered, true));
            } else {
                match key {
                    Some(k) => {
                        lemma_non_exhaustive_iff_uncovered(f, d, rest, covered.insert(k), caught);
                        lemma_front_unreachable(f, head, arms_findings(f, d, rest, covered.insert(k), caught));
                        assert(covered.insert(k).union(keys_rest) =~= covered.union(arm_keys(d, arms)));
                    },
                    None => {
                        lemma_non_exhaustive_iff_uncovered(f, d, rest, covered, caught);
                        lemma_front_unreachable(f, head, arms_findings(f, d, rest, covered, caught));
                        assert(arm_keys(d, arms) == keys_rest);
                    },
                }
            }
        }
    }
}

/// The blocks nested in an expression are checked, and a `match` over a
/// finite domain reports its own findings: each finding of a `then`,
/// `else`, `try` or `ensure` block or of a closure body is a finding of the
/// expression, and so is each finding on the arms of a `match` whose
/// subject has a known domain; in particular a non-exhaustive `match` is
/// reported.
pub proof fn lemma_expr_blocks_checked(e: Expr, f: Seq<char>, env: Scope, t: Enums)
    ensures
        e matches Expr::Match { subject, arms } ==> (domain_of_expr(*subject, env, t) matches Some(d)
            ==> forall|m: Seq<char>| #[trigger] arms_findings(f, d, arms@, Set::empty(), false).contains(m)
                ==> expr_findings(e, f, env, t).contains(m)),
        e matches Expr::If { then_block, else_block, .. } ==> forall|m: Seq<char>|
            (#[trigger] block_findings(then_block, f, env, t).contains(m)
                || (else_block matches Some(b) && block_findings(b, f, env, t).contains(m)))
                ==> expr_findings(e, f, env, t).contains(m),
        e matches Expr::Try { body, ensure, .. } ==> forall|m: Seq<char>|
            (#[trigger] block_findings(body, f, env, t).contains(m)
                || (ensure matches Some(b) && block_findings(b, f, env, t).contains(m)))
                ==> expr_findings(e, f, env, t).contains(m),
        e matches Expr::Closure { body, .. } ==> (*body matches ClosureBody::Block(b) ==> forall|m: Seq<char>|
            #[trigger] block_findings(b, f, env, t).contains(m) ==> expr_findings(e, f, env, t).contains(m)),
{
    match e {
        Expr::Match { subject, arms } => {
            let own = match domain_of_expr(*subject, env, t) {
                Some(d) => arms_findings(f, d, arms@, Set::empty(), false),
                None => Seq::empty(),
            };
            lemma_concat_holds(expr_findings(*subject, f, env, t), own);
            lemma_concat_holds(expr_findings(*subject, f, env, t) + own, arms_walk(arms@, f, env, t));
        },
        Expr::If { condition, then_block, elsif_clauses, else_block } => {
            let tail = match else_block {
                Some(b) => block_findings(b, f, env, t),
                None => Seq::empty(),
            };
            let a = expr_findings(*condition, f, env, t);
            let b1 = block_findings(then_block, f, env, t);
            let c = elsifs_findings(elsif_clauses@, f, env, t);
            lemma_concat_holds(a, b1);
            lemma_concat_holds(a + b1, c);
            lemma_concat_holds(a + b1 + c, tail);
        },
        Expr::Try { body, rescues, ensure } => {
            let tail = match ensure {
                Some(b) => block_findings(b, f, env, t),
                None => Seq::empty(),
            };
            let a = block_findings(body, f, env, t);
            let c = rescues_findings(rescues@, f, env, t);
            lemma_concat_holds(a, c);
            lemma_concat_holds(a + c, tail);
        },
        _ => {},
    }
}

proof fn lemma_caught_arms(f: Seq<char>, d: DomainV, arms: Seq<MatchArm>, covered: Set<Seq<char>>)
    ensures
        arms_findings(f, d, arms, covered, true) == arms.map_values(|a: MatchArm| after_catch_all(f, describe(a.pattern))),
    decreases arms.len(),
{
    if arms.len() > 0 {
        let rest = arms.subrange(1, arms.len() as int);
        lemma_caught_arms(f, d, rest, covered);
        assert(arms.map_values(|a: MatchArm| after_catch_all(f, describe(a.pattern)))
            =~= seq![after_catch_all(f, describe(arms[0].pattern))] + rest.map_values(|a: MatchArm| after_catch_all(f, describe(a.pattern))));
    }
}

/// An unguarded catch-all arm makes every later arm unreachable and the
/// match exhaustive: when it comes first (and the domain is not empty), the
/// findings are exactly one "covered by prior catch-all arm" per later arm.
pub proof fn lemma_arms_after_catch_all(f: Seq<char>, d: DomainV, arms: Seq<MatchArm>)
    requires
        arms.len() > 0,
        arms[0].guard is None,
        is_catch_all(arms[0].pattern),
        !fully_covered(d, Set::empty()),
    ensures
        arms_findings(f, d, arms, Set::empty(), false)
            == arms.subrange(1, arms.len() as int).map_values(|a: MatchArm| after_catch_all(f, describe(a.pattern))),
{
    let rest = arms.subrange(1, arms.len() as int);
    lemma_caught_arms(f, d, rest, Set::empty());
    assert(coverage_key(d, arms[0].pattern) is None);
    assert(Seq::<Seq<char>>::empty() + arms_findings(f, d, rest, Set::empty(), true) =~= arms_findings(f, d, rest, Set::empty(), true));
}

/// Managed code is not checked: in a module that is not `@safe`, functions
/// declared with `def` produce no match-coverage findings.
pub proof fn lemma_managed_code_unchecked(items: Seq<Item>, t: Enums)
    requires
        forall|i: int| 0 <= i < items.len() ==> (#[trigger] items[i] matches Item::Fn(fd) && fd.mode == FnMode::Managed),
    ensures
        items_findings(items, false, t) == Seq::<Seq<char>>::empty(),
    decreases items.len(),
{
    if items.len() > 0 {
        let rest = items.subrange(1, items.len() as int);
        assert forall|i: int| 0 <= i < rest.len() implies (#[trigger] rest[i] matches Item::Fn(fd) && fd.mode == FnMode::Managed) by {
            assert(rest[i] == items[i + 1]);
        }
        assert(items[0] matches Item::Fn(fd) && fd.mode == FnMode::Managed);
        lemma_managed_code_unchecked(rest, t);
        assert(Seq::<Seq<char>>::empty() + Seq::<Seq<char>>::empty() =~= Seq::<Seq<char>>::empty());
    }
}

} // verus!
