//! The suggestion rules and the concurrency surface, read off a module.

use vstd::prelude::*;
use crate::ast::{ActorDef, ActorMember, FnDef, Item, Module};
use crate::checker::has_caps;
use crate::suggest::{suggest_for_module, suggestion_views, suggestions_for_all, FnFacts, Suggestion};
use crate::surfaces::{actor_names, concurrency_surface, contract_of, stable_positions, ActorContract, ActorDecl, ActorItem, ProtocolSig};

verus! {

/// The top-level functions of a module's items.
pub open spec fn top_fns(items: Seq<Item>) -> Seq<FnDef>
    decreases items.len(),
{
    if items.len() == 0 {
        Seq::empty()
    } else {
        let head = match items[0] {
            Item::Fn(f) => seq![f],
            _ => Seq::empty(),
        };
        head + top_fns(items.subrange(1, items.len() as int))
    }
}

/// What the suggestion rules read of a function.
pub open spec fn facts_of(f: FnDef) -> FnFacts {
    FnFacts {
        name: f.name,
        mode: f.mode,
        has_caps_annotation: has_caps(f.annotations@),
        param_count: f.params@.len() as usize,
        body_is_empty: f.body.stmts@.len() == 0 && f.body.tail_expr is None,
    }
}

/// Whether the annotations include a `@caps(...)`.
fn caps_annotated(anns: &Vec<crate::ast::Annotation>) -> (r: bool)
    ensures
        r == has_caps(anns@),
{
    let mut i: usize = 0;
    while i < anns.len()
        invariant
            i <= anns@.len(),
            forall|k: int| 0 <= k < i ==> !(#[trigger] anns@[k] is Caps),
        decreases anns@.len() - i,
    {
        if let crate::ast::Annotation::Caps(_) = &anns[i] {
            return true;
        }
        i = i + 1;
    }
    false
}

/// The suggestions for a module's top-level functions, in declaration
/// order.
pub fn suggest_for(module: &Module) -> (out: Vec<Suggestion>)
    ensures
        suggestion_views(out@) == suggestions_for_all(top_fns(module.items@).map_values(|f: FnDef| facts_of(f))),
{
    let items = &module.items;
    let mut facts: Vec<FnFacts> = Vec::new();
    let mut i: usize = 0;
    assert(items@.subrange(0, items@.len() as int) =~= items@);
    assert(top_fns(items@).map_values(|f: FnDef| facts_of(f))
        =~= facts@ + top_fns(items@.subrange(0, items@.len() as int)).map_values(|f: FnDef| facts_of(f)));
    while i < items.len()
        invariant
            i <= items@.len(),
            top_fns(items@).map_values(|f: FnDef| facts_of(f))
                == facts@ + top_fns(items@.subrange(i as int, items@.len() as int)).map_values(|f: FnDef| facts_of(f)),
        decreases items@.len() - i,
    {
        let ghost rest = items@.subrange(i as int, items@.len() as int);
        assert(rest[0] == items@[i as int]);
        assert(rest.subrange(1, rest.len() as int) =~= items@.subrange(i as int + 1, items@.len() as int));
        let ghost f0 = facts@;
        let ghost tail = top_fns(items@.subrange(i as int + 1, items@.len() as int));
        match &items[i] {
            Item::Fn(f) => {
                let x = FnFacts {
                    name: f.name.clone(),
                    mode: f.mode,
                    has_caps_annotation: caps_annotated(&f.annotations),
                    param_count: f.params.len(),
                    body_is_empty: f.body.stmts.len() == 0 && f.body.tail_expr.is_none(),
                };
                assert(x == facts_of(*f));
                facts.push(x);
                assert((seq![*f] + tail).map_values(|g: FnDef| facts_of(g))
                    =~= seq![facts_of(*f)] + tail.map_values(|g: FnDef| facts_of(g)));
                assert(f0 + (seq![facts_of(*f)] + tail.map_values(|g: FnDef| facts_of(g)))
                    =~= facts@ + tail.map_values(|g: FnDef| facts_of(g)));
            },
            _ => {
                assert((Seq::<FnDef>::empty() + tail) =~= tail);
            },
        }
        i = i + 1;
    }
    assert(top_fns(items@.subrange(i as int, items@.len() as int)).map_values(|f: FnDef| facts_of(f)) =~= Seq::<FnFacts>::empty());
    assert(facts@ + Seq::<FnFacts>::empty() =~= facts@);
    suggest_for_module(&facts)
}

/// An actor's body item as the concurrency surface reads it.
pub open spec fn member_matches(a: ActorMember, d: ActorItem) -> bool {
    match a {
        ActorMember::Protocol(p) => d == ActorItem::Protocol(
            ProtocolSig { name: p.name, arity: p.params@.len() as usize, reply: p.return_ty is Some },
        ),
        ActorMember::Handler(_) => d is Handler,
        ActorMember::Memory(_) => d is Memory,
        ActorMember::Let => d is Let,
    }
}

/// An actor as the concurrency surface reads it.
pub open spec fn actor_matches(a: ActorDef, d: ActorDecl) -> bool {
    &&& d.name == a.name
    &&& d.items@.len() == a.items@.len()
    &&& forall|i: int| 0 <= i < a.items@.len() ==> member_matches(a.items@[i], #[trigger] d.items@[i])
}

/// The top-level actors of a module's items.
pub open spec fn top_actors(items: Seq<Item>) -> Seq<ActorDef>
    decreases items.len(),
{
    if items.len() == 0 {
        Seq::empty()
    } else {
        let head = match items[0] {
            Item::Actor(a) => seq![a],
            _ => Seq::empty(),
        };
        head + top_actors(items.subrange(1, items.len() as int))
    }
}

/// The concurrency surface's reading of an actor.
fn actor_decl(a: &ActorDef) -> (d: ActorDecl)
    ensures
        actor_matches(*a, d),
{
    let mut items: Vec<ActorItem> = Vec::new();
    let mut i: usize = 0;
    while i < a.items.len()
        invariant
            i <= a.items@.len(),
            items@.len() == i,
            forall|k: int| 0 <= k < i ==> member_matches(a.items@[k], #[trigger] items@[k]),
        decreases a.items@.len() - i,
    {
        let x = match &a.items[i] {
            ActorMember::Protocol(p) => ActorItem::Protocol(
                ProtocolSig { name: p.name.clone(), arity: p.params.len(), reply: p.return_ty.is_some() },
            ),
            ActorMember::Handler(_) => ActorItem::Handler,
            ActorMember::Memory(_) => ActorItem::Memory,
            ActorMember::Let => ActorItem::Let,
        };
        assert(member_matches(a.items@[i as int], x));
        items.push(x);
        i = i + 1;
    }
    ActorDecl { name: a.name.clone(), items }
}

/// `r` is the concurrency surface of `module`, whose actors read as `ds`.
pub open spec fn surface_of(module: Module, ds: Seq<ActorDecl>, r: Seq<ActorContract>) -> bool {
    let acts = top_actors(module.items@);
    let pos = stable_positions(actor_names(ds));
    &&& ds.len() == acts.len()
    &&& forall|i: int| 0 <= i < ds.len() ==> #[trigger] actor_matches(acts[i], ds[i])
    &&& r.len() == pos.len()
    &&& forall|t: int| 0 <= t < r.len() ==> contract_of(#[trigger] r[t], ds[pos[t]])
}

/// The concurrency contract of each top-level actor of a module, sorted by
/// actor name (stably), each with its protocols sorted by name.
pub fn concurrency_surface_of(module: &Module) -> (r: Vec<ActorContract>)
    ensures
        exists|ds: Seq<ActorDecl>| #[trigger] surface_of(*module, ds, r@),
{
    let items = &module.items;
    let ghost acts = top_actors(items@);
    let mut decls: Vec<ActorDecl> = Vec::new();
    let ghost mut done: Seq<ActorDef> = Seq::empty();
    let mut i: usize = 0;
    assert(items@.subrange(0, items@.len() as int) =~= items@);
    assert(acts =~= done + top_actors(items@.subrange(0, items@.len() as int)));
    while i < items.len()
        invariant
            i <= items@.len(),
            acts == top_actors(items@),
            acts == done + top_actors(items@.subrange(i as int, items@.len() as int)),
            decls@.len() == done.len(),
            forall|k: int| 0 <= k < done.len() ==> #[trigger] actor_matches(done[k], decls@[k]),
        decreases items@.len() - i,
    {
        let ghost rest = items@.subrange(i as int, items@.len() as int);
        assert(rest[0] == items@[i as int]);
        assert(rest.subrange(1, rest.len() as int) =~= items@.subrange(i as int + 1, items@.len() as int));
        let ghost tail = top_actors(items@.subrange(i as int + 1, items@.len() as int));
        match &items[i] {
            Item::Actor(a) => {
                let d = actor_decl(a);
                decls.push(d);
                proof {
                    assert(done + (seq![*a] + tail) =~= done.push(*a) + tail);
                    done = done.push(*a);
                }
            },
            _ => {
                assert(done + (Seq::<ActorDef>::empty() + tail) =~= done + tail);
            },
        }
        i = i + 1;
    }
    assert(done + top_actors(items@.subrange(i as int, items@.len() as int)) =~= done);
    let r = concurrency_surface(&decls);
    let ghost ds = decls@;
    assert(ds.len() == acts.len());
    assert(forall|k: int| 0 <= k < ds.len() ==> #[trigger] actor_matches(acts[k], ds[k]));
    assert(surface_of(*module, ds, r@));
    r
}

} // verus!
