use garnet::borrow::{format_place, places_overlap, simple_type_name, split_place, Env};
use garnet::coherence::TypeExpr;

fn place(parts: &[&str]) -> Vec<String> {
    parts.iter().map(|s| s.to_string()).collect()
}

#[test]
fn places_format_and_split_round_trip() {
    let p = place(&["a", "b", "c"]);
    assert_eq!(format_place(&p), "a.b.c");
    assert_eq!(split_place("a.b.c"), p);
    assert_eq!(split_place(""), place(&[""]));
    assert_eq!(split_place("a..b"), place(&["a", "", "b"]));
}

#[test]
fn places_overlap_when_one_is_a_prefix() {
    assert!(places_overlap(&place(&["a"]), &place(&["a", "b"])));
    assert!(places_overlap(&place(&["a", "b"]), &place(&["a"])));
    assert!(places_overlap(&place(&["a", "b"]), &place(&["a", "b"])));
    assert!(!places_overlap(&place(&["a", "x"]), &place(&["a", "b"])));
}

#[test]
fn a_moved_binding_reads_as_moved() {
    let mut env = Env::new();
    assert!(env.is_moved("x").is_none());
    env.record_move("x", "consume");
    let rec = env.is_moved("x").expect("moved");
    assert_eq!(rec.binding, "x");
    assert_eq!(rec.callee, "consume");
}

#[test]
fn moving_a_field_makes_the_parent_and_children_unusable() {
    let mut env = Env::new();
    env.record_move_place(&place(&["a", "b"]), "take");
    assert!(env.moved_record_for_place(&place(&["a"])).is_some());
    assert!(env.moved_record_for_place(&place(&["a", "b", "c"])).is_some());
    assert!(env.moved_record_for_place(&place(&["a", "x"])).is_none());
}

#[test]
fn rebinding_clears_moves_at_and_below_the_place() {
    let mut env = Env::new();
    env.record_move_place(&place(&["a", "b"]), "take");
    env.record_move("c", "take");
    env.rebind("a");
    assert!(env.moved_record_for_place(&place(&["a", "b"])).is_none());
    assert!(env.is_moved("c").is_some());
}

#[test]
fn rebinding_a_child_keeps_a_move_of_the_parent() {
    let mut env = Env::new();
    env.record_move("a", "take");
    env.rebind_place(&place(&["a", "b"]));
    assert!(env.is_moved("a").is_some());
}

#[test]
fn declared_simple_types_are_remembered_and_forgotten() {
    let mut env = Env::new();
    let ty = TypeExpr::Named { path: place(&["std", "Vec"]), args: vec![] };
    env.rebind_with_type("v", Some(&ty));
    assert_eq!(env.type_of("v"), Some("std::Vec"));
    let generic = TypeExpr::Named { path: place(&["Vec"]), args: vec![TypeExpr::Named { path: place(&["T"]), args: vec![] }] };
    env.rebind_with_type("v", Some(&generic));
    assert_eq!(env.type_of("v"), None);
    env.rebind_with_type("w", Some(&ty));
    env.forget_type("w");
    assert_eq!(env.type_of("w"), None);
}

#[test]
fn simple_type_names() {
    assert_eq!(simple_type_name(None), None);
    let ty = TypeExpr::Named { path: place(&["a", "B"]), args: vec![] };
    assert_eq!(simple_type_name(Some(&ty)), Some("a::B".to_string()));
}

#[test]
fn restore_brings_back_a_branch_snapshot() {
    let mut before = Env::new();
    before.record_move("x", "f");
    let ty = TypeExpr::Named { path: place(&["Int"]), args: vec![] };
    before.rebind_with_type("y", Some(&ty));
    let mut env = Env::new();
    env.record_move("z", "g");
    env.restore_binding_from("x", &before);
    env.restore_binding_from("y", &before);
    assert!(env.is_moved("x").is_some());
    assert!(env.is_moved("z").is_some());
    assert_eq!(env.type_of("y"), Some("Int"));
    let empty = Env::new();
    env.restore_binding_from("x", &empty);
    assert!(env.is_moved("x").is_none());
}
