use garnet::bounds::{push_uncheckable, BoundedLoopReport};
use garnet::capset::CapSet;
use garnet::diagnostics::FnMode;
use garnet::effects::{caps_key, LinearEffectViolation};
use garnet::suggest::{render, suggest_for_module, FnFacts, Rule};

fn facts(name: &str, mode: FnMode, caps: bool, params: usize, empty: bool) -> FnFacts {
    FnFacts {
        name: name.to_string(),
        mode,
        has_caps_annotation: caps,
        param_count: params,
        body_is_empty: empty,
    }
}

#[test]
fn managed_fn_without_caps_is_the_only_suggestion_for_a_plain_helper() {
    let s = suggest_for_module(&vec![facts("helper", FnMode::Managed, false, 0, false)]);
    assert_eq!(s.len(), 1);
    assert_eq!(s[0].rule, Rule::ManagedFnMissingCaps);
    assert!(s[0].message.contains("compiler suggested"));
    assert!(s[0].message.contains("`def helper`"));
}

#[test]
fn annotated_or_safe_functions_do_not_get_the_caps_rule() {
    assert!(suggest_for_module(&vec![facts("h", FnMode::Managed, true, 0, false)]).is_empty());
    assert!(suggest_for_module(&vec![facts("h", FnMode::Safe, false, 0, false)]).is_empty());
}

#[test]
fn long_parameter_lists_and_empty_bodies_are_flagged_in_rule_order() {
    let s = suggest_for_module(&vec![
        facts("big", FnMode::Managed, true, 5, false),
        facts("nothing", FnMode::Managed, false, 0, true),
    ]);
    let rules: Vec<Rule> = s.iter().map(|x| x.rule).collect();
    assert_eq!(
        rules,
        vec![Rule::LongParameterList, Rule::ManagedFnMissingCaps, Rule::EmptyFunctionBody]
    );
    assert!(s[0].message.contains("5 parameters (threshold 4)"));
    assert_eq!(s[2].function, "nothing");
    assert!(suggest_for_module(&vec![facts("f", FnMode::Safe, true, 3, false)]).is_empty());
}

#[test]
fn rendering_prefixes_the_rule_id() {
    let s = suggest_for_module(&vec![facts("e", FnMode::Safe, true, 0, true)]);
    assert_eq!(Rule::EmptyFunctionBody.id(), "empty-function-body");
    assert!(render(&s[0]).starts_with("[empty-function-body] compiler suggested: `e` has an empty body."));
}

#[test]
fn uncheckable_loops_are_recorded_with_their_span() {
    let mut report = BoundedLoopReport::new();
    assert!(report.ok());
    push_uncheckable(&mut report, "spin", "while", 10, 7);
    assert!(!report.ok());
    let l = &report.uncheckable_loops[0];
    assert_eq!((l.kind, l.span_start, l.span_len), ("while", 10, 7));
    assert!(l.message.starts_with(
        "static bounded-loop verifier: function `spin` contains an uncheckable while loop at 10..17."
    ));
}

#[test]
fn linear_effect_message_lists_caps_in_order() {
    let caps = CapSet::from_name("net")
        .unwrap()
        .union(CapSet::from_name("fs").unwrap());
    let v = LinearEffectViolation { fn_name: "f".to_string(), required_caps: caps };
    assert!(v
        .message()
        .starts_with("linear/effect violation: safe function `f` performs authority effects [fs, net] without"));
    assert_eq!(caps_key(Some("Owner"), "m"), "Owner::m");
    assert_eq!(caps_key(None, "free"), "free");
}
