//! Rules-based advisory suggestions.
//!
//! Deterministic suggestions over the facts the rules read of each function:
//! its name and mode, whether it carries an `@caps(...)` annotation, its
//! parameter count and whether its body is empty. Every message starts with
//! the literal prefix `compiler suggested:`.

use vstd::prelude::*;
use vstd::string::*;
use crate::diagnostics::FnMode;
use crate::text::{decimal, push_decimal};

verus! {

/// Parameter count at or above which the long-parameter-list rule fires.
pub const LONG_PARAMETER_THRESHOLD: usize = 4;

/// The advisory rules.
#[derive(Debug, Clone, Copy, PartialEq, Eq, Structural, Hash)]
pub enum Rule {
    /// A managed-mode `def` has no `@caps(...)` annotation.
    ManagedFnMissingCaps,
    /// A function declares `LONG_PARAMETER_THRESHOLD` or more parameters.
    LongParameterList,
    /// A function body has no statements and no tail expression.
    EmptyFunctionBody,
}

/// One advisory suggestion about a function.
#[derive(Debug, Clone)]
pub struct Suggestion {
    pub rule: Rule,
    pub function: String,
    pub message: String,
}

/// What the rules read of one function declaration.
#[derive(Debug, Clone)]
pub struct FnFacts {
    pub name: String,
    pub mode: FnMode,
    pub has_caps_annotation: bool,
    pub param_count: usize,
    pub body_is_empty: bool,
}

/// The stable id of a rule.
pub open spec fn rule_id(r: Rule) -> Seq<char> {
    match r {
        Rule::ManagedFnMissingCaps => "managed-fn-missing-caps"@,
        Rule::LongParameterList => "long-parameter-list"@,
        Rule::EmptyFunctionBody => "empty-function-body"@,
    }
}

/// The message of the missing-caps rule.
pub open spec fn missing_caps_message(name: Seq<char>) -> Seq<char> {
    "compiler suggested: `def "@ + name
        + "` has no `@caps(...)` annotation. Adding `@caps()` (empty) makes purely-computational intent explicit; adding `@caps(fs)` / `@caps(net)` / etc. declares OS authority up front. Either is reviewable; an unannotated managed function is silent on its capability surface."@
}

/// The message of the long-parameter-list rule.
pub open spec fn long_params_message(name: Seq<char>, count: nat) -> Seq<char> {
    "compiler suggested: `"@ + name + "` declares "@ + decimal(count) + " parameters (threshold "@
        + decimal(LONG_PARAMETER_THRESHOLD as nat)
        + "). Grouping related parameters into a struct usually improves call-site readability and lets the type system catch swapped arguments."@
}

/// The message of the empty-body rule.
pub open spec fn empty_body_message(name: Seq<char>) -> Seq<char> {
    "compiler suggested: `"@ + name
        + "` has an empty body. The function compiles and returns `Nil`, but readers rarely recognize that as intentional. Add a comment or a placeholder return value to make the intent explicit."@
}

/// A suggestion as `(rule, function, message)`.
pub open spec fn suggestion_view(s: Suggestion) -> (Rule, Seq<char>, Seq<char>) {
    (s.rule, s.function@, s.message@)
}

/// The suggestions for one function, in rule order.
pub open spec fn suggestions_for(f: FnFacts) -> Seq<(Rule, Seq<char>, Seq<char>)> {
    (if f.mode == FnMode::Managed && !f.has_caps_annotation {
        seq![(Rule::ManagedFnMissingCaps, f.name@, missing_caps_message(f.name@))]
    } else {
        Seq::empty()
    }) + (if f.param_count >= LONG_PARAMETER_THRESHOLD {
        seq![(Rule::LongParameterList, f.name@, long_params_message(f.name@, f.param_count as nat))]
    } else {
        Seq::empty()
    }) + (if f.body_is_empty {
        seq![(Rule::EmptyFunctionBody, f.name@, empty_body_message(f.name@))]
    } else {
        Seq::empty()
    })
}

/// The suggestions for a module's functions, in declaration order.
pub open spec fn suggestions_for_all(fns: Seq<FnFacts>) -> Seq<(Rule, Seq<char>, Seq<char>)>
    decreases fns.len(),
{
    if fns.len() == 0 {
        Seq::empty()
    } else {
        suggestions_for_all(fns.drop_last()) + suggestions_for(fns.last())
    }
}

/// A function is flagged for a long parameter list exactly when it declares
/// `LONG_PARAMETER_THRESHOLD` (four) or more parameters, and then once, with
/// the message naming it and its count.
pub proof fn lemma_long_parameter_list_flagged(f: FnFacts)
    ensures
        LONG_PARAMETER_THRESHOLD == 4,
        (exists|i: int| 0 <= i < suggestions_for(f).len() && (#[trigger] suggestions_for(f)[i]).0 == Rule::LongParameterList)
            <==> f.param_count >= 4,
        f.param_count >= 4 ==> suggestions_for(f).contains(
            (Rule::LongParameterList, f.name@, long_params_message(f.name@, f.param_count as nat)),
        ),
        forall|i: int| 0 <= i < suggestions_for(f).len() ==> (#[trigger] suggestions_for(f)[i]).1 == f.name@,
{
    let a: Seq<(Rule, Seq<char>, Seq<char>)> = if f.mode == FnMode::Managed && !f.has_caps_annotation {
        seq![(Rule::ManagedFnMissingCaps, f.name@, missing_caps_message(f.name@))]
    } else {
        Seq::empty()
    };
    let b: Seq<(Rule, Seq<char>, Seq<char>)> = if f.param_count >= LONG_PARAMETER_THRESHOLD {
        seq![(Rule::LongParameterList, f.name@, long_params_message(f.name@, f.param_count as nat))]
    } else {
        Seq::empty()
    };
    let c: Seq<(Rule, Seq<char>, Seq<char>)> = if f.body_is_empty {
        seq![(Rule::EmptyFunctionBody, f.name@, empty_body_message(f.name@))]
    } else {
        Seq::empty()
    };
    let all = suggestions_for(f);
    assert(all =~= a + b + c);
    if f.param_count >= 4 {
        assert(all[a.len() as int] == b[0]);
    }
}

/// A function gets the missing-caps suggestion exactly when it is a managed
/// `def` without `@caps(...)`, and the empty-body suggestion exactly when
/// its body is empty; the suggestions come in rule order, at most one per
/// rule.
pub proof fn lemma_each_rule_flags_its_case(f: FnFacts)
    ensures
        (exists|i: int| 0 <= i < suggestions_for(f).len() && (#[trigger] suggestions_for(f)[i]).0 == Rule::ManagedFnMissingCaps)
            <==> (f.mode == FnMode::Managed && !f.has_caps_annotation),
        (exists|i: int| 0 <= i < suggestions_for(f).len() && (#[trigger] suggestions_for(f)[i]).0 == Rule::EmptyFunctionBody)
            <==> f.body_is_empty,
        suggestions_for(f).len() == (if f.mode == FnMode::Managed && !f.has_caps_annotation { 1int } else { 0int })
            + (if f.param_count >= 4 { 1int } else { 0int }) + (if f.body_is_empty { 1int } else { 0int }),
        forall|i: int, j: int| 0 <= i < j < suggestions_for(f).len() ==> rule_rank((#[trigger] suggestions_for(f)[i]).0)
            < rule_rank((#[trigger] suggestions_for(f)[j]).0),
{
    let a: Seq<(Rule, Seq<char>, Seq<char>)> = if f.mode == FnMode::Managed && !f.has_caps_annotation {
        seq![(Rule::ManagedFnMissingCaps, f.name@, missing_caps_message(f.name@))]
    } else {
        Seq::empty()
    };
    let b: Seq<(Rule, Seq<char>, Seq<char>)> = if f.param_count >= LONG_PARAMETER_THRESHOLD {
        seq![(Rule::LongParameterList, f.name@, long_params_message(f.name@, f.param_count as nat))]
    } else {
        Seq::empty()
    };
    let c: Seq<(Rule, Seq<char>, Seq<char>)> = if f.body_is_empty {
        seq![(Rule::EmptyFunctionBody, f.name@, empty_body_message(f.name@))]
    } else {
        Seq::empty()
    };
    let all = suggestions_for(f);
    assert(all =~= a + b + c);
    if f.mode == FnMode::Managed && !f.has_caps_annotation {
        assert(all[0] == a[0]);
    }
    if f.body_is_empty {
        assert(all[(a.len() + b.len()) as int] == c[0]);
    }
}

/// The position of a rule in the order the rules run.
pub open spec fn rule_rank(r: Rule) -> int {
    match r {
        Rule::ManagedFnMissingCaps => 0,
        Rule::LongParameterList => 1,
        Rule::EmptyFunctionBody => 2,
    }
}

/// In a module, every function declaring `LONG_PARAMETER_THRESHOLD` or more
/// parameters receives its long-parameter-list suggestion, and every
/// function with a missing-caps or empty-body finding receives that one.
pub proof fn lemma_module_flags_every_long_parameter_list(fns: Seq<FnFacts>, k: int)
    requires
        0 <= k < fns.len(),
    ensures
        forall|x: (Rule, Seq<char>, Seq<char>)| #[trigger] suggestions_for(fns[k]).contains(x)
            ==> suggestions_for_all(fns).contains(x),
        fns[k].param_count >= 4 ==> suggestions_for_all(fns).contains(
            (Rule::LongParameterList, fns[k].name@, long_params_message(fns[k].name@, fns[k].param_count as nat)),
        ),
    decreases fns.len(),
{
    lemma_long_parameter_list_flagged(fns[k]);
    let pre = suggestions_for_all(fns.drop_last());
    let last = suggestions_for(fns.last());
    assert(suggestions_for_all(fns) == pre + last);
    if k == fns.len() - 1 {
        assert forall|x: (Rule, Seq<char>, Seq<char>)| #[trigger] suggestions_for(fns[k]).contains(x)
            implies suggestions_for_all(fns).contains(x) by {
            let i = choose|i: int| 0 <= i < last.len() && last[i] == x;
            assert((pre + last)[pre.len() + i] == x);
        }
    } else {
        lemma_module_flags_every_long_parameter_list(fns.drop_last(), k);
        assert(fns.drop_last()[k] == fns[k]);
        assert forall|x: (Rule, Seq<char>, Seq<char>)| #[trigger] suggestions_for(fns[k]).contains(x)
            implies suggestions_for_all(fns).contains(x) by {
            assert(pre.contains(x));
            let i = choose|i: int| 0 <= i < pre.len() && pre[i] == x;
            assert((pre + last)[i] == x);
        }
    }
}

/// The views of a list of suggestions.
pub open spec fn suggestion_views(v: Seq<Suggestion>) -> Seq<(Rule, Seq<char>, Seq<char>)> {
    v.map_values(|s: Suggestion| suggestion_view(s))
}

impl Rule {
    /// The stable id of this rule.
    pub fn id(self) -> (r: &'static str)
        ensures
            r@ == rule_id(self),
    {
        match self {
            Rule::ManagedFnMissingCaps => "managed-fn-missing-caps",
            Rule::LongParameterList => "long-parameter-list",
            Rule::EmptyFunctionBody => "empty-function-body",
        }
    }
}

/// Appends `s` to `out`, keeping the views in step.
fn push_suggestion(out: &mut Vec<Suggestion>, s: Suggestion)
    ensures
        suggestion_views(final(out)@) == suggestion_views(old(out)@).push(suggestion_view(s)),
{
    let ghost prev = out@;
    out.push(s);
    assert(suggestion_views(out@) =~= suggestion_views(prev).push(suggestion_view(s))) by {
        assert(out@ == prev.push(s));
        assert forall|j: int| 0 <= j < out@.len() implies suggestion_views(out@)[j]
            == suggestion_views(prev).push(suggestion_view(s))[j] by {
            if j < prev.len() {
                assert(out@[j] == prev[j]);
            }
        }
    }
}

/// Appends the suggestions for one function to `out`, in rule order.
pub fn inspect_fn(f: &FnFacts, out: &mut Vec<Suggestion>)
    ensures
        suggestion_views(final(out)@) == suggestion_views(old(out)@) + suggestions_for(*f),
{
    let ghost start = suggestion_views(out@);
    let ghost a: Seq<(Rule, Seq<char>, Seq<char>)> = if f.mode == FnMode::Managed
        && !f.has_caps_annotation {
        seq![(Rule::ManagedFnMissingCaps, f.name@, missing_caps_message(f.name@))]
    } else {
        Seq::empty()
    };
    let ghost b: Seq<(Rule, Seq<char>, Seq<char>)> = if f.param_count >= LONG_PARAMETER_THRESHOLD {
        seq![(Rule::LongParameterList, f.name@, long_params_message(f.name@, f.param_count as nat))]
    } else {
        Seq::empty()
    };
    let ghost c: Seq<(Rule, Seq<char>, Seq<char>)> = if f.body_is_empty {
        seq![(Rule::EmptyFunctionBody, f.name@, empty_body_message(f.name@))]
    } else {
        Seq::empty()
    };
    if f.mode == FnMode::Managed && !f.has_caps_annotation {
        let mut m = String::from_str("compiler suggested: `def ");
        m.append(f.name.as_str());
        m.append(
            "` has no `@caps(...)` annotation. Adding `@caps()` (empty) makes purely-computational intent explicit; adding `@caps(fs)` / `@caps(net)` / etc. declares OS authority up front. Either is reviewable; an unannotated managed function is silent on its capability surface.",
        );
        push_suggestion(
            out,
            Suggestion { rule: Rule::ManagedFnMissingCaps, function: f.name.clone(), message: m },
        );
    }
    assert(suggestion_views(out@) =~= start + a);
    if f.param_count >= LONG_PARAMETER_THRESHOLD {
        let mut m = String::from_str("compiler suggested: `");
        m.append(f.name.as_str());
        m.append("` declares ");
        push_decimal(&mut m, f.param_count as u64);
        m.append(" parameters (threshold ");
        push_decimal(&mut m, LONG_PARAMETER_THRESHOLD as u64);
        m.append(
            "). Grouping related parameters into a struct usually improves call-site readability and lets the type system catch swapped arguments.",
        );
        push_suggestion(
            out,
            Suggestion { rule: Rule::LongParameterList, function: f.name.clone(), message: m },
        );
    }
    assert(suggestion_views(out@) =~= start + a + b);
    if f.body_is_empty {
        let mut m = String::from_str("compiler suggested: `");
        m.append(f.name.as_str());
        m.append(
            "` has an empty body. The function compiles and returns `Nil`, but readers rarely recognize that as intentional. Add a comment or a placeholder return value to make the intent explicit.",
        );
        push_suggestion(
            out,
            Suggestion { rule: Rule::EmptyFunctionBody, function: f.name.clone(), message: m },
        );
    }
    assert(suggestion_views(out@) =~= start + a + b + c);
}

/// Runs every rule over a module's functions, in declaration order.
pub fn suggest_for_module(fns: &Vec<FnFacts>) -> (out: Vec<Suggestion>)
    ensures
        suggestion_views(out@) == suggestions_for_all(fns@),
{
    let mut out: Vec<Suggestion> = Vec::new();
    let mut i: usize = 0;
    assert(suggestion_views(out@) =~= suggestions_for_all(fns@.subrange(0, 0)));
    while i < fns.len()
        invariant
            i <= fns@.len(),
            suggestion_views(out@) == suggestions_for_all(fns@.subrange(0, i as int)),
        decreases fns@.len() - i,
    {
        inspect_fn(&fns[i], &mut out);
        proof {
            let pre = fns@.subrange(0, i as int + 1);
            assert(pre.drop_last() =~= fns@.subrange(0, i as int));
            assert(pre.last() == fns@[i as int]);
        }
        i = i + 1;
    }
    assert(fns@.subrange(0, i as int) =~= fns@);
    out
}

/// A suggestion for terminal output: `[rule-id] message`.
pub fn render(s: &Suggestion) -> (r: String)
    ensures
        r@ == "["@ + rule_id(s.rule) + "] "@ + s.message@,
{
    let mut r = String::from_str("[");
    r.append(s.rule.id());
    r.append("] ");
    r.append(s.message.as_str());
    r
}

/// Every suggestion's message carries the advisory prefix.
pub proof fn lemma_messages_are_marked(f: FnFacts)
    ensures
        forall|i: int|
            0 <= i < suggestions_for(f).len() ==> (#[trigger] suggestions_for(f)[i]).2.len() >= 20
                && suggestions_for(f)[i].2.subrange(0, 20) == "compiler suggested: "@,
{
    reveal_strlit("compiler suggested: `def ");
    reveal_strlit("compiler suggested: `");
    reveal_strlit("compiler suggested: ");
    let s = suggestions_for(f);
    assert forall|i: int| 0 <= i < s.len() implies (#[trigger] s[i]).2.len() >= 20
        && s[i].2.subrange(0, 20) == "compiler suggested: "@ by {
        assert(s[i].2.subrange(0, 20) =~= "compiler suggested: "@);
    }
}

} // verus!
