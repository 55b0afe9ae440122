//! The mode audit log: every call that crosses between managed (`def`) and
//! safe (`fn`) code, so that one file, read alone, enumerates every
//! trust-boundary crossing of a program.
//!
//! Each shipped line reads `<source>:<start>:<end> <caller-mode> ->
//! <callee-mode> <callee-name>`.

use vstd::prelude::*;
use vstd::string::*;
use crate::diagnostics::FnMode;
use crate::span::Span;
use crate::text::{decimal, push_decimal};

verus! {

/// One boundary-crossing call site.
#[derive(Debug, Clone, PartialEq, Eq)]
pub struct BoundaryCall {
    pub caller_name: String,
    pub caller_mode: FnMode,
    pub callee_name: String,
    pub callee_mode: FnMode,
    pub span: Span,
}

/// The direction of a call between the two modes.
#[derive(Debug, Clone, Copy, PartialEq, Eq, Structural)]
pub enum BoundaryDirection {
    /// A `def` calling a `fn`: managed code invoking the ownership-disciplined
    /// world.
    ManagedToSafe,
    /// A `fn` calling a `def`: a managed escape hatch from safe code.
    SafeToManaged,
    /// Managed calling managed.
    ManagedInternal,
    /// Safe calling safe.
    SafeInternal,
}

/// The direction of a call from `caller` mode to `callee` mode.
pub open spec fn direction_of(caller: FnMode, callee: FnMode) -> BoundaryDirection {
    match (caller, callee) {
        (FnMode::Managed, FnMode::Safe) => BoundaryDirection::ManagedToSafe,
        (FnMode::Safe, FnMode::Managed) => BoundaryDirection::SafeToManaged,
        (FnMode::Managed, FnMode::Managed) => BoundaryDirection::ManagedInternal,
        (FnMode::Safe, FnMode::Safe) => BoundaryDirection::SafeInternal,
    }
}

/// The tag of a mode in the log.
pub open spec fn mode_text(m: FnMode) -> Seq<char> {
    match m {
        FnMode::Managed => "managed"@,
        FnMode::Safe => "safe"@,
    }
}

/// The tag of a mode in the log.
pub fn mode_tag(m: FnMode) -> (r: &'static str)
    ensures
        r@ == mode_text(m),
{
    match m {
        FnMode::Managed => "managed",
        FnMode::Safe => "safe",
    }
}

/// The text of a direction.
pub open spec fn direction_text(d: BoundaryDirection) -> Seq<char> {
    match d {
        BoundaryDirection::ManagedToSafe => "managed→safe"@,
        BoundaryDirection::SafeToManaged => "safe→managed"@,
        BoundaryDirection::ManagedInternal => "managed→managed"@,
        BoundaryDirection::SafeInternal => "safe→safe"@,
    }
}

impl BoundaryDirection {
    /// The direction as text: `managed→safe` and the like.
    pub fn to_text(&self) -> (r: &'static str)
        ensures
            r@ == direction_text(*self),
    {
        match self {
            BoundaryDirection::ManagedToSafe => "managed→safe",
            BoundaryDirection::SafeToManaged => "safe→managed",
            BoundaryDirection::ManagedInternal => "managed→managed",
            BoundaryDirection::SafeInternal => "safe→safe",
        }
    }
}

/// The log line of a call, after its source path: `:start:end caller ->
/// callee name`.
pub open spec fn entry_text(path: Seq<char>, e: BoundaryCall) -> Seq<char> {
    path + ":"@ + decimal(e.span.start as nat) + ":"@ + decimal((e.span.start + e.span.len) as nat) + " "@
        + mode_text(e.caller_mode) + " -> "@ + mode_text(e.callee_mode) + " "@ + e.callee_name@
}

/// Appends the log line of a call under `path`.
fn push_entry(out: &mut String, path: &str, e: &BoundaryCall)
    requires
        e.span.start + e.span.len <= usize::MAX,
    ensures
        final(out)@ == old(out)@ + entry_text(path@, *e),
{
    out.append(path);
    out.append(":");
    push_decimal(out, e.span.start as u64);
    out.append(":");
    push_decimal(out, e.span.end() as u64);
    out.append(" ");
    out.append(mode_tag(e.caller_mode));
    out.append(" -> ");
    out.append(mode_tag(e.callee_mode));
    out.append(" ");
    out.append(e.callee_name.as_str());
    assert(out@ =~= old(out)@ + entry_text(path@, *e));
}

impl BoundaryCall {
    /// The direction of the call.
    pub fn direction(&self) -> (r: BoundaryDirection)
        ensures
            r == direction_of(self.caller_mode, self.callee_mode),
    {
        match (self.caller_mode, self.callee_mode) {
            (FnMode::Managed, FnMode::Safe) => BoundaryDirection::ManagedToSafe,
            (FnMode::Safe, FnMode::Managed) => BoundaryDirection::SafeToManaged,
            (FnMode::Managed, FnMode::Managed) => BoundaryDirection::ManagedInternal,
            (FnMode::Safe, FnMode::Safe) => BoundaryDirection::SafeInternal,
        }
    }

    /// The call's line for the shipped log, with the `<source>` placeholder
    /// that the writer replaces by the path.
    pub fn audit_line(&self) -> (r: String)
        requires
            self.span.start + self.span.len <= usize::MAX,
        ensures
            r@ == entry_text("<source>"@, *self),
    {
        let mut out = String::new();
        push_entry(&mut out, "<source>", self);
        assert(out@ =~= entry_text("<source>"@, *self));
        out
    }
}

/// The audit log of a compilation unit.
#[derive(Debug)]
pub struct AuditLog {
    pub entries: Vec<BoundaryCall>,
    /// The unit's source-line count.
    pub source_lines: usize,
}

/// How many of the calls go in direction `d`.
pub open spec fn count_direction(es: Seq<BoundaryCall>, d: BoundaryDirection) -> nat
    decreases es.len(),
{
    if es.len() == 0 {
        0
    } else {
        count_direction(es.drop_last(), d) + if direction_of(es.last().caller_mode, es.last().callee_mode) == d {
            1nat
        } else {
            0nat
        }
    }
}

/// The four directions' counts add up to the number of calls.
pub proof fn lemma_direction_counts_total(es: Seq<BoundaryCall>)
    ensures
        count_direction(es, BoundaryDirection::ManagedToSafe) + count_direction(es, BoundaryDirection::SafeToManaged)
            + count_direction(es, BoundaryDirection::ManagedInternal) + count_direction(es, BoundaryDirection::SafeInternal)
            == es.len(),
    decreases es.len(),
{
    if es.len() > 0 {
        lemma_direction_counts_total(es.drop_last());
    }
}

/// Every shipped line of the calls, in order.
pub open spec fn entries_text(path: Seq<char>, es: Seq<BoundaryCall>) -> Seq<char>
    decreases es.len(),
{
    if es.len() == 0 {
        Seq::empty()
    } else {
        entries_text(path, es.drop_last()) + entry_text(path, es.last()) + "\n"@
    }
}

/// The shipped log: header, per-direction counts, then one line per call.
pub open spec fn audit_text(path: Seq<char>, es: Seq<BoundaryCall>, lines: nat) -> Seq<char> {
    "# Garnet ModeAuditLog v1\n# source: "@ + path + "\n# total: "@ + decimal(es.len()) + " crossings across "@
        + decimal(lines) + " LOC\n"@ + "# managed->safe: "@ + decimal(count_direction(es, BoundaryDirection::ManagedToSafe))
        + "\n# safe->managed: "@ + decimal(count_direction(es, BoundaryDirection::SafeToManaged))
        + "\n# managed->managed: "@ + decimal(count_direction(es, BoundaryDirection::ManagedInternal))
        + "\n# safe->safe: "@ + decimal(count_direction(es, BoundaryDirection::SafeInternal)) + "\n\n"@
        + entries_text(path, es)
}

impl AuditLog {
    /// An empty log of an empty unit.
    pub fn new() -> (r: AuditLog)
        ensures
            r.entries@.len() == 0,
            r.source_lines == 0,
    {
        AuditLog { entries: Vec::new(), source_lines: 0 }
    }

    /// Records one call.
    pub fn push(&mut self, entry: BoundaryCall)
        ensures
            final(self).entries@ == old(self).entries@.push(entry),
            final(self).source_lines == old(self).source_lines,
    {
        self.entries.push(entry);
    }

    /// The counts of calls by direction: (managed→safe, safe→managed,
    /// managed→managed, safe→safe).
    pub fn direction_counts(&self) -> (r: (usize, usize, usize, usize))
        ensures
            r.0 == count_direction(self.entries@, BoundaryDirection::ManagedToSafe),
            r.1 == count_direction(self.entries@, BoundaryDirection::SafeToManaged),
            r.2 == count_direction(self.entries@, BoundaryDirection::ManagedInternal),
            r.3 == count_direction(self.entries@, BoundaryDirection::SafeInternal),
    {
        let mut m2s: usize = 0;
        let mut s2m: usize = 0;
        let mut mm: usize = 0;
        let mut ss: usize = 0;
        let mut i: usize = 0;
        while i < self.entries.len()
            invariant
                i <= self.entries@.len(),
                m2s == count_direction(self.entries@.subrange(0, i as int), BoundaryDirection::ManagedToSafe),
                s2m == count_direction(self.entries@.subrange(0, i as int), BoundaryDirection::SafeToManaged),
                mm == count_direction(self.entries@.subrange(0, i as int), BoundaryDirection::ManagedInternal),
                ss == count_direction(self.entries@.subrange(0, i as int), BoundaryDirection::SafeInternal),
            decreases self.entries@.len() - i,
        {
            let pre = Ghost(self.entries@.subrange(0, i as int + 1));
            proof {
                assert(pre@.drop_last() =~= self.entries@.subrange(0, i as int));
                lemma_direction_counts_total(self.entries@.subrange(0, i as int));
            }
            match self.entries[i].direction() {
                BoundaryDirection::ManagedToSafe => m2s = m2s + 1,
                BoundaryDirection::SafeToManaged => s2m = s2m + 1,
                BoundaryDirection::ManagedInternal => mm = mm + 1,
                BoundaryDirection::SafeInternal => ss = ss + 1,
            }
            i = i + 1;
        }
        assert(self.entries@.subrange(0, i as int) =~= self.entries@);
        (m2s, s2m, mm, ss)
    }

    /// The log in the shipped `.audit` format.
    pub fn to_audit_format(&self, source_path: &str) -> (r: String)
        requires
            forall|i: int| 0 <= i < self.entries@.len() ==> (#[trigger] self.entries@[i]).span.start + self.entries@[i].span.len <= usize::MAX,
        ensures
            r@ == audit_text(source_path@, self.entries@, self.source_lines as nat),
    {
        let mut out = String::new();
        out.append("# Garnet ModeAuditLog v1\n# source: ");
        out.append(source_path);
        out.append("\n# total: ");
        push_decimal(&mut out, self.entries.len() as u64);
        out.append(" crossings across ");
        push_decimal(&mut out, self.source_lines as u64);
        out.append(" LOC\n");
        let (m2s, s2m, mm, ss) = self.direction_counts();
        out.append("# managed->safe: ");
        push_decimal(&mut out, m2s as u64);
        out.append("\n# safe->managed: ");
        push_decimal(&mut out, s2m as u64);
        out.append("\n# managed->managed: ");
        push_decimal(&mut out, mm as u64);
        out.append("\n# safe->safe: ");
        push_decimal(&mut out, ss as u64);
        out.append("\n\n");
        let ghost head = out@;
        let mut i: usize = 0;
        assert(self.entries@.subrange(0, 0) =~= Seq::<BoundaryCall>::empty());
        while i < self.entries.len()
            invariant
                i <= self.entries@.len(),
                forall|j: int| 0 <= j < self.entries@.len() ==> (#[trigger] self.entries@[j]).span.start + self.entries@[j].span.len <= usize::MAX,
                out@ == head + entries_text(source_path@, self.entries@.subrange(0, i as int)),
            decreases self.entries@.len() - i,
        {
            push_entry(&mut out, source_path, &self.entries[i]);
            out.append("\n");
            proof {
                let pre = self.entries@.subrange(0, i as int + 1);
                assert(pre.drop_last() =~= self.entries@.subrange(0, i as int));
                assert(out@ =~= head + entries_text(source_path@, pre));
            }
            i = i + 1;
        }
        assert(self.entries@.subrange(0, i as int) =~= self.entries@);
        assert(out@ =~= audit_text(source_path@, self.entries@, self.source_lines as nat));
        out
    }
}

} // verus!
