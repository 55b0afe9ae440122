//! The checker's diagnostics, their presentation severity and stable codes,
//! and the report that collects them.
//!
//! Severity (how a finding is surfaced) and fatality (whether it changes the
//! exit code, decided by [`CheckReport::ok`]) are distinct axes; they agree
//! in that a finding is fatal exactly when its severity is `Error`.

use vstd::prelude::*;
use vstd::string::*;

verus! {

/// A diagnostic from the checker.
#[derive(Debug, Clone)]
pub enum CheckError {
    SafeModeViolation(String),
    BoundaryNote(String),
    AnnotationError(String),
    /// Function `fn_name` transitively calls `via`, which requires a
    /// capability `missing` that its `@caps(...)` does not declare.
    CapsCoverage { fn_name: String, missing: String, via: String },
    /// Non-fatal `@stability` advisory at a primitive call site.
    StabilityAdvice(String),
    /// `@stability` enforcement promoted to error level (fatal).
    StabilityError(String),
    /// Non-fatal advisory for a catch-all `rescue`.
    OverCatch(String),
    /// A linear or effect boundary violation (fatal).
    LinearEffect(String),
}

/// Presentation severity of a diagnostic.
#[derive(Debug, Clone, Copy, PartialEq, Eq, Structural)]
pub enum Severity {
    Error,
    Warning,
    Info,
}

/// Whether a function is checked in managed or in safe mode.
#[derive(Debug, Clone, Copy, PartialEq, Eq, Structural)]
pub enum FnMode {
    Managed,
    Safe,
}

/// The severity of each kind of diagnostic.
pub open spec fn severity_of(e: CheckError) -> Severity {
    match e {
        CheckError::SafeModeViolation(_) => Severity::Error,
        CheckError::AnnotationError(_) => Severity::Error,
        CheckError::CapsCoverage { .. } => Severity::Error,
        CheckError::StabilityError(_) => Severity::Error,
        CheckError::LinearEffect(_) => Severity::Error,
        CheckError::BoundaryNote(_) => Severity::Warning,
        CheckError::StabilityAdvice(_) => Severity::Info,
        CheckError::OverCatch(_) => Severity::Info,
    }
}

/// Whether a diagnostic fails the check (changes the exit code).
pub open spec fn is_fatal(e: CheckError) -> bool {
    e is SafeModeViolation || e is AnnotationError || e is CapsCoverage || e is StabilityError
        || e is LinearEffect
}

/// The stable machine-readable code of each kind of diagnostic.
pub open spec fn code_of(e: CheckError) -> Seq<char> {
    match e {
        CheckError::SafeModeViolation(_) => "check.safe_mode_violation"@,
        CheckError::BoundaryNote(_) => "check.boundary_note"@,
        CheckError::AnnotationError(_) => "check.annotation_error"@,
        CheckError::CapsCoverage { .. } => "check.caps_coverage"@,
        CheckError::StabilityAdvice(_) => "check.stability_advice"@,
        CheckError::StabilityError(_) => "check.stability_error"@,
        CheckError::OverCatch(_) => "check.over_catch"@,
        CheckError::LinearEffect(_) => "check.linear_effect"@,
    }
}

/// The user-readable text of a diagnostic.
pub open spec fn message_of(e: CheckError) -> Seq<char> {
    match e {
        CheckError::SafeModeViolation(s) => "safe-mode violation: "@ + s@,
        CheckError::BoundaryNote(s) => "mode-boundary warning: "@ + s@,
        CheckError::AnnotationError(s) => "annotation error: "@ + s@,
        CheckError::CapsCoverage { fn_name, missing, via } => "caps coverage: function `"@
            + fn_name@ + "` does not declare `"@ + missing@ + "` but transitively calls `"@
            + via@ + "` which requires it"@,
        CheckError::StabilityAdvice(s) => s@,
        CheckError::StabilityError(s) => s@,
        CheckError::OverCatch(s) => s@,
        CheckError::LinearEffect(s) => s@,
    }
}

/// A diagnostic is fatal exactly when it is presented as an error.
pub proof fn lemma_fatal_iff_error(e: CheckError)
    ensures
        is_fatal(e) <==> severity_of(e) == Severity::Error,
{
}

impl CheckError {
    /// The presentation severity of this diagnostic.
    pub fn severity(&self) -> (s: Severity)
        ensures
            s == severity_of(*self),
    {
        match self {
            CheckError::SafeModeViolation(_) => Severity::Error,
            CheckError::AnnotationError(_) => Severity::Error,
            CheckError::CapsCoverage { .. } => Severity::Error,
            CheckError::StabilityError(_) => Severity::Error,
            CheckError::LinearEffect(_) => Severity::Error,
            CheckError::BoundaryNote(_) => Severity::Warning,
            CheckError::StabilityAdvice(_) => Severity::Info,
            CheckError::OverCatch(_) => Severity::Info,
        }
    }

    /// The stable machine-readable code (`check.*`) of this diagnostic.
    pub fn code(&self) -> (c: &'static str)
        ensures
            c@ == code_of(*self),
    {
        match self {
            CheckError::SafeModeViolation(_) => "check.safe_mode_violation",
            CheckError::BoundaryNote(_) => "check.boundary_note",
            CheckError::AnnotationError(_) => "check.annotation_error",
            CheckError::CapsCoverage { .. } => "check.caps_coverage",
            CheckError::StabilityAdvice(_) => "check.stability_advice",
            CheckError::StabilityError(_) => "check.stability_error",
            CheckError::OverCatch(_) => "check.over_catch",
            CheckError::LinearEffect(_) => "check.linear_effect",
        }
    }

    /// Whether this diagnostic fails the check.
    pub fn is_fatal(&self) -> (r: bool)
        ensures
            r == is_fatal(*self),
    {
        match self {
            CheckError::SafeModeViolation(_) => true,
            CheckError::AnnotationError(_) => true,
            CheckError::CapsCoverage { .. } => true,
            CheckError::StabilityError(_) => true,
            CheckError::LinearEffect(_) => true,
            _ => false,
        }
    }

    /// The user-readable text of this diagnostic.
    pub fn message(&self) -> (m: String)
        ensures
            m@ == message_of(*self),
    {
        match self {
            CheckError::SafeModeViolation(s) => {
                let mut m = String::from_str("safe-mode violation: ");
                m.append(s.as_str());
                m
            },
            CheckError::BoundaryNote(s) => {
                let mut m = String::from_str("mode-boundary warning: ");
                m.append(s.as_str());
                m
            },
            CheckError::AnnotationError(s) => {
                let mut m = String::from_str("annotation error: ");
                m.append(s.as_str());
                m
            },
            CheckError::CapsCoverage { fn_name, missing, via } => {
                let mut m = String::from_str("caps coverage: function `");
                m.append(fn_name.as_str());
                m.append("` does not declare `");
                m.append(missing.as_str());
                m.append("` but transitively calls `");
                m.append(via.as_str());
                m.append("` which requires it");
                m
            },
            CheckError::StabilityAdvice(s) => s.clone(),
            CheckError::StabilityError(s) => s.clone(),
            CheckError::OverCatch(s) => s.clone(),
            CheckError::LinearEffect(s) => s.clone(),
        }
    }
}

/// The checker's result set: its diagnostics and metadata about each
/// function.
#[derive(Debug)]
pub struct CheckReport {
    pub errors: Vec<CheckError>,
    pub mode_map: Vec<(String, FnMode)>,
    pub boundary_call_sites: usize,
    /// Per-function capability names collected from `@caps(...)`.
    pub fn_caps: Vec<(String, Vec<String>)>,
}

impl Default for CheckReport {
    fn default() -> (r: CheckReport)
        ensures
            r.errors@.len() == 0,
            r.mode_map@.len() == 0,
            r.boundary_call_sites == 0,
            r.fn_caps@.len() == 0,
    {
        CheckReport { errors: Vec::new(), mode_map: Vec::new(), boundary_call_sites: 0, fn_caps: Vec::new() }
    }
}

impl CheckReport {
    /// Whether the check passed: no fatal diagnostic was reported. Advisories
    /// (boundary notes, stability advice, over-catch) never fail it.
    pub fn ok(&self) -> (r: bool)
        ensures
            r == (forall|i: int| 0 <= i < self.errors@.len() ==> !is_fatal(#[trigger] self.errors@[i])),
    {
        let mut i: usize = 0;
        while i < self.errors.len()
            invariant
                i <= self.errors@.len(),
                forall|j: int| 0 <= j < i ==> !is_fatal(#[trigger] self.errors@[j]),
            decreases self.errors@.len() - i,
        {
            if self.errors[i].is_fatal() {
                return false;
            }
            i = i + 1;
        }
        true
    }
}

} // verus!
