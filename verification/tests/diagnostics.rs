use garnet::diagnostics::CheckError::{
    AnnotationError, BoundaryNote, CapsCoverage, OverCatch, SafeModeViolation, StabilityAdvice,
    StabilityError,
};
use garnet::diagnostics::{CheckError, CheckReport, Severity};

#[test]
fn severity_and_code_are_canonical() {
    let cases: Vec<(CheckError, Severity, &str)> = vec![
        (
            SafeModeViolation("x".into()),
            Severity::Error,
            "check.safe_mode_violation",
        ),
        (
            BoundaryNote("x".into()),
            Severity::Warning,
            "check.boundary_note",
        ),
        (
            AnnotationError("x".into()),
            Severity::Error,
            "check.annotation_error",
        ),
        (
            CapsCoverage {
                fn_name: "f".into(),
                missing: "fs".into(),
                via: "g".into(),
            },
            Severity::Error,
            "check.caps_coverage",
        ),
        (
            StabilityAdvice("x".into()),
            Severity::Info,
            "check.stability_advice",
        ),
        (
            StabilityError("x".into()),
            Severity::Error,
            "check.stability_error",
        ),
        (OverCatch("x".into()), Severity::Info, "check.over_catch"),
    ];
    for (err, sev, code) in cases {
        assert_eq!(err.severity(), sev, "{err:?}");
        assert_eq!(err.code(), code, "{err:?}");
    }
}

#[test]
fn error_severity_agrees_with_fatal_set() {
    let all = vec![
        SafeModeViolation("x".into()),
        BoundaryNote("x".into()),
        AnnotationError("x".into()),
        CapsCoverage { fn_name: "f".into(), missing: "fs".into(), via: "g".into() },
        StabilityAdvice("x".into()),
        StabilityError("x".into()),
        OverCatch("x".into()),
    ];
    for err in all {
        let report = CheckReport {
            errors: vec![err.clone()],
            mode_map: Vec::new(),
            boundary_call_sites: 0,
            fn_caps: Vec::new(),
        };
        assert_eq!(report.ok(), err.severity() != Severity::Error, "{err:?}");
    }
    assert!(CheckReport::default().ok());
}

#[test]
fn messages_follow_the_display_forms() {
    assert_eq!(SafeModeViolation("v".into()).message(), "safe-mode violation: v");
    assert_eq!(BoundaryNote("b".into()).message(), "mode-boundary warning: b");
    assert_eq!(AnnotationError("a".into()).message(), "annotation error: a");
    assert_eq!(
        CapsCoverage { fn_name: "f".into(), missing: "fs".into(), via: "g".into() }.message(),
        "caps coverage: function `f` does not declare `fs` but transitively calls `g` which requires it"
    );
    assert_eq!(OverCatch("o".into()).message(), "o");
}
