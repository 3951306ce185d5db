use orbs::review::{ReviewVerdict, ReviseScope};

#[test]
fn verdict_classifiers() {
    assert!(ReviewVerdict::Accept.is_accept());
    assert!(!ReviewVerdict::Accept.is_revise());
    assert!(ReviewVerdict::Reject.is_reject());
    assert!(!ReviewVerdict::Reject.is_accept());
    assert!(ReviewVerdict::Revise {
        scope: ReviseScope::Execution
    }
    .is_revise());
    assert!(!ReviewVerdict::Revise {
        scope: ReviseScope::Execution
    }
    .is_accept());
}

#[test]
fn revise_scope_default_is_execution() {
    assert_eq!(ReviseScope::default(), ReviseScope::Execution);
}
