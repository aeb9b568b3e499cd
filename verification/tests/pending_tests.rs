use devin_usage::pending::{PendingAuths, PollOutcome};

fn st(x: &str) -> String {
    x.to_string()
}

#[test]
fn begun_sign_in_waits() {
    let mut p = PendingAuths::new();
    assert!(!p.contains(&st("s1")));
    p.begin(st("s1"), st("v1"));
    assert!(p.contains(&st("s1")));
    assert!(matches!(p.poll(&st("s1")), PollOutcome::Waiting));
    assert!(p.contains(&st("s1")));
}

#[test]
fn unknown_state_is_expired() {
    let mut p = PendingAuths::new();
    assert!(matches!(p.poll(&st("nope")), PollOutcome::Expired));
}

#[test]
fn delivered_code_is_ready_once() {
    let mut p = PendingAuths::new();
    p.begin(st("s1"), st("v1"));
    p.begin(st("s2"), st("v2"));
    p.deliver_code(&st("s1"), st("code-1"));
    match p.poll(&st("s1")) {
        PollOutcome::Ready(a) => {
            assert_eq!(a.verifier, "v1");
            assert_eq!(a.code.as_deref(), Some("code-1"));
        }
        _ => panic!("expected the delivered code"),
    }
    assert!(!p.contains(&st("s1")));
    assert!(matches!(p.poll(&st("s1")), PollOutcome::Expired));
    assert!(matches!(p.poll(&st("s2")), PollOutcome::Waiting));
}

#[test]
fn deliver_to_unknown_state_does_nothing() {
    let mut p = PendingAuths::new();
    p.deliver_code(&st("ghost"), st("c"));
    assert!(!p.contains(&st("ghost")));
}

#[test]
fn take_removes_sign_in() {
    let mut p = PendingAuths::new();
    p.begin(st("s1"), st("v1"));
    let a = p.take(&st("s1")).unwrap();
    assert_eq!(a.verifier, "v1");
    assert!(a.code.is_none());
    assert!(p.take(&st("s1")).is_none());
    p.deliver_code(&st("s1"), st("late"));
    assert!(!p.contains(&st("s1")));
}

#[test]
fn begin_again_replaces() {
    let mut p = PendingAuths::new();
    p.begin(st("s1"), st("v1"));
    p.deliver_code(&st("s1"), st("c"));
    p.begin(st("s1"), st("v2"));
    assert!(matches!(p.poll(&st("s1")), PollOutcome::Waiting));
    let a = p.take(&st("s1")).unwrap();
    assert_eq!(a.verifier, "v2");
}
