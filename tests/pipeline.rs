use poem_casbin_demo::extract::{
    credentials_of, extract, identity_from_checked_credentials, identity_from_credentials,
    AuthError,
};
use poem_casbin_demo::identity::{CasbinVals, RequestContext};
use poem_casbin_demo::middleware::{BasicAuth, Decision};
use poem_casbin_demo::policy::{
    is_safe_pattern, roles_of, Matcher, PolicyEngine, PolicyLoadError, PolicyRule, RoleRule,
};

// "alice:password" in base64
const ALICE: &str = "Basic YWxpY2U6cGFzc3dvcmQ=";
// "bob:secret" in base64
const BOB: &str = "Basic Ym9iOnNlY3JldA==";

fn p(subject: &str, object: &str, action: &str) -> PolicyRule {
    PolicyRule {
        subject: subject.to_string(),
        domain: None,
        object: object.to_string(),
        action: action.to_string(),
    }
}

fn g(member: &str, role: &str) -> RoleRule {
    RoleRule { member: member.to_string(), role: role.to_string(), domain: None }
}

fn s(x: &str) -> String {
    x.to_string()
}

fn pen_engine() -> PolicyEngine {
    PolicyEngine::new(vec![p("admin", "/pen/1", "GET")], vec![g("alice", "admin")])
}

#[test]
fn pen_scenario() {
    let ep = BasicAuth::new(pen_engine()).transform("I'm pen 1");
    let mut ctx = RequestContext::new();
    assert_eq!(ep.call(&mut ctx, Some(ALICE), &s("/pen/1"), &s("GET")), Decision::Permitted);
    assert_eq!(*ep.endpoint(), "I'm pen 1");
    assert_eq!(ctx.read().unwrap().subject, "alice");

    let mut ctx = RequestContext::new();
    let d = ep.call(&mut ctx, Some(ALICE), &s("/pen/2"), &s("GET"));
    assert_eq!(d, Decision::Forbidden);
    assert_eq!(d.denial_status(), Some(403));

    let mut ctx = RequestContext::new();
    let d = ep.call(&mut ctx, None, &s("/pen/1"), &s("GET"));
    assert_eq!(d, Decision::Unauthorized);
    assert_eq!(d.denial_status(), Some(401));
    assert!(ctx.read().is_none());
}

#[test]
fn no_header_is_unauthorized_for_every_path() {
    let ep = BasicAuth::new(pen_engine()).transform(());
    for path in ["/pen/1", "/pen/2", "/book/7", "/user"] {
        let mut ctx = RequestContext::new();
        assert_eq!(ep.call(&mut ctx, None, &s(path), &s("GET")), Decision::Unauthorized);
        assert!(ctx.read().is_none());
    }
}

#[test]
fn subject_without_rule_is_forbidden() {
    let ep = BasicAuth::new(pen_engine()).transform(());
    let mut ctx = RequestContext::new();
    assert_eq!(ep.call(&mut ctx, Some(BOB), &s("/pen/1"), &s("GET")), Decision::Forbidden);
    assert_eq!(ctx.read().unwrap().subject, "bob");
    assert_eq!(Decision::Permitted.denial_status(), None);
}

#[test]
fn transitive_role_is_permitted() {
    let engine = PolicyEngine::new(
        vec![p("admin", "/pen/1", "GET")],
        vec![g("editor", "admin"), g("alice", "editor")],
    );
    assert!(engine.enforce(&s("alice"), &None, &s("/pen/1"), &s("GET")));
    assert!(!engine.enforce(&s("alice"), &None, &s("/pen/1"), &s("POST")));
    let roles = roles_of(
        &vec![g("editor", "admin"), g("alice", "editor")],
        &s("alice"),
        &None,
    );
    assert_eq!(roles.len(), 3);
    for r in ["alice", "editor", "admin"] {
        assert!(roles.iter().any(|x| x == r));
    }
    let ep = BasicAuth::new(engine).transform(());
    let mut ctx = RequestContext::new();
    assert_eq!(ep.call(&mut ctx, Some(ALICE), &s("/pen/1"), &s("GET")), Decision::Permitted);
}

#[test]
fn repeated_requests_get_the_same_verdict() {
    let ep = BasicAuth::new(pen_engine()).transform(());
    for (path, want) in [("/pen/1", Decision::Permitted), ("/pen/2", Decision::Forbidden)] {
        let first = ep.call(&mut RequestContext::new(), Some(ALICE), &s(path), &s("GET"));
        let second = ep.call(&mut RequestContext::new(), Some(ALICE), &s(path), &s("GET"));
        assert_eq!(first, want);
        assert_eq!(first, second);
    }
}

#[test]
fn pattern_matching_needs_the_pattern_matcher() {
    let mut engine = PolicyEngine::new(vec![p("alice", "/book/*", "GET")], vec![]);
    assert!(!engine.enforce(&s("alice"), &None, &s("/book/42"), &s("GET")));
    assert_eq!(engine.set_matcher(Matcher::KeyMatch2), Ok(()));
    assert!(engine.enforce(&s("alice"), &None, &s("/book/42"), &s("GET")));
    assert!(!engine.enforce(&s("alice"), &None, &s("/pen/42"), &s("GET")));
    assert_eq!(engine.set_matcher(Matcher::Exact), Ok(()));
    assert!(!engine.enforce(&s("alice"), &None, &s("/book/42"), &s("GET")));
}

#[test]
fn named_segment_pattern() {
    let mut engine = PolicyEngine::new(vec![p("alice", "/book/:id", "GET")], vec![]);
    assert_eq!(engine.set_matcher(Matcher::KeyMatch2), Ok(()));
    assert!(engine.enforce(&s("alice"), &None, &s("/book/42"), &s("GET")));
    assert!(!engine.enforce(&s("alice"), &None, &s("/book/42/pages"), &s("GET")));
}

#[test]
fn unsafe_pattern_is_refused() {
    let mut engine = PolicyEngine::new(vec![p("alice", "/book/(", "GET")], vec![]);
    assert_eq!(engine.set_matcher(Matcher::KeyMatch2), Err(PolicyLoadError::UnsafePattern));
    assert!(!engine.enforce(&s("alice"), &None, &s("/book/42"), &s("GET")));
    assert!(engine.enforce(&s("alice"), &None, &s("/book/("), &s("GET")));

    let mut engine = PolicyEngine::new(vec![], vec![]);
    assert_eq!(engine.set_matcher(Matcher::KeyMatch2), Ok(()));
    assert_eq!(engine.add_policy(p("alice", "*x", "GET")), Err(PolicyLoadError::UnsafePattern));
    assert_eq!(engine.add_policy(p("alice", "/x/*", "GET")), Ok(()));
    assert!(engine.enforce(&s("alice"), &None, &s("/x/y/z"), &s("GET")));
}

#[test]
fn safe_patterns() {
    assert!(is_safe_pattern(&s("/book/*")));
    assert!(is_safe_pattern(&s("/book/:id")));
    assert!(is_safe_pattern(&s("")));
    assert!(!is_safe_pattern(&s("*")));
    assert!(!is_safe_pattern(&s("/a/**")));
    assert!(!is_safe_pattern(&s("/a[b]")));
    assert!(!is_safe_pattern(&s("/caf\u{e9}")));
}

#[test]
fn domain_scoped_rules() {
    let mut engine = PolicyEngine::new(vec![], vec![]);
    assert_eq!(
        engine.add_policy(PolicyRule {
            subject: s("admin"),
            domain: Some(s("shop")),
            object: s("/pen/1"),
            action: s("GET"),
        }),
        Ok(())
    );
    engine.add_grouping(RoleRule { member: s("alice"), role: s("admin"), domain: Some(s("shop")) });
    assert!(engine.enforce(&s("alice"), &Some(s("shop")), &s("/pen/1"), &s("GET")));
    assert!(!engine.enforce(&s("alice"), &Some(s("mall")), &s("/pen/1"), &s("GET")));
    assert!(!engine.enforce(&s("alice"), &None, &s("/pen/1"), &s("GET")));
}

#[test]
fn empty_rule_set_denies() {
    let engine = PolicyEngine::new(vec![], vec![]);
    assert!(!engine.enforce(&s("alice"), &None, &s("/pen/1"), &s("GET")));
}

#[test]
fn extraction() {
    let v = extract(Some(ALICE)).unwrap();
    assert_eq!(v.subject, "alice");
    assert_eq!(v.domain, None);
    assert_eq!(extract(Some("basic Ym9iOnNlY3JldA==")).unwrap().subject, "bob");
    let bad = Err(AuthError::MissingOrInvalidCredentials);
    assert_eq!(extract(None).map(|v| v.subject), bad);
    assert_eq!(extract(Some("Bearer abc")).map(|v| v.subject), bad);
    assert_eq!(extract(Some("Basic !!!")).map(|v| v.subject), bad);
    // "alice" without a colon
    assert_eq!(extract(Some("Basic YWxpY2U=")).map(|v| v.subject), bad);
    // ":pw", an empty user
    assert_eq!(extract(Some("Basic OnB3")).map(|v| v.subject), bad);
}

#[test]
fn identity_from_decoded_credentials() {
    let v = identity_from_credentials(Some((s("alice"), s("pw")))).unwrap();
    assert_eq!(v.subject, "alice");
    assert_eq!(v.domain, None);
    assert_eq!(
        identity_from_credentials(Some((s(""), s("pw")))).map(|v| v.subject),
        Err(AuthError::MissingOrInvalidCredentials)
    );
    assert_eq!(
        identity_from_credentials(None).map(|v| v.subject),
        Err(AuthError::MissingOrInvalidCredentials)
    );
}

#[test]
fn request_context() {
    let mut ctx = RequestContext::new();
    assert!(ctx.read().is_none());
    ctx.attach(CasbinVals::new(s("alice"), Some(s("shop"))).unwrap());
    let v = ctx.read().unwrap().clone();
    assert_eq!(v.subject, "alice");
    assert_eq!(v.domain, Some(s("shop")));
    assert!(CasbinVals::new(s(""), None).is_none());
}

#[test]
fn long_patterns_are_refused() {
    let long = format!("/{}", "a".repeat(5000));
    assert!(!is_safe_pattern(&long));
    let edge = format!("/{}", "a".repeat(4095));
    assert!(is_safe_pattern(&edge));
    let mut engine = PolicyEngine::new(vec![p("alice", &long, "GET")], vec![]);
    assert_eq!(engine.set_matcher(Matcher::KeyMatch2), Err(PolicyLoadError::UnsafePattern));
}

#[test]
fn checked_credentials() {
    let c = credentials_of(Some(ALICE));
    assert_eq!(c, Some((s("alice"), s("password"))));
    assert_eq!(credentials_of(None), None);
    assert_eq!(credentials_of(Some("Basic !!!")), None);
    assert_eq!(identity_from_checked_credentials(c.clone(), true).unwrap().subject, "alice");
    assert_eq!(
        identity_from_checked_credentials(c.clone(), false).map(|v| v.subject),
        Err(AuthError::MissingOrInvalidCredentials)
    );

    let ep = BasicAuth::new(pen_engine()).transform(());
    let mut ctx = RequestContext::new();
    assert_eq!(
        ep.call_checked(&mut ctx, c.clone(), false, &s("/pen/1"), &s("GET")),
        Decision::Unauthorized
    );
    assert!(ctx.read().is_none());
    assert_eq!(
        ep.call_checked(&mut ctx, c.clone(), true, &s("/pen/1"), &s("GET")),
        Decision::Permitted
    );
    assert_eq!(ctx.read().unwrap().subject, "alice");
    assert_eq!(
        ep.call_checked(&mut RequestContext::new(), c, true, &s("/pen/2"), &s("GET")),
        Decision::Forbidden
    );
}
