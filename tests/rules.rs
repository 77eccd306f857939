use poem_casbin_demo::policy::{Matcher, PolicyEngine, PolicyLoadError};
use poem_casbin_demo::rule_source::{load_rules, rule_from_fields, Rule};

fn fields(line: &[&str]) -> Vec<String> {
    line.iter().map(|f| f.to_string()).collect()
}

#[test]
fn permission_lines() {
    match rule_from_fields(&fields(&["p", "admin", "/pen/1", "GET"])) {
        Ok(Rule::Permission(p)) => {
            assert_eq!(p.subject, "admin");
            assert_eq!(p.domain, None);
            assert_eq!(p.object, "/pen/1");
            assert_eq!(p.action, "GET");
        }
        _ => panic!("expected a permission rule"),
    }
    match rule_from_fields(&fields(&["p", "admin", "shop", "/pen/1", "GET"])) {
        Ok(Rule::Permission(p)) => {
            assert_eq!(p.domain, Some("shop".to_string()));
            assert_eq!(p.object, "/pen/1");
            assert_eq!(p.action, "GET");
        }
        _ => panic!("expected a permission rule"),
    }
}

#[test]
fn grouping_lines() {
    match rule_from_fields(&fields(&["g", "alice", "admin"])) {
        Ok(Rule::Grouping(g)) => {
            assert_eq!(g.member, "alice");
            assert_eq!(g.role, "admin");
            assert_eq!(g.domain, None);
        }
        _ => panic!("expected a role assignment"),
    }
    match rule_from_fields(&fields(&["g", "alice", "admin", "shop"])) {
        Ok(Rule::Grouping(g)) => assert_eq!(g.domain, Some("shop".to_string())),
        _ => panic!("expected a role assignment"),
    }
}

#[test]
fn malformed_lines() {
    for line in [
        &[][..],
        &["p", "admin", "/pen/1"][..],
        &["g", "alice"][..],
        &["q", "a", "b", "c"][..],
        &["P", "a", "b", "c"][..],
        &["pp", "a", "b", "c"][..],
        &["g", "a", "b", "c", "d"][..],
    ] {
        assert!(matches!(
            rule_from_fields(&fields(line)),
            Err(PolicyLoadError::MalformedRule)
        ));
    }
}

#[test]
fn engine_from_rule_lines() {
    let mut engine = PolicyEngine::new(vec![], vec![]);
    assert_eq!(engine.set_matcher(Matcher::KeyMatch2), Ok(()));
    for line in [
        &["p", "admin", "/pen/1", "GET"][..],
        &["p", "reader", "/book/*", "GET"][..],
        &["g", "alice", "admin"][..],
        &["g", "alice", "reader"][..],
    ] {
        let rule = rule_from_fields(&fields(line)).ok().unwrap();
        assert_eq!(engine.add_rule(rule), Ok(()));
    }
    let bad = rule_from_fields(&fields(&["p", "admin", "/a(", "GET"])).ok().unwrap();
    assert_eq!(engine.add_rule(bad), Err(PolicyLoadError::UnsafePattern));
    let s = |x: &str| x.to_string();
    assert!(engine.enforce(&s("alice"), &None, &s("/pen/1"), &s("GET")));
    assert!(engine.enforce(&s("alice"), &None, &s("/book/3"), &s("GET")));
    assert!(!engine.enforce(&s("alice"), &None, &s("/pen/2"), &s("GET")));
    assert!(!engine.enforce(&s("bob"), &None, &s("/book/3"), &s("GET")));
}

#[test]
fn load_rule_source() {
    let source = "# demo rules\n\
                  p, admin, /pen/1, GET\n\
                  \n\
                  p,reader, /book/* ,GET\r\n\
                  g, alice, admin\n\
                  \tg , alice , reader\n";
    let engine = load_rules(source).ok().unwrap();
    let s = |x: &str| x.to_string();
    assert!(engine.enforce(&s("alice"), &None, &s("/pen/1"), &s("GET")));
    assert!(engine.enforce(&s("alice"), &None, &s("/book/42"), &s("GET")));
    assert!(!engine.enforce(&s("alice"), &None, &s("/pen/2"), &s("GET")));
    assert!(!engine.enforce(&s("bob"), &None, &s("/pen/1"), &s("GET")));
}

#[test]
fn load_rule_source_errors() {
    assert!(matches!(load_rules("p, admin, /pen/1\n"), Err(PolicyLoadError::MalformedRule)));
    assert!(matches!(
        load_rules("p, admin, /a(, GET\nx, y\n"),
        Err(PolicyLoadError::MalformedRule)
    ));
    assert!(matches!(
        load_rules("p, admin, /a(, GET\n"),
        Err(PolicyLoadError::UnsafePattern)
    ));
    let engine = load_rules("").ok().unwrap();
    let s = |x: &str| x.to_string();
    assert!(!engine.enforce(&s("alice"), &None, &s("/pen/1"), &s("GET")));
    assert!(load_rules("# only a comment\n   \n").is_ok());
}
