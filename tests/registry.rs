use ezrtc_server::protocol::{SessionId, UserId};
use ezrtc_server::registry::{JoinOutcome, Session, SessionRegistry};

fn sid(s: &str) -> SessionId {
    SessionId::new(String::from(s))
}

#[test]
fn join_outcomes() {
    let mut reg = SessionRegistry::new();
    let (a, b, c) = (UserId::new(1), UserId::new(2), UserId::new(3));
    assert!(matches!(reg.join(sid("S"), b, false), JoinOutcome::JoinedAsMember(None)));
    match reg.join(sid("S"), a, true) {
        JoinOutcome::BecameHost(members) => assert_eq!(members, vec![b]),
        other => panic!("unexpected {:?}", other),
    }
    assert!(matches!(reg.join(sid("S"), c, true), JoinOutcome::HostConflict));
    assert!(matches!(reg.join(sid("S"), c, false), JoinOutcome::JoinedAsMember(Some(h)) if h == a));
    let s = reg.lookup(&sid("S")).unwrap();
    assert_eq!(s.host, Some(a));
    assert_eq!(s.users, vec![b, c]);
}

#[test]
fn leave_removes_user_and_empty_sessions() {
    let mut reg = SessionRegistry::new();
    let (a, b, c, d) = (UserId::new(1), UserId::new(2), UserId::new(3), UserId::new(4));
    reg.join(sid("X"), a, true);
    reg.join(sid("Y"), b, false);
    reg.join(sid("Z"), c, true);
    reg.join(sid("Z"), d, false);
    let gone = reg.leave(a);
    let names: Vec<&str> = gone.iter().map(|s| s.as_str()).collect();
    assert_eq!(names, vec!["X"]);
    assert!(reg.lookup(&sid("X")).is_none());
    assert!(reg.leave(c).is_empty());
    let z = reg.lookup(&sid("Z")).unwrap();
    assert_eq!(z.host, None);
    assert_eq!(z.users, vec![d]);
    let gone = reg.leave(b);
    let names: Vec<&str> = gone.iter().map(|s| s.as_str()).collect();
    assert_eq!(names, vec!["Y"]);
    let gone = reg.leave(d);
    let names: Vec<&str> = gone.iter().map(|s| s.as_str()).collect();
    assert_eq!(names, vec!["Z"]);
    assert!(reg.lookup(&sid("Y")).is_none());
    assert!(reg.lookup(&sid("Z")).is_none());
}

#[test]
fn join_into_second_session_is_refused() {
    let mut reg = SessionRegistry::new();
    let (u, h) = (UserId::new(1), UserId::new(2));
    reg.join(sid("S1"), u, false);
    assert!(matches!(reg.join(sid("S2"), u, false), JoinOutcome::Refused));
    assert!(matches!(reg.join(sid("S2"), u, true), JoinOutcome::Refused));
    assert!(reg.lookup(&sid("S2")).is_none());
    reg.join(sid("S3"), h, true);
    assert!(matches!(reg.join(sid("S3"), u, false), JoinOutcome::Refused));
    assert!(matches!(reg.join(sid("S1"), h, false), JoinOutcome::Refused));
    assert_eq!(reg.lookup(&sid("S1")).unwrap().users, vec![u]);
    assert!(reg.lookup(&sid("S3")).unwrap().users.is_empty());
}

#[test]
fn join_in_the_other_role_is_refused() {
    let mut reg = SessionRegistry::new();
    let (h, m) = (UserId::new(1), UserId::new(2));
    reg.join(sid("S"), m, false);
    assert!(matches!(reg.join(sid("S"), m, true), JoinOutcome::Refused));
    assert_eq!(reg.lookup(&sid("S")).unwrap().host, None);
    reg.join(sid("S"), h, true);
    assert!(matches!(reg.join(sid("S"), h, false), JoinOutcome::Refused));
    let s = reg.lookup(&sid("S")).unwrap();
    assert_eq!(s.host, Some(h));
    assert_eq!(s.users, vec![m]);
}

#[test]
fn no_vacant_session_after_any_step() {
    let mut reg = SessionRegistry::new();
    let users: Vec<UserId> = (1..=4).map(UserId::new).collect();
    for (i, u) in users.iter().enumerate() {
        reg.join(sid(if i % 2 == 0 { "even" } else { "odd" }), *u, i < 2);
    }
    for u in &users {
        reg.leave(*u);
        for name in ["even", "odd"] {
            if let Some(s) = reg.lookup(&sid(name)) {
                assert!(s.host.is_some() || !s.users.is_empty());
            }
        }
    }
    assert!(reg.lookup(&sid("even")).is_none());
    assert!(reg.lookup(&sid("odd")).is_none());
}

#[test]
fn default_session_is_vacant() {
    let s = Session::default();
    assert_eq!(s.host, None);
    assert!(s.users.is_empty());
}
