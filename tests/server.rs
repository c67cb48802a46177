use ezrtc_server::protocol::{KeepAliveStatus, SessionId, SignalMessage, UserId};
use ezrtc_server::server::{Directive, ServerState, TickAction, HOST_CONFLICT_CLOSE_CODE, HOST_CONFLICT_GRACE_SECS};

fn sid(s: &str) -> SessionId {
    SessionId::new(String::from(s))
}

fn connect(state: &mut ServerState<u32>, sink: u32) -> UserId {
    let id = state.allocate_user_id().unwrap();
    state.register(id, sink);
    id
}

fn join(state: &mut ServerState<u32>, user: UserId, name: &str, is_host: bool) -> Vec<Directive> {
    state.route(user, SignalMessage::SessionJoin(sid(name), is_host))
}

fn ready_to(d: &Directive) -> Option<(UserId, String, UserId)> {
    match d {
        Directive::Send(to, SignalMessage::SessionReady(s, member)) => Some((*to, s.as_str().to_string(), *member)),
        _ => None,
    }
}

#[test]
fn user_ids_start_at_one_and_increase() {
    let mut state: ServerState<u32> = ServerState::new();
    let a = state.allocate_user_id().unwrap();
    let b = state.allocate_user_id().unwrap();
    let c = state.allocate_user_id().unwrap();
    assert_eq!(a, UserId::new(1));
    assert_eq!(b, UserId::new(2));
    assert_eq!(c, UserId::new(3));
    assert!(a.into_inner() < b.into_inner() && b.into_inner() < c.into_inner());
}

#[test]
fn host_first_join_then_relay() {
    let mut state: ServerState<u32> = ServerState::new();
    let a = connect(&mut state, 10);
    let b = connect(&mut state, 20);

    let out = join(&mut state, a, "S", true);
    assert!(out.is_empty());

    let out = join(&mut state, b, "S", false);
    assert_eq!(out.len(), 1);
    assert_eq!(ready_to(&out[0]), Some((a, String::from("S"), b)));

    let out = state.route(a, SignalMessage::SdpOffer(sid("S"), b, String::from("v=0...")));
    assert_eq!(out.len(), 1);
    match &out[0] {
        Directive::Send(to, SignalMessage::SdpOffer(s, from, sdp)) => {
            assert_eq!(*to, b);
            assert_eq!(s.as_str(), "S");
            assert_eq!(*from, a);
            assert_eq!(sdp, "v=0...");
        }
        other => panic!("unexpected {:?}", other),
    }

    let out = state.route(b, SignalMessage::SdpAnswer(sid("S"), a, String::from("v=0...")));
    assert_eq!(out.len(), 1);
    match &out[0] {
        Directive::Send(to, SignalMessage::SdpAnswer(s, from, sdp)) => {
            assert_eq!(*to, a);
            assert_eq!(s.as_str(), "S");
            assert_eq!(*from, b);
            assert_eq!(sdp, "v=0...");
        }
        other => panic!("unexpected {:?}", other),
    }
}

#[test]
fn client_first_join() {
    let mut state: ServerState<u32> = ServerState::new();
    let b = connect(&mut state, 20);
    let a = connect(&mut state, 10);

    let out = join(&mut state, b, "S", false);
    assert!(out.is_empty());

    let out = join(&mut state, a, "S", true);
    assert_eq!(out.len(), 1);
    assert_eq!(ready_to(&out[0]), Some((a, String::from("S"), b)));
}

#[test]
fn host_join_lists_every_waiting_member_once() {
    let mut state: ServerState<u32> = ServerState::new();
    let m1 = connect(&mut state, 1);
    let m2 = connect(&mut state, 2);
    let m3 = connect(&mut state, 3);
    let h = connect(&mut state, 4);
    join(&mut state, m1, "room", false);
    join(&mut state, m2, "room", false);
    join(&mut state, m3, "room", false);
    let out = join(&mut state, h, "room", true);
    let mut members: Vec<usize> = out
        .iter()
        .map(|d| {
            let (to, s, m) = ready_to(d).unwrap();
            assert_eq!(to, h);
            assert_eq!(s, "room");
            m.into_inner()
        })
        .collect();
    members.sort();
    assert_eq!(members, vec![m1.into_inner(), m2.into_inner(), m3.into_inner()]);
}

#[test]
fn duplicate_host_is_closed_later() {
    let mut state: ServerState<u32> = ServerState::new();
    let a = connect(&mut state, 10);
    let c = connect(&mut state, 30);

    assert!(join(&mut state, a, "S", true).is_empty());
    let out = join(&mut state, c, "S", true);
    assert_eq!(out.len(), 1);
    assert!(matches!(out[0], Directive::CloseLater(u) if u == c));
    assert_eq!(HOST_CONFLICT_CLOSE_CODE, 3001);
    assert_eq!(HOST_CONFLICT_GRACE_SECS, 60);

    let session = state.session(&sid("S")).unwrap();
    assert_eq!(session.host, Some(a));
    assert!(session.users.is_empty());
}

#[test]
fn conflicting_host_still_routes_during_grace() {
    let mut state: ServerState<u32> = ServerState::new();
    let a = connect(&mut state, 10);
    let c = connect(&mut state, 30);
    join(&mut state, a, "S", true);
    join(&mut state, c, "S", true);
    let out = state.route(c, SignalMessage::SdpOffer(sid("S"), a, String::from("x")));
    assert_eq!(out.len(), 1);
    assert!(matches!(&out[0], Directive::Send(to, SignalMessage::SdpOffer(_, from, _)) if *to == a && *from == c));
}

#[test]
fn ice_candidate_payload_is_kept() {
    let mut state: ServerState<u32> = ServerState::new();
    let a = connect(&mut state, 10);
    let b = connect(&mut state, 20);
    join(&mut state, a, "S", true);
    join(&mut state, b, "S", false);

    let payload = String::from("{\"candidate\":\"...\",\"sdpMid\":\"0\"}");
    let out = state.route(b, SignalMessage::IceCandidate(sid("S"), a, payload.clone()));
    assert_eq!(out.len(), 1);
    match &out[0] {
        Directive::Send(to, SignalMessage::IceCandidate(s, from, cand)) => {
            assert_eq!(*to, a);
            assert_eq!(s.as_str(), "S");
            assert_eq!(*from, b);
            assert_eq!(cand.as_bytes(), payload.as_bytes());
        }
        other => panic!("unexpected {:?}", other),
    }
}

#[test]
fn relay_to_unknown_user_is_dropped() {
    let mut state: ServerState<u32> = ServerState::new();
    let a = connect(&mut state, 10);
    let nobody = UserId::new(999);
    assert!(state.route(a, SignalMessage::SdpOffer(sid("S"), nobody, String::from("o"))).is_empty());
    assert!(state.route(a, SignalMessage::SdpAnswer(sid("S"), nobody, String::from("a"))).is_empty());
    assert!(state.route(a, SignalMessage::IceCandidate(sid("S"), nobody, String::from("{}"))).is_empty());
}

#[test]
fn repeated_member_join_gives_one_membership() {
    let mut state: ServerState<u32> = ServerState::new();
    let a = connect(&mut state, 10);
    let b = connect(&mut state, 20);
    join(&mut state, a, "S", true);
    let first = join(&mut state, b, "S", false);
    let second = join(&mut state, b, "S", false);
    assert_eq!(first.len(), 1);
    assert_eq!(second.len(), 1);
    let session = state.session(&sid("S")).unwrap();
    assert_eq!(session.users, vec![b]);
}

#[test]
fn member_of_ownerless_session_gets_no_notice() {
    let mut state: ServerState<u32> = ServerState::new();
    let b = connect(&mut state, 20);
    assert!(join(&mut state, b, "S", false).is_empty());
    let session = state.session(&sid("S")).unwrap();
    assert_eq!(session.host, None);
    assert_eq!(session.users, vec![b]);
}

#[test]
fn liveness_times_out_after_two_silent_ticks() {
    let mut state: ServerState<u32> = ServerState::new();
    let a = connect(&mut state, 10);
    state.route(a, SignalMessage::Ping(true, a, Some(sid("S"))));

    match state.liveness_tick(a) {
        TickAction::Probe(SignalMessage::Ping(true, u, None)) => assert_eq!(u, a),
        other => panic!("unexpected {:?}", other),
    }
    let p = state.ping(a).unwrap();
    assert!(!p.online);
    assert_eq!(p.session_id.as_ref().map(|s| s.as_str()), Some("S"));

    assert!(matches!(state.liveness_tick(a), TickAction::Disconnect));
}

#[test]
fn liveness_without_record_keeps_probing() {
    let mut state: ServerState<u32> = ServerState::new();
    let a = connect(&mut state, 10);
    for _ in 0..3 {
        assert!(matches!(state.liveness_tick(a), TickAction::Probe(SignalMessage::Ping(true, u, None)) if u == a));
    }
    assert!(state.ping(a).is_none());
}

#[test]
fn keep_alive_from_host_marks_online() {
    let mut state: ServerState<u32> = ServerState::new();
    let a = connect(&mut state, 10);
    let status = KeepAliveStatus {
        is_host: Some(true),
        session_id: Some(sid("S")),
        version: Some(String::from("1.0")),
        metadata: None,
    };
    assert!(state.route(a, SignalMessage::KeepAlive(a, status)).is_empty());
    assert!(state.status(&sid("S")));
    assert!(!state.status(&sid("T")));

    assert!(matches!(state.liveness_tick(a), TickAction::Probe(_)));
    assert!(!state.status(&sid("S")));

    let again = KeepAliveStatus { is_host: Some(true), session_id: Some(sid("S")), version: None, metadata: None };
    state.route(a, SignalMessage::KeepAlive(a, again));
    assert!(state.status(&sid("S")));
}

#[test]
fn keep_alive_from_member_is_ignored() {
    let mut state: ServerState<u32> = ServerState::new();
    let b = connect(&mut state, 20);
    let status = KeepAliveStatus { is_host: Some(false), session_id: Some(sid("S")), version: None, metadata: None };
    state.route(b, SignalMessage::KeepAlive(b, status));
    assert!(state.ping(b).is_none());
    assert!(!state.status(&sid("S")));
}

#[test]
fn non_host_ping_and_other_messages_change_nothing() {
    let mut state: ServerState<u32> = ServerState::new();
    let a = connect(&mut state, 10);
    assert!(state.route(a, SignalMessage::Ping(false, a, Some(sid("S")))).is_empty());
    assert!(state.ping(a).is_none());
    assert!(state.route(a, SignalMessage::SessionReady(sid("S"), a)).is_empty());
    assert!(state.route(a, SignalMessage::Error(sid("S"), a, String::from("bad"))).is_empty());
    assert!(state.session(&sid("S")).is_none());
}

#[test]
fn host_departure_then_member_departure_deletes_session() {
    let mut state: ServerState<u32> = ServerState::new();
    let a = connect(&mut state, 10);
    let b = connect(&mut state, 20);
    join(&mut state, a, "S", true);
    join(&mut state, b, "S", false);
    state.route(a, SignalMessage::Ping(true, a, Some(sid("S"))));
    assert!(state.status(&sid("S")));

    let emptied = state.disconnect(a);
    assert!(emptied.is_empty());
    assert!(!state.is_connected(a));
    assert!(state.ping(a).is_none());
    let session = state.session(&sid("S")).unwrap();
    assert_eq!(session.host, None);
    assert_eq!(session.users, vec![b]);

    let emptied = state.disconnect(b);
    assert_eq!(emptied.len(), 1);
    assert_eq!(emptied[0].as_str(), "S");
    assert!(state.session(&sid("S")).is_none());
    assert!(!state.status(&sid("S")));
}

#[test]
fn disconnect_of_unknown_user_changes_nothing() {
    let mut state: ServerState<u32> = ServerState::new();
    let a = connect(&mut state, 10);
    join(&mut state, a, "S", true);
    assert!(state.disconnect(UserId::new(77)).is_empty());
    assert!(state.is_connected(a));
    assert_eq!(state.session(&sid("S")).unwrap().host, Some(a));
}

#[test]
fn sink_lookup_follows_registration() {
    let mut state: ServerState<u32> = ServerState::new();
    let a = connect(&mut state, 10);
    assert_eq!(state.sink(a), Some(&10));
    state.register(a, 11);
    assert_eq!(state.sink(a), Some(&11));
    state.disconnect(a);
    assert_eq!(state.sink(a), None);
}

#[test]
fn sessions_are_independent() {
    let mut state: ServerState<u32> = ServerState::new();
    let a = connect(&mut state, 1);
    let b = connect(&mut state, 2);
    let c = connect(&mut state, 3);
    join(&mut state, a, "one", true);
    join(&mut state, b, "two", true);
    let out = join(&mut state, c, "two", false);
    assert_eq!(out.len(), 1);
    assert_eq!(ready_to(&out[0]), Some((b, String::from("two"), c)));
    let emptied = state.disconnect(a);
    assert_eq!(emptied.len(), 1);
    assert_eq!(emptied[0].as_str(), "one");
    assert!(state.session(&sid("two")).is_some());
}

#[test]
fn default_state_is_empty() {
    let mut state: ServerState<u32> = ServerState::default();
    assert!(state.session(&sid("S")).is_none());
    assert!(!state.status(&sid("S")));
    assert_eq!(state.allocate_user_id(), Some(UserId::new(1)));
}

#[test]
fn fresh_users_are_each_in_one_session() {
    let mut state: ServerState<u32> = ServerState::new();
    let users: Vec<UserId> = (0..6).map(|i| connect(&mut state, i)).collect();
    let names = ["a", "b", "c"];
    for (i, u) in users.iter().enumerate() {
        join(&mut state, *u, names[i % 3], i < 3);
    }
    for u in &users {
        let mut seen = 0;
        for name in names {
            let s = state.session(&sid(name)).unwrap();
            let as_host = s.host == Some(*u);
            let as_member = s.users.contains(u);
            assert!(!(as_host && as_member));
            if as_host || as_member {
                seen += 1;
            }
        }
        assert_eq!(seen, 1);
    }
    for name in names {
        let s = state.session(&sid(name)).unwrap();
        assert!(s.host.is_some());
        assert_eq!(s.users.len(), 1);
    }
}

#[test]
fn member_joining_another_session_is_refused() {
    let mut state: ServerState<u32> = ServerState::new();
    let a = connect(&mut state, 10);
    let b = connect(&mut state, 20);
    let u = connect(&mut state, 30);
    join(&mut state, a, "S1", true);
    join(&mut state, b, "S2", true);
    assert_eq!(join(&mut state, u, "S1", false).len(), 1);
    assert!(join(&mut state, u, "S2", false).is_empty());
    assert!(join(&mut state, u, "S2", true).is_empty());
    assert!(state.session(&sid("S2")).unwrap().users.is_empty());
    assert_eq!(state.session(&sid("S1")).unwrap().users, vec![u]);
    let emptied = state.disconnect(u);
    assert!(emptied.is_empty());
    assert!(state.session(&sid("S1")).unwrap().users.is_empty());
}

#[test]
fn member_asking_to_host_own_session_is_refused() {
    let mut state: ServerState<u32> = ServerState::new();
    let m = connect(&mut state, 10);
    join(&mut state, m, "S", false);
    assert!(join(&mut state, m, "S", true).is_empty());
    let s = state.session(&sid("S")).unwrap();
    assert_eq!(s.host, None);
    assert_eq!(s.users, vec![m]);
}

#[test]
fn host_asking_to_be_member_of_own_session_is_refused() {
    let mut state: ServerState<u32> = ServerState::new();
    let h = connect(&mut state, 10);
    join(&mut state, h, "S", true);
    assert!(join(&mut state, h, "S", false).is_empty());
    let s = state.session(&sid("S")).unwrap();
    assert_eq!(s.host, Some(h));
    assert!(s.users.is_empty());
}
