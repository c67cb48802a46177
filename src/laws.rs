use vstd::prelude::*;

use crate::protocol::UserId;
use crate::registry::{
    after_join, join_allowed, in_any_session, is_party, is_vacant, joined, left, membership_unique, no_vacant_session, session_or_vacant,
    without, SessionView,
};
use crate::protocol::{SessionId, SignalMessage};
use crate::server::{hands_out, routed, Directive, Ping, ServerState};

verus! {

/// A session has at most one host.
pub proof fn host_is_unique(m: Map<Seq<char>, SessionView>, k: Seq<char>)
    requires
        m.contains_key(k),
    ensures
        Set::new(|h: UserId| m[k].host == Some(h)).finite(),
        Set::new(|h: UserId| m[k].host == Some(h)).len() <= 1,
{
    match m[k].host {
        Some(h) => {
            assert(Set::new(|x: UserId| m[k].host == Some(x)) =~= Set::<UserId>::empty().insert(h));
        },
        None => {
            assert(Set::new(|x: UserId| m[k].host == Some(x)) =~= Set::<UserId>::empty());
        },
    }
}

/// Joining never leaves a vacant session behind.
pub proof fn join_keeps_sessions_occupied(m: Map<Seq<char>, SessionView>, k: Seq<char>, u: UserId, is_host: bool)
    requires
        no_vacant_session(m),
    ensures
        no_vacant_session(after_join(m, k, u, is_host)),
{
    let j = joined(m, k, u, is_host);
    assert forall|q: Seq<char>| #[trigger] j.contains_key(q) implies !is_vacant(j[q]) by {
        if q == k && !is_host {
            assert(j[q].users.contains(u));
        }
    }
}

/// Leaving never leaves a vacant session behind.
pub proof fn leave_keeps_sessions_occupied(m: Map<Seq<char>, SessionView>, u: UserId)
    ensures
        no_vacant_session(left(m, u)),
{
}

/// Every user stays a party of at most one session, never both its host and
/// a member, whatever join is asked for: a join that would break this is
/// refused.
pub proof fn join_keeps_membership_unique(m: Map<Seq<char>, SessionView>, k: Seq<char>, u: UserId, is_host: bool)
    requires
        membership_unique(m),
    ensures
        membership_unique(after_join(m, k, u, is_host)),
{
    if join_allowed(m, k, u, is_host) {
        let j = joined(m, k, u, is_host);
        assert forall|k1: Seq<char>, k2: Seq<char>, w: UserId|
            j.contains_key(k1) && j.contains_key(k2) && #[trigger] is_party(j[k1], w) && #[trigger] is_party(j[k2], w)
                implies k1 == k2 by {
            if w == u {
                if k1 != k {
                    assert(m.contains_key(k1) && is_party(m[k1], u));
                }
                if k2 != k {
                    assert(m.contains_key(k2) && is_party(m[k2], u));
                }
            } else {
                assert(is_party(session_or_vacant(m, k1), w));
                assert(is_party(session_or_vacant(m, k2), w));
            }
        }
        assert forall|q: Seq<char>| #[trigger] j.contains_key(q) implies match j[q].host {
            Some(h) => !j[q].users.contains(h),
            None => true,
        } by {
            if q == k && m.contains_key(k) {
                assert(m.contains_key(q));
                if is_party(m[k], u) {
                    assert(m.contains_key(k) && is_party(m[k], u));
                }
            }
        }
    }
}

/// Leaving keeps every user a party of at most one session, and the user
/// who left is in none.
pub proof fn leave_keeps_membership_unique(m: Map<Seq<char>, SessionView>, u: UserId)
    requires
        membership_unique(m),
    ensures
        membership_unique(left(m, u)),
        !in_any_session(left(m, u), u),
{
    let l = left(m, u);
    assert forall|k1: Seq<char>, k2: Seq<char>, w: UserId|
        l.contains_key(k1) && l.contains_key(k2) && #[trigger] is_party(l[k1], w) && #[trigger] is_party(l[k2], w)
            implies k1 == k2 by {
        assert(is_party(m[k1], w));
        assert(is_party(m[k2], w));
    }
    assert forall|q: Seq<char>| #[trigger] l.contains_key(q) implies match l[q].host {
        Some(h) => !l[q].users.contains(h),
        None => true,
    } by {
        assert(m.contains_key(q));
    }
}

/// Joining a session as member twice gives the same sessions as joining once:
/// membership is a set.
pub proof fn member_join_is_idempotent(m: Map<Seq<char>, SessionView>, k: Seq<char>, u: UserId)
    ensures
        after_join(after_join(m, k, u, false), k, u, false) == after_join(m, k, u, false),
{
    if join_allowed(m, k, u, false) {
        let once = joined(m, k, u, false);
        assert forall|q: Seq<char>| #[trigger] once.contains_key(q) && is_party(once[q], u) implies q == k
            && once[q].host != Some(u) by {
            if q != k {
                assert(m.contains_key(q) && is_party(m[q], u));
            } else if m.contains_key(k) {
                assert(is_party(m[k], u) ==> m[k].host != Some(u));
            }
        }
        assert(join_allowed(once, k, u, false));
        assert(once[k].users.insert(u) =~= once[k].users);
        assert(joined(once, k, u, false) =~= once);
    }
}

/// A member that asks again to join its own session changes no session and
/// no liveness record; the host, if there is one, gets one more notice that
/// this member is there, and nobody else gets anything.
pub proof fn repeated_member_join_changes_nothing<S>(
    sessions: Map<Seq<char>, SessionView>,
    pings: Map<UserId, Ping>,
    connections: Map<UserId, S>,
    u: UserId,
    sid: SessionId,
    sessions2: Map<Seq<char>, SessionView>,
    pings2: Map<UserId, Ping>,
    out: Seq<Directive>,
)
    requires
        membership_unique(sessions),
        sessions.contains_key(sid@),
        sessions[sid@].users.contains(u),
        routed(sessions, pings, connections, u, SignalMessage::SessionJoin(sid, false), sessions2, pings2, out),
    ensures
        sessions2 == sessions,
        pings2 == pings,
        match sessions[sid@].host {
            Some(h) => out == seq![Directive::Send(h, SignalMessage::SessionReady(sid, u))],
            None => out == Seq::<Directive>::empty(),
        },
{
    let k = sid@;
    assert forall|q: Seq<char>| #[trigger] sessions.contains_key(q) && is_party(sessions[q], u) implies q == k
        && sessions[q].host != Some(u) by {
        assert(is_party(sessions[k], u));
    }
    assert(join_allowed(sessions, k, u, false));
    assert(sessions[k].users.insert(u) =~= sessions[k].users);
    assert(joined(sessions, k, u, false) =~= sessions);
}

/// A session's host is never replaced by a join.
pub proof fn host_is_never_replaced(m: Map<Seq<char>, SessionView>, k: Seq<char>, h: UserId, u: UserId, is_host: bool)
    requires
        m.contains_key(k),
        m[k].host == Some(h),
    ensures
        after_join(m, k, u, is_host).contains_key(k),
        after_join(m, k, u, is_host)[k].host == Some(h),
{
}

/// Of two host requests on a session without a host, the first one allowed
/// makes its sender the host, and the second leaves it so.
pub proof fn first_host_request_wins(m: Map<Seq<char>, SessionView>, k: Seq<char>, a: UserId, b: UserId)
    requires
        session_or_vacant(m, k).host is None,
        join_allowed(m, k, a, true),
    ensures
        after_join(after_join(m, k, a, true), k, b, true)[k].host == Some(a),
{
    let once = after_join(m, k, a, true);
    assert(once.contains_key(k) && once[k].host == Some(a));
    host_is_never_replaced(once, k, a, b, true);
}

/// A user id handed out later is larger than one handed out before: after
/// `first` is handed out, no operation lowers the counter, so `second`,
/// handed out from any later state, is larger.
pub proof fn later_user_ids_are_larger<S>(
    s1: ServerState<S>,
    first: UserId,
    s2: ServerState<S>,
    s3: ServerState<S>,
    second: UserId,
    s4: ServerState<S>,
)
    requires
        hands_out(s1, first, s2),
        s2.next_user() <= s3.next_user(),
        hands_out(s3, second, s4),
    ensures
        first.0 < second.0,
{
}

} // verus!
