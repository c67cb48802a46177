use vstd::prelude::*;

use crate::protocol::{SessionId, SignalMessage, UserId};
use crate::registry::{
    after_join, emptied_by, is_party, join_allowed, joined, join_reports, membership_unique, left, names, no_vacant_session, session_or_vacant, JoinOutcome,
    Session, SessionRegistry, SessionView,
};
use crate::table::UserTable;

verus! {

/// Seconds between two liveness checks of a connection.
pub const LIVENESS_TICK_SECS: u64 = 60;

/// Seconds a second would-be host of a session keeps its connection before it is closed.
pub const HOST_CONFLICT_GRACE_SECS: u64 = 60;

/// Close code sent to a second would-be host of a session.
pub const HOST_CONFLICT_CLOSE_CODE: u16 = 3001;

/// Close code of an orderly shutdown of a connection.
pub const NORMAL_CLOSE_CODE: u16 = 1000;

/// What the server last learned of a peer's liveness.
#[derive(Debug)]
pub struct Ping {
    /// The peer answered since the last liveness check.
    pub online: bool,
    /// The session the peer said it hosts.
    pub session_id: Option<SessionId>,
}

/// Something the caller of the router has to carry out.
#[derive(Debug)]
pub enum Directive {
    /// Send the message on the user's connection.
    Send(UserId, SignalMessage),
    /// Close the user's connection after the host-conflict grace period.
    CloseLater(UserId),
}

/// What a liveness check asks of the connection.
#[derive(Debug)]
pub enum TickAction {
    /// Send this probe and keep going.
    Probe(SignalMessage),
    /// The peer missed a whole period: end the connection.
    Disconnect,
}

/// Whether `out` tells `host`, for each of `members` once, that this member is in session `sid`.
pub open spec fn ready_notices(out: Seq<Directive>, host: UserId, sid: SessionId, members: Set<UserId>) -> bool {
    &&& members.finite()
    &&& out.len() == members.len()
    &&& exists|ms: Seq<UserId>|
        #![trigger ms.to_set()]
        ms.no_duplicates() && ms.to_set() == members && out == ms.map_values(
            |m: UserId| Directive::Send(host, SignalMessage::SessionReady(sid, m)),
        )
}

/// A relayed message goes to its target when that target is connected, and nowhere otherwise.
pub open spec fn relayed<S>(connections: Map<UserId, S>, target: UserId, m: SignalMessage) -> Seq<Directive> {
    if connections.contains_key(target) {
        seq![Directive::Send(target, m)]
    } else {
        Seq::empty()
    }
}

/// Whether the ping record says that the peer hosts session `sid`.
pub open spec fn ping_names(p: Ping, sid: Seq<char>) -> bool {
    match p.session_id {
        Some(s) => s@ == sid,
        None => false,
    }
}

/// Whether some peer that hosts session `sid` is marked online.
pub open spec fn session_online(pings: Map<UserId, Ping>, sid: Seq<char>) -> bool {
    exists|u: UserId| #[trigger] pings.contains_key(u) && pings[u].online && ping_names(pings[u], sid)
}

/// The probe a liveness check sends to `user`.
pub open spec fn probe_for(user: UserId) -> SignalMessage {
    SignalMessage::Ping(true, user, None)
}

/// What the router does with message `msg` from `sender`: the sessions and
/// liveness records before (`sessions`, `pings`) and after (`sessions2`,
/// `pings2`), and the directives `out` it hands back.
pub open spec fn routed<S>(
    sessions: Map<Seq<char>, SessionView>,
    pings: Map<UserId, Ping>,
    connections: Map<UserId, S>,
    sender: UserId,
    msg: SignalMessage,
    sessions2: Map<Seq<char>, SessionView>,
    pings2: Map<UserId, Ping>,
    out: Seq<Directive>,
) -> bool {
    match msg {
        SignalMessage::SessionJoin(sid, is_host) => {
            let s = session_or_vacant(sessions, sid@);
            &&& sessions2 == after_join(sessions, sid@, sender, is_host)
            &&& pings2 == pings
            &&& if !join_allowed(sessions, sid@, sender, is_host) {
                out == Seq::<Directive>::empty()
            } else if is_host {
                if s.host is None {
                    ready_notices(out, sender, sid, s.users)
                } else {
                    out == seq![Directive::CloseLater(sender)]
                }
            } else {
                match s.host {
                    Some(h) => out == seq![Directive::Send(h, SignalMessage::SessionReady(sid, sender))],
                    None => out == Seq::<Directive>::empty(),
                }
            }
        },
        SignalMessage::SdpOffer(sid, target, sdp) => {
            &&& sessions2 == sessions
            &&& pings2 == pings
            &&& out == relayed(connections, target, SignalMessage::SdpOffer(sid, sender, sdp))
        },
        SignalMessage::SdpAnswer(sid, target, sdp) => {
            &&& sessions2 == sessions
            &&& pings2 == pings
            &&& out == relayed(connections, target, SignalMessage::SdpAnswer(sid, sender, sdp))
        },
        SignalMessage::IceCandidate(sid, target, candidate) => {
            &&& sessions2 == sessions
            &&& pings2 == pings
            &&& out == relayed(connections, target, SignalMessage::IceCandidate(sid, sender, candidate))
        },
        SignalMessage::KeepAlive(u, status) => {
            &&& sessions2 == sessions
            &&& out == Seq::<Directive>::empty()
            &&& pings2 == if status.is_host == Some(true) {
                pings.insert(u, Ping { online: true, session_id: status.session_id })
            } else {
                pings
            }
        },
        SignalMessage::Ping(is_host, u, sid) => {
            &&& sessions2 == sessions
            &&& out == Seq::<Directive>::empty()
            &&& pings2 == if is_host {
                pings.insert(u, Ping { online: true, session_id: sid })
            } else {
                pings
            }
        },
        _ => {
            &&& sessions2 == sessions
            &&& pings2 == pings
            &&& out == Seq::<Directive>::empty()
        },
    }
}

/// The parties of a session after a join were parties before, or are the joining user.
pub proof fn lemma_joined_parties(m: Map<Seq<char>, SessionView>, k: Seq<char>, u: UserId, is_host: bool, q: Seq<char>, w: UserId)
    requires
        joined(m, k, u, is_host).contains_key(q),
        is_party(joined(m, k, u, is_host)[q], w),
    ensures
        w == u || (m.contains_key(q) && is_party(m[q], w)),
{
}

/// The parties of a session after `u` left were parties before, and are not `u`.
pub proof fn lemma_left_parties(m: Map<Seq<char>, SessionView>, u: UserId, q: Seq<char>, w: UserId)
    requires
        left(m, u).contains_key(q),
        is_party(left(m, u)[q], w),
    ensures
        w != u,
        m.contains_key(q),
        is_party(m[q], w),
{
}

fn ready_directives(host: UserId, sid: &SessionId, members: &Vec<UserId>) -> (out: Vec<Directive>)
    ensures
        out@ == members@.map_values(|m: UserId| Directive::Send(host, SignalMessage::SessionReady(*sid, m))),
{
    let mut out: Vec<Directive> = Vec::new();
    let mut i: usize = 0;
    while i < members.len()
        invariant
            i <= members@.len(),
            out@ == members@.subrange(0, i as int).map_values(
                |m: UserId| Directive::Send(host, SignalMessage::SessionReady(*sid, m)),
            ),
        decreases members@.len() - i,
    {
        out.push(Directive::Send(host, SignalMessage::SessionReady(sid.clone(), members[i])));
        i = i + 1;
        assert(out@ =~= members@.subrange(0, i as int).map_values(
            |m: UserId| Directive::Send(host, SignalMessage::SessionReady(*sid, m)),
        ));
    }
    assert(members@.subrange(0, members@.len() as int) =~= members@);
    out
}

/// `before` hands out `id`, its next user id, and moves on by one to `after`.
pub open spec fn hands_out<S>(before: ServerState<S>, id: UserId, after: ServerState<S>) -> bool {
    &&& before.next_user() < usize::MAX
    &&& id == UserId(before.next_user() as usize)
    &&& after.next_user() == before.next_user() + 1
}

/// The shared state of the signaling server: live connections with their
/// outbound sinks, the sessions, the liveness records, and the next user id.
pub struct ServerState<S> {
    connections: UserTable<S>,
    sessions: SessionRegistry,
    pings: UserTable<Ping>,
    next_user: usize,
}

impl<S> Default for ServerState<S> {
    fn default() -> (r: ServerState<S>)
        ensures
            r.wf(),
            r.connections() == Map::<UserId, S>::empty(),
            r.sessions() == Map::<Seq<char>, SessionView>::empty(),
            r.pings() == Map::<UserId, Ping>::empty(),
            r.next_user() == 1,
    {
        ServerState::new()
    }
}

fn copy_session_id(o: &Option<SessionId>) -> (r: Option<SessionId>)
    ensures
        r == *o,
{
    match o {
        Some(s) => Some(s.clone()),
        None => None,
    }
}

impl<S> ServerState<S> {
    /// The outbound sink of each live connection.
    pub closed spec fn connections(&self) -> Map<UserId, S> {
        self.connections@
    }

    /// The sessions by name.
    pub closed spec fn sessions(&self) -> Map<Seq<char>, SessionView> {
        self.sessions@
    }

    /// The liveness records by user.
    pub closed spec fn pings(&self) -> Map<UserId, Ping> {
        self.pings@
    }

    /// The id the next accepted connection gets.
    pub closed spec fn next_user(&self) -> nat {
        self.next_user as nat
    }

    /// The state's consistency: each part is well formed, no session is
    /// vacant, every user is a party of at most one session and never both
    /// its host and a member, and every host or member of a session is
    /// connected.
    pub closed spec fn wf(&self) -> bool {
        &&& self.connections.wf()
        &&& self.sessions.wf()
        &&& self.pings.wf()
        &&& self.next_user >= 1
        &&& membership_unique(self.sessions@)
        &&& forall|k: Seq<char>, u: UserId|
            #[trigger] self.sessions@.contains_key(k) && #[trigger] is_party(self.sessions@[k], u)
                ==> self.connections@.contains_key(u)
    }

    /// What a well-formed state guarantees of its parts.
    pub proof fn lemma_wf(&self)
        requires
            self.wf(),
        ensures
            no_vacant_session(self.sessions()),
            membership_unique(self.sessions()),
            self.next_user() >= 1,
            forall|k: Seq<char>, u: UserId|
                #[trigger] self.sessions().contains_key(k) && #[trigger] is_party(self.sessions()[k], u)
                    ==> self.connections().contains_key(u),
    {
        self.sessions.lemma_invariants();
    }

    /// A state with nothing in it; the first user id is 1.
    pub fn new() -> (r: ServerState<S>)
        ensures
            r.wf(),
            r.connections() == Map::<UserId, S>::empty(),
            r.sessions() == Map::<Seq<char>, SessionView>::empty(),
            r.pings() == Map::<UserId, Ping>::empty(),
            r.next_user() == 1,
    {
        ServerState { connections: UserTable::new(), sessions: SessionRegistry::new(), pings: UserTable::new(), next_user: 1 }
    }

    /// Hands out a fresh user id, larger than every one handed out before;
    /// `None` once the ids are used up.
    pub fn allocate_user_id(&mut self) -> (r: Option<UserId>)
        requires
            old(self).wf(),
        ensures
            final(self).wf(),
            final(self).connections() == old(self).connections(),
            final(self).sessions() == old(self).sessions(),
            final(self).pings() == old(self).pings(),
            old(self).next_user() < usize::MAX ==> (r matches Some(id) && hands_out(*old(self), id, *final(self))),
            old(self).next_user() >= usize::MAX ==> r is None && final(self).next_user() == old(self).next_user(),
    {
        if self.next_user < usize::MAX {
            let id = UserId(self.next_user);
            self.next_user = self.next_user + 1;
            Some(id)
        } else {
            None
        }
    }

    /// Records the outbound sink of `user`'s connection.
    pub fn register(&mut self, user: UserId, sink: S)
        requires
            old(self).wf(),
        ensures
            final(self).wf(),
            final(self).connections() == old(self).connections().insert(user, sink),
            final(self).sessions() == old(self).sessions(),
            final(self).pings() == old(self).pings(),
            final(self).next_user() == old(self).next_user(),
    {
        self.connections.insert(user, sink);
    }

    /// Whether `user` has a live connection.
    pub fn is_connected(&self, user: UserId) -> (r: bool)
        requires
            self.wf(),
        ensures
            r == self.connections().contains_key(user),
    {
        self.connections.contains_key(user)
    }

    /// The outbound sink of `user`, if connected.
    pub fn sink(&self, user: UserId) -> (r: Option<&S>)
        requires
            self.wf(),
        ensures
            match r {
                Some(s) => self.connections().contains_key(user) && *s == self.connections()[user],
                None => !self.connections().contains_key(user),
            },
    {
        self.connections.get(user)
    }

    /// The session named `session_id`, if it exists.
    pub fn session(&self, session_id: &SessionId) -> (r: Option<&Session>)
        requires
            self.wf(),
        ensures
            match r {
                Some(s) => self.sessions().contains_key(session_id@) && s@ == self.sessions()[session_id@],
                None => !self.sessions().contains_key(session_id@),
            },
    {
        self.sessions.lookup(session_id)
    }

    /// The liveness record of `user`, if any.
    pub fn ping(&self, user: UserId) -> (r: Option<&Ping>)
        requires
            self.wf(),
        ensures
            match r {
                Some(p) => self.pings().contains_key(user) && *p == self.pings()[user],
                None => !self.pings().contains_key(user),
            },
    {
        self.pings.get(user)
    }

    /// Whether session `session_id` is online: some liveness record that
    /// names it is marked online. Without such a record it is not.
    pub fn status(&self, session_id: &SessionId) -> (r: bool)
        requires
            self.wf(),
        ensures
            r == session_online(self.pings(), session_id@),
    {
        proof {
            self.pings.lemma_keys();
        }
        let n = self.pings.len();
        let mut i: usize = 0;
        while i < n
            invariant
                self.wf(),
                n == self.pings.key_seq().len(),
                i <= n,
                forall|t: int|
                    0 <= t < i ==> !(#[trigger] self.pings@[self.pings.key_seq()[t]].online && ping_names(
                        self.pings@[self.pings.key_seq()[t]],
                        session_id@,
                    )),
            decreases n - i,
        {
            let p = self.pings.value_at(i);
            let named = match &p.session_id {
                Some(s) => s.0 == session_id.0,
                None => false,
            };
            if p.online && named {
                let u = self.pings.key_at(i);
                assert(self.pings@.contains_key(u));
                return true;
            }
            i = i + 1;
        }
        assert forall|u: UserId| #[trigger] self.pings@.contains_key(u) implies !(self.pings@[u].online && ping_names(
            self.pings@[u],
            session_id@,
        )) by {
            self.pings.lemma_keys();
            let t = choose|t: int| 0 <= t < self.pings.key_seq().len() && self.pings.key_seq()[t] == u;
            assert(self.pings@[self.pings.key_seq()[t]].online ==> !ping_names(self.pings@[self.pings.key_seq()[t]], session_id@));
        }
        false
    }

    /// Handles signal message `msg` from connected `sender`: updates the
    /// sessions and liveness records, and hands back what is to be sent or
    /// closed. A join from a user already in another session, or holding
    /// the other role in this one, is refused: nothing changes, nothing is
    /// sent. Relayed offers, answers and candidates keep their payload and
    /// name `sender` in place of their target.
    pub fn route(&mut self, sender: UserId, msg: SignalMessage) -> (out: Vec<Directive>)
        requires
            old(self).wf(),
            old(self).connections().contains_key(sender),
        ensures
            final(self).wf(),
            final(self).connections() == old(self).connections(),
            final(self).next_user() == old(self).next_user(),
            routed(
                old(self).sessions(),
                old(self).pings(),
                old(self).connections(),
                sender,
                msg,
                final(self).sessions(),
                final(self).pings(),
                out@,
            ),
    {
        let mut out: Vec<Directive> = Vec::new();
        match msg {
            SignalMessage::SessionJoin(sid, is_host) => {
                let ghost m = self.sessions@;
                let outcome = self.sessions.join(sid.clone(), sender, is_host);
                proof {
                    self.sessions.lemma_invariants();
                }
                assert forall|k: Seq<char>, u: UserId|
                    #[trigger] self.sessions@.contains_key(k) && #[trigger] is_party(self.sessions@[k], u)
                        implies self.connections@.contains_key(u) by {
                    if join_allowed(m, sid@, sender, is_host) {
                        lemma_joined_parties(m, sid@, sender, is_host, k, u);
                    }
                }
                match outcome {
                    JoinOutcome::BecameHost(members) => {
                        out = ready_directives(sender, &sid, &members);
                        proof {
                            members@.unique_seq_to_set();
                        }
                    },
                    JoinOutcome::JoinedAsMember(host) => {
                        if let Some(h) = host {
                            out.push(Directive::Send(h, SignalMessage::SessionReady(sid, sender)));
                            assert(out@ =~= seq![Directive::Send(h, SignalMessage::SessionReady(sid, sender))]);
                        }
                    },
                    JoinOutcome::HostConflict => {
                        out.push(Directive::CloseLater(sender));
                        assert(out@ =~= seq![Directive::CloseLater(sender)]);
                    },
                    JoinOutcome::Refused => {},
                }
            },
            SignalMessage::SdpOffer(sid, target, sdp) => {
                if self.connections.contains_key(target) {
                    out.push(Directive::Send(target, SignalMessage::SdpOffer(sid, sender, sdp)));
                    assert(out@ =~= seq![Directive::Send(target, SignalMessage::SdpOffer(sid, sender, sdp))]);
                }
            },
            SignalMessage::SdpAnswer(sid, target, sdp) => {
                if self.connections.contains_key(target) {
                    out.push(Directive::Send(target, SignalMessage::SdpAnswer(sid, sender, sdp)));
                    assert(out@ =~= seq![Directive::Send(target, SignalMessage::SdpAnswer(sid, sender, sdp))]);
                }
            },
            SignalMessage::IceCandidate(sid, target, candidate) => {
                if self.connections.contains_key(target) {
                    out.push(Directive::Send(target, SignalMessage::IceCandidate(sid, sender, candidate)));
                    assert(out@ =~= seq![Directive::Send(target, SignalMessage::IceCandidate(sid, sender, candidate))]);
                }
            },
            SignalMessage::KeepAlive(u, status) => {
                if status.is_host == Some(true) {
                    self.pings.insert(u, Ping { online: true, session_id: status.session_id });
                }
            },
            SignalMessage::Ping(is_host, u, sid) => {
                if is_host {
                    self.pings.insert(u, Ping { online: true, session_id: sid });
                }
            },
            _ => {},
        }
        out
    }

    /// One liveness check of `user`'s connection. A record marked online is
    /// marked offline, keeping its session, and a probe goes out; a record
    /// already offline means the peer did not answer, and the connection
    /// ends. Without a record the probe goes out and nothing is held against
    /// the peer.
    pub fn liveness_tick(&mut self, user: UserId) -> (a: TickAction)
        requires
            old(self).wf(),
        ensures
            final(self).wf(),
            final(self).connections() == old(self).connections(),
            final(self).sessions() == old(self).sessions(),
            final(self).next_user() == old(self).next_user(),
            if old(self).pings().contains_key(user) {
                if old(self).pings()[user].online {
                    &&& final(self).pings() == old(self).pings().insert(
                        user,
                        Ping { online: false, session_id: old(self).pings()[user].session_id },
                    )
                    &&& a == TickAction::Probe(probe_for(user))
                } else {
                    final(self).pings() == old(self).pings() && a is Disconnect
                }
            } else {
                final(self).pings() == old(self).pings() && a == TickAction::Probe(probe_for(user))
            },
    {
        let seen: Option<(bool, Option<SessionId>)> = match self.pings.get(user) {
            Some(p) => Some((p.online, copy_session_id(&p.session_id))),
            None => None,
        };
        match seen {
            Some((online, sid)) => {
                if online {
                    self.pings.insert(user, Ping { online: false, session_id: sid });
                    TickAction::Probe(SignalMessage::Ping(true, user, None))
                } else {
                    TickAction::Disconnect
                }
            },
            None => TickAction::Probe(SignalMessage::Ping(true, user, None)),
        }
    }

    /// Cleans up after `user`'s connection ends: its liveness record goes,
    /// then its connection, then it leaves every session. Sessions left
    /// without anybody are deleted; their names come back, each once.
    pub fn disconnect(&mut self, user: UserId) -> (emptied: Vec<SessionId>)
        requires
            old(self).wf(),
        ensures
            final(self).wf(),
            final(self).pings() == old(self).pings().remove(user),
            final(self).connections() == old(self).connections().remove(user),
            final(self).sessions() == left(old(self).sessions(), user),
            final(self).next_user() == old(self).next_user(),
            names(emptied@).no_duplicates(),
            names(emptied@).to_set() == emptied_by(old(self).sessions(), user),
    {
        let ghost m = self.sessions@;
        self.pings.remove(user);
        self.connections.remove(user);
        let emptied = self.sessions.leave(user);
        proof {
            self.sessions.lemma_invariants();
        }
        assert forall|k: Seq<char>, u: UserId|
            #[trigger] self.sessions@.contains_key(k) && #[trigger] is_party(self.sessions@[k], u)
                implies self.connections@.contains_key(u) by {
            lemma_left_parties(m, user, k, u);
            assert(old(self).connections@.contains_key(u));
        }
        emptied
    }

}

} // verus!
