use vstd::prelude::*;

use crate::protocol::{SessionId, UserId};

verus! {

/// A session as its members see it: at most one host, and a set of members.
pub struct SessionView {
    pub host: Option<UserId>,
    pub users: Set<UserId>,
}

/// A session: an optional host and the ids of its other members.
#[derive(Debug)]
pub struct Session {
    pub host: Option<UserId>,
    /// The non-host members, each once.
    pub users: Vec<UserId>,
}

impl View for Session {
    type V = SessionView;

    open spec fn view(&self) -> SessionView {
        SessionView { host: self.host, users: self.users@.to_set() }
    }
}

impl Session {
    /// No member is listed twice.
    pub open spec fn wf(&self) -> bool {
        self.users@.no_duplicates()
    }
}

impl Default for Session {
    fn default() -> (r: Session)
        ensures
            r.wf(),
            r.host is None,
            r.users@ == Seq::<UserId>::empty(),
    {
        Session { host: None, users: Vec::new() }
    }
}

/// A session with neither host nor members.
pub open spec fn vacant() -> SessionView {
    SessionView { host: None, users: Set::empty() }
}

/// Whether a session has nobody left in it.
pub open spec fn is_vacant(s: SessionView) -> bool {
    s.host is None && s.users == Set::<UserId>::empty()
}

/// Whether `u` is the host or a member of `s`.
pub open spec fn is_party(s: SessionView, u: UserId) -> bool {
    s.host == Some(u) || s.users.contains(u)
}

/// The session named `k`, or a vacant one if there is none.
pub open spec fn session_or_vacant(m: Map<Seq<char>, SessionView>, k: Seq<char>) -> SessionView {
    if m.contains_key(k) {
        m[k]
    } else {
        vacant()
    }
}

/// The sessions after `u` asks to join session `k`, as host or as member.
/// A request to host a session that already has a host changes nothing.
pub open spec fn joined(
    m: Map<Seq<char>, SessionView>,
    k: Seq<char>,
    u: UserId,
    is_host: bool,
) -> Map<Seq<char>, SessionView> {
    let s = session_or_vacant(m, k);
    if is_host {
        if s.host is None {
            m.insert(k, SessionView { host: Some(u), users: s.users })
        } else {
            m
        }
    } else {
        m.insert(k, SessionView { host: s.host, users: s.users.insert(u) })
    }
}

/// Whether `u` may join session `k` in the role asked for: it is a party of no
/// other session, and does not hold the other role in `k`.
pub open spec fn join_allowed(m: Map<Seq<char>, SessionView>, k: Seq<char>, u: UserId, is_host: bool) -> bool {
    forall|q: Seq<char>|
        #[trigger] m.contains_key(q) && is_party(m[q], u) ==> q == k && if is_host {
            !m[q].users.contains(u)
        } else {
            m[q].host != Some(u)
        }
}

/// The sessions after `u` asks to join session `k`: a join that is not
/// allowed changes nothing.
pub open spec fn after_join(
    m: Map<Seq<char>, SessionView>,
    k: Seq<char>,
    u: UserId,
    is_host: bool,
) -> Map<Seq<char>, SessionView> {
    if join_allowed(m, k, u, is_host) {
        joined(m, k, u, is_host)
    } else {
        m
    }
}

/// Session `s` once `u` has gone from it.
pub open spec fn without(s: SessionView, u: UserId) -> SessionView {
    SessionView {
        host: if s.host == Some(u) {
            None
        } else {
            s.host
        },
        users: s.users.remove(u),
    }
}

/// The sessions after `u` has left all of them: `u` is taken out of each,
/// and the sessions that this leaves vacant are gone.
pub open spec fn left(m: Map<Seq<char>, SessionView>, u: UserId) -> Map<Seq<char>, SessionView> {
    Map::new(|k: Seq<char>| m.contains_key(k) && !is_vacant(without(m[k], u)), |k: Seq<char>| without(m[k], u))
}

/// The ids of the sessions that `u` leaving would empty.
pub open spec fn emptied_by(m: Map<Seq<char>, SessionView>, u: UserId) -> Set<Seq<char>> {
    Set::new(|k: Seq<char>| m.contains_key(k) && is_vacant(without(m[k], u)))
}

/// No session is vacant.
pub open spec fn no_vacant_session(m: Map<Seq<char>, SessionView>) -> bool {
    forall|k: Seq<char>| #[trigger] m.contains_key(k) ==> !is_vacant(m[k])
}

/// Every user is a party of at most one session, and never both its host and a member.
pub open spec fn membership_unique(m: Map<Seq<char>, SessionView>) -> bool {
    &&& forall|k1: Seq<char>, k2: Seq<char>, u: UserId|
        m.contains_key(k1) && m.contains_key(k2) && #[trigger] is_party(m[k1], u) && #[trigger] is_party(m[k2], u)
            ==> k1 == k2
    &&& forall|k: Seq<char>| #[trigger] m.contains_key(k) ==> match m[k].host {
        Some(h) => !m[k].users.contains(h),
        None => true,
    }
}

/// Whether `u` is a party of any session.
pub open spec fn in_any_session(m: Map<Seq<char>, SessionView>, u: UserId) -> bool {
    exists|k: Seq<char>| #[trigger] m.contains_key(k) && is_party(m[k], u)
}

/// What a join means for the caller.
#[derive(Debug)]
pub enum JoinOutcome {
    /// The caller is now the host; these members were already waiting.
    BecameHost(Vec<UserId>),
    /// The caller is a member; the session's host, if it has one.
    JoinedAsMember(Option<UserId>),
    /// The caller asked to host a session that already has a host.
    HostConflict,
    /// The caller is already in another session, or holds the other role in
    /// this one; nothing changed.
    Refused,
}

/// The sessions by name.
pub struct SessionRegistry {
    ids: Vec<SessionId>,
    sessions: Vec<Session>,
    model: Ghost<Map<Seq<char>, SessionView>>,
}

impl View for SessionRegistry {
    type V = Map<Seq<char>, SessionView>;

    closed spec fn view(&self) -> Map<Seq<char>, SessionView> {
        self.model@
    }
}

fn copy_ids(v: &Vec<UserId>) -> (r: Vec<UserId>)
    ensures
        r@ == v@,
{
    let mut r: Vec<UserId> = Vec::new();
    let mut i: usize = 0;
    while i < v.len()
        invariant
            i <= v@.len(),
            r@ == v@.subrange(0, i as int),
        decreases v@.len() - i,
    {
        r.push(v[i]);
        i = i + 1;
        assert(r@ =~= v@.subrange(0, i as int));
    }
    assert(v@.subrange(0, v@.len() as int) =~= v@);
    r
}

fn strip(s: &Session, u: UserId) -> (r: Session)
    requires
        s.wf(),
    ensures
        r.wf(),
        r@ == without(s@, u),
{
    let mut users: Vec<UserId> = Vec::new();
    let mut i: usize = 0;
    while i < s.users.len()
        invariant
            s.wf(),
            i <= s.users@.len(),
            users@.no_duplicates(),
            forall|w: UserId|
                #[trigger] users@.contains(w) <==> (w != u && exists|t: int| 0 <= t < i && s.users@[t] == w),
        decreases s.users@.len() - i,
    {
        let w = s.users[i];
        let ghost before = users@;
        if w != u {
            users.push(w);
            assert forall|x: UserId|
                #[trigger] users@.contains(x) <==> (x != u && exists|t: int| 0 <= t < i + 1 && s.users@[t] == x) by {
                if users@.contains(x) && x != w {
                    let t = choose|t: int| 0 <= t < users@.len() && users@[t] == x;
                    assert(before[t] == x);
                    assert(before.contains(x));
                }
                if x == w {
                    assert(s.users@[i as int] == x);
                }
                if x != u && exists|t: int| 0 <= t < i + 1 && s.users@[t] == x {
                    let t = choose|t: int| 0 <= t < i + 1 && s.users@[t] == x;
                    if t < i {
                        assert(before.contains(x));
                        let q = choose|q: int| 0 <= q < before.len() && before[q] == x;
                        assert(users@[q] == x);
                    } else {
                        assert(users@[users@.len() - 1] == x);
                    }
                }
            }
            assert(users@.no_duplicates()) by {
                assert(!before.contains(w)) by {
                    if before.contains(w) {
                        let t = choose|t: int| 0 <= t < i && s.users@[t] == w;
                        assert(s.users@[t] == s.users@[i as int]);
                    }
                }
            }
        } else {
            assert forall|x: UserId|
                #[trigger] users@.contains(x) <==> (x != u && exists|t: int| 0 <= t < i + 1 && s.users@[t] == x) by {
                if x != u && exists|t: int| 0 <= t < i + 1 && s.users@[t] == x {
                    let t = choose|t: int| 0 <= t < i + 1 && s.users@[t] == x;
                    assert(t < i);
                }
            }
        }
        i = i + 1;
    }
    let host = if s.host == Some(u) {
        None
    } else {
        s.host
    };
    let r = Session { host, users };
    assert(r@.users =~= s@.users.remove(u)) by {
        assert forall|x: UserId| #[trigger] s.users@.contains(x) implies exists|t: int| 0 <= t < s.users@.len() && s.users@[t] == x by {
        }
    }
    r
}

/// The names of a sequence of session ids.
pub open spec fn names(v: Seq<SessionId>) -> Seq<Seq<char>> {
    v.map_values(|s: SessionId| s@)
}

/// Whether `out` is what a join reports to a caller that found session `s`.
pub open spec fn join_reports(s: SessionView, is_host: bool, out: JoinOutcome) -> bool {
    if is_host {
        if s.host is None {
            match out {
                JoinOutcome::BecameHost(members) => members@.no_duplicates() && members@.to_set() == s.users,
                _ => false,
            }
        } else {
            out is HostConflict
        }
    } else {
        out == JoinOutcome::JoinedAsMember(s.host)
    }
}

proof fn lemma_push_to_set(s: Seq<UserId>, u: UserId)
    requires
        !s.contains(u),
        s.no_duplicates(),
    ensures
        s.push(u).to_set() =~= s.to_set().insert(u),
        s.push(u).no_duplicates(),
{
    assert forall|w: UserId| s.push(u).contains(w) <==> (s.contains(w) || w == u) by {
        if s.push(u).contains(w) && w != u {
            let t = choose|t: int| 0 <= t < s.len() + 1 && s.push(u)[t] == w;
            assert(s[t] == w);
        }
        if s.contains(w) {
            let t = choose|t: int| 0 <= t < s.len() && s[t] == w;
            assert(s.push(u)[t] == w);
        }
        if w == u {
            assert(s.push(u)[s.len() as int] == w);
        }
    }
}

fn has_id(v: &Vec<UserId>, u: UserId) -> (r: bool)
    ensures
        r == v@.contains(u),
{
    let mut i: usize = 0;
    while i < v.len()
        invariant
            i <= v@.len(),
            forall|j: int| 0 <= j < i ==> v@[j] != u,
        decreases v@.len() - i,
    {
        if v[i] == u {
            return true;
        }
        i = i + 1;
    }
    false
}

fn is_vacant_session(s: &Session) -> (r: bool)
    ensures
        r == is_vacant(s@),
{
    if s.users.len() == 0 {
        assert(s.users@.to_set() =~= Set::<UserId>::empty());
    } else {
        assert(s.users@.to_set().contains(s.users@[0]));
    }
    s.host.is_none() && s.users.len() == 0
}

impl SessionRegistry {
    /// The names of the sessions, in registry order.
    pub closed spec fn id_views(&self) -> Seq<Seq<char>> {
        names(self.ids@)
    }

    /// The registry's internal consistency; it implies that no session is vacant.
    pub closed spec fn wf(&self) -> bool {
        &&& self.ids@.len() == self.sessions@.len()
        &&& self.id_views().no_duplicates()
        &&& forall|k: Seq<char>| #[trigger] self.model@.contains_key(k) <==> self.id_views().contains(k)
        &&& forall|i: int|
            0 <= i < self.ids@.len() ==> #[trigger] self.model@[self.id_views()[i]] == self.sessions@[i]@
        &&& forall|i: int| 0 <= i < self.ids@.len() ==> #[trigger] self.sessions@[i].wf()
        &&& no_vacant_session(self.model@)
        &&& membership_unique(self.model@)
    }

    /// A well-formed registry has no vacant session, and every user is a
    /// party of at most one session, never both its host and a member.
    pub proof fn lemma_invariants(&self)
        requires
            self.wf(),
        ensures
            no_vacant_session(self@),
            membership_unique(self@),
    {
    }

    /// A registry with no sessions.
    pub fn new() -> (r: SessionRegistry)
        ensures
            r.wf(),
            r@ == Map::<Seq<char>, SessionView>::empty(),
    {
        let r = SessionRegistry { ids: Vec::new(), sessions: Vec::new(), model: Ghost(Map::empty()) };
        assert(r.id_views() =~= Seq::<Seq<char>>::empty());
        r
    }

    fn position(&self, session_id: &SessionId) -> (r: Option<usize>)
        requires
            self.wf(),
        ensures
            match r {
                Some(i) => i < self.ids@.len() && self.id_views()[i as int] == session_id@,
                None => !self@.contains_key(session_id@),
            },
    {
        let mut i: usize = 0;
        while i < self.ids.len()
            invariant
                self.wf(),
                i <= self.ids@.len(),
                forall|j: int| 0 <= j < i ==> self.id_views()[j] != session_id@,
            decreases self.ids@.len() - i,
        {
            if self.ids[i].0 == session_id.0 {
                return Some(i);
            }
            i = i + 1;
        }
        None
    }

    /// The session named `session_id`, if it exists.
    pub fn lookup(&self, session_id: &SessionId) -> (r: Option<&Session>)
        requires
            self.wf(),
        ensures
            match r {
                Some(s) => self@.contains_key(session_id@) && s@ == self@[session_id@] && s.wf(),
                None => !self@.contains_key(session_id@),
            },
    {
        match self.position(session_id) {
            Some(i) => Some(&self.sessions[i]),
            None => None,
        }
    }

    fn party_position(&self, user: UserId) -> (r: Option<usize>)
        requires
            self.wf(),
        ensures
            match r {
                Some(i) => i < self.ids@.len() && is_party(self@[self.id_views()[i as int]], user),
                None => forall|q: Seq<char>| #[trigger] self@.contains_key(q) ==> !is_party(self@[q], user),
            },
    {
        let mut i: usize = 0;
        while i < self.ids.len()
            invariant
                self.wf(),
                i <= self.ids@.len(),
                forall|j: int| 0 <= j < i ==> !is_party(#[trigger] self.sessions@[j]@, user),
            decreases self.ids@.len() - i,
        {
            assert(self.model@[self.id_views()[i as int]] == self.sessions@[i as int]@);
            if self.sessions[i].host == Some(user) || has_id(&self.sessions[i].users, user) {
                return Some(i);
            }
            i = i + 1;
        }
        assert forall|q: Seq<char>| #[trigger] self@.contains_key(q) implies !is_party(self@[q], user) by {
            let t = choose|t: int| 0 <= t < self.id_views().len() && self.id_views()[t] == q;
            assert(self.model@[self.id_views()[t]] == self.sessions@[t]@);
        }
        None
    }

    fn may_join(&self, session_id: &SessionId, user: UserId, is_host: bool) -> (r: bool)
        requires
            self.wf(),
        ensures
            r == join_allowed(self@, session_id@, user, is_host),
    {
        match self.party_position(user) {
            None => true,
            Some(i) => {
                let ghost k = self.id_views()[i as int];
                assert(self@.contains_key(k));
                let s = &self.sessions[i];
                assert(self@[k] == s@);
                let r = self.ids[i].0 == session_id.0 && if is_host {
                    !has_id(&s.users, user)
                } else {
                    s.host != Some(user)
                };
                if r {
                    assert forall|q: Seq<char>|
                        #[trigger] self@.contains_key(q) && is_party(self@[q], user) implies q == session_id@
                            && if is_host {
                            !self@[q].users.contains(user)
                        } else {
                            self@[q].host != Some(user)
                        } by {
                        assert(is_party(self@[k], user));
                    }
                }
                r
            },
        }
    }

    /// Adds `user` to session `session_id`, creating the session if needed,
    /// when the join is allowed: `user` is in no other session and does not
    /// hold the other role in this one. Otherwise nothing changes and the
    /// outcome is `Refused`. A host request on a session without a host
    /// makes `user` its host; on a session with a host it changes nothing. A
    /// member request adds `user` to the members (a set: a second request
    /// adds nothing).
    pub fn join(&mut self, session_id: SessionId, user: UserId, is_host: bool) -> (out: JoinOutcome)
        requires
            old(self).wf(),
        ensures
            final(self).wf(),
            final(self)@ == after_join(old(self)@, session_id@, user, is_host),
            if join_allowed(old(self)@, session_id@, user, is_host) {
                join_reports(session_or_vacant(old(self)@, session_id@), is_host, out)
            } else {
                out is Refused
            },
    {
        if !self.may_join(&session_id, user, is_host) {
            return JoinOutcome::Refused;
        }
        self.join_unchecked(session_id, user, is_host)
    }

    fn join_unchecked(&mut self, session_id: SessionId, user: UserId, is_host: bool) -> (out: JoinOutcome)
        requires
            old(self).wf(),
            join_allowed(old(self)@, session_id@, user, is_host),
        ensures
            final(self).wf(),
            final(self)@ == joined(old(self)@, session_id@, user, is_host),
            join_reports(session_or_vacant(old(self)@, session_id@), is_host, out),
    {
        proof {
            crate::laws::join_keeps_membership_unique(self.model@, session_id@, user, is_host);
        }
        let ghost k = session_id@;
        let ghost m = self.model@;
        match self.position(&session_id) {
            Some(i) => {
                assert(m.contains_key(k));
                assert(m[k] == self.sessions@[i as int]@);
                assert(self.sessions@[i as int].wf());
                let ghost old_sessions = self.sessions@;
                if is_host {
                    if self.sessions[i].host.is_none() {
                        let members = copy_ids(&self.sessions[i].users);
                        self.sessions[i].host = Some(user);
                        self.model = Ghost(m.insert(k, SessionView { host: Some(user), users: m[k].users }));
                        assert forall|j: int| 0 <= j < self.ids@.len() implies #[trigger] self.model@[self.id_views()[j]]
                            == self.sessions@[j]@ by {
                            if j != i {
                                assert(self.id_views()[j] != self.id_views()[i as int]);
                            }
                        }
                        assert forall|j: int| 0 <= j < self.ids@.len() implies #[trigger] self.sessions@[j].wf() by {
                            if j != i {
                                assert(self.sessions@[j] == old_sessions[j]);
                            }
                        }
                        assert(self.model@.dom() =~= m.dom());
                        JoinOutcome::BecameHost(members)
                    } else {
                        JoinOutcome::HostConflict
                    }
                } else {
                    if !has_id(&self.sessions[i].users, user) {
                        let ghost before = self.sessions@[i as int].users@;
                        self.sessions[i].users.push(user);
                        assert(self.sessions@[i as int].users@ == before.push(user));
                        proof {
                            lemma_push_to_set(before, user);
                        }
                    } else {
                        assert(m[k].users.insert(user) =~= m[k].users);
                    }
                    let host = self.sessions[i].host;
                    self.model = Ghost(m.insert(k, SessionView { host: m[k].host, users: m[k].users.insert(user) }));
                    assert forall|j: int| 0 <= j < self.ids@.len() implies #[trigger] self.model@[self.id_views()[j]]
                        == self.sessions@[j]@ by {
                        if j != i {
                            assert(self.id_views()[j] != self.id_views()[i as int]);
                        }
                    }
                    assert forall|j: int| 0 <= j < self.ids@.len() implies #[trigger] self.sessions@[j].wf() by {
                        if j != i {
                            assert(self.sessions@[j] == old_sessions[j]);
                        }
                    }
                    assert(self.model@.dom() =~= m.dom());
                    assert(self.model@[k].users.contains(user));
                    JoinOutcome::JoinedAsMember(host)
                }
            },
            None => {
                let mut users: Vec<UserId> = Vec::new();
                let host = if is_host {
                    Some(user)
                } else {
                    users.push(user);
                    None
                };
                let session = Session { host, users };
                if is_host {
                    assert(session@.users =~= Set::<UserId>::empty());
                } else {
                    proof {
                        lemma_push_to_set(Seq::<UserId>::empty(), user);
                    }
                    assert(session.users@ == Seq::<UserId>::empty().push(user));
                    assert(session@.users =~= Set::<UserId>::empty().insert(user));
                }
                let ghost old_names = self.id_views();
                self.ids.push(session_id);
                self.sessions.push(session);
                self.model = Ghost(m.insert(k, session@));
                assert(self.id_views() =~= old_names.push(k));
                assert(!old_names.contains(k));
                assert(self.id_views().no_duplicates()) by {
                    assert forall|a: int, b: int| 0 <= a < b < self.id_views().len() implies self.id_views()[a]
                        != self.id_views()[b] by {
                        if b == old_names.len() {
                            assert(old_names[a] != k);
                        } else {
                            assert(old_names[a] != old_names[b]);
                        }
                    }
                }
                assert forall|j: int| 0 <= j < self.ids@.len() implies #[trigger] self.sessions@[j].wf() by {
                    if j < old_names.len() {
                        assert(old(self).sessions@[j].wf());
                    }
                }
                assert(!is_vacant(session@)) by {
                    if !is_host {
                        assert(session@.users.contains(user));
                    }
                }
                assert forall|q: Seq<char>| #[trigger] self.model@.contains_key(q) <==> self.id_views().contains(q) by {
                    if q != k && m.contains_key(q) {
                        let t = choose|t: int| 0 <= t < old_names.len() && old_names[t] == q;
                        assert(self.id_views()[t] == q);
                    }
                    if self.id_views().contains(q) && q != k {
                        let t = choose|t: int| 0 <= t < self.id_views().len() && self.id_views()[t] == q;
                        assert(old_names[t] == q);
                        assert(old_names.contains(q));
                    }
                    if q == k {
                        assert(self.id_views()[old_names.len() as int] == q);
                    }
                }
                assert forall|j: int| 0 <= j < self.ids@.len() implies #[trigger] self.model@[self.id_views()[j]]
                    == self.sessions@[j]@ by {
                    if j < old_names.len() {
                        assert(old_names.contains(old_names[j]));
                        assert(self.id_views()[j] == old_names[j]);
                    }
                }
                if is_host {
                    JoinOutcome::BecameHost(Vec::new())
                } else {
                    JoinOutcome::JoinedAsMember(None)
                }
            },
        }
    }


    fn split_for_leave(&self, user: UserId) -> (r: (Vec<SessionId>, Vec<Session>, Vec<SessionId>))
        requires
            self.wf(),
        ensures
            r.0@.len() == r.1@.len(),
            names(r.0@).no_duplicates(),
            names(r.2@).no_duplicates(),
            forall|k: Seq<char>| #[trigger] names(r.0@).contains(k) <==> left(self@, user).contains_key(k),
            forall|j: int|
                0 <= j < r.0@.len() ==> #[trigger] r.1@[j]@ == without(self@[names(r.0@)[j]], user) && r.1@[j].wf(),
            forall|k: Seq<char>| #[trigger] names(r.2@).contains(k) <==> emptied_by(self@, user).contains(k),
    {
        let mut ids: Vec<SessionId> = Vec::new();
        let mut sessions: Vec<Session> = Vec::new();
        let mut emptied: Vec<SessionId> = Vec::new();
        let mut i: usize = 0;
        while i < self.ids.len()
            invariant
                self.wf(),
                i <= self.ids@.len(),
                ids@.len() == sessions@.len(),
                names(ids@).no_duplicates(),
                names(emptied@).no_duplicates(),
                forall|j: int|
                    0 <= j < ids@.len() ==> exists|t: int| 0 <= t < i && #[trigger] names(ids@)[j] == self.id_views()[t],
                forall|j: int|
                    0 <= j < emptied@.len() ==> exists|t: int| 0 <= t < i && #[trigger] names(emptied@)[j] == self.id_views()[t],
                forall|j: int|
                    0 <= j < ids@.len() ==> #[trigger] sessions@[j]@ == without(self@[names(ids@)[j]], user)
                        && sessions@[j].wf() && !is_vacant(sessions@[j]@),
                forall|j: int|
                    0 <= j < emptied@.len() ==> is_vacant(without(self@[#[trigger] names(emptied@)[j]], user)),
                forall|t: int|
                    0 <= t < i ==> if is_vacant(without(self@[#[trigger] self.id_views()[t]], user)) {
                        names(emptied@).contains(self.id_views()[t])
                    } else {
                        names(ids@).contains(self.id_views()[t])
                    },
            decreases self.ids@.len() - i,
        {
            assert(self.sessions@[i as int].wf());
            assert(self.model@.contains_key(self.id_views()[i as int]));
            let stripped = strip(&self.sessions[i], user);
            let id = self.ids[i].clone();
            let ghost k = self.id_views()[i as int];
            assert(id@ == k);
            assert forall|j: int| 0 <= j < ids@.len() implies names(ids@)[j] != k by {
                let t = choose|t: int| 0 <= t < i && #[trigger] names(ids@)[j] == self.id_views()[t];
                assert(self.id_views()[t] != self.id_views()[i as int]);
            }
            assert forall|j: int| 0 <= j < emptied@.len() implies names(emptied@)[j] != k by {
                let t = choose|t: int| 0 <= t < i && #[trigger] names(emptied@)[j] == self.id_views()[t];
                assert(self.id_views()[t] != self.id_views()[i as int]);
            }
            let ghost ids0 = ids@;
            let ghost emptied0 = emptied@;
            let ghost sessions0 = sessions@;
            if is_vacant_session(&stripped) {
                emptied.push(id);
                assert(names(emptied@) =~= names(emptied0).push(k));
                assert(names(emptied@)[emptied0.len() as int] == k);
                assert forall|j: int|
                    0 <= j < emptied@.len() implies exists|t: int| 0 <= t < i + 1 && #[trigger] names(emptied@)[j] == self.id_views()[t] by {
                    if j == emptied0.len() {
                        assert(names(emptied@)[j] == self.id_views()[i as int]);
                    } else {
                        assert(names(emptied@)[j] == names(emptied0)[j]);
                    }
                }
                assert forall|t: int| 0 <= t < i + 1 implies if is_vacant(without(self@[#[trigger] self.id_views()[t]], user)) {
                    names(emptied@).contains(self.id_views()[t])
                } else {
                    names(ids@).contains(self.id_views()[t])
                } by {
                    if t < i && is_vacant(without(self@[self.id_views()[t]], user)) {
                        let q = choose|q: int| 0 <= q < names(emptied0).len() && names(emptied0)[q] == self.id_views()[t];
                        assert(names(emptied@)[q] == self.id_views()[t]);
                    }
                }
            } else {
                ids.push(id);
                sessions.push(stripped);
                assert(names(ids@) =~= names(ids0).push(k));
                assert(names(ids@)[ids0.len() as int] == k);
                assert forall|j: int|
                    0 <= j < ids@.len() implies exists|t: int| 0 <= t < i + 1 && #[trigger] names(ids@)[j] == self.id_views()[t] by {
                    if j == ids0.len() {
                        assert(names(ids@)[j] == self.id_views()[i as int]);
                    } else {
                        assert(names(ids@)[j] == names(ids0)[j]);
                    }
                }
                assert forall|j: int|
                    0 <= j < ids@.len() implies #[trigger] sessions@[j]@ == without(self@[names(ids@)[j]], user)
                        && sessions@[j].wf() && !is_vacant(sessions@[j]@) by {
                    if j < ids0.len() {
                        assert(sessions@[j] == sessions0[j]);
                        assert(names(ids@)[j] == names(ids0)[j]);
                    }
                }
                assert forall|t: int| 0 <= t < i + 1 implies if is_vacant(without(self@[#[trigger] self.id_views()[t]], user)) {
                    names(emptied@).contains(self.id_views()[t])
                } else {
                    names(ids@).contains(self.id_views()[t])
                } by {
                    if t < i && !is_vacant(without(self@[self.id_views()[t]], user)) {
                        let q = choose|q: int| 0 <= q < names(ids0).len() && names(ids0)[q] == self.id_views()[t];
                        assert(names(ids@)[q] == self.id_views()[t]);
                    }
                }
            }
            i = i + 1;
        }
        let ghost l = left(self@, user);
        assert forall|k: Seq<char>| #[trigger] names(ids@).contains(k) <==> l.contains_key(k) by {
            if names(ids@).contains(k) {
                let j = choose|j: int| 0 <= j < names(ids@).len() && names(ids@)[j] == k;
                let t = choose|t: int| 0 <= t < i && #[trigger] names(ids@)[j] == self.id_views()[t];
                assert(self.id_views().contains(k));
                assert(sessions@[j]@ == without(self@[k], user));
            }
            if l.contains_key(k) {
                assert(self.id_views().contains(k));
                let t = choose|t: int| 0 <= t < self.id_views().len() && self.id_views()[t] == k;
                assert(!is_vacant(without(self@[self.id_views()[t]], user)));
            }
        }
        assert forall|k: Seq<char>| #[trigger] names(emptied@).contains(k) <==> emptied_by(self@, user).contains(k) by {
            if names(emptied@).contains(k) {
                let j = choose|j: int| 0 <= j < names(emptied@).len() && names(emptied@)[j] == k;
                let t = choose|t: int| 0 <= t < i && #[trigger] names(emptied@)[j] == self.id_views()[t];
                assert(self.id_views().contains(k));
            }
            if emptied_by(self@, user).contains(k) {
                assert(self.id_views().contains(k));
                let t = choose|t: int| 0 <= t < self.id_views().len() && self.id_views()[t] == k;
                assert(is_vacant(without(self@[self.id_views()[t]], user)));
            }
        }
        (ids, sessions, emptied)
    }

    /// Takes `user` out of every session it is in, deletes the sessions that
    /// this leaves without anybody, and hands back their names, each once.
    pub fn leave(&mut self, user: UserId) -> (emptied: Vec<SessionId>)
        requires
            old(self).wf(),
        ensures
            final(self).wf(),
            final(self)@ == left(old(self)@, user),
            names(emptied@).no_duplicates(),
            names(emptied@).to_set() == emptied_by(old(self)@, user),
    {
        proof {
            crate::laws::leave_keeps_membership_unique(self.model@, user);
        }
        let (ids, sessions, emptied) = self.split_for_leave(user);
        let ghost l = left(self@, user);
        self.ids = ids;
        self.sessions = sessions;
        self.model = Ghost(l);
        assert forall|j: int| 0 <= j < self.ids@.len() implies #[trigger] self.model@[self.id_views()[j]]
            == self.sessions@[j]@ by {
            assert(self.id_views().contains(self.id_views()[j]));
        }
        assert forall|j: int| 0 <= j < self.ids@.len() implies #[trigger] self.sessions@[j].wf() by {
            assert(self.sessions@[j]@ == without(old(self)@[names(self.ids@)[j]], user));
        }
        assert forall|k: Seq<char>| #[trigger] self.model@.contains_key(k) implies !is_vacant(self.model@[k]) by {
        }
        assert(names(emptied@).to_set() =~= emptied_by(old(self)@, user));
        emptied
    }

}

} // verus!
