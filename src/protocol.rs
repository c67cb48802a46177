use vstd::prelude::*;

verus! {

/// Name of a signaling session, chosen by the peers.
#[derive(Debug, Hash)]
pub struct SessionId(pub String);

impl View for SessionId {
    type V = Seq<char>;

    open spec fn view(&self) -> Seq<char> {
        self.0@
    }
}

impl SessionId {
    /// Wraps a string as a session id.
    pub fn new(inner: String) -> (r: SessionId)
        ensures
            r.0 == inner,
    {
        SessionId(inner)
    }

    /// The session id as text.
    pub fn as_str(&self) -> (r: &str)
        ensures
            r@ == self@,
    {
        self.0.as_str()
    }

    /// Gives back the wrapped string.
    pub fn into_inner(self) -> (r: String)
        ensures
            r == self.0,
    {
        self.0
    }
}

impl std::str::FromStr for SessionId {
    type Err = std::convert::Infallible;

    fn from_str(s: &str) -> (r: Result<SessionId, std::convert::Infallible>)
        ensures
            match r {
                Ok(id) => id@ == s@,
                Err(_) => false,
            },
    {
        Ok(SessionId(s.to_owned()))
    }
}

impl Clone for SessionId {
    fn clone(&self) -> (r: SessionId)
        ensures
            r == *self,
    {
        SessionId(self.0.clone())
    }
}

impl PartialEq for SessionId {
    fn eq(&self, other: &SessionId) -> (r: bool) {
        self.0 == other.0
    }
}

impl vstd::std_specs::cmp::PartialEqSpecImpl for SessionId {
    open spec fn obeys_eq_spec() -> bool {
        true
    }

    open spec fn eq_spec(&self, other: &SessionId) -> bool {
        self@ == other@
    }
}

impl Eq for SessionId {
}

/// Identifier the server gives to each accepted connection.
#[derive(Debug, Clone, Copy, PartialEq, Eq, Hash, Structural)]
pub struct UserId(pub usize);

impl UserId {
    /// Wraps a number as a user id.
    pub fn new(inner: usize) -> (r: UserId)
        ensures
            r.0 == inner,
    {
        UserId(inner)
    }

    /// Gives back the wrapped number.
    pub fn into_inner(self) -> (r: usize)
        ensures
            r == self.0,
    {
        self.0
    }
}

impl From<usize> for UserId {
    fn from(val: usize) -> (r: UserId) {
        UserId(val)
    }
}

impl vstd::std_specs::convert::FromSpecImpl<usize> for UserId {
    open spec fn obeys_from_spec() -> bool {
        true
    }

    open spec fn from_spec(v: usize) -> UserId {
        UserId(v)
    }
}

/// An ICE candidate as a peer writes it inside an `IceCandidate` message.
/// The server relays the text of such a value and never reads it.
#[derive(Debug)]
pub struct IceCandidateJSON {
    pub candidate: String,
    pub sdp_mid: Option<String>,
    pub sdp_mline_index: Option<u16>,
    pub username_fragment: Option<String>,
}

/// What a peer reports about itself in a keep-alive.
#[derive(Debug)]
pub struct KeepAliveStatus {
    pub is_host: Option<bool>,
    pub session_id: Option<SessionId>,
    pub version: Option<String>,
    /// The metadata object, kept as its JSON text; the server never reads it.
    pub metadata: Option<String>,
}

/// A message of the signaling protocol, in either direction.
#[derive(Debug)]
pub enum SignalMessage {
    /// A peer joins a session, as host or as member.
    SessionJoin(SessionId, bool),
    /// Tells a host that the given member is in its session.
    SessionReady(SessionId, UserId),
    /// An SDP offer, relayed untouched; the id names the other peer.
    SdpOffer(SessionId, UserId, String),
    /// An SDP answer, relayed untouched; the id names the other peer.
    SdpAnswer(SessionId, UserId, String),
    /// An ICE candidate as JSON text, relayed untouched; the id names the other peer.
    IceCandidate(SessionId, UserId, String),
    /// A peer tells the server that it is still there.
    KeepAlive(UserId, KeepAliveStatus),
    /// Liveness probe from the server, or its answer from a peer.
    Ping(bool, UserId, Option<SessionId>),
    /// An error report.
    Error(SessionId, UserId, String),
}

} // verus!
