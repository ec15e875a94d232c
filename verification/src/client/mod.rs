//! The decisions of a proxy session.
//!
//! A session stands between one client and its server. Messages from the
//! client go to the server unchanged. Messages from the server go to the
//! client unchanged, except three kinds:
//! - the first welcome of a login server, and each welcome of a lobby server,
//!   is answered with a welcome the proxy makes itself, with fresh seeds;
//! - a later welcome of a login server is dropped;
//! - a redirect makes the proxy open a listener that relays to the redirect's
//!   target, and the client is redirected to that listener instead.
//!
//! The session ends when a reader or writer of the client closes, when one of
//! the current server closes, or when no thread can reach it any more.
use vstd::prelude::*;

pub mod frame;

use crate::msg::common::{
    Redirect4,
    Redirect4View,
    Redirect6,
    Redirect6View,
    Welcome,
    WelcomeView,
    LOGIN_WELCOME_COPYRIGHT,
    SHIP_WELCOME_COPYRIGHT,
};
use crate::msg::{Msg, MsgView};

verus! {

/// Something that runs until it is done.
pub trait Run {
    fn run(self);
}

/// Which end of a proxied connection.
#[derive(Clone, Copy, Debug, PartialEq, Eq, Structural)]
pub enum Side {
    Server,
    Client,
}

/// The address of a peer, as a session compares them.
#[derive(Clone, Copy, Debug)]
pub enum PeerAddr {
    /// IPv4 octets and port.
    V4([u8; 4], u16),
    /// IPv6 octets, port, flow info and scope id.
    V6([u8; 16], u16, u32, u32),
}

/// A peer address, with its octets as a sequence.
pub enum PeerAddrView {
    V4(Seq<u8>, u16),
    V6(Seq<u8>, u16, u32, u32),
}

impl View for PeerAddr {
    type V = PeerAddrView;

    open spec fn view(&self) -> PeerAddrView {
        match self {
            PeerAddr::V4(ip, port) => PeerAddrView::V4(ip@, *port),
            PeerAddr::V6(ip, port, flow, scope) => PeerAddrView::V6(ip@, *port, *flow, *scope),
        }
    }
}

/// Whether two byte sequences are equal.
fn bytes_equal(a: &[u8], b: &[u8]) -> (r: bool)
    ensures
        r == (a@ == b@),
{
    if a.len() != b.len() {
        return false;
    }
    let mut i: usize = 0;
    while i < a.len()
        invariant
            i <= a@.len(),
            a@.len() == b@.len(),
            forall|j: int| 0 <= j < i ==> a@[j] == b@[j],
        decreases a@.len() - i,
    {
        if a[i] != b[i] {
            return false;
        }
        i = i + 1;
    }
    assert(a@ =~= b@);
    true
}

/// Whether two peer addresses are the same.
pub fn same_peer(a: &PeerAddr, b: &PeerAddr) -> (r: bool)
    ensures
        r == (a@ == b@),
{
    match (a, b) {
        (PeerAddr::V4(ip1, p1), PeerAddr::V4(ip2, p2)) => *p1 == *p2 && bytes_equal(ip1, ip2),
        (PeerAddr::V6(ip1, p1, f1, s1), PeerAddr::V6(ip2, p2, f2, s2)) => *p1 == *p2 && *f1 == *f2
            && *s1 == *s2 && bytes_equal(ip1, ip2),
        _ => false,
    }
}

/// `rand::random::<u32>()`: a random number; nothing is promised of its value.
#[verifier::external_body]
fn random_seed() -> u32 {
    rand::random::<u32>()
}

/// The welcome the proxy sends a client in place of a server's: flags 0, the
/// login or lobby copyright line, and the given seeds.
pub fn welcome_reply(login: bool, client_seed: u32, server_seed: u32) -> (r: Msg)
    ensures
        r@ == welcome_reply_view(login, client_seed, server_seed),
{
    if login {
        Msg::LoginWelcome(
            0,
            Welcome { copyright: LOGIN_WELCOME_COPYRIGHT.to_owned(), client_seed, server_seed },
        )
    } else {
        Msg::ShipWelcome(
            0,
            Welcome { copyright: SHIP_WELCOME_COPYRIGHT.to_owned(), client_seed, server_seed },
        )
    }
}

/// The view of [`welcome_reply`].
pub open spec fn welcome_reply_view(login: bool, client_seed: u32, server_seed: u32) -> MsgView {
    if login {
        MsgView::LoginWelcome(
            0,
            WelcomeView { copyright: LOGIN_WELCOME_COPYRIGHT@, server_seed, client_seed },
        )
    } else {
        MsgView::ShipWelcome(
            0,
            WelcomeView { copyright: SHIP_WELCOME_COPYRIGHT@, server_seed, client_seed },
        )
    }
}

/// The redirect the proxy sends a client in place of a server's: to the
/// proxy's own address and the port of the listener that relays onwards.
pub fn redirect_reply(local_ip: [u8; 4], port: u16) -> (r: Msg)
    ensures
        r@ == MsgView::Redirect4(Redirect4View { ip: local_ip@, port }),
{
    Msg::Redirect4(Redirect4 { ip: local_ip, port })
}

/// Where a relay listener forwards to.
#[derive(Clone, Copy, Debug)]
pub enum RelayTarget {
    V4(Redirect4),
    V6(Redirect6),
}

/// A relay target, as plain values.
pub enum RelayTargetView {
    V4(Redirect4View),
    V6(Redirect6View),
}

impl View for RelayTarget {
    type V = RelayTargetView;

    open spec fn view(&self) -> RelayTargetView {
        match self {
            RelayTarget::V4(r) => RelayTargetView::V4(r@),
            RelayTarget::V6(r) => RelayTargetView::V6(r@),
        }
    }
}

/// What a session does next.
#[derive(Clone, Debug)]
pub enum Action {
    /// Send this message to the client.
    ToClient(Msg),
    /// Send this message to the server.
    ToServer(Msg),
    /// Open a listener that relays to the target, and send the client a
    /// redirect to it (see [`redirect_reply`]).
    Relay(RelayTarget),
    /// Nothing.
    Nothing,
}

/// An action, as plain values.
pub enum ActionView {
    ToClient(MsgView),
    ToServer(MsgView),
    Relay(RelayTargetView),
    Nothing,
}

impl View for Action {
    type V = ActionView;

    open spec fn view(&self) -> ActionView {
        match self {
            Action::ToClient(m) => ActionView::ToClient(m@),
            Action::ToServer(m) => ActionView::ToServer(m@),
            Action::Relay(t) => ActionView::Relay(t@),
            Action::Nothing => ActionView::Nothing,
        }
    }
}

/// What reaches a session.
#[derive(Clone, Debug)]
pub enum SessionEvent {
    /// A message read from the server.
    Server(Msg),
    /// A message read from the client.
    Client(Msg),
    /// The reader of one side, connected to this peer, has closed.
    ReadThreadClosed(Side, PeerAddr),
    /// The writer of one side, connected to this peer, has closed.
    WriteThreadClosed(Side, PeerAddr),
    /// No thread can send to the session any more.
    Disconnected,
}

/// An event, as plain values.
pub enum SessionEventView {
    Server(MsgView),
    Client(MsgView),
    ReadThreadClosed(Side, PeerAddrView),
    WriteThreadClosed(Side, PeerAddrView),
    Disconnected,
}

impl View for SessionEvent {
    type V = SessionEventView;

    open spec fn view(&self) -> SessionEventView {
        match self {
            SessionEvent::Server(m) => SessionEventView::Server(m@),
            SessionEvent::Client(m) => SessionEventView::Client(m@),
            SessionEvent::ReadThreadClosed(s, a) => SessionEventView::ReadThreadClosed(*s, a@),
            SessionEvent::WriteThreadClosed(s, a) => SessionEventView::WriteThreadClosed(*s, a@),
            SessionEvent::Disconnected => SessionEventView::Disconnected,
        }
    }
}

/// What a session remembers.
pub struct SessionState {
    server_addr: PeerAddr,
    welcome_sent: bool,
    ship_welcome_sent: bool,
    disconnected: bool,
}

/// A session's memory, as plain values.
pub struct SessionView {
    pub server_addr: PeerAddrView,
    pub welcome_sent: bool,
    pub ship_welcome_sent: bool,
    pub disconnected: bool,
}

impl View for SessionState {
    type V = SessionView;

    closed spec fn view(&self) -> SessionView {
        SessionView {
            server_addr: self.server_addr@,
            welcome_sent: self.welcome_sent,
            ship_welcome_sent: self.ship_welcome_sent,
            disconnected: self.disconnected,
        }
    }
}

/// What a session does with a message from the server, and what it then
/// remembers; `client_seed` and `server_seed` go into a welcome it makes.
pub open spec fn server_decision(
    st: SessionView,
    m: MsgView,
    client_seed: u32,
    server_seed: u32,
) -> (SessionView, ActionView) {
    match m {
        MsgView::LoginWelcome(_, _) => if !st.welcome_sent {
            (
                SessionView { welcome_sent: true, ..st },
                ActionView::ToClient(welcome_reply_view(true, client_seed, server_seed)),
            )
        } else {
            (st, ActionView::Nothing)
        },
        MsgView::ShipWelcome(_, _) => if !st.ship_welcome_sent {
            (
                SessionView { welcome_sent: true, ..st },
                ActionView::ToClient(welcome_reply_view(false, client_seed, server_seed)),
            )
        } else {
            (st, ActionView::Nothing)
        },
        MsgView::Redirect4(r) => (st, ActionView::Relay(RelayTargetView::V4(r))),
        MsgView::Redirect6(r) => (st, ActionView::Relay(RelayTargetView::V6(r))),
        _ => (st, ActionView::ToClient(m)),
    }
}

/// What a session does with an event, what it then remembers, and whether it
/// ends.
pub open spec fn session_step(
    st: SessionView,
    ev: SessionEventView,
    client_seed: u32,
    server_seed: u32,
) -> (SessionView, ActionView, bool) {
    match ev {
        SessionEventView::Server(m) => {
            let (st2, a) = server_decision(st, m, client_seed, server_seed);
            (st2, a, st2.disconnected)
        },
        SessionEventView::Client(m) => (st, ActionView::ToServer(m), st.disconnected),
        SessionEventView::ReadThreadClosed(side, peer) => (
            st,
            ActionView::Nothing,
            side == Side::Client || peer == st.server_addr,
        ),
        SessionEventView::WriteThreadClosed(side, peer) => (
            st,
            ActionView::Nothing,
            side == Side::Client || peer == st.server_addr,
        ),
        SessionEventView::Disconnected => (st, ActionView::Nothing, true),
    }
}

/// What a session remembers only grows: its server never changes, the
/// memory of having sent its own welcome is never lost, and no event marks it
/// disconnected.
pub proof fn lemma_session_memory(
    st: SessionView,
    ev: SessionEventView,
    client_seed: u32,
    server_seed: u32,
)
    ensures
        ({
            let st2 = session_step(st, ev, client_seed, server_seed).0;
            &&& st2.server_addr == st.server_addr
            &&& st.welcome_sent ==> st2.welcome_sent
            &&& st2.ship_welcome_sent == st.ship_welcome_sent
            &&& st2.disconnected == st.disconnected
        }),
{
}

/// A login server's welcome is answered with the session's own welcome at
/// most once: after any login welcome, the next one is dropped.
pub proof fn lemma_login_welcome_answered_once(
    st: SessionView,
    f1: u8,
    w1: WelcomeView,
    f2: u8,
    w2: WelcomeView,
    client_seed1: u32,
    server_seed1: u32,
    client_seed2: u32,
    server_seed2: u32,
)
    ensures
        ({
            let st1 = session_step(
                st,
                SessionEventView::Server(MsgView::LoginWelcome(f1, w1)),
                client_seed1,
                server_seed1,
            ).0;
            session_step(
                st1,
                SessionEventView::Server(MsgView::LoginWelcome(f2, w2)),
                client_seed2,
                server_seed2,
            ).1 == ActionView::Nothing
        }),
{
}

/// Messages from the client, and messages from the server other than
/// welcomes and redirects, pass through unchanged and never end the session
/// by themselves.
pub proof fn lemma_messages_pass_through(
    st: SessionView,
    m: MsgView,
    client_seed: u32,
    server_seed: u32,
)
    requires
        !st.disconnected,
    ensures
        session_step(st, SessionEventView::Client(m), client_seed, server_seed) == (
            st,
            ActionView::ToServer(m),
            false,
        ),
        (m is Unknown || m is HlCheck) ==> session_step(
            st,
            SessionEventView::Server(m),
            client_seed,
            server_seed,
        ) == (st, ActionView::ToClient(m), false),
{
}

/// A server's welcome that the session answers is answered with a welcome of
/// the same kind that the session makes itself: flags 0, the copyright line
/// of that kind of server, and the seeds at hand. The first login welcome is
/// answered so, and so is every lobby welcome of a session that has not
/// marked one as answered (no step ever marks one).
pub proof fn lemma_welcome_answered_with_own_seeds(
    st: SessionView,
    f: u8,
    w: WelcomeView,
    client_seed: u32,
    server_seed: u32,
)
    ensures
        !st.welcome_sent ==> session_step(
            st,
            SessionEventView::Server(MsgView::LoginWelcome(f, w)),
            client_seed,
            server_seed,
        ).1 == ActionView::ToClient(
            MsgView::LoginWelcome(
                0,
                WelcomeView { copyright: LOGIN_WELCOME_COPYRIGHT@, server_seed, client_seed },
            ),
        ),
        !st.ship_welcome_sent ==> session_step(
            st,
            SessionEventView::Server(MsgView::ShipWelcome(f, w)),
            client_seed,
            server_seed,
        ).1 == ActionView::ToClient(
            MsgView::ShipWelcome(
                0,
                WelcomeView { copyright: SHIP_WELCOME_COPYRIGHT@, server_seed, client_seed },
            ),
        ),
{
}

/// A redirect from the server makes the session relay to exactly the target
/// the redirect names: its address octets, port, flow info and scope id
/// unchanged, whatever seeds are at hand. The session remembers nothing new
/// and is not ended by it.
pub proof fn lemma_redirect_relays_to_target(
    st: SessionView,
    r4: Redirect4View,
    r6: Redirect6View,
    client_seed: u32,
    server_seed: u32,
)
    ensures
        session_step(st, SessionEventView::Server(MsgView::Redirect4(r4)), client_seed, server_seed)
            == (st, ActionView::Relay(RelayTargetView::V4(r4)), st.disconnected),
        session_step(st, SessionEventView::Server(MsgView::Redirect6(r6)), client_seed, server_seed)
            == (st, ActionView::Relay(RelayTargetView::V6(r6)), st.disconnected),
        ({
            let a = session_step(
                st,
                SessionEventView::Server(MsgView::Redirect6(r6)),
                client_seed,
                server_seed,
            ).1;
            &&& a matches ActionView::Relay(RelayTargetView::V6(t))
            &&& forall|i: int| 0 <= i < r6.ip.len() ==> #[trigger] t.ip[i] == r6.ip[i]
            &&& t.ip.len() == r6.ip.len()
            &&& t.port == r6.port
            &&& t.flowinfo == r6.flowinfo
            &&& t.scope_id == r6.scope_id
        }),
{
}

impl SessionState {
    /// A fresh session with the given server.
    pub fn new(server_addr: PeerAddr) -> (r: SessionState)
        ensures
            r@ == (SessionView {
                server_addr: server_addr@,
                welcome_sent: false,
                ship_welcome_sent: false,
                disconnected: false,
            }),
    {
        SessionState {
            server_addr,
            welcome_sent: false,
            ship_welcome_sent: false,
            disconnected: false,
        }
    }

    /// Handle a message from the server, with the seeds for a welcome the
    /// session may make.
    pub fn handle_from_server_seeded(&mut self, msg: Msg, client_seed: u32, server_seed: u32) -> (r:
        Action)
        ensures
            (final(self)@, r@) == server_decision(old(self)@, msg@, client_seed, server_seed),
    {
        match msg {
            Msg::LoginWelcome(_, _) => {
                if !self.welcome_sent {
                    self.welcome_sent = true;
                    Action::ToClient(welcome_reply(true, client_seed, server_seed))
                } else {
                    Action::Nothing
                }
            },
            Msg::ShipWelcome(_, _) => {
                if !self.ship_welcome_sent {
                    self.welcome_sent = true;
                    Action::ToClient(welcome_reply(false, client_seed, server_seed))
                } else {
                    Action::Nothing
                }
            },
            Msg::Redirect4(r) => Action::Relay(RelayTarget::V4(r)),
            Msg::Redirect6(r) => Action::Relay(RelayTarget::V6(r)),
            m => Action::ToClient(m),
        }
    }

    /// Handle a message from the server; a welcome the session makes gets
    /// fresh random seeds.
    pub fn handle_from_server(&mut self, msg: Msg) -> (r: Action)
        ensures
            exists|client_seed: u32, server_seed: u32|
                (final(self)@, r@) == #[trigger] server_decision(
                    old(self)@,
                    msg@,
                    client_seed,
                    server_seed,
                ),
    {
        let client_seed = random_seed();
        let server_seed = random_seed();
        self.handle_from_server_seeded(msg, client_seed, server_seed)
    }

    /// Handle a message from the client: it goes to the server as it is.
    pub fn handle_from_client(&mut self, msg: Msg) -> (r: Action)
        ensures
            r@ == ActionView::ToServer(msg@),
            final(self)@ == old(self)@,
    {
        Action::ToServer(msg)
    }

    /// Take one event, with the seeds for a welcome the session may make:
    /// the action to perform, and whether the session then ends.
    pub fn step_seeded(&mut self, event: SessionEvent, client_seed: u32, server_seed: u32) -> (r: (
        Action,
        bool,
    ))
        ensures
            (final(self)@, r.0@, r.1) == session_step(old(self)@, event@, client_seed, server_seed),
    {
        match event {
            SessionEvent::Server(m) => {
                let a = self.handle_from_server_seeded(m, client_seed, server_seed);
                (a, self.disconnected)
            },
            SessionEvent::Client(m) => {
                let a = self.handle_from_client(m);
                (a, self.disconnected)
            },
            SessionEvent::ReadThreadClosed(side, peer) => {
                let stop = match side {
                    Side::Client => true,
                    Side::Server => same_peer(&peer, &self.server_addr),
                };
                (Action::Nothing, stop)
            },
            SessionEvent::WriteThreadClosed(side, peer) => {
                let stop = match side {
                    Side::Client => true,
                    Side::Server => same_peer(&peer, &self.server_addr),
                };
                (Action::Nothing, stop)
            },
            SessionEvent::Disconnected => (Action::Nothing, true),
        }
    }

    /// Take one event: the action to perform, and whether the session then
    /// ends. A welcome the session makes gets fresh random seeds.
    pub fn step(&mut self, event: SessionEvent) -> (r: (Action, bool))
        ensures
            exists|client_seed: u32, server_seed: u32|
                (final(self)@, r.0@, r.1) == #[trigger] session_step(
                    old(self)@,
                    event@,
                    client_seed,
                    server_seed,
                ),
    {
        let client_seed = random_seed();
        let server_seed = random_seed();
        self.step_seeded(event, client_seed, server_seed)
    }
}

} // verus!
