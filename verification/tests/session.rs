use telepipe::client::{redirect_reply, same_peer, welcome_reply, Action, PeerAddr, RelayTarget, SessionEvent, SessionState, Side};
use telepipe::msg::common::{Redirect4, Redirect6, Welcome, LOGIN_WELCOME_COPYRIGHT, SHIP_WELCOME_COPYRIGHT};
use telepipe::msg::Msg;

fn server() -> PeerAddr {
    PeerAddr::V4([10, 0, 0, 1], 9100)
}

#[test]
fn client_messages_go_to_server() {
    let mut s = SessionState::new(server());
    let (a, stop) = s.step(SessionEvent::Client(Msg::Unknown(0x61, 2, vec![1, 2, 3, 4])));
    assert!(!stop);
    match a {
        Action::ToServer(Msg::Unknown(c, f, b)) => assert_eq!((c, f, b), (0x61, 2, vec![1, 2, 3, 4])),
        other => panic!("unexpected {:?}", other),
    }
}

#[test]
fn other_server_messages_go_to_client() {
    let mut s = SessionState::new(server());
    let (a, stop) = s.step(SessionEvent::Server(Msg::Unknown(0x62, 0, vec![])));
    assert!(!stop);
    assert!(matches!(a, Action::ToClient(Msg::Unknown(0x62, 0, _))));
}

#[test]
fn login_welcome_replaced_once() {
    let mut s = SessionState::new(server());
    let w = Welcome { copyright: "server".to_string(), server_seed: 1, client_seed: 2 };
    let (a, _) = s.step_seeded(SessionEvent::Server(Msg::LoginWelcome(4, w.clone())), 7, 8);
    match a {
        Action::ToClient(Msg::LoginWelcome(f, mine)) => {
            assert_eq!(f, 0);
            assert_eq!(mine.copyright, LOGIN_WELCOME_COPYRIGHT);
            assert_eq!((mine.client_seed, mine.server_seed), (7, 8));
        },
        other => panic!("unexpected {:?}", other),
    }
    let (a, stop) = s.step(SessionEvent::Server(Msg::LoginWelcome(4, w)));
    assert!(matches!(a, Action::Nothing));
    assert!(!stop);
}

#[test]
fn ship_welcome_replaced_every_time() {
    let mut s = SessionState::new(server());
    for _ in 0..3 {
        let (a, _) = s.step_seeded(SessionEvent::Server(Msg::ShipWelcome(0, Welcome::default())), 3, 4);
        match a {
            Action::ToClient(Msg::ShipWelcome(0, mine)) => assert_eq!(mine.copyright, SHIP_WELCOME_COPYRIGHT),
            other => panic!("unexpected {:?}", other),
        }
    }
    // A lobby welcome counts as the welcome: a later login welcome is dropped.
    let (a, _) = s.step(SessionEvent::Server(Msg::LoginWelcome(0, Welcome::default())));
    assert!(matches!(a, Action::Nothing));
}

#[test]
fn redirects_become_relays() {
    let mut s = SessionState::new(server());
    let (a, _) = s.step(SessionEvent::Server(Msg::Redirect4(Redirect4 { ip: [1, 2, 3, 4], port: 5 })));
    assert!(matches!(a, Action::Relay(RelayTarget::V4(Redirect4 { ip: [1, 2, 3, 4], port: 5 }))));
    let (a, _) = s.step(SessionEvent::Server(Msg::Redirect6(Redirect6::default())));
    assert!(matches!(a, Action::Relay(RelayTarget::V6(_))));
    match redirect_reply([192, 168, 150, 1], 40000) {
        Msg::Redirect4(r) => assert_eq!((r.ip, r.port), ([192, 168, 150, 1], 40000)),
        other => panic!("unexpected {:?}", other),
    }
}

#[test]
fn closing_threads_end_session() {
    let mut s = SessionState::new(server());
    assert!(!s.step(SessionEvent::ReadThreadClosed(Side::Server, PeerAddr::V4([10, 0, 0, 2], 9100))).1);
    assert!(!s.step(SessionEvent::WriteThreadClosed(Side::Server, PeerAddr::V4([10, 0, 0, 1], 9101))).1);
    assert!(s.step(SessionEvent::ReadThreadClosed(Side::Server, server())).1);
    assert!(s.step(SessionEvent::WriteThreadClosed(Side::Server, server())).1);
    assert!(s.step(SessionEvent::ReadThreadClosed(Side::Client, PeerAddr::V4([9, 9, 9, 9], 1))).1);
    assert!(s.step(SessionEvent::WriteThreadClosed(Side::Client, PeerAddr::V4([9, 9, 9, 9], 1))).1);
    assert!(s.step(SessionEvent::Disconnected).1);
}

#[test]
fn peers_compare_by_all_fields() {
    assert!(same_peer(&server(), &server()));
    assert!(!same_peer(&server(), &PeerAddr::V6([0; 16], 9100, 0, 0)));
    assert!(same_peer(&PeerAddr::V6([1; 16], 1, 2, 3), &PeerAddr::V6([1; 16], 1, 2, 3)));
    assert!(!same_peer(&PeerAddr::V6([1; 16], 1, 2, 3), &PeerAddr::V6([1; 16], 1, 2, 4)));
}

#[test]
fn welcome_reply_fields() {
    match welcome_reply(false, 10, 20) {
        Msg::ShipWelcome(0, w) => {
            assert_eq!(w.copyright, SHIP_WELCOME_COPYRIGHT);
            assert_eq!((w.client_seed, w.server_seed), (10, 20));
        },
        other => panic!("unexpected {:?}", other),
    }
}
