use chat::broker::{Broker, BrokerAction, BrokerEvent};
use chat::db::User;

fn user(name: &str) -> User {
    User::new(String::from(name))
}

#[test]
fn sessions_of_a_user_count_up_from_zero() {
    let mut broker = Broker::new();
    assert_eq!(broker.sessions_of(&user("alice")), Vec::<u64>::new());
    assert_eq!(broker.new_peer(user("alice")), Some(0));
    assert_eq!(broker.new_peer(user("alice")), Some(1));
    assert_eq!(broker.new_peer(user("bob")), Some(0));
    assert_eq!(broker.new_peer(user("alice")), Some(2));
    assert_eq!(broker.sessions_of(&user("alice")), vec![0, 1, 2]);
    assert_eq!(broker.sessions_of(&user("bob")), vec![0]);
    assert_eq!(broker.sessions_of(&user("carol")), Vec::<u64>::new());
}

#[test]
fn message_goes_to_every_session_of_the_recipient_once() {
    let mut broker = Broker::new();
    for _ in 0..5 {
        broker.new_peer(user("alice"));
    }
    broker.new_peer(user("bob"));
    let event = BrokerEvent::Message { from: user("bob"), to: user("alice"), message: "x" };
    match broker.handle(event) {
        BrokerAction::Deliver { to, sessions, from, message } => {
            assert_eq!(to, user("alice"));
            assert_eq!(sessions, vec![0, 1, 2, 3, 4]);
            assert_eq!(from, user("bob"));
            assert_eq!(message, "x");
        }
        _ => panic!("a message is delivered"),
    }
    assert_eq!(broker.sessions_of(&user("alice")), vec![0, 1, 2, 3, 4]);
}

#[test]
fn both_sessions_of_a_user_get_the_message() {
    let mut broker = Broker::new();
    let one = broker.handle(BrokerEvent::<String>::NewPeer(user("alice")));
    let two = broker.handle(BrokerEvent::<String>::NewPeer(user("alice")));
    assert!(matches!(one, BrokerAction::Registered { counter: 0, .. }));
    assert!(matches!(two, BrokerAction::Registered { counter: 1, .. }));
    broker.handle(BrokerEvent::<String>::NewPeer(user("bob")));
    let event =
        BrokerEvent::Message { from: user("bob"), to: user("alice"), message: String::from("x") };
    match broker.handle(event) {
        BrokerAction::Deliver { sessions, from, message, .. } => {
            assert_eq!(sessions, vec![0, 1]);
            assert_eq!(from.name(), "bob");
            assert_eq!(message, "x");
        }
        _ => panic!("a message is delivered"),
    }
}

#[test]
fn user_with_several_sessions_hears_itself_on_all_of_them() {
    let mut broker = Broker::new();
    broker.new_peer(user("alice"));
    broker.new_peer(user("alice"));
    let event = BrokerEvent::Message { from: user("alice"), to: user("alice"), message: 1u8 };
    assert!(matches!(
        broker.handle(event),
        BrokerAction::Deliver { sessions, .. } if sessions == vec![0, 1]
    ));
}

#[test]
fn message_to_nobody_is_dropped() {
    let mut broker = Broker::new();
    broker.new_peer(user("bob"));
    let event = BrokerEvent::Message { from: user("bob"), to: user("ghost"), message: 1u8 };
    assert!(matches!(
        broker.handle(event),
        BrokerAction::Deliver { sessions, .. } if sessions.is_empty()
    ));
}

#[test]
fn disconnect_removes_that_session_only() {
    let mut broker = Broker::new();
    broker.new_peer(user("alice"));
    broker.new_peer(user("alice"));
    broker.new_peer(user("alice"));
    broker.new_peer(user("bob"));
    assert!(broker.disconnect(&user("alice"), 1));
    assert_eq!(broker.sessions_of(&user("alice")), vec![0, 2]);
    assert_eq!(broker.sessions_of(&user("bob")), vec![0]);
    assert!(!broker.disconnect(&user("alice"), 1));
    assert!(!broker.disconnect(&user("alice"), 7));
    assert!(!broker.disconnect(&user("carol"), 0));
    assert_eq!(broker.sessions_of(&user("alice")), vec![0, 2]);
    assert_eq!(broker.new_peer(user("alice")), Some(3));
    assert_eq!(broker.sessions_of(&user("alice")), vec![0, 2, 3]);
}

#[test]
fn entry_is_removed_with_its_last_session() {
    let mut broker = Broker::new();
    broker.new_peer(user("alice"));
    broker.new_peer(user("bob"));
    broker.new_peer(user("alice"));
    let gone = broker.handle(BrokerEvent::<u8>::Disconnect { user: user("alice"), counter: 0 });
    assert!(matches!(gone, BrokerAction::Removed { counter: 0, existed: true, .. }));
    let gone = broker.handle(BrokerEvent::<u8>::Disconnect { user: user("alice"), counter: 1 });
    assert!(matches!(gone, BrokerAction::Removed { counter: 1, existed: true, .. }));
    assert_eq!(broker.sessions_of(&user("alice")), Vec::<u64>::new());
    let gone = broker.handle(BrokerEvent::<u8>::Disconnect { user: user("alice"), counter: 1 });
    assert!(matches!(gone, BrokerAction::Removed { existed: false, .. }));
    assert_eq!(broker.sessions_of(&user("bob")), vec![0]);
    assert_eq!(broker.new_peer(user("alice")), Some(0));
    assert_eq!(broker.new_peer(user("bob")), Some(1));
}
