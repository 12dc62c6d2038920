use chat::broker::{Broker, BrokerAction, BrokerEvent};
use chat::client::{ClientAction, ClientEvent, ClientLogin, ClientLoginAction, ClientLoop};
use chat::db::{MemoryStore, User};
use chat::serialization::{Deserializable, Serializable};
use chat::server::{
    refusal_reason, Connection, ConnectionAction, ConnectionEvent, LoginAction, LoginEvent,
    LoginState,
};
use chat::stream::{BlockStream, Handshake};

/// One connection: the client's end and the server's end of the same
/// stream, after the key agreement.
struct Link {
    client: BlockStream<1024>,
    server: BlockStream<1024>,
}

fn link() -> Link {
    let a = Handshake::start();
    let b = Handshake::start();
    let (a_public, b_public) = (a.public_key(), b.public_key());
    Link { client: BlockStream::new(a, b_public), server: BlockStream::new(b, a_public) }
}

fn carry<B: Serializable + ?Sized, T: Deserializable>(
    from: &BlockStream<1024>,
    to: &BlockStream<1024>,
    block: &B,
) -> T {
    let wire = from.write_block(block).unwrap();
    assert_eq!(wire.len() % (12 + 1024 + 16), 0);
    let (value, used) = to.read_block::<T>(&wire).ok().unwrap();
    assert_eq!(used, wire.len());
    value
}

/// Runs a login over the link. Returns what the client saw of the server's
/// answers, and the user on the server's side.
fn login(
    link: &Link,
    store: &mut MemoryStore,
    name: &str,
    password: &[u8],
    first: bool,
) -> (Vec<bool>, Option<User>) {
    let mut seen = Vec::new();
    let mut server = LoginState::new();
    let (mut client, mut block) =
        ClientLogin::start(String::from(name), password.to_vec(), first);
    loop {
        let event = match server {
            LoginState::First => LoginEvent::First(carry(&link.client, &link.server, &block)),
            LoginState::Name { .. } => LoginEvent::Name(carry(&link.client, &link.server, &block)),
            LoginState::Password { .. } => {
                LoginEvent::Password(carry(&link.client, &link.server, &block))
            }
            _ => panic!("the login waits for a block"),
        };
        let (next, mut action) = server.step(event);
        server = next;
        let mut acks: Vec<Result<(), ()>> = Vec::new();
        if let LoginAction::Ask { ack, event } = action {
            if ack {
                acks.push(Ok(()));
            }
            let answer = event.execute(store).ok();
            let (next, after) = server.step(LoginEvent::Database(answer));
            server = next;
            action = after;
        }
        let (verdict, user): (Option<Result<(), &'static str>>, Option<User>) = match action {
            LoginAction::Proceed => {
                acks.push(Ok(()));
                (None, None)
            }
            LoginAction::Welcome { ack, user } => {
                if ack {
                    acks.push(Ok(()));
                }
                (Some(Ok(())), Some(user))
            }
            LoginAction::Refuse { ack, .. } => {
                if ack {
                    acks.push(Err(()));
                }
                (Some(Err(refusal_reason())), None)
            }
            LoginAction::Ask { .. } => panic!("the store was asked already"),
        };
        for ack in acks {
            let got: Result<(), ()> = carry(&link.server, &link.client, &ack);
            seen.push(got.is_ok());
            let (next, action) = client.reply(got.is_ok());
            client = next;
            match action {
                ClientLoginAction::Send(next_block) => block = next_block,
                ClientLoginAction::Await => {}
                ClientLoginAction::Abort(_) => return (seen, user),
                ClientLoginAction::Ready => panic!("the verdict is still to come"),
            }
        }
        if let Some(verdict) = verdict {
            let got: Result<(), String> = carry(&link.server, &link.client, &verdict);
            if let Err(reason) = &got {
                assert_eq!(reason, "invalid credentials");
            }
            seen.push(got.is_ok());
            let (_, action) = client.reply(got.is_ok());
            assert_eq!(matches!(action, ClientLoginAction::Ready), user.is_some());
            return (seen, user);
        }
    }
}

/// What a session's client has handed to its writer.
struct Session {
    link: Link,
    user: User,
    counter: u64,
    heard: Vec<(String, String)>,
}

fn open_session(
    store: &mut MemoryStore,
    broker: &mut Broker,
    name: &str,
    password: &[u8],
    first: bool,
) -> Session {
    let link = link();
    let (seen, user) = login(&link, store, name, password, first);
    assert_eq!(seen, vec![true, true, true, true]);
    let user = user.unwrap();
    let counter = match broker.handle(BrokerEvent::<String>::NewPeer(user.duplicate())) {
        BrokerAction::Registered { counter, .. } => counter,
        _ => panic!("the session is registered"),
    };
    Session { link, user, counter, heard: Vec::new() }
}

/// The client of `sessions[from]` sends a message. Returns whether the
/// server forwarded it; if not, it sent a negative ack.
fn send(
    store: &mut MemoryStore,
    broker: &mut Broker,
    sessions: &mut Vec<Session>,
    from: usize,
    to: &str,
    text: &str,
) -> bool {
    let event = ClientEvent::Outbound { to: String::from(to), message: String::from(text) };
    let (_, action) = ClientLoop::new().step(event);
    let (recipient, message) = match action {
        ClientAction::Send { to, message } => (to, message),
        _ => panic!("the message is sent"),
    };
    let link = &sessions[from].link;
    let recipient: Option<String> = carry(&link.client, &link.server, &recipient);
    let connection = Connection::<String>::new(sessions[from].user.duplicate());
    let (connection, action) = connection.step(ConnectionEvent::Recipient(recipient));
    assert!(matches!(action, ConnectionAction::ReadPayload));
    let message: String = carry(&link.client, &link.server, &message);
    let (connection, action) = connection.step(ConnectionEvent::Payload(message));
    let answer = match action {
        ConnectionAction::Resolve(request) => request.execute(store).ok(),
        _ => panic!("the recipient is resolved"),
    };
    let (_, action) = connection.step(ConnectionEvent::Resolved(answer));
    let event = match action {
        ConnectionAction::Forward { from, to, message } => {
            BrokerEvent::Message { from, to, message }
        }
        ConnectionAction::Nack => {
            let negative: Result<(), ()> = Err(());
            let got: Result<(), ()> = carry(&link.server, &link.client, &negative);
            assert_eq!(got, Err(()));
            return false;
        }
        _ => panic!("the message is forwarded or refused"),
    };
    let (to, counters, from, message) = match broker.handle(event) {
        BrokerAction::Deliver { to, sessions, from, message } => (to, sessions, from, message),
        _ => panic!("the message is delivered"),
    };
    for counter in counters {
        let session = sessions
            .iter_mut()
            .find(|s| s.user == to && s.counter == counter)
            .expect("a live session");
        let connection = Connection::<String>::new(session.user.duplicate());
        let outbound = ConnectionEvent::Outbound { from: from.duplicate(), message: message.clone() };
        let (sender, body) = match connection.step(outbound).1 {
            ConnectionAction::Write { sender, message } => (sender, message),
            _ => panic!("the message is written"),
        };
        let sender: String = carry(&session.link.server, &session.link.client, &sender);
        let (state, action) = ClientLoop::new().step::<String>(ClientEvent::Sender(sender));
        assert!(matches!(action, ClientAction::ReadBody));
        let body: String = carry(&session.link.server, &session.link.client, &body);
        match state.step(ClientEvent::Body(body)).1 {
            ClientAction::Deliver { from, message } => session.heard.push((from, message)),
            _ => panic!("the message is handed to the writer"),
        }
    }
    true
}

fn heard(pairs: &[(&str, &str)]) -> Vec<(String, String)> {
    pairs.iter().map(|(from, text)| (String::from(*from), String::from(*text))).collect()
}

#[test]
fn login_answers_are_those_of_the_protocol() {
    let mut store = MemoryStore::new();
    let (seen, user) = login(&link(), &mut store, "alice", b"pw", false);
    assert_eq!(seen, vec![true, true, false]);
    assert_eq!(user, None);
    let (seen, user) = login(&link(), &mut store, "alice", b"pw", true);
    assert_eq!(seen, vec![true, true, true, true]);
    assert_eq!(user, Some(User::new(String::from("alice"))));
    let (seen, user) = login(&link(), &mut store, "alice", b"pw", true);
    assert_eq!(seen, vec![true, true, true, false]);
    assert_eq!(user, None);
    let (seen, user) = login(&link(), &mut store, "alice", b"pw", false);
    assert_eq!(seen, vec![true, true, true, true]);
    assert_eq!(user, Some(User::new(String::from("alice"))));
    let (seen, _) = login(&link(), &mut store, "", b"pw", false);
    assert_eq!(seen, vec![true, false]);
}

#[test]
fn single_round_trip() {
    let mut store = MemoryStore::new();
    let mut broker = Broker::new();
    let (_, bob) = login(&link(), &mut store, "bob", b"pw", true);
    assert!(bob.is_some());
    let alice = open_session(&mut store, &mut broker, "alice", b"pw", true);
    let bob = open_session(&mut store, &mut broker, "bob", b"pw", false);
    let mut sessions = vec![alice, bob];
    assert!(send(&mut store, &mut broker, &mut sessions, 0, "bob", "hi"));
    assert_eq!(sessions[1].heard, heard(&[("alice", "hi")]));
    assert_eq!(sessions[0].heard, heard(&[]));
}

#[test]
fn concurrent_sessions_of_one_user_all_hear_the_message() {
    let mut store = MemoryStore::new();
    let mut broker = Broker::new();
    let one = open_session(&mut store, &mut broker, "alice", b"pw", true);
    let two = open_session(&mut store, &mut broker, "alice", b"pw", false);
    let bob = open_session(&mut store, &mut broker, "bob", b"pw", true);
    assert_eq!((one.counter, two.counter, bob.counter), (0, 1, 0));
    let mut sessions = vec![one, two, bob];
    assert!(send(&mut store, &mut broker, &mut sessions, 2, "alice", "x"));
    assert_eq!(sessions[0].heard, heard(&[("bob", "x")]));
    assert_eq!(sessions[1].heard, heard(&[("bob", "x")]));
    assert_eq!(sessions[2].heard, heard(&[]));
}

#[test]
fn unknown_recipient_is_refused_and_the_client_may_send_again() {
    let mut store = MemoryStore::new();
    let mut broker = Broker::new();
    let alice = open_session(&mut store, &mut broker, "alice", b"pw", true);
    let bob = open_session(&mut store, &mut broker, "bob", b"pw", true);
    let mut sessions = vec![alice, bob];
    assert!(!send(&mut store, &mut broker, &mut sessions, 0, "ghost", "hello"));
    assert!(send(&mut store, &mut broker, &mut sessions, 0, "bob", "hello"));
    assert_eq!(sessions[1].heard, heard(&[("alice", "hello")]));
}

#[test]
fn messages_of_one_sender_arrive_in_order() {
    let mut store = MemoryStore::new();
    let mut broker = Broker::new();
    let alice = open_session(&mut store, &mut broker, "alice", b"pw", true);
    let bob = open_session(&mut store, &mut broker, "bob", b"pw", true);
    let mut sessions = vec![alice, bob];
    let long = "a message that is longer than one frame ".repeat(60);
    assert!(send(&mut store, &mut broker, &mut sessions, 0, "bob", "one"));
    assert!(send(&mut store, &mut broker, &mut sessions, 0, "bob", &long));
    assert!(send(&mut store, &mut broker, &mut sessions, 0, "bob", "three"));
    assert_eq!(sessions[1].heard, heard(&[("alice", "one"), ("alice", &long), ("alice", "three")]));
}

#[test]
fn graceful_exit_removes_the_session() {
    let mut store = MemoryStore::new();
    let mut broker = Broker::new();
    let alice = open_session(&mut store, &mut broker, "alice", b"pw", true);
    let (_, action) = ClientLoop::new().step::<String>(ClientEvent::MailboxClosed);
    assert!(matches!(action, ClientAction::Goodbye));
    let recipient: Option<String> =
        carry(&alice.link.client, &alice.link.server, &chat::client::goodbye());
    assert_eq!(recipient, None);
    let connection = Connection::<String>::new(alice.user.duplicate());
    let (_, action) = connection.step(ConnectionEvent::Recipient(recipient));
    assert!(matches!(action, ConnectionAction::Exit));
    let event = BrokerEvent::<String>::Disconnect { user: alice.user.duplicate(), counter: 0 };
    assert!(matches!(broker.handle(event), BrokerAction::Removed { existed: true, .. }));
    assert!(broker.sessions_of(&alice.user).is_empty());
}
