//! The server's side: its builder, the login of a new connection, the
//! decisions of a connection after login, and how a shutdown ends.
//!
//! The functions here decide; they neither read nor write. A driver reads a
//! block, hands it over as an event, and carries out the action it gets
//! back.

use vstd::prelude::*;
use std::fmt::Debug;
use crate::db::{pbkdf2_accepts, DataBase, DatabaseError, DatabaseEvent, Password, User};
use crate::logger::Logger;
use crate::stream::ReadFault;
use crate::Uninitialized;

verus! {

/// Gathers what a server needs: where to listen, the user store, and the
/// logger, which may be left out.
pub struct Builder<A, DB, L> {
    addr: A,
    db: DB,
    logger: L,
}

impl Builder<Uninitialized, Uninitialized, Uninitialized> {
    /// A builder with every slot empty.
    pub fn new() -> (builder: Self)
        ensures
            builder.parts() == (Uninitialized, Uninitialized, Uninitialized),
    {
        Self { addr: Uninitialized, db: Uninitialized, logger: Uninitialized }
    }
}

impl<A, DB, L> Builder<A, DB, L> {
    /// The address, the store and the logger, as far as they are set.
    pub closed spec fn parts(self) -> (A, DB, L) {
        (self.addr, self.db, self.logger)
    }

    /// Hands out what was gathered.
    pub fn into_parts(self) -> (parts: (A, DB, L))
        ensures
            parts == self.parts(),
    {
        (self.addr, self.db, self.logger)
    }
}

impl<DB, L> Builder<Uninitialized, DB, L> {
    /// Sets the address to listen on.
    pub fn addr<A>(self, addr: A) -> (builder: Builder<A, DB, L>)
        ensures
            builder.parts() == (addr, self.parts().1, self.parts().2),
    {
        Builder { addr, db: self.db, logger: self.logger }
    }
}

impl<A, L> Builder<A, Uninitialized, L> {
    /// Sets the user store.
    pub fn db<DB: DataBase + Send + 'static>(self, db: DB) -> (builder: Builder<A, DB, L>)
        ensures
            builder.parts() == (self.parts().0, db, self.parts().2),
    {
        Builder { addr: self.addr, db, logger: self.logger }
    }
}

impl<A, DB> Builder<A, DB, Uninitialized> {
    /// Sets the logger.
    pub fn logger<L: Logger + Send + 'static>(self, logger: L) -> (builder: Builder<A, DB, L>)
        ensures
            builder.parts() == (self.parts().0, self.parts().1, logger),
    {
        Builder { addr: self.addr, db: self.db, logger }
    }
}

/// The logger that swallows every report.
#[derive(Clone)]
pub struct Sink;

impl Logger for Sink {
    fn fatal<S: Debug>(&self, _message: S) {
    }

    fn error<S: Debug>(&self, _message: S) {
    }

    fn warn<S: Debug>(&self, _message: S) {
    }

    fn info<S: Debug>(&self, _message: S) {
    }
}

/// What can stand in a builder's logger slot: a logger, or nothing, which
/// stands for [`Sink`].
pub trait IntoLogger {
    type Logger: Logger + Send + 'static;

    fn into_logger(self) -> Self::Logger;
}

impl IntoLogger for Uninitialized {
    type Logger = Sink;

    fn into_logger(self) -> Self::Logger {
        Sink
    }
}

impl<L: Logger + Send + 'static> IntoLogger for L {
    type Logger = L;

    fn into_logger(self) -> (logger: Self::Logger)
        ensures
            logger == self,
    {
        self
    }
}

/// Why a login was refused.
#[derive(Debug, Clone, Copy, PartialEq, Eq, Structural)]
pub enum LogInError {
    /// The mode byte was neither 0 nor 1.
    First,
    /// The name was empty.
    Name,
    /// The store gave no user: the name is unknown or the password wrong
    /// (existing user), or the name is taken (new user).
    Credentials,
    /// A block came that the login did not wait for.
    Unexpected,
}

/// Where the login of a connection stands.
pub enum LoginState {
    /// Waiting for the mode byte: 1 for a new user, 0 for an existing one.
    First,
    /// Waiting for the name.
    Name { first: bool },
    /// Waiting for the password.
    Password { first: bool, name: String },
    /// Waiting for the store's answer.
    Database { first: bool },
    /// Over: the user was welcomed or refused.
    Closed,
}

/// What the login is told: the next block of the client, decoded, or the
/// store's answer.
pub enum LoginEvent {
    First([u8; 1]),
    Name(String),
    Password(Vec<u8>),
    Database(Option<User>),
}

/// What the driver is to do after an event of the login.
///
/// An `ack` flag says that the ack of the step is still owed and is written
/// first: a positive one before `Ask` and `Welcome`, a negative one before
/// `Refuse`.
pub enum LoginAction {
    /// Write a positive ack and read the next block.
    Proceed,
    /// Hand the request to the store and come back with its answer.
    Ask { ack: bool, event: DatabaseEvent },
    /// Write the positive verdict; the connection belongs to `user`.
    Welcome { ack: bool, user: User },
    /// Write the negative verdict with its reason and close.
    Refuse { ack: bool, error: LogInError },
}

/// The reason that a negative verdict carries.
pub fn refusal_reason() -> (reason: &'static str)
    ensures
        reason@ == "invalid credentials"@,
{
    "invalid credentials"
}

impl LoginState {
    /// A login that has seen nothing yet.
    pub fn new() -> (state: Self)
        ensures
            state is First,
    {
        LoginState::First
    }

    /// Takes the next event of a login and says what is to be done.
    ///
    /// The mode byte must be 0 or 1 and the name must not be empty; each is
    /// acked. The password of a new user is hashed and acked, and the store
    /// is asked to create the user. The password of an existing user goes to
    /// the store as it is, and the ack follows the store's answer. A user
    /// from the store is welcomed; no user, or an event out of turn, ends
    /// the login with a refusal.
    pub fn step(self, event: LoginEvent) -> (out: (LoginState, LoginAction))
        ensures
            match (self, event) {
                (LoginState::First, LoginEvent::First(block)) => if block@[0] == 0 || block@[0]
                    == 1 {
                    &&& out.0 matches LoginState::Name { first }
                    &&& first == (block@[0] == 1)
                    &&& out.1 is Proceed
                } else {
                    &&& out.0 is Closed
                    &&& out.1 matches LoginAction::Refuse { ack, error }
                    &&& ack
                    &&& error == LogInError::First
                },
                (LoginState::Name { first }, LoginEvent::Name(name)) => if name@.len() > 0 {
                    &&& out.0 matches LoginState::Password { first: mode, name: kept }
                    &&& mode == first
                    &&& kept@ == name@
                    &&& out.1 is Proceed
                } else {
                    &&& out.0 is Closed
                    &&& out.1 matches LoginAction::Refuse { ack, error }
                    &&& ack
                    &&& error == LogInError::Name
                },
                (LoginState::Password { first, name }, LoginEvent::Password(block)) => {
                    &&& out.0 matches LoginState::Database { first: mode }
                    &&& mode == first
                    &&& out.1 matches LoginAction::Ask { ack, event: request }
                    &&& ack == first
                    &&& request.subject() == name@
                    &&& if first {
                        &&& request matches DatabaseEvent::CreateUser { password: record, .. }
                        &&& pbkdf2_accepts(record@, block@)
                    } else {
                        &&& request matches DatabaseEvent::LogIn { password: secret, .. }
                        &&& secret@ == block@
                    }
                },
                (LoginState::Database { first }, LoginEvent::Database(answer)) => {
                    &&& out.0 is Closed
                    &&& match answer {
                        Some(user) => {
                            &&& out.1 matches LoginAction::Welcome { ack, user: named }
                            &&& ack == !first
                            &&& named == user
                        },
                        None => {
                            &&& out.1 matches LoginAction::Refuse { ack, error }
                            &&& ack == !first
                            &&& error == LogInError::Credentials
                        },
                    }
                },
                _ => {
                    &&& out.0 is Closed
                    &&& out.1 matches LoginAction::Refuse { ack, error }
                    &&& ack
                    &&& error == LogInError::Unexpected
                },
            },
    {
        match (self, event) {
            (LoginState::First, LoginEvent::First(block)) => {
                let mode = block[0];
                if mode == 0 || mode == 1 {
                    (LoginState::Name { first: mode == 1 }, LoginAction::Proceed)
                } else {
                    (LoginState::Closed, LoginAction::Refuse { ack: true, error: LogInError::First })
                }
            },
            (LoginState::Name { first }, LoginEvent::Name(name)) => {
                if name.as_str().as_bytes().len() > 0 {
                    proof {
                        lemma_empty_text(name@);
                    }
                    (LoginState::Password { first, name }, LoginAction::Proceed)
                } else {
                    proof {
                        lemma_empty_text(name@);
                    }
                    (LoginState::Closed, LoginAction::Refuse { ack: true, error: LogInError::Name })
                }
            },
            (LoginState::Password { first, name }, LoginEvent::Password(block)) => {
                let event = if first {
                    DatabaseEvent::CreateUser { name, password: Password::new(block.as_slice()) }
                } else {
                    DatabaseEvent::LogIn { name, password: block }
                };
                (LoginState::Database { first }, LoginAction::Ask { ack: first, event })
            },
            (LoginState::Database { first }, LoginEvent::Database(answer)) => {
                match answer {
                    Some(user) => (LoginState::Closed, LoginAction::Welcome { ack: !first, user }),
                    None => (
                        LoginState::Closed,
                        LoginAction::Refuse { ack: !first, error: LogInError::Credentials },
                    ),
                }
            },
            _ => (
                LoginState::Closed,
                LoginAction::Refuse { ack: true, error: LogInError::Unexpected },
            ),
        }
    }
}

/// A text is empty exactly if its UTF-8 encoding is.
pub proof fn lemma_empty_text(text: Seq<char>)
    ensures
        text.len() == 0 <==> vstd::utf8::encode_utf8(text).len() == 0,
{
    vstd::utf8::encode_utf8_decode_utf8(text);
    if text.len() == 0 {
        assert(vstd::utf8::encode_utf8(text).len() == 0);
    } else {
        vstd::utf8::encode_utf8_first_scalar(text);
    }
}

/// What the server wrote in the course of one login.
pub struct LoginTranscript {
    /// The acks, in the order in which they were written.
    pub acks: Vec<bool>,
    /// The verdict that closed the login.
    pub verdict: bool,
    /// The user that was welcomed, where the verdict was positive.
    pub user: Option<User>,
}

/// Carries out a whole login against the store, for a client that sends
/// this mode byte, name and password as far as it is asked for them.
///
/// A mode byte other than 0 and 1, and an empty name, are refused on the
/// spot. A new user is created exactly if the name is free, and the password
/// step is acked before the store is asked. An existing user is let in
/// exactly if the name is known and the password verifies, and the ack of
/// the password step says so already. Only the creation of a user changes
/// the store.
pub fn log_in<DB: DataBase>(db: &mut DB, first: [u8; 1], name: String, password: Vec<u8>) -> (done:
    LoginTranscript)
    ensures
        done.user is Some <==> done.verdict,
        done.user matches Some(user) ==> user@ == name@,
        if first@[0] != 0 && first@[0] != 1 {
            done.acks@ == seq![false] && !done.verdict
        } else if name@.len() == 0 {
            done.acks@ == seq![true, false] && !done.verdict
        } else if first@[0] == 1 {
            &&& done.acks@ == seq![true, true, true]
            &&& done.verdict == (old(db).record(name@) is None)
            &&& done.verdict ==> (final(db).record(name@) matches Some(hash) && pbkdf2_accepts(
                hash,
                password@,
            ))
        } else {
            &&& done.acks@ == seq![true, true, done.verdict]
            &&& done.verdict == (old(db).record(name@) matches Some(hash) && pbkdf2_accepts(
                hash,
                password@,
            ))
        },
        !(done.verdict && first@[0] == 1) ==> forall|n: Seq<char>|
            final(db).record(n) == old(db).record(n),
        forall|n: Seq<char>| n != name@ ==> final(db).record(n) == old(db).record(n),
{
    let mut acks: Vec<bool> = Vec::new();
    let (state, action) = LoginState::new().step(LoginEvent::First(first));
    match action {
        LoginAction::Proceed => {
            acks.push(true);
        },
        _ => {
            acks.push(false);
            assert(acks@ =~= seq![false]);
            return LoginTranscript { acks, verdict: false, user: None };
        },
    }
    let (state, action) = state.step(LoginEvent::Name(name));
    match action {
        LoginAction::Proceed => {
            acks.push(true);
        },
        _ => {
            acks.push(false);
            assert(acks@ =~= seq![true, false]);
            return LoginTranscript { acks, verdict: false, user: None };
        },
    }
    let (state, action) = state.step(LoginEvent::Password(password));
    let answer = match action {
        LoginAction::Ask { ack, event } => {
            if ack {
                acks.push(true);
            }
            match event.execute(db) {
                Ok(user) => Some(user),
                Err(_) => None,
            }
        },
        _ => None,
    };
    let (_, action) = state.step(LoginEvent::Database(answer));
    match action {
        LoginAction::Welcome { ack, user } => {
            if ack {
                acks.push(true);
            }
            assert(acks@ =~= seq![true, true, true]);
            LoginTranscript { acks, verdict: true, user: Some(user) }
        },
        LoginAction::Refuse { ack, error } => {
            if ack {
                acks.push(false);
            }
            assert(first@[0] == 1 ==> acks@ =~= seq![true, true, true]);
            assert(first@[0] == 0 ==> acks@ =~= seq![true, true, false]);
            LoginTranscript { acks, verdict: false, user: None }
        },
        _ => LoginTranscript { acks, verdict: false, user: None },
    }
}

/// Where a connection stands after login.
pub enum ConnectionState<M> {
    /// Waiting for the recipient of the next message.
    Idle,
    /// Waiting for the body of a message to `to`.
    Payload { to: String },
    /// Waiting for the store to resolve the recipient of `message`.
    Resolving { message: M },
    /// Over.
    Closed,
}

/// A connection after login: the user it belongs to, and where it stands.
pub struct Connection<M> {
    pub me: User,
    pub state: ConnectionState<M>,
}

/// What a connection is told.
pub enum ConnectionEvent<M> {
    /// The client named a recipient, or said goodbye.
    Recipient(Option<String>),
    /// The client sent the body of the message.
    Payload(M),
    /// The store resolved the recipient, or knows no such user.
    Resolved(Option<User>),
    /// The broker put a message into this session's mailbox.
    Outbound { from: User, message: M },
    /// The broker closed this session's mailbox.
    MailboxClosed,
}

/// What the driver of a connection is to do after an event.
pub enum ConnectionAction<M> {
    /// Read the body of the message.
    ReadPayload,
    /// Hand the request to the store and come back with its answer.
    Resolve(DatabaseEvent),
    /// Send the message to the broker, then read the next recipient.
    Forward { from: User, to: User, message: M },
    /// Write a negative ack, then read the next recipient.
    Nack,
    /// Write the sender's name and the message to the client.
    Write { sender: Vec<u8>, message: M },
    /// Leave the loop and deregister the session.
    Exit,
    /// Leave the loop and deregister the session: an event came out of turn.
    Abort,
}

impl<M> Connection<M> {
    /// The connection of `me`, right after login.
    pub fn new(me: User) -> (connection: Self)
        ensures
            connection.me == me,
            connection.state is Idle,
    {
        Self { me, state: ConnectionState::Idle }
    }

    /// Takes one event and says what is to be done.
    ///
    /// Inbound, a recipient is followed by the body; then the store resolves
    /// the recipient, and the message goes to the broker, or a negative ack
    /// to the client where the store knows no such user. A goodbye ends the
    /// connection. Outbound, a message from the mailbox is written to the
    /// client wherever the connection stands, and a closed mailbox ends it.
    pub fn step(self, event: ConnectionEvent<M>) -> (out: (Self, ConnectionAction<M>))
        ensures
            out.0.me == self.me,
            match (self.state, event) {
                (ConnectionState::Closed, _) => out.0.state is Closed && out.1 is Abort,
                (_, ConnectionEvent::Outbound { from, message }) => {
                    &&& out.0.state == self.state
                    &&& out.1 matches ConnectionAction::Write { sender, message: carried }
                    &&& sender@ == vstd::utf8::encode_utf8(from@)
                    &&& carried == message
                },
                (_, ConnectionEvent::MailboxClosed) => out.0.state is Closed && out.1 is Exit,
                (ConnectionState::Idle, ConnectionEvent::Recipient(None)) => out.0.state is Closed
                    && out.1 is Exit,
                (ConnectionState::Idle, ConnectionEvent::Recipient(Some(name))) => {
                    &&& out.0.state matches ConnectionState::Payload { to }
                    &&& to == name
                    &&& out.1 is ReadPayload
                },
                (ConnectionState::Payload { to }, ConnectionEvent::Payload(message)) => {
                    &&& out.0.state matches ConnectionState::Resolving { message: held }
                    &&& held == message
                    &&& out.1 matches ConnectionAction::Resolve(DatabaseEvent::GetUser { name })
                    &&& name == to
                },
                (ConnectionState::Resolving { message }, ConnectionEvent::Resolved(Some(user))) => {
                    &&& out.0.state is Idle
                    &&& out.1 matches ConnectionAction::Forward { from, to, message: carried }
                    &&& from@ == self.me@
                    &&& to == user
                    &&& carried == message
                },
                (ConnectionState::Resolving { .. }, ConnectionEvent::Resolved(None)) => {
                    out.0.state is Idle && out.1 is Nack
                },
                _ => out.0.state is Closed && out.1 is Abort,
            },
    {
        let Connection { me, state } = self;
        match (state, event) {
            (ConnectionState::Closed, _) => (
                Connection { me, state: ConnectionState::Closed },
                ConnectionAction::Abort,
            ),
            (state, ConnectionEvent::Outbound { from, message }) => (
                Connection { me, state },
                ConnectionAction::Write { sender: from.into_bytes(), message },
            ),
            (_, ConnectionEvent::MailboxClosed) => (
                Connection { me, state: ConnectionState::Closed },
                ConnectionAction::Exit,
            ),
            (ConnectionState::Idle, ConnectionEvent::Recipient(None)) => (
                Connection { me, state: ConnectionState::Closed },
                ConnectionAction::Exit,
            ),
            (ConnectionState::Idle, ConnectionEvent::Recipient(Some(name))) => (
                Connection { me, state: ConnectionState::Payload { to: name } },
                ConnectionAction::ReadPayload,
            ),
            (ConnectionState::Payload { to }, ConnectionEvent::Payload(message)) => (
                Connection { me, state: ConnectionState::Resolving { message } },
                ConnectionAction::Resolve(DatabaseEvent::GetUser { name: to }),
            ),
            (ConnectionState::Resolving { message }, ConnectionEvent::Resolved(Some(user))) => {
                let from = me.duplicate();
                (
                    Connection { me, state: ConnectionState::Idle },
                    ConnectionAction::Forward { from, to: user, message },
                )
            },
            (ConnectionState::Resolving { .. }, ConnectionEvent::Resolved(None)) => (
                Connection { me, state: ConnectionState::Idle },
                ConnectionAction::Nack,
            ),
            _ => (Connection { me, state: ConnectionState::Closed }, ConnectionAction::Abort),
        }
    }
}

/// Why a message could not be read from a client.
#[derive(Debug)]
pub enum MessageReadError {
    /// The recipient block could not be read.
    UserRead(ReadFault),
    /// The database worker is gone.
    Database,
    /// The database worker dropped the request.
    User,
    /// The body could not be read.
    MessageRead(ReadFault),
}

/// Why the loop of a connection ended with an error.
#[derive(Debug)]
pub enum ConnectionLoopError {
    Message(MessageReadError),
    /// The broker is gone.
    Send,
    /// A block could not be written.
    Write,
}

/// Why the server ended with an error.
#[derive(Debug)]
pub enum ServerError {
    Connection(ConnectionLoopError),
    /// A task panicked.
    Join,
    /// The broker's message channel closed.
    MessageReceiver,
    /// The database worker was still in use at shutdown.
    DbArcDrop,
    DatabaseLoop(DatabaseError),
    /// The listener failed.
    Io,
}

/// How one task ended: well, with its own error, or by a panic.
#[derive(Debug)]
pub enum Joined<E> {
    Done,
    Failed(E),
    Panicked,
}

/// The result of a shutdown, from how the tasks ended: the connections in
/// the order in which they were joined, then the database worker. The first
/// task that did not end well decides; with none, the shutdown succeeded.
pub fn shutdown_outcome(
    connections: Vec<Joined<ConnectionLoopError>>,
    database: Joined<DatabaseError>,
) -> (r: Result<(), ServerError>)
    ensures
        r is Ok <==> (forall|i: int| 0 <= i < connections@.len() ==> connections@[i] is Done)
            && database is Done,
        r matches Err(e) ==> {
            ||| exists|i: int|
                #![trigger connections@[i]]
                {
                    &&& 0 <= i < connections@.len()
                    &&& forall|j: int| 0 <= j < i ==> connections@[j] is Done
                    &&& match connections@[i] {
                        Joined::Done => false,
                        Joined::Failed(cause) => e matches ServerError::Connection(c) && c == cause,
                        Joined::Panicked => e is Join,
                    }
                }
            ||| {
                &&& forall|i: int| 0 <= i < connections@.len() ==> connections@[i] is Done
                &&& match database {
                    Joined::Done => false,
                    Joined::Failed(cause) => e matches ServerError::DatabaseLoop(c) && c == cause,
                    Joined::Panicked => e is Join,
                }
            }
        },
{
    let mut rest = connections;
    let ghost all = rest@;
    let ghost mut taken: int = 0;
    while rest.len() > 0
        invariant
            all == connections@,
            0 <= taken <= all.len(),
            rest@.len() + taken == all.len(),
            forall|i: int| 0 <= i < taken ==> all[i] is Done,
            forall|i: int| 0 <= i < rest@.len() ==> rest@[i] == all[taken + i],
        decreases rest@.len(),
    {
        let ghost before = rest@;
        let first = rest.remove(0);
        proof {
            assert(first == all[taken]);
            assert forall|i: int| 0 <= i < rest@.len() implies rest@[i] == all[taken + 1 + i] by {
                assert(rest@[i] == before[i + 1]);
            }
        }
        match first {
            Joined::Done => {},
            Joined::Failed(cause) => {
                return Err(ServerError::Connection(cause));
            },
            Joined::Panicked => {
                return Err(ServerError::Join);
            },
        }
        proof {
            taken = taken + 1;
        }
    }
    match database {
        Joined::Done => Ok(()),
        Joined::Failed(cause) => Err(ServerError::DatabaseLoop(cause)),
        Joined::Panicked => Err(ServerError::Join),
    }
}

} // verus!
