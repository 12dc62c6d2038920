//! The client's side: its builder, its part of the login, and the decisions
//! of its loop after login.

use vstd::prelude::*;
use std::marker::PhantomData;
use crate::stream::ReadFault;
use crate::Uninitialized;

verus! {

/// Gathers what a client needs: where to connect, the name and password to
/// log in with, whether the user is new, and what to do with the messages
/// that arrive.
pub struct Builder<A, N, P, F, W, M> {
    addr: A,
    name: N,
    password: P,
    first: F,
    writer: W,
    _marker: PhantomData<M>,
}

impl Builder<
    Uninitialized,
    Uninitialized,
    Uninitialized,
    Uninitialized,
    Uninitialized,
    Uninitialized,
> {
    /// A builder with every slot empty, for messages of type `M`.
    pub fn new<M>() -> (builder: Builder<
        Uninitialized,
        Uninitialized,
        Uninitialized,
        Uninitialized,
        Uninitialized,
        M,
    >)
        ensures
            builder.parts() == (
                Uninitialized,
                Uninitialized,
                Uninitialized,
                Uninitialized,
                Uninitialized,
            ),
    {
        Builder {
            addr: Uninitialized,
            name: Uninitialized,
            password: Uninitialized,
            first: Uninitialized,
            writer: Uninitialized,
            _marker: PhantomData,
        }
    }
}

impl<A, N, P, F, W, M> Builder<A, N, P, F, W, M> {
    /// The address, name, password, mode and writer, as far as they are set.
    pub closed spec fn parts(self) -> (A, N, P, F, W) {
        (self.addr, self.name, self.password, self.first, self.writer)
    }

    /// Hands out what was gathered.
    pub fn into_parts(self) -> (parts: (A, N, P, F, W))
        ensures
            parts == self.parts(),
    {
        (self.addr, self.name, self.password, self.first, self.writer)
    }
}

impl<N, P, F, W, M> Builder<Uninitialized, N, P, F, W, M> {
    /// Sets the address to connect to.
    pub fn addr<A>(self, addr: A) -> (builder: Builder<A, N, P, F, W, M>)
        ensures
            builder.parts() == (
                addr,
                self.parts().1,
                self.parts().2,
                self.parts().3,
                self.parts().4,
            ),
    {
        Builder {
            addr,
            name: self.name,
            password: self.password,
            first: self.first,
            writer: self.writer,
            _marker: self._marker,
        }
    }
}

impl<A, P, F, W, M> Builder<A, Uninitialized, P, F, W, M> {
    /// Sets the name to log in with.
    pub fn name(self, name: String) -> (builder: Builder<A, String, P, F, W, M>)
        ensures
            builder.parts() == (
                self.parts().0,
                name,
                self.parts().2,
                self.parts().3,
                self.parts().4,
            ),
    {
        Builder {
            addr: self.addr,
            name,
            password: self.password,
            first: self.first,
            writer: self.writer,
            _marker: self._marker,
        }
    }
}

impl<A, N, F, W, M> Builder<A, N, Uninitialized, F, W, M> {
    /// Sets the password to log in with.
    pub fn password(self, password: Vec<u8>) -> (builder: Builder<A, N, Vec<u8>, F, W, M>)
        ensures
            builder.parts() == (
                self.parts().0,
                self.parts().1,
                password,
                self.parts().3,
                self.parts().4,
            ),
    {
        Builder {
            addr: self.addr,
            name: self.name,
            password,
            first: self.first,
            writer: self.writer,
            _marker: self._marker,
        }
    }
}

impl<A, N, P, W, M> Builder<A, N, P, Uninitialized, W, M> {
    /// Says whether the user is to be created (`true`) or exists already.
    pub fn first(self, first: bool) -> (builder: Builder<A, N, P, bool, W, M>)
        ensures
            builder.parts() == (
                self.parts().0,
                self.parts().1,
                self.parts().2,
                first,
                self.parts().4,
            ),
    {
        Builder {
            addr: self.addr,
            name: self.name,
            password: self.password,
            first,
            writer: self.writer,
            _marker: self._marker,
        }
    }

    /// Says that the user exists already.
    pub fn not_first(self) -> (builder: Builder<A, N, P, bool, W, M>)
        ensures
            builder.parts() == (
                self.parts().0,
                self.parts().1,
                self.parts().2,
                false,
                self.parts().4,
            ),
    {
        Builder {
            addr: self.addr,
            name: self.name,
            password: self.password,
            first: false,
            writer: self.writer,
            _marker: self._marker,
        }
    }
}

impl<A, N, P, F, M> Builder<A, N, P, F, Uninitialized, M> {
    /// Sets what is called with the sender and the body of each message
    /// that arrives.
    pub fn writer<W: FnMut(String, M) + Send + 'static>(self, writer: W) -> (builder: Builder<
        A,
        N,
        P,
        F,
        W,
        M,
    >)
        ensures
            builder.parts() == (
                self.parts().0,
                self.parts().1,
                self.parts().2,
                self.parts().3,
                writer,
            ),
    {
        Builder {
            addr: self.addr,
            name: self.name,
            password: self.password,
            first: self.first,
            writer,
            _marker: self._marker,
        }
    }
}

/// Why a client could not log in.
#[derive(Debug, Clone, Copy, PartialEq, Eq, Structural)]
pub enum InitError {
    /// A block could not be written.
    Write,
    /// An answer could not be read.
    Read(ReadFault),
    /// The server refused the login.
    LogIn,
    /// The connection could not be made.
    Io,
}

/// Why the loop of a client ended with an error.
#[derive(Debug, Clone, Copy, PartialEq, Eq, Structural)]
pub enum LoopError {
    /// The sender of a message could not be read.
    ReadUser(ReadFault),
    /// The body of a message could not be read.
    ReadMessage(ReadFault),
    /// A block could not be written.
    Write,
}

/// Where the client's login stands: which answer it waits for, with what is
/// still to be sent.
pub enum ClientLogin {
    /// The mode byte is out; the ack for it is awaited.
    First { name: String, password: Vec<u8> },
    /// The name is out.
    Name { password: Vec<u8> },
    /// The password is out.
    Password,
    /// The verdict is awaited.
    Verdict,
    /// Over.
    Closed,
}

/// What the client is to do after an answer of the server.
pub enum ClientLoginAction {
    /// Write this block, then read the ack for it.
    Send(Vec<u8>),
    /// Read the verdict.
    Await,
    /// The login is complete.
    Ready,
    /// Give up.
    Abort(InitError),
}

impl ClientLogin {
    /// Begins a login. Returns the first block to write: the mode byte, 1
    /// for a new user and 0 for an existing one.
    pub fn start(name: String, password: Vec<u8>, first: bool) -> (out: (Self, Vec<u8>))
        ensures
            out.0 matches ClientLogin::First { name: kept, password: secret } && kept == name
                && secret == password,
            out.1@ == seq![if first { 1u8 } else { 0u8 }],
    {
        let mut block: Vec<u8> = Vec::new();
        block.push(if first { 1 } else { 0 });
        (ClientLogin::First { name, password }, block)
    }

    /// Takes the server's answer to the last step: `true` for a positive ack
    /// or verdict. After each positive ack the next of name and password is
    /// sent, then the verdict is awaited. A negative answer ends the login.
    pub fn reply(self, ok: bool) -> (out: (Self, ClientLoginAction))
        ensures
            match self {
                ClientLogin::First { name, password } => if ok {
                    &&& out.0 matches ClientLogin::Name { password: secret }
                    &&& secret == password
                    &&& out.1 matches ClientLoginAction::Send(block)
                    &&& block@ == vstd::utf8::encode_utf8(name@)
                } else {
                    out.0 is Closed && out.1 == ClientLoginAction::Abort(InitError::LogIn)
                },
                ClientLogin::Name { password } => if ok {
                    &&& out.0 is Password
                    &&& out.1 matches ClientLoginAction::Send(block)
                    &&& block == password
                } else {
                    out.0 is Closed && out.1 == ClientLoginAction::Abort(InitError::LogIn)
                },
                ClientLogin::Password => if ok {
                    out.0 is Verdict && out.1 is Await
                } else {
                    out.0 is Closed && out.1 == ClientLoginAction::Abort(InitError::LogIn)
                },
                ClientLogin::Verdict => if ok {
                    out.0 is Closed && out.1 is Ready
                } else {
                    out.0 is Closed && out.1 == ClientLoginAction::Abort(InitError::LogIn)
                },
                ClientLogin::Closed => out.0 is Closed && out.1 == ClientLoginAction::Abort(
                    InitError::LogIn,
                ),
            },
    {
        if !ok {
            return (ClientLogin::Closed, ClientLoginAction::Abort(InitError::LogIn));
        }
        match self {
            ClientLogin::First { name, password } => (
                ClientLogin::Name { password },
                ClientLoginAction::Send(name.into_bytes()),
            ),
            ClientLogin::Name { password } => (
                ClientLogin::Password,
                ClientLoginAction::Send(password),
            ),
            ClientLogin::Password => (ClientLogin::Verdict, ClientLoginAction::Await),
            ClientLogin::Verdict => (ClientLogin::Closed, ClientLoginAction::Ready),
            ClientLogin::Closed => (
                ClientLogin::Closed,
                ClientLoginAction::Abort(InitError::LogIn),
            ),
        }
    }
}

/// Where the client's loop stands.
pub enum ClientLoop {
    /// Waiting for the sender of the next message.
    Idle,
    /// Waiting for the body of a message from `from`.
    Body { from: String },
    /// Over.
    Closed,
}

/// What the client's loop is told.
pub enum ClientEvent<M> {
    /// The server named the sender of a message.
    Sender(String),
    /// The server sent the body of the message.
    Body(M),
    /// The user wants to send a message.
    Outbound { to: String, message: M },
    /// The user has closed the mailbox.
    MailboxClosed,
}

/// What the driver of the client's loop is to do after an event.
pub enum ClientAction<M> {
    /// Read the body of the message.
    ReadBody,
    /// Hand sender and body to the writer.
    Deliver { from: String, message: M },
    /// Write the recipient, then the message.
    Send { to: Option<String>, message: M },
    /// Write the goodbye, an absent recipient, and leave the loop.
    Goodbye,
    /// Leave the loop: an event came out of turn.
    Abort,
}

/// The goodbye that ends a session: an absent recipient.
pub fn goodbye() -> (recipient: Option<String>)
    ensures
        recipient is None,
{
    None
}

impl ClientLoop {
    /// A loop right after login.
    pub fn new() -> (state: Self)
        ensures
            state is Idle,
    {
        ClientLoop::Idle
    }

    /// Takes one event and says what is to be done.
    ///
    /// Inbound, a sender is followed by the body, and both go to the writer.
    /// Outbound, a message is written behind its recipient wherever the loop
    /// stands, and a closed mailbox ends the loop with a goodbye.
    pub fn step<M>(self, event: ClientEvent<M>) -> (out: (Self, ClientAction<M>))
        ensures
            match (self, event) {
                (ClientLoop::Closed, _) => out.0 is Closed && out.1 is Abort,
                (_, ClientEvent::Outbound { to, message }) => {
                    &&& out.0 == self
                    &&& out.1 matches ClientAction::Send { to: Some(recipient), message: carried }
                    &&& recipient == to
                    &&& carried == message
                },
                (_, ClientEvent::MailboxClosed) => out.0 is Closed && out.1 is Goodbye,
                (ClientLoop::Idle, ClientEvent::Sender(name)) => {
                    &&& out.0 matches ClientLoop::Body { from }
                    &&& from == name
                    &&& out.1 is ReadBody
                },
                (ClientLoop::Body { from }, ClientEvent::Body(message)) => {
                    &&& out.0 is Idle
                    &&& out.1 matches ClientAction::Deliver { from: sender, message: carried }
                    &&& sender == from
                    &&& carried == message
                },
                _ => out.0 is Closed && out.1 is Abort,
            },
    {
        match (self, event) {
            (ClientLoop::Closed, _) => (ClientLoop::Closed, ClientAction::Abort),
            (state, ClientEvent::Outbound { to, message }) => (
                state,
                ClientAction::Send { to: Some(to), message },
            ),
            (_, ClientEvent::MailboxClosed) => (ClientLoop::Closed, ClientAction::Goodbye),
            (ClientLoop::Idle, ClientEvent::Sender(name)) => (
                ClientLoop::Body { from: name },
                ClientAction::ReadBody,
            ),
            (ClientLoop::Body { from }, ClientEvent::Body(message)) => (
                ClientLoop::Idle,
                ClientAction::Deliver { from, message },
            ),
            _ => (ClientLoop::Closed, ClientAction::Abort),
        }
    }
}

} // verus!
