//! What the actor asks of its host, and what the host answers.
//!
//! Both types take the texts and the byte strings as parameters: `String` and
//! `Vec<u8>` when running, sequences in specifications.
use vstd::prelude::*;

verus! {

/// Something for the host to do.
pub enum Action<T, B> {
    /// Receive up to that many bytes from a connection.
    Receive { connection: T, max_bytes: u32 },
    /// Open a connection.
    Connect { address: T },
    /// Send bytes over a connection.
    Send { connection: T, data: B },
    /// Close a connection.
    Close { connection: T },
    /// Write a line to the log.
    Log { message: T },
    /// Nothing: the connection has been dealt with.
    Stop,
}

/// How an action came out. An error carries what the host says of it.
pub enum Event<T, B> {
    /// Bytes were received; none where the peer has closed.
    Received(Result<B, T>),
    /// A connection was opened, under the given id.
    Connected(Result<T, T>),
    /// Bytes were sent, that many.
    Sent(Result<u64, T>),
    /// A connection was closed.
    Closed(Result<(), T>),
    /// A line was written to the log.
    Logged,
}

/// An action in specifications.
pub type ActionView = Action<Seq<char>, Seq<u8>>;

/// An event in specifications.
pub type EventView = Event<Seq<char>, Seq<u8>>;

impl View for Action<String, Vec<u8>> {
    type V = ActionView;

    open spec fn view(&self) -> ActionView {
        match *self {
            Action::Receive { connection, max_bytes } => Action::Receive {
                connection: connection@,
                max_bytes,
            },
            Action::Connect { address } => Action::Connect { address: address@ },
            Action::Send { connection, data } => Action::Send {
                connection: connection@,
                data: data@,
            },
            Action::Close { connection } => Action::Close { connection: connection@ },
            Action::Log { message } => Action::Log { message: message@ },
            Action::Stop => Action::Stop,
        }
    }
}

impl View for Event<String, Vec<u8>> {
    type V = EventView;

    open spec fn view(&self) -> EventView {
        match *self {
            Event::Received(Ok(bytes)) => Event::Received(Ok(bytes@)),
            Event::Received(Err(message)) => Event::Received(Err(message@)),
            Event::Connected(Ok(connection)) => Event::Connected(Ok(connection@)),
            Event::Connected(Err(message)) => Event::Connected(Err(message@)),
            Event::Sent(Ok(n)) => Event::Sent(Ok(n)),
            Event::Sent(Err(message)) => Event::Sent(Err(message@)),
            Event::Closed(Ok(())) => Event::Closed(Ok(())),
            Event::Closed(Err(message)) => Event::Closed(Err(message@)),
            Event::Logged => Event::Logged,
        }
    }
}

/// Whether the event is an outcome of the action.
pub open spec fn answers(action: ActionView, event: EventView) -> bool {
    match action {
        Action::Receive { .. } => event is Received,
        Action::Connect { .. } => event is Connected,
        Action::Send { .. } => event is Sent,
        Action::Close { .. } => event is Closed,
        Action::Log { .. } => event is Logged,
        Action::Stop => false,
    }
}

} // verus!
