//! The connection protocols as typed phases, and the decisions the server
//! takes for one sender's connection.
//!
//! A client's connection carries its phase in its type: a value of the
//! next phase is had only from the transition out of the one before, which
//! consumes it.
use crate::model::{copy_user, Event, EventKind, LoginOutcome, LoginResponse, Message, SenderRequest, Timestamp, TypingEvent, User};
use core::marker::PhantomData;
use vstd::prelude::*;

verus! {

/// A phase of a connection. Phase types are markers with no public
/// constructor.
pub trait State {}

/// A sender that has yet to claim a nickname.
#[derive(Debug)]
pub struct LoggingIn(());

/// A sender that holds a nickname and may send messages.
#[derive(Debug)]
pub struct SendingMessages(());

/// The server's side of a viewer before the history greeting.
#[derive(Debug)]
pub struct SendingPastEvents(());

/// The server's side of a viewer after the history greeting.
#[derive(Debug)]
pub struct SendingEvents(());

/// The server's side of a sender after a successful login.
#[derive(Debug)]
pub struct ReceivingEvents(());

/// The result of a loop that only ends by failing: nothing outside this
/// module can make one.
#[derive(Debug)]
pub struct Never(());

impl State for LoggingIn {}

impl State for SendingMessages {}

impl State for SendingPastEvents {}

impl State for SendingEvents {}

impl State for ReceivingEvents {}

/// A connection in phase `S`.
#[derive(Debug)]
pub struct Session<S: State> {
    _state: PhantomData<S>,
}

/// The outcome of a nickname claim: the connection moves on to sending
/// messages, or stays logging in so that the client can try again.
#[derive(Debug)]
pub enum LoginResult {
    Succeeded(Session<SendingMessages>),
    Taken(Session<LoggingIn>),
}

impl LoginResult {
    /// Whether the claim succeeded.
    pub open spec fn is_success(&self) -> bool {
        self is Succeeded
    }
}

impl Session<LoggingIn> {
    /// A sender connection, which starts logging in.
    pub fn new() -> (r: Self) {
        Session { _state: PhantomData }
    }

    /// The request that claims `user`'s nickname.
    pub fn login_request(&self, user: User) -> (r: SenderRequest)
        ensures
            r == SenderRequest::Login(user),
    {
        SenderRequest::Login(user)
    }

    /// Moves on according to the server's answer to a claim.
    pub fn login(self, response: LoginResponse) -> (r: LoginResult)
        ensures
            r.is_success() == !response.nickname_taken,
    {
        if response.nickname_taken {
            LoginResult::Taken(self)
        } else {
            LoginResult::Succeeded(Session { _state: PhantomData })
        }
    }
}

impl Session<SendingMessages> {
    /// The request that sends `message`.
    pub fn send_message(&self, message: Message) -> (r: SenderRequest)
        ensures
            r == SenderRequest::NewMessage(message),
    {
        SenderRequest::NewMessage(message)
    }

    /// The request that reports typing.
    pub fn send_typing(&self, typing: TypingEvent) -> (r: SenderRequest)
        ensures
            r == SenderRequest::Typing(typing),
    {
        SenderRequest::Typing(typing)
    }
}

impl Session<SendingPastEvents> {
    /// A viewer connection on the server, which first sends the history.
    pub fn new() -> (r: Self) {
        Session { _state: PhantomData }
    }

    /// Sends the history greeting and moves on to sending events.
    pub fn send_past_events(self) -> (r: Session<SendingEvents>) {
        Session { _state: PhantomData }
    }
}

/// Where the server stands with one sender.
#[derive(Debug)]
pub enum SenderSession {
    LoggingIn,
    LoggedIn(User),
}

/// What the server does with one request of a sender.
#[derive(Debug, PartialEq, Eq)]
pub enum SenderStep {
    /// Ask the registry for this user's nickname.
    Claim(User),
    /// Publish an event of this kind by the logged-in user.
    Emit(EventKind),
    /// The request does not belong in this phase.
    Violation,
}

impl SenderSession {
    /// A sender that has just connected.
    pub fn new() -> (r: Self)
        ensures
            r is LoggingIn,
    {
        SenderSession::LoggingIn
    }

    /// What to do with `request`.
    pub fn on_request(&self, request: SenderRequest) -> (r: SenderStep)
        ensures
            match (self, request) {
                (SenderSession::LoggingIn, SenderRequest::Login(u)) => r == SenderStep::Claim(u),
                (SenderSession::LoggedIn(_), SenderRequest::NewMessage(m)) => r == SenderStep::Emit(EventKind::Message(m)),
                (SenderSession::LoggedIn(_), SenderRequest::Typing(t)) => r == SenderStep::Emit(EventKind::Typing(t)),
                _ => r == SenderStep::Violation,
            },
    {
        match self {
            SenderSession::LoggingIn => match request {
                SenderRequest::Login(u) => SenderStep::Claim(u),
                _ => SenderStep::Violation,
            },
            SenderSession::LoggedIn(_) => match request {
                SenderRequest::NewMessage(m) => SenderStep::Emit(EventKind::Message(m)),
                SenderRequest::Typing(t) => SenderStep::Emit(EventKind::Typing(t)),
                SenderRequest::Login(_) => SenderStep::Violation,
            },
        }
    }

    /// Takes the registry's answer to a claim for `user`: logs in when the
    /// nickname was free, and returns the answer for the client.
    pub fn on_claim(&mut self, user: User, taken: bool) -> (r: LoginResponse)
        requires
            *old(self) is LoggingIn,
        ensures
            r.nickname_taken == taken,
            taken ==> *final(self) is LoggingIn,
            !taken ==> *final(self) == SenderSession::LoggedIn(user),
    {
        if !taken {
            *self = SenderSession::LoggedIn(user);
        }
        LoginResponse::from_outcome(if taken { LoginOutcome::Taken } else { LoginOutcome::Succeeded })
    }

    /// The user whose nickname to release when the connection closes.
    pub fn on_close(&self) -> (r: Option<User>)
        ensures
            match self {
                SenderSession::LoggingIn => r.is_none(),
                SenderSession::LoggedIn(u) => r == Some(*u),
            },
    {
        match self {
            SenderSession::LoggingIn => None,
            SenderSession::LoggedIn(u) => Some(copy_user(u)),
        }
    }
}

/// The event that `user` caused, stamped at `time`.
pub fn stamp(kind: EventKind, user: User, time: Timestamp) -> (r: Event)
    ensures
        r == (Event { event: kind, user, time_occurred: time }),
{
    Event { event: kind, user, time_occurred: time }
}

} // verus!
