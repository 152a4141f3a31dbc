//! The shared event model: users, messages, events and the frames that
//! open a connection.
use vstd::prelude::*;
use vstd::string::*;

verus! {

/// A colour a user may pick.
#[derive(Debug, Clone, Copy, PartialEq, Eq, Hash, Structural)]
pub enum Color {
    Red,
    Green,
    Yellow,
    Blue,
    Magenta,
    Cyan,
}

/// A chat user: a nickname and an optional colour.
#[derive(Debug, Clone, PartialEq, Eq, Hash)]
pub struct User {
    pub nickname: String,
    pub color: Option<Color>,
}

/// A message body.
#[derive(Debug, Clone, PartialEq, Eq, Hash)]
pub struct Message {
    pub body: String,
}

/// Whether a user started or stopped typing.
#[derive(Debug, Clone, Copy, PartialEq, Eq, Hash, Structural)]
pub enum TypingEvent {
    Start,
    Stop,
}

/// What happened.
#[derive(Debug, Clone, PartialEq, Eq, Hash)]
pub enum EventKind {
    Message(Message),
    Login,
    Logout,
    Typing(TypingEvent),
}

/// A point in time: whole seconds since the Unix epoch and the nanoseconds
/// past them.
#[derive(Debug, Clone, Copy, PartialEq, Eq, Hash, Structural)]
pub struct Timestamp {
    pub secs: i64,
    pub nanos: u32,
}

/// An event, stamped by the server when it read it.
#[derive(Debug, Clone, PartialEq, Eq, Hash)]
pub struct Event {
    pub event: EventKind,
    pub user: User,
    pub time_occurred: Timestamp,
}

/// What a logged-in sender transmits.
#[derive(Debug, Clone, PartialEq, Eq, Hash)]
pub enum SenderEvent {
    Message(Message),
    Typing(TypingEvent),
}

/// A nickname claim.
#[derive(Debug, Clone, PartialEq, Eq, Hash)]
pub struct Login {
    pub user: User,
}

/// The server's answer to a nickname claim.
#[derive(Debug, Clone, Copy, PartialEq, Eq, Hash, Structural)]
pub struct LoginResponse {
    pub nickname_taken: bool,
}

/// The first frame of every connection: which role the peer takes.
#[derive(Debug, Clone, Copy, PartialEq, Eq, Hash, Structural)]
pub enum ConnectionKind {
    Sender,
    Viewer,
}

/// A request from a sender.
#[derive(Debug, Clone, PartialEq, Eq, Hash)]
pub enum SenderRequest {
    Login(User),
    NewMessage(Message),
    Typing(TypingEvent),
}

/// The outcome of a nickname claim.
#[derive(Debug, Clone, Copy, PartialEq, Eq, Hash, Structural)]
pub enum LoginOutcome {
    Succeeded,
    Taken,
}

/// The plain view of a user: nickname characters and colour.
pub open spec fn user_view(u: User) -> (Seq<char>, Option<Color>) {
    (u.nickname@, u.color)
}

/// A copy of a user.
pub fn copy_user(u: &User) -> (r: User)
    ensures
        r == *u,
{
    User { nickname: u.nickname.clone(), color: u.color }
}

/// A copy of a message.
pub fn copy_message(m: &Message) -> (r: Message)
    ensures
        r == *m,
{
    Message { body: m.body.clone() }
}

/// A copy of an event.
pub fn copy_event(e: &Event) -> (r: Event)
    ensures
        r == *e,
{
    let event = match &e.event {
        EventKind::Message(m) => EventKind::Message(copy_message(m)),
        EventKind::Login => EventKind::Login,
        EventKind::Logout => EventKind::Logout,
        EventKind::Typing(t) => EventKind::Typing(*t),
    };
    Event { event, user: copy_user(&e.user), time_occurred: e.time_occurred }
}

impl LoginResponse {
    /// The answer for a claim that was or was not taken.
    pub fn from_outcome(outcome: LoginOutcome) -> (r: Self)
        ensures
            r.nickname_taken == (outcome == LoginOutcome::Taken),
    {
        LoginResponse { nickname_taken: matches!(outcome, LoginOutcome::Taken) }
    }

    /// The outcome that the answer reports.
    pub fn outcome(&self) -> (r: LoginOutcome)
        ensures
            r == (if self.nickname_taken { LoginOutcome::Taken } else { LoginOutcome::Succeeded }),
    {
        if self.nickname_taken {
            LoginOutcome::Taken
        } else {
            LoginOutcome::Succeeded
        }
    }
}

/// The colour a name stands for, if any.
pub open spec fn color_named(name: Seq<char>) -> Option<Color> {
    if name == "red"@ {
        Some(Color::Red)
    } else if name == "green"@ {
        Some(Color::Green)
    } else if name == "yellow"@ {
        Some(Color::Yellow)
    } else if name == "blue"@ {
        Some(Color::Blue)
    } else if name == "magenta"@ {
        Some(Color::Magenta)
    } else if name == "cyan"@ {
        Some(Color::Cyan)
    } else {
        None
    }
}

impl Color {
    /// The colour named by `name`, in lower case; none for another name.
    pub fn parse(name: &str) -> (r: Option<Color>)
        ensures
            r == color_named(name@),
    {
        let name = String::from_str(name);
        if name == String::from_str("red") {
            Some(Color::Red)
        } else if name == String::from_str("green") {
            Some(Color::Green)
        } else if name == String::from_str("yellow") {
            Some(Color::Yellow)
        } else if name == String::from_str("blue") {
            Some(Color::Blue)
        } else if name == String::from_str("magenta") {
            Some(Color::Magenta)
        } else if name == String::from_str("cyan") {
            Some(Color::Cyan)
        } else {
            None
        }
    }
}

} // verus!
