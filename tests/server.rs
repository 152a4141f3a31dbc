use nunitius::ids::ViewerId;
use nunitius::model::{Color, Event, EventKind, LoginResponse, Message, SenderRequest, Timestamp, TypingEvent, User};
use nunitius::protocol::{stamp, LoggingIn, LoginResult, SenderSession, SenderStep, Session};
use nunitius::server::{Hub, NicknameRegistry};

fn user(name: &str) -> User {
    User { nickname: name.to_string(), color: None }
}

fn at(secs: i64) -> Timestamp {
    Timestamp { secs, nanos: 0 }
}

#[test]
fn login_contention() {
    let mut registry = NicknameRegistry::new();

    assert!(!registry.login("alice".to_string()));
    assert!(registry.login("alice".to_string()));

    assert!(registry.logout(&"alice".to_string()));
    assert!(!registry.is_taken(&"alice".to_string()));

    assert!(!registry.login("alice".to_string()));
    assert!(registry.is_taken(&"alice".to_string()));
}

#[test]
fn logout_of_unknown_nickname_reports_it() {
    let mut registry = NicknameRegistry::new();
    assert!(!registry.login("bob".to_string()));
    assert!(!registry.logout(&"carol".to_string()));
    assert!(registry.is_taken(&"bob".to_string()));
}

#[test]
fn history_greeting() {
    let mut hub = Hub::new();
    let bob = user("bob");
    let login = stamp(EventKind::Login, bob.clone(), at(1));
    let hi = stamp(EventKind::Message(Message { body: "hi".to_string() }), bob.clone(), at(2));

    assert_eq!(hub.publish(login.clone()), Vec::<ViewerId>::new());
    assert_eq!(hub.publish(hi.clone()), Vec::<ViewerId>::new());

    let (id, greeting) = hub.join();
    assert_eq!(id, ViewerId(0));
    assert_eq!(greeting, vec![login.clone(), hi.clone()]);

    let bye = stamp(EventKind::Logout, bob, at(3));
    assert_eq!(hub.publish(bye.clone()), vec![id]);
    assert_eq!(hub.history(), vec![login, hi, bye]);
}

#[test]
fn closed_viewers_stop_receiving() {
    let mut hub = Hub::new();
    let (first, _) = hub.join();
    let (second, _) = hub.join();
    assert_eq!(second, ViewerId(1));

    let event = stamp(EventKind::Login, user("dan"), at(4));
    assert_eq!(hub.publish(event.clone()), vec![first, second]);

    hub.remove_closed(&vec![first]);
    assert_eq!(hub.publish(event), vec![second]);
    assert!(!hub.remove_viewer(first));
    assert!(hub.remove_viewer(second));
    assert!(hub.can_join());
}

#[test]
fn sender_session_steps() {
    let mut session = SenderSession::new();
    let alice = user("alice");

    assert_eq!(
        session.on_request(SenderRequest::NewMessage(Message { body: "early".to_string() })),
        SenderStep::Violation
    );
    assert_eq!(session.on_request(SenderRequest::Login(alice.clone())), SenderStep::Claim(alice.clone()));
    assert_eq!(session.on_close(), None);

    let response = session.on_claim(alice.clone(), true);
    assert!(response.nickname_taken);
    assert_eq!(session.on_close(), None);

    let response = session.on_claim(alice.clone(), false);
    assert!(!response.nickname_taken);
    assert_eq!(session.on_close(), Some(alice.clone()));

    assert_eq!(
        session.on_request(SenderRequest::Typing(TypingEvent::Start)),
        SenderStep::Emit(EventKind::Typing(TypingEvent::Start))
    );
    assert_eq!(session.on_request(SenderRequest::Login(alice)), SenderStep::Violation);
}

#[test]
fn typed_login_moves_on_only_when_free() {
    let session = Session::<LoggingIn>::new();
    let session = match session.login(LoginResponse { nickname_taken: true }) {
        LoginResult::Taken(s) => s,
        LoginResult::Succeeded(_) => panic!("a taken nickname logged in"),
    };
    match session.login(LoginResponse { nickname_taken: false }) {
        LoginResult::Succeeded(s) => {
            assert_eq!(
                s.send_message(Message { body: "hey".to_string() }),
                SenderRequest::NewMessage(Message { body: "hey".to_string() })
            );
        }
        LoginResult::Taken(_) => panic!("a free nickname was refused"),
    }
}

#[test]
fn stamp_keeps_its_parts() {
    let e: Event = stamp(EventKind::Logout, user("eve"), at(9));
    assert_eq!(e.event, EventKind::Logout);
    assert_eq!(e.user, user("eve"));
    assert_eq!(e.time_occurred, at(9));
}

#[test]
fn colors_parse_by_name() {
    assert_eq!(Color::parse("red"), Some(Color::Red));
    assert_eq!(Color::parse("cyan"), Some(Color::Cyan));
    assert_eq!(Color::parse("magenta"), Some(Color::Magenta));
    assert_eq!(Color::parse("Red"), None);
    assert_eq!(Color::parse(""), None);
}
