use nunitius::model::{Color, Event as ServerEvent, EventKind as ServerEventKind, Message, Timestamp, TypingEvent, User};
use nunitius::viewer::{Event, EventKind, Timeline};

fn event(name: &str) -> Event {
    Event {
        event: EventKind::Login,
        user: User { nickname: name.to_string(), color: None },
        time_occurred: Timestamp { secs: 1_600_000_000, nanos: 0 },
    }
}

#[test]
fn empty_has_no_visible_events() {
    let timeline = Timeline::new(10);
    assert_eq!(timeline.visible_events(), []);
}

#[test]
fn added_events_are_visible() {
    let mut timeline = Timeline::new(10);

    timeline.add_event(event("EVENT_1"));
    timeline.add_event(event("EVENT_2"));

    assert_eq!(timeline.visible_events(), [event("EVENT_1"), event("EVENT_2")]);
}

#[test]
fn old_events_above_height_are_not_visible() {
    let mut timeline = Timeline::new(2);

    timeline.add_event(event("EVENT_1"));
    timeline.add_event(event("EVENT_2"));
    timeline.add_event(event("EVENT_3"));

    assert_eq!(timeline.visible_events(), [event("EVENT_2"), event("EVENT_3")]);
}

#[test]
fn moving_up_reveals_old_events() {
    let mut timeline = Timeline::new(2);

    timeline.add_event(event("EVENT_1"));
    timeline.add_event(event("EVENT_2"));
    timeline.add_event(event("EVENT_3"));

    timeline.move_up();

    assert_eq!(timeline.visible_events(), [event("EVENT_1"), event("EVENT_2")]);
}

#[test]
fn moving_up_past_top_does_nothing() {
    let mut timeline = Timeline::new(2);

    timeline.add_event(event("EVENT_1"));
    timeline.add_event(event("EVENT_2"));
    timeline.add_event(event("EVENT_3"));

    timeline.move_up();
    timeline.move_up();

    assert_eq!(timeline.visible_events(), [event("EVENT_1"), event("EVENT_2")]);
}

#[test]
fn moving_down_reveals_newer_events() {
    let mut timeline = Timeline::new(2);

    timeline.add_event(event("EVENT_1"));
    timeline.add_event(event("EVENT_2"));
    timeline.add_event(event("EVENT_3"));

    timeline.move_up();
    assert_eq!(timeline.visible_events(), [event("EVENT_1"), event("EVENT_2")]);

    timeline.move_down();
    assert_eq!(timeline.visible_events(), [event("EVENT_2"), event("EVENT_3")]);
}

#[test]
fn moving_down_past_bottom_does_nothing() {
    let mut timeline = Timeline::new(2);

    timeline.add_event(event("EVENT_1"));
    timeline.add_event(event("EVENT_2"));
    timeline.add_event(event("EVENT_3"));

    timeline.move_down();
    assert_eq!(timeline.visible_events(), [event("EVENT_2"), event("EVENT_3")]);
}

#[test]
fn goes_to_the_bottom_after_adding_an_event() {
    let mut timeline = Timeline::new(2);

    timeline.add_event(event("EVENT_1"));
    timeline.add_event(event("EVENT_2"));
    timeline.add_event(event("EVENT_3"));
    assert_eq!(timeline.visible_events(), [event("EVENT_2"), event("EVENT_3")]);

    timeline.move_up();
    assert_eq!(timeline.visible_events(), [event("EVENT_1"), event("EVENT_2")]);

    timeline.add_event(event("EVENT_4"));
    assert_eq!(timeline.visible_events(), [event("EVENT_3"), event("EVENT_4")]);
}

#[test]
fn resizing_smaller_does_not_move() {
    let mut timeline = Timeline::new(3);

    timeline.add_event(event("EVENT_1"));
    timeline.add_event(event("EVENT_2"));
    timeline.add_event(event("EVENT_3"));
    timeline.add_event(event("EVENT_4"));

    assert_eq!(timeline.visible_events(), [event("EVENT_2"), event("EVENT_3"), event("EVENT_4")]);

    timeline.resize(2);
    assert_eq!(timeline.visible_events(), [event("EVENT_2"), event("EVENT_3")]);
}

#[test]
fn resizing_larger_does_not_move_if_unneeded() {
    let mut timeline = Timeline::new(2);

    timeline.add_event(event("EVENT_1"));
    timeline.add_event(event("EVENT_2"));
    timeline.add_event(event("EVENT_3"));

    timeline.move_up();
    assert_eq!(timeline.visible_events(), [event("EVENT_1"), event("EVENT_2")]);

    timeline.resize(3);
    assert_eq!(timeline.visible_events(), [event("EVENT_1"), event("EVENT_2"), event("EVENT_3")]);
}

#[test]
fn resizing_larger_moves_up_if_needed() {
    let mut timeline = Timeline::new(2);

    timeline.add_event(event("EVENT_1"));
    timeline.add_event(event("EVENT_2"));
    timeline.add_event(event("EVENT_3"));
    assert_eq!(timeline.visible_events(), [event("EVENT_2"), event("EVENT_3")]);

    timeline.resize(3);
    assert_eq!(timeline.visible_events(), [event("EVENT_1"), event("EVENT_2"), event("EVENT_3")]);
}

#[test]
fn timeline_scroll_scenario() {
    let mut timeline = Timeline::new(2);
    timeline.add_event(event("E1"));
    timeline.add_event(event("E2"));
    timeline.add_event(event("E3"));
    assert_eq!(timeline.visible_events(), [event("E2"), event("E3")]);
    timeline.scroll_up();
    assert_eq!(timeline.visible_events(), [event("E1"), event("E2")]);
    timeline.scroll_up();
    assert_eq!(timeline.visible_events(), [event("E1"), event("E2")]);
    timeline.add_event(event("E4"));
    assert_eq!(timeline.visible_events(), [event("E3"), event("E4")]);
    timeline.scroll_down();
    assert_eq!(timeline.visible_events(), [event("E3"), event("E4")]);
}

#[test]
fn typing_events_are_not_listed() {
    let user = User { nickname: "bob".to_string(), color: Some(Color::Cyan) };
    let time = Timestamp { secs: 5, nanos: 7 };
    let typing = ServerEvent { event: ServerEventKind::Typing(TypingEvent::Start), user: user.clone(), time_occurred: time };
    assert_eq!(Event::from_server_event(typing), None);
    let message = ServerEvent {
        event: ServerEventKind::Message(Message { body: "hi".to_string() }),
        user: user.clone(),
        time_occurred: time,
    };
    assert_eq!(
        Event::from_server_event(message),
        Some(Event { event: EventKind::Message(Message { body: "hi".to_string() }), user, time_occurred: time })
    );
}

use nunitius::viewer::{render_currently_typing_users, App, RenderedUi};

#[test]
fn typing_line() {
    assert_eq!(render_currently_typing_users(&vec![]), "");
    assert_eq!(render_currently_typing_users(&vec!["ann".to_string()]), "ann is typing...");
    assert_eq!(
        render_currently_typing_users(&vec!["ann".to_string(), "bo".to_string(), "cy".to_string()]),
        "ann and bo and cy are typing..."
    );
}

#[test]
fn rendered_ui_lines() {
    let mut ui = RenderedUi::new();
    ui.add_line("one");
    ui.add_empty_line();
    ui.add_line("three");
    assert_eq!(ui.lines(), ["one", "", "three"]);
}

#[test]
fn app_layout() {
    let mut app = App::new(4);
    app.handle_event(event("E1"));
    app.start_typing(User { nickname: "zed".to_string(), color: None });
    app.start_typing(User { nickname: "zed".to_string(), color: None });
    assert_eq!(app.typing_users().len(), 1);
    assert_eq!(app.visible_events(), [event("E1")]);

    let ui = app.render(&vec!["E1 logged in!".to_string()], "zed is typing...");
    assert_eq!(ui.lines(), ["E1 logged in!", "", "", "zed is typing..."]);

    app.stop_typing(&User { nickname: "zed".to_string(), color: None });
    assert!(app.typing_users().is_empty());

    app.handle_event(event("E2"));
    app.handle_event(event("E3"));
    app.handle_event(event("E4"));
    assert_eq!(app.visible_events(), [event("E2"), event("E3"), event("E4")]);
    app.scroll_up();
    assert_eq!(app.visible_events(), [event("E1"), event("E2"), event("E3")]);
    app.scroll_down();
    app.resize(3);
    assert_eq!(app.visible_events(), [event("E2"), event("E3")]);
}
