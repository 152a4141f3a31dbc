use nunitius::ui::{Input, LoggingInView, Prompt, StateChange, StyledText, WrappedLabel};

#[test]
fn create() {
    let label = WrappedLabel::new("foo bar baz", 8);

    assert_eq!(label.render(), ["foo bar ", "baz"]);
    assert_eq!(label.num_rows(), 2);
}

#[test]
fn wrapped_label_resize() {
    let mut label = WrappedLabel::new("foo bar baz", 8);

    assert_eq!(label.render(), ["foo bar ", "baz"]);
    assert_eq!(label.num_rows(), 2);

    label.resize(4);

    assert_eq!(label.render(), ["foo ", "bar ", "baz"]);
    assert_eq!(label.num_rows(), 3);
}

#[test]
fn nickname_screen_updates() {
    let mut view = LoggingInView::new(20);
    assert_eq!(view.update(Input::Keypresses("bob".to_string())), StateChange::Alive { command: None });
    assert_eq!(view.update(Input::MoveLeft), StateChange::Alive { command: None });
    assert_eq!(view.update(Input::Backspace), StateChange::Alive { command: None });
    assert_eq!(view.contents(), "bb");
    assert_eq!(view.update(Input::Resize { width: 10, height: 5 }), StateChange::Alive { command: None });
    assert_eq!(view.update(Input::Enter), StateChange::Alive { command: Some("bb".to_string()) });
}

#[test]
fn wrap_at_given_width() {
    let prompt = Prompt::new("Enter a nickname", 8);

    assert_eq!(
        prompt.render(),
        [StyledText::Bold("Enter a "), StyledText::Bold("nickname"), StyledText::Regular("")]
    );
    assert_eq!(prompt.cursor(), (2, 0));
}

#[test]
fn prompt_add_text() {
    let mut prompt = Prompt::new("Enter a nickname", 8);

    prompt.add("john");

    assert_eq!(
        prompt.render(),
        [StyledText::Bold("Enter a "), StyledText::Bold("nickname"), StyledText::Regular("john")]
    );
    assert_eq!(prompt.cursor(), (2, 4));
}

#[test]
fn prompt_backspace() {
    let mut prompt = Prompt::new("Enter a file to upload", 15);

    prompt.add("fooo");
    prompt.backspace();

    assert_eq!(
        prompt.render(),
        [StyledText::Bold("Enter a file "), StyledText::Bold("to upload"), StyledText::Regular("foo")]
    );
    assert_eq!(prompt.cursor(), (2, 3));
}

#[test]
fn cursor_movement() {
    let mut prompt = Prompt::new("Choose a color", 10);

    prompt.add("purple");

    prompt.move_left();
    assert_eq!(prompt.cursor(), (2, 5));

    prompt.move_right();
    assert_eq!(prompt.cursor(), (2, 6));

    prompt.move_up();
    assert_eq!(prompt.cursor(), (2, 0));

    prompt.move_down();
    assert_eq!(prompt.cursor(), (2, 6));
}

#[test]
fn prompt_resize() {
    let mut prompt = Prompt::new("This is a test", 10);

    prompt.add("foo bar baz quux");

    assert_eq!(
        prompt.render(),
        [StyledText::Bold("This is a "), StyledText::Bold("test"), StyledText::Regular("r baz quux")]
    );
    assert_eq!(prompt.cursor(), (2, 10));

    prompt.resize(20);
    assert_eq!(
        prompt.render(),
        [StyledText::Bold("This is a test"), StyledText::Regular("foo bar baz quux")]
    );
    assert_eq!(prompt.cursor(), (1, 16));
}

#[test]
fn prompt_contents() {
    let mut prompt = Prompt::new("Enter feedback", 10);

    prompt.add("test");

    assert_eq!(prompt.contents(), "test");
}

#[test]
fn empty() {
    let view = LoggingInView::new(20);

    assert_eq!(view.render(), [StyledText::Bold("Enter a nickname"), StyledText::Regular("")]);
    assert_eq!(view.cursor(), (1, 0));
}

#[test]
fn add_nickname() {
    let mut view = LoggingInView::new(20);

    view.add("me");

    assert_eq!(view.render(), [StyledText::Bold("Enter a nickname"), StyledText::Regular("me")]);
    assert_eq!(view.cursor(), (1, 2));
}

#[test]
fn taken() {
    let mut view = LoggingInView::new(20);

    view.add("foo");
    view.mark_nickname_taken();

    assert_eq!(
        view.render(),
        [
            StyledText::Bold("Enter a nickname"),
            StyledText::Regular("foo"),
            StyledText::Red("nickname is taken")
        ]
    );
    assert_eq!(view.cursor(), (1, 3));
}

#[test]
fn wrap_taken() {
    let mut view = LoggingInView::new(10);

    view.add("me");
    view.mark_nickname_taken();

    assert_eq!(
        view.render(),
        [
            StyledText::Bold("Enter a "),
            StyledText::Bold("nickname"),
            StyledText::Regular("me"),
            StyledText::Red("nickname "),
            StyledText::Red("is taken")
        ]
    );
    assert_eq!(view.cursor(), (2, 2));
}

#[test]
fn untaken_after_edit() {
    let mut view = LoggingInView::new(20);

    view.add("ferris");
    view.mark_nickname_taken();
    view.add("a");

    assert_eq!(
        view.render(),
        [StyledText::Bold("Enter a nickname"), StyledText::Regular("ferrisa"),]
    );
    assert_eq!(view.cursor(), (1, 7));

    view.mark_nickname_taken();
    view.backspace();

    assert_eq!(
        view.render(),
        [StyledText::Bold("Enter a nickname"), StyledText::Regular("ferris"),]
    );
    assert_eq!(view.cursor(), (1, 6));
}

#[test]
fn lib_contents() {
    let mut view = LoggingInView::new(20);

    view.add("foo");
    view.backspace();
    view.backspace();
    view.backspace();
    view.add("bar");

    assert_eq!(view.contents(), "bar");
}
