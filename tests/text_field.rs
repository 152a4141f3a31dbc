use nunitius::text_field::TextField;

#[test]
fn text_field_add_text() {
    let mut text_field = TextField::new(10);

    text_field.add("a");

    assert_eq!(text_field.render(), "a");
    assert_eq!(text_field.cursor(), 1);
}

#[test]
fn text_field_add_text_at_cursor() {
    let mut text_field = TextField::new(10);

    text_field.add("ac");
    text_field.move_left();
    text_field.add("b");

    assert_eq!(text_field.render(), "abc");
    assert_eq!(text_field.cursor(), 2);
}

#[test]
fn text_field_backspace() {
    let mut text_field = TextField::new(10);

    text_field.add("a");
    text_field.backspace();

    assert_eq!(text_field.render(), "");
    assert_eq!(text_field.cursor(), 0);
}

#[test]
fn text_field_backspace_at_cursor() {
    let mut text_field = TextField::new(10);

    text_field.add("ab");
    text_field.move_left();
    text_field.backspace();

    assert_eq!(text_field.render(), "b");
    assert_eq!(text_field.cursor(), 0);
}

#[test]
fn backspace_at_start() {
    let mut text_field = TextField::new(10);

    text_field.backspace();

    assert_eq!(text_field.render(), "");
    assert_eq!(text_field.cursor(), 0);
}

#[test]
fn text_field_move_cursor_left() {
    let mut text_field = TextField::new(10);

    text_field.add("a");
    text_field.move_left();

    assert_eq!(text_field.cursor(), 0);
}

#[test]
fn text_field_move_cursor_right() {
    let mut text_field = TextField::new(10);

    text_field.add("abc");
    text_field.move_left();
    text_field.move_left();
    text_field.move_right();

    assert_eq!(text_field.cursor(), 2);
}

#[test]
fn move_to_start_when_moving_up() {
    let mut text_field = TextField::new(10);

    text_field.add("abc");
    text_field.move_up();

    assert_eq!(text_field.cursor(), 0);
}

#[test]
fn move_to_end_when_moving_down() {
    let mut text_field = TextField::new(10);

    text_field.add("abc");
    text_field.move_left();
    text_field.move_left();
    text_field.move_down();

    assert_eq!(text_field.cursor(), 3);
}

#[test]
fn text_field_cursor_movement_edge_cases() {
    let mut text_field = TextField::new(10);

    text_field.move_left();
    assert_eq!(text_field.cursor(), 0);

    text_field.move_right();
    assert_eq!(text_field.cursor(), 0);

    text_field.move_up();
    assert_eq!(text_field.cursor(), 0);

    text_field.move_down();
    assert_eq!(text_field.cursor(), 0);
}

#[test]
fn move_cursor_left_at_start() {
    let mut text_field = TextField::new(10);

    text_field.add("a");
    text_field.move_left();
    text_field.move_left();

    assert_eq!(text_field.cursor(), 0);
}

#[test]
fn move_cursor_right_at_end() {
    let mut text_field = TextField::new(10);

    text_field.add("a");
    text_field.move_right();

    assert_eq!(text_field.cursor(), 1);
}

#[test]
fn scroll_right_when_adding_text_past_right() {
    let mut text_field = TextField::new(3);

    text_field.add("abc");
    assert_eq!(text_field.render(), "abc");
    assert_eq!(text_field.cursor(), 3);

    text_field.add("d");
    assert_eq!(text_field.render(), "bcd");
    assert_eq!(text_field.cursor(), 3);
}

#[test]
fn scroll_left_when_backspacing_to_fill_whole_screen() {
    let mut text_field = TextField::new(4);

    text_field.add("foo bar");
    assert_eq!(text_field.render(), " bar");
    assert_eq!(text_field.cursor(), 4);

    text_field.move_left();
    text_field.backspace();
    assert_eq!(text_field.render(), "o br");
    assert_eq!(text_field.cursor(), 3);
}

#[test]
fn scroll_left_when_moving_past_left() {
    let mut text_field = TextField::new(3);

    text_field.add("abcd");
    assert_eq!(text_field.render(), "bcd");
    assert_eq!(text_field.cursor(), 3);

    for _ in 0..4 {
        text_field.move_left();
    }
    assert_eq!(text_field.render(), "abc");
    assert_eq!(text_field.cursor(), 0);
}

#[test]
fn scroll_right_when_moving_past_left() {
    let mut text_field = TextField::new(3);

    text_field.add("abcd");
    text_field.move_up();
    assert_eq!(text_field.render(), "abc");
    assert_eq!(text_field.cursor(), 0);

    for _ in 0..4 {
        text_field.move_right();
    }
    assert_eq!(text_field.render(), "bcd");
    assert_eq!(text_field.cursor(), 3);
}

#[test]
fn scroll_left_when_moving_up_if_needed() {
    let mut text_field = TextField::new(3);

    text_field.add("abcd");
    assert_eq!(text_field.render(), "bcd");
    assert_eq!(text_field.cursor(), 3);

    text_field.move_up();
    assert_eq!(text_field.render(), "abc");
    assert_eq!(text_field.cursor(), 0);
}

#[test]
fn scroll_right_when_moving_down_if_needed() {
    let mut text_field = TextField::new(3);

    text_field.add("abcd");
    text_field.move_up();
    assert_eq!(text_field.render(), "abc");
    assert_eq!(text_field.cursor(), 0);

    text_field.move_down();
    assert_eq!(text_field.render(), "bcd");
    assert_eq!(text_field.cursor(), 3);
}

#[test]
fn text_field_resize() {
    let mut text_field = TextField::new(2);

    text_field.add("abc");
    assert_eq!(text_field.render(), "bc");
    assert_eq!(text_field.cursor(), 2);

    text_field.resize(10);
    assert_eq!(text_field.render(), "abc");
    assert_eq!(text_field.cursor(), 3);
}

#[test]
fn text_field_add_wide_grapheme() {
    let mut text_field = TextField::new(10);

    text_field.add("🦀");

    assert_eq!(text_field.render(), "🦀");
    assert_eq!(text_field.cursor(), 2);
}

#[test]
fn text_field_backspace_grapheme() {
    let mut text_field = TextField::new(10);

    text_field.add("🧑🏾‍🌾");
    text_field.backspace();

    assert_eq!(text_field.render(), "");
    assert_eq!(text_field.cursor(), 0);
}

#[test]
fn scroll_at_grapheme_boundaries() {
    let mut text_field = TextField::new(2);

    text_field.add("🙄😦😑");

    assert_eq!(text_field.render(), "😦😑");
    assert_eq!(text_field.cursor(), 4);
}

#[test]
fn text_field_contents() {
    let mut text_field = TextField::new(10);

    text_field.add("foo bar");

    assert_eq!(text_field.contents(), "foo bar");
}

#[test]
fn combining_mark_keeps_cursor_in_text() {
    let mut text_field = TextField::new(10);

    text_field.add("e");
    text_field.add("\u{301}");

    assert_eq!(text_field.contents(), "e\u{301}");
    assert_eq!(text_field.cursor(), 1);
}
