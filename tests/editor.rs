use nunitius::editor::Editor;

#[test]
fn editor_add_text() {
    let mut editor = Editor::new(10, 10);

    editor.add("c");

    assert_eq!(editor.render(), ["c"]);
    assert_eq!(editor.cursor(), (0, 1));
}

#[test]
fn editor_add_text_at_cursor() {
    let mut editor = Editor::new(10, 10);

    editor.add("b");
    editor.move_left();
    editor.add("a");
    editor.move_right();
    editor.add("c");

    assert_eq!(editor.render(), ["abc"]);
    assert_eq!(editor.cursor(), (0, 3));
}

#[test]
fn editor_backspace() {
    let mut editor = Editor::new(10, 10);

    editor.add("a");
    editor.backspace();

    assert_eq!(editor.render(), [""]);
    assert_eq!(editor.cursor(), (0, 0));
}

#[test]
fn editor_backspace_at_cursor() {
    let mut editor = Editor::new(10, 10);

    editor.add("ab");
    editor.move_left();
    editor.backspace();

    assert_eq!(editor.render(), ["b"]);
    assert_eq!(editor.cursor(), (0, 0));
}

#[test]
fn backspace_at_start_of_buffer() {
    let mut editor = Editor::new(10, 10);
    editor.backspace();
}

#[test]
fn backspace_at_start_of_line() {
    let mut editor = Editor::new(1, 10);

    editor.add("ab");
    editor.move_left();
    editor.backspace();

    assert_eq!(editor.render(), ["b"]);
    assert_eq!(editor.cursor(), (0, 0));
}

#[test]
fn backspace_at_start_of_para() {
    let mut editor = Editor::new(1, 10);

    editor.add("ab");
    editor.enter();
    editor.add("c");
    editor.move_left();
    editor.backspace();

    assert_eq!(editor.render(), ["a", "b", "c"]);
    assert_eq!(editor.cursor(), (1, 1));
}

#[test]
fn editor_move_cursor_left() {
    let mut editor = Editor::new(10, 10);

    editor.add("a");
    editor.move_left();

    assert_eq!(editor.cursor(), (0, 0));
}

#[test]
fn editor_move_cursor_right() {
    let mut editor = Editor::new(10, 10);

    editor.add("abc");
    editor.move_left();
    editor.move_left();
    editor.move_right();

    assert_eq!(editor.cursor(), (0, 2));
}

#[test]
fn move_cursor_up() {
    let mut editor = Editor::new(10, 10);

    editor.enter();
    editor.move_up();

    assert_eq!(editor.cursor(), (0, 0));
}

#[test]
fn move_cursor_down() {
    let mut editor = Editor::new(10, 10);

    editor.enter();
    editor.enter();
    editor.move_up();
    editor.move_up();
    editor.move_down();

    assert_eq!(editor.cursor(), (2, 0));
}

#[test]
fn editor_cursor_movement_edge_cases() {
    let mut editor = Editor::new(10, 10);

    editor.move_left();
    assert_eq!(editor.cursor(), (0, 0));

    editor.move_right();
    assert_eq!(editor.cursor(), (0, 0));

    editor.move_up();
    assert_eq!(editor.cursor(), (0, 0));

    editor.move_down();
    assert_eq!(editor.cursor(), (0, 0));
}

#[test]
fn wrap_cursor_around_at_start_of_line() {
    let mut editor = Editor::new(4, 10);

    editor.add("foo bar");
    assert_eq!(editor.render(), ["foo ", "bar"]);

    for _ in 0..4 {
        editor.move_left();
    }

    assert_eq!(editor.cursor(), (0, 4));
}

#[test]
fn wrap_cursor_around_at_start_of_para() {
    let mut editor = Editor::new(10, 10);

    editor.add("a");
    editor.enter();
    editor.move_left();

    assert_eq!(editor.cursor(), (0, 1));
}

#[test]
fn wrap_cursor_around_at_end_of_line() {
    let mut editor = Editor::new(4, 10);

    editor.add("foo bar");
    assert_eq!(editor.render(), ["foo ", "bar"]);

    editor.move_up();
    editor.move_right();
    editor.move_right();

    assert_eq!(editor.cursor(), (1, 0));
}

#[test]
fn wrap_cursor_around_at_end_of_para() {
    let mut editor = Editor::new(10, 10);

    editor.add("a");
    editor.enter();
    editor.add("b");
    editor.move_up();
    editor.move_right();

    assert_eq!(editor.cursor(), (2, 0));
}

#[test]
fn move_to_start_of_line_if_at_top_when_moving_up() {
    let mut editor = Editor::new(10, 10);

    editor.add("ab");
    editor.move_up();

    assert_eq!(editor.cursor(), (0, 0));
}

#[test]
fn move_to_end_of_line_if_at_bottom_when_moving_down() {
    let mut editor = Editor::new(10, 10);

    editor.add("ab");
    editor.move_left();
    editor.move_down();

    assert_eq!(editor.cursor(), (0, 2));
}

#[test]
fn clamp_cursor_to_line_when_moving_up_and_down() {
    let mut editor = Editor::new(4, 10);

    editor.add("abc d efg");
    assert_eq!(editor.render(), ["abc ", "d ", "efg"]);
    assert_eq!(editor.cursor(), (2, 3));

    editor.move_up();
    assert_eq!(editor.cursor(), (1, 2));

    editor.move_up();
    editor.move_right();
    editor.move_down();
    assert_eq!(editor.cursor(), (1, 2));
}

#[test]
fn clamp_cursor_to_para_when_moving_up() {
    let mut editor = Editor::new(2, 10);

    editor.add("a");
    editor.enter();
    editor.add("bc");
    assert_eq!(editor.render(), ["a", "", "bc"]);
    assert_eq!(editor.cursor(), (2, 2));

    editor.move_up();
    assert_eq!(editor.cursor(), (0, 1));
}

#[test]
fn clamp_cursor_to_para_when_moving_down() {
    let mut editor = Editor::new(2, 10);

    editor.add("ab");
    editor.enter();
    editor.add("c");
    assert_eq!(editor.render(), ["ab", "", "c"]);

    editor.move_left();
    editor.move_left();
    assert_eq!(editor.cursor(), (0, 2));

    editor.move_down();
    assert_eq!(editor.cursor(), (2, 1));
}

#[test]
fn enter_at_start_of_line() {
    let mut editor = Editor::new(10, 10);

    editor.add("a");
    editor.move_left();
    editor.enter();
    editor.add("b");

    assert_eq!(editor.render(), ["", "", "ba"]);
    assert_eq!(editor.cursor(), (2, 1));
}

#[test]
fn enter_at_end_of_line() {
    let mut editor = Editor::new(10, 10);

    editor.add("a");
    editor.enter();
    editor.add("b");

    assert_eq!(editor.render(), ["a", "", "b"]);
    assert_eq!(editor.cursor(), (2, 1));
}

#[test]
fn enter_in_middle_of_line() {
    let mut editor = Editor::new(10, 10);

    editor.add("ab");
    editor.move_left();
    editor.enter();

    assert_eq!(editor.render(), ["a", "", "b"]);
    assert_eq!(editor.cursor(), (2, 0));
}

#[test]
fn wrap_text_if_over_width_limit() {
    let mut editor = Editor::new(8, 10);

    editor.add("foo bar baz");

    assert_eq!(editor.render(), ["foo bar ", "baz"]);
}

#[test]
fn editor_resize() {
    let mut editor = Editor::new(4, 10);

    editor.add("foo bar");
    assert_eq!(editor.render(), ["foo ", "bar"]);

    editor.resize_width(7);
    assert_eq!(editor.render(), ["foo bar"]);
}

#[test]
fn rewrap_when_adding_text() {
    let mut editor = Editor::new(2, 10);

    editor.add("ab");
    assert_eq!(editor.cursor(), (0, 2));

    editor.add("c");
    assert_eq!(editor.cursor(), (1, 1));
}

#[test]
fn rewrap_when_backspacing() {
    let mut editor = Editor::new(5, 10);

    editor.add("foo bar");
    assert_eq!(editor.render(), ["foo ", "bar"]);

    editor.backspace();
    editor.backspace();
    assert_eq!(editor.render(), ["foo b"]);
}

#[test]
fn rewrap_when_splitting_paragraphs() {
    let mut editor = Editor::new(8, 10);

    editor.add("foo bar baz quux");
    assert_eq!(editor.render(), ["foo bar ", "baz quux"]);

    for _ in 0..13 {
        editor.move_left();
    }
    editor.enter();

    assert_eq!(editor.render(), ["foo ", "", "bar baz ", "quux"]);
}

#[test]
fn join_words_when_deleting_trailing_space() {
    let mut editor = Editor::new(8, 10);

    editor.add("foo bar baz quux");
    assert_eq!(editor.render(), ["foo bar ", "baz quux"]);

    editor.move_up();
    editor.backspace();

    assert_eq!(editor.render(), ["foo ", "barbaz ", "quux"]);
}

#[test]
fn scroll_down_when_adding_lines_if_does_not_fit() {
    let mut editor = Editor::new(1, 2);

    editor.add("ab");
    assert_eq!(editor.render(), ["a", "b"]);
    assert_eq!(editor.cursor(), (1, 1));

    editor.add("c");
    assert_eq!(editor.render(), ["b", "c"]);
    assert_eq!(editor.cursor(), (1, 1));
}

#[test]
fn scroll_down_when_adding_paras_if_does_not_fit() {
    let mut editor = Editor::new(1, 2);

    editor.add("a");
    editor.enter();
    editor.add("b");

    assert_eq!(editor.render(), ["", "b"]);
    assert_eq!(editor.cursor(), (1, 1));
}

#[test]
fn scroll_down_when_adding_empty_paras_if_does_not_fit() {
    let mut editor = Editor::new(1, 2);

    editor.enter();
    editor.enter();

    assert_eq!(editor.render(), ["", ""]);
    assert_eq!(editor.cursor(), (1, 0));
}

#[test]
fn scroll_up_when_moving_past_top() {
    let mut editor = Editor::new(1, 2);

    editor.add("abc");
    editor.move_up();
    editor.move_up();

    assert_eq!(editor.render(), ["a", "b"]);
    assert_eq!(editor.cursor(), (0, 1));
}

#[test]
fn scroll_down_when_moving_past_bottom() {
    let mut editor = Editor::new(1, 2);

    editor.add("abc");
    editor.move_up();
    editor.move_up();
    assert_eq!(editor.render(), ["a", "b"]);
    assert_eq!(editor.cursor(), (0, 1));

    editor.move_down();
    editor.move_down();

    assert_eq!(editor.render(), ["b", "c"]);
    assert_eq!(editor.cursor(), (1, 1));
}

#[test]
fn scroll_up_to_fill_entire_screen_when_lines_are_deleted() {
    let mut editor = Editor::new(1, 2);

    editor.add("abc");
    assert_eq!(editor.render(), ["b", "c"]);
    assert_eq!(editor.cursor(), (1, 1));

    editor.backspace();
    assert_eq!(editor.render(), ["a", "b"]);
    assert_eq!(editor.cursor(), (1, 1));
}

#[test]
fn scroll_up_to_fill_entire_screen_when_paras_are_deleted() {
    let mut editor = Editor::new(1, 2);

    editor.add("a");
    editor.enter();
    assert_eq!(editor.render(), ["", ""]);
    assert_eq!(editor.cursor(), (1, 0));

    editor.backspace();
    assert_eq!(editor.render(), ["a"]);
    assert_eq!(editor.cursor(), (0, 1));
}

#[test]
fn scroll_up_to_fill_entire_screen_when_resizing_width() {
    let mut editor = Editor::new(1, 2);

    editor.add("abc");
    assert_eq!(editor.render(), ["b", "c"]);
    assert_eq!(editor.cursor(), (1, 1));

    editor.resize_width(3);
    assert_eq!(editor.render(), ["abc"]);
    assert_eq!(editor.cursor(), (0, 3));
}

#[test]
fn scroll_up_to_fill_entire_screen_when_resizing_height() {
    let mut editor = Editor::new(1, 2);

    editor.add("abc");
    assert_eq!(editor.render(), ["b", "c"]);
    assert_eq!(editor.cursor(), (1, 1));

    editor.resize_height(3);
    assert_eq!(editor.render(), ["a", "b", "c"]);
    assert_eq!(editor.cursor(), (2, 1));
}

#[test]
fn add_multibyte_grapheme() {
    let mut editor = Editor::new(10, 10);

    editor.add("ç");

    assert_eq!(editor.render(), ["ç"]);
    assert_eq!(editor.cursor(), (0, 1));
}

#[test]
fn editor_add_wide_grapheme() {
    let mut editor = Editor::new(10, 10);

    editor.add("🦀");

    assert_eq!(editor.render(), ["🦀"]);
    assert_eq!(editor.cursor(), (0, 2));
}

#[test]
fn wrap_at_grapheme_boundaries() {
    let mut editor = Editor::new(2, 10);

    editor.add("åb😳čd");

    assert_eq!(editor.render(), ["åb", "😳", "čd"]);
    assert_eq!(editor.cursor(), (2, 2));
}

#[test]
fn editor_backspace_grapheme() {
    let mut editor = Editor::new(10, 10);

    editor.add("🧑🏾‍🌾");
    editor.backspace();

    assert_eq!(editor.render(), [""]);
    assert_eq!(editor.cursor(), (0, 0));
}

#[test]
fn join_paragraphs_on_backspace() {
    let mut editor = Editor::new(10, 10);

    editor.add("a");
    editor.enter();
    editor.add("b");
    editor.move_left();
    editor.backspace();

    assert_eq!(editor.render(), ["ab"]);
    assert_eq!(editor.cursor(), (0, 1));
}

#[test]
fn backspace_after_moving_to_start_of_buffer_does_nothing() {
    let mut editor = Editor::new(10, 10);

    editor.add("a");
    editor.enter();
    editor.add("b");
    editor.move_left();
    editor.move_left();
    editor.move_left();
    assert_eq!(editor.cursor(), (0, 0));
    editor.backspace();

    assert_eq!(editor.render(), ["a", "", "b"]);
    assert_eq!(editor.cursor(), (0, 0));
}

#[test]
fn contents_separates_paragraphs() {
    let mut editor = Editor::new(4, 10);

    editor.add("foo bar");
    editor.enter();
    editor.add("baz");

    assert_eq!(editor.contents(), "foo bar\nbaz");
}

#[test]
fn backspace_after_empty_first_line_stays_in_buffer() {
    let mut editor = Editor::new(4, 10);

    editor.add("😀😀😀 x");
    assert_eq!(editor.render(), ["", "😀😀😀 ", "x"]);
    editor.move_up();
    editor.move_up();
    assert_eq!(editor.cursor(), (0, 0));
    editor.move_down();
    editor.move_left();
    editor.move_right();
    editor.backspace();
    assert_eq!(editor.render(), ["", "😀😀😀 ", "x"]);
}

#[test]
fn combining_mark_keeps_cursor_in_line() {
    let mut editor = Editor::new(10, 10);

    editor.add("e");
    editor.add("\u{301}");

    assert_eq!(editor.render(), ["e\u{301}"]);
    assert_eq!(editor.cursor(), (0, 1));
}

#[test]
fn room_for_more_text() {
    let mut editor = Editor::new(10, 10);
    editor.add("abc");
    assert!(editor.has_room(10));
    assert!(editor.has_room(usize::MAX - 5));
    assert!(!editor.has_room(usize::MAX - 4));
}
