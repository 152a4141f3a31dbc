use nunitius::text::{Text, TextBuf};
use nunitius::wrap::{split_into_words, wrap};

fn check<const N: usize>(input: &str, width: usize, expected: [&str; N]) {
    let input = Text::new(input);
    let wrapped = wrap(&input, width);

    assert_eq!(
        wrapped,
        expected
            .iter()
            .map(|line| TextBuf::new(line.to_string()))
            .collect::<Vec<_>>()
    );
}

#[test]
fn keep_existing_text_the_same() {
    check("foo", 10, ["foo"]);
}

#[test]
fn needed_width_same_as_width_of_input() {
    check("test", 4, ["test"]);
}

#[test]
fn keep_spaces() {
    check("foo bar baz", 4, ["foo ", "bar ", "baz"]);
}

#[test]
fn break_words_if_do_not_fit() {
    check("longword short word", 6, ["longwo", "rd ", "short ", "word"]);
}

#[test]
fn wrap_based_on_width() {
    check("ab👍cdef😀😀test", 4, ["ab👍", "cdef", "😀😀", "test"]);
}

#[test]
fn wrap_empty_text_is_one_empty_line() {
    check("", 4, [""]);
}

#[test]
fn wide_word_starts_after_empty_first_line() {
    check("😀😀😀 x", 4, ["", "😀😀😀 ", "x"]);
}

#[test]
fn words_end_after_spaces() {
    let text = Text::new("ab cd");
    let words: Vec<String> = split_into_words(&text, 10).iter().map(|w| w.as_str().to_string()).collect();
    assert_eq!(words, ["ab ", "cd"]);
}
