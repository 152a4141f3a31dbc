use nunitius::model::TypingEvent;
use nunitius::sender::{EditBuffer, Tick, TypingDebounce};

#[test]
fn edit_buffer_typing() {
    let mut buffer = EditBuffer::new();
    buffer.add('h');
    buffer.add_multiple(&"I!".chars().collect());
    assert_eq!(buffer.contents(), "hI!");
    buffer.backspace();
    assert_eq!(buffer.contents(), "hI");
    buffer.backspace();
    buffer.backspace();
    buffer.backspace();
    assert_eq!(buffer.contents(), "");
}

#[test]
fn debounce_reports_changes_only() {
    let mut debounce = TypingDebounce::new();
    assert_eq!(debounce.tick(Tick::Quiet), None);
    assert_eq!(debounce.tick(Tick::KeyPressed), Some(TypingEvent::Start));
    assert_eq!(debounce.tick(Tick::KeyPressed), None);
    assert_eq!(debounce.tick(Tick::Quiet), Some(TypingEvent::Stop));
    assert_eq!(debounce.tick(Tick::KeyPressed), Some(TypingEvent::Start));
    assert!(!debounce.finished());
    assert_eq!(debounce.tick(Tick::Finished), Some(TypingEvent::Stop));
    assert!(debounce.finished());
}

#[test]
fn debounce_finish_when_quiet_sends_nothing() {
    let mut debounce = TypingDebounce::new();
    assert_eq!(debounce.tick(Tick::Finished), None);
    assert!(debounce.finished());
}
