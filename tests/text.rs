use nunitius::text::{Text, TextBuf};

#[test]
fn slice() {
    let text = Text::new("å🧓🏻bc");
    assert_eq!(text.slice(1..3), Text::new("🧓🏻b"));

    let text = TextBuf::new("å🧓🏻bc".to_string());
    assert_eq!(text.slice(1..3), Text::new("🧓🏻b"));
}

#[test]
fn slice_from() {
    let text = Text::new("🧑\u{200d}💻hello");
    assert_eq!(text.slice(1..), Text::new("hello"));

    let text = TextBuf::new("🧑\u{200d}💻hello".to_string());
    assert_eq!(text.slice(1..), Text::new("hello"));
}

#[test]
fn slice_to() {
    let text = Text::new("abc🦀🧑🏽def");
    assert_eq!(text.slice(..5), Text::new("abc🦀🧑🏽"));

    let text = TextBuf::new("abc🦀🧑🏽def".to_string());
    assert_eq!(text.slice(..5), Text::new("abc🦀🧑🏽"));
}

#[test]
fn slice_unbounded() {
    let text = Text::new("abc🤷xyz");
    assert_eq!(text.slice(..), Text::new("abc🤷xyz"));

    let text = TextBuf::new("abc🤷xyz".to_string());
    assert_eq!(text.slice(..), Text::new("abc🤷xyz"));
}

#[test]
fn slice_to_end() {
    let text = Text::new("1\u{fe0f}\u{20e3}2\u{fe0f}\u{20e3}3\u{fe0f}\u{20e3}");
    assert_eq!(text.slice(..3), Text::new("1\u{fe0f}\u{20e3}2\u{fe0f}\u{20e3}3\u{fe0f}\u{20e3}"));
    assert_eq!(text.slice(..=2), Text::new("1\u{fe0f}\u{20e3}2\u{fe0f}\u{20e3}3\u{fe0f}\u{20e3}"));

    let text = TextBuf::new("1\u{fe0f}\u{20e3}2\u{fe0f}\u{20e3}3\u{fe0f}\u{20e3}".to_string());
    assert_eq!(text.slice(..3), Text::new("1\u{fe0f}\u{20e3}2\u{fe0f}\u{20e3}3\u{fe0f}\u{20e3}"));
    assert_eq!(text.slice(..=2), Text::new("1\u{fe0f}\u{20e3}2\u{fe0f}\u{20e3}3\u{fe0f}\u{20e3}"));
}

#[test]
fn push() {
    let mut text = TextBuf::new("foo".to_string());
    text.push(" bar");

    assert_eq!(text, TextBuf::new("foo bar".to_string()));
}

#[test]
fn remove() {
    let mut text = TextBuf::new("🙂🙃🙂🙂".to_string());
    assert_eq!(text.remove(1), TextBuf::new("🙃".to_string()));
    assert_eq!(text, TextBuf::new("🙂🙂🙂".to_string()));
}

#[test]
fn remove_at_start() {
    let mut text = TextBuf::new("👍🏽a".to_string());
    assert_eq!(text.remove(0), TextBuf::new("👍🏽".to_string()));
    assert_eq!(text, TextBuf::new("a".to_string()));
}

#[test]
fn remove_at_end() {
    let mut text = TextBuf::new("abc🧑🏻\u{200d}🦱".to_string());
    assert_eq!(text.remove(3), TextBuf::new("🧑🏻\u{200d}🦱".to_string()));
    assert_eq!(text, TextBuf::new("abc".to_string()));
}

#[test]
fn insert() {
    let mut text = TextBuf::new("🌕🌖🌘🌑".to_string());
    text.insert(2, "🌗");

    assert_eq!(text, TextBuf::new("🌕🌖🌗🌘🌑".to_string()));
}

#[test]
fn insert_at_start() {
    let mut text = TextBuf::default();
    text.insert(0, "a");

    assert_eq!(text, TextBuf::new("a".to_string()));
}

#[test]
fn insert_at_end() {
    let mut text = TextBuf::new("a".to_string());
    text.insert(1, "b");

    assert_eq!(text, TextBuf::new("ab".to_string()));
}

#[test]
fn split() {
    let text = Text::new("a👶🏼b");
    assert_eq!(text.split(1), (Text::new("a"), Text::new("👶🏼b")));

    let text = TextBuf::new("a👶🏼b".to_string());
    assert_eq!(text.split(1), (Text::new("a"), Text::new("👶🏼b")));
}

#[test]
fn find() {
    let text = Text::new("\u{2764}\u{fe0f}🧡💛💚💙💜");
    assert_eq!(text.find("💚"), Some(3));
    assert_eq!(text.find("a"), None);

    let text = TextBuf::new("\u{2764}\u{fe0f}🧡💛💚💙💜".to_string());
    assert_eq!(text.find("💚"), Some(3));
    assert_eq!(text.find("a"), None);
}

#[test]
fn len() {
    let text = Text::new("foo🦸🏻bar🤴🏿baz");
    assert_eq!(text.len(), 11);

    let text = TextBuf::new("foo🦸🏻bar🤴🏿baz".to_string());
    assert_eq!(text.len(), 11);
}

#[test]
fn is_empty() {
    let text = Text::default();
    assert!(text.is_empty());

    let text = TextBuf::default();
    assert!(text.is_empty());

    let text = Text::new("");
    assert!(text.is_empty());

    let text = TextBuf::new(String::new());
    assert!(text.is_empty());
}

#[test]
fn as_text() {
    let text = TextBuf::new("Rust".to_string());
    assert_eq!(text.as_text(), Text::new("Rust"));
}

#[test]
fn to_text_buf() {
    let text = Text::new("👁👄👁");
    assert_eq!(text.into_text_buf(), TextBuf::new("👁👄👁".to_string()));
}

#[test]
fn as_str() {
    let text = Text::new("foo");
    assert_eq!(text.as_str(), "foo");

    let text = TextBuf::new("foo".to_string());
    assert_eq!(text.as_str(), "foo");
}

#[test]
fn width() {
    let text = Text::new("😁");
    assert_eq!(text.width(), 2);

    let text = TextBuf::new("😁".to_string());
    assert_eq!(text.width(), 2);
}

#[test]
fn width_cjk_of_narrow_text() {
    let text = Text::new("ab");
    assert_eq!(text.width_cjk(), 2);
    let text = TextBuf::new("🦀".to_string());
    assert_eq!(text.width_cjk(), 2);
}

#[test]
fn whole_slice_keeps_text() {
    let text = Text::new("e\u{301}x🙂");
    assert_eq!(text.len(), 3);
    assert_eq!(text.slice(0..text.len()).as_str(), text.as_str());
}

#[test]
fn text_buf_round_trip() {
    let text = Text::new("a🦀b");
    let buf = text.clone().into_text_buf();
    assert_eq!(buf.as_text(), text);
}

#[test]
fn find_inside_cluster_is_none() {
    let text = Text::new("e\u{301}");
    assert_eq!(text.find("\u{301}"), None);
    assert_eq!(text.find(""), Some(0));
    assert_eq!(Text::new("").find(""), None);
}

#[test]
fn push_merges_clusters() {
    let mut text = TextBuf::new("e".to_string());
    text.push("\u{301}");
    assert_eq!(text.len(), 1);
    assert_eq!(text.as_str(), "e\u{301}");
}

#[test]
fn zero_width_space_is_one_cluster_of_no_width() {
    let text = Text::new("\u{200b}");
    assert_eq!(text.len(), 1);
    assert_eq!(text.width(), 0);
}
