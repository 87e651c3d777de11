use navireader::record::FeedItem;
use navireader::time::Timestamp;
use navireader::viewer::{
    article_text, body_source, first_paragraph_of, note_slug, note_text, visible_range,
    ViewerKey, ViewerMode, ViewerState,
};

fn article() -> FeedItem {
    FeedItem {
        id: "a1".to_string(),
        feed_url: "https://f.org/rss".to_string(),
        title: "Hello, World! Über-Title_2".to_string(),
        link: "https://f.org/1".to_string(),
        description: Some("desc".to_string()),
        published: Timestamp::from_parts(0, 0),
        author: Some("Ann".to_string()),
        content: None,
        read: false,
        starred: false,
    }
}

#[test]
fn scrolling_stays_in_bounds() {
    let mut s = ViewerState::new();
    // 30 lines in a 17-row terminal: 10 rows of view, last start is 20
    assert!(!s.handle_key(ViewerKey::Down, 30, 17));
    assert_eq!(s.scroll, 1);
    assert!(!s.handle_key(ViewerKey::PageDown, 30, 17));
    assert_eq!(s.scroll, 11);
    assert!(!s.handle_key(ViewerKey::PageDown, 30, 17));
    assert_eq!(s.scroll, 20);
    assert!(!s.handle_key(ViewerKey::Down, 30, 17));
    assert_eq!(s.scroll, 20);
    assert!(!s.handle_key(ViewerKey::PageUp, 30, 17));
    assert_eq!(s.scroll, 10);
    assert!(!s.handle_key(ViewerKey::Home, 30, 17));
    assert_eq!(s.scroll, 0);
    assert!(!s.handle_key(ViewerKey::Up, 30, 17));
    assert_eq!(s.scroll, 0);
    assert!(!s.handle_key(ViewerKey::End, 30, 17));
    assert_eq!(s.scroll, 20);
    assert!(!s.handle_key(ViewerKey::Other, 30, 17));
    assert_eq!(s.scroll, 20);
    assert!(!s.handle_key(ViewerKey::End, 5, 3));
    assert_eq!(s.scroll, 5);
}

#[test]
fn keys_that_close() {
    let mut s = ViewerState::new();
    assert!(s.handle_key(ViewerKey::Quit, 10, 10));
    assert_eq!(s.mode, ViewerMode::Reading);
    assert_eq!(s.exit_code(), 0);
    assert!(s.handle_key(ViewerKey::OpenBrowser, 10, 10));
    assert_eq!(s.exit_code(), 1);
    assert!(s.handle_key(ViewerKey::CreateNote, 10, 10));
    assert_eq!(s.exit_code(), 2);
}

#[test]
fn visible_lines() {
    assert_eq!(visible_range(0, 10, 25), Some((0, 10)));
    assert_eq!(visible_range(20, 10, 25), Some((20, 25)));
    assert_eq!(visible_range(25, 10, 25), None);
}

#[test]
fn note_slugs() {
    assert_eq!(note_slug("Hello, World! Über-Title_2"), "helloworldüber-title_2");
    assert_eq!(note_slug(&"Ab".repeat(40)), "ab".repeat(25));
    assert_eq!(note_slug("!!!"), "");
}

#[test]
fn first_paragraphs() {
    assert_eq!(first_paragraph_of("one\ntwo\n\nthree\n\nfour"), "one\ntwo");
    assert_eq!(first_paragraph_of("single"), "single");
    assert_eq!(first_paragraph_of("\n\nx"), "");
}

#[test]
fn viewer_and_note_texts() {
    let a = article();
    assert_eq!(body_source(&a), Some("desc"));
    let shown = article_text(&a, "Body");
    assert_eq!(
        shown,
        format!(
            "Author: Ann\nPublished: 1970-01-01T00:00:00+00:00\nLink: https://f.org/1\n\n{}\n\nBody",
            "\u{2500}".repeat(40)
        )
    );
    let note = note_text(&a, Some("Summary line"));
    assert_eq!(
        note,
        "# Hello, World! Über-Title_2\n\nSource: https://f.org/1\nFeed: https://f.org/rss\nDate: 1970-01-01T00:00:00+00:00\n\n## Summary\n\nSummary line\n\n## Notes\n\n"
    );
    let mut bare = a.clone();
    bare.published = None;
    bare.author = None;
    bare.description = None;
    assert_eq!(body_source(&bare), None);
    assert_eq!(
        note_text(&bare, None),
        "# Hello, World! Über-Title_2\n\nSource: https://f.org/1\nFeed: https://f.org/rss\n\n## Summary\n\n\n\n## Notes\n\n"
    );
}
