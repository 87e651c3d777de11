use navireader::codec::{decode_article, encode_article, DecodeError};
use navireader::record::{FeedItem, SearchResult};
use navireader::store::sanitize_filename;
use navireader::time::Timestamp;

fn sample() -> FeedItem {
    FeedItem {
        id: "id-1".to_string(),
        feed_url: "https://example.com/feed".to_string(),
        title: "Line one\nline two".to_string(),
        link: "https://example.com/1".to_string(),
        description: Some("Desc".to_string()),
        published: Some(Timestamp::from_parts(0, 500_000_000).unwrap()),
        author: None,
        content: Some("Body --- with dashes".to_string()),
        read: true,
        starred: false,
    }
}

#[test]
fn encodes_the_article_format() {
    let now = Timestamp::from_parts(86_400, 0).unwrap();
    let text = encode_article(&sample(), now);
    assert_eq!(
        text,
        "---\nid: id-1\nfeed: https://example.com/feed\ntitle: Line one line two\nlink: https://example.com/1\nauthor: \ndate: 1970-01-01T00:00:00.500+00:00\nread: true\nstarred: false\n---\n\n# Line one\nline two\n\nDesc\n\nBody --- with dashes\n\n[Read original](https://example.com/1)\n"
    );
    let mut undated = sample();
    undated.published = None;
    assert!(encode_article(&undated, now).contains("date: 1970-01-02T00:00:00+00:00\n"));
}

#[test]
fn decodes_what_was_encoded() {
    let now = Timestamp::from_parts(86_400, 0).unwrap();
    let text = encode_article(&sample(), now);
    let a = decode_article(&text).unwrap();
    assert_eq!(a.id, "id-1");
    assert_eq!(a.feed_url, "https://example.com/feed");
    assert_eq!(a.title, "Line one line two");
    assert_eq!(a.link, "https://example.com/1");
    assert_eq!(a.author, None);
    assert_eq!(a.published, Some(Timestamp::from_parts(0, 500_000_000).unwrap()));
    assert!(a.read);
    assert!(!a.starred);
    let body = "\n\n# Line one\nline two\n\nDesc\n\nBody --- with dashes\n\n[Read original](https://example.com/1)\n";
    assert_eq!(a.description.as_deref(), Some(body));
    assert_eq!(a.content.as_deref(), Some(body));
}

#[test]
fn too_few_delimiters_is_malformed() {
    assert_eq!(decode_article("").unwrap_err(), DecodeError::MalformedFrontmatter);
    assert_eq!(decode_article("---\nid: x\n").unwrap_err(), DecodeError::MalformedFrontmatter);
    assert!(decode_article("------").is_ok());
}

#[test]
fn unknown_and_missing_keys() {
    let a = decode_article("intro---\n  id :  x1  \ncolour: blue\nno colon here\nauthor:\ndate: yesterday\nread: TRUE\nstarred: true\n---").unwrap();
    assert_eq!(a.id, "x1");
    assert_eq!(a.title, "");
    assert_eq!(a.feed_url, "");
    assert_eq!(a.author, None);
    assert_eq!(a.published, None);
    assert!(!a.read);
    assert!(a.starred);
    assert_eq!(a.content.as_deref(), Some(""));
}

#[test]
fn later_header_lines_win() {
    let a = decode_article("---\nid: a\nid: b\nauthor: Ann\nauthor: \n---body").unwrap();
    assert_eq!(a.id, "b");
    assert_eq!(a.author.as_deref(), Some("Ann"));
    assert_eq!(a.content.as_deref(), Some("body"));
}

#[test]
fn sanitizes_file_names() {
    assert_eq!(sanitize_filename("abc-DEF_123"), "abc-DEF_123");
    assert_eq!(sanitize_filename("a b/c:d"), "a_b_c_d");
    assert_eq!(sanitize_filename("héllo"), "héllo");
    let long = "x".repeat(60);
    assert_eq!(sanitize_filename(&long), "x".repeat(50));
    assert_eq!(sanitize_filename(""), "");
}

#[test]
fn timestamps_in_range() {
    assert!(Timestamp::from_parts(-62_167_219_200, 0).is_some());
    assert!(Timestamp::from_parts(-62_167_219_201, 0).is_none());
    assert!(Timestamp::from_parts(253_402_300_799, 999_999_999).is_some());
    assert!(Timestamp::from_parts(253_402_300_800, 0).is_none());
    assert!(Timestamp::from_parts(0, 1_000_000_000).is_none());
    let t = Timestamp::from_parts(1_700_000_000, 123_000).unwrap();
    assert_eq!(t.to_rfc3339(), "2023-11-14T22:13:20.000123+00:00");
    assert_eq!(Timestamp::parse_rfc3339(&t.to_rfc3339()), Some(t));
    assert_eq!(Timestamp::parse_rfc3339("1970-01-01T01:00:00+01:00"), Timestamp::from_parts(0, 0));
    assert_eq!(Timestamp::parse_rfc3339("garbage"), None);
    assert_eq!(t.secs(), 1_700_000_000);
    assert_eq!(t.nanos(), 123_000);
}

#[test]
fn extreme_years_read_back() {
    let first = Timestamp::from_parts(-62_167_219_200, 0).unwrap();
    assert_eq!(first.to_rfc3339(), "0000-01-01T00:00:00+00:00");
    assert_eq!(Timestamp::parse_rfc3339(&first.to_rfc3339()), Some(first));
    let last = Timestamp::from_parts(253_402_300_799, 999_999_999).unwrap();
    assert_eq!(last.to_rfc3339(), "9999-12-31T23:59:59.999999999+00:00");
    assert_eq!(Timestamp::parse_rfc3339(&last.to_rfc3339()), Some(last));
    assert_eq!(Timestamp::parse_rfc3339("0000-01-01T00:00:00+01:00"), None);
}

#[test]
fn search_result_counts() {
    let r = SearchResult::new(vec![sample(), sample()]);
    assert_eq!(r.total, 2);
    assert_eq!(r.items.len(), 2);
}
