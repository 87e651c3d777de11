use navireader::feed::{feed_from_response, normalize_entry, normalize_feed, status_ok, EntryFields, FeedDocument, FetchError};
use navireader::schedule::{FeedOutcome, FetchPlan, FetchStep, MAX_CONCURRENT_FETCHES};
use navireader::scanner::{add_domains, add_feed_sources, candidate_feed_urls, clean_feed_url, FeedPatterns, FeedSource};
use navireader::time::Timestamp;

fn entry() -> EntryFields {
    EntryFields {
        id: "e1".to_string(),
        title: None,
        links: vec![],
        summary: Some("sum".to_string()),
        authors: vec!["Ann".to_string(), "Bob".to_string()],
        content: None,
        published: None,
        updated: Timestamp::from_parts(5, 0),
    }
}

#[test]
fn entry_defaults() {
    let item = normalize_entry("https://f.org/rss", &entry());
    assert_eq!(item.id, "e1");
    assert_eq!(item.title, "Untitled");
    assert_eq!(item.link, "https://f.org/rss");
    assert_eq!(item.feed_url, "https://f.org/rss");
    assert_eq!(item.description.as_deref(), Some("sum"));
    assert_eq!(item.content.as_deref(), Some("sum"));
    assert_eq!(item.published, Timestamp::from_parts(5, 0));
    assert_eq!(item.author.as_deref(), Some("Ann"));
    assert!(!item.read && !item.starred);
    let mut e = entry();
    e.title = Some("T".to_string());
    e.links = vec!["https://f.org/1".to_string(), "https://f.org/2".to_string()];
    e.authors = vec![];
    e.content = Some("full".to_string());
    e.published = Timestamp::from_parts(9, 0);
    let item = normalize_entry("https://f.org/rss", &e);
    assert_eq!(item.title, "T");
    assert_eq!(item.link, "https://f.org/1");
    assert_eq!(item.content.as_deref(), Some("full"));
    assert_eq!(item.published, Timestamp::from_parts(9, 0));
    assert_eq!(item.author, None);
}

#[test]
fn feed_defaults() {
    let at = Timestamp::from_parts(100, 0).unwrap();
    let f = normalize_feed("https://f.org/rss", None, None, &vec![entry(), entry()], at);
    assert_eq!(f.title, "https://f.org/rss");
    assert_eq!(f.items.len(), 2);
    assert_eq!(f.last_fetched, Some(at));
}

#[test]
fn response_status_and_parse_errors() {
    let at = Timestamp::from_parts(100, 0).unwrap();
    let doc = FeedDocument { title: None, description: None, entries: vec![] };
    assert_eq!(feed_from_response("u", 404, Some(doc.clone()), at).unwrap_err(), FetchError::Status(404));
    assert_eq!(feed_from_response("u", 199, None, at).unwrap_err(), FetchError::Status(199));
    assert_eq!(feed_from_response("u", 300, None, at).unwrap_err(), FetchError::Status(300));
    assert_eq!(feed_from_response("u", 200, None, at).unwrap_err(), FetchError::Parse);
    assert!(feed_from_response("u", 299, Some(doc), at).is_ok());
    assert!(status_ok(200) && status_ok(299) && !status_ok(199) && !status_ok(300));
}

#[test]
fn response_with_document() {
    let at = Timestamp::from_parts(100, 0).unwrap();
    let mut first = entry();
    first.id = "g1".to_string();
    first.title = Some("First".to_string());
    first.links = vec!["https://b.org/1".to_string()];
    first.summary = Some("One".to_string());
    first.published = Timestamp::from_parts(1_704_067_200, 0);
    let mut second = entry();
    second.id = "g2".to_string();
    second.summary = None;
    second.authors = vec![];
    let doc = FeedDocument {
        title: Some("Blog".to_string()),
        description: Some("About".to_string()),
        entries: vec![first, second],
    };
    let f = feed_from_response("https://b.org/rss", 200, Some(doc), at).unwrap();
    assert_eq!(f.url, "https://b.org/rss");
    assert_eq!(f.title, "Blog");
    assert_eq!(f.description.as_deref(), Some("About"));
    assert_eq!(f.last_fetched, Some(at));
    assert_eq!(f.items.len(), 2);
    assert_eq!(f.items[0].id, "g1");
    assert_eq!(f.items[0].title, "First");
    assert_eq!(f.items[0].link, "https://b.org/1");
    assert_eq!(f.items[0].content.as_deref(), Some("One"));
    assert_eq!(f.items[0].author.as_deref(), Some("Ann"));
    assert_eq!(f.items[0].published, Timestamp::from_parts(1_704_067_200, 0));
    assert_eq!(f.items[1].title, "Untitled");
    assert_eq!(f.items[1].link, "https://b.org/rss");
    assert_eq!(f.items[1].content, None);
    assert_eq!(f.items[1].author, None);
    assert_eq!(f.items[1].feed_url, "https://b.org/rss");
}

#[test]
fn bounded_batch_with_one_failure() {
    let mut plan = FetchPlan::new(12, MAX_CONCURRENT_FETCHES);
    let mut running: Vec<usize> = Vec::new();
    let mut started: Vec<usize> = Vec::new();
    let mut max_running = 0;
    loop {
        match plan.next_step() {
            FetchStep::Start(i) => {
                running.push(i);
                started.push(i);
                max_running = max_running.max(running.len());
                assert!(plan.in_flight() <= 5);
            }
            FetchStep::Wait => {
                let i = running.remove(0);
                plan.finish(if i == 3 { FeedOutcome::FetchFailed } else { FeedOutcome::Stored });
            }
            FetchStep::Done => break,
        }
    }
    assert_eq!(max_running, 5);
    assert_eq!(started, (0..12).collect::<Vec<_>>());
    assert_eq!(plan.stored(), 11);
    assert_eq!(plan.failed(), 1);
    assert_eq!(plan.in_flight(), 0);
}

#[test]
fn store_failure_counts_as_failed() {
    let mut plan = FetchPlan::new(1, 2);
    assert_eq!(plan.next_step(), FetchStep::Start(0));
    assert_eq!(plan.next_step(), FetchStep::Wait);
    plan.finish(FeedOutcome::StoreFailed);
    assert_eq!(plan.next_step(), FetchStep::Done);
    assert_eq!(plan.failed(), 1);
    assert_eq!(FetchPlan::new(0, 1).next_step(), FetchStep::Done);
}

#[test]
fn scans_feed_tags() {
    let pats = FeedPatterns::new().unwrap();
    let mut found: Vec<FeedSource> = Vec::new();
    add_feed_sources(&pats, "a.md", "intro\nsee #feed https://a.com/rss.\r\n#feed   http://b.org/atom.xml) and #feed https://a.com/rss", &mut found);
    add_feed_sources(&pats, "b.md", "#feed https://a.com/rss\n\n#feed https://c.net/feed>", &mut found);
    let got: Vec<(&str, &str, usize)> = found.iter().map(|f| (f.url.as_str(), f.source_file.as_str(), f.line_number)).collect();
    assert_eq!(
        got,
        vec![("https://a.com/rss", "a.md", 2), ("http://b.org/atom.xml", "a.md", 3), ("https://c.net/feed", "b.md", 3)]
    );
}

#[test]
fn cleans_urls() {
    assert_eq!(clean_feed_url("  https://x.org/a.,)]>  "), "https://x.org/a");
    assert_eq!(clean_feed_url("https://x.org/a"), "https://x.org/a");
    assert_eq!(clean_feed_url(""), "");
}

#[test]
fn domains_and_candidates() {
    let pats = FeedPatterns::new().unwrap();
    let mut domains: Vec<String> = Vec::new();
    add_domains(&pats, "https://a.com/x http://b.org https://a.com/y", &mut domains);
    assert_eq!(domains, vec!["a.com".to_string(), "b.org".to_string()]);
    let c = candidate_feed_urls("a.com");
    assert_eq!(
        c,
        vec![
            "https://a.com/feed",
            "https://a.com/rss",
            "https://a.com/feed.xml",
            "https://a.com/rss.xml",
            "https://a.com/atom.xml",
            "https://a.com/index.xml"
        ]
    );
}
