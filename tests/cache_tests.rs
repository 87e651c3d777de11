use navireader::record::{Feed, FeedItem};
use navireader::store::{StoreError, StoredFile, TextCache};
use navireader::time::Timestamp;
use std::collections::HashMap;

struct MemStore {
    cache: TextCache,
    files: HashMap<String, String>,
}

fn now() -> Timestamp {
    Timestamp::from_parts(1_700_000_000, 0).unwrap()
}

fn create_test_cache() -> MemStore {
    MemStore { cache: TextCache::new("/data"), files: HashMap::new() }
}

impl MemStore {
    fn store_feed(&mut self, feed: &Feed) {
        let present: Vec<bool> = feed
            .items
            .iter()
            .map(|i| self.files.contains_key(&self.cache.article_path(&i.id)))
            .collect();
        let writes = self.cache.store_feed(feed, &present, now()).unwrap();
        for w in writes.articles {
            self.files.insert(w.path, w.text);
        }
        self.files.insert(writes.meta.path, writes.meta.text);
    }

    fn file(&self, id: &str) -> Option<&str> {
        self.files.get(&self.cache.article_path(id)).map(|s| s.as_str())
    }

    fn get_article_by_id(&self, id: &str) -> Option<FeedItem> {
        self.cache.get_article_by_id(self.file(id)).unwrap()
    }

    fn mark_as_read(&mut self, id: &str) -> Result<(), StoreError> {
        let text = self.cache.mark_as_read(self.file(id))?;
        self.files.insert(self.cache.article_path(id), text);
        Ok(())
    }

    fn toggle_star(&mut self, id: &str) -> Result<(), StoreError> {
        let text = self.cache.toggle_star(self.file(id))?;
        self.files.insert(self.cache.article_path(id), text);
        Ok(())
    }

    fn article_files(&self) -> Vec<StoredFile> {
        let mut names: Vec<&String> = self.files.keys().filter(|k| k.ends_with(".md")).collect();
        names.sort();
        names
            .into_iter()
            .map(|k| StoredFile { text: self.files[k].clone(), modified: now() })
            .collect()
    }
}

fn item(i: u32) -> FeedItem {
    FeedItem {
        id: format!("test-article-{}", i),
        feed_url: "https://example.com/feed".to_string(),
        title: format!("Test Article {}", i),
        link: format!("https://example.com/article{}", i),
        description: Some(format!("Article {} description", i)),
        published: Some(now()),
        author: Some("Test Author".to_string()),
        content: Some(format!("Article {} content", i)),
        read: false,
        starred: false,
    }
}

fn create_test_feed() -> Feed {
    Feed {
        url: "https://example.com/feed".to_string(),
        title: "Test Feed".to_string(),
        description: Some("Test Description".to_string()),
        last_fetched: Some(now()),
        items: vec![item(1), item(2)],
    }
}

#[test]
fn test_o1_article_lookup() {
    let mut cache = create_test_cache();
    let feed = create_test_feed();

    cache.store_feed(&feed);

    let article = cache.get_article_by_id("test-article-1");
    assert!(article.is_some());
    let article = article.unwrap();
    assert_eq!(article.id, "test-article-1");
    assert_eq!(article.title, "Test Article 1");

    let article = cache.get_article_by_id("non-existent");
    assert!(article.is_none());
}

#[test]
fn test_mark_as_read() {
    let mut cache = create_test_cache();
    let feed = create_test_feed();

    cache.store_feed(&feed);

    cache.mark_as_read("test-article-1").unwrap();

    let article = cache.get_article_by_id("test-article-1").unwrap();
    assert!(article.read);

    let result = cache.mark_as_read("non-existent");
    assert!(result.is_err());
}

#[test]
fn test_toggle_star() {
    let mut cache = create_test_cache();
    let feed = create_test_feed();

    cache.store_feed(&feed);

    cache.toggle_star("test-article-1").unwrap();
    let article = cache.get_article_by_id("test-article-1").unwrap();
    assert!(article.starred);

    cache.toggle_star("test-article-1").unwrap();
    let article = cache.get_article_by_id("test-article-1").unwrap();
    assert!(!article.starred);

    let result = cache.toggle_star("non-existent");
    assert!(result.is_err());
}

#[test]
fn test_get_articles_limit() {
    let mut cache = create_test_cache();
    let mut feed = create_test_feed();

    for i in 3..10 {
        feed.items.push(item(i));
    }

    cache.store_feed(&feed);

    let files = cache.article_files();
    let articles = cache.cache.get_articles(&files, Some(5));
    assert_eq!(articles.len(), 5);

    let articles = cache.cache.get_articles(&files, None);
    assert_eq!(articles.len(), 9);
}

#[test]
fn ingesting_twice_keeps_state() {
    let mut cache = create_test_cache();
    let feed = create_test_feed();
    cache.store_feed(&feed);
    cache.mark_as_read("test-article-1").unwrap();
    cache.toggle_star("test-article-1").unwrap();
    let before = cache.files.clone();
    cache.store_feed(&feed);
    let article = cache.get_article_by_id("test-article-1").unwrap();
    assert!(article.read);
    assert!(article.starred);
    let articles: Vec<(&String, &String)> = before.iter().filter(|(k, _)| k.ends_with(".md")).collect();
    for (k, v) in articles {
        assert_eq!(cache.files.get(k), Some(v));
    }
    let present = vec![true, true];
    let writes = cache.cache.store_feed(&feed, &present, now()).unwrap();
    assert!(writes.articles.is_empty());
}

#[test]
fn duplicate_ids_in_one_feed_write_once() {
    let cache = TextCache::new("/data");
    let mut feed = create_test_feed();
    let mut other = item(1);
    other.title = "Another title".to_string();
    feed.items.push(other);
    let present = vec![false, false, false];
    let writes = cache.store_feed(&feed, &present, now()).unwrap();
    assert_eq!(writes.articles.len(), 2);
    assert_eq!(writes.articles[0].path, "/data/articles/test-article-1.md");
    assert_eq!(writes.articles[1].path, "/data/articles/test-article-2.md");
    assert_eq!(writes.meta.path, "/data/feeds/https___example_com_feed.json");
    assert!(writes.meta.text.contains("\"title\": \"Test Feed\""));
    assert!(writes.meta.text.contains("\"last_fetched\": \"2023-11-14T22:13:20+00:00\""));
}

#[test]
fn mark_read_changes_only_read() {
    let mut cache = create_test_cache();
    cache.store_feed(&create_test_feed());
    let before = cache.get_article_by_id("test-article-1").unwrap();
    let before_text = cache.file("test-article-1").unwrap().to_string();
    cache.mark_as_read("test-article-1").unwrap();
    let after = cache.get_article_by_id("test-article-1").unwrap();
    assert!(!before.read);
    assert!(after.read);
    assert_eq!(after.starred, before.starred);
    assert_eq!(after.title, before.title);
    assert_eq!(after.link, before.link);
    assert_eq!(after.content, before.content);
    assert_eq!(after.published, before.published);
    let after_text = cache.file("test-article-1").unwrap().to_string();
    assert_eq!(after_text, before_text.replace("read: false", "read: true"));
    cache.cache.mark_as_unread(Some(&after_text)).map(|t| assert_eq!(t, before_text)).unwrap();
}

#[test]
fn toggle_changes_only_starred() {
    let mut cache = create_test_cache();
    cache.store_feed(&create_test_feed());
    let before = cache.get_article_by_id("test-article-2").unwrap();
    cache.toggle_star("test-article-2").unwrap();
    let after = cache.get_article_by_id("test-article-2").unwrap();
    assert!(after.starred);
    assert_eq!(after.read, before.read);
    assert_eq!(after.title, before.title);
    assert_eq!(after.content, before.content);
}

#[test]
fn missing_article_is_not_found() {
    let cache = TextCache::new("/data");
    assert_eq!(cache.mark_as_read(None).unwrap_err(), StoreError::NotFound);
    assert_eq!(cache.mark_as_unread(None).unwrap_err(), StoreError::NotFound);
    assert_eq!(cache.toggle_star(None).unwrap_err(), StoreError::NotFound);
    assert!(cache.get_article_by_id(None).unwrap().is_none());
}

#[test]
fn malformed_file_is_an_error() {
    let cache = TextCache::new("/data");
    assert_eq!(cache.get_article_by_id(Some("no header here")).unwrap_err(), StoreError::MalformedRecord);
    assert_eq!(cache.mark_as_read(Some("---\nread: false\n")).unwrap_err(), StoreError::MalformedRecord);
    assert_eq!(cache.toggle_star(Some("plain")).unwrap_err(), StoreError::MalformedRecord);
}

#[test]
fn missing_flag_line_is_added() {
    let cache = TextCache::new("/data");
    let text = "---\nid: x\n---\nbody";
    let patched = cache.mark_as_read(Some(text)).unwrap();
    assert_eq!(patched, "---\nid: x\nread: true\n---\nbody");
    let a = cache.get_article_by_id(Some(&patched)).unwrap().unwrap();
    assert!(a.read);
    assert_eq!(a.id, "x");
    let tight = cache.toggle_star(Some("---\nid: y---")).unwrap();
    assert_eq!(tight, "---\nstarred: true\nid: y---");
}

#[test]
fn body_lines_are_not_patched() {
    let cache = TextCache::new("/data");
    let text = "---\nread: false\n---\nread: false\r\nstarred: x\n";
    let patched = cache.mark_as_read(Some(text)).unwrap();
    assert_eq!(patched, "---\nread: true\n---\nread: false\r\nstarred: x\n");
}

#[test]
fn unread_count_after_marking_one() {
    let mut cache = create_test_cache();
    let mut feed = create_test_feed();
    feed.items.push(item(3));
    cache.store_feed(&feed);
    cache.mark_as_read("test-article-2").unwrap();
    let texts: Vec<String> = cache.article_files().into_iter().map(|f| f.text).collect();
    assert_eq!(cache.cache.get_unread_count(&texts), 2);
    let mut with_bad = texts.clone();
    with_bad.push("garbage".to_string());
    assert_eq!(cache.cache.get_unread_count(&with_bad), 2);
}

#[test]
fn search_is_case_insensitive_and_exact() {
    let mut cache = create_test_cache();
    let mut a = item(1);
    a.title = "Rust async runtimes".to_string();
    a.description = None;
    a.content = None;
    let mut b = item(2);
    b.title = "Baking bread".to_string();
    b.description = None;
    b.content = None;
    let feed = Feed { items: vec![a, b], ..create_test_feed() };
    cache.store_feed(&feed);
    let files = cache.article_files();
    let found = cache.cache.search_articles("rust", &files);
    assert_eq!(found.len(), 1);
    assert_eq!(found[0].title, "Rust async runtimes");
    let found = cache.cache.search_articles("BREAD", &files);
    assert_eq!(found.len(), 1);
    assert_eq!(found[0].id, "test-article-2");
    assert_eq!(cache.cache.search_articles("nothing like this", &files).len(), 0);
}

#[test]
fn search_orders_newest_first_and_undated_last() {
    let cache = TextCache::new("/data");
    let mk = |id: &str, date: &str| StoredFile {
        text: format!("---\nid: {}\ndate: {}\n---\nkeyword", id, date),
        modified: now(),
    };
    let files = vec![
        mk("old", "2020-01-01T00:00:00+00:00"),
        mk("none", "not a date"),
        mk("new", "2024-05-01T12:00:00+02:00"),
        mk("mid", "2022-01-01T00:00:00Z"),
        mk("none2", ""),
    ];
    let found = cache.search_articles("KEYWORD", &files);
    let ids: Vec<&str> = found.iter().map(|a| a.id.as_str()).collect();
    assert_eq!(ids, vec!["new", "mid", "old", "none", "none2"]);
}

#[test]
fn recent_articles_by_modification_time() {
    let cache = TextCache::new("/data");
    let mk = |id: &str, secs: i64| StoredFile {
        text: format!("---\nid: {}\n---\n", id),
        modified: Timestamp::from_parts(secs, 0).unwrap(),
    };
    let files = vec![mk("a", 10), mk("b", 30), StoredFile { text: "bad".to_string(), modified: now() }, mk("c", 20)];
    let ids: Vec<String> = cache.get_articles(&files, None).into_iter().map(|a| a.id).collect();
    assert_eq!(ids, vec!["b", "c", "a"]);
    let ids: Vec<String> = cache.get_articles(&files, Some(2)).into_iter().map(|a| a.id).collect();
    assert_eq!(ids, vec!["b"]);
}

#[test]
fn equal_times_keep_file_order() {
    let cache = TextCache::new("/data");
    let mk = |id: &str, secs: i64| StoredFile {
        text: format!("---\nid: {}\n---\n", id),
        modified: Timestamp::from_parts(secs, 0).unwrap(),
    };
    let files = vec![mk("a", 10), mk("b", 20), mk("c", 10), mk("d", 20)];
    let ids: Vec<String> = cache.get_articles(&files, None).into_iter().map(|a| a.id).collect();
    assert_eq!(ids, vec!["b", "d", "a", "c"]);
    let without_bad: Vec<String> = cache.search_articles("id", &files).into_iter().map(|a| a.id).collect();
    let mut with_bad = files.clone();
    with_bad.insert(1, StoredFile { text: "id but no header".to_string(), modified: now() });
    let skipped: Vec<String> = cache.search_articles("id", &with_bad).into_iter().map(|a| a.id).collect();
    assert_eq!(without_bad, vec!["a", "b", "c", "d"]);
    assert_eq!(skipped, without_bad);
}

#[test]
fn paths_are_computed_from_ids() {
    let cache = TextCache::new("/data");
    assert_eq!(cache.article_path("a.b/c d"), "/data/articles/a_b_c_d.md");
    assert_eq!(cache.feed_list_path(), "/data/state/feeds.txt");
    assert_eq!(cache.feed_meta_path("https://x.org/rss"), "/data/feeds/https___x_org_rss.json");
    assert_eq!(cache.articles_dir(), "/data/articles");
    assert_eq!(cache.base_dir(), "/data");
}

#[test]
fn feed_list_round_trip() {
    let cache = TextCache::new("/data");
    let urls = vec!["https://a.com/feed".to_string(), "https://b.org/rss".to_string()];
    let text = cache.store_feed_list(&urls);
    assert_eq!(text, "https://a.com/feed\nhttps://b.org/rss");
    assert_eq!(cache.get_feed_list(Some(&text)), urls);
    assert_eq!(cache.get_feed_list(Some("x\r\n\n y\n")), vec!["x".to_string(), " y".to_string()]);
    assert!(cache.get_feed_list(None).is_empty());
    assert_eq!(cache.store_feed_list(&vec![]), "");
}
