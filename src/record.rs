//! Articles and feeds as the library holds them.

use vstd::prelude::*;
use crate::time::Timestamp;

verus! {

/// One syndicated article with its reading state.
#[derive(Clone, Debug)]
pub struct FeedItem {
    pub id: String,
    pub feed_url: String,
    pub title: String,
    pub link: String,
    pub description: Option<String>,
    pub published: Option<Timestamp>,
    pub author: Option<String>,
    pub content: Option<String>,
    pub read: bool,
    pub starred: bool,
}

/// The value of an article, its texts as character sequences.
pub struct ArticleView {
    pub id: Seq<char>,
    pub feed_url: Seq<char>,
    pub title: Seq<char>,
    pub link: Seq<char>,
    pub description: Option<Seq<char>>,
    pub published: Option<Timestamp>,
    pub author: Option<Seq<char>>,
    pub content: Option<Seq<char>>,
    pub read: bool,
    pub starred: bool,
}

pub open spec fn opt_view(o: Option<String>) -> Option<Seq<char>> {
    match o {
        Some(s) => Some(s@),
        None => None,
    }
}

impl View for FeedItem {
    type V = ArticleView;

    open spec fn view(&self) -> ArticleView {
        ArticleView {
            id: self.id@,
            feed_url: self.feed_url@,
            title: self.title@,
            link: self.link@,
            description: opt_view(self.description),
            published: self.published,
            author: opt_view(self.author),
            content: opt_view(self.content),
            read: self.read,
            starred: self.starred,
        }
    }
}

/// One fetched feed: its metadata and its articles in the order the source gave.
#[derive(Clone, Debug)]
pub struct Feed {
    pub url: String,
    pub title: String,
    pub description: Option<String>,
    pub last_fetched: Option<Timestamp>,
    pub items: Vec<FeedItem>,
}

/// Articles found by a query, and how many there are.
#[derive(Clone, Debug)]
pub struct SearchResult {
    pub items: Vec<FeedItem>,
    pub total: usize,
}

impl SearchResult {
    pub fn new(items: Vec<FeedItem>) -> (r: SearchResult)
        ensures
            r.items@ == items@,
            r.total == items@.len(),
    {
        let total = items.len();
        SearchResult { items, total }
    }
}

} // verus!
