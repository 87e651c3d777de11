//! Turning a parsed feed document into the library's feed and articles.

use vstd::prelude::*;
use crate::record::{opt_view, ArticleView, Feed, FeedItem};
use crate::time::Timestamp;

verus! {

/// Why a feed could not be had.
#[derive(Clone, Copy, Debug, PartialEq, Eq, Structural)]
pub enum FetchError {
    /// The request failed or timed out.
    Network,
    /// The server answered with a status outside 200 to 299.
    Status(u16),
    /// The document is not a feed.
    Parse,
}

/// What the library reads of one entry of a feed document.
#[derive(Clone, Debug)]
pub struct EntryFields {
    pub id: String,
    pub title: Option<String>,
    /// The entry's links, in document order.
    pub links: Vec<String>,
    pub summary: Option<String>,
    /// The names of the entry's authors, in document order.
    pub authors: Vec<String>,
    pub content: Option<String>,
    pub published: Option<Timestamp>,
    pub updated: Option<Timestamp>,
}

/// What the library reads of a feed document.
#[derive(Clone, Debug)]
pub struct FeedDocument {
    pub title: Option<String>,
    pub description: Option<String>,
    pub entries: Vec<EntryFields>,
}

pub open spec fn or_else<T>(a: Option<T>, b: Option<T>) -> Option<T> {
    match a {
        Some(x) => Some(x),
        None => b,
    }
}

pub open spec fn text_or(a: Option<Seq<char>>, d: Seq<char>) -> Seq<char> {
    match a {
        Some(x) => x,
        None => d,
    }
}

/// The first of some texts, if any.
pub open spec fn first_text(v: Seq<String>) -> Option<Seq<char>> {
    if v.len() > 0 {
        Some(v[0]@)
    } else {
        None
    }
}

/// The article an entry becomes: untitled entries are called `Untitled`, the
/// link is the first of the entry's links or else the feed's URL, the author is
/// the first author, a missing date is the update time, missing content is the
/// summary, and the article starts unread and unstarred.
pub open spec fn normalized(url: Seq<char>, e: EntryFields) -> ArticleView {
    ArticleView {
        id: e.id@,
        feed_url: url,
        title: text_or(opt_view(e.title), "Untitled"@),
        link: text_or(first_text(e.links@), url),
        description: opt_view(e.summary),
        published: or_else(e.published, e.updated),
        author: first_text(e.authors@),
        content: or_else(opt_view(e.content), opt_view(e.summary)),
        read: false,
        starred: false,
    }
}

fn clone_opt(o: &Option<String>) -> (r: Option<String>)
    ensures
        opt_view(r) == opt_view(*o),
{
    match o {
        Some(s) => Some(s.clone()),
        None => None,
    }
}

fn first_of(v: &Vec<String>) -> (r: Option<String>)
    ensures
        opt_view(r) == first_text(v@),
{
    if v.len() > 0 {
        Some(v[0].clone())
    } else {
        None
    }
}

/// The article for one entry of the feed at `url`.
pub fn normalize_entry(url: &str, e: &EntryFields) -> (r: FeedItem)
    ensures
        r@ == normalized(url@, *e),
{
    let title = match &e.title {
        Some(t) => t.clone(),
        None => String::from_str("Untitled"),
    };
    let link = match first_of(&e.links) {
        Some(l) => l,
        None => url.to_owned(),
    };
    let published = match e.published {
        Some(p) => Some(p),
        None => e.updated,
    };
    let content = match &e.content {
        Some(c) => Some(c.clone()),
        None => clone_opt(&e.summary),
    };
    FeedItem {
        id: e.id.clone(),
        feed_url: url.to_owned(),
        title,
        link,
        description: clone_opt(&e.summary),
        published,
        author: first_of(&e.authors),
        content,
        read: false,
        starred: false,
    }
}

/// The feed at `url` as normalization makes it: titled by its URL where it has
/// no title, fetched at `fetched_at`, its entries as articles in order.
pub open spec fn normalized_feed(
    f: Feed,
    url: Seq<char>,
    title: Option<Seq<char>>,
    description: Option<Seq<char>>,
    entries: Seq<EntryFields>,
    fetched_at: Timestamp,
) -> bool {
    &&& f.url@ == url
    &&& f.title@ == text_or(title, url)
    &&& opt_view(f.description) == description
    &&& f.last_fetched == Some(fetched_at)
    &&& f.items@.len() == entries.len()
    &&& forall|k: int| 0 <= k < entries.len() ==> (#[trigger] f.items@[k])@ == normalized(url, entries[k])
}

/// The feed at `url` with its entries as articles, in the document's order; an
/// untitled feed is called by its URL.
pub fn normalize_feed(
    url: &str,
    title: Option<String>,
    description: Option<String>,
    entries: &Vec<EntryFields>,
    fetched_at: Timestamp,
) -> (r: Feed)
    ensures
        normalized_feed(r, url@, opt_view(title), opt_view(description), entries@, fetched_at),
{
    let mut items: Vec<FeedItem> = Vec::new();
    let mut k: usize = 0;
    while k < entries.len()
        invariant
            k <= entries@.len(),
            items@.len() == k,
            forall|j: int| 0 <= j < k ==> (#[trigger] items@[j])@ == normalized(url@, entries@[j]),
        decreases entries@.len() - k,
    {
        items.push(normalize_entry(url, &entries[k]));
        k = k + 1;
    }
    let feed_title = match title {
        Some(t) => t,
        None => url.to_owned(),
    };
    Feed { url: url.to_owned(), title: feed_title, description, last_fetched: Some(fetched_at), items }
}

/// A status that `reqwest::StatusCode::is_success` accepts.
pub open spec fn success_status(status: u16) -> bool {
    200 <= status && status <= 299
}

/// Whether a server's status lets the body be read as a feed.
pub fn status_ok(status: u16) -> (r: bool)
    ensures
        r == success_status(status),
{
    200 <= status && status <= 299
}

/// The feed that a server's answer holds: `document` is what the body parsed
/// to, `None` where it is no feed. A status outside 200 to 299 fails whatever
/// the body holds.
pub fn feed_from_response(
    url: &str,
    status: u16,
    document: Option<FeedDocument>,
    fetched_at: Timestamp,
) -> (r: Result<Feed, FetchError>)
    ensures
        !success_status(status) ==> r == Err::<Feed, FetchError>(FetchError::Status(status)),
        success_status(status) && document is None ==> r == Err::<Feed, FetchError>(FetchError::Parse),
        success_status(status) && document is Some ==> (r matches Ok(f) && normalized_feed(
            f,
            url@,
            opt_view(document->Some_0.title),
            opt_view(document->Some_0.description),
            document->Some_0.entries@,
            fetched_at,
        )),
{
    if !status_ok(status) {
        return Err(FetchError::Status(status));
    }
    match document {
        None => Err(FetchError::Parse),
        Some(d) => Ok(normalize_feed(url, d.title, d.description, &d.entries, fetched_at)),
    }
}

} // verus!
