//! The article file: a header of `key: value` lines between two `---`
//! delimiters, then the body.

use vstd::prelude::*;
use crate::record::{ArticleView, FeedItem};
use crate::text::{
    chars_of, eq_str, find_char, find_char_from, find_delim, find_delim_from, lemma_split_nl_len,
    slice_of, split_nl, string_of, trim, trim_slice,
};
use crate::roundtrip::{date_of, lemma_read_back, read_back, round_trip_safe};
use crate::time::{date_shaped, in_range, rfc3339_parsed, rfc3339_text, timestamp_of, Timestamp};

verus! {

/// Why an article file could not be read.
#[derive(Clone, Copy, Debug, PartialEq, Eq, Structural)]
pub enum DecodeError {
    /// The text holds fewer than two `---` delimiters.
    MalformedFrontmatter,
}

pub open spec fn bool_text(b: bool) -> Seq<char> {
    if b {
        "true"@
    } else {
        "false"@
    }
}

pub open spec fn text_or_empty(o: Option<Seq<char>>) -> Seq<char> {
    match o {
        Some(s) => s,
        None => Seq::<char>::empty(),
    }
}

/// Newlines turned into spaces.
pub open spec fn collapse_newlines(s: Seq<char>) -> Seq<char> {
    s.map_values(|c: char| if c == '\n' { ' ' } else { c })
}

/// The instant written for an article: its own, or `now` where it has none.
pub open spec fn written_date(r: ArticleView, now: Timestamp) -> Timestamp {
    match r.published {
        Some(t) => t,
        None => now,
    }
}

pub open spec fn header_text(r: ArticleView, now: Timestamp) -> Seq<char> {
    let d = written_date(r, now);
    "\nid: "@ + r.id + "\nfeed: "@ + r.feed_url + "\ntitle: "@ + collapse_newlines(r.title)
        + "\nlink: "@ + r.link + "\nauthor: "@ + text_or_empty(r.author) + "\ndate: "@
        + rfc3339_text(d.spec_secs(), d.spec_nanos()) + "\nread: "@ + bool_text(r.read)
        + "\nstarred: "@ + bool_text(r.starred) + "\n"@
}

pub open spec fn body_text(r: ArticleView) -> Seq<char> {
    "\n\n# "@ + r.title + "\n\n"@ + text_or_empty(r.description) + "\n\n"@ + text_or_empty(
        r.content,
    ) + "\n\n[Read original]("@ + r.link + ")\n"@
}

/// The file text of an article.
pub open spec fn encoded(r: ArticleView, now: Timestamp) -> Seq<char> {
    "---"@ + header_text(r, now) + "---"@ + body_text(r)
}

/// The text before the first delimiter, between the first two, and after the
/// second; `None` with fewer than two delimiters.
pub open spec fn split3(s: Seq<char>) -> Option<(Seq<char>, Seq<char>, Seq<char>)> {
    match find_delim_from(s, 0) {
        None => None,
        Some(i) => match find_delim_from(s, i + 3) {
            None => None,
            Some(j) => Some((s.subrange(0, i), s.subrange(i + 3, j), s.subrange(j + 3, s.len() as int))),
        },
    }
}

/// The header fields read so far.
pub struct HeaderView {
    pub id: Seq<char>,
    pub feed_url: Seq<char>,
    pub title: Seq<char>,
    pub link: Seq<char>,
    pub author: Option<Seq<char>>,
    pub published: Option<Timestamp>,
    pub read: bool,
    pub starred: bool,
}

pub open spec fn empty_header() -> HeaderView {
    HeaderView {
        id: Seq::<char>::empty(),
        feed_url: Seq::<char>::empty(),
        title: Seq::<char>::empty(),
        link: Seq::<char>::empty(),
        author: None,
        published: None,
        read: false,
        starred: false,
    }
}

/// What one header line does: `key: value`, split at the first colon, both
/// sides trimmed; a line without a colon or with an unknown key changes nothing.
pub open spec fn apply_line(h: HeaderView, line: Seq<char>) -> HeaderView {
    match find_char_from(line, ':', 0) {
        None => h,
        Some(c) => {
            let key = trim(line.subrange(0, c));
            let value = trim(line.subrange(c + 1, line.len() as int));
            if key == "id"@ {
                HeaderView { id: value, ..h }
            } else if key == "feed"@ {
                HeaderView { feed_url: value, ..h }
            } else if key == "title"@ {
                HeaderView { title: value, ..h }
            } else if key == "link"@ {
                HeaderView { link: value, ..h }
            } else if key == "author"@ {
                if value.len() > 0 {
                    HeaderView { author: Some(value), ..h }
                } else {
                    h
                }
            } else if key == "date"@ {
                HeaderView { published: timestamp_of(rfc3339_parsed(value)), ..h }
            } else if key == "read"@ {
                HeaderView { read: value == "true"@, ..h }
            } else if key == "starred"@ {
                HeaderView { starred: value == "true"@, ..h }
            } else {
                h
            }
        },
    }
}

/// The header lines applied in order.
pub open spec fn read_header(lines: Seq<Seq<char>>) -> HeaderView
    decreases lines.len(),
{
    if lines.len() == 0 {
        empty_header()
    } else {
        apply_line(read_header(lines.drop_last()), lines.last())
    }
}

pub open spec fn article_of(h: HeaderView, body: Seq<char>) -> ArticleView {
    ArticleView {
        id: h.id,
        feed_url: h.feed_url,
        title: h.title,
        link: h.link,
        description: Some(body),
        published: h.published,
        author: h.author,
        content: Some(body),
        read: h.read,
        starred: h.starred,
    }
}

/// The article that a file text holds.
pub open spec fn decoded(s: Seq<char>) -> Result<ArticleView, DecodeError> {
    match split3(s) {
        None => Err(DecodeError::MalformedFrontmatter),
        Some((_, header, body)) => Ok(article_of(read_header(split_nl(header)), body)),
    }
}

struct HeaderFields {
    id: String,
    feed_url: String,
    title: String,
    link: String,
    author: Option<String>,
    published: Option<Timestamp>,
    read: bool,
    starred: bool,
}

impl View for HeaderFields {
    type V = HeaderView;

    closed spec fn view(&self) -> HeaderView {
        HeaderView {
            id: self.id@,
            feed_url: self.feed_url@,
            title: self.title@,
            link: self.link@,
            author: crate::record::opt_view(self.author),
            published: self.published,
            read: self.read,
            starred: self.starred,
        }
    }
}

impl HeaderFields {
    fn new() -> (r: HeaderFields)
        ensures
            r@ == empty_header(),
    {
        HeaderFields {
            id: String::new(),
            feed_url: String::new(),
            title: String::new(),
            link: String::new(),
            author: None,
            published: None,
            read: false,
            starred: false,
        }
    }

    fn apply(&mut self, line: &Vec<char>)
        ensures
            final(self)@ == apply_line(old(self)@, line@),
    {
        let n = line.len();
        let c = match find_char(line, ':') {
            None => return,
            Some(c) => c,
        };
        let key = trim_slice(line, 0, c);
        let value = trim_slice(line, c + 1, n);
        if eq_str(&key, "id") {
            self.id = string_of(value.as_slice());
        } else if eq_str(&key, "feed") {
            self.feed_url = string_of(value.as_slice());
        } else if eq_str(&key, "title") {
            self.title = string_of(value.as_slice());
        } else if eq_str(&key, "link") {
            self.link = string_of(value.as_slice());
        } else if eq_str(&key, "author") {
            if value.len() > 0 {
                self.author = Some(string_of(value.as_slice()));
            }
        } else if eq_str(&key, "date") {
            let text = string_of(value.as_slice());
            self.published = Timestamp::parse_rfc3339(text.as_str());
        } else if eq_str(&key, "read") {
            self.read = eq_str(&value, "true");
        } else if eq_str(&key, "starred") {
            self.starred = eq_str(&value, "true");
        }
    }
}

/// Reads the header lines of `v[lo..hi]`.
fn read_header_range(v: &Vec<char>, lo: usize, hi: usize) -> (r: HeaderFields)
    requires
        lo <= hi <= v@.len(),
    ensures
        r@ == read_header(split_nl(v@.subrange(lo as int, hi as int))),
{
    let mut h = HeaderFields::new();
    let mut cur: Vec<char> = Vec::new();
    let mut k: usize = lo;
    proof {
        assert(v@.subrange(lo as int, lo as int) =~= Seq::<char>::empty());
        assert(split_nl(Seq::<char>::empty()).drop_last() =~= Seq::<Seq<char>>::empty());
    }
    while k < hi
        invariant
            lo <= k <= hi <= v@.len(),
            h@ == read_header(split_nl(v@.subrange(lo as int, k as int)).drop_last()),
            cur@ == split_nl(v@.subrange(lo as int, k as int)).last(),
        decreases hi - k,
    {
        let ghost prev = split_nl(v@.subrange(lo as int, k as int));
        proof {
            lemma_split_nl_len(v@.subrange(lo as int, k as int));
            let sub = v@.subrange(lo as int, k + 1);
            assert(sub.drop_last() =~= v@.subrange(lo as int, k as int));
            assert(sub.last() == v@[k as int]);
        }
        if v[k] == '\n' {
            proof {
                assert(prev.drop_last().push(prev.last()) =~= prev);
                assert(split_nl(v@.subrange(lo as int, k + 1)).drop_last() =~= prev);
            }
            h.apply(&cur);
            cur = Vec::new();
        } else {
            proof {
                assert(split_nl(v@.subrange(lo as int, k + 1)).drop_last() =~= prev.drop_last());
            }
            cur.push(v[k]);
        }
        k = k + 1;
    }
    proof {
        let ls = split_nl(v@.subrange(lo as int, hi as int));
        lemma_split_nl_len(v@.subrange(lo as int, hi as int));
        assert(ls.drop_last().push(ls.last()) =~= ls);
    }
    h.apply(&cur);
    h
}

/// Reads an article file. The header is the text between the first two `---`
/// delimiters, the body all that follows the second; the body becomes both the
/// description and the content.
pub fn decode_article(text: &str) -> (r: Result<FeedItem, DecodeError>)
    ensures
        match (r, decoded(text@)) {
            (Ok(item), Ok(a)) => item@ == a,
            (Err(e), Err(d)) => e == d,
            _ => false,
        },
{
    let v = chars_of(text);
    let i = match find_delim(&v, 0) {
        None => return Err(DecodeError::MalformedFrontmatter),
        Some(i) => i,
    };
    let j = match find_delim(&v, i + 3) {
        None => return Err(DecodeError::MalformedFrontmatter),
        Some(j) => j,
    };
    let h = read_header_range(&v, i + 3, j);
    let body_chars = slice_of(&v, j + 3, v.len());
    let body = string_of(body_chars.as_slice());
    let item = FeedItem {
        id: h.id,
        feed_url: h.feed_url,
        title: h.title,
        link: h.link,
        description: Some(body.clone()),
        published: h.published,
        author: h.author,
        content: Some(body),
        read: h.read,
        starred: h.starred,
    };
    Ok(item)
}

fn bool_str(b: bool) -> (r: &'static str)
    ensures
        r@ == bool_text(b),
{
    proof {
        reveal_strlit("true");
        reveal_strlit("false");
    }
    if b {
        "true"
    } else {
        "false"
    }
}

fn opt_str(o: &Option<String>) -> (r: &str)
    ensures
        r@ == text_or_empty(crate::record::opt_view(*o)),
{
    match o {
        Some(s) => s.as_str(),
        None => {
            proof {
                reveal_strlit("");
            }
            ""
        },
    }
}

fn collapse_title(s: &str) -> (r: String)
    ensures
        r@ == collapse_newlines(s@),
{
    let v = chars_of(s);
    let mut out: Vec<char> = Vec::new();
    let mut i: usize = 0;
    while i < v.len()
        invariant
            i <= v@.len(),
            v@ == s@,
            out@ == collapse_newlines(v@.subrange(0, i as int)),
        decreases v@.len() - i,
    {
        if v[i] == '\n' {
            out.push(' ');
        } else {
            out.push(v[i]);
        }
        proof {
            assert(collapse_newlines(v@.subrange(0, i + 1)) =~= collapse_newlines(
                v@.subrange(0, i as int),
            ).push(if v@[i as int] == '\n' { ' ' } else { v@[i as int] }));
        }
        i = i + 1;
    }
    proof {
        assert(v@.subrange(0, v@.len() as int) =~= v@);
    }
    string_of(out.as_slice())
}

fn encode_header(item: &FeedItem, now: Timestamp) -> (r: String)
    ensures
        r@ == header_text(item@, now),
        in_range(written_date(item@, now).spec_secs() as int, written_date(item@, now).spec_nanos() as int),
        date_shaped(date_of(item@, now)),
        rfc3339_parsed(date_of(item@, now)) == Some(
            (written_date(item@, now).spec_secs(), written_date(item@, now).spec_nanos()),
        ),
{
    let date = match item.published {
        Some(t) => t,
        None => now,
    };
    let date_text = date.to_rfc3339();
    let title = collapse_title(item.title.as_str());
    let mut s = String::new();
    s.append("\nid: ");
    s.append(item.id.as_str());
    s.append("\nfeed: ");
    s.append(item.feed_url.as_str());
    s.append("\ntitle: ");
    s.append(title.as_str());
    s.append("\nlink: ");
    s.append(item.link.as_str());
    s.append("\nauthor: ");
    s.append(opt_str(&item.author));
    s.append("\ndate: ");
    s.append(date_text.as_str());
    s.append("\nread: ");
    s.append(bool_str(item.read));
    s.append("\nstarred: ");
    s.append(bool_str(item.starred));
    s.append("\n");
    s
}

fn encode_body(item: &FeedItem) -> (r: String)
    ensures
        r@ == body_text(item@),
{
    let mut s = String::new();
    s.append("\n\n# ");
    s.append(item.title.as_str());
    s.append("\n\n");
    s.append(opt_str(&item.description));
    s.append("\n\n");
    s.append(opt_str(&item.content));
    s.append("\n\n[Read original](");
    s.append(item.link.as_str());
    s.append(")\n");
    s
}

/// The file text of an article; `now` stands for a missing publication date.
/// Where the header values are single lines without `---`, the text reads back
/// as the article with those values trimmed, the title on one line, its date,
/// and the rendered body as description and content.
pub fn encode_article(item: &FeedItem, now: Timestamp) -> (r: String)
    ensures
        r@ == encoded(item@, now),
        round_trip_safe(item@) ==> decoded(r@) == Ok::<ArticleView, DecodeError>(read_back(item@, now)),
{
    let header = encode_header(item, now);
    proof {
        if round_trip_safe(item@) {
            lemma_read_back(item@, now);
        }
    }
    let body = encode_body(item);
    let mut s = String::new();
    s.append("---");
    s.append(header.as_str());
    s.append("---");
    s.append(body.as_str());
    s
}

} // verus!
