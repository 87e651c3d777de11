//! Decisions of the article viewer: scrolling, how it ends, and the texts it
//! shows and writes. Drawing and reading keys are left to the caller.

use vstd::prelude::*;
use crate::record::{opt_view, ArticleView, FeedItem};
use crate::time::{rfc3339_text, Timestamp};
use crate::store::{alphanumeric, is_alphanumeric, lowercase_of, to_lowercase};
use crate::text::{chars_of, string_of};

verus! {

/// Terminal rows taken by the header and the footer.
pub const CHROME_ROWS: u16 = 7;

/// Longest slug of a note's file name, in characters.
pub const MAX_SLUG_CHARS: usize = 50;

/// A key the viewer acts on.
#[derive(Clone, Copy, Debug, PartialEq, Eq, Structural)]
pub enum ViewerKey {
    Quit,
    OpenBrowser,
    CreateNote,
    Down,
    Up,
    PageDown,
    PageUp,
    Home,
    End,
    Other,
}

/// How the viewer ended.
#[derive(Clone, Copy, Debug, PartialEq, Eq, Structural)]
pub enum ViewerMode {
    Reading,
    OpenBrowser,
    CreateNote,
}

/// The scroll position and how the viewer ended.
#[derive(Clone, Copy, Debug, PartialEq, Eq, Structural)]
pub struct ViewerState {
    pub scroll: u16,
    pub mode: ViewerMode,
}

pub open spec fn sat_sub(a: int, b: int) -> int {
    if a > b {
        a - b
    } else {
        0
    }
}

/// Rows left for the article.
pub open spec fn viewport(terminal_height: u16) -> int {
    sat_sub(terminal_height as int, CHROME_ROWS as int)
}

/// The last scroll position at which the article still fills the view.
pub open spec fn max_scroll(content_height: u16, terminal_height: u16) -> int {
    sat_sub(content_height as int, viewport(terminal_height))
}

pub open spec fn min(a: int, b: int) -> int {
    if a < b {
        a
    } else {
        b
    }
}

/// The state after a key, and whether the viewer closes.
pub open spec fn after_key(s: ViewerState, key: ViewerKey, content_height: u16, terminal_height: u16) -> (ViewerState, bool) {
    let top = max_scroll(content_height, terminal_height);
    match key {
        ViewerKey::Quit => (s, true),
        ViewerKey::OpenBrowser => (ViewerState { mode: ViewerMode::OpenBrowser, ..s }, true),
        ViewerKey::CreateNote => (ViewerState { mode: ViewerMode::CreateNote, ..s }, true),
        ViewerKey::Down => if (s.scroll as int) < top {
            (ViewerState { scroll: (s.scroll + 1) as u16, ..s }, false)
        } else {
            (s, false)
        },
        ViewerKey::Up => (ViewerState { scroll: sat_sub(s.scroll as int, 1) as u16, ..s }, false),
        ViewerKey::PageDown => (
            ViewerState { scroll: min(s.scroll + viewport(terminal_height), top) as u16, ..s },
            false,
        ),
        ViewerKey::PageUp => (
            ViewerState { scroll: sat_sub(s.scroll as int, viewport(terminal_height)) as u16, ..s },
            false,
        ),
        ViewerKey::Home => (ViewerState { scroll: 0, ..s }, false),
        ViewerKey::End => (ViewerState { scroll: top as u16, ..s }, false),
        ViewerKey::Other => (s, false),
    }
}

impl ViewerState {
    pub fn new() -> (r: ViewerState)
        ensures
            r.scroll == 0,
            r.mode == ViewerMode::Reading,
    {
        ViewerState { scroll: 0, mode: ViewerMode::Reading }
    }

    /// Acts on a key; tells whether the viewer closes.
    pub fn handle_key(&mut self, key: ViewerKey, content_height: u16, terminal_height: u16) -> (done: bool)
        ensures
            (*final(self), done) == after_key(*old(self), key, content_height, terminal_height),
    {
        let view = terminal_height.saturating_sub(CHROME_ROWS);
        let top = content_height.saturating_sub(view);
        match key {
            ViewerKey::Quit => true,
            ViewerKey::OpenBrowser => {
                self.mode = ViewerMode::OpenBrowser;
                true
            },
            ViewerKey::CreateNote => {
                self.mode = ViewerMode::CreateNote;
                true
            },
            ViewerKey::Down => {
                if self.scroll < top {
                    self.scroll = self.scroll + 1;
                }
                false
            },
            ViewerKey::Up => {
                self.scroll = self.scroll.saturating_sub(1);
                false
            },
            ViewerKey::PageDown => {
                let next: u32 = self.scroll as u32 + view as u32;
                self.scroll = if next < top as u32 {
                    next as u16
                } else {
                    top
                };
                false
            },
            ViewerKey::PageUp => {
                self.scroll = self.scroll.saturating_sub(view);
                false
            },
            ViewerKey::Home => {
                self.scroll = 0;
                false
            },
            ViewerKey::End => {
                self.scroll = top;
                false
            },
            ViewerKey::Other => false,
        }
    }

    /// The process exit code: 0 after reading, 1 to open the link, 2 to write a note.
    pub fn exit_code(&self) -> (r: i32)
        ensures
            self.mode == ViewerMode::Reading ==> r == 0,
            self.mode == ViewerMode::OpenBrowser ==> r == 1,
            self.mode == ViewerMode::CreateNote ==> r == 2,
    {
        match self.mode {
            ViewerMode::Reading => 0,
            ViewerMode::OpenBrowser => 1,
            ViewerMode::CreateNote => 2,
        }
    }
}

/// The lines shown from `scroll` on in a view of `rows` rows: `None` when the
/// scroll is past the end.
pub fn visible_range(scroll: u16, rows: usize, len: usize) -> (r: Option<(usize, usize)>)
    ensures
        (scroll as int) < len ==> r == Some((scroll as usize, min(scroll + rows, len as int) as usize)),
        (scroll as int) >= len ==> r is None,
{
    let start = scroll as usize;
    if start < len {
        let end = if rows < len - start {
            start + rows
        } else {
            len
        };
        Some((start, end))
    } else {
        None
    }
}

pub open spec fn slug_char(c: char) -> bool {
    alphanumeric(c) || c == '-' || c == '_'
}

/// The characters of a title that may stand in a file name.
pub open spec fn slug_chars(s: Seq<char>) -> Seq<char> {
    s.filter(|c: char| slug_char(c))
}

/// The file-name slug of a note: the title's safe characters, lowered, at most
/// fifty of them.
pub open spec fn note_slug_of(title: Seq<char>) -> Seq<char> {
    let l = lowercase_of(slug_chars(title));
    if l.len() <= MAX_SLUG_CHARS {
        l
    } else {
        l.subrange(0, MAX_SLUG_CHARS as int)
    }
}

pub fn note_slug(title: &str) -> (r: String)
    ensures
        r@ == note_slug_of(title@),
{
    let v = chars_of(title);
    let mut kept: Vec<char> = Vec::new();
    let mut i: usize = 0;
    while i < v.len()
        invariant
            i <= v@.len(),
            v@ == title@,
            kept@ == slug_chars(v@.subrange(0, i as int)),
        decreases v@.len() - i,
    {
        proof {
            reveal(Seq::filter);
            assert(v@.subrange(0, i + 1).drop_last() =~= v@.subrange(0, i as int));
        }
        let c = v[i];
        if is_alphanumeric(c) || c == '-' || c == '_' {
            kept.push(c);
        }
        i = i + 1;
    }
    proof {
        assert(v@.subrange(0, v@.len() as int) =~= v@);
    }
    let kept_text = string_of(kept.as_slice());
    let lowered = to_lowercase(kept_text.as_str());
    let l = chars_of(lowered.as_str());
    if l.len() <= MAX_SLUG_CHARS {
        lowered
    } else {
        let mut out: Vec<char> = Vec::new();
        let mut k: usize = 0;
        while k < MAX_SLUG_CHARS
            invariant
                k <= MAX_SLUG_CHARS < l@.len(),
                out@ == l@.subrange(0, k as int),
            decreases MAX_SLUG_CHARS - k,
        {
            out.push(l[k]);
            proof {
                assert(out@ =~= l@.subrange(0, k + 1));
            }
            k = k + 1;
        }
        string_of(out.as_slice())
    }
}

/// A blank line starts at `i`: two newlines in a row.
pub open spec fn blank_at(s: Seq<char>, i: int) -> bool {
    0 <= i && i + 1 < s.len() && s[i] == '\n' && s[i + 1] == '\n'
}

/// The text before the first blank line.
pub open spec fn first_paragraph(s: Seq<char>) -> Seq<char> {
    if exists|i: int| blank_at(s, i) {
        let i = choose|i: int| blank_at(s, i) && forall|j: int| 0 <= j < i ==> !#[trigger] blank_at(s, j);
        s.subrange(0, i)
    } else {
        s
    }
}

pub fn first_paragraph_of(s: &str) -> (r: String)
    ensures
        r@ == first_paragraph(s@),
{
    let v = chars_of(s);
    let mut i: usize = 0;
    while i < v.len() && v.len() - i > 1
        invariant
            v@ == s@,
            i <= v@.len(),
            forall|j: int| 0 <= j < i ==> !#[trigger] blank_at(v@, j),
        decreases v@.len() - i,
    {
        if v[i] == '\n' && v[i + 1] == '\n' {
            let out = slice_prefix(&v, i);
            proof {
                assert(blank_at(s@, i as int));
                let w = choose|w: int| blank_at(s@, w) && forall|j: int| 0 <= j < w ==> !#[trigger] blank_at(s@, j);
                assert(w == i) by {
                    if w < i {
                        assert(!blank_at(v@, w));
                    }
                    if w > i {
                        assert(!blank_at(s@, i as int));
                    }
                }
            }
            return out;
        }
        i = i + 1;
    }
    proof {
        assert forall|w: int| !#[trigger] blank_at(s@, w) by {
            if blank_at(s@, w) {
                assert(w < i);
            }
        }
    }
    s.to_owned()
}

fn slice_prefix(v: &Vec<char>, n: usize) -> (r: String)
    requires
        n <= v@.len(),
    ensures
        r@ == v@.subrange(0, n as int),
{
    let mut out: Vec<char> = Vec::new();
    let mut k: usize = 0;
    while k < n
        invariant
            k <= n <= v@.len(),
            out@ == v@.subrange(0, k as int),
        decreases n - k,
    {
        out.push(v[k]);
        proof {
            assert(out@ =~= v@.subrange(0, k + 1));
        }
        k = k + 1;
    }
    string_of(out.as_slice())
}

pub open spec fn author_part(a: ArticleView) -> Seq<char> {
    match a.author {
        Some(x) => "Author: "@ + x + "\n"@,
        None => Seq::<char>::empty(),
    }
}

pub open spec fn date_part(label: Seq<char>, p: Option<Timestamp>) -> Seq<char> {
    match p {
        Some(t) => label + rfc3339_text(t.spec_secs(), t.spec_nanos()) + "\n"@,
        None => Seq::<char>::empty(),
    }
}

/// The text the viewer scrolls through: author, date and link, a rule, then
/// the article's body as rendered.
pub open spec fn article_text_of(a: ArticleView, body: Seq<char>) -> Seq<char> {
    author_part(a) + date_part("Published: "@, a.published) + "Link: "@ + a.link + "\n"@
        + "\n\u{2500}\u{2500}\u{2500}\u{2500}\u{2500}\u{2500}\u{2500}\u{2500}\u{2500}\u{2500}\u{2500}\u{2500}\u{2500}\u{2500}\u{2500}\u{2500}\u{2500}\u{2500}\u{2500}\u{2500}\u{2500}\u{2500}\u{2500}\u{2500}\u{2500}\u{2500}\u{2500}\u{2500}\u{2500}\u{2500}\u{2500}\u{2500}\u{2500}\u{2500}\u{2500}\u{2500}\u{2500}\u{2500}\u{2500}\u{2500}\n\n"@ + body
}

fn push_date(out: &mut String, label: &str, p: Option<Timestamp>)
    ensures
        final(out)@ == old(out)@ + date_part(label@, p),
{
    match p {
        Some(t) => {
            let d = t.to_rfc3339();
            out.append(label);
            out.append(d.as_str());
            out.append("\n");
        },
        None => {},
    }
}

/// The body that the viewer renders: the content, else the description.
pub fn body_source(item: &FeedItem) -> (r: Option<&str>)
    ensures
        match (r, opt_view(item.content), opt_view(item.description)) {
            (Some(b), Some(c), _) => b@ == c,
            (Some(b), None, Some(d)) => b@ == d,
            (None, None, None) => true,
            _ => false,
        },
{
    match &item.content {
        Some(c) => Some(c.as_str()),
        None => match &item.description {
            Some(d) => Some(d.as_str()),
            None => None,
        },
    }
}

/// The text the viewer shows for an article whose body rendered as `body`.
pub fn article_text(item: &FeedItem, body: &str) -> (r: String)
    ensures
        r@ == article_text_of(item@, body@),
{
    let mut out = String::new();
    match &item.author {
        Some(a) => {
            out.append("Author: ");
            out.append(a.as_str());
            out.append("\n");
        },
        None => {},
    }
    push_date(&mut out, "Published: ", item.published);
    out.append("Link: ");
    out.append(item.link.as_str());
    out.append("\n");
    out.append("\n\u{2500}\u{2500}\u{2500}\u{2500}\u{2500}\u{2500}\u{2500}\u{2500}\u{2500}\u{2500}\u{2500}\u{2500}\u{2500}\u{2500}\u{2500}\u{2500}\u{2500}\u{2500}\u{2500}\u{2500}\u{2500}\u{2500}\u{2500}\u{2500}\u{2500}\u{2500}\u{2500}\u{2500}\u{2500}\u{2500}\u{2500}\u{2500}\u{2500}\u{2500}\u{2500}\u{2500}\u{2500}\u{2500}\u{2500}\u{2500}\n\n");
    out.append(body);
    out
}

/// The text of a note on an article: title, source, feed and date, the
/// summary where there is one, and an empty notes section.
pub open spec fn note_text_of(a: ArticleView, summary: Option<Seq<char>>) -> Seq<char> {
    "# "@ + a.title + "\n\n"@ + "Source: "@ + a.link + "\n"@ + "Feed: "@ + a.feed_url + "\n"@
        + date_part("Date: "@, a.published) + "\n## Summary\n\n"@ + match summary {
        Some(x) => x,
        None => Seq::<char>::empty(),
    } + "\n\n## Notes\n\n"@
}

/// The text of a note on an article; `summary` is the first paragraph of its
/// rendered content, where it has content.
pub fn note_text(item: &FeedItem, summary: Option<&str>) -> (r: String)
    ensures
        r@ == note_text_of(item@, match summary {
            Some(x) => Some(x@),
            None => None,
        }),
{
    let mut out = String::new();
    out.append("# ");
    out.append(item.title.as_str());
    out.append("\n\n");
    out.append("Source: ");
    out.append(item.link.as_str());
    out.append("\n");
    out.append("Feed: ");
    out.append(item.feed_url.as_str());
    out.append("\n");
    push_date(&mut out, "Date: ", item.published);
    out.append("\n## Summary\n\n");
    match summary {
        Some(x) => out.append(x),
        None => {},
    }
    out.append("\n\n## Notes\n\n");
    out
}

} // verus!
