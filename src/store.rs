//! The article store: where each file lives, what is written on insertion and
//! on a state change, and what the scans over stored files return. Reading and
//! writing the files is left to the caller, who hands texts in and out.

use vstd::prelude::*;
use crate::codec::{bool_text, decode_article, decoded, encode_article, encoded, split3};
use crate::order::{is_permutation, newest_first, order_newest_first, stable};
use crate::record::{ArticleView, Feed, FeedItem};
use crate::text::{
    chars_of, eq_str, find_char, find_char_from, find_delim, join_nl, join_terminated,
    lemma_split_nl_len, push_str, slice_of, split_nl, string_of, trim, trim_slice,
    contains_chars, contains_seq,
};
use crate::roundtrip::{read_back, round_trip_safe};
use crate::time::{rfc3339_text, Timestamp};

verus! {

/// Why a store operation failed.
#[derive(Clone, Copy, Debug, PartialEq, Eq, Structural)]
pub enum StoreError {
    /// Reading or writing a file failed.
    IoError,
    /// A stored file is not an article.
    MalformedRecord,
    /// No article is stored under the id.
    NotFound,
}

/// A header flag that can change in place.
#[derive(Clone, Copy, Debug, PartialEq, Eq, Structural)]
pub enum StateField {
    Read,
    Starred,
}

/// Whether `char::is_alphanumeric` holds of a character.
pub uninterp spec fn alphanumeric(c: char) -> bool;

/// Relies on `char::is_alphanumeric`.
#[verifier::external_body]
pub(crate) fn is_alphanumeric(c: char) -> (r: bool)
    ensures
        r == alphanumeric(c),
{
    c.is_alphanumeric()
}

/// What `str::to_lowercase` returns.
pub uninterp spec fn lowercase_of(s: Seq<char>) -> Seq<char>;

/// Relies on `str::to_lowercase`: the result depends on the characters alone.
#[verifier::external_body]
pub(crate) fn to_lowercase(s: &str) -> (r: String)
    ensures
        r@ == lowercase_of(s@),
{
    s.to_lowercase()
}

/// What `serde_json::to_string_pretty` writes for an object with the members
/// `url`, `title`, `description` (null where absent) and `last_fetched`.
pub uninterp spec fn feed_meta_json(
    url: Seq<char>,
    title: Seq<char>,
    description: Option<Seq<char>>,
    last_fetched: Seq<char>,
) -> Seq<char>;

/// Relies on `serde_json::to_string_pretty` of a `serde_json::Value` object
/// built from four members. It cannot fail there: the keys are strings, every
/// member is a string or null, and the text goes to a `Vec`.
#[verifier::external_body]
fn feed_meta_text(url: &str, title: &str, description: &Option<String>, last_fetched: &str) -> (r: Option<String>)
    ensures
        r is Some,
        r matches Some(t) ==> t@ == feed_meta_json(
            url@,
            title@,
            crate::record::opt_view(*description),
            last_fetched@,
        ),
{
    let mut m = serde_json::Map::new();
    m.insert("url".to_string(), serde_json::Value::from(url));
    m.insert("title".to_string(), serde_json::Value::from(title));
    m.insert("description".to_string(), serde_json::Value::from(description.clone()));
    m.insert("last_fetched".to_string(), serde_json::Value::from(last_fetched));
    serde_json::to_string_pretty(&serde_json::Value::Object(m)).ok()
}

pub const MAX_NAME_CHARS: usize = 50;

pub open spec fn safe_char(c: char) -> char {
    if alphanumeric(c) || c == '-' || c == '_' {
        c
    } else {
        '_'
    }
}

/// The file-name stem for a key: unsafe characters become `_`, and at most
/// fifty characters are kept.
pub open spec fn sanitized(s: Seq<char>) -> Seq<char> {
    let m = s.map_values(|c: char| safe_char(c));
    if m.len() <= MAX_NAME_CHARS {
        m
    } else {
        m.subrange(0, MAX_NAME_CHARS as int)
    }
}

/// The file-name stem for a key.
pub fn sanitize_filename(s: &str) -> (r: String)
    ensures
        r@ == sanitized(s@),
{
    let v = chars_of(s);
    let mut out: Vec<char> = Vec::new();
    let mut i: usize = 0;
    while i < v.len() && i < MAX_NAME_CHARS
        invariant
            i <= v@.len(),
            i <= MAX_NAME_CHARS,
            v@ == s@,
            out@ == v@.map_values(|c: char| safe_char(c)).subrange(0, i as int),
        decreases v@.len() - i,
    {
        let c = v[i];
        if is_alphanumeric(c) || c == '-' || c == '_' {
            out.push(c);
        } else {
            out.push('_');
        }
        proof {
            assert(out@ =~= v@.map_values(|c: char| safe_char(c)).subrange(0, i + 1));
        }
        i = i + 1;
    }
    proof {
        let m = v@.map_values(|c: char| safe_char(c));
        if m.len() <= MAX_NAME_CHARS {
            assert(m.subrange(0, m.len() as int) =~= m);
        }
    }
    string_of(out.as_slice())
}

/// A file to write: where, and what.
#[derive(Clone, Debug)]
pub struct FileWrite {
    pub path: String,
    pub text: String,
}

/// What storing a feed writes: new article files in feed order, then the
/// feed's metadata.
#[derive(Clone, Debug)]
pub struct FeedWrites {
    pub articles: Vec<FileWrite>,
    pub meta: FileWrite,
}

/// A stored article file as read from disk.
#[derive(Clone, Debug)]
pub struct StoredFile {
    pub text: String,
    pub modified: Timestamp,
}

/// Text-based cache of articles and feeds, rooted at one directory:
/// `articles/<key>.md`, `feeds/<key>.json` and `state/feeds.txt`.
pub struct TextCache {
    base_dir: String,
    articles_dir: String,
    feeds_dir: String,
    state_dir: String,
}

/// The header line that sets a field.
pub open spec fn field_name(f: StateField) -> Seq<char> {
    match f {
        StateField::Read => "read"@,
        StateField::Starred => "starred"@,
    }
}

/// The key of a header line: the trimmed text before its first colon.
pub open spec fn line_key(line: Seq<char>) -> Option<Seq<char>> {
    match find_char_from(line, ':', 0) {
        None => None,
        Some(c) => Some(trim(line.subrange(0, c))),
    }
}

pub open spec fn setter_line(f: StateField, v: bool) -> Seq<char> {
    field_name(f) + ": "@ + bool_text(v)
}

pub open spec fn patch_line(line: Seq<char>, f: StateField, v: bool) -> Seq<char> {
    if line_key(line) == Some(field_name(f)) {
        setter_line(f, v)
    } else {
        line
    }
}

pub open spec fn patch_lines(ls: Seq<Seq<char>>, f: StateField, v: bool) -> Seq<Seq<char>> {
    ls.map_values(|l: Seq<char>| patch_line(l, f, v))
}

pub open spec fn has_field_line(ls: Seq<Seq<char>>, f: StateField) -> bool {
    exists|k: int| 0 <= k < ls.len() && line_key(#[trigger] ls[k]) == Some(field_name(f))
}

/// The header with every line of the field's key rewritten, or, where it has
/// none, with such a line added before its last line (the one that the closing
/// delimiter follows).
pub open spec fn patched_header(h: Seq<char>, f: StateField, v: bool) -> Seq<char> {
    let ls = split_nl(h);
    if has_field_line(ls, f) {
        join_nl(patch_lines(ls, f, v))
    } else {
        join_nl(ls.drop_last().push(setter_line(f, v)).push(ls.last()))
    }
}

/// Without a line of the field's key, patching changes no line.
pub proof fn lemma_patch_lines_none(ls: Seq<Seq<char>>, f: StateField, v: bool)
    requires
        !has_field_line(ls, f),
    ensures
        patch_lines(ls, f, v) == ls,
{
    assert forall|k: int| 0 <= k < ls.len() implies #[trigger] patch_lines(ls, f, v)[k] == ls[k] by {
        if line_key(ls[k]) == Some(field_name(f)) {
            assert(has_field_line(ls, f));
        }
    }
    assert(patch_lines(ls, f, v) =~= ls);
}

/// The file text with the field set; all outside the header is kept as it is.
pub open spec fn patched(s: Seq<char>, f: StateField, v: bool) -> Option<Seq<char>> {
    match split3(s) {
        None => None,
        Some((before, h, body)) => Some(before + "---"@ + patched_header(h, f, v) + "---"@ + body),
    }
}

/// The text that setting a field leaves in an article file, or why there is none.
pub open spec fn set_field_result(file: Option<Seq<char>>, f: StateField, v: bool) -> Result<Seq<char>, StoreError> {
    match file {
        None => Err(StoreError::NotFound),
        Some(t) => match patched(t, f, v) {
            None => Err(StoreError::MalformedRecord),
            Some(p) => Ok(p),
        },
    }
}

pub open spec fn opt_text(file: Option<&str>) -> Option<Seq<char>> {
    match file {
        Some(t) => Some(t@),
        None => None,
    }
}

pub open spec fn same_text(r: Result<String, StoreError>, s: Result<Seq<char>, StoreError>) -> bool {
    match (r, s) {
        (Ok(a), Ok(b)) => a@ == b,
        (Err(a), Err(b)) => a == b,
        _ => false,
    }
}

/// The starred flag of a file, read through its header, and what toggling it writes.
pub open spec fn toggle_result(file: Option<Seq<char>>) -> Result<Seq<char>, StoreError> {
    match file {
        None => Err(StoreError::NotFound),
        Some(t) => match decoded(t) {
            Err(_) => Err(StoreError::MalformedRecord),
            Ok(a) => set_field_result(Some(t), StateField::Starred, !a.starred),
        },
    }
}

/// Whether a file text contains the query, both lowered.
pub open spec fn text_matches(query: Seq<char>, text: Seq<char>) -> bool {
    contains_seq(lowercase_of(text), lowercase_of(query))
}

/// The articles of the files that match the query and decode, in file order.
pub open spec fn matching_articles(query: Seq<char>, files: Seq<StoredFile>) -> Seq<ArticleView>
    decreases files.len(),
{
    if files.len() == 0 {
        Seq::<ArticleView>::empty()
    } else {
        let rest = matching_articles(query, files.drop_last());
        let t = files.last().text@;
        if text_matches(query, t) && decoded(t) is Ok {
            rest.push(decoded(t)->Ok_0)
        } else {
            rest
        }
    }
}

/// The articles of the files that decode, in file order.
pub open spec fn decodable(texts: Seq<Seq<char>>) -> Seq<ArticleView>
    decreases texts.len(),
{
    if texts.len() == 0 {
        Seq::<ArticleView>::empty()
    } else {
        let rest = decodable(texts.drop_last());
        match decoded(texts.last()) {
            Ok(a) => rest.push(a),
            Err(_) => rest,
        }
    }
}

/// How many of the texts decode to an unread article.
pub open spec fn unread_count(texts: Seq<Seq<char>>) -> nat
    decreases texts.len(),
{
    if texts.len() == 0 {
        0
    } else {
        unread_count(texts.drop_last()) + match decoded(texts.last()) {
            Ok(a) => if a.read {
                0nat
            } else {
                1nat
            },
            Err(_) => 0nat,
        }
    }
}

/// `r` lists the articles of `m` in the order that `p` picks them.
pub open spec fn picks(r: Seq<FeedItem>, m: Seq<ArticleView>, p: Seq<usize>) -> bool {
    &&& r.len() == p.len()
    &&& forall|k: int| 0 <= k < r.len() ==> (#[trigger] r[k])@ == m[p[k] as int]
}

pub open spec fn published_of(m: Seq<ArticleView>) -> Seq<Option<Timestamp>> {
    m.map_values(|a: ArticleView| a.published)
}

pub open spec fn modified_of(files: Seq<StoredFile>) -> Seq<Option<Timestamp>> {
    files.map_values(|f: StoredFile| Some(f.modified))
}

pub open spec fn texts_of(files: Seq<StoredFile>) -> Seq<Seq<char>> {
    files.map_values(|f: StoredFile| f.text@)
}

pub open spec fn write_view(w: FileWrite) -> (Seq<char>, Seq<char>) {
    (w.path@, w.text@)
}

/// No earlier article of the feed has the same file name.
pub open spec fn first_of_key(items: Seq<FeedItem>, k: int) -> bool {
    forall|j: int| 0 <= j < k ==> sanitized(#[trigger] items[j].id@) != sanitized(items[k].id@)
}

/// How many of `len` files a limit lets through.
pub open spec fn taken(limit: Option<usize>, len: nat) -> int {
    match limit {
        Some(l) => if l < len {
            l as int
        } else {
            len as int
        },
        None => len as int,
    }
}

/// Non-empty pieces between newlines, each without a trailing carriage return.
pub open spec fn list_lines(s: Seq<char>) -> Seq<Seq<char>> {
    split_nl(s).map_values(|l: Seq<char>| strip_cr(l)).filter(|l: Seq<char>| l.len() > 0)
}

pub open spec fn strip_cr(l: Seq<char>) -> Seq<char> {
    if l.len() > 0 && l.last() == '\r' {
        l.drop_last()
    } else {
        l
    }
}

impl TextCache {
    pub closed spec fn spec_base_dir(&self) -> Seq<char> {
        self.base_dir@
    }

    pub open spec fn articles_dir_of(&self) -> Seq<char> {
        self.spec_base_dir() + "/articles"@
    }

    pub open spec fn feeds_dir_of(&self) -> Seq<char> {
        self.spec_base_dir() + "/feeds"@
    }

    pub open spec fn state_dir_of(&self) -> Seq<char> {
        self.spec_base_dir() + "/state"@
    }

    pub closed spec fn wf(&self) -> bool {
        &&& self.articles_dir@ == self.articles_dir_of()
        &&& self.feeds_dir@ == self.feeds_dir_of()
        &&& self.state_dir@ == self.state_dir_of()
    }

    /// Where the article with this id is stored.
    pub open spec fn article_path_of(&self, id: Seq<char>) -> Seq<char> {
        self.articles_dir_of() + "/"@ + sanitized(id) + ".md"@
    }

    /// A cache rooted at `base_dir`.
    pub fn new(base_dir: &str) -> (r: TextCache)
        ensures
            r.wf(),
            r.spec_base_dir() == base_dir@,
    {
        let base = base_dir.to_owned();
        let mut articles_dir = base_dir.to_owned();
        articles_dir.append("/articles");
        let mut feeds_dir = base_dir.to_owned();
        feeds_dir.append("/feeds");
        let mut state_dir = base_dir.to_owned();
        state_dir.append("/state");
        TextCache { base_dir: base, articles_dir, feeds_dir, state_dir }
    }

    pub fn base_dir(&self) -> (r: &str)
        ensures
            r@ == self.spec_base_dir(),
    {
        self.base_dir.as_str()
    }

    pub fn articles_dir(&self) -> (r: &str)
        requires
            self.wf(),
        ensures
            r@ == self.articles_dir_of(),
    {
        self.articles_dir.as_str()
    }

    pub fn feeds_dir(&self) -> (r: &str)
        requires
            self.wf(),
        ensures
            r@ == self.feeds_dir_of(),
    {
        self.feeds_dir.as_str()
    }

    pub fn state_dir(&self) -> (r: &str)
        requires
            self.wf(),
        ensures
            r@ == self.state_dir_of(),
    {
        self.state_dir.as_str()
    }

    /// Where the article with this id is stored: found by computing the name,
    /// never by a scan.
    pub fn article_path(&self, item_id: &str) -> (r: String)
        requires
            self.wf(),
        ensures
            r@ == self.article_path_of(item_id@),
    {
        let name = sanitize_filename(item_id);
        let mut p = self.articles_dir.clone();
        p.append("/");
        p.append(name.as_str());
        p.append(".md");
        p
    }

    /// Where the metadata of the feed at `url` is stored.
    pub fn feed_meta_path(&self, url: &str) -> (r: String)
        requires
            self.wf(),
        ensures
            r@ == self.feeds_dir_of() + "/"@ + sanitized(url@) + ".json"@,
    {
        let name = sanitize_filename(url);
        let mut p = self.feeds_dir.clone();
        p.append("/");
        p.append(name.as_str());
        p.append(".json");
        p
    }

    /// Where the list of subscribed feeds is stored.
    pub fn feed_list_path(&self) -> (r: String)
        requires
            self.wf(),
        ensures
            r@ == self.state_dir_of() + "/feeds.txt"@,
    {
        let mut p = self.state_dir.clone();
        p.append("/feeds.txt");
        p
    }

    /// The article files that storing the first `n` items writes: an item is
    /// written where no file is stored under its key and no earlier item of
    /// the feed has the same key.
    pub open spec fn article_writes(
        &self,
        items: Seq<FeedItem>,
        present: Seq<bool>,
        now: Timestamp,
        n: int,
    ) -> Seq<(Seq<char>, Seq<char>)>
        decreases n,
    {
        if n <= 0 {
            Seq::empty()
        } else {
            let rest = self.article_writes(items, present, now, n - 1);
            let k = n - 1;
            if !present[k] && first_of_key(items, k) {
                rest.push((self.article_path_of(items[k].id@), encoded(items[k]@, now)))
            } else {
                rest
            }
        }
    }

    /// What storing a feed writes. `present[k]` tells whether a file is stored
    /// under the key of the `k`-th item; `now` is the time of the fetch.
    pub fn store_feed(&self, feed: &Feed, present: &Vec<bool>, now: Timestamp) -> (r: Result<FeedWrites, StoreError>)
        requires
            self.wf(),
            present@.len() == feed.items@.len(),
        ensures
            r is Ok,
            r matches Ok(w) ==> {
                &&& w.articles@.map_values(|x: FileWrite| write_view(x)) == self.article_writes(
                    feed.items@,
                    present@,
                    now,
                    feed.items@.len() as int,
                )
                &&& w.meta.path@ == self.feeds_dir_of() + "/"@ + sanitized(feed.url@) + ".json"@
                &&& w.meta.text@ == feed_meta_json(
                    feed.url@,
                    feed.title@,
                    crate::record::opt_view(feed.description),
                    rfc3339_text(now.spec_secs(), now.spec_nanos()),
                )
            },
    {
        let items = &feed.items;
        let mut keys: Vec<String> = Vec::new();
        let mut writes: Vec<FileWrite> = Vec::new();
        let mut k: usize = 0;
        while k < items.len()
            invariant
                self.wf(),
                present@.len() == items@.len(),
                k <= items@.len(),
                keys@.len() == k,
                forall|j: int| 0 <= j < k ==> (#[trigger] keys@[j])@ == sanitized(items@[j].id@),
                writes@.map_values(|x: FileWrite| write_view(x)) == self.article_writes(
                    items@,
                    present@,
                    now,
                    k as int,
                ),
            decreases items@.len() - k,
        {
            let key = sanitize_filename(items[k].id.as_str());
            let mut seen = false;
            let mut j: usize = 0;
            while j < k
                invariant
                    j <= k,
                    keys@.len() == k,
                    k < items@.len(),
                    forall|i: int| 0 <= i < k ==> (#[trigger] keys@[i])@ == sanitized(items@[i].id@),
                    key@ == sanitized(items@[k as int].id@),
                    seen == exists|i: int| 0 <= i < j && sanitized(#[trigger] items@[i].id@) == sanitized(items@[k as int].id@),
                decreases k - j,
            {
                if keys[j] == key {
                    seen = true;
                }
                proof {
                    if sanitized(items@[j as int].id@) == sanitized(items@[k as int].id@) {
                        assert(0 <= j < j + 1 && sanitized(items@[j as int].id@) == sanitized(items@[k as int].id@));
                    }
                }
                j = j + 1;
            }
            if !present[k] && !seen {
                let path = self.article_path(items[k].id.as_str());
                let text = encode_article(&items[k], now);
                writes.push(FileWrite { path, text });
            }
            keys.push(key);
            proof {
                assert(writes@.map_values(|x: FileWrite| write_view(x)) =~= self.article_writes(
                    items@,
                    present@,
                    now,
                    k + 1,
                ));
            }
            k = k + 1;
        }
        let meta_path = self.feed_meta_path(feed.url.as_str());
        let stamp = now.to_rfc3339();
        match feed_meta_text(feed.url.as_str(), feed.title.as_str(), &feed.description, stamp.as_str()) {
            None => Err(StoreError::IoError),
            Some(text) => Ok(FeedWrites { articles: writes, meta: FileWrite { path: meta_path, text } }),
        }
    }

    /// Insert-if-absent: the text to write for an article, or `None` where a
    /// file is already stored under its key. Where the article's header values
    /// are single lines without `---`, the text reads back as the article, its
    /// own read and starred flags included.
    pub fn store_article(&self, item: &FeedItem, exists: bool, now: Timestamp) -> (r: Option<String>)
        ensures
            exists ==> r is None,
            !exists ==> (r matches Some(t) && t@ == encoded(item@, now)),
            !exists && round_trip_safe(item@) ==> (r matches Some(t) && decoded(t@) == Ok::<
                ArticleView,
                crate::codec::DecodeError,
            >(read_back(item@, now))),
    {
        if exists {
            None
        } else {
            Some(encode_article(item, now))
        }
    }

    /// The article stored in a file, `None` where there is no file, and
    /// `MalformedRecord` where the file is not an article.
    pub fn get_article_by_id(&self, file: Option<&str>) -> (r: Result<Option<FeedItem>, StoreError>)
        ensures
            file is None ==> r == Ok::<Option<FeedItem>, StoreError>(None),
            file matches Some(t) ==> match (decoded(t@), r) {
                (Ok(a), Ok(Some(item))) => item@ == a,
                (Err(_), Err(e)) => e == StoreError::MalformedRecord,
                _ => false,
            },
    {
        match file {
            None => Ok(None),
            Some(t) => match decode_article(t) {
                Ok(item) => Ok(Some(item)),
                Err(_) => Err(StoreError::MalformedRecord),
            },
        }
    }

    /// The text of an article file with one header flag set; `NotFound` where
    /// there is no file.
    pub fn update_article_state(&self, file: Option<&str>, field: StateField, value: bool) -> (r: Result<String, StoreError>)
        ensures
            same_text(r, set_field_result(opt_text(file), field, value)),
    {
        match file {
            None => Err(StoreError::NotFound),
            Some(t) => match patch_file(t, field, value) {
                None => Err(StoreError::MalformedRecord),
                Some(p) => Ok(p),
            },
        }
    }

    /// The file text with the article marked read.
    pub fn mark_as_read(&self, file: Option<&str>) -> (r: Result<String, StoreError>)
        ensures
            same_text(r, set_field_result(opt_text(file), StateField::Read, true)),
    {
        self.update_article_state(file, StateField::Read, true)
    }

    /// The file text with the article marked unread.
    pub fn mark_as_unread(&self, file: Option<&str>) -> (r: Result<String, StoreError>)
        ensures
            same_text(r, set_field_result(opt_text(file), StateField::Read, false)),
    {
        self.update_article_state(file, StateField::Read, false)
    }

    /// The file text with the starred flag flipped, as the header has it.
    pub fn toggle_star(&self, file: Option<&str>) -> (r: Result<String, StoreError>)
        ensures
            same_text(r, toggle_result(opt_text(file))),
    {
        match file {
            None => Err(StoreError::NotFound),
            Some(t) => match decode_article(t) {
                Err(_) => Err(StoreError::MalformedRecord),
                Ok(item) => self.update_article_state(file, StateField::Starred, !item.starred),
            },
        }
    }

    /// The articles whose file text contains the query, letter case aside,
    /// newest first and those without a date last, equal dates in file order;
    /// files that do not decode are left out.
    pub fn search_articles(&self, query: &str, files: &Vec<StoredFile>) -> (r: Vec<FeedItem>)
        ensures
            exists|p: Seq<usize>|
                #[trigger] is_permutation(p, matching_articles(query@, files@).len()) && newest_first(
                    published_of(matching_articles(query@, files@)),
                    p,
                ) && stable(published_of(matching_articles(query@, files@)), p) && picks(
                    r@,
                    matching_articles(query@, files@),
                    p,
                ),
    {
        let q = to_lowercase(query);
        let qv = chars_of(q.as_str());
        let mut found: Vec<FeedItem> = Vec::new();
        let mut keys: Vec<Option<Timestamp>> = Vec::new();
        let mut i: usize = 0;
        while i < files.len()
            invariant
                i <= files@.len(),
                qv@ == lowercase_of(query@),
                found@.len() == keys@.len(),
                found@.map_values(|x: FeedItem| x@) == matching_articles(query@, files@.subrange(0, i as int)),
                keys@ == published_of(found@.map_values(|x: FeedItem| x@)),
            decreases files@.len() - i,
        {
            proof {
                assert(files@.subrange(0, i + 1).drop_last() =~= files@.subrange(0, i as int));
            }
            let t = files[i].text.as_str();
            let lowered = to_lowercase(t);
            let tv = chars_of(lowered.as_str());
            if contains_chars(&tv, &qv) {
                match decode_article(t) {
                    Ok(item) => {
                        keys.push(item.published);
                        found.push(item);
                    },
                    Err(_) => {},
                }
            }
            proof {
                assert(found@.map_values(|x: FeedItem| x@) =~= matching_articles(query@, files@.subrange(0, i + 1)));
                assert(keys@ =~= published_of(found@.map_values(|x: FeedItem| x@)));
            }
            i = i + 1;
        }
        proof {
            assert(files@.subrange(0, files@.len() as int) =~= files@);
        }
        let order = order_newest_first(&keys);
        let r = pick_in_order(&found, &order);
        proof {
            let m = matching_articles(query@, files@);
            assert(published_of(m) == keys@);
            assert(picks(r@, m, order@)) by {
                assert forall|k: int| 0 <= k < r@.len() implies (#[trigger] r@[k])@ == m[order@[k] as int] by {
                    assert(found@.map_values(|x: FeedItem| x@)[order@[k] as int] == found@[order@[k] as int]@);
                }
            }
        }
        r
    }

    /// How many of the stored files decode to an unread article.
    pub fn get_unread_count(&self, texts: &Vec<String>) -> (r: usize)
        ensures
            r == unread_count(texts@.map_values(|t: String| t@)),
    {
        let ghost all = texts@.map_values(|t: String| t@);
        let mut count: usize = 0;
        let mut i: usize = 0;
        while i < texts.len()
            invariant
                i <= texts@.len(),
                all == texts@.map_values(|t: String| t@),
                count == unread_count(all.subrange(0, i as int)),
                count <= i,
            decreases texts@.len() - i,
        {
            proof {
                assert(all.subrange(0, i + 1).drop_last() =~= all.subrange(0, i as int));
            }
            match decode_article(texts[i].as_str()) {
                Ok(item) => {
                    if !item.read {
                        count = count + 1;
                    }
                },
                Err(_) => {},
            }
            i = i + 1;
        }
        proof {
            assert(all.subrange(0, texts@.len() as int) =~= all);
        }
        count
    }

    /// The stored articles, most recently modified first and equal times in
    /// file order, at most `limit` of the files taken; files that do not decode among them are left out.
    pub fn get_articles(&self, files: &Vec<StoredFile>, limit: Option<usize>) -> (r: Vec<FeedItem>)
        ensures
            exists|p: Seq<usize>|
                #[trigger] is_permutation(p, files@.len()) && newest_first(modified_of(files@), p)
                    && stable(modified_of(files@), p) && r@.map_values(|x: FeedItem| x@) == decodable(
                    p.subrange(0, taken(limit, files@.len())).map_values(|k: usize| files@[k as int].text@),
                ),
    {
        let mut keys: Vec<Option<Timestamp>> = Vec::new();
        let mut i: usize = 0;
        while i < files.len()
            invariant
                i <= files@.len(),
                keys@ == modified_of(files@.subrange(0, i as int)),
            decreases files@.len() - i,
        {
            keys.push(Some(files[i].modified));
            proof {
                assert(keys@ =~= modified_of(files@.subrange(0, i + 1)));
            }
            i = i + 1;
        }
        proof {
            assert(files@.subrange(0, files@.len() as int) =~= files@);
        }
        let order = order_newest_first(&keys);
        let n: usize = match limit {
            Some(l) => if l < files.len() {
                l
            } else {
                files.len()
            },
            None => files.len(),
        };
        let ghost chosen = order@.subrange(0, n as int).map_values(|k: usize| files@[k as int].text@);
        let mut out: Vec<FeedItem> = Vec::new();
        let mut k: usize = 0;
        while k < n
            invariant
                n <= order@.len() == files@.len(),
                is_permutation(order@, files@.len()),
                k <= n,
                chosen == order@.subrange(0, n as int).map_values(|k: usize| files@[k as int].text@),
                out@.map_values(|x: FeedItem| x@) == decodable(chosen.subrange(0, k as int)),
            decreases n - k,
        {
            proof {
                assert(chosen.subrange(0, k + 1).drop_last() =~= chosen.subrange(0, k as int));
                assert(chosen[k as int] == files@[order@[k as int] as int].text@);
            }
            match decode_article(files[order[k]].text.as_str()) {
                Ok(item) => out.push(item),
                Err(_) => {},
            }
            proof {
                assert(out@.map_values(|x: FeedItem| x@) =~= decodable(chosen.subrange(0, k + 1)));
            }
            k = k + 1;
        }
        proof {
            assert(chosen.subrange(0, n as int) =~= chosen);
        }
        out
    }

    /// The text of the feed list: the URLs joined by newlines.
    pub fn store_feed_list(&self, feeds: &Vec<String>) -> (r: String)
        ensures
            r@ == join_nl(feeds@.map_values(|f: String| f@)),
    {
        let ghost all = feeds@.map_values(|f: String| f@);
        let mut out = String::new();
        if feeds.len() == 0 {
            return out;
        }
        let mut i: usize = 0;
        while i < feeds.len() - 1
            invariant
                i < feeds@.len(),
                all == feeds@.map_values(|f: String| f@),
                out@ == join_terminated(all.subrange(0, i as int)),
            decreases feeds@.len() - i,
        {
            out.append(feeds[i].as_str());
            out.append("\n");
            proof {
                reveal_strlit("\n");
                assert(all.subrange(0, i + 1).drop_last() =~= all.subrange(0, i as int));
                assert(all.subrange(0, i + 1).last() == feeds@[i as int]@);
                assert(out@ =~= join_terminated(all.subrange(0, i + 1)));
            }
            i = i + 1;
        }
        out.append(feeds[i].as_str());
        proof {
            assert(all.drop_last() =~= all.subrange(0, i as int));
        }
        out
    }

    /// The subscribed feeds read from the list's text: its non-empty lines;
    /// no file means no feeds.
    pub fn get_feed_list(&self, text: Option<&str>) -> (r: Vec<String>)
        ensures
            text is None ==> r@.len() == 0,
            text matches Some(t) ==> r@.map_values(|f: String| f@) == list_lines(t@),
    {
        let mut out: Vec<String> = Vec::new();
        let t = match text {
            None => return out,
            Some(t) => t,
        };
        let v = chars_of(t);
        let mut cur: Vec<char> = Vec::new();
        let mut k: usize = 0;
        proof {
            assert(v@.subrange(0, 0) =~= Seq::<char>::empty());
            assert(split_nl(Seq::<char>::empty()).drop_last() =~= Seq::<Seq<char>>::empty());
        }
        while k < v.len()
            invariant
                k <= v@.len(),
                v@ == t@,
                out@.map_values(|f: String| f@) == split_nl(v@.subrange(0, k as int)).drop_last().map_values(
                    |l: Seq<char>| strip_cr(l),
                ).filter(|l: Seq<char>| l.len() > 0),
                cur@ == split_nl(v@.subrange(0, k as int)).last(),
            decreases v@.len() - k,
        {
            let ghost prev = split_nl(v@.subrange(0, k as int));
            proof {
                lemma_split_nl_len(v@.subrange(0, k as int));
                let sub = v@.subrange(0, k + 1);
                assert(sub.drop_last() =~= v@.subrange(0, k as int));
            }
            if v[k] == '\n' {
                let line = strip_cr_exec(&cur);
                proof {
                    assert(prev.drop_last().push(prev.last()) =~= prev);
                    assert(split_nl(v@.subrange(0, k + 1)).drop_last() =~= prev);
                    reveal(Seq::filter);
                    assert(prev.map_values(|l: Seq<char>| strip_cr(l)) =~= prev.drop_last().map_values(
                        |l: Seq<char>| strip_cr(l),
                    ).push(strip_cr(prev.last())));
                    assert(prev.map_values(|l: Seq<char>| strip_cr(l)).drop_last() =~= prev.drop_last().map_values(
                        |l: Seq<char>| strip_cr(l),
                    ));
                }
                if line.len() > 0 {
                    out.push(string_of(line.as_slice()));
                }
                proof {
                    assert(out@.map_values(|f: String| f@) =~= split_nl(v@.subrange(0, k + 1)).drop_last().map_values(
                        |l: Seq<char>| strip_cr(l),
                    ).filter(|l: Seq<char>| l.len() > 0));
                }
                cur = Vec::new();
            } else {
                proof {
                    assert(split_nl(v@.subrange(0, k + 1)).drop_last() =~= prev.drop_last());
                }
                cur.push(v[k]);
            }
            k = k + 1;
        }
        let ghost ls = split_nl(v@);
        proof {
            lemma_split_nl_len(v@);
            assert(v@.subrange(0, v@.len() as int) =~= v@);
            assert(ls.drop_last().push(ls.last()) =~= ls);
            reveal(Seq::filter);
            assert(ls.map_values(|l: Seq<char>| strip_cr(l)) =~= ls.drop_last().map_values(
                |l: Seq<char>| strip_cr(l),
            ).push(strip_cr(ls.last())));
            assert(ls.map_values(|l: Seq<char>| strip_cr(l)).drop_last() =~= ls.drop_last().map_values(
                |l: Seq<char>| strip_cr(l),
            ));
        }
        let line = strip_cr_exec(&cur);
        if line.len() > 0 {
            out.push(string_of(line.as_slice()));
        }
        proof {
            assert(out@.map_values(|f: String| f@) =~= list_lines(t@));
        }
        out
    }
}

pub(crate) fn strip_cr_exec(l: &Vec<char>) -> (r: Vec<char>)
    ensures
        r@ == strip_cr(l@),
{
    let n = l.len();
    if n > 0 && l[n - 1] == '\r' {
        let r = slice_of(l, 0, n - 1);
        proof {
            assert(r@ =~= l@.drop_last());
        }
        r
    } else {
        slice_of(l, 0, n)
    }
}

fn pick_in_order(found: &Vec<FeedItem>, order: &Vec<usize>) -> (r: Vec<FeedItem>)
    requires
        is_permutation(order@, found@.len()),
    ensures
        r@.len() == order@.len(),
        forall|k: int| 0 <= k < r@.len() ==> (#[trigger] r@[k])@ == found@[order@[k] as int]@,
{
    let mut r: Vec<FeedItem> = Vec::new();
    let mut k: usize = 0;
    while k < order.len()
        invariant
            k <= order@.len(),
            is_permutation(order@, found@.len()),
            r@.len() == k,
            forall|j: int| 0 <= j < k ==> (#[trigger] r@[j])@ == found@[order@[j] as int]@,
        decreases order@.len() - k,
    {
        let item = clone_item(&found[order[k]]);
        r.push(item);
        k = k + 1;
    }
    r
}

/// A copy of an article.
pub fn clone_item(x: &FeedItem) -> (r: FeedItem)
    ensures
        r@ == x@,
{
    FeedItem {
        id: x.id.clone(),
        feed_url: x.feed_url.clone(),
        title: x.title.clone(),
        link: x.link.clone(),
        description: clone_opt(&x.description),
        published: x.published,
        author: clone_opt(&x.author),
        content: clone_opt(&x.content),
        read: x.read,
        starred: x.starred,
    }
}

fn clone_opt(o: &Option<String>) -> (r: Option<String>)
    ensures
        crate::record::opt_view(r) == crate::record::opt_view(*o),
{
    match o {
        Some(s) => Some(s.clone()),
        None => None,
    }
}

/// The key of a header line, computed.
fn key_of_line(line: &Vec<char>) -> (r: Option<Vec<char>>)
    ensures
        match (r, line_key(line@)) {
            (Some(k), Some(s)) => k@ == s,
            (None, None) => true,
            _ => false,
        },
{
    match find_char(line, ':') {
        None => None,
        Some(c) => Some(trim_slice(line, 0, c)),
    }
}

fn field_str(f: StateField) -> (r: &'static str)
    ensures
        r@ == field_name(f),
{
    match f {
        StateField::Read => "read",
        StateField::Starred => "starred",
    }
}

fn setter_chars(f: StateField, v: bool) -> (r: Vec<char>)
    ensures
        r@ == setter_line(f, v),
{
    let mut out: Vec<char> = Vec::new();
    push_str(&mut out, field_str(f));
    push_str(&mut out, ": ");
    proof {
        reveal_strlit("true");
        reveal_strlit("false");
    }
    if v {
        push_str(&mut out, "true");
    } else {
        push_str(&mut out, "false");
    }
    out
}

/// Whether a header line holds the field's key.
fn is_field_line(line: &Vec<char>, f: StateField) -> (r: bool)
    ensures
        r == (line_key(line@) == Some(field_name(f))),
{
    match key_of_line(line) {
        None => false,
        Some(k) => eq_str(&k, field_str(f)),
    }
}

/// Appends the line as the patch leaves it; tells whether it was the field's line.
fn push_patched_line(out: &mut Vec<char>, line: &Vec<char>, f: StateField, v: bool) -> (hit: bool)
    ensures
        final(out)@ == old(out)@ + patch_line(line@, f, v),
        hit == (line_key(line@) == Some(field_name(f))),
{
    let hit = match key_of_line(line) {
        None => false,
        Some(k) => eq_str(&k, field_str(f)),
    };
    if hit {
        let mut s = setter_chars(f, v);
        out.append(&mut s);
    } else {
        let mut s = slice_of(line, 0, line.len());
        proof {
            assert(s@ =~= line@);
        }
        out.append(&mut s);
    }
    hit
}

/// The header text `v[lo..hi]` patched.
fn patch_header_range(v: &Vec<char>, lo: usize, hi: usize, f: StateField, val: bool) -> (r: Vec<char>)
    requires
        lo <= hi <= v@.len(),
    ensures
        r@ == patched_header(v@.subrange(lo as int, hi as int), f, val),
{
    let mut out: Vec<char> = Vec::new();
    let mut cur: Vec<char> = Vec::new();
    let mut found = false;
    let mut k: usize = lo;
    proof {
        assert(v@.subrange(lo as int, lo as int) =~= Seq::<char>::empty());
        assert(split_nl(Seq::<char>::empty()).drop_last() =~= Seq::<Seq<char>>::empty());
    }
    while k < hi
        invariant
            lo <= k <= hi <= v@.len(),
            out@ == join_terminated(patch_lines(split_nl(v@.subrange(lo as int, k as int)).drop_last(), f, val)),
            found == has_field_line(split_nl(v@.subrange(lo as int, k as int)).drop_last(), f),
            cur@ == split_nl(v@.subrange(lo as int, k as int)).last(),
        decreases hi - k,
    {
        let ghost prev = split_nl(v@.subrange(lo as int, k as int));
        proof {
            lemma_split_nl_len(v@.subrange(lo as int, k as int));
            let sub = v@.subrange(lo as int, k + 1);
            assert(sub.drop_last() =~= v@.subrange(lo as int, k as int));
        }
        if v[k] == '\n' {
            let hit = push_patched_line(&mut out, &cur, f, val);
            out.push('\n');
            found = found || hit;
            proof {
                assert(prev.drop_last().push(prev.last()) =~= prev);
                assert(split_nl(v@.subrange(lo as int, k + 1)).drop_last() =~= prev);
                assert(patch_lines(prev, f, val).drop_last() =~= patch_lines(prev.drop_last(), f, val));
                assert(patch_lines(prev, f, val).last() == patch_line(prev.last(), f, val));
                assert(has_field_line(prev, f) == (has_field_line(prev.drop_last(), f) || line_key(prev.last()) == Some(field_name(f)))) by {
                    if line_key(prev.last()) == Some(field_name(f)) {
                        assert(line_key(prev[prev.len() - 1]) == Some(field_name(f)));
                    }
                    if has_field_line(prev, f) {
                        let w = choose|w: int| 0 <= w < prev.len() && line_key(#[trigger] prev[w]) == Some(field_name(f));
                        if w < prev.len() - 1 {
                            assert(prev.drop_last()[w] == prev[w]);
                        }
                    }
                    if has_field_line(prev.drop_last(), f) {
                        let w = choose|w: int| 0 <= w < prev.drop_last().len() && line_key(#[trigger] prev.drop_last()[w]) == Some(field_name(f));
                        assert(prev[w] == prev.drop_last()[w]);
                    }
                }
                assert(out@ =~= join_terminated(patch_lines(prev, f, val)));
            }
            cur = Vec::new();
        } else {
            proof {
                assert(split_nl(v@.subrange(lo as int, k + 1)).drop_last() =~= prev.drop_last());
            }
            cur.push(v[k]);
        }
        k = k + 1;
    }
    let ghost ls = split_nl(v@.subrange(lo as int, hi as int));
    proof {
        lemma_split_nl_len(v@.subrange(lo as int, hi as int));
        assert(ls.drop_last().push(ls.last()) =~= ls);
        assert(patch_lines(ls, f, val).drop_last() =~= patch_lines(ls.drop_last(), f, val));
        assert(patch_lines(ls, f, val).last() == patch_line(ls.last(), f, val));
        assert(has_field_line(ls, f) == (has_field_line(ls.drop_last(), f) || line_key(ls.last()) == Some(field_name(f)))) by {
            if line_key(ls.last()) == Some(field_name(f)) {
                assert(line_key(ls[ls.len() - 1]) == Some(field_name(f)));
            }
            if has_field_line(ls, f) {
                let w = choose|w: int| 0 <= w < ls.len() && line_key(#[trigger] ls[w]) == Some(field_name(f));
                if w < ls.len() - 1 {
                    assert(ls.drop_last()[w] == ls[w]);
                }
            }
            if has_field_line(ls.drop_last(), f) {
                let w = choose|w: int| 0 <= w < ls.drop_last().len() && line_key(#[trigger] ls.drop_last()[w]) == Some(field_name(f));
                assert(ls[w] == ls.drop_last()[w]);
            }
        }
    }
    let last_hit = is_field_line(&cur, f);
    if !(found || last_hit) {
        let mut s = setter_chars(f, val);
        out.append(&mut s);
        out.push('\n');
        let mut rest = slice_of(&cur, 0, cur.len());
        proof {
            assert(rest@ =~= cur@);
        }
        out.append(&mut rest);
        proof {
            assert(!has_field_line(ls, f));
            lemma_patch_lines_none(ls.drop_last(), f, val);
            let ps = ls.drop_last().push(setter_line(f, val)).push(ls.last());
            assert(ps.drop_last() =~= ls.drop_last().push(setter_line(f, val)));
            assert(ps.drop_last().drop_last() =~= ls.drop_last());
            assert(out@ =~= join_nl(ps));
        }
    } else {
        push_patched_line(&mut out, &cur, f, val);
        proof {
            assert(out@ =~= join_nl(patch_lines(ls, f, val)));
        }
    }
    out
}

/// The file text with a header flag set, or `None` where it has no header.
fn patch_file(text: &str, f: StateField, val: bool) -> (r: Option<String>)
    ensures
        match (r, patched(text@, f, val)) {
            (Some(s), Some(p)) => s@ == p,
            (None, None) => true,
            _ => false,
        },
{
    let v = chars_of(text);
    let n = v.len();
    let i = match find_delim(&v, 0) {
        None => return None,
        Some(i) => i,
    };
    assert(i + 3 <= n);
    let j = match find_delim(&v, i + 3) {
        None => return None,
        Some(j) => j,
    };
    let mut out = slice_of(&v, 0, i);
    push_str(&mut out, "---");
    let mut h = patch_header_range(&v, i + 3, j, f, val);
    out.append(&mut h);
    push_str(&mut out, "---");
    let mut body = slice_of(&v, j + 3, v.len());
    out.append(&mut body);
    Some(string_of(out.as_slice()))
}

} // verus!
