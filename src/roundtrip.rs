//! Reading back an encoded article.

use vstd::prelude::*;
use crate::codec::{
    body_text, bool_text, collapse_newlines, decoded, encoded, header_text, read_header, split3,
    text_or_empty, written_date, DecodeError, HeaderView,
};
use crate::record::ArticleView;
use crate::text::{
    clean, dashes, delim_at, find_char_from, is_ws, join_nl, lemma_clean, lemma_find_delim_at,
    lemma_join_nl_shape, lemma_join_nl_step, lemma_no_delim_concat, lemma_split_join, no_delim,
    no_newline, split_nl, trim, trim_end, trim_start,
};
use crate::time::{
    date_shaped, in_range, is_date_char, lemma_timestamp_of_parts, rfc3339_parsed, rfc3339_text,
    Timestamp,
};

verus! {

/// A header value that reads back: one line, no delimiter in it.
pub open spec fn header_safe(s: Seq<char>) -> bool {
    no_newline(s) && no_delim(s)
}

/// The header values of an article all read back.
pub open spec fn round_trip_safe(r: ArticleView) -> bool {
    &&& header_safe(r.id)
    &&& header_safe(r.feed_url)
    &&& no_delim(r.title)
    &&& header_safe(r.link)
    &&& header_safe(text_or_empty(r.author))
}

pub open spec fn author_read_back(r: ArticleView) -> Option<Seq<char>> {
    if trim(text_or_empty(r.author)).len() > 0 {
        Some(trim(text_or_empty(r.author)))
    } else {
        None
    }
}

/// What an encoded article reads back as: header values trimmed, the title on
/// one line, the date it was written with, and the rendered body as both
/// description and content.
pub open spec fn read_back(r: ArticleView, now: Timestamp) -> ArticleView {
    ArticleView {
        id: trim(r.id),
        feed_url: trim(r.feed_url),
        title: trim(collapse_newlines(r.title)),
        link: trim(r.link),
        description: Some(body_text(r)),
        published: Some(written_date(r, now)),
        author: author_read_back(r),
        content: Some(body_text(r)),
        read: r.read,
        starred: r.starred,
    }
}

pub open spec fn kv(key: Seq<char>, value: Seq<char>) -> Seq<char> {
    key + ": "@ + value
}

pub open spec fn date_of(r: ArticleView, now: Timestamp) -> Seq<char> {
    rfc3339_text(written_date(r, now).spec_secs(), written_date(r, now).spec_nanos())
}

pub open spec fn header_lines(r: ArticleView, now: Timestamp) -> Seq<Seq<char>> {
    seq![
        Seq::<char>::empty(),
        kv("id"@, r.id),
        kv("feed"@, r.feed_url),
        kv("title"@, collapse_newlines(r.title)),
        kv("link"@, r.link),
        kv("author"@, text_or_empty(r.author)),
        kv("date"@, date_of(r, now)),
        kv("read"@, bool_text(r.read)),
        kv("starred"@, bool_text(r.starred)),
        Seq::<char>::empty(),
    ]
}

proof fn lemma_join_step(ls: Seq<Seq<char>>, k: int)
    requires
        1 <= k < ls.len(),
    ensures
        join_nl(ls.subrange(0, k + 1)) == join_nl(ls.subrange(0, k)) + seq!['\n'] + ls[k],
{
    let s = ls.subrange(0, k + 1);
    lemma_join_nl_step(s);
    assert(s.drop_last() =~= ls.subrange(0, k));
}

proof fn lemma_line_step(j: Seq<char>, nlkey: Seq<char>, key: Seq<char>, value: Seq<char>)
    requires
        nlkey =~= seq!['\n'] + key + ": "@,
    ensures
        j + seq!['\n'] + kv(key, value) == j + nlkey + value,
{
    assert(j + seq!['\n'] + kv(key, value) =~= j + nlkey + value);
}

proof fn lemma_header_lines(r: ArticleView, now: Timestamp)
    ensures
        header_text(r, now) == join_nl(header_lines(r, now)),
{
    reveal_strlit("\nid: ");
    reveal_strlit("id");
    reveal_strlit("\nfeed: ");
    reveal_strlit("feed");
    reveal_strlit("\ntitle: ");
    reveal_strlit("title");
    reveal_strlit("\nlink: ");
    reveal_strlit("link");
    reveal_strlit("\nauthor: ");
    reveal_strlit("author");
    reveal_strlit("\ndate: ");
    reveal_strlit("date");
    reveal_strlit("\nread: ");
    reveal_strlit("read");
    reveal_strlit("\nstarred: ");
    reveal_strlit("starred");
    reveal_strlit("\n");
    reveal_strlit(": ");
    let ls = header_lines(r, now);
    assert(join_nl(ls.subrange(0, 1)) =~= Seq::<char>::empty()) by {
        assert(ls.subrange(0, 1).drop_last() =~= Seq::<Seq<char>>::empty());
        assert(ls.subrange(0, 1).last() == ls[0]);
    }
    lemma_join_step(ls, 1);
    lemma_line_step(join_nl(ls.subrange(0, 1)), "\nid: "@, "id"@, r.id);
    assert("\nid: "@ =~= seq!['\n'] + "id"@ + ": "@);
    lemma_join_step(ls, 2);
    lemma_line_step(join_nl(ls.subrange(0, 2)), "\nfeed: "@, "feed"@, r.feed_url);
    assert("\nfeed: "@ =~= seq!['\n'] + "feed"@ + ": "@);
    lemma_join_step(ls, 3);
    lemma_line_step(join_nl(ls.subrange(0, 3)), "\ntitle: "@, "title"@, collapse_newlines(r.title));
    assert("\ntitle: "@ =~= seq!['\n'] + "title"@ + ": "@);
    lemma_join_step(ls, 4);
    lemma_line_step(join_nl(ls.subrange(0, 4)), "\nlink: "@, "link"@, r.link);
    assert("\nlink: "@ =~= seq!['\n'] + "link"@ + ": "@);
    lemma_join_step(ls, 5);
    lemma_line_step(join_nl(ls.subrange(0, 5)), "\nauthor: "@, "author"@, text_or_empty(r.author));
    assert("\nauthor: "@ =~= seq!['\n'] + "author"@ + ": "@);
    lemma_join_step(ls, 6);
    lemma_line_step(join_nl(ls.subrange(0, 6)), "\ndate: "@, "date"@, date_of(r, now));
    assert("\ndate: "@ =~= seq!['\n'] + "date"@ + ": "@);
    lemma_join_step(ls, 7);
    lemma_line_step(join_nl(ls.subrange(0, 7)), "\nread: "@, "read"@, bool_text(r.read));
    assert("\nread: "@ =~= seq!['\n'] + "read"@ + ": "@);
    lemma_join_step(ls, 8);
    lemma_line_step(join_nl(ls.subrange(0, 8)), "\nstarred: "@, "starred"@, bool_text(r.starred));
    assert("\nstarred: "@ =~= seq!['\n'] + "starred"@ + ": "@);
    lemma_join_step(ls, 9);
    assert(ls.subrange(0, 10) =~= ls);
    assert("\n"@ =~= seq!['\n']);
    assert(header_text(r, now) =~= join_nl(ls));
}

/// A key, its separator and a one-line value free of delimiters form a
/// header line free of them.
proof fn lemma_kv_piece(key: Seq<char>, value: Seq<char>)
    requires
        forall|i: int| 0 <= i < key.len() ==> #[trigger] key[i] != '-' && key[i] != '\n',
        header_safe(value),
    ensures
        header_safe(kv(key, value)),
{
    reveal_strlit(": ");
    let lit = key + ": "@;
    assert forall|i: int| 0 <= i < lit.len() implies #[trigger] lit[i] != '-' && lit[i] != '\n' by {
        if i < key.len() {
            assert(lit[i] == key[i]);
        }
    }
    assert forall|k: int| !#[trigger] delim_at(lit, k) by {
        if delim_at(lit, k) {
            assert(lit[k] == '-');
        }
    }
    assert(lit.last() == ' ');
    lemma_no_delim_concat(lit, value);
    let l = kv(key, value);
    assert forall|i: int| 0 <= i < l.len() implies #[trigger] l[i] != '\n' by {
        if i < lit.len() {
            assert(l[i] == lit[i]);
        } else {
            assert(l[i] == value[i - lit.len()]);
        }
    }
}

proof fn lemma_find_char_at(s: Seq<char>, c: char, from: int, at: int)
    requires
        0 <= from <= at < s.len(),
        s[at] == c,
        forall|k: int| from <= k < at ==> #[trigger] s[k] != c,
    ensures
        find_char_from(s, c, from) == Some(at),
    decreases at - from,
{
    if from < at {
        lemma_find_char_at(s, c, from + 1, at);
    }
}

/// A header line reads as its key and its trimmed value.
proof fn lemma_kv_value(key: Seq<char>, value: Seq<char>)
    requires
        key.len() > 0,
        forall|i: int| 0 <= i < key.len() ==> #[trigger] key[i] != ':',
        !is_ws(key[0]),
        !is_ws(key.last()),
    ensures
        find_char_from(kv(key, value), ':', 0) == Some(key.len() as int),
        trim(kv(key, value).subrange(0, key.len() as int)) == key,
        trim(kv(key, value).subrange(key.len() as int + 1, kv(key, value).len() as int)) == trim(value),
{
    reveal_strlit(": ");
    let l = kv(key, value);
    let c = key.len() as int;
    assert forall|k: int| 0 <= k < c implies #[trigger] l[k] != ':' by {
        assert(l[k] == key[k]);
    }
    assert(l[c] == ':');
    lemma_find_char_at(l, ':', 0, c);
    assert(l.subrange(0, c) =~= key);
    assert(trim_start(key) == key);
    assert(trim_end(key) == key);
    let rest = l.subrange(c + 1, l.len() as int);
    assert(rest =~= seq![' '] + value);
    assert(rest.drop_first() =~= value);
    assert(trim_start(rest) == trim_start(value));
}

proof fn lemma_read_step(ls: Seq<Seq<char>>, k: int)
    requires
        0 <= k < ls.len(),
    ensures
        read_header(ls.subrange(0, k + 1)) == crate::codec::apply_line(read_header(ls.subrange(0, k)), ls[k]),
{
    assert(ls.subrange(0, k + 1).drop_last() =~= ls.subrange(0, k));
    assert(ls.subrange(0, k + 1).last() == ls[k]);
}

/// A value without surrounding whitespace trims to itself.
pub(crate) proof fn lemma_trimmed(w: Seq<char>)
    requires
        w.len() > 0,
        !is_ws(w[0]),
        !is_ws(w.last()),
    ensures
        trim(w) == w,
{
}

/// A clean header between two delimiters is split off as the header.
proof fn lemma_split3_framed(h: Seq<char>, body: Seq<char>)
    requires
        clean(h),
    ensures
        split3("---"@ + h + "---"@ + body) == Some((Seq::<char>::empty(), h, body)),
{
    reveal_strlit("---");
    let p = "---"@ + h + "---"@ + body;
    assert(delim_at(p, 0));
    lemma_find_delim_at(p, 0, 0);
    let jj: int = 3 + h.len() as int;
    let hd = h + dashes();
    lemma_clean(h);
    assert(hd =~= p.subrange(3, jj + 3));
    assert forall|k: int| 3 <= k < jj implies !#[trigger] delim_at(p, k) by {
        let m = k - 3;
        assert(p[k] == hd[m]);
        assert(p[k + 1] == hd[m + 1]);
        assert(p[k + 2] == hd[m + 2]);
        assert(!delim_at(hd, m));
    }
    assert(delim_at(p, jj)) by {
        assert(p[jj] == hd[h.len() as int]);
        assert(p[jj + 1] == hd[h.len() as int + 1]);
        assert(p[jj + 2] == hd[h.len() as int + 2]);
    }
    lemma_find_delim_at(p, 3, jj);
    assert(p.subrange(0, 0) =~= Seq::<char>::empty());
    assert(p.subrange(3, jj) =~= h);
    assert(p.subrange(jj + 3, p.len() as int) =~= body);
}

proof fn lemma_collapsed(t: Seq<char>)
    requires
        no_delim(t),
    ensures
        header_safe(collapse_newlines(t)),
{
    let c = collapse_newlines(t);
    assert forall|k: int| !#[trigger] delim_at(c, k) by {
        if delim_at(c, k) {
            assert(delim_at(t, k));
        }
    }
}

proof fn lemma_date_safe(d: Seq<char>)
    requires
        date_shaped(d),
    ensures
        header_safe(d),
        !is_ws(d[0]),
        !is_ws(d.last()),
{
    assert(is_date_char(d[0]));
    assert(is_date_char(d[d.len() - 1]));
    assert forall|k: int| 0 <= k < d.len() implies #[trigger] d[k] != '\n' by {
        assert(is_date_char(d[k]));
    }
    assert forall|k: int| !#[trigger] delim_at(d, k) by {
        if delim_at(d, k) {
            assert(!(d[k] == '-' && d[k + 1] == '-'));
        }
    }
}

/// The header values of an encoded article, as read back.
pub open spec fn header_read_back(r: ArticleView, now: Timestamp) -> HeaderView {
    HeaderView {
        id: trim(r.id),
        feed_url: trim(r.feed_url),
        title: trim(collapse_newlines(r.title)),
        link: trim(r.link),
        author: author_read_back(r),
        published: Some(written_date(r, now)),
        read: r.read,
        starred: r.starred,
    }
}

proof fn lemma_encoded_split(r: ArticleView, now: Timestamp)
    requires
        round_trip_safe(r),
        date_shaped(date_of(r, now)),
    ensures
        split3(encoded(r, now)) == Some((Seq::<char>::empty(), header_text(r, now), body_text(r))),
        split_nl(header_text(r, now)) == header_lines(r, now),
{
    reveal_strlit("id");
    reveal_strlit("feed");
    reveal_strlit("title");
    reveal_strlit("link");
    reveal_strlit("author");
    reveal_strlit("date");
    reveal_strlit("read");
    reveal_strlit("starred");
    reveal_strlit("true");
    reveal_strlit("false");
    let ls = header_lines(r, now);
    let d = date_of(r, now);
    lemma_collapsed(r.title);
    lemma_date_safe(d);
    assert forall|b: bool| #[trigger] header_safe(bool_text(b)) by {
        let t = bool_text(b);
        assert forall|k: int| !#[trigger] delim_at(t, k) by {
            if delim_at(t, k) {
                assert(t[k] == '-');
            }
        }
    }
    lemma_kv_piece("id"@, r.id);
    lemma_kv_piece("feed"@, r.feed_url);
    lemma_kv_piece("title"@, collapse_newlines(r.title));
    lemma_kv_piece("link"@, r.link);
    lemma_kv_piece("author"@, text_or_empty(r.author));
    lemma_kv_piece("date"@, d);
    lemma_kv_piece("read"@, bool_text(r.read));
    lemma_kv_piece("starred"@, bool_text(r.starred));
    assert(header_safe(Seq::<char>::empty())) by {
        assert forall|k: int| !#[trigger] delim_at(Seq::<char>::empty(), k) by {}
    }
    assert forall|k: int| 0 <= k < ls.len() implies no_newline(#[trigger] ls[k]) && no_delim(ls[k]) by {
        assert(header_safe(ls[k]));
    }
    lemma_header_lines(r, now);
    let h = header_text(r, now);
    lemma_join_nl_shape(ls);
    assert(clean(h));
    lemma_split3_framed(h, body_text(r));
    lemma_split_join(ls);
}

proof fn lemma_read_lines(r: ArticleView, now: Timestamp)
    requires
        in_range(written_date(r, now).spec_secs() as int, written_date(r, now).spec_nanos() as int),
        date_shaped(date_of(r, now)),
        rfc3339_parsed(date_of(r, now)) == Some((written_date(r, now).spec_secs(), written_date(r, now).spec_nanos())),
    ensures
        read_header(header_lines(r, now)) == header_read_back(r, now),
{
    reveal_strlit("id");
    reveal_strlit("feed");
    reveal_strlit("title");
    reveal_strlit("link");
    reveal_strlit("author");
    reveal_strlit("date");
    reveal_strlit("read");
    reveal_strlit("starred");
    reveal_strlit("true");
    reveal_strlit("false");
    let ls = header_lines(r, now);
    let d = date_of(r, now);
    lemma_date_safe(d);
    lemma_kv_value("id"@, r.id);
    lemma_kv_value("feed"@, r.feed_url);
    lemma_kv_value("title"@, collapse_newlines(r.title));
    lemma_kv_value("link"@, r.link);
    lemma_kv_value("author"@, text_or_empty(r.author));
    lemma_kv_value("date"@, d);
    lemma_kv_value("read"@, bool_text(r.read));
    lemma_kv_value("starred"@, bool_text(r.starred));
    lemma_trimmed(d);
    lemma_trimmed(bool_text(r.read));
    lemma_trimmed(bool_text(r.starred));
    lemma_timestamp_of_parts(written_date(r, now));
    lemma_read_step(ls, 0);
    lemma_read_step(ls, 1);
    lemma_read_step(ls, 2);
    lemma_read_step(ls, 3);
    lemma_read_step(ls, 4);
    lemma_read_step(ls, 5);
    lemma_read_step(ls, 6);
    lemma_read_step(ls, 7);
    lemma_read_step(ls, 8);
    lemma_read_step(ls, 9);
    assert(ls.subrange(0, 10) =~= ls);
    assert(find_char_from(Seq::<char>::empty(), ':', 0) is None);
    let r0 = read_header(ls.subrange(0, 0));
    assert(ls.subrange(0, 0) =~= Seq::<Seq<char>>::empty());
    let r1 = read_header(ls.subrange(0, 1));
    assert(r1 == r0);
    let r2 = read_header(ls.subrange(0, 2));
    assert(r2 == HeaderView { id: trim(r.id), ..r1 });
    let r3 = read_header(ls.subrange(0, 3));
    assert(r3 == HeaderView { feed_url: trim(r.feed_url), ..r2 });
    let r4 = read_header(ls.subrange(0, 4));
    assert(r4 == HeaderView { title: trim(collapse_newlines(r.title)), ..r3 });
    let r5 = read_header(ls.subrange(0, 5));
    assert(r5 == HeaderView { link: trim(r.link), ..r4 });
    let r6 = read_header(ls.subrange(0, 6));
    assert(r6 == HeaderView { author: author_read_back(r), ..r5 });
    let r7 = read_header(ls.subrange(0, 7));
    assert(r7 == HeaderView { published: Some(written_date(r, now)), ..r6 });
    let r8 = read_header(ls.subrange(0, 8));
    assert(r8 == HeaderView { read: r.read, ..r7 });
    let r9 = read_header(ls.subrange(0, 9));
    assert(r9 == HeaderView { starred: r.starred, ..r8 });
    let r10 = read_header(ls.subrange(0, 10));
    assert(r10 == r9);
}

/// An encoded article reads back as its header values trimmed, the title on
/// one line, the date it was written with, and the rendered body as both
/// description and content.
pub proof fn lemma_read_back(r: ArticleView, now: Timestamp)
    requires
        round_trip_safe(r),
        in_range(written_date(r, now).spec_secs() as int, written_date(r, now).spec_nanos() as int),
        date_shaped(date_of(r, now)),
        rfc3339_parsed(date_of(r, now)) == Some((written_date(r, now).spec_secs(), written_date(r, now).spec_nanos())),
    ensures
        decoded(encoded(r, now)) == Ok::<ArticleView, DecodeError>(read_back(r, now)),
{
    lemma_encoded_split(r, now);
    lemma_read_lines(r, now);
}

} // verus!
