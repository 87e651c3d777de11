//! Properties of the store as a whole, over the files it holds: a map from
//! path to file text.

use vstd::prelude::*;
use crate::codec::{apply_line, bool_text, decoded, encoded, read_header, split3, HeaderView};
use crate::record::{ArticleView, FeedItem};
use crate::roundtrip::lemma_trimmed;
use crate::store::{
    field_name, has_field_line, line_key, patch_line, patch_lines, patched, patched_header,
    set_field_result, setter_line, toggle_result, StateField, TextCache,
};
use crate::text::{
    clean, dashes, delim_at, find_char_from, find_delim_from, join_nl, lemma_clean,
    lemma_find_delim_at, lemma_find_delim_found, lemma_join_nl_shape, lemma_split_join,
    lemma_split_nl_pieces, no_delim, no_newline, split_nl, trim, trim_start,
};
use crate::time::Timestamp;

verus! {

/// The files after inserting an article if absent: its text is written under
/// its path where nothing is stored there; otherwise nothing changes.
pub open spec fn ingest(
    cache: TextCache,
    files: Map<Seq<char>, Seq<char>>,
    item: FeedItem,
    now: Timestamp,
) -> Map<Seq<char>, Seq<char>> {
    let path = cache.article_path_of(item.id@);
    if files.contains_key(path) {
        files
    } else {
        files.insert(path, encoded(item@, now))
    }
}

/// The files after inserting each article in turn.
pub open spec fn ingest_all(
    cache: TextCache,
    files: Map<Seq<char>, Seq<char>>,
    items: Seq<FeedItem>,
    now: Timestamp,
) -> Map<Seq<char>, Seq<char>>
    decreases items.len(),
{
    if items.len() == 0 {
        files
    } else {
        ingest(cache, ingest_all(cache, files, items.drop_last(), now), items.last(), now)
    }
}

/// Inserting an article whose file is stored changes nothing, whatever was done
/// to that file since: a second insertion keeps the read and starred state.
pub proof fn lemma_ingest_keeps_stored(
    cache: TextCache,
    files: Map<Seq<char>, Seq<char>>,
    item: FeedItem,
    now: Timestamp,
)
    requires
        files.contains_key(cache.article_path_of(item.id@)),
    ensures
        ingest(cache, files, item, now) == files,
{
}

/// Inserting the same article twice leaves the files as inserting it once.
pub proof fn lemma_ingest_idempotent(
    cache: TextCache,
    files: Map<Seq<char>, Seq<char>>,
    item: FeedItem,
    now1: Timestamp,
    now2: Timestamp,
)
    ensures
        ingest(cache, ingest(cache, files, item, now1), item, now2) == ingest(cache, files, item, now1),
{
}

/// After inserting articles into an empty store, a path holds a file only where
/// one of the articles is stored under it: a lookup of an id that shares no
/// path with them finds nothing.
pub proof fn lemma_lookup_never_inserted(cache: TextCache, items: Seq<FeedItem>, now: Timestamp, id: Seq<char>)
    requires
        forall|k: int| 0 <= k < items.len() ==> cache.article_path_of(#[trigger] items[k].id@) != cache.article_path_of(id),
    ensures
        !ingest_all(cache, Map::empty(), items, now).contains_key(cache.article_path_of(id)),
    decreases items.len(),
{
    if items.len() > 0 {
        let rest = items.drop_last();
        assert forall|k: int| 0 <= k < rest.len() implies cache.article_path_of(#[trigger] rest[k].id@)
            != cache.article_path_of(id) by {
            assert(rest[k] == items[k]);
        }
        lemma_lookup_never_inserted(cache, rest, now, id);
        assert(items.last() == items[items.len() - 1]);
    }
}

/// After inserting articles into an empty store, the file of the first article
/// stored under a path is its encoding, whatever comes later under that path.
pub proof fn lemma_lookup_inserted(cache: TextCache, items: Seq<FeedItem>, now: Timestamp, k: int)
    requires
        0 <= k < items.len(),
        forall|j: int| 0 <= j < k ==> cache.article_path_of(#[trigger] items[j].id@) != cache.article_path_of(items[k].id@),
    ensures
        ingest_all(cache, Map::empty(), items, now).contains_key(cache.article_path_of(items[k].id@)),
        ingest_all(cache, Map::empty(), items, now)[cache.article_path_of(items[k].id@)] == encoded(items[k]@, now),
    decreases items.len(),
{
    let path = cache.article_path_of(items[k].id@);
    let rest = items.drop_last();
    if k == items.len() - 1 {
        assert forall|j: int| 0 <= j < rest.len() implies cache.article_path_of(#[trigger] rest[j].id@) != path by {
            assert(rest[j] == items[j]);
        }
        lemma_lookup_never_inserted(cache, rest, now, items[k].id@);
    } else {
        assert forall|j: int| 0 <= j < k implies cache.article_path_of(#[trigger] rest[j].id@) != cache.article_path_of(rest[k].id@) by {
            assert(rest[j] == items[j]);
        }
        assert(rest[k] == items[k]);
        lemma_lookup_inserted(cache, rest, now, k);
    }
}

/// Storing a feed whose articles are all on disk writes no article file.
pub proof fn lemma_stored_feed_writes_nothing(
    cache: TextCache,
    items: Seq<FeedItem>,
    present: Seq<bool>,
    now: Timestamp,
    n: int,
)
    requires
        n <= present.len(),
        forall|k: int| 0 <= k < n ==> #[trigger] present[k],
    ensures
        cache.article_writes(items, present, now, n).len() == 0,
    decreases n,
{
    if n > 0 {
        assert(present[n - 1]);
        lemma_stored_feed_writes_nothing(cache, items, present, now, n - 1);
    }
}

/// A header with one flag set.
pub open spec fn set_header(h: HeaderView, f: StateField, v: bool) -> HeaderView {
    match f {
        StateField::Read => HeaderView { read: v, ..h },
        StateField::Starred => HeaderView { starred: v, ..h },
    }
}

/// An article with one flag set.
pub open spec fn with_field(a: ArticleView, f: StateField, v: bool) -> ArticleView {
    match f {
        StateField::Read => ArticleView { read: v, ..a },
        StateField::Starred => ArticleView { starred: v, ..a },
    }
}

/// The header keys are distinct words.
proof fn lemma_keys_differ()
    ensures
        "read"@ != "id"@,
        "read"@ != "feed"@,
        "read"@ != "title"@,
        "read"@ != "link"@,
        "read"@ != "author"@,
        "read"@ != "date"@,
        "read"@ != "starred"@,
        "starred"@ != "id"@,
        "starred"@ != "feed"@,
        "starred"@ != "title"@,
        "starred"@ != "link"@,
        "starred"@ != "author"@,
        "starred"@ != "date"@,
{
    reveal_strlit("id");
    reveal_strlit("feed");
    reveal_strlit("title");
    reveal_strlit("link");
    reveal_strlit("author");
    reveal_strlit("date");
    reveal_strlit("read");
    reveal_strlit("starred");
    assert("starred"@.len() == 7);
    assert("id"@.len() == 2);
    assert("title"@.len() == 5);
    assert("starred"@.len() != "id"@.len());
    assert("starred"@.len() != "title"@.len());
    assert("read"@[0] != "feed"@[0]);
    assert("read"@[0] != "link"@[0]);
    assert("read"@[0] != "date"@[0]);
}

/// The line that sets a flag reads back as that flag with that value.
proof fn lemma_setter(h: HeaderView, f: StateField, v: bool)
    ensures
        no_newline(setter_line(f, v)),
        no_delim(setter_line(f, v)),
        setter_line(f, v).len() > 0,
        setter_line(f, v).last() == 'e',
        line_key(setter_line(f, v)) == Some(field_name(f)),
        apply_line(h, setter_line(f, v)) == set_header(h, f, v),
{
    reveal_strlit("id");
    reveal_strlit("feed");
    reveal_strlit("title");
    reveal_strlit("link");
    reveal_strlit("author");
    reveal_strlit("date");
    reveal_strlit("read");
    reveal_strlit("starred");
    reveal_strlit("true");
    reveal_strlit("false");
    reveal_strlit(": ");
    reveal_with_fuel(find_char_from, 9);
    let s = setter_line(f, v);
    let name = field_name(f);
    let value = bool_text(v);
    let c = name.len() as int;
    assert(s =~= name + ": "@ + value);
    assert forall|k: int| 0 <= k < s.len() implies #[trigger] s[k] != '\n' && s[k] != '-' by {
        if k < c {
            assert(s[k] == name[k]);
        } else if k < c + 2 {
            assert(s[k] == ": "@[k - c]);
        } else {
            assert(s[k] == value[k - c - 2]);
        }
    }
    assert forall|k: int| !#[trigger] delim_at(s, k) by {
        if delim_at(s, k) {
            assert(s[k] == '-');
        }
    }
    assert(s.last() == value.last());
    assert(find_char_from(s, ':', 0) == Some(c));
    assert(s.subrange(0, c) =~= name);
    lemma_trimmed(name);
    let rest = s.subrange(c + 1, s.len() as int);
    assert(rest =~= seq![' '] + value);
    assert(trim_start(rest) == trim_start(rest.drop_first()));
    assert(rest.drop_first() =~= value);
    lemma_trimmed(value);
    assert(trim_start(value) == value);
    assert(trim(rest) == value);
}

/// A line of a flag's key changes only that flag.
proof fn lemma_apply_field_line(h: HeaderView, l: Seq<char>, f: StateField, v: bool)
    requires
        line_key(l) == Some(field_name(f)),
    ensures
        set_header(apply_line(h, l), f, v) == set_header(h, f, v),
{
    lemma_keys_differ();
    reveal_strlit("id");
    reveal_strlit("feed");
    reveal_strlit("title");
    reveal_strlit("link");
    reveal_strlit("author");
    reveal_strlit("date");
    reveal_strlit("read");
    reveal_strlit("starred");
    reveal_strlit("true");
    reveal_strlit("false");
    reveal_strlit(": ");
}

/// A line of another key does not touch the flag.
proof fn lemma_apply_other_line(h: HeaderView, l: Seq<char>, f: StateField, v: bool)
    requires
        line_key(l) != Some(field_name(f)),
    ensures
        apply_line(set_header(h, f, v), l) == set_header(apply_line(h, l), f, v),
{
    lemma_keys_differ();
    reveal_strlit("id");
    reveal_strlit("feed");
    reveal_strlit("title");
    reveal_strlit("link");
    reveal_strlit("author");
    reveal_strlit("date");
    reveal_strlit("read");
    reveal_strlit("starred");
    reveal_strlit("true");
    reveal_strlit("false");
    reveal_strlit(": ");
}

proof fn lemma_has_field_line_step(ls: Seq<Seq<char>>, f: StateField)
    requires
        ls.len() > 0,
    ensures
        has_field_line(ls, f) == (has_field_line(ls.drop_last(), f) || line_key(ls.last()) == Some(field_name(f))),
{
    let d = ls.drop_last();
    if line_key(ls.last()) == Some(field_name(f)) {
        assert(line_key(ls[ls.len() - 1]) == Some(field_name(f)));
    }
    if has_field_line(ls, f) {
        let w = choose|w: int| 0 <= w < ls.len() && line_key(#[trigger] ls[w]) == Some(field_name(f));
        if w < ls.len() - 1 {
            assert(d[w] == ls[w]);
        }
    }
    if has_field_line(d, f) {
        let w = choose|w: int| 0 <= w < d.len() && line_key(#[trigger] d[w]) == Some(field_name(f));
        assert(ls[w] == d[w]);
    }
}

/// Reading patched lines gives the flag set where a line of its key was there,
/// and the same header otherwise.
proof fn lemma_read_patched(ls: Seq<Seq<char>>, f: StateField, v: bool)
    ensures
        read_header(patch_lines(ls, f, v)) == if has_field_line(ls, f) {
            set_header(read_header(ls), f, v)
        } else {
            read_header(ls)
        },
    decreases ls.len(),
{
    if ls.len() == 0 {
        assert(patch_lines(ls, f, v) =~= ls);
    } else {
        let d = ls.drop_last();
        let l = ls.last();
        lemma_read_patched(d, f, v);
        lemma_has_field_line_step(ls, f);
        let ps = patch_lines(ls, f, v);
        assert(ps.drop_last() =~= patch_lines(d, f, v));
        assert(ps.last() == patch_line(l, f, v));
        let r0 = read_header(d);
        let rp = read_header(patch_lines(d, f, v));
        if line_key(l) == Some(field_name(f)) {
            lemma_setter(rp, f, v);
            lemma_apply_field_line(r0, l, f, v);
        } else {
            lemma_apply_other_line(r0, l, f, v);
        }
    }
}

/// The header of a well-formed file is clean.
proof fn lemma_header_clean(t: Seq<char>)
    requires
        split3(t) is Some,
    ensures
        clean(split3(t)->Some_0.1),
        find_delim_from(t, 0) is Some,
        forall|k: int| 0 <= k < find_delim_from(t, 0)->Some_0 ==> !#[trigger] delim_at(t, k),
        delim_at(t, find_delim_from(t, 0)->Some_0),
        split3(t)->Some_0.0.len() == find_delim_from(t, 0)->Some_0,
{
    lemma_find_delim_found(t, 0);
    let i = find_delim_from(t, 0)->Some_0;
    lemma_find_delim_found(t, i + 3);
    let j = find_delim_from(t, i + 3)->Some_0;
    let h = t.subrange(i + 3, j);
    let hd = h + dashes();
    assert(hd =~= t.subrange(i + 3, j + 3));
    assert forall|k: int| 0 <= k < h.len() implies !#[trigger] delim_at(hd, k) by {
        assert(hd[k] == t[i + 3 + k]);
        assert(hd[k + 1] == t[i + 3 + k + 1]);
        assert(hd[k + 2] == t[i + 3 + k + 2]);
        assert(!delim_at(t, i + 3 + k));
    }
    lemma_clean(h);
}

/// A clean header patched stays clean, and reads as the old one with the
/// flag set.
proof fn lemma_patched_header(h: Seq<char>, f: StateField, v: bool)
    requires
        clean(h),
    ensures
        clean(patched_header(h, f, v)),
        read_header(split_nl(patched_header(h, f, v))) == set_header(read_header(split_nl(h)), f, v),
{
    let ls = split_nl(h);
    lemma_split_nl_pieces(h);
    let hdr0 = read_header(ls);
    lemma_setter(hdr0, f, v);
    let s = setter_line(f, v);
    let pl = patch_lines(ls, f, v);
    let present = has_field_line(ls, f);
    let ls2 = if present {
        pl
    } else {
        ls.drop_last().push(s).push(ls.last())
    };
    assert forall|k: int| 0 <= k < ls2.len() implies no_newline(#[trigger] ls2[k]) && no_delim(ls2[k]) by {
        if present {
            assert(ls2[k] == patch_line(ls[k], f, v));
        } else if k < ls.len() - 1 {
            assert(ls2[k] == ls[k]);
        } else if k == ls.len() {
            assert(ls2[k] == ls[ls.len() - 1]);
        }
    }
    let h2 = join_nl(ls2);
    assert(h2 == patched_header(h, f, v));
    lemma_join_nl_shape(ls2);
    if h2.len() > 0 && h2.last() != '\n' {
        assert(ls2.last().len() > 0);
        if present {
            assert(ls2.last() == patch_line(ls.last(), f, v));
        }
        if ls2.last() != s {
            assert(ls2.last() == ls.last());
            assert(ls.last() == h.subrange(h.len() - ls.last().len(), h.len() as int));
            assert(ls.last().last() == h.last());
        }
    }
    assert(clean(h2));
    lemma_split_join(ls2);
    lemma_read_patched(ls, f, v);
    if !present {
        let d = ls.drop_last();
        let l = ls.last();
        assert(ls2.drop_last() =~= d.push(s));
        assert(d.push(s).drop_last() =~= d);
        lemma_setter(read_header(d), f, v);
        assert(line_key(l) != Some(field_name(f))) by {
            if line_key(l) == Some(field_name(f)) {
                assert(line_key(ls[ls.len() - 1]) == Some(field_name(f)));
            }
        }
        lemma_apply_other_line(read_header(d), l, f, v);
        assert(read_header(ls) == apply_line(read_header(d), l));
        assert(ls2.last() == l);
        assert(d.push(s).last() == s);
        assert(read_header(d.push(s)) == apply_line(read_header(d), s));
        assert(read_header(ls2) == apply_line(read_header(d.push(s)), l));
    }
}

/// Replacing the header of a well-formed file by a clean one leaves the rest
/// where it was.
proof fn lemma_replace_header(t: Seq<char>, h2: Seq<char>)
    requires
        split3(t) is Some,
        clean(h2),
    ensures
        split3(split3(t)->Some_0.0 + "---"@ + h2 + "---"@ + split3(t)->Some_0.2) == Some(
            (split3(t)->Some_0.0, h2, split3(t)->Some_0.2),
        ),
{
    reveal_strlit("---");
    lemma_header_clean(t);
    let i = find_delim_from(t, 0)->Some_0;
    let p0 = split3(t)->Some_0.0;
    let body = split3(t)->Some_0.2;
    let p = p0 + "---"@ + h2 + "---"@ + body;
    assert("---"@ =~= dashes());
    assert(p.subrange(0, i + 3) =~= t.subrange(0, i + 3));
    assert forall|k: int| 0 <= k < i implies !#[trigger] delim_at(p, k) by {
        assert(!delim_at(t, k));
        assert(p[k] == t[k]);
        assert(p[k + 1] == t[k + 1]);
        assert(p[k + 2] == t[k + 2]);
    }
    assert(delim_at(p, i)) by {
        assert(p[i] == t[i]);
        assert(p[i + 1] == t[i + 1]);
        assert(p[i + 2] == t[i + 2]);
    }
    lemma_find_delim_at(p, 0, i);
    let jj = i + 3 + h2.len();
    let hd2 = h2 + dashes();
    lemma_clean(h2);
    assert(hd2 =~= p.subrange(i + 3, jj + 3));
    assert forall|k: int| i + 3 <= k < jj implies !#[trigger] delim_at(p, k) by {
        let m = k - i - 3;
        assert(p[k] == hd2[m]);
        assert(p[k + 1] == hd2[m + 1]);
        assert(p[k + 2] == hd2[m + 2]);
        assert(!delim_at(hd2, m));
    }
    assert(delim_at(p, jj)) by {
        assert(p[jj] == hd2[h2.len() as int]);
        assert(p[jj + 1] == hd2[h2.len() as int + 1]);
        assert(p[jj + 2] == hd2[h2.len() as int + 2]);
    }
    lemma_find_delim_at(p, i + 3, jj);
    assert(p.subrange(0, i) =~= p0);
    assert(p.subrange(i + 3, jj) =~= h2);
    assert(p.subrange(jj + 3, p.len() as int) =~= body);
}

/// Setting a flag in a well-formed file keeps it well-formed, and what it
/// reads as differs from before in that flag alone: title, content, link, the
/// other flag and every other field stay as they were.
pub proof fn lemma_set_field_isolated(t: Seq<char>, f: StateField, v: bool)
    requires
        decoded(t) is Ok,
    ensures
        patched(t, f, v) is Some,
        decoded(patched(t, f, v)->Some_0) == Ok::<ArticleView, crate::codec::DecodeError>(
            with_field(decoded(t)->Ok_0, f, v),
        ),
{
    let h = split3(t)->Some_0.1;
    lemma_header_clean(t);
    lemma_patched_header(h, f, v);
    lemma_replace_header(t, patched_header(h, f, v));
}

/// Marking read and unread changes the read flag alone; the same holds of
/// the starred flag.
pub proof fn lemma_mark_read_isolated(t: Seq<char>, f: StateField, v: bool)
    requires
        decoded(t) is Ok,
    ensures
        set_field_result(Some(t), f, v) matches Ok(p) && decoded(p) == Ok::<ArticleView, crate::codec::DecodeError>(
            with_field(decoded(t)->Ok_0, f, v),
        ),
{
    lemma_set_field_isolated(t, f, v);
}

/// Toggling the star twice gives back a file that reads as it did before.
pub proof fn lemma_toggle_twice(t: Seq<char>)
    requires
        decoded(t) is Ok,
    ensures
        toggle_result(Some(t)) is Ok,
        toggle_result(Some(toggle_result(Some(t))->Ok_0)) is Ok,
        decoded(toggle_result(Some(toggle_result(Some(t))->Ok_0))->Ok_0) == decoded(t),
{
    let a = decoded(t)->Ok_0;
    lemma_set_field_isolated(t, StateField::Starred, !a.starred);
    let t1 = patched(t, StateField::Starred, !a.starred)->Some_0;
    let a1 = with_field(a, StateField::Starred, !a.starred);
    lemma_set_field_isolated(t1, StateField::Starred, a.starred);
    let t2 = patched(t1, StateField::Starred, a.starred)->Some_0;
    assert(with_field(a1, StateField::Starred, a.starred) == a);
}

} // verus!
