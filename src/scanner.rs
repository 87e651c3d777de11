//! Finding feed URLs in notes: lines tagged `#feed <url>`, and the domains of
//! links as places to look for a feed.

use vstd::prelude::*;
use crate::record::opt_view;
use crate::store::{strip_cr, strip_cr_exec};
use crate::text::{chars_of, lemma_split_nl_len, slice_of, split_nl, string_of, trim, trim_slice};

verus! {

#[verifier::external_type_specification]
#[verifier::external_body]
pub struct ExRegex(regex::Regex);

/// A URL tagged as a feed, and where it was first seen.
#[derive(Clone, Debug)]
pub struct FeedSource {
    pub url: String,
    pub source_file: String,
    pub line_number: usize,
}

/// A URL after `#feed` on one line.
pub const FEED_TAG_PATTERN: &'static str = "#feed\\s+(https?://[^\\s\\)>\\]]+)";

/// The host part of a link.
pub const DOMAIN_PATTERN: &'static str = "https?://([^/\\s]+)";

/// For each match of a pattern in a text, in order, the text of its group 1,
/// as `regex::Regex::captures_iter` finds them.
pub uninterp spec fn regex_groups(pattern: Seq<char>, text: Seq<char>) -> Seq<Option<Seq<char>>>;

/// A compiled regular expression and the pattern it was compiled from.
pub struct Pattern {
    source: String,
    re: regex::Regex,
}

impl Pattern {
    pub closed spec fn source_of(&self) -> Seq<char> {
        self.source@
    }

    /// Relies on `regex::Regex::new`; its error becomes `None`.
    #[verifier::external_body]
    pub(crate) fn compile(source: &str) -> (r: Option<Pattern>)
        ensures
            r matches Some(p) ==> p.source_of() == source@,
    {
        regex::Regex::new(source).ok().map(|re| Pattern { source: source.to_string(), re })
    }

    /// Relies on `regex::Regex::captures_iter`: group 1 of each match, in order.
    #[verifier::external_body]
    pub(crate) fn first_groups(&self, text: &str) -> (r: Vec<Option<String>>)
        ensures
            r@.map_values(|g: Option<String>| opt_view(g)) == regex_groups(self.source_of(), text@),
    {
        self.re.captures_iter(text).map(|c| c.get(1).map(|m| m.as_str().to_string())).collect()
    }
}

/// The compiled patterns of the scan.
pub struct FeedPatterns {
    feed_tag: Pattern,
    domain: Pattern,
}

impl FeedPatterns {
    pub closed spec fn wf(&self) -> bool {
        self.feed_tag.source_of() == FEED_TAG_PATTERN@ && self.domain.source_of() == DOMAIN_PATTERN@
    }

    pub fn new() -> (r: Option<FeedPatterns>)
        ensures
            r matches Some(p) ==> p.wf(),
    {
        let feed_tag = match Pattern::compile(FEED_TAG_PATTERN) {
            Some(p) => p,
            None => return None,
        };
        let domain = match Pattern::compile(DOMAIN_PATTERN) {
            Some(p) => p,
            None => return None,
        };
        Some(FeedPatterns { feed_tag, domain })
    }
}

/// Trailing characters that end a sentence rather than a URL.
pub open spec fn url_tail(c: char) -> bool {
    c == '.' || c == ',' || c == ')' || c == ']' || c == '>'
}

pub open spec fn trim_url_tail(s: Seq<char>) -> Seq<char>
    decreases s.len(),
{
    if s.len() > 0 && url_tail(s.last()) {
        trim_url_tail(s.drop_last())
    } else {
        s
    }
}

/// A captured URL without surrounding whitespace and trailing punctuation.
pub fn clean_feed_url(s: &str) -> (r: String)
    ensures
        r@ == trim_url_tail(trim(s@)),
{
    let v = chars_of(s);
    let t = trim_slice(&v, 0, v.len());
    proof {
        assert(v@.subrange(0, v@.len() as int) =~= v@);
    }
    let mut n: usize = t.len();
    proof {
        assert(t@.subrange(0, n as int) =~= t@);
    }
    while n > 0 && (t[n - 1] == '.' || t[n - 1] == ',' || t[n - 1] == ')' || t[n - 1] == ']' || t[n - 1] == '>')
        invariant
            n <= t@.len(),
            trim_url_tail(t@) == trim_url_tail(t@.subrange(0, n as int)),
        decreases n,
    {
        proof {
            assert(t@.subrange(0, n as int).drop_last() =~= t@.subrange(0, n - 1));
        }
        n = n - 1;
    }
    let r = slice_of(&t, 0, n);
    string_of(r.as_slice())
}

/// A feed source as values: URL, file, line.
pub type SourceView = (Seq<char>, Seq<char>, usize);

pub open spec fn source_view(f: FeedSource) -> SourceView {
    (f.url@, f.source_file@, f.line_number)
}

pub open spec fn sources_view(s: Seq<FeedSource>) -> Seq<SourceView> {
    s.map_values(|f: FeedSource| source_view(f))
}

pub open spec fn has_source_url(found: Seq<SourceView>, url: Seq<char>) -> bool {
    exists|i: int| 0 <= i < found.len() && (#[trigger] found[i]).0 == url
}

/// Adds a URL seen at a place unless it was seen before.
pub open spec fn add_source(found: Seq<SourceView>, url: Seq<char>, file: Seq<char>, line: usize) -> Seq<SourceView> {
    if has_source_url(found, url) {
        found
    } else {
        found.push((url, file, line))
    }
}

pub open spec fn add_sources(found: Seq<SourceView>, urls: Seq<Seq<char>>, file: Seq<char>, line: usize) -> Seq<SourceView>
    decreases urls.len(),
{
    if urls.len() == 0 {
        found
    } else {
        add_source(add_sources(found, urls.drop_last(), file, line), urls.last(), file, line)
    }
}

pub open spec fn clean_group(g: Option<Seq<char>>) -> Option<Seq<char>> {
    match g {
        Some(u) => Some(trim_url_tail(trim(u))),
        None => None,
    }
}

/// The URLs tagged on a line, cleaned, in order.
pub open spec fn tagged_urls(line: Seq<char>) -> Seq<Seq<char>> {
    regex_groups(FEED_TAG_PATTERN@, line).filter_map(|g: Option<Seq<char>>| clean_group(g))
}

/// The sources after scanning the lines of a note in order; lines are
/// numbered from one.
pub open spec fn note_sources(found: Seq<SourceView>, lines: Seq<Seq<char>>, file: Seq<char>) -> Seq<SourceView>
    decreases lines.len(),
{
    if lines.len() == 0 {
        found
    } else {
        add_sources(
            note_sources(found, lines.drop_last(), file),
            tagged_urls(strip_cr(lines.last())),
            file,
            lines.len() as usize,
        )
    }
}

/// No URL is recorded twice.
pub open spec fn unique_urls(s: Seq<SourceView>) -> bool {
    forall|i: int, j: int| 0 <= i < j < s.len() ==> (#[trigger] s[i]).0 != (#[trigger] s[j]).0
}

proof fn lemma_add_sources_unique(found: Seq<SourceView>, urls: Seq<Seq<char>>, file: Seq<char>, line: usize)
    requires
        unique_urls(found),
    ensures
        unique_urls(add_sources(found, urls, file, line)),
    decreases urls.len(),
{
    if urls.len() > 0 {
        let before = add_sources(found, urls.drop_last(), file, line);
        lemma_add_sources_unique(found, urls.drop_last(), file, line);
        if !has_source_url(before, urls.last()) {
            let after = before.push((urls.last(), file, line));
            assert forall|i: int, j: int| 0 <= i < j < after.len() implies (#[trigger] after[i]).0 != (#[trigger] after[j]).0 by {
                if j == before.len() {
                    assert(after[i] == before[i]);
                } else {
                    assert(after[i] == before[i] && after[j] == before[j]);
                }
            }
        }
    }
}

/// Scanning notes never records a URL twice: each stays with the first place
/// where it was seen.
pub proof fn lemma_note_sources_unique(found: Seq<SourceView>, lines: Seq<Seq<char>>, file: Seq<char>)
    requires
        unique_urls(found),
    ensures
        unique_urls(note_sources(found, lines, file)),
    decreases lines.len(),
{
    if lines.len() > 0 {
        lemma_note_sources_unique(found, lines.drop_last(), file);
        lemma_add_sources_unique(
            note_sources(found, lines.drop_last(), file),
            tagged_urls(strip_cr(lines.last())),
            file,
            lines.len() as usize,
        );
    }
}

fn has_url(found: &Vec<FeedSource>, url: &String) -> (r: bool)
    ensures
        r == has_source_url(sources_view(found@), url@),
{
    let ghost fv = sources_view(found@);
    let mut i: usize = 0;
    while i < found.len()
        invariant
            i <= found@.len(),
            fv == sources_view(found@),
            forall|j: int| 0 <= j < i ==> (#[trigger] fv[j]).0 != url@,
        decreases found@.len() - i,
    {
        if found[i].url == *url {
            assert(fv[i as int].0 == url@);
            return true;
        }
        i = i + 1;
    }
    false
}

fn has_string(v: &Vec<String>, s: &String) -> (r: bool)
    ensures
        r == exists|i: int| 0 <= i < v@.len() && (#[trigger] v@[i])@ == s@,
{
    let mut i: usize = 0;
    while i < v.len()
        invariant
            i <= v@.len(),
            forall|j: int| 0 <= j < i ==> (#[trigger] v@[j])@ != s@,
        decreases v@.len() - i,
    {
        if v[i] == *s {
            return true;
        }
        i = i + 1;
    }
    false
}

/// Adds the feeds tagged on one line, each URL only once over the scan.
fn add_line_sources(
    pats: &FeedPatterns,
    source_file: &str,
    line: &Vec<char>,
    line_number: usize,
    found: &mut Vec<FeedSource>,
)
    requires
        pats.wf(),
    ensures
        sources_view(final(found)@) == add_sources(sources_view(old(found)@), tagged_urls(line@), source_file@, line_number),
{
    let text = string_of(line.as_slice());
    let groups = pats.feed_tag.first_groups(text.as_str());
    let ghost gv = groups@.map_values(|g: Option<String>| opt_view(g));
    let ghost start = sources_view(found@);
    let mut g: usize = 0;
    proof {
        assert(gv.subrange(0, 0).filter_map(|g: Option<Seq<char>>| clean_group(g)) =~= Seq::<Seq<char>>::empty());
    }
    while g < groups.len()
        invariant
            g <= groups@.len(),
            gv == groups@.map_values(|g: Option<String>| opt_view(g)),
            gv == regex_groups(FEED_TAG_PATTERN@, line@),
            sources_view(found@) == add_sources(
                start,
                gv.subrange(0, g as int).filter_map(|g: Option<Seq<char>>| clean_group(g)),
                source_file@,
                line_number,
            ),
        decreases groups@.len() - g,
    {
        let ghost before = found@;
        proof {
            assert(gv.subrange(0, g + 1).drop_last() =~= gv.subrange(0, g as int));
            assert(gv.subrange(0, g + 1).last() == opt_view(groups@[g as int]));
        }
        match &groups[g] {
            Some(raw) => {
                let url = clean_feed_url(raw.as_str());
                let ghost urls = gv.subrange(0, g as int).filter_map(|g: Option<Seq<char>>| clean_group(g));
                proof {
                    assert(gv.subrange(0, g + 1).filter_map(|g: Option<Seq<char>>| clean_group(g)) =~= urls + seq![url@]);
                    assert((urls + seq![url@]).drop_last() =~= urls);
                }
                if !has_url(found, &url) {
                    found.push(FeedSource { url, source_file: source_file.to_owned(), line_number });
                    proof {
                        assert(sources_view(found@) =~= sources_view(before).push(source_view(found@.last())));
                    }
                }
            },
            None => {
                proof {
                    assert(gv.subrange(0, g + 1).filter_map(|g: Option<Seq<char>>| clean_group(g)) =~= gv.subrange(0, g as int).filter_map(
                        |g: Option<Seq<char>>| clean_group(g),
                    ));
                }
            },
        }
        g = g + 1;
    }
    proof {
        assert(gv.subrange(0, groups@.len() as int) =~= gv);
    }
}

/// Adds the feeds tagged in one note to `found`, in line order, each URL with
/// the first place where it appears; lines are numbered from one.
pub fn add_feed_sources(pats: &FeedPatterns, source_file: &str, content: &str, found: &mut Vec<FeedSource>)
    requires
        pats.wf(),
        content@.len() < usize::MAX,
    ensures
        sources_view(final(found)@) == note_sources(sources_view(old(found)@), split_nl(content@), source_file@),
{
    let v = chars_of(content);
    let ghost start = sources_view(found@);
    let mut cur: Vec<char> = Vec::new();
    let mut line_number: usize = 1;
    let mut k: usize = 0;
    proof {
        assert(v@.subrange(0, 0) =~= Seq::<char>::empty());
        assert(split_nl(Seq::<char>::empty()).drop_last() =~= Seq::<Seq<char>>::empty());
    }
    while k < v.len()
        invariant
            pats.wf(),
            k <= v@.len() < usize::MAX,
            v@ == content@,
            line_number == split_nl(v@.subrange(0, k as int)).len(),
            cur@ == split_nl(v@.subrange(0, k as int)).last(),
            sources_view(found@) == note_sources(start, split_nl(v@.subrange(0, k as int)).drop_last(), source_file@),
        decreases v@.len() - k,
    {
        let ghost prev = split_nl(v@.subrange(0, k as int));
        proof {
            lemma_split_nl_len(v@.subrange(0, k as int));
            assert(v@.subrange(0, k + 1).drop_last() =~= v@.subrange(0, k as int));
        }
        if v[k] == '\n' {
            let line = strip_cr_exec(&cur);
            add_line_sources(pats, source_file, &line, line_number, found);
            proof {
                assert(split_nl(v@.subrange(0, k + 1)).drop_last() =~= prev);
                assert(prev.drop_last().push(prev.last()) =~= prev);
            }
            cur = Vec::new();
            line_number = line_number + 1;
        } else {
            proof {
                assert(split_nl(v@.subrange(0, k + 1)).drop_last() =~= prev.drop_last());
            }
            cur.push(v[k]);
        }
        k = k + 1;
    }
    let ghost ls = split_nl(v@);
    proof {
        lemma_split_nl_len(v@);
        assert(v@.subrange(0, v@.len() as int) =~= v@);
        assert(ls.drop_last().push(ls.last()) =~= ls);
    }
    let line = strip_cr_exec(&cur);
    add_line_sources(pats, source_file, &line, line_number, found);
}

pub open spec fn add_string(v: Seq<Seq<char>>, s: Seq<char>) -> Seq<Seq<char>> {
    if v.contains(s) {
        v
    } else {
        v.push(s)
    }
}

pub open spec fn add_strings(v: Seq<Seq<char>>, ss: Seq<Seq<char>>) -> Seq<Seq<char>>
    decreases ss.len(),
{
    if ss.len() == 0 {
        v
    } else {
        add_string(add_strings(v, ss.drop_last()), ss.last())
    }
}

/// The hosts of the links in a text, in order.
pub open spec fn linked_domains(text: Seq<char>) -> Seq<Seq<char>> {
    regex_groups(DOMAIN_PATTERN@, text).filter_map(|g: Option<Seq<char>>| g)
}

pub open spec fn strings_view(v: Seq<String>) -> Seq<Seq<char>> {
    v.map_values(|s: String| s@)
}

/// Adds the host of each link in a note to `domains`, each once, in the order
/// first seen.
pub fn add_domains(pats: &FeedPatterns, content: &str, domains: &mut Vec<String>)
    requires
        pats.wf(),
    ensures
        strings_view(final(domains)@) == add_strings(strings_view(old(domains)@), linked_domains(content@)),
{
    let groups = pats.domain.first_groups(content);
    let ghost gv = groups@.map_values(|g: Option<String>| opt_view(g));
    let ghost start = strings_view(domains@);
    let mut g: usize = 0;
    proof {
        assert(gv.subrange(0, 0).filter_map(|g: Option<Seq<char>>| g) =~= Seq::<Seq<char>>::empty());
    }
    while g < groups.len()
        invariant
            g <= groups@.len(),
            gv == groups@.map_values(|g: Option<String>| opt_view(g)),
            gv == regex_groups(DOMAIN_PATTERN@, content@),
            strings_view(domains@) == add_strings(start, gv.subrange(0, g as int).filter_map(|g: Option<Seq<char>>| g)),
        decreases groups@.len() - g,
    {
        let ghost before = domains@;
        proof {
            assert(gv.subrange(0, g + 1).drop_last() =~= gv.subrange(0, g as int));
            assert(gv.subrange(0, g + 1).last() == opt_view(groups@[g as int]));
        }
        match &groups[g] {
            Some(d) => {
                let ghost ds = gv.subrange(0, g as int).filter_map(|g: Option<Seq<char>>| g);
                proof {
                    assert(gv.subrange(0, g + 1).filter_map(|g: Option<Seq<char>>| g) =~= ds + seq![d@]);
                    assert((ds + seq![d@]).drop_last() =~= ds);
                }
                let seen = has_string(domains, d);
                proof {
                    let sv = strings_view(before);
                    if sv.contains(d@) {
                        let w = choose|w: int| 0 <= w < sv.len() && sv[w] == d@;
                        assert(before[w]@ == d@);
                    }
                    if seen {
                        let w = choose|w: int| 0 <= w < before.len() && (#[trigger] before[w])@ == d@;
                        assert(sv[w] == d@);
                    }
                }
                if !seen {
                    domains.push(d.clone());
                    proof {
                        assert(strings_view(domains@) =~= strings_view(before).push(d@));
                    }
                }
            },
            None => {
                proof {
                    assert(gv.subrange(0, g + 1).filter_map(|g: Option<Seq<char>>| g) =~= gv.subrange(0, g as int).filter_map(
                        |g: Option<Seq<char>>| g,
                    ));
                }
            },
        }
        g = g + 1;
    }
    proof {
        assert(gv.subrange(0, groups@.len() as int) =~= gv);
    }
}

pub open spec fn candidate_url(domain: Seq<char>, path: Seq<char>) -> Seq<char> {
    "https://"@ + domain + path
}

fn candidate(domain: &str, path: &str) -> (r: String)
    ensures
        r@ == candidate_url(domain@, path@),
{
    let mut s = String::from_str("https://");
    s.append(domain);
    s.append(path);
    s
}

/// The places tried, in order, for a feed of a domain.
pub fn candidate_feed_urls(domain: &str) -> (r: Vec<String>)
    ensures
        r@.len() == 6,
        r@[0]@ == candidate_url(domain@, "/feed"@),
        r@[1]@ == candidate_url(domain@, "/rss"@),
        r@[2]@ == candidate_url(domain@, "/feed.xml"@),
        r@[3]@ == candidate_url(domain@, "/rss.xml"@),
        r@[4]@ == candidate_url(domain@, "/atom.xml"@),
        r@[5]@ == candidate_url(domain@, "/index.xml"@),
{
    let mut r: Vec<String> = Vec::new();
    r.push(candidate(domain, "/feed"));
    r.push(candidate(domain, "/rss"));
    r.push(candidate(domain, "/feed.xml"));
    r.push(candidate(domain, "/rss.xml"));
    r.push(candidate(domain, "/atom.xml"));
    r.push(candidate(domain, "/index.xml"));
    r
}

} // verus!
