//! Character-sequence helpers: trimming, line splitting, searching.

use vstd::prelude::*;
use vstd::std_specs::iter::IteratorSpec;

verus! {

/// The characters of a string, in order.
pub fn chars_of(s: &str) -> (r: Vec<char>)
    ensures
        r@ == s@,
{
    let mut it = s.chars();
    let mut out: Vec<char> = Vec::new();
    loop
        invariant
            out@ + it.remaining() == s@,
            it.decrease() is Some,
        ensures
            out@ == s@,
        decreases it.decrease()->0,
    {
        match it.next() {
            Some(c) => {
                proof {
                    assert(out@.push(c) + it.remaining() =~= s@);
                }
                out.push(c);
            },
            None => {
                break;
            },
        }
    }
    out
}

/// Relies on collecting characters into a `String`: the same characters.
#[verifier::external_body]
pub fn string_of(v: &[char]) -> (r: String)
    ensures
        r@ == v@,
{
    v.iter().collect()
}

/// Unicode `White_Space`, the set that `char::is_whitespace` and `str::trim` use.
pub open spec fn is_ws(c: char) -> bool {
    let u = c as u32;
    (0x9 <= u && u <= 0xd) || u == 0x20 || u == 0x85 || u == 0xa0 || u == 0x1680 || (0x2000 <= u
        && u <= 0x200a) || u == 0x2028 || u == 0x2029 || u == 0x202f || u == 0x205f || u == 0x3000
}

pub fn is_whitespace(c: char) -> (r: bool)
    ensures
        r == is_ws(c),
{
    let u = c as u32;
    (0x9 <= u && u <= 0xd) || u == 0x20 || u == 0x85 || u == 0xa0 || u == 0x1680 || (0x2000 <= u
        && u <= 0x200a) || u == 0x2028 || u == 0x2029 || u == 0x202f || u == 0x205f || u == 0x3000
}

pub open spec fn trim_start(s: Seq<char>) -> Seq<char>
    decreases s.len(),
{
    if s.len() > 0 && is_ws(s[0]) {
        trim_start(s.drop_first())
    } else {
        s
    }
}

pub open spec fn trim_end(s: Seq<char>) -> Seq<char>
    decreases s.len(),
{
    if s.len() > 0 && is_ws(s.last()) {
        trim_end(s.drop_last())
    } else {
        s
    }
}

/// `s` without leading and trailing whitespace.
pub open spec fn trim(s: Seq<char>) -> Seq<char> {
    trim_end(trim_start(s))
}

/// Copies `v[lo..hi]`.
pub fn slice_of(v: &Vec<char>, lo: usize, hi: usize) -> (r: Vec<char>)
    requires
        lo <= hi <= v@.len(),
    ensures
        r@ == v@.subrange(lo as int, hi as int),
{
    let mut r: Vec<char> = Vec::new();
    let mut i: usize = lo;
    while i < hi
        invariant
            lo <= i <= hi <= v@.len(),
            r@ == v@.subrange(lo as int, i as int),
        decreases hi - i,
    {
        r.push(v[i]);
        proof {
            assert(r@ =~= v@.subrange(lo as int, i + 1));
        }
        i = i + 1;
    }
    r
}

/// The characters of `v[lo..hi]` without leading and trailing whitespace.
pub fn trim_slice(v: &Vec<char>, lo: usize, hi: usize) -> (r: Vec<char>)
    requires
        lo <= hi <= v@.len(),
    ensures
        r@ == trim(v@.subrange(lo as int, hi as int)),
{
    let ghost s = v@.subrange(lo as int, hi as int);
    let mut a: usize = lo;
    while a < hi && is_whitespace(v[a])
        invariant
            lo <= a <= hi <= v@.len(),
            s == v@.subrange(lo as int, hi as int),
            trim_start(s) == trim_start(v@.subrange(a as int, hi as int)),
        decreases hi - a,
    {
        proof {
            assert(v@.subrange(a as int, hi as int).drop_first() =~= v@.subrange(a + 1, hi as int));
        }
        a = a + 1;
    }
    let mut b: usize = hi;
    while b > a && is_whitespace(v[b - 1])
        invariant
            lo <= a <= b <= hi <= v@.len(),
            trim(s) == trim_end(v@.subrange(a as int, b as int)),
        decreases b - a,
    {
        proof {
            assert(v@.subrange(a as int, b as int).drop_last() =~= v@.subrange(a as int, b - 1));
        }
        b = b - 1;
    }
    slice_of(v, a, b)
}

/// Three dashes start at `i`.
pub open spec fn delim_at(s: Seq<char>, i: int) -> bool {
    0 <= i && i + 3 <= s.len() && s[i] == '-' && s[i + 1] == '-' && s[i + 2] == '-'
}

/// The first place at or after `from` where three dashes start.
pub open spec fn find_delim_from(s: Seq<char>, from: int) -> Option<int>
    decreases s.len() - from,
{
    if from < 0 || from + 3 > s.len() {
        None
    } else if delim_at(s, from) {
        Some(from)
    } else {
        find_delim_from(s, from + 1)
    }
}

pub fn find_delim(v: &Vec<char>, from: usize) -> (r: Option<usize>)
    requires
        from <= v@.len(),
    ensures
        r matches Some(i) ==> find_delim_from(v@, from as int) == Some(i as int) && from <= i
            && delim_at(v@, i as int),
        r is None ==> find_delim_from(v@, from as int) is None,
{
    let mut i: usize = from;
    while i < v.len() && v.len() - i >= 3
        invariant
            from <= i <= v@.len(),
            find_delim_from(v@, from as int) == find_delim_from(v@, i as int),
        decreases v@.len() - i,
    {
        if v[i] == '-' && v[i + 1] == '-' && v[i + 2] == '-' {
            return Some(i);
        }
        i = i + 1;
    }
    None
}

/// The pieces of `s` between newlines, defined from the last character back.
pub open spec fn split_nl(s: Seq<char>) -> Seq<Seq<char>>
    decreases s.len(),
{
    if s.len() == 0 {
        seq![Seq::<char>::empty()]
    } else {
        let prev = split_nl(s.drop_last());
        if s.last() == '\n' {
            prev.push(Seq::<char>::empty())
        } else {
            prev.update(prev.len() - 1, prev.last().push(s.last()))
        }
    }
}

pub proof fn lemma_split_nl_len(s: Seq<char>)
    ensures
        1 <= split_nl(s).len() <= s.len() + 1,
    decreases s.len(),
{
    if s.len() > 0 {
        lemma_split_nl_len(s.drop_last());
    }
}

/// Each piece followed by a newline.
pub open spec fn join_terminated(ls: Seq<Seq<char>>) -> Seq<char>
    decreases ls.len(),
{
    if ls.len() == 0 {
        Seq::<char>::empty()
    } else {
        join_terminated(ls.drop_last()) + ls.last() + seq!['\n']
    }
}

/// The pieces joined with newlines between them.
pub open spec fn join_nl(ls: Seq<Seq<char>>) -> Seq<char> {
    if ls.len() == 0 {
        Seq::<char>::empty()
    } else {
        join_terminated(ls.drop_last()) + ls.last()
    }
}

/// No three dashes in a row.
pub open spec fn no_delim(s: Seq<char>) -> bool {
    forall|k: int| !#[trigger] delim_at(s, k)
}

pub open spec fn no_newline(s: Seq<char>) -> bool {
    forall|k: int| 0 <= k < s.len() ==> #[trigger] s[k] != '\n'
}

pub open spec fn dashes() -> Seq<char> {
    seq!['-', '-', '-']
}

/// Followed by a delimiter, the text holds none before it.
pub open spec fn clean(s: Seq<char>) -> bool {
    no_delim(s) && (s.len() == 0 || s.last() != '-')
}

pub proof fn lemma_find_delim_found(s: Seq<char>, from: int)
    requires
        0 <= from,
    ensures
        find_delim_from(s, from) matches Some(i) ==> from <= i && delim_at(s, i) && forall|k: int|
            from <= k < i ==> !#[trigger] delim_at(s, k),
    decreases s.len() - from,
{
    if !(from + 3 > s.len()) && !delim_at(s, from) {
        lemma_find_delim_found(s, from + 1);
    }
}

pub proof fn lemma_find_delim_at(s: Seq<char>, from: int, i: int)
    requires
        0 <= from <= i,
        delim_at(s, i),
        forall|k: int| from <= k < i ==> !#[trigger] delim_at(s, k),
    ensures
        find_delim_from(s, from) == Some(i),
    decreases i - from,
{
    if from < i {
        assert(!delim_at(s, from));
        lemma_find_delim_at(s, from + 1, i);
    }
}

pub proof fn lemma_no_delim_concat(a: Seq<char>, b: Seq<char>)
    requires
        no_delim(a),
        no_delim(b),
        (a.len() > 0 && a.last() != '-') || (b.len() > 0 && b[0] != '-'),
    ensures
        no_delim(a + b),
{
    let s = a + b;
    assert forall|k: int| !#[trigger] delim_at(s, k) by {
        if delim_at(s, k) {
            if k + 3 <= a.len() {
                assert(delim_at(a, k));
            } else if k >= a.len() {
                assert(delim_at(b, k - a.len()));
            } else {
                assert(s[a.len() - 1] == '-' && s[a.len() as int] == '-');
            }
        }
    }
}

pub proof fn lemma_no_delim_subrange(s: Seq<char>, lo: int, hi: int)
    requires
        no_delim(s),
        0 <= lo <= hi <= s.len(),
    ensures
        no_delim(s.subrange(lo, hi)),
{
    let t = s.subrange(lo, hi);
    assert forall|k: int| !#[trigger] delim_at(t, k) by {
        if delim_at(t, k) {
            assert(delim_at(s, lo + k));
        }
    }
}

/// A text is clean exactly when no delimiter starts in it once one follows.
pub proof fn lemma_clean(x: Seq<char>)
    ensures
        clean(x) <==> forall|k: int| 0 <= k < x.len() ==> !#[trigger] delim_at(x + dashes(), k),
{
    let y = x + dashes();
    if clean(x) {
        assert forall|k: int| 0 <= k < x.len() implies !#[trigger] delim_at(y, k) by {
            if delim_at(y, k) {
                if k + 3 <= x.len() {
                    assert(delim_at(x, k));
                } else {
                    assert(y[x.len() - 1] == '-');
                }
            }
        }
    }
    if forall|k: int| 0 <= k < x.len() ==> !#[trigger] delim_at(y, k) {
        assert forall|k: int| !#[trigger] delim_at(x, k) by {
            if delim_at(x, k) {
                assert(delim_at(y, k));
            }
        }
        if x.len() > 0 {
            assert(!delim_at(y, x.len() - 1));
        }
    }
}

/// The pieces of a text: at least one, none holding a newline, the last a
/// suffix of the text, and free of delimiters where the text is.
pub proof fn lemma_split_nl_pieces(s: Seq<char>)
    ensures
        split_nl(s).len() >= 1,
        split_nl(s).last().len() <= s.len(),
        split_nl(s).last() == s.subrange(s.len() - split_nl(s).last().len(), s.len() as int),
        forall|k: int| 0 <= k < split_nl(s).len() ==> no_newline(#[trigger] split_nl(s)[k]),
        no_delim(s) ==> forall|k: int| 0 <= k < split_nl(s).len() ==> no_delim(#[trigger] split_nl(s)[k]),
    decreases s.len(),
{
    if s.len() == 0 {
        assert(split_nl(s).last() =~= s.subrange(0, 0));
    } else {
        let d = s.drop_last();
        lemma_split_nl_pieces(d);
        let prev = split_nl(d);
        let ls = split_nl(s);
        if no_delim(s) {
            lemma_no_delim_subrange(s, 0, s.len() - 1);
            assert(d =~= s.subrange(0, s.len() - 1));
        }
        if s.last() == '\n' {
            assert(ls.last() =~= s.subrange(s.len() as int, s.len() as int));
            assert forall|k: int| 0 <= k < ls.len() implies no_newline(#[trigger] ls[k]) by {
                if k < prev.len() {
                    assert(ls[k] == prev[k]);
                }
            }
            if no_delim(s) {
                assert forall|k: int| 0 <= k < ls.len() implies no_delim(#[trigger] ls[k]) by {
                    if k < prev.len() {
                        assert(ls[k] == prev[k]);
                    } else {
                        assert forall|j: int| !#[trigger] delim_at(ls[k], j) by {}
                    }
                }
            }
        } else {
            let n = ls.last().len();
            let m = prev.last().len();
            assert(ls.last() == prev.last().push(s.last()));
            assert(n == m + 1);
            assert(d.subrange(d.len() - m, d.len() as int) =~= s.subrange(s.len() - 1 - m, s.len() - 1));
            assert(ls.last() =~= s.subrange(s.len() - n, s.len() as int));
            assert forall|k: int| 0 <= k < ls.len() implies no_newline(#[trigger] ls[k]) by {
                if k < prev.len() - 1 {
                    assert(ls[k] == prev[k]);
                } else {
                    assert(no_newline(prev[prev.len() - 1]));
                }
            }
            if no_delim(s) {
                assert forall|k: int| 0 <= k < ls.len() implies no_delim(#[trigger] ls[k]) by {
                    if k < prev.len() - 1 {
                        assert(ls[k] == prev[k]);
                    } else {
                        lemma_no_delim_subrange(s, s.len() - n, s.len() as int);
                    }
                }
            }
        }
    }
}

/// Joining the pieces gives the text back.
pub proof fn lemma_join_split(s: Seq<char>)
    ensures
        join_nl(split_nl(s)) == s,
    decreases s.len(),
{
    if s.len() > 0 {
        let d = s.drop_last();
        lemma_join_split(d);
        lemma_split_nl_len(d);
        let prev = split_nl(d);
        let ls = split_nl(s);
        if s.last() == '\n' {
            assert(ls.drop_last() =~= prev);
            assert(join_terminated(prev) =~= join_terminated(prev.drop_last()) + prev.last() + seq!['\n']);
            assert(join_nl(ls) =~= s);
        } else {
            assert(ls.drop_last() =~= prev.drop_last());
            assert(ls.last() == prev.last().push(s.last()));
            assert(join_nl(prev) == join_terminated(prev.drop_last()) + prev.last());
            assert(s =~= d.push(s.last()));
            assert(join_nl(ls) =~= s);
        }
    } else {
        assert(join_nl(split_nl(s)) =~= s);
    }
}

/// Appending text without newlines extends the last piece.
pub proof fn lemma_split_nl_append(a: Seq<char>, y: Seq<char>)
    requires
        no_newline(y),
    ensures
        split_nl(a + y) == split_nl(a).update(split_nl(a).len() - 1, split_nl(a).last() + y),
    decreases y.len(),
{
    lemma_split_nl_len(a);
    let pa = split_nl(a);
    if y.len() == 0 {
        assert(a + y =~= a);
        assert(pa.last() + y =~= pa.last());
        assert(pa.update(pa.len() - 1, pa.last()) =~= pa);
    } else {
        let y0 = y.drop_last();
        assert(no_newline(y0));
        lemma_split_nl_append(a, y0);
        assert((a + y).drop_last() =~= a + y0);
        assert((a + y).last() == y.last());
        assert(y.last() == y[y.len() - 1]);
        assert(y.last() != '\n');
        let prev = split_nl(a + y0);
        assert(prev.len() == pa.len());
        assert(prev.last() == pa.last() + y0);
        assert(split_nl(a + y) == prev.update(prev.len() - 1, prev.last().push(y.last())));
        assert((pa.last() + y0).push(y.last()) =~= pa.last() + y);
        assert(split_nl(a + y) =~= pa.update(pa.len() - 1, pa.last() + y));
    }
}

pub proof fn lemma_join_nl_step(ls: Seq<Seq<char>>)
    requires
        ls.len() > 1,
    ensures
        join_nl(ls) == join_nl(ls.drop_last()) + seq!['\n'] + ls.last(),
{
    assert(ls.drop_last().drop_last() =~= ls.drop_last().drop_last());
}

/// Splitting pieces without newlines that were joined gives them back.
pub proof fn lemma_split_join(ls: Seq<Seq<char>>)
    requires
        ls.len() >= 1,
        forall|k: int| 0 <= k < ls.len() ==> no_newline(#[trigger] ls[k]),
    ensures
        split_nl(join_nl(ls)) == ls,
    decreases ls.len(),
{
    if ls.len() == 1 {
        lemma_split_nl_append(Seq::<char>::empty(), ls[0]);
        assert(join_nl(ls) =~= Seq::<char>::empty() + ls[0]);
        assert(split_nl(join_nl(ls)) =~= ls);
    } else {
        let d = ls.drop_last();
        assert forall|k: int| 0 <= k < d.len() implies no_newline(#[trigger] d[k]) by {
            assert(d[k] == ls[k]);
        }
        lemma_split_join(d);
        lemma_join_nl_step(ls);
        let a = join_nl(d) + seq!['\n'];
        assert(a.drop_last() =~= join_nl(d));
        assert(split_nl(a) == split_nl(join_nl(d)).push(Seq::<char>::empty()));
        assert(no_newline(ls[ls.len() - 1]));
        lemma_split_nl_append(a, ls.last());
        assert(split_nl(join_nl(ls)) =~= ls);
    }
}

pub proof fn lemma_join_terminated_shape(ls: Seq<Seq<char>>)
    requires
        forall|k: int| 0 <= k < ls.len() ==> no_delim(#[trigger] ls[k]),
    ensures
        no_delim(join_terminated(ls)),
        join_terminated(ls).len() == 0 || join_terminated(ls).last() == '\n',
    decreases ls.len(),
{
    if ls.len() > 0 {
        let d = ls.drop_last();
        assert forall|k: int| 0 <= k < d.len() implies no_delim(#[trigger] d[k]) by {
            assert(d[k] == ls[k]);
        }
        lemma_join_terminated_shape(d);
        let x = join_terminated(d);
        let l = ls.last();
        assert(no_delim(ls[ls.len() - 1]));
        if x.len() == 0 {
            assert(x + l =~= l);
        } else {
            lemma_no_delim_concat(x, l);
        }
        let nl = seq!['\n'];
        assert(no_delim(nl)) by {
            assert forall|k: int| !#[trigger] delim_at(nl, k) by {}
        }
        lemma_no_delim_concat(x + l, nl);
    }
}

/// Joined pieces free of delimiters are free of them, and the join ends with
/// a newline or with the last piece.
pub proof fn lemma_join_nl_shape(ls: Seq<Seq<char>>)
    requires
        ls.len() >= 1,
        forall|k: int| 0 <= k < ls.len() ==> no_delim(#[trigger] ls[k]),
    ensures
        no_delim(join_nl(ls)),
        join_nl(ls).len() > 0 ==> (join_nl(ls).last() == '\n' || (ls.last().len() > 0
            && join_nl(ls).last() == ls.last().last())),
{
    let d = ls.drop_last();
    assert forall|k: int| 0 <= k < d.len() implies no_delim(#[trigger] d[k]) by {
        assert(d[k] == ls[k]);
    }
    lemma_join_terminated_shape(d);
    let x = join_terminated(d);
    let l = ls.last();
    assert(no_delim(ls[ls.len() - 1]));
    if x.len() == 0 {
        assert(x + l =~= l);
    } else if l.len() == 0 {
        assert(x + l =~= x);
    } else {
        lemma_no_delim_concat(x, l);
    }
}

/// The first index at or after `from` where `c` stands.
pub open spec fn find_char_from(s: Seq<char>, c: char, from: int) -> Option<int>
    decreases s.len() - from,
{
    if from < 0 || from >= s.len() {
        None
    } else if s[from] == c {
        Some(from)
    } else {
        find_char_from(s, c, from + 1)
    }
}

pub fn find_char(v: &Vec<char>, c: char) -> (r: Option<usize>)
    ensures
        r matches Some(i) ==> find_char_from(v@, c, 0) == Some(i as int) && i < v@.len() && v@[i as int]
            == c,
        r is None ==> find_char_from(v@, c, 0) is None,
{
    let mut i: usize = 0;
    while i < v.len()
        invariant
            i <= v@.len(),
            find_char_from(v@, c, 0) == find_char_from(v@, c, i as int),
        decreases v@.len() - i,
    {
        if v[i] == c {
            return Some(i);
        }
        i = i + 1;
    }
    None
}

/// `needle` occurs in `hay` starting at `i`.
pub open spec fn occurs_at(hay: Seq<char>, needle: Seq<char>, i: int) -> bool {
    0 <= i && i + needle.len() <= hay.len() && hay.subrange(i, i + needle.len()) == needle
}

pub open spec fn contains_seq(hay: Seq<char>, needle: Seq<char>) -> bool {
    exists|i: int| occurs_at(hay, needle, i)
}

fn occurs_at_exec(hay: &Vec<char>, needle: &Vec<char>, i: usize) -> (r: bool)
    requires
        i + needle@.len() <= hay@.len(),
    ensures
        r == occurs_at(hay@, needle@, i as int),
{
    let n = hay.len();
    let mut k: usize = 0;
    while k < needle.len()
        invariant
            k <= needle@.len(),
            i + needle@.len() <= hay@.len() == n,
            forall|j: int| 0 <= j < k ==> hay@[i + j] == needle@[j],
        decreases needle@.len() - k,
    {
        if hay[i + k] != needle[k] {
            proof {
                assert(hay@.subrange(i as int, i + needle@.len())[k as int] != needle@[k as int]);
            }
            return false;
        }
        k = k + 1;
    }
    proof {
        assert(hay@.subrange(i as int, i + needle@.len()) =~= needle@);
    }
    true
}

/// Whether `needle` occurs somewhere in `hay`.
pub fn contains_chars(hay: &Vec<char>, needle: &Vec<char>) -> (r: bool)
    ensures
        r == contains_seq(hay@, needle@),
{
    if needle.len() > hay.len() {
        return false;
    }
    let last: usize = hay.len() - needle.len();
    let mut i: usize = 0;
    while i <= last
        invariant
            last + needle@.len() == hay@.len(),
            i <= last + 1,
            forall|j: int| 0 <= j < i ==> !occurs_at(hay@, needle@, j),
        decreases last + 1 - i,
    {
        if occurs_at_exec(hay, needle, i) {
            return true;
        }
        if i == last {
            return false;
        }
        i = i + 1;
    }
    false
}

/// Whether the characters of `v` are those of `s`.
pub fn eq_str(v: &Vec<char>, s: &str) -> (r: bool)
    ensures
        r == (v@ == s@),
{
    let n = s.unicode_len();
    if n != v.len() {
        return false;
    }
    let mut i: usize = 0;
    while i < n
        invariant
            n == v@.len() == s@.len(),
            i <= n,
            forall|j: int| 0 <= j < i ==> v@[j] == s@[j],
        decreases n - i,
    {
        if v[i] != s.get_char(i) {
            return false;
        }
        i = i + 1;
    }
    proof {
        assert(v@ =~= s@);
    }
    true
}

/// Appends the characters of `s` to `out`.
pub fn push_str(out: &mut Vec<char>, s: &str)
    ensures
        final(out)@ == old(out)@ + s@,
{
    let mut cs = chars_of(s);
    out.append(&mut cs);
}

} // verus!
