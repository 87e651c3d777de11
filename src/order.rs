//! Newest-first ordering of optional instants; absent instants sort last.

use vstd::prelude::*;
use crate::time::Timestamp;

verus! {

/// `a` is at least as recent as `b`; an absent instant is older than any other.
pub open spec fn newer_eq(a: Option<Timestamp>, b: Option<Timestamp>) -> bool {
    match (a, b) {
        (_, None) => true,
        (None, Some(_)) => false,
        (Some(x), Some(y)) => x.spec_secs() > y.spec_secs() || (x.spec_secs() == y.spec_secs()
            && x.spec_nanos() >= y.spec_nanos()),
    }
}

fn newer_eq_exec(a: Option<Timestamp>, b: Option<Timestamp>) -> (r: bool)
    ensures
        r == newer_eq(a, b),
{
    match (a, b) {
        (_, None) => true,
        (None, Some(_)) => false,
        (Some(x), Some(y)) => x.secs() > y.secs() || (x.secs() == y.secs() && x.nanos() >= y.nanos()),
    }
}

/// `p` lists each index below `n` once.
pub open spec fn is_permutation(p: Seq<usize>, n: nat) -> bool {
    &&& p.len() == n
    &&& forall|i: int| 0 <= i < p.len() ==> p[i] < n
    &&& forall|i: int, j: int| 0 <= i < j < p.len() ==> p[i] != p[j]
}

/// The instants that `p` picks from `keys` run from newest to oldest.
pub open spec fn newest_first(keys: Seq<Option<Timestamp>>, p: Seq<usize>) -> bool {
    forall|i: int, j: int|
        0 <= i < j < p.len() ==> newer_eq(#[trigger] keys[p[i] as int], #[trigger] keys[p[j] as int])
}

/// Indices of equal instants keep their order.
pub open spec fn stable(keys: Seq<Option<Timestamp>>, p: Seq<usize>) -> bool {
    forall|i: int, j: int|
        0 <= i < j < p.len() && newer_eq(#[trigger] keys[p[j] as int], #[trigger] keys[p[i] as int]) ==> p[i] < p[j]
}

/// The indices of `keys`, newest first; equal instants keep their order.
pub fn order_newest_first(keys: &Vec<Option<Timestamp>>) -> (r: Vec<usize>)
    ensures
        is_permutation(r@, keys@.len()),
        newest_first(keys@, r@),
        stable(keys@, r@),
{
    let mut out: Vec<usize> = Vec::new();
    let mut i: usize = 0;
    while i < keys.len()
        invariant
            i <= keys@.len(),
            is_permutation(out@, i as nat),
            newest_first(keys@, out@),
            stable(keys@, out@),
        decreases keys@.len() - i,
    {
        let key = keys[i];
        let mut pos: usize = 0;
        while pos < out.len() && newer_eq_exec(keys[out[pos]], key)
            invariant
                pos <= out@.len(),
                is_permutation(out@, i as nat),
                i < keys@.len(),
                key == keys@[i as int],
                forall|k: int| 0 <= k < pos ==> newer_eq(keys@[out@[k] as int], key),
            decreases out@.len() - pos,
        {
            pos = pos + 1;
        }
        let ghost old_out = out@;
        out.insert(pos, i);
        proof {
            assert(out@ =~= old_out.insert(pos as int, i));
            assert forall|a: int, b: int| 0 <= a < b < out@.len() implies newer_eq(
                #[trigger] keys@[out@[a] as int],
                #[trigger] keys@[out@[b] as int],
            ) by {
                if pos < old_out.len() {
                    assert(!newer_eq(keys@[old_out[pos as int] as int], key));
                }
                if a < pos as int && b == pos as int {
                } else if a == pos as int && b > pos as int {
                    assert(newer_eq(keys@[old_out[pos as int] as int], keys@[old_out[b - 1] as int])
                        || pos as int == b - 1);
                } else if a < pos as int && b > pos as int {
                } else if a > pos as int {
                }
            }
        }
        proof {
            assert forall|a: int, b: int|
                0 <= a < b < out@.len() && newer_eq(
                    #[trigger] keys@[out@[b] as int],
                    #[trigger] keys@[out@[a] as int],
                ) implies out@[a] < out@[b] by {
                if a < pos as int && b == pos as int {
                    assert(old_out[a] < i);
                } else if a == pos as int && b > pos as int {
                    assert(!newer_eq(keys@[old_out[pos as int] as int], key));
                    assert(newer_eq(keys@[old_out[pos as int] as int], keys@[old_out[b - 1] as int])
                        || pos as int == b - 1);
                } else if a < pos as int && b > pos as int {
                    assert(out@[a] == old_out[a] && out@[b] == old_out[b - 1]);
                } else if a > pos as int {
                    assert(out@[a] == old_out[a - 1] && out@[b] == old_out[b - 1]);
                } else {
                    assert(out@[a] == old_out[a] && out@[b] == old_out[b]);
                }
            }
        }
        i = i + 1;
    }
    out
}

} // verus!
