//! Verified utilities over strings, used by the tree and the codecs.

use vstd::prelude::*;

verus! {

/// Character-wise equality of two string slices.
pub fn str_eq(a: &str, b: &str) -> (r: bool)
    ensures
        r == (a@ == b@),
{
    let la = a.unicode_len();
    let lb = b.unicode_len();
    if la != lb {
        return false;
    }
    let mut i: usize = 0;
    while i < la
        invariant
            la == a@.len(),
            la == b@.len(),
            i <= la,
            forall|j: int| 0 <= j < i ==> a@[j] == b@[j],
        decreases la - i,
    {
        if a.get_char(i) != b.get_char(i) {
            return false;
        }
        i += 1;
    }
    proof {
        assert(a@ =~= b@);
    }
    true
}

/// The part of a possibly prefixed XML name after its last colon.
pub open spec fn local_of(n: Seq<char>) -> Seq<char>
    decreases n.len(),
{
    if n.len() == 0 {
        n
    } else if n.last() == ':' {
        Seq::empty()
    } else {
        local_of(n.drop_last()).push(n.last())
    }
}

proof fn lemma_local_no_colon(n: Seq<char>)
    requires
        forall|j: int| 0 <= j < n.len() ==> n[j] != ':',
    ensures
        local_of(n) == n,
    decreases n.len(),
{
    if n.len() > 0 {
        lemma_local_no_colon(n.drop_last());
        assert(local_of(n) =~= n);
    }
}

proof fn lemma_local_after_colon(n: Seq<char>, ix: int)
    requires
        0 <= ix < n.len(),
        n[ix] == ':',
        forall|j: int| ix < j < n.len() ==> n[j] != ':',
    ensures
        local_of(n) == n.subrange(ix + 1, n.len() as int),
    decreases n.len(),
{
    if ix == n.len() - 1 {
        assert(local_of(n) =~= n.subrange(ix + 1, n.len() as int));
    } else {
        lemma_local_after_colon(n.drop_last(), ix);
        assert(local_of(n) =~= n.subrange(ix + 1, n.len() as int));
    }
}

/// The local part of an XML name: what follows the last colon, or the whole
/// name when it carries no prefix.
#[verifier::loop_isolation(false)]
pub fn local_part<'a>(n: &'a str) -> (r: &'a str)
    ensures
        r@ == local_of(n@),
{
    let ln = n.unicode_len();
    let mut i = ln;
    while i > 0
        invariant
            i <= ln,
            ln == n@.len(),
            forall|j: int| i <= j < ln ==> n@[j] != ':',
        decreases i,
    {
        if n.get_char(i - 1) == ':' {
            proof {
                lemma_local_after_colon(n@, i - 1);
            }
            return n.substring_char(i, ln);
        }
        i -= 1;
    }
    proof {
        lemma_local_no_colon(n@);
    }
    n
}

/// Whether the characters starting at `i` are exactly `pat`.
#[verifier::loop_isolation(false)]
pub(crate) fn match_at(s: &str, i: usize, pat: &str) -> (r: bool)
    requires
        i <= s@.len(),
    ensures
        r == (i + pat@.len() <= s@.len() && s@.subrange(i as int, i + pat@.len()) == pat@),
{
    let n = s.unicode_len();
    let pl = pat.unicode_len();
    if pl > n - i {
        return false;
    }
    let mut j: usize = 0;
    while j < pl
        invariant
            j <= pl,
            i + pl <= n,
            n == s@.len(),
            pl == pat@.len(),
            forall|t: int| 0 <= t < j ==> s@[i + t] == pat@[t],
        decreases pl - j,
    {
        if s.get_char(i + j) != pat.get_char(j) {
            proof {
                assert(s@.subrange(i as int, i + pat@.len())[j as int] != pat@[j as int]);
            }
            return false;
        }
        j += 1;
    }
    proof {
        assert(s@.subrange(i as int, i + pat@.len()) =~= pat@);
    }
    true
}

/// Whether `pat` occurs as a contiguous run inside `n`.
pub open spec fn has_sub(n: Seq<char>, pat: Seq<char>) -> bool {
    exists|i: int|
        0 <= i && i + pat.len() <= n.len() && #[trigger] n.subrange(i, i + pat.len()) == pat
}

/// Substring search.
#[verifier::loop_isolation(false)]
pub fn contains_sub(s: &str, pat: &str) -> (r: bool)
    ensures
        r == has_sub(s@, pat@),
{
    let n = s.unicode_len();
    let mut i: usize = 0;
    while i < n
        invariant
            i <= n,
            n == s@.len(),
            forall|j: int|
                0 <= j < i ==> !(j + pat@.len() <= s@.len() && #[trigger] s@.subrange(
                    j,
                    j + pat@.len(),
                ) == pat@),
        decreases n - i,
    {
        if match_at(s, i, pat) {
            return true;
        }
        i += 1;
    }
    match_at(s, n, pat)
}

} // verus!
