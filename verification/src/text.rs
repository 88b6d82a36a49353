//! Verified text utilities: lexicographic comparison of names (the order the
//! listing scans children in) and substring containment (the name filter).

use vstd::prelude::*;

verus! {

/// Lexicographic order on character sequences by code point, the order in
/// which child names are scanned: a prefix comes before every extension of
/// it, otherwise the first differing character decides.
pub open spec fn lex_le(a: Seq<char>, b: Seq<char>) -> bool
    decreases a.len(),
{
    if a.len() == 0 {
        true
    } else if b.len() == 0 {
        false
    } else if (a[0] as u32) < (b[0] as u32) {
        true
    } else if (a[0] as u32) > (b[0] as u32) {
        false
    } else {
        lex_le(a.drop_first(), b.drop_first())
    }
}

/// Any two character sequences are ordered one way or the other.
pub proof fn lemma_lex_le_total(a: Seq<char>, b: Seq<char>)
    ensures
        lex_le(a, b) || lex_le(b, a),
    decreases a.len(),
{
    if a.len() == 0 || b.len() == 0 {
    } else if (a[0] as u32) < (b[0] as u32) || (a[0] as u32) > (b[0] as u32) {
    } else {
        lemma_lex_le_total(a.drop_first(), b.drop_first());
    }
}

/// The lexicographic order is transitive.
pub proof fn lemma_lex_le_trans(a: Seq<char>, b: Seq<char>, c: Seq<char>)
    requires
        lex_le(a, b),
        lex_le(b, c),
    ensures
        lex_le(a, c),
    decreases a.len(),
{
    if a.len() == 0 || b.len() == 0 || c.len() == 0 {
    } else if (a[0] as u32) != (b[0] as u32) || (b[0] as u32) != (c[0] as u32) {
    } else {
        lemma_lex_le_trans(a.drop_first(), b.drop_first(), c.drop_first());
    }
}

/// Compares two names in the lexicographic order.
#[verifier::loop_isolation(false)]
pub fn str_le(a: &str, b: &str) -> (r: bool)
    ensures
        r == lex_le(a@, b@),
{
    let alen = a.unicode_len();
    let blen = b.unicode_len();
    let mut i: usize = 0;
    proof {
        assert(a@.skip(0) =~= a@);
        assert(b@.skip(0) =~= b@);
    }
    loop
        invariant
            i <= alen,
            i <= blen,
            lex_le(a@, b@) == lex_le(a@.skip(i as int), b@.skip(i as int)),
        decreases alen - i,
    {
        if i >= alen {
            return true;
        }
        if i >= blen {
            return false;
        }
        let ca = a.get_char(i);
        let cb = b.get_char(i);
        proof {
            assert(a@.skip(i as int)[0] == a@[i as int]);
            assert(b@.skip(i as int)[0] == b@[i as int]);
            assert(a@.skip(i as int).drop_first() =~= a@.skip(i as int + 1));
            assert(b@.skip(i as int).drop_first() =~= b@.skip(i as int + 1));
        }
        if (ca as u32) < (cb as u32) {
            return true;
        }
        if (ca as u32) > (cb as u32) {
            return false;
        }
        i = i + 1;
    }
}

/// The pattern occurs in the text starting at position `i`.
pub open spec fn matches_at(hay: Seq<char>, pat: Seq<char>, i: int) -> bool {
    &&& 0 <= i
    &&& i + pat.len() <= hay.len()
    &&& forall|k: int| 0 <= k < pat.len() ==> hay[i + k] == pat[k]
}

/// The text contains the pattern as a (contiguous) substring.
pub open spec fn contains_pattern(hay: Seq<char>, pat: Seq<char>) -> bool {
    exists|i: int| matches_at(hay, pat, i)
}

/// The pattern occurs at position `i` of the text.
#[verifier::loop_isolation(false)]
fn match_at(hay: &str, pat: &str, i: usize, hlen: usize, plen: usize) -> (r: bool)
    requires
        hlen == hay@.len(),
        plen == pat@.len(),
        i + plen <= hlen,
    ensures
        r == matches_at(hay@, pat@, i as int),
{
    let mut j: usize = 0;
    while j < plen
        invariant
            j <= plen,
            forall|k: int| 0 <= k < j ==> hay@[i + k] == pat@[k],
        decreases plen - j,
    {
        let ch = hay.get_char(i + j);
        let cp = pat.get_char(j);
        if ch != cp {
            return false;
        }
        j = j + 1;
    }
    true
}

/// Substring search: whether the text contains the pattern, character for
/// character and case-sensitively.
#[verifier::loop_isolation(false)]
pub fn str_contains(hay: &str, pat: &str) -> (r: bool)
    ensures
        r == contains_pattern(hay@, pat@),
{
    let hlen = hay.unicode_len();
    let plen = pat.unicode_len();
    if plen > hlen {
        return false;
    }
    let mut i: usize = 0;
    while i <= hlen - plen
        invariant
            plen <= hlen,
            i <= hlen - plen + 1,
            forall|j: int| 0 <= j < i ==> !matches_at(hay@, pat@, j),
        decreases hlen - plen - i + 1,
    {
        if match_at(hay, pat, i, hlen, plen) {
            return true;
        }
        i = i + 1;
    }
    false
}

} // verus!
