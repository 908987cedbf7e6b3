//! Suffix matching of fingerprints against a pattern set.
use vstd::prelude::*;

verus! {

/// `p` is a suffix of `s`.
pub open spec fn is_suffix(p: Seq<char>, s: Seq<char>) -> bool {
    p.len() <= s.len() && s.subrange(s.len() - p.len(), s.len() as int) == p
}

/// Some pattern of `pats` is a suffix of `fp`.
pub open spec fn matches_any(fp: Seq<char>, pats: Seq<String>) -> bool {
    exists|i: int| 0 <= i < pats.len() && is_suffix(#[trigger] pats[i]@, fp)
}

/// Whether `p` is a suffix of `s`, compared character by character.
pub fn ends_with(s: &str, p: &str) -> (r: bool)
    ensures
        r == is_suffix(p@, s@),
{
    let n = s.unicode_len();
    let m = p.unicode_len();
    if m > n {
        return false;
    }
    let off = n - m;
    let mut i: usize = 0;
    while i < m
        invariant
            m == p@.len(),
            n == s@.len(),
            off == n - m,
            i <= m,
            forall|j: int| 0 <= j < i ==> s@[off + j] == p@[j],
        decreases m - i,
    {
        if s.get_char(off + i) != p.get_char(i) {
            assert(s@.subrange(off as int, n as int)[i as int] != p@[i as int]);
            return false;
        }
        i += 1;
    }
    assert(s@.subrange(off as int, n as int) =~= p@);
    true
}

/// Whether the fingerprint `fp` ends with at least one of the patterns.
pub fn matches(fp: &str, pats: &Vec<String>) -> (r: bool)
    ensures
        r == matches_any(fp@, pats@),
{
    let mut i: usize = 0;
    while i < pats.len()
        invariant
            i <= pats@.len(),
            forall|j: int| 0 <= j < i ==> !is_suffix(#[trigger] pats@[j]@, fp@),
        decreases pats@.len() - i,
    {
        if ends_with(fp, pats[i].as_str()) {
            return true;
        }
        i += 1;
    }
    false
}

/// Reflexivity: a fingerprint that equals one of the patterns matches the set.
pub proof fn lemma_pattern_matches_itself(fp: Seq<char>, pats: Seq<String>, i: int)
    requires
        0 <= i < pats.len(),
        pats[i]@ == fp,
    ensures
        matches_any(fp, pats),
{
    assert(fp.subrange(0, fp.len() as int) =~= fp);
    assert(is_suffix(pats[i]@, fp));
}

} // verus!
