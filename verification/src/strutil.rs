//! Small verified string helpers: character-exact equality and
//! substring containment over `&str`, and decimal formatting. These
//! exist because the contracts of the library speak about strings as
//! character sequences.

use vstd::prelude::*;
use vstd::string::StrSliceExecFns;

verus! {

/// Character-wise string equality: `r` holds exactly when the two
/// views are the same character sequence.
pub fn str_eq(a: &str, b: &str) -> (r: bool)
    ensures
        r == (a@ == b@),
{
    let la = a.unicode_len();
    let lb = b.unicode_len();
    if la != lb {
        return false;
    }
    let mut i: usize = 0;
    while i < la
        invariant
            i <= la,
            la as nat == a@.len(),
            la as nat == b@.len(),
            forall|j: int| 0 <= j < i ==> a@[j] == b@[j],
        decreases la - i,
    {
        if a.get_char(i) != b.get_char(i) {
            return false;
        }
        i += 1;
    }
    proof {
        assert(a@ =~= b@);
    }
    true
}

/// Whether the pattern `p` occurs in `s` starting at position `i`.
pub open spec fn match_at(s: Seq<char>, p: Seq<char>, i: int) -> bool
    decreases p.len(),
{
    if p.len() == 0 {
        true
    } else {
        0 <= i < s.len() && s[i] == p[0] && match_at(s, p.subrange(1, p.len() as int), i + 1)
    }
}

/// In range, an occurrence is the same as position-wise agreement.
pub proof fn lemma_match_at_forall(s: Seq<char>, p: Seq<char>, i: int)
    requires
        0 <= i,
        i + p.len() <= s.len(),
    ensures
        match_at(s, p, i) <==> (forall|j: int| 0 <= j < p.len() ==> s[i + j] == p[j]),
    decreases p.len(),
{
    if p.len() > 0 {
        let q = p.subrange(1, p.len() as int);
        lemma_match_at_forall(s, q, i + 1);
        if s[i] == p[0] && match_at(s, q, i + 1) {
            assert forall|j: int| 0 <= j < p.len() implies s[i + j] == p[j] by {
                if j > 0 {
                    assert(q[j - 1] == p[j]);
                    assert(s[i + 1 + (j - 1)] == q[j - 1]);
                }
            }
        }
        if forall|j: int| 0 <= j < p.len() ==> s[i + j] == p[j] {
            assert(s[i + 0] == p[0]);
            assert forall|j: int| 0 <= j < q.len() implies s[i + 1 + j] == q[j] by {
                assert(s[i + (j + 1)] == p[j + 1]);
            }
        }
    }
}

/// Whether the pattern `p` occurs in `s` at or after position `i`.
pub open spec fn has_sub_from(s: Seq<char>, p: Seq<char>, i: int) -> bool
    decreases s.len() - i,
{
    if i < 0 || i + p.len() > s.len() {
        false
    } else {
        match_at(s, p, i) || has_sub_from(s, p, i + 1)
    }
}

/// Substring containment: some position of `s` starts an occurrence of `p`.
pub open spec fn has_sub(s: Seq<char>, p: Seq<char>) -> bool {
    has_sub_from(s, p, 0)
}

/// Occurrence at a position implies containment.
pub proof fn lemma_match_at_has_sub(s: Seq<char>, p: Seq<char>, i: int)
    requires
        0 <= i,
        i + p.len() <= s.len(),
        match_at(s, p, i),
    ensures
        has_sub(s, p),
{
    lemma_match_at_from(s, p, i, 0);
}

proof fn lemma_match_at_from(s: Seq<char>, p: Seq<char>, i: int, k: int)
    requires
        i + p.len() <= s.len(),
        match_at(s, p, i),
        0 <= k <= i,
    ensures
        has_sub_from(s, p, k),
    decreases i - k,
{
    if k < i {
        lemma_match_at_from(s, p, i, k + 1);
    }
}

/// Substring search: `r` holds exactly when `p@` occurs in `s@`.
pub fn contains_sub(s: &str, p: &str) -> (r: bool)
    ensures
        r == has_sub(s@, p@),
{
    let ls = s.unicode_len();
    let lp = p.unicode_len();
    if lp > ls {
        return false;
    }
    let mut i: usize = 0;
    while i <= ls - lp
        invariant
            lp <= ls,
            i <= ls - lp + 1,
            ls as nat == s@.len(),
            lp as nat == p@.len(),
            !has_sub_from(s@, p@, 0) || has_sub_from(s@, p@, i as int),
            forall|k: int| 0 <= k < i ==> !match_at(s@, p@, k),
        decreases ls + 1 - lp - i,
    {
        let mut j: usize = 0;
        let mut matches: bool = true;
        while j < lp
            invariant
                i + lp <= ls,
                ls as nat == s@.len(),
                lp as nat == p@.len(),
                j <= lp,
                matches ==> (forall|t: int| 0 <= t < j ==> s@[i as int + t] == p@[t]),
                !matches ==> !match_at(s@, p@, i as int),
            decreases lp - j,
        {
            if s.get_char(i + j) != p.get_char(j) {
                matches = false;
                proof {
                    assert(s@[i as int + j as int] != p@[j as int]);
                    lemma_match_at_forall(s@, p@, i as int);
                    assert(!match_at(s@, p@, i as int));
                }
                j = lp;
            } else {
                proof {
                    if matches {
                        assert(s@[i as int + j as int] == p@[j as int]);
                        assert(forall|t: int|
                            0 <= t < j + 1 ==> s@[i as int + t] == p@[t]);
                    }
                }
                j += 1;
            }
        }
        if matches {
            proof {
                lemma_match_at_forall(s@, p@, i as int);
                assert(match_at(s@, p@, i as int));
                lemma_match_at_has_sub(s@, p@, i as int);
            }
            return true;
        }
        proof {
            assert(!match_at(s@, p@, i as int));
        }
        i += 1;
    }
    proof {
        assert(!has_sub_from(s@, p@, i as int));
        assert(!has_sub(s@, p@));
    }
    false
}

} // verus!
