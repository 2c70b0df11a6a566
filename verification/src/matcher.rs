//! Fuzzy-subsequence matching: a needle matches a haystack when its
//! characters occur in the haystack in order, not necessarily adjacent.
//! Scores come from the skim matching algorithm of the `fuzzy_matcher`
//! crate; a higher score means a better match.

use vstd::prelude::*;
use crate::normalize::{contains_ascii_upper, normalize, normalize_spec};

verus! {

/// Whether `n` is a subsequence of `h`: the characters of `n` occur in `h`
/// in order. Written as the greedy scan, which finds an embedding exactly
/// when one exists.
pub open spec fn is_subsequence(n: Seq<char>, h: Seq<char>) -> bool
    decreases h.len(),
{
    if n.len() == 0 {
        true
    } else if h.len() == 0 {
        false
    } else if h[0] == n[0] {
        is_subsequence(n.skip(1), h.skip(1))
    } else {
        is_subsequence(n, h.skip(1))
    }
}

/// A strictly increasing choice of positions in `h` spelling out `n`.
pub open spec fn is_embedding(m: Seq<int>, n: Seq<char>, h: Seq<char>) -> bool {
    &&& m.len() == n.len()
    &&& forall|i: int| 0 <= i < m.len() ==> 0 <= #[trigger] m[i] < h.len() && h[m[i]] == n[i]
    &&& forall|i: int| 0 < i < m.len() ==> m[i - 1] < #[trigger] m[i]
}

/// The greedy scan agrees with the textbook notion: `n` is a subsequence
/// of `h` exactly when the characters of `n` can be found in `h` in order.
pub proof fn lemma_is_subsequence_embedding(n: Seq<char>, h: Seq<char>)
    ensures
        is_subsequence(n, h) <==> exists|m: Seq<int>| is_embedding(m, n, h),
    decreases h.len(),
{
    if n.len() == 0 {
        assert(is_embedding(Seq::<int>::empty(), n, h));
    } else if h.len() == 0 {
        assert forall|m: Seq<int>| !is_embedding(m, n, h) by {
            if m.len() == n.len() && n.len() > 0 {
                assert(!(0 <= m[0] < h.len()) || h[m[0]] == n[0]);
            }
        }
    } else {
        lemma_is_subsequence_embedding(n.skip(1), h.skip(1));
        lemma_is_subsequence_embedding(n, h.skip(1));
        assert(forall|i: int| 0 <= i < n.skip(1).len() ==> n.skip(1)[i] == n[i + 1]);
        assert(forall|i: int| 0 <= i < h.skip(1).len() ==> h.skip(1)[i] == h[i + 1]);
        if h[0] == n[0] {
            if is_subsequence(n, h) {
                let m0 = choose|m0: Seq<int>| is_embedding(m0, n.skip(1), h.skip(1));
                let m = seq![0int] + m0.map_values(|x: int| x + 1);
                assert forall|i: int| 0 <= i < m.len() implies 0 <= #[trigger] m[i] < h.len()
                    && h[m[i]] == n[i] by {
                    if i > 0 {
                        assert(m[i] == m0[i - 1] + 1);
                        assert(h.skip(1)[m0[i - 1]] == n.skip(1)[i - 1]);
                    }
                }
                assert forall|i: int| 0 < i < m.len() implies m[i - 1] < #[trigger] m[i] by {
                    if i > 1 {
                        assert(m0[i - 2] < m0[i - 1]);
                    } else {
                        assert(0 <= m0[0]);
                    }
                }
                assert(is_embedding(m, n, h));
            }
            if exists|m: Seq<int>| is_embedding(m, n, h) {
                let m = choose|m: Seq<int>| is_embedding(m, n, h);
                let m1 = m.skip(1).map_values(|x: int| x - 1);
                assert forall|i: int| 0 <= i < m1.len() implies 0 <= #[trigger] m1[i]
                    < h.skip(1).len() && h.skip(1)[m1[i]] == n.skip(1)[i] by {
                    assert(m1[i] == m[i + 1] - 1);
                    assert(0 <= m[i]);
                    assert(m[i] < m[i + 1]);
                    assert(h[m[i + 1]] == n[i + 1]);
                }
                assert forall|i: int| 0 < i < m1.len() implies m1[i - 1] < #[trigger] m1[i] by {
                    assert(m[i] < m[i + 1]);
                }
                assert(is_embedding(m1, n.skip(1), h.skip(1)));
                assert(is_subsequence(n.skip(1), h.skip(1)));
            }
        } else {
            if is_subsequence(n, h) {
                let m0 = choose|m0: Seq<int>| is_embedding(m0, n, h.skip(1));
                let m = m0.map_values(|x: int| x + 1);
                assert forall|i: int| 0 <= i < m.len() implies 0 <= #[trigger] m[i] < h.len()
                    && h[m[i]] == n[i] by {
                    assert(m[i] == m0[i] + 1);
                    assert(h.skip(1)[m0[i]] == n[i]);
                }
                assert forall|i: int| 0 < i < m.len() implies m[i - 1] < #[trigger] m[i] by {
                    assert(m0[i - 1] < m0[i]);
                }
                assert(is_embedding(m, n, h));
            }
            if exists|m: Seq<int>| is_embedding(m, n, h) {
                let m = choose|m: Seq<int>| is_embedding(m, n, h);
                assert(h[m[0]] == n[0]);
                assert(m[0] != 0);
                let m1 = m.map_values(|x: int| x - 1);
                assert forall|i: int| 0 <= i < m1.len() implies 0 <= #[trigger] m1[i]
                    < h.skip(1).len() && h.skip(1)[m1[i]] == n[i] by {
                    assert(m1[i] == m[i] - 1);
                    if i > 0 {
                        assert(m[i - 1] < m[i]);
                        assert(0 <= m[i - 1]);
                        if m[i] == 0 {
                            assert(false);
                        }
                    }
                    assert(m[i] >= 1);
                    assert(h[m[i]] == n[i]);
                }
                assert forall|i: int| 0 < i < m1.len() implies m1[i - 1] < #[trigger] m1[i] by {
                    assert(m[i - 1] < m[i]);
                }
                assert(is_embedding(m1, n, h.skip(1)));
                assert(is_subsequence(n, h.skip(1)));
            }
        }
    }
}

/// A character with any ASCII capital replaced by its lower-case form; two
/// characters are equal ignoring ASCII case when their folds are equal.
pub open spec fn ascii_lower(c: char) -> char {
    let u = c as int;
    if 0x41 <= u && u <= 0x5A {
        (u + 0x20) as char
    } else {
        c
    }
}

/// The subsequence scan compared ignoring ASCII case.
pub open spec fn is_subsequence_ascii_ci(n: Seq<char>, h: Seq<char>) -> bool
    decreases h.len(),
{
    if n.len() == 0 {
        true
    } else if h.len() == 0 {
        false
    } else if ascii_lower(h[0]) == ascii_lower(n[0]) {
        is_subsequence_ascii_ci(n.skip(1), h.skip(1))
    } else {
        is_subsequence_ascii_ci(n, h.skip(1))
    }
}

/// On strings without ASCII capitals the two scans agree.
pub proof fn lemma_subsequence_ci_eq(n: Seq<char>, h: Seq<char>)
    requires
        !contains_ascii_upper(n),
        !contains_ascii_upper(h),
    ensures
        is_subsequence_ascii_ci(n, h) == is_subsequence(n, h),
    decreases h.len(),
{
    if n.len() == 0 || h.len() == 0 {
    } else {
        assert(!(0x41 <= h[0] as int <= 0x5A));
        assert(!(0x41 <= n[0] as int <= 0x5A));
        assert(forall|i: int| 0 <= i < n.skip(1).len() ==> n.skip(1)[i] == n[i + 1]);
        assert(forall|i: int| 0 <= i < h.skip(1).len() ==> h.skip(1)[i] == h[i + 1]);
        lemma_subsequence_ci_eq(n.skip(1), h.skip(1));
        lemma_subsequence_ci_eq(n, h.skip(1));
    }
}

/// The score that the skim algorithm (default configuration) assigns to a
/// choice/pattern pair, `None` meaning no match. A pure function of the two
/// strings.
pub uninterp spec fn skim_score(choice: Seq<char>, pattern: Seq<char>) -> Option<i64>;

/// Relies on `fuzzy_matcher::skim::SkimMatcherV2` in its default
/// configuration: `fuzzy_match` depends on the two strings alone and
/// matches exactly when the pattern is a subsequence of the choice —
/// compared exactly when the pattern holds an ASCII capital ("smart
/// case"), and ignoring ASCII case otherwise. An empty pattern matches
/// everything with score 0.
#[verifier::external_body]
fn skim_fuzzy_match(choice: &str, pattern: &str) -> (r: Option<i64>)
    ensures
        r == skim_score(choice@, pattern@),
        r is Some <==> (if contains_ascii_upper(pattern@) {
            is_subsequence(pattern@, choice@)
        } else {
            is_subsequence_ascii_ci(pattern@, choice@)
        }),
        pattern@.len() == 0 ==> r == Some(0i64),
{
    let matcher = fuzzy_matcher::skim::SkimMatcherV2::default();
    fuzzy_matcher::FuzzyMatcher::fuzzy_match(&matcher, choice, pattern)
}

/// The score of `needle` against the normalized form of `haystack`:
/// a score exists if and only if `needle` is a subsequence of
/// `normalize(haystack)`. Deterministic: the result is a function of the
/// two strings.
pub fn fuzzy_score(haystack: &str, needle: &str) -> (r: Option<i64>)
    ensures
        r is Some <==> is_subsequence(needle@, normalize_spec(haystack@)),
        r == skim_score(normalize_spec(haystack@), needle@),
{
    let nh = normalize(haystack);
    let r = skim_fuzzy_match(nh.as_str(), needle);
    proof {
        if !contains_ascii_upper(needle@) {
            lemma_subsequence_ci_eq(needle@, normalize_spec(haystack@));
        }
    }
    r
}

} // verus!
