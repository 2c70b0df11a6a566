//! Ordering helpers: lexicographic comparison of strings by code point,
//! and a stable insertion sort described as a spec function, so a sorting
//! function's contract can pin its exact output.

use vstd::prelude::*;
use vstd::seq_lib::lemma_multiset_commutative;

verus! {

broadcast use vstd::seq_lib::group_to_multiset_ensures;

/// Lexicographic order on strings, by code point: the empty string comes
/// first, otherwise the first differing character decides.
pub open spec fn lex_le(a: Seq<char>, b: Seq<char>) -> bool
    decreases a.len(),
{
    if a.len() == 0 {
        true
    } else if b.len() == 0 {
        false
    } else if (a[0] as int) < (b[0] as int) {
        true
    } else if (a[0] as int) > (b[0] as int) {
        false
    } else {
        lex_le(a.skip(1), b.skip(1))
    }
}

/// Any two strings are ordered one way or the other.
pub proof fn lemma_lex_le_total(a: Seq<char>, b: Seq<char>)
    ensures
        lex_le(a, b) || lex_le(b, a),
    decreases a.len(),
{
    if a.len() == 0 || b.len() == 0 {
    } else if (a[0] as int) == (b[0] as int) {
        lemma_lex_le_total(a.skip(1), b.skip(1));
    }
}

/// Lexicographic order is transitive.
pub proof fn lemma_lex_le_trans(a: Seq<char>, b: Seq<char>, c: Seq<char>)
    requires
        lex_le(a, b),
        lex_le(b, c),
    ensures
        lex_le(a, c),
    decreases a.len(),
{
    if a.len() == 0 {
    } else {
        if (a[0] as int) == (b[0] as int) && (b[0] as int) == (c[0] as int) {
            lemma_lex_le_trans(a.skip(1), b.skip(1), c.skip(1));
        }
    }
}

/// Compares two strings lexicographically by code point.
pub fn str_le(a: &str, b: &str) -> (r: bool)
    ensures
        r == lex_le(a@, b@),
{
    let alen = a.unicode_len();
    let blen = b.unicode_len();
    let mut i: usize = 0;
    proof {
        assert(a@.skip(0) =~= a@);
        assert(b@.skip(0) =~= b@);
    }
    loop
        invariant
            i <= alen,
            i <= blen,
            alen == a@.len(),
            blen == b@.len(),
            lex_le(a@, b@) == lex_le(a@.skip(i as int), b@.skip(i as int)),
        decreases alen - i,
    {
        if i >= alen {
            proof {
                assert(a@.skip(i as int).len() == 0);
            }
            return true;
        }
        if i >= blen {
            proof {
                assert(a@.skip(i as int).len() > 0);
                assert(b@.skip(i as int).len() == 0);
            }
            return false;
        }
        let ca = a.get_char(i);
        let cb = b.get_char(i);
        proof {
            assert(a@.skip(i as int)[0] == a@[i as int]);
            assert(b@.skip(i as int)[0] == b@[i as int]);
        }
        if (ca as u32) < (cb as u32) {
            return true;
        }
        if (ca as u32) > (cb as u32) {
            return false;
        }
        proof {
            assert(a@.skip(i as int).skip(1) =~= a@.skip(i + 1));
            assert(b@.skip(i as int).skip(1) =~= b@.skip(i + 1));
        }
        i = i + 1;
    }
}

/// Whether two strings spell the same characters.
pub fn str_eq(a: &str, b: &str) -> (r: bool)
    ensures
        r == (a@ == b@),
{
    let n = a.unicode_len();
    if b.unicode_len() != n {
        return false;
    }
    let mut i: usize = 0;
    while i < n
        invariant
            i <= n,
            n == a@.len(),
            n == b@.len(),
            forall|j: int| 0 <= j < i ==> a@[j] == b@[j],
        decreases n - i,
    {
        if !(a.get_char(i) == b.get_char(i)) {
            return false;
        }
        i = i + 1;
    }
    proof {
        assert(a@ =~= b@);
    }
    true
}

/// Where a stable insertion under `leq` places `x`: after every element
/// that is `leq` to it, so equal elements keep their earlier order.
pub open spec fn insert_by<T>(s: Seq<T>, x: T, leq: spec_fn(T, T) -> bool) -> Seq<T>
    decreases s.len(),
{
    if s.len() == 0 {
        seq![x]
    } else if leq(s[0], x) {
        seq![s[0]] + insert_by(s.skip(1), x, leq)
    } else {
        seq![x] + s
    }
}

/// Stable insertion sort under `leq`: elements are inserted in input
/// order, each after all earlier elements it does not strictly precede.
pub open spec fn sort_stable_by<T>(s: Seq<T>, leq: spec_fn(T, T) -> bool) -> Seq<T>
    decreases s.len(),
{
    if s.len() == 0 {
        Seq::empty()
    } else {
        insert_by(sort_stable_by(s.drop_last(), leq), s.last(), leq)
    }
}

/// Every pair of positions is ordered by `leq`.
pub open spec fn sorted_by_leq<T>(s: Seq<T>, leq: spec_fn(T, T) -> bool) -> bool {
    forall|i: int, j: int| 0 <= i <= j < s.len() ==> #[trigger] leq(s[i], s[j])
}

pub proof fn lemma_insert_by_multiset<T>(s: Seq<T>, x: T, leq: spec_fn(T, T) -> bool)
    ensures
        insert_by(s, x, leq).to_multiset() =~= s.to_multiset().insert(x),
        insert_by(s, x, leq).len() == s.len() + 1,
    decreases s.len(),
{
    if s.len() == 0 {
        assert(seq![x] =~= Seq::empty().push(x));
    } else if leq(s[0], x) {
        lemma_insert_by_multiset(s.skip(1), x, leq);
        lemma_multiset_commutative(seq![s[0]], insert_by(s.skip(1), x, leq));
        lemma_multiset_commutative(seq![s[0]], s.skip(1));
        assert(s =~= seq![s[0]] + s.skip(1));
        assert(seq![s[0]] =~= Seq::empty().push(s[0]));
        assert(insert_by(s, x, leq).to_multiset() == seq![s[0]].to_multiset().add(
            insert_by(s.skip(1), x, leq).to_multiset(),
        ));
    } else {
        lemma_multiset_commutative(seq![x], s);
        assert(seq![x] =~= Seq::empty().push(x));
    }
}

pub proof fn lemma_insert_by_sorted<T>(s: Seq<T>, x: T, leq: spec_fn(T, T) -> bool)
    requires
        sorted_by_leq(s, leq),
        forall|a: T, b: T| #![trigger leq(a, b)] leq(a, b) || leq(b, a),
        forall|a: T, b: T, c: T| #![trigger leq(a, b), leq(b, c)] leq(a, b) && leq(b, c) ==> leq(a, c),
    ensures
        sorted_by_leq(insert_by(s, x, leq), leq),
    decreases s.len(),
{
    if s.len() == 0 {
    } else if leq(s[0], x) {
        assert(forall|i: int| 0 <= i < s.skip(1).len() ==> s.skip(1)[i] == s[i + 1]);
        lemma_insert_by_sorted(s.skip(1), x, leq);
        lemma_insert_by_multiset(s.skip(1), x, leq);
        let r = seq![s[0]] + insert_by(s.skip(1), x, leq);
        assert forall|i: int, j: int| 0 <= i <= j < r.len() implies #[trigger] leq(r[i], r[j]) by {
            if i == 0 && j > 0 {
                let e = insert_by(s.skip(1), x, leq)[j - 1];
                assert(insert_by(s.skip(1), x, leq).contains(e));
                assert(s.skip(1).to_multiset().insert(x).count(e) > 0);
                if e == x {
                    assert(leq(s[0], e));
                } else {
                    assert(s.skip(1).to_multiset().count(e) > 0);
                    assert(s.skip(1).contains(e));
                    let k = choose|k: int| 0 <= k < s.skip(1).len() && s.skip(1)[k] == e;
                    assert(leq(s[0], s[k + 1]));
                }
            }
        }
    } else {
        let r = seq![x] + s;
        assert(leq(x, s[0]));
        assert forall|i: int, j: int| 0 <= i <= j < r.len() implies #[trigger] leq(r[i], r[j]) by {
            if i == 0 {
                if j == 0 {
                    assert(leq(x, x) || leq(x, x));
                } else {
                    assert(leq(s[0], s[j - 1]));
                    assert(leq(x, s[j - 1]));
                }
            }
        }
    }
}

pub proof fn lemma_sort_stable_by<T>(s: Seq<T>, leq: spec_fn(T, T) -> bool)
    requires
        forall|a: T, b: T| #![trigger leq(a, b)] leq(a, b) || leq(b, a),
        forall|a: T, b: T, c: T| #![trigger leq(a, b), leq(b, c)] leq(a, b) && leq(b, c) ==> leq(a, c),
    ensures
        sort_stable_by(s, leq).to_multiset() =~= s.to_multiset(),
        sort_stable_by(s, leq).len() == s.len(),
        sorted_by_leq(sort_stable_by(s, leq), leq),
    decreases s.len(),
{
    if s.len() == 0 {
    } else {
        lemma_sort_stable_by(s.drop_last(), leq);
        lemma_insert_by_multiset(sort_stable_by(s.drop_last(), leq), s.last(), leq);
        lemma_insert_by_sorted(sort_stable_by(s.drop_last(), leq), s.last(), leq);
        assert(s =~= s.drop_last().push(s.last()));
        assert(s.drop_last().push(s.last()).to_multiset() =~= s.drop_last().to_multiset().insert(
            s.last(),
        ));
    }
}

/// Inserting at the first position not `leq` to `x` is the stable
/// insertion.
pub proof fn lemma_insert_by_at<T>(s: Seq<T>, x: T, leq: spec_fn(T, T) -> bool, p: int)
    requires
        0 <= p <= s.len(),
        forall|j: int| 0 <= j < p ==> leq(#[trigger] s[j], x),
        p < s.len() ==> !leq(s[p], x),
    ensures
        insert_by(s, x, leq) == s.insert(p, x),
    decreases p,
{
    if p == 0 {
        assert(insert_by(s, x, leq) =~= s.insert(0, x));
    } else {
        assert(leq(s[0], x));
        assert(forall|i: int| 0 <= i < s.skip(1).len() ==> s.skip(1)[i] == s[i + 1]);
        lemma_insert_by_at(s.skip(1), x, leq, p - 1);
        assert(seq![s[0]] + s.skip(1).insert(p - 1, x) =~= s.insert(p, x));
    }
}

/// Mapping distributes over the stable insertion at the multiset level:
/// used to carry a projection of the elements through a sort.
pub proof fn lemma_insert_by_map_multiset<T, U>(
    s: Seq<T>,
    x: T,
    leq: spec_fn(T, T) -> bool,
    f: spec_fn(T) -> U,
)
    ensures
        insert_by(s, x, leq).map_values(f).to_multiset() =~= s.map_values(f).to_multiset().insert(
            f(x),
        ),
    decreases s.len(),
{
    if s.len() == 0 {
        assert(seq![x].map_values(f) =~= Seq::empty().push(f(x)));
    } else if leq(s[0], x) {
        lemma_insert_by_map_multiset(s.skip(1), x, leq, f);
        let rest = insert_by(s.skip(1), x, leq);
        assert((seq![s[0]] + rest).map_values(f) =~= seq![f(s[0])] + rest.map_values(f));
        lemma_multiset_commutative(seq![f(s[0])], rest.map_values(f));
        assert(s.map_values(f) =~= seq![f(s[0])] + s.skip(1).map_values(f));
        lemma_multiset_commutative(seq![f(s[0])], s.skip(1).map_values(f));
        assert(seq![f(s[0])] =~= Seq::empty().push(f(s[0])));
    } else {
        assert((seq![x] + s).map_values(f) =~= seq![f(x)] + s.map_values(f));
        lemma_multiset_commutative(seq![f(x)], s.map_values(f));
        assert(seq![f(x)] =~= Seq::empty().push(f(x)));
    }
}

/// A stable sort keeps the multiset of any projection of the elements.
pub proof fn lemma_sort_stable_by_map_multiset<T, U>(
    s: Seq<T>,
    leq: spec_fn(T, T) -> bool,
    f: spec_fn(T) -> U,
)
    ensures
        sort_stable_by(s, leq).map_values(f).to_multiset() =~= s.map_values(f).to_multiset(),
    decreases s.len(),
{
    if s.len() == 0 {
        assert(sort_stable_by(s, leq).map_values(f) =~= Seq::<U>::empty());
        assert(s.map_values(f) =~= Seq::<U>::empty());
    } else {
        lemma_sort_stable_by_map_multiset(s.drop_last(), leq, f);
        lemma_insert_by_map_multiset(sort_stable_by(s.drop_last(), leq), s.last(), leq, f);
        assert(s.map_values(f) =~= s.drop_last().map_values(f).push(f(s.last())));
        assert(s.drop_last().map_values(f).push(f(s.last())).to_multiset() =~= s.drop_last()
            .map_values(f).to_multiset().insert(f(s.last())));
    }
}

} // verus!
