//! Ranked search over apps, directories and custom commands: normalize the
//! query, score each candidate with the fuzzy matcher, drop the unmatched,
//! sort by score descending (stable: equal scores keep input order) and
//! return at most the top twenty items.

use vstd::prelude::*;
use vstd::seq_lib::lemma_multiset_commutative;
use crate::matcher::{fuzzy_score, skim_score};
use crate::normalize::{normalize, normalize_spec};
use crate::types::{AppItem, CommandItem, DirectoryItem};

verus! {

broadcast use vstd::seq_lib::group_to_multiset_ensures;

/// At most this many results are returned by one search.
pub const RESULT_CAP: usize = 20;

/// One matched candidate: its score and its index in the input list.
#[derive(Clone, Copy, PartialEq, Eq, Structural, Debug)]
pub struct ScoredIdx {
    pub score: i64,
    pub idx: usize,
}

/// Where a stable descending insertion places `x`: after every element
/// whose score is at least `x.score`.
pub open spec fn insert_desc(s: Seq<ScoredIdx>, x: ScoredIdx) -> Seq<ScoredIdx>
    decreases s.len(),
{
    if s.len() == 0 {
        seq![x]
    } else if s[0].score >= x.score {
        seq![s[0]] + insert_desc(s.skip(1), x)
    } else {
        seq![x] + s
    }
}

/// Stable sort by score descending: elements are inserted in input order,
/// each after all earlier elements of equal score.
pub open spec fn sort_desc(s: Seq<ScoredIdx>) -> Seq<ScoredIdx>
    decreases s.len(),
{
    if s.len() == 0 {
        Seq::empty()
    } else {
        insert_desc(sort_desc(s.drop_last()), s.last())
    }
}

/// Sorted by score, highest first.
pub open spec fn sorted_desc(s: Seq<ScoredIdx>) -> bool {
    forall|i: int, j: int| 0 <= i <= j < s.len() ==> s[i].score >= s[j].score
}

pub proof fn lemma_insert_desc_multiset(s: Seq<ScoredIdx>, x: ScoredIdx)
    ensures
        insert_desc(s, x).to_multiset() =~= s.to_multiset().insert(x),
        insert_desc(s, x).len() == s.len() + 1,
    decreases s.len(),
{
    if s.len() == 0 {
        assert(seq![x] =~= Seq::empty().push(x));
    } else if s[0].score >= x.score {
        lemma_insert_desc_multiset(s.skip(1), x);
        lemma_multiset_commutative(seq![s[0]], insert_desc(s.skip(1), x));
        lemma_multiset_commutative(seq![s[0]], s.skip(1));
        assert(s =~= seq![s[0]] + s.skip(1));
        assert(seq![s[0]] =~= Seq::empty().push(s[0]));
        assert(insert_desc(s, x).to_multiset() =~= s.to_multiset().insert(x)) by {
            assert(insert_desc(s, x).to_multiset() == seq![s[0]].to_multiset().add(
                insert_desc(s.skip(1), x).to_multiset(),
            ));
        }
    } else {
        lemma_multiset_commutative(seq![x], s);
        assert(seq![x] =~= Seq::empty().push(x));
    }
}

pub proof fn lemma_insert_desc_sorted(s: Seq<ScoredIdx>, x: ScoredIdx)
    requires
        sorted_desc(s),
    ensures
        sorted_desc(insert_desc(s, x)),
    decreases s.len(),
{
    if s.len() == 0 {
    } else if s[0].score >= x.score {
        assert(forall|i: int| 0 <= i < s.skip(1).len() ==> s.skip(1)[i] == s[i + 1]);
        lemma_insert_desc_sorted(s.skip(1), x);
        lemma_insert_desc_multiset(s.skip(1), x);
        let r = seq![s[0]] + insert_desc(s.skip(1), x);
        assert forall|i: int, j: int| 0 <= i <= j < r.len() implies r[i].score >= r[j].score by {
            if i == 0 && j > 0 {
                let e = insert_desc(s.skip(1), x)[j - 1];
                assert(insert_desc(s.skip(1), x).contains(e));
                assert(s.skip(1).to_multiset().insert(x).count(e) > 0);
                if e == x {
                    assert(s[0].score >= e.score);
                } else {
                    assert(s.skip(1).to_multiset().count(e) > 0);
                    assert(s.skip(1).contains(e));
                    let k = choose|k: int| 0 <= k < s.skip(1).len() && s.skip(1)[k] == e;
                    assert(s[0].score >= s[k + 1].score);
                }
            }
        }
    } else {
    }
}

pub proof fn lemma_sort_desc(s: Seq<ScoredIdx>)
    ensures
        sort_desc(s).to_multiset() =~= s.to_multiset(),
        sort_desc(s).len() == s.len(),
        sorted_desc(sort_desc(s)),
    decreases s.len(),
{
    if s.len() == 0 {
    } else {
        lemma_sort_desc(s.drop_last());
        lemma_insert_desc_multiset(sort_desc(s.drop_last()), s.last());
        lemma_insert_desc_sorted(sort_desc(s.drop_last()), s.last());
        assert(s =~= s.drop_last().push(s.last()));
        assert(s.drop_last().push(s.last()).to_multiset() =~= s.drop_last().to_multiset().insert(
            s.last(),
        ));
    }
}

/// Inserting at the first position whose score is below `x.score` is the
/// stable descending insertion.
proof fn lemma_insert_desc_at(s: Seq<ScoredIdx>, x: ScoredIdx, p: int)
    requires
        0 <= p <= s.len(),
        forall|j: int| 0 <= j < p ==> s[j].score >= x.score,
        p < s.len() ==> s[p].score < x.score,
    ensures
        insert_desc(s, x) == s.insert(p, x),
    decreases p,
{
    if p == 0 {
        assert(insert_desc(s, x) =~= s.insert(0, x));
    } else {
        assert(s[0].score >= x.score);
        assert(forall|i: int| 0 <= i < s.skip(1).len() ==> s.skip(1)[i] == s[i + 1]);
        lemma_insert_desc_at(s.skip(1), x, p - 1);
        assert(seq![s[0]] + s.skip(1).insert(p - 1, x) =~= s.insert(p, x));
    }
}

/// The score of one searchable field: what the skim algorithm gives the
/// query against the normalized field, `None` when the query is not a
/// subsequence of it.
pub open spec fn field_score(field: Seq<char>, nq: Seq<char>) -> Option<i64> {
    skim_score(normalize_spec(field), nq)
}

/// The score of an app against a normalized query: the better of its
/// display name's score and its original name's score, so the app can be
/// found by either; `None` only when neither field matches.
pub open spec fn app_score(app: AppItem, nq: Seq<char>) -> Option<i64> {
    let s1 = field_score(app.name@, nq);
    let s2 = match app.original_name {
        Some(o) => field_score(o@, nq),
        None => None,
    };
    match (s1, s2) {
        (Some(a), Some(b)) => Some(if a >= b { a } else { b }),
        (Some(a), None) => Some(a),
        (None, Some(b)) => Some(b),
        (None, None) => None,
    }
}

/// The score of a directory against a normalized query: its name's score.
pub open spec fn dir_score(dir: DirectoryItem, nq: Seq<char>) -> Option<i64> {
    field_score(dir.name@, nq)
}

/// The score of a custom command against a normalized query: its alias's
/// score. The command text itself is not searched.
pub open spec fn cmd_score(cmd: CommandItem, nq: Seq<char>) -> Option<i64> {
    field_score(cmd.alias@, nq)
}

/// The matched candidates of a score list, in input order: one entry per
/// `Some` score, carrying the score and the input index.
pub open spec fn scored_list(scores: Seq<Option<i64>>) -> Seq<ScoredIdx>
    decreases scores.len(),
{
    if scores.len() == 0 {
        Seq::empty()
    } else {
        let pre = scored_list(scores.drop_last());
        match scores.last() {
            Some(s) => pre.push(ScoredIdx { score: s, idx: (scores.len() - 1) as usize }),
            None => pre,
        }
    }
}

/// Every entry of `scored_list` points at an in-range input whose score it
/// carries, and entries appear in strictly increasing input order.
pub proof fn lemma_scored_list_entries(scores: Seq<Option<i64>>)
    requires
        scores.len() <= usize::MAX,
    ensures
        forall|k: int| #![trigger scored_list(scores)[k]]
            0 <= k < scored_list(scores).len() ==> {
                let e = scored_list(scores)[k];
                &&& e.idx < scores.len()
                &&& scores[e.idx as int] == Some(e.score)
            },
        scored_list(scores).len() <= scores.len(),
        forall|k1: int, k2: int| #![trigger scored_list(scores)[k1], scored_list(scores)[k2]]
            0 <= k1 < k2 < scored_list(scores).len() ==> scored_list(scores)[k1].idx
                < scored_list(scores)[k2].idx,
    decreases scores.len(),
{
    if scores.len() == 0 {
    } else {
        lemma_scored_list_entries(scores.drop_last());
        let pre = scored_list(scores.drop_last());
        assert forall|k1: int, k2: int|
            #![trigger scored_list(scores)[k1], scored_list(scores)[k2]]
            0 <= k1 < k2 < scored_list(scores).len() implies scored_list(scores)[k1].idx
            < scored_list(scores)[k2].idx by {
            if k2 < pre.len() {
                assert(pre[k1].idx < pre[k2].idx);
            } else {
                assert(pre[k1].idx < scores.drop_last().len());
            }
        }
    }
}

/// How many scores in the list are `Some`: the number of matched items.
pub open spec fn match_count(scores: Seq<Option<i64>>) -> int {
    scored_list(scores).len() as int
}

/// The ranked, capped result positions for a score list: matched entries,
/// sorted by score descending (stable), truncated to the top `RESULT_CAP`.
pub open spec fn ranked_positions(scores: Seq<Option<i64>>) -> Seq<ScoredIdx> {
    let ranked = sort_desc(scored_list(scores));
    if ranked.len() <= RESULT_CAP {
        ranked
    } else {
        ranked.take(RESULT_CAP as int)
    }
}

/// The ranked result list keeps entry validity, is sorted descending, has
/// length `min(RESULT_CAP, match_count)`, and names each input position at
/// most once, so one input item yields at most one result.
pub proof fn lemma_ranked_positions(scores: Seq<Option<i64>>)
    requires
        scores.len() <= usize::MAX,
    ensures
        forall|k: int| #![trigger ranked_positions(scores)[k]]
            0 <= k < ranked_positions(scores).len() ==> {
                let e = ranked_positions(scores)[k];
                &&& e.idx < scores.len()
                &&& scores[e.idx as int] == Some(e.score)
            },
        sorted_desc(ranked_positions(scores)),
        ranked_positions(scores).len() == if match_count(scores) <= RESULT_CAP {
            match_count(scores)
        } else {
            RESULT_CAP as int
        },
        forall|i: int, j: int|
            #![trigger ranked_positions(scores)[i], ranked_positions(scores)[j]]
            0 <= i < j < ranked_positions(scores).len() ==> ranked_positions(scores)[i].idx
                != ranked_positions(scores)[j].idx,
{
    let base = scored_list(scores);
    let ranked = sort_desc(base);
    lemma_scored_list_entries(scores);
    lemma_sort_desc(base);
    assert forall|k: int| 0 <= k < ranked.len() implies {
        let e = #[trigger] ranked[k];
        &&& e.idx < scores.len()
        &&& scores[e.idx as int] == Some(e.score)
    } by {
        let e = ranked[k];
        assert(ranked.contains(e));
        assert(base.to_multiset().count(e) > 0);
        assert(base.contains(e));
        let j = choose|j: int| 0 <= j < base.len() && base[j] == e;
        assert(base[j].idx < scores.len());
    }
    if ranked.len() > RESULT_CAP {
        assert(forall|k: int| 0 <= k < ranked_positions(scores).len()
            ==> ranked_positions(scores)[k] == ranked[k]);
    }
    assert(base.no_duplicates()) by {
        assert forall|i: int, j: int|
            0 <= i < base.len() && 0 <= j < base.len() && i != j implies base[i] != base[j] by {
            if i < j {
                assert(base[i].idx < base[j].idx);
            } else {
                assert(base[j].idx < base[i].idx);
            }
        }
    }
    base.lemma_multiset_has_no_duplicates();
    ranked.lemma_multiset_has_no_duplicates_conv();
    assert forall|i: int, j: int|
        #![trigger ranked_positions(scores)[i], ranked_positions(scores)[j]]
        0 <= i < j < ranked_positions(scores).len() implies ranked_positions(scores)[i].idx
        != ranked_positions(scores)[j].idx by {
        let a = ranked_positions(scores)[i];
        let b = ranked_positions(scores)[j];
        assert(a == ranked[i] && b == ranked[j]);
        assert(a != b);
        if a.idx == b.idx {
            assert(scores[a.idx as int] == Some(a.score));
            assert(scores[b.idx as int] == Some(b.score));
        }
    }
}

/// Sorts matched candidates by score descending; stable, so candidates of
/// equal score keep their input order.
fn sort_scored(v: &Vec<ScoredIdx>) -> (r: Vec<ScoredIdx>)
    ensures
        r@ == sort_desc(v@),
{
    let mut r: Vec<ScoredIdx> = Vec::new();
    let mut i: usize = 0;
    while i < v.len()
        invariant
            i <= v@.len(),
            r@ == sort_desc(v@.take(i as int)),
        decreases v@.len() - i,
    {
        let x = v[i];
        let mut p: usize = 0;
        while p < r.len() && r[p].score >= x.score
            invariant
                p <= r@.len(),
                forall|j: int| 0 <= j < p ==> r@[j].score >= x.score,
            decreases r@.len() - p,
        {
            p = p + 1;
        }
        proof {
            lemma_insert_desc_at(r@, x, p as int);
        }
        r.insert(p, x);
        proof {
            assert(v@.take(i + 1).drop_last() =~= v@.take(i as int));
            assert(v@.take(i + 1).last() == v@[i as int]);
        }
        i = i + 1;
    }
    proof {
        assert(v@.take(v@.len() as int) =~= v@);
    }
    r
}

/// Computes an app's score against a normalized query, trying both names.
fn app_score_exec(app: &AppItem, nq: &str) -> (r: Option<i64>)
    ensures
        r == app_score(*app, nq@),
{
    let s1 = fuzzy_score(app.name.as_str(), nq);
    let s2 = match &app.original_name {
        Some(o) => fuzzy_score(o.as_str(), nq),
        None => None,
    };
    match (s1, s2) {
        (Some(a), Some(b)) => Some(if a >= b { a } else { b }),
        (Some(a), None) => Some(a),
        (None, Some(b)) => Some(b),
        (None, None) => None,
    }
}

/// What `search_apps` returns: nothing for an empty query; otherwise the
/// items whose score against the normalized query exists, sorted by score
/// descending (stable by input order), capped at twenty.
pub open spec fn search_apps_spec(items: Seq<AppItem>, query: Seq<char>) -> Seq<AppItem> {
    if query.len() == 0 {
        Seq::empty()
    } else {
        let nq = normalize_spec(query);
        let scores = items.map_values(|a: AppItem| app_score(a, nq));
        ranked_positions(scores).map_values(|e: ScoredIdx| items[e.idx as int])
    }
}

/// What `search_directories` returns, built the same way from the
/// directories' name scores.
pub open spec fn search_directories_spec(items: Seq<DirectoryItem>, query: Seq<char>) -> Seq<
    DirectoryItem,
> {
    if query.len() == 0 {
        Seq::empty()
    } else {
        let nq = normalize_spec(query);
        let scores = items.map_values(|d: DirectoryItem| dir_score(d, nq));
        ranked_positions(scores).map_values(|e: ScoredIdx| items[e.idx as int])
    }
}

/// What `search_commands` returns, built the same way from the commands'
/// alias scores.
pub open spec fn search_commands_spec(items: Seq<CommandItem>, query: Seq<char>) -> Seq<
    CommandItem,
> {
    if query.len() == 0 {
        Seq::empty()
    } else {
        let nq = normalize_spec(query);
        let scores = items.map_values(|c: CommandItem| cmd_score(c, nq));
        ranked_positions(scores).map_values(|e: ScoredIdx| items[e.idx as int])
    }
}

/// The search engine. It holds no state: scoring is a pure function of the
/// item and the query, so searches may run concurrently.
pub struct SearchEngine {}

impl SearchEngine {
    pub fn new() -> (r: Self)
        ensures
            r == (SearchEngine {  }),
    {
        SearchEngine {  }
    }

    /// Ranks apps against the query; an empty query yields no results, and
    /// an app is found by its display name or its original name.
    pub fn search_apps(&self, apps: &[AppItem], query: &str) -> (r: Vec<AppItem>)
        ensures
            r@ == search_apps_spec(apps@, query@),
    {
        if query.unicode_len() == 0 {
            return Vec::new();
        }
        let nq = normalize(query);
        let ghost gscores = apps@.map_values(|a: AppItem| app_score(a, nq@));
        let mut scored: Vec<ScoredIdx> = Vec::new();
        let mut i: usize = 0;
        while i < apps.len()
            invariant
                i <= apps@.len(),
                nq@ == normalize_spec(query@),
                gscores == apps@.map_values(|a: AppItem| app_score(a, nq@)),
                scored@ == scored_list(gscores.take(i as int)),
            decreases apps@.len() - i,
        {
            proof {
                assert(gscores.take(i + 1).drop_last() =~= gscores.take(i as int));
                assert(gscores.take(i + 1).last() == app_score(apps@[i as int], nq@));
            }
            match app_score_exec(&apps[i], nq.as_str()) {
                Some(s) => scored.push(ScoredIdx { score: s, idx: i }),
                None => (),
            }
            i = i + 1;
        }
        proof {
            assert(gscores.take(gscores.len() as int) =~= gscores);
        }
        let ranked = sort_scored(&scored);
        proof {
            lemma_ranked_positions(gscores);
        }
        let cap = if ranked.len() <= RESULT_CAP {
            ranked.len()
        } else {
            RESULT_CAP
        };
        let ghost positions = ranked_positions(gscores);
        assert(positions =~= ranked@.take(cap as int));
        let mut out: Vec<AppItem> = Vec::new();
        let mut k: usize = 0;
        while k < cap
            invariant
                k <= cap,
                cap <= ranked@.len(),
                positions =~= ranked@.take(cap as int),
                forall|j: int| #![trigger positions[j]]
                    0 <= j < positions.len() ==> positions[j].idx < apps@.len(),
                out@ == positions.map_values(|e: ScoredIdx| apps@[e.idx as int]).take(k as int),
            decreases cap - k,
        {
            let idx = ranked[k].idx;
            assert(positions[k as int] == ranked@[k as int]);
            out.push(apps[idx].clone());
            proof {
                assert(out@ =~= positions.map_values(|e: ScoredIdx| apps@[e.idx as int]).take(
                    k + 1,
                ));
            }
            k = k + 1;
        }
        proof {
            let m = positions.map_values(|e: ScoredIdx| apps@[e.idx as int]);
            assert(m.take(cap as int) =~= m);
        }
        out
    }

    /// Ranks directories against the query by their names.
    pub fn search_directories(&self, dirs: &[DirectoryItem], query: &str) -> (r: Vec<
        DirectoryItem,
    >)
        ensures
            r@ == search_directories_spec(dirs@, query@),
    {
        if query.unicode_len() == 0 {
            return Vec::new();
        }
        let nq = normalize(query);
        let ghost gscores = dirs@.map_values(|d: DirectoryItem| dir_score(d, nq@));
        let mut scored: Vec<ScoredIdx> = Vec::new();
        let mut i: usize = 0;
        while i < dirs.len()
            invariant
                i <= dirs@.len(),
                nq@ == normalize_spec(query@),
                gscores == dirs@.map_values(|d: DirectoryItem| dir_score(d, nq@)),
                scored@ == scored_list(gscores.take(i as int)),
            decreases dirs@.len() - i,
        {
            proof {
                assert(gscores.take(i + 1).drop_last() =~= gscores.take(i as int));
                assert(gscores.take(i + 1).last() == dir_score(dirs@[i as int], nq@));
            }
            match fuzzy_score(dirs[i].name.as_str(), nq.as_str()) {
                Some(s) => scored.push(ScoredIdx { score: s, idx: i }),
                None => (),
            }
            i = i + 1;
        }
        proof {
            assert(gscores.take(gscores.len() as int) =~= gscores);
        }
        let ranked = sort_scored(&scored);
        proof {
            lemma_ranked_positions(gscores);
        }
        let cap = if ranked.len() <= RESULT_CAP {
            ranked.len()
        } else {
            RESULT_CAP
        };
        let ghost positions = ranked_positions(gscores);
        assert(positions =~= ranked@.take(cap as int));
        let mut out: Vec<DirectoryItem> = Vec::new();
        let mut k: usize = 0;
        while k < cap
            invariant
                k <= cap,
                cap <= ranked@.len(),
                positions =~= ranked@.take(cap as int),
                forall|j: int| #![trigger positions[j]]
                    0 <= j < positions.len() ==> positions[j].idx < dirs@.len(),
                out@ == positions.map_values(|e: ScoredIdx| dirs@[e.idx as int]).take(k as int),
            decreases cap - k,
        {
            let idx = ranked[k].idx;
            assert(positions[k as int] == ranked@[k as int]);
            out.push(dirs[idx].clone());
            proof {
                assert(out@ =~= positions.map_values(|e: ScoredIdx| dirs@[e.idx as int]).take(
                    k + 1,
                ));
            }
            k = k + 1;
        }
        proof {
            let m = positions.map_values(|e: ScoredIdx| dirs@[e.idx as int]);
            assert(m.take(cap as int) =~= m);
        }
        out
    }

    /// Ranks custom commands against the query by their aliases.
    pub fn search_commands(&self, cmds: &[CommandItem], query: &str) -> (r: Vec<CommandItem>)
        ensures
            r@ == search_commands_spec(cmds@, query@),
    {
        if query.unicode_len() == 0 {
            return Vec::new();
        }
        let nq = normalize(query);
        let ghost gscores = cmds@.map_values(|c: CommandItem| cmd_score(c, nq@));
        let mut scored: Vec<ScoredIdx> = Vec::new();
        let mut i: usize = 0;
        while i < cmds.len()
            invariant
                i <= cmds@.len(),
                nq@ == normalize_spec(query@),
                gscores == cmds@.map_values(|c: CommandItem| cmd_score(c, nq@)),
                scored@ == scored_list(gscores.take(i as int)),
            decreases cmds@.len() - i,
        {
            proof {
                assert(gscores.take(i + 1).drop_last() =~= gscores.take(i as int));
                assert(gscores.take(i + 1).last() == cmd_score(cmds@[i as int], nq@));
            }
            match fuzzy_score(cmds[i].alias.as_str(), nq.as_str()) {
                Some(s) => scored.push(ScoredIdx { score: s, idx: i }),
                None => (),
            }
            i = i + 1;
        }
        proof {
            assert(gscores.take(gscores.len() as int) =~= gscores);
        }
        let ranked = sort_scored(&scored);
        proof {
            lemma_ranked_positions(gscores);
        }
        let cap = if ranked.len() <= RESULT_CAP {
            ranked.len()
        } else {
            RESULT_CAP
        };
        let ghost positions = ranked_positions(gscores);
        assert(positions =~= ranked@.take(cap as int));
        let mut out: Vec<CommandItem> = Vec::new();
        let mut k: usize = 0;
        while k < cap
            invariant
                k <= cap,
                cap <= ranked@.len(),
                positions =~= ranked@.take(cap as int),
                forall|j: int| #![trigger positions[j]]
                    0 <= j < positions.len() ==> positions[j].idx < cmds@.len(),
                out@ == positions.map_values(|e: ScoredIdx| cmds@[e.idx as int]).take(k as int),
            decreases cap - k,
        {
            let idx = ranked[k].idx;
            assert(positions[k as int] == ranked@[k as int]);
            out.push(cmds[idx].clone());
            proof {
                assert(out@ =~= positions.map_values(|e: ScoredIdx| cmds@[e.idx as int]).take(
                    k + 1,
                ));
            }
            k = k + 1;
        }
        proof {
            let m = positions.map_values(|e: ScoredIdx| cmds@[e.idx as int]);
            assert(m.take(cap as int) =~= m);
        }
        out
    }
}

impl Default for SearchEngine {
    fn default() -> (r: Self)
        ensures
            r == (SearchEngine {  }),
    {
        SearchEngine::new()
    }
}

/// Shared shape of the ranking laws: mapping the ranked positions back to
/// the items yields a list of matched items, sorted by score descending,
/// of length `min(20, match_count)`, every element drawn from the input.
proof fn lemma_ranked_mapped<T>(items: Seq<T>, scores: Seq<Option<i64>>, score_of: spec_fn(T) -> Option<i64>)
    requires
        items.len() <= usize::MAX,
        scores == items.map_values(score_of),
    ensures
        ({
            let r = ranked_positions(scores).map_values(|e: ScoredIdx| items[e.idx as int]);
            &&& r.len() == (if match_count(scores) <= RESULT_CAP {
                match_count(scores)
            } else {
                RESULT_CAP as int
            })
            &&& forall|i: int| 0 <= i < r.len() ==> #[trigger] score_of(r[i]) is Some
            &&& forall|i: int, j: int| 0 <= i <= j < r.len() ==> score_of(r[i])->0 >= score_of(
                r[j],
            )->0
            &&& forall|i: int| 0 <= i < r.len() ==> items.contains(#[trigger] r[i])
        }),
{
    lemma_ranked_positions(scores);
    let pos = ranked_positions(scores);
    let r = pos.map_values(|e: ScoredIdx| items[e.idx as int]);
    assert forall|i: int| 0 <= i < r.len() implies #[trigger] score_of(r[i]) is Some by {
        let e = pos[i];
        assert(scores[e.idx as int] == Some(e.score));
        assert(r[i] == items[e.idx as int]);
    }
    assert forall|i: int, j: int| 0 <= i <= j < r.len() implies score_of(r[i])->0 >= score_of(
        r[j],
    )->0 by {
        let ei = pos[i];
        let ej = pos[j];
        assert(scores[ei.idx as int] == Some(ei.score));
        assert(scores[ej.idx as int] == Some(ej.score));
        assert(ei.score >= ej.score);
    }
    assert forall|i: int| 0 <= i < r.len() implies items.contains(#[trigger] r[i]) by {
        let e = pos[i];
        assert(r[i] == items[e.idx as int]);
    }
}

/// Ranking laws for `search_apps`: an empty query returns nothing; every
/// result matches the normalized query; no result scores lower than any
/// later result; results come from the input; and the length is the number
/// of matched items capped at twenty.
pub proof fn lemma_search_apps_ranked(items: Seq<AppItem>, query: Seq<char>)
    requires
        items.len() <= usize::MAX,
    ensures
        query.len() == 0 ==> search_apps_spec(items, query) == Seq::<AppItem>::empty(),
        query.len() > 0 ==> ({
            let nq = normalize_spec(query);
            let scores = items.map_values(|a: AppItem| app_score(a, nq));
            let r = search_apps_spec(items, query);
            &&& r.len() == (if match_count(scores) <= RESULT_CAP {
                match_count(scores)
            } else {
                RESULT_CAP as int
            })
            &&& forall|i: int| 0 <= i < r.len() ==> #[trigger] app_score(r[i], nq) is Some
            &&& forall|i: int, j: int| 0 <= i <= j < r.len() ==> app_score(r[i], nq)->0
                >= app_score(r[j], nq)->0
            &&& forall|i: int| 0 <= i < r.len() ==> items.contains(#[trigger] r[i])
        }),
{
    if query.len() > 0 {
        let nq = normalize_spec(query);
        lemma_ranked_mapped(
            items,
            items.map_values(|a: AppItem| app_score(a, nq)),
            |a: AppItem| app_score(a, nq),
        );
    }
}

/// Ranking laws for `search_directories`, as for apps.
pub proof fn lemma_search_directories_ranked(items: Seq<DirectoryItem>, query: Seq<char>)
    requires
        items.len() <= usize::MAX,
    ensures
        query.len() == 0 ==> search_directories_spec(items, query) == Seq::<
            DirectoryItem,
        >::empty(),
        query.len() > 0 ==> ({
            let nq = normalize_spec(query);
            let scores = items.map_values(|d: DirectoryItem| dir_score(d, nq));
            let r = search_directories_spec(items, query);
            &&& r.len() == (if match_count(scores) <= RESULT_CAP {
                match_count(scores)
            } else {
                RESULT_CAP as int
            })
            &&& forall|i: int| 0 <= i < r.len() ==> #[trigger] dir_score(r[i], nq) is Some
            &&& forall|i: int, j: int| 0 <= i <= j < r.len() ==> dir_score(r[i], nq)->0
                >= dir_score(r[j], nq)->0
            &&& forall|i: int| 0 <= i < r.len() ==> items.contains(#[trigger] r[i])
        }),
{
    if query.len() > 0 {
        let nq = normalize_spec(query);
        lemma_ranked_mapped(
            items,
            items.map_values(|d: DirectoryItem| dir_score(d, nq)),
            |d: DirectoryItem| dir_score(d, nq),
        );
    }
}

/// Ranking laws for `search_commands`, as for apps.
pub proof fn lemma_search_commands_ranked(items: Seq<CommandItem>, query: Seq<char>)
    requires
        items.len() <= usize::MAX,
    ensures
        query.len() == 0 ==> search_commands_spec(items, query) == Seq::<CommandItem>::empty(),
        query.len() > 0 ==> ({
            let nq = normalize_spec(query);
            let scores = items.map_values(|c: CommandItem| cmd_score(c, nq));
            let r = search_commands_spec(items, query);
            &&& r.len() == (if match_count(scores) <= RESULT_CAP {
                match_count(scores)
            } else {
                RESULT_CAP as int
            })
            &&& forall|i: int| 0 <= i < r.len() ==> #[trigger] cmd_score(r[i], nq) is Some
            &&& forall|i: int, j: int| 0 <= i <= j < r.len() ==> cmd_score(r[i], nq)->0
                >= cmd_score(r[j], nq)->0
            &&& forall|i: int| 0 <= i < r.len() ==> items.contains(#[trigger] r[i])
        }),
{
    if query.len() > 0 {
        let nq = normalize_spec(query);
        lemma_ranked_mapped(
            items,
            items.map_values(|c: CommandItem| cmd_score(c, nq)),
            |c: CommandItem| cmd_score(c, nq),
        );
    }
}

} // verus!
