use vstd::prelude::*;

use crate::entries::Entry;
use fuzzy_matcher::skim::SkimMatcherV2;
use fuzzy_matcher::FuzzyMatcher;

verus! {

#[verifier::external_type_specification]
#[verifier::external_body]
pub struct ExSkimMatcherV2(SkimMatcherV2);

/// The code of a character with ASCII capitals folded to lowercase.
pub open spec fn ascii_fold(c: char) -> int {
    if ('A' as int) <= (c as int) <= ('Z' as int) {
        (c as int) + 32
    } else {
        c as int
    }
}

/// Whether a pattern holds an ASCII capital; the matcher then respects case.
pub open spec fn has_ascii_upper(p: Seq<char>) -> bool {
    exists|i: int| 0 <= i < p.len() && ('A' as int) <= (#[trigger] p[i] as int) <= ('Z' as int)
}

/// Whether a character of the choice matches one of the pattern.
pub open spec fn chars_match(c: char, p: char, case_sensitive: bool) -> bool {
    if case_sensitive {
        c == p
    } else {
        ascii_fold(c) == ascii_fold(p)
    }
}

/// The characters of `pattern` occur in `choice` in order, not necessarily
/// next to each other.
pub open spec fn occurs_in_order(choice: Seq<char>, pattern: Seq<char>, case_sensitive: bool) -> bool
    decreases choice.len(),
{
    if pattern.len() == 0 {
        true
    } else if choice.len() == 0 {
        false
    } else if chars_match(choice[0], pattern[0], case_sensitive) {
        occurs_in_order(choice.drop_first(), pattern.drop_first(), case_sensitive)
    } else {
        occurs_in_order(choice.drop_first(), pattern, case_sensitive)
    }
}

/// Whether the default skim matcher accepts `choice` for `pattern`: always
/// for an empty pattern; otherwise exactly when the pattern's characters occur
/// in order in the choice (ignoring ASCII case unless the pattern holds a
/// capital).
pub open spec fn fuzzy_accepts(choice: Seq<char>, pattern: Seq<char>) -> bool {
    pattern.len() == 0 || occurs_in_order(choice, pattern, has_ascii_upper(pattern))
}

/// Calls `SkimMatcherV2::default`.
#[verifier::external_body]
fn default_matcher() -> SkimMatcherV2 {
    SkimMatcherV2::default()
}

/// Calls `FuzzyMatcher::fuzzy_match` on a matcher built by `default_matcher`
/// (the only kind this library makes). Claimed, from the crate's source: an
/// empty pattern gives `Some(0)`; otherwise the answer is `Some` exactly when
/// the pattern occurs in order in the choice under smart case. The score of a
/// match is left open: the matcher keeps a score matrix between calls, and
/// cells left from earlier calls can enter the score.
#[verifier::external_body]
fn skim_match(matcher: &SkimMatcherV2, choice: &str, pattern: &str) -> (r: Option<i64>)
    ensures
        pattern@.len() == 0 ==> r == Some(0i64),
        r is Some <==> (pattern@.len() == 0 || occurs_in_order(choice@, pattern@, has_ascii_upper(pattern@))),
{
    matcher.fuzzy_match(choice, pattern)
}

/// Item `a` is ranked before item `b`: a higher score, or the same score and
/// an earlier position.
pub open spec fn ranked_before(a: (usize, i64), b: (usize, i64)) -> bool {
    a.1 > b.1 || (a.1 == b.1 && a.0 < b.0)
}

/// `out` holds a pair `(i, s)` for exactly the positions `i` whose score is
/// `Some(s)`, best score first and, among equal scores, in position order.
/// Only one sequence meets this (`lemma_ranking_unique`).
pub open spec fn is_ranking(scores: Seq<Option<i64>>, out: Seq<(usize, i64)>) -> bool {
    &&& forall|k: int|
        0 <= k < out.len() ==> (#[trigger] out[k]).0 < scores.len() && scores[out[k].0 as int]
            == Some(out[k].1)
    &&& forall|i: int|
        0 <= i < scores.len() && (#[trigger] scores[i]) is Some ==> exists|k: int|
            0 <= k < out.len() && (#[trigger] out[k]).0 == i
    &&& forall|k: int, l: int| 0 <= k < l < out.len() ==> ranked_before(#[trigger] out[k], #[trigger] out[l])
}

/// Ranks the matching positions: each `(i, s)` with `scores[i] == Some(s)`,
/// best score first; equal scores keep position order (a stable sort by
/// descending score).
pub fn rank_matches(scores: &Vec<Option<i64>>) -> (out: Vec<(usize, i64)>)
    ensures
        is_ranking(scores@, out@),
{
    let mut out: Vec<(usize, i64)> = Vec::new();
    let mut i: usize = 0;
    while i < scores.len()
        invariant
            i <= scores.len(),
            forall|k: int|
                0 <= k < out.len() ==> (#[trigger] out@[k]).0 < i && scores@[out@[k].0 as int]
                    == Some(out@[k].1),
            forall|j: int|
                0 <= j < i && (#[trigger] scores@[j]) is Some ==> exists|k: int|
                    0 <= k < out.len() && (#[trigger] out@[k]).0 == j,
            forall|k: int, l: int|
                0 <= k < l < out.len() ==> ranked_before(#[trigger] out@[k], #[trigger] out@[l]),
        decreases scores.len() - i,
    {
        match scores[i] {
            Some(s) => {
                // Binary search for the first position with a lower score.
                let mut p: usize = 0;
                let mut hi: usize = out.len();
                while p < hi
                    invariant
                        p <= hi <= out.len(),
                        forall|k: int, l: int|
                            0 <= k < l < out.len() ==> ranked_before(#[trigger] out@[k], #[trigger] out@[l]),
                        forall|r: int| 0 <= r < p ==> (#[trigger] out@[r]).1 >= s,
                        forall|r: int| hi <= r < out.len() ==> (#[trigger] out@[r]).1 < s,
                    decreases hi - p,
                {
                    let mid = p + (hi - p) / 2;
                    if out[mid].1 < s {
                        proof {
                            assert forall|r: int| mid <= r < out.len() implies (#[trigger] out@[r]).1 < s by {
                                if r > mid {
                                    assert(ranked_before(out@[mid as int], out@[r]));
                                }
                            }
                        }
                        hi = mid;
                    } else {
                        proof {
                            assert forall|r: int| 0 <= r < mid + 1 implies (#[trigger] out@[r]).1 >= s by {
                                if r < mid {
                                    assert(ranked_before(out@[r], out@[mid as int]));
                                }
                            }
                        }
                        p = mid + 1;
                    }
                }
                let ghost prev = out@;
                out.insert(p, (i, s));
                proof {
                    assert(out@ =~= prev.subrange(0, p as int).push((i, s)).add(prev.subrange(p as int, prev.len() as int)));
                    assert forall|k: int, l: int| 0 <= k < l < out@.len() implies ranked_before(#[trigger] out@[k], #[trigger] out@[l]) by {
                        if k < p && l < p {
                            assert(ranked_before(prev[k], prev[l]));
                        } else if k < p && l == p {
                        } else if k < p && l > p {
                            assert(ranked_before(prev[k], prev[l - 1]));
                        } else if k == p {
                            assert(prev[p as int].1 < s);
                            if l - 1 > p {
                                assert(ranked_before(prev[p as int], prev[l - 1]));
                            }
                        } else {
                            assert(ranked_before(prev[k - 1], prev[l - 1]));
                        }
                    }
                    assert forall|j: int| 0 <= j < i + 1 && (#[trigger] scores@[j]) is Some implies exists|k: int|
                        0 <= k < out@.len() && (#[trigger] out@[k]).0 == j by {
                        if j == i {
                            assert(out@[p as int].0 == j);
                        } else {
                            let k = choose|k: int| 0 <= k < prev.len() && (#[trigger] prev[k]).0 == j;
                            if k < p {
                                assert(out@[k].0 == j);
                            } else {
                                assert(out@[k + 1].0 == j);
                            }
                        }
                    }
                }
            },
            None => {},
        }
        i = i + 1;
    }
    out
}

proof fn lemma_rankings_agree_below(scores: Seq<Option<i64>>, a: Seq<(usize, i64)>, b: Seq<(usize, i64)>, n: int)
    requires
        is_ranking(scores, a),
        is_ranking(scores, b),
        0 <= n <= a.len(),
        0 <= n <= b.len(),
    ensures
        forall|j: int| 0 <= j < n ==> a[j] == b[j],
    decreases n,
{
    if n > 0 {
        lemma_rankings_agree_below(scores, a, b, n - 1);
        let p = n - 1;
        let x = a[p];
        let y = b[p];
        if x != y {
            assert(scores[x.0 as int] == Some(x.1));
            assert(scores[y.0 as int] == Some(y.1));
            let q = choose|q: int| 0 <= q < a.len() && (#[trigger] a[q]).0 == y.0;
            let r = choose|r: int| 0 <= r < b.len() && (#[trigger] b[r]).0 == x.0;
            assert(a[q] == y);
            assert(b[r] == x);
            if q < p {
                assert(b[q] == y);
                assert(ranked_before(b[q], b[p]));
            } else if r < p {
                assert(a[r] == x);
                assert(ranked_before(a[r], a[p]));
            } else {
                assert(ranked_before(a[p], a[q]));
                assert(ranked_before(b[p], b[r]));
            }
        }
    }
}

/// Only one sequence is a ranking of given scores.
pub proof fn lemma_ranking_unique(scores: Seq<Option<i64>>, a: Seq<(usize, i64)>, b: Seq<(usize, i64)>)
    requires
        is_ranking(scores, a),
        is_ranking(scores, b),
    ensures
        a == b,
{
    if a.len() < b.len() {
        lemma_rankings_agree_below(scores, a, b, a.len() as int);
        let y = b[a.len() as int];
        assert(scores[y.0 as int] == Some(y.1));
        let q = choose|q: int| 0 <= q < a.len() && (#[trigger] a[q]).0 == y.0;
        assert(b[q] == a[q]);
        assert(ranked_before(b[q], b[a.len() as int]));
    } else if b.len() < a.len() {
        lemma_rankings_agree_below(scores, a, b, b.len() as int);
        let y = a[b.len() as int];
        assert(scores[y.0 as int] == Some(y.1));
        let q = choose|q: int| 0 <= q < b.len() && (#[trigger] b[q]).0 == y.0;
        assert(b[q] == a[q]);
        assert(ranked_before(a[q], a[b.len() as int]));
    } else {
        lemma_rankings_agree_below(scores, a, b, a.len() as int);
        assert(a =~= b);
    }
}

/// `scores` are answers the matcher may give for `names` and `query`: one per
/// name, a score exactly for the accepted names, and score 0 for every name
/// when the query is empty.
pub open spec fn is_match_scores(names: Seq<String>, query: Seq<char>, scores: Seq<Option<i64>>) -> bool {
    &&& scores.len() == names.len()
    &&& forall|i: int| 0 <= i < names.len() ==> ((#[trigger] scores[i]) is Some <==> fuzzy_accepts(names[i]@, query))
    &&& query.len() == 0 ==> forall|i: int| 0 <= i < names.len() ==> #[trigger] scores[i] == Some(0i64)
}

/// Fuzzy filter over names, with the skim matcher's default settings (smart
/// case: a query with a capital letter is matched case-sensitively).
pub struct FuzzyFilter {
    matcher: SkimMatcherV2,
}

impl FuzzyFilter {
    pub fn new() -> Self {
        FuzzyFilter { matcher: default_matcher() }
    }

    /// Filters entries by query, returning `(index, score)` pairs for the
    /// matching entries, sorted by score descending; equal scores keep the
    /// order of `entries`. An empty query returns every index with score 0, in
    /// order.
    pub fn filter(&self, query: &str, entries: &[String]) -> (out: Vec<(usize, i64)>)
        ensures
            exists|scores: Seq<Option<i64>>|
                #![trigger is_match_scores(entries@, query@, scores)]
                is_match_scores(entries@, query@, scores) && is_ranking(scores, out@),
            query@.len() == 0 ==> out@.len() == entries@.len() && forall|k: int|
                0 <= k < out@.len() ==> #[trigger] out@[k] == (k as usize, 0i64),
    {
        if query.is_empty() {
            let mut out: Vec<(usize, i64)> = Vec::new();
            let mut i: usize = 0;
            while i < entries.len()
                invariant
                    query@.len() == 0,
                    i <= entries.len(),
                    out.len() == i,
                    forall|k: int| 0 <= k < i ==> #[trigger] out@[k] == (k as usize, 0i64),
                decreases entries.len() - i,
            {
                out.push((i, 0));
                i = i + 1;
            }
            proof {
                let sc = Seq::new(entries@.len(), |i: int| Some(0i64));
                assert forall|j: int| 0 <= j < sc.len() && (#[trigger] sc[j]) is Some implies exists|k: int|
                    0 <= k < out@.len() && (#[trigger] out@[k]).0 == j by {
                    assert(out@[j].0 == j);
                }
                assert(is_match_scores(entries@, query@, sc));
                assert(is_ranking(sc, out@));
            }
            return out;
        }
        let mut scores: Vec<Option<i64>> = Vec::new();
        let mut i: usize = 0;
        while i < entries.len()
            invariant
                i <= entries.len(),
                query@.len() > 0,
                scores.len() == i,
                forall|j: int| 0 <= j < i ==> ((#[trigger] scores@[j]) is Some <==> fuzzy_accepts(entries@[j]@, query@)),
            decreases entries.len() - i,
        {
            let s = skim_match(&self.matcher, entries[i].as_str(), query);
            scores.push(s);
            i = i + 1;
        }
        assert(is_match_scores(entries@, query@, scores@));
        rank_matches(&scores)
    }
}

/// The names of a list of entries.
pub open spec fn entry_names(entries: Seq<Entry>) -> Seq<String> {
    entries.map_values(|e: Entry| e.name)
}

/// `out` is `entries` narrowed by `query`: the entries the matcher accepts,
/// in ranking order.
pub open spec fn is_filtered(entries: Seq<Entry>, query: Seq<char>, out: Seq<Entry>) -> bool {
    exists|scores: Seq<Option<i64>>, ranked: Seq<(usize, i64)>|
        #![trigger is_match_scores(entry_names(entries), query, scores), is_ranking(scores, ranked)]
        is_match_scores(entry_names(entries), query, scores) && is_ranking(scores, ranked) && out
            == ranked.map_values(|p: (usize, i64)| entries[p.0 as int])
}

/// The entries whose names match `query`, best match first; all entries, in
/// order, when the query is empty.
pub fn filter_entries(entries: &[Entry], query: &str, fuzzy: &FuzzyFilter) -> (out: Vec<Entry>)
    ensures
        is_filtered(entries@, query@, out@),
        query@.len() == 0 ==> out@ == entries@,
{
    let mut names: Vec<String> = Vec::new();
    let mut i: usize = 0;
    while i < entries.len()
        invariant
            i <= entries.len(),
            names@ =~= entry_names(entries@).take(i as int),
        decreases entries.len() - i,
    {
        names.push(entries[i].name.clone());
        i = i + 1;
    }
    assert(entry_names(entries@).take(entries.len() as int) =~= entry_names(entries@));
    let ranked = fuzzy.filter(query, names.as_slice());
    let ghost scores = choose|scores: Seq<Option<i64>>|
        #![trigger is_match_scores(names@, query@, scores)]
        is_match_scores(names@, query@, scores) && is_ranking(scores, ranked@);
    let mut out: Vec<Entry> = Vec::new();
    let mut k: usize = 0;
    while k < ranked.len()
        invariant
            k <= ranked.len(),
            names@ == entry_names(entries@),
            is_match_scores(names@, query@, scores),
            is_ranking(scores, ranked@),
            out@ =~= ranked@.take(k as int).map_values(|p: (usize, i64)| entries@[p.0 as int]),
        decreases ranked.len() - k,
    {
        assert(ranked@[k as int].0 < names@.len());
        out.push(entries[ranked[k].0].clone());
        assert(ranked@.take(k + 1) =~= ranked@.take(k as int).push(ranked@[k as int]));
        k = k + 1;
    }
    assert(ranked@.take(ranked.len() as int) =~= ranked@);
    out
}

/// `e` is an entry of the list that the matcher accepts for `query`.
pub open spec fn is_accepted(entries: Seq<Entry>, query: Seq<char>, e: Entry) -> bool {
    exists|i: int| 0 <= i < entries.len() && e == entries[i] && #[trigger] fuzzy_accepts(entries[i].name@, query)
}

/// Filtering keeps exactly the matching entries: each shown entry is an entry
/// of the list (with its `is_dir` unchanged) that the matcher accepts, and
/// each accepted entry is shown.
pub proof fn lemma_filtered_are_matches(entries: Seq<Entry>, query: Seq<char>, out: Seq<Entry>)
    requires
        is_filtered(entries, query, out),
    ensures
        forall|k: int| 0 <= k < out.len() ==> is_accepted(entries, query, #[trigger] out[k]),
        forall|i: int|
            0 <= i < entries.len() && #[trigger] fuzzy_accepts(entries[i].name@, query) ==> out.contains(entries[i]),
{
    let (scores, ranked) = choose|scores: Seq<Option<i64>>, ranked: Seq<(usize, i64)>|
        #![trigger is_match_scores(entry_names(entries), query, scores), is_ranking(scores, ranked)]
        is_match_scores(entry_names(entries), query, scores) && is_ranking(scores, ranked) && out
            == ranked.map_values(|p: (usize, i64)| entries[p.0 as int]);
    assert forall|k: int| 0 <= k < out.len() implies is_accepted(entries, query, #[trigger] out[k]) by {
        let i = ranked[k].0 as int;
        assert(entry_names(entries)[i] == entries[i].name);
        assert(out[k] == entries[i]);
    }
    assert forall|i: int| 0 <= i < entries.len() && #[trigger] fuzzy_accepts(entries[i].name@, query)
        implies out.contains(entries[i]) by {
        assert(entry_names(entries)[i] == entries[i].name);
        assert(scores[i] is Some);
        let k = choose|k: int| 0 <= k < ranked.len() && (#[trigger] ranked[k]).0 == i;
        assert(out[k] == entries[i]);
    }
}

} // verus!
