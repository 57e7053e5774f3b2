//! The ranking engine: scores every vocabulary word against a reference
//! word and produces a total order by descending score, so that a word's
//! 0-based position in the order is its rank index.

use vstd::prelude::*;

use crate::sim::dot_product;
use crate::sim::score_of_dot;
use crate::sim::spec_dot;
use crate::sim::spec_score;
use crate::vocab::Vocabulary;

verus! {

/// One row of a ranking: a vocabulary index and its similarity score on
/// the centi-percent scale.
#[derive(Clone, Copy)]
pub struct RankEntry {
    pub idx: usize,
    pub score: i64,
}

/// The score of word `i` against reference word `r`: their similarity
/// rounded to the centi-percent scale.
pub open spec fn spec_score_of(v: Vocabulary, r: int, i: int) -> int {
    spec_score(spec_dot(v.vec(r), v.vec(i)))
}

/// Every entry names a vocabulary word and carries its true score
/// against reference word `r`.
pub open spec fn entries_wf(v: Vocabulary, r: int, s: Seq<RankEntry>) -> bool {
    forall|k: int|
        0 <= k < s.len() ==> (#[trigger] s[k]).idx < v.len() && s[k].score == spec_score_of(
            v,
            r,
            s[k].idx as int,
        )
}

/// Scores never increase along the sequence.
pub open spec fn sorted_desc(s: Seq<RankEntry>) -> bool {
    forall|k1: int, k2: int| 0 <= k1 < k2 < s.len() ==> s[k1].score >= s[k2].score
}

/// The entry a ranking of reference `r` holds for word `i`.
pub open spec fn entry_of(v: Vocabulary, r: int, i: int) -> RankEntry {
    RankEntry { idx: i as usize, score: spec_score_of(v, r, i) as i64 }
}

/// Inserting an element anywhere in a sequence adds exactly that element
/// to its multiset.
proof fn lemma_insert_multiset<A>(s: Seq<A>, p: int, e: A)
    requires
        0 <= p <= s.len(),
    ensures
        s.insert(p, e).to_multiset() == s.to_multiset().insert(e),
{
    broadcast use vstd::seq_lib::group_to_multiset_ensures;

    let pre = s.subrange(0, p);
    let post = s.subrange(p, s.len() as int);
    vstd::seq_lib::lemma_multiset_commutative(pre.push(e), post);
    vstd::seq_lib::lemma_multiset_commutative(pre, post);
    assert(s =~= pre + post);
    assert(pre.push(e).to_multiset() =~= pre.to_multiset().insert(e));
    assert(s.insert(p, e).to_multiset() =~= s.to_multiset().insert(e));
}

/// A sequence whose multiset holds every value at most once has no
/// duplicate positions.
proof fn lemma_counts_at_most_one_no_duplicates<A>(s: Seq<A>)
    requires
        forall|x: A| s.to_multiset().count(x) <= 1,
    ensures
        s.no_duplicates(),
{
    assert forall|x: A| s.to_multiset().contains(x) implies s.to_multiset().count(x) == 1 by {
        assert(s.to_multiset().count(x) >= 1);
    }
    s.lemma_multiset_has_no_duplicates_conv();
}

/// Inserts an entry into a descending-sorted vector, keeping it sorted;
/// the vector gains exactly that entry.
fn sorted_insert(out: &mut Vec<RankEntry>, e: RankEntry)
    requires
        sorted_desc(old(out)@),
        old(out)@.len() < usize::MAX,
    ensures
        sorted_desc(final(out)@),
        final(out)@.to_multiset() == old(out)@.to_multiset().insert(e),
        final(out)@.len() == old(out)@.len() + 1,
{
    let m = out.len();
    let mut p: usize = 0;
    while p < m && out[p].score >= e.score
        invariant
            p <= m,
            m == out@.len(),
            sorted_desc(out@),
            forall|q: int| 0 <= q < p ==> (#[trigger] out@[q]).score >= e.score,
        decreases m - p,
    {
        p = p + 1;
    }
    let ghost prev = out@;
    out.insert(p, e);
    proof {
        prev.insert_ensures(p as int, e);
        lemma_insert_multiset(prev, p as int, e);
        assert forall|k1: int, k2: int|
            0 <= k1 < k2 < out@.len() implies out@[k1].score >= out@[k2].score by {
            if k2 < p {
                assert(out@[k1] == prev[k1] && out@[k2] == prev[k2]);
            } else if k1 > p {
                assert(out@[k1] == prev[k1 - 1] && out@[k2] == prev[k2 - 1]);
            } else if k1 == p {
                assert(out@[k2] == prev[k2 - 1]);
                assert(prev[p as int].score < e.score);
            } else if k2 == p {
                assert(out@[k1] == prev[k1]);
            } else {
                // k1 < p < k2
                assert(out@[k1] == prev[k1] && out@[k2] == prev[k2 - 1]);
                if p < prev.len() {
                    assert(prev[p as int].score < e.score);
                }
            }
        }
    }
}

/// Ranks the whole vocabulary against reference word `rfr`: every word
/// appears with its true score, ordered by descending score.  Built once
/// per game, against the secret.
pub fn rank_all(v: &Vocabulary, rfr: usize) -> (r: Vec<RankEntry>)
    requires
        v.wf(),
        rfr < v.len(),
    ensures
        r@.len() == v.len(),
        sorted_desc(r@),
        entries_wf(*v, rfr as int, r@),
        forall|i: int| 0 <= i < v.len() ==> r@.contains(entry_of(*v, rfr as int, i)),
        forall|k1: int, k2: int| 0 <= k1 < k2 < r@.len() ==> r@[k1].idx != r@[k2].idx,
{
    broadcast use vstd::seq_lib::group_to_multiset_ensures;
    broadcast use vstd::multiset::group_multiset_axioms;

    let n = v.words.len();
    let mut out: Vec<RankEntry> = Vec::new();
    let mut i: usize = 0;
    while i < n
        invariant
            i <= n,
            n == v.len(),
            v.wf(),
            rfr < v.len(),
            out@.len() == i,
            sorted_desc(out@),
            entries_wf(*v, rfr as int, out@),
            forall|j: int| 0 <= j < i ==> out@.contains(entry_of(*v, rfr as int, j)),
            forall|k: int| 0 <= k < out@.len() ==> (#[trigger] out@[k]).idx < i,
            forall|x: RankEntry| out@.to_multiset().count(x) <= 1,
        decreases n - i,
    {
        let ghost prev = out@;
        proof {
            assert(v.vec(rfr as int).len() == v.dim);
            assert(v.vec(i as int).len() == v.dim);
        }
        let d = dot_product(&v.vecs[rfr], &v.vecs[i]);
        let e = RankEntry { idx: i, score: score_of_dot(d) };
        sorted_insert(&mut out, e);
        proof {
            assert(e == entry_of(*v, rfr as int, i as int));
            assert(out@.to_multiset() == prev.to_multiset().insert(e));
            vstd::seq_lib::to_multiset_contains(out@, e);
            assert(out@.to_multiset().count(e) > 0);
            assert(out@.contains(e));
            assert forall|j: int|
                0 <= j < i + 1 implies out@.contains(entry_of(*v, rfr as int, j)) by {
                if j < i {
                    let ghost ej = entry_of(*v, rfr as int, j);
                    assert(prev.contains(ej));
                    vstd::seq_lib::to_multiset_contains(prev, ej);
                    vstd::seq_lib::to_multiset_contains(out@, ej);
                    assert(prev.to_multiset().count(ej) > 0);
                    assert(out@.to_multiset().count(ej) > 0);
                }
            }
            assert forall|k: int|
                0 <= k < out@.len() implies (#[trigger] out@[k]).idx < v.len() && out@[k].score
                == spec_score_of(*v, rfr as int, out@[k].idx as int) by {
                assert(out@.contains(out@[k]));
                vstd::seq_lib::to_multiset_contains(out@, out@[k]);
                vstd::seq_lib::to_multiset_contains(prev, out@[k]);
                if out@[k] != e {
                    assert(out@.to_multiset().count(out@[k]) > 0);
                    assert(prev.to_multiset().count(out@[k]) > 0);
                    assert(prev.contains(out@[k]));
                }
            }
            assert forall|x: RankEntry| out@.to_multiset().count(x) <= 1 by {
                if x == e {
                    vstd::seq_lib::to_multiset_contains(prev, e);
                    if prev.to_multiset().count(e) > 0 {
                        assert(prev.contains(e));
                        let k = choose|k: int| 0 <= k < prev.len() && prev[k] == e;
                        assert(prev[k].idx < i);
                        assert(false);
                    }
                    assert(out@.to_multiset().count(x) == prev.to_multiset().count(e) + 1);
                } else {
                    assert(out@.to_multiset().count(x) == prev.to_multiset().count(x));
                }
            }
            assert forall|k: int| 0 <= k < out@.len() implies (#[trigger] out@[k]).idx < i
                + 1 by {
                assert(out@.contains(out@[k]));
                vstd::seq_lib::to_multiset_contains(out@, out@[k]);
                vstd::seq_lib::to_multiset_contains(prev, out@[k]);
                if out@[k] != e {
                    assert(out@.to_multiset().count(out@[k]) > 0);
                    assert(prev.to_multiset().count(out@[k]) > 0);
                    assert(prev.contains(out@[k]));
                }
            }
        }
        i = i + 1;
    }
    proof {
        lemma_counts_at_most_one_no_duplicates(out@);
        assert forall|k1: int, k2: int|
            0 <= k1 < k2 < out@.len() implies out@[k1].idx != out@[k2].idx by {
            if out@[k1].idx == out@[k2].idx {
                assert(out@[k1].score == spec_score_of(*v, rfr as int, out@[k1].idx as int));
                assert(out@[k2].score == spec_score_of(*v, rfr as int, out@[k2].idx as int));
                assert(out@[k1] == out@[k2]);
            }
        }
    }
    out
}

/// Ranks every vocabulary word other than `rfr` against `rfr`, by
/// descending score: the solver's "closest words" query.
pub fn rank_others(v: &Vocabulary, rfr: usize) -> (r: Vec<RankEntry>)
    requires
        v.wf(),
        rfr < v.len(),
    ensures
        r@.len() == v.len() - 1,
        sorted_desc(r@),
        entries_wf(*v, rfr as int, r@),
        forall|k: int| 0 <= k < r@.len() ==> (#[trigger] r@[k]).idx != rfr,
        forall|i: int|
            0 <= i < v.len() && i != rfr ==> r@.contains(entry_of(*v, rfr as int, i)),
        forall|k1: int, k2: int| 0 <= k1 < k2 < r@.len() ==> r@[k1].idx != r@[k2].idx,
{
    broadcast use vstd::seq_lib::group_to_multiset_ensures;
    broadcast use vstd::multiset::group_multiset_axioms;

    let n = v.words.len();
    let mut out: Vec<RankEntry> = Vec::new();
    let mut i: usize = 0;
    while i < n
        invariant
            i <= n,
            n == v.len(),
            v.wf(),
            rfr < v.len(),
            out@.len() == if i <= rfr {
                i as int
            } else {
                i - 1
            },
            sorted_desc(out@),
            entries_wf(*v, rfr as int, out@),
            forall|k: int| 0 <= k < out@.len() ==> (#[trigger] out@[k]).idx != rfr,
            forall|j: int|
                0 <= j < i && j != rfr ==> out@.contains(entry_of(*v, rfr as int, j)),
            forall|k: int| 0 <= k < out@.len() ==> (#[trigger] out@[k]).idx < i,
            forall|x: RankEntry| out@.to_multiset().count(x) <= 1,
        decreases n - i,
    {
        if i != rfr {
            let ghost prev = out@;
            proof {
                assert(v.vec(rfr as int).len() == v.dim);
                assert(v.vec(i as int).len() == v.dim);
            }
            let d = dot_product(&v.vecs[rfr], &v.vecs[i]);
            let e = RankEntry { idx: i, score: score_of_dot(d) };
            sorted_insert(&mut out, e);
            proof {
                assert(e == entry_of(*v, rfr as int, i as int));
                assert(out@.to_multiset() == prev.to_multiset().insert(e));
                vstd::seq_lib::to_multiset_contains(out@, e);
                assert(out@.to_multiset().count(e) > 0);
                assert(out@.contains(e));
                assert forall|j: int|
                    0 <= j < i + 1 && j != rfr implies out@.contains(
                    entry_of(*v, rfr as int, j),
                ) by {
                    if j < i {
                        let ghost ej = entry_of(*v, rfr as int, j);
                        assert(prev.contains(ej));
                        vstd::seq_lib::to_multiset_contains(prev, ej);
                        vstd::seq_lib::to_multiset_contains(out@, ej);
                        assert(prev.to_multiset().count(ej) > 0);
                        assert(out@.to_multiset().count(ej) > 0);
                    }
                }
                assert forall|k: int|
                    0 <= k < out@.len() implies (#[trigger] out@[k]).idx < v.len() && out@[k].score
                    == spec_score_of(*v, rfr as int, out@[k].idx as int) && out@[k].idx != rfr by {
                    assert(out@.contains(out@[k]));
                    vstd::seq_lib::to_multiset_contains(out@, out@[k]);
                    vstd::seq_lib::to_multiset_contains(prev, out@[k]);
                    if out@[k] != e {
                        assert(out@.to_multiset().count(out@[k]) > 0);
                        assert(prev.to_multiset().count(out@[k]) > 0);
                        assert(prev.contains(out@[k]));
                    }
                }
                assert forall|x: RankEntry| out@.to_multiset().count(x) <= 1 by {
                    if x == e {
                        vstd::seq_lib::to_multiset_contains(prev, e);
                        if prev.to_multiset().count(e) > 0 {
                            assert(prev.contains(e));
                            let k = choose|k: int| 0 <= k < prev.len() && prev[k] == e;
                            assert(prev[k].idx < i);
                            assert(false);
                        }
                        assert(out@.to_multiset().count(x) == prev.to_multiset().count(e) + 1);
                    } else {
                        assert(out@.to_multiset().count(x) == prev.to_multiset().count(x));
                    }
                }
                assert forall|k: int| 0 <= k < out@.len() implies (#[trigger] out@[k]).idx < i
                    + 1 by {
                    assert(out@.contains(out@[k]));
                    vstd::seq_lib::to_multiset_contains(out@, out@[k]);
                    vstd::seq_lib::to_multiset_contains(prev, out@[k]);
                    if out@[k] != e {
                        assert(out@.to_multiset().count(out@[k]) > 0);
                        assert(prev.to_multiset().count(out@[k]) > 0);
                        assert(prev.contains(out@[k]));
                    }
                }
            }
        }
        i = i + 1;
    }
    proof {
        lemma_counts_at_most_one_no_duplicates(out@);
        assert forall|k1: int, k2: int|
            0 <= k1 < k2 < out@.len() implies out@[k1].idx != out@[k2].idx by {
            if out@[k1].idx == out@[k2].idx {
                assert(out@[k1].score == spec_score_of(*v, rfr as int, out@[k1].idx as int));
                assert(out@[k2].score == spec_score_of(*v, rfr as int, out@[k2].idx as int));
                assert(out@[k1] == out@[k2]);
            }
        }
    }
    out
}

/// Keeps only the best `count` entries of a ranking (all of them when it
/// is shorter): the "top N" form of the neighbor query.
pub fn truncate_entries(es: &mut Vec<RankEntry>, count: usize)
    ensures
        count <= old(es)@.len() ==> final(es)@ == old(es)@.subrange(0, count as int),
        count > old(es)@.len() ==> final(es)@ == old(es)@,
{
    es.truncate(count);
}

/// Finds the rank of word `idx` in a ranking: the first position holding
/// it, if any.
pub fn rank_of(table: &Vec<RankEntry>, idx: usize) -> (r: Option<usize>)
    ensures
        match r {
            Some(k) => {
                &&& k < table@.len()
                &&& table@[k as int].idx == idx
                &&& forall|j: int| 0 <= j < k ==> (#[trigger] table@[j]).idx != idx
            },
            None => forall|k: int| 0 <= k < table@.len() ==> (#[trigger] table@[k]).idx != idx,
        },
{
    let m = table.len();
    let mut k: usize = 0;
    while k < m
        invariant
            k <= m,
            m == table@.len(),
            forall|j: int| 0 <= j < k ==> (#[trigger] table@[j]).idx != idx,
        decreases m - k,
    {
        if table[k].idx == idx {
            return Some(k);
        }
        k = k + 1;
    }
    None
}

/// A word whose score against the reference strictly beats every other
/// word's ranks first — in particular, with pre-normalized embeddings the
/// reference word itself ranks at index 0 in its own ranking.
pub proof fn lemma_strict_best_ranks_first(v: Vocabulary, w: usize, table: Seq<RankEntry>)
    requires
        v.wf(),
        w < v.len(),
        sorted_desc(table),
        entries_wf(v, w as int, table),
        table.contains(entry_of(v, w as int, w as int)),
        forall|i: int|
            0 <= i < v.len() && i != w ==> spec_score_of(v, w as int, i) < spec_score_of(
                v,
                w as int,
                w as int,
            ),
    ensures
        table.len() > 0,
        table[0].idx == w,
{
    let e = entry_of(v, w as int, w as int);
    let k = choose|k: int| 0 <= k < table.len() && table[k] == e;
    if table[0].idx != w {
        assert(table[0].score >= table[k].score);
        assert(table[0].score == spec_score_of(v, w as int, table[0].idx as int));
        assert(spec_score_of(v, w as int, table[0].idx as int) < spec_score_of(
            v,
            w as int,
            w as int,
        ));
    }
}

} // verus!
