//! The candidate filter: derives the set of vocabulary words consistent
//! with every constraint in the log, either recomputed from the full
//! vocabulary or narrowed incrementally by one new constraint.

use vstd::prelude::*;

use crate::constraints::lemma_filter_elems;
use crate::constraints::lemma_filter_push;
use crate::constraints::log_wf;
use crate::constraints::remove_word;
use crate::constraints::Constraint;
use crate::sim::is_consistent;
use crate::sim::spec_consistent;
use crate::sim::spec_dot;
use crate::vocab::Vocabulary;

verus! {

/// Word index `i` satisfies the single constraint `c`: the similarity of
/// the two words is within tolerance of the declared value.
pub open spec fn constraint_holds(v: Vocabulary, c: Constraint, i: int) -> bool {
    spec_consistent(spec_dot(v.vec(c.word as int), v.vec(i)), c.target as int)
}

/// Word index `i` satisfies every constraint in the log.
pub open spec fn consistent_all(v: Vocabulary, log: Seq<Constraint>, i: int) -> bool {
    forall|k: int| 0 <= k < log.len() ==> constraint_holds(v, #[trigger] log[k], i)
}

/// The candidate list for the first `n` vocabulary words: the indices
/// `i < n` consistent with every constraint, in increasing order.
pub open spec fn cand_seq(v: Vocabulary, log: Seq<Constraint>, n: nat) -> Seq<usize>
    decreases n,
{
    if n == 0 {
        Seq::empty()
    } else {
        let prefix = cand_seq(v, log, (n - 1) as nat);
        if consistent_all(v, log, n - 1) {
            prefix.push((n - 1) as usize)
        } else {
            prefix
        }
    }
}

/// Candidate lists hold strictly increasing indices below `n`, and hold
/// an index if and only if it is consistent with the whole log.
pub proof fn lemma_cand_seq_elems(v: Vocabulary, log: Seq<Constraint>, n: nat)
    requires
        n <= usize::MAX,
    ensures
        forall|k: int|
            0 <= k < cand_seq(v, log, n).len() ==> (#[trigger] cand_seq(v, log, n)[k]) < n
                && consistent_all(v, log, cand_seq(v, log, n)[k] as int),
        forall|k1: int, k2: int|
            0 <= k1 < k2 < cand_seq(v, log, n).len() ==> cand_seq(v, log, n)[k1] < cand_seq(
                v,
                log,
                n,
            )[k2],
        forall|i: int|
            0 <= i < n && consistent_all(v, log, i) ==> cand_seq(v, log, n).contains(i as usize),
        cand_seq(v, log, n).len() <= n,
    decreases n,
{
    if n > 0 {
        lemma_cand_seq_elems(v, log, (n - 1) as nat);
        let prefix = cand_seq(v, log, (n - 1) as nat);
        let full = cand_seq(v, log, n);
        assert forall|i: int|
            0 <= i < n && consistent_all(v, log, i) implies full.contains(i as usize) by {
            if i < n - 1 {
                assert(prefix.contains(i as usize));
                let k = choose|k: int| 0 <= k < prefix.len() && prefix[k] == i as usize;
                assert(full[k] == i as usize);
            } else {
                assert(full[full.len() - 1] == i as usize);
            }
        }
    }
}

/// If every word admitted by `log2` is admitted by `log1`, the candidate
/// list of `log2` is no longer than that of `log1`.
pub proof fn lemma_cand_seq_narrower(
    v: Vocabulary,
    log1: Seq<Constraint>,
    log2: Seq<Constraint>,
    n: nat,
)
    requires
        forall|i: int| 0 <= i < n && consistent_all(v, log2, i) ==> consistent_all(v, log1, i),
    ensures
        cand_seq(v, log2, n).len() <= cand_seq(v, log1, n).len(),
    decreases n,
{
    if n > 0 {
        lemma_cand_seq_narrower(v, log1, log2, (n - 1) as nat);
    }
}

/// A word satisfies an extended log exactly when it satisfies the old log
/// and the one new constraint.
pub proof fn lemma_consistent_push(v: Vocabulary, log: Seq<Constraint>, c: Constraint, i: int)
    ensures
        consistent_all(v, log.push(c), i) <==> (consistent_all(v, log, i) && constraint_holds(
            v,
            c,
            i,
        )),
{
    let log2 = log.push(c);
    if consistent_all(v, log2, i) {
        assert forall|k: int| 0 <= k < log.len() implies constraint_holds(
            v,
            #[trigger] log[k],
            i,
        ) by {
            assert(log2[k] == log[k]);
        }
        assert(log2[log.len() as int] == c);
    }
    if consistent_all(v, log, i) && constraint_holds(v, c, i) {
        assert forall|k: int| 0 <= k < log2.len() implies constraint_holds(
            v,
            #[trigger] log2[k],
            i,
        ) by {
            if k < log.len() {
                assert(log2[k] == log[k]);
            } else {
                assert(log2[k] == c);
            }
        }
    }
}

/// A word that satisfies the whole log satisfies the log with one word's
/// constraint removed: removal only widens.
pub proof fn lemma_consistent_remove(v: Vocabulary, log: Seq<Constraint>, w: int, i: int)
    requires
        consistent_all(v, log, i),
    ensures
        consistent_all(v, remove_word(log, w), i),
{
    let sub = remove_word(log, w);
    assert forall|k: int| 0 <= k < sub.len() implies constraint_holds(v, #[trigger] sub[k], i) by {
        lemma_filter_elems(log, |c: Constraint| c.word != w, k);
        let j = choose|j: int| 0 <= j < log.len() && log[j] == sub[k];
        assert(constraint_holds(v, log[j], i));
    }
}

/// Narrowing a candidate list by one new constraint gives exactly the
/// candidate list of the extended log: filtering is an intersection, so
/// the incremental step agrees with a full recomputation.
pub proof fn lemma_narrow_is_recompute(v: Vocabulary, log: Seq<Constraint>, c: Constraint, n: nat)
    requires
        n <= usize::MAX,
    ensures
        cand_seq(v, log, n).filter(|u: usize| constraint_holds(v, c, u as int)) == cand_seq(
            v,
            log.push(c),
            n,
        ),
    decreases n,
{
    let pred = |u: usize| constraint_holds(v, c, u as int);
    if n == 0 {
        reveal_with_fuel(Seq::filter, 2);
        assert(cand_seq(v, log, 0).filter(pred) =~= cand_seq(v, log.push(c), 0));
    } else {
        lemma_narrow_is_recompute(v, log, c, (n - 1) as nat);
        lemma_consistent_push(v, log, c, n - 1);
        let prefix = cand_seq(v, log, (n - 1) as nat);
        if consistent_all(v, log, n - 1) {
            lemma_filter_push(prefix, (n - 1) as usize, pred);
        }
    }
}

/// Re-running the candidate filter on its own output with the same log
/// changes nothing: the filter is idempotent.
pub proof fn lemma_filter_idempotent(v: Vocabulary, log: Seq<Constraint>, n: nat)
    requires
        n <= usize::MAX,
    ensures
        cand_seq(v, log, n).filter(|u: usize| consistent_all(v, log, u as int)) == cand_seq(
            v,
            log,
            n,
        ),
    decreases n,
{
    let pred = |u: usize| consistent_all(v, log, u as int);
    if n == 0 {
        reveal_with_fuel(Seq::filter, 2);
        assert(cand_seq(v, log, 0).filter(pred) =~= cand_seq(v, log, 0));
    } else {
        lemma_filter_idempotent(v, log, (n - 1) as nat);
        let prefix = cand_seq(v, log, (n - 1) as nat);
        if consistent_all(v, log, n - 1) {
            lemma_filter_push(prefix, (n - 1) as usize, pred);
        }
    }
}

/// Adding a constraint never enlarges the candidate list.
pub proof fn lemma_add_never_grows(v: Vocabulary, log: Seq<Constraint>, c: Constraint, n: nat)
    ensures
        cand_seq(v, log.push(c), n).len() <= cand_seq(v, log, n).len(),
{
    assert forall|i: int|
        0 <= i < n && consistent_all(v, log.push(c), i) implies consistent_all(v, log, i) by {
        lemma_consistent_push(v, log, c, i);
    }
    lemma_cand_seq_narrower(v, log, log.push(c), n);
}

/// Removing a word's constraint never shrinks the candidate list.
pub proof fn lemma_remove_never_shrinks(v: Vocabulary, log: Seq<Constraint>, w: int, n: nat)
    ensures
        cand_seq(v, log, n).len() <= cand_seq(v, remove_word(log, w), n).len(),
{
    assert forall|i: int|
        0 <= i < n && consistent_all(v, log, i) implies consistent_all(
        v,
        remove_word(log, w),
        i,
    ) by {
        lemma_consistent_remove(v, log, w, i);
    }
    lemma_cand_seq_narrower(v, remove_word(log, w), log, n);
}

/// With no constraints, every vocabulary word is a candidate.
pub proof fn lemma_empty_log_full(v: Vocabulary, n: nat)
    requires
        n <= usize::MAX,
    ensures
        cand_seq(v, Seq::<Constraint>::empty(), n).len() == n,
    decreases n,
{
    if n > 0 {
        lemma_empty_log_full(v, (n - 1) as nat);
    }
}

/// Adding a constraint on a fresh word and then removing that word
/// restores the candidate list exactly as it was before the addition.
pub proof fn lemma_add_remove_round_trip(
    v: Vocabulary,
    log: Seq<Constraint>,
    c: Constraint,
    n: nat,
)
    requires
        !crate::constraints::log_has_word(log, c.word as int),
    ensures
        cand_seq(v, remove_word(log.push(c), c.word as int), n) == cand_seq(v, log, n),
{
    crate::constraints::lemma_remove_after_add(log, c);
}

/// Editing a just-added constraint to a new value leaves the same
/// candidate list as if the new value had been added in the first place.
pub proof fn lemma_edit_equals_direct_add(
    v: Vocabulary,
    log: Seq<Constraint>,
    w: usize,
    t1: i64,
    t2: i64,
    n: nat,
)
    requires
        !crate::constraints::log_has_word(log, w as int),
    ensures
        cand_seq(
            v,
            crate::constraints::edit_word(log.push(Constraint { word: w, target: t1 }), w as int, t2),
            n,
        ) == cand_seq(v, log.push(Constraint { word: w, target: t2 }), n),
{
    crate::constraints::lemma_edit_after_add(log, w, t1, t2);
}

/// Decides whether word `i` satisfies every constraint in the log.
pub fn word_consistent_all(v: &Vocabulary, log: &Vec<Constraint>, i: usize) -> (r: bool)
    requires
        v.wf(),
        log_wf(*v, log@),
        i < v.len(),
    ensures
        r == consistent_all(*v, log@, i as int),
{
    let m = log.len();
    let mut k: usize = 0;
    while k < m
        invariant
            k <= m,
            m == log@.len(),
            v.wf(),
            log_wf(*v, log@),
            i < v.len(),
            forall|j: int| 0 <= j < k ==> constraint_holds(*v, #[trigger] log@[j], i as int),
        decreases m - k,
    {
        let c = log[k];
        proof {
            assert(c == log@[k as int]);
            assert(v.vec(c.word as int).len() == v.dim);
            assert(v.vec(i as int).len() == v.dim);
        }
        if !is_consistent(&v.vecs[c.word], &v.vecs[i], c.target) {
            return false;
        }
        k = k + 1;
    }
    true
}

/// Recomputes the candidate list from the full vocabulary and the whole
/// log: exactly the words consistent with every constraint, in order.
pub fn recompute_candidates(v: &Vocabulary, log: &Vec<Constraint>) -> (r: Vec<usize>)
    requires
        v.wf(),
        log_wf(*v, log@),
    ensures
        r@ == cand_seq(*v, log@, v.len()),
{
    let n = v.words.len();
    let mut out: Vec<usize> = Vec::new();
    let mut i: usize = 0;
    while i < n
        invariant
            i <= n,
            n == v.len(),
            v.wf(),
            log_wf(*v, log@),
            out@ == cand_seq(*v, log@, i as nat),
        decreases n - i,
    {
        if word_consistent_all(v, log, i) {
            out.push(i);
        }
        i = i + 1;
    }
    out
}

/// Narrows a candidate list by one new constraint, keeping exactly the
/// entries consistent with it; used when a constraint is added.
pub fn narrow_candidates(v: &Vocabulary, cands: &Vec<usize>, c: Constraint) -> (r: Vec<usize>)
    requires
        v.wf(),
        c.word < v.len(),
        -crate::sim::MAX_TARGET <= c.target <= crate::sim::MAX_TARGET,
        forall|k: int| 0 <= k < cands@.len() ==> (#[trigger] cands@[k]) < v.len(),
    ensures
        r@ == cands@.filter(|u: usize| constraint_holds(*v, c, u as int)),
{
    let ghost pred = |u: usize| constraint_holds(*v, c, u as int);
    let m = cands.len();
    let mut out: Vec<usize> = Vec::new();
    let mut k: usize = 0;
    proof {
        reveal_with_fuel(Seq::filter, 2);
        assert(cands@.take(0).filter(pred) =~= Seq::<usize>::empty());
    }
    while k < m
        invariant
            k <= m,
            m == cands@.len(),
            v.wf(),
            c.word < v.len(),
            -crate::sim::MAX_TARGET <= c.target <= crate::sim::MAX_TARGET,
            forall|j: int| 0 <= j < cands@.len() ==> (#[trigger] cands@[j]) < v.len(),
            out@ == cands@.take(k as int).filter(pred),
            pred == (|u: usize| constraint_holds(*v, c, u as int)),
        decreases m - k,
    {
        let u = cands[k];
        proof {
            assert(cands@.take(k + 1) =~= cands@.take(k as int).push(cands@[k as int]));
            lemma_filter_push(cands@.take(k as int), cands@[k as int], pred);
            assert(v.vec(c.word as int).len() == v.dim);
            assert(v.vec(u as int).len() == v.dim);
        }
        if is_consistent(&v.vecs[c.word], &v.vecs[u], c.target) {
            out.push(u);
        }
        k = k + 1;
    }
    proof {
        assert(cands@.take(m as int) =~= cands@);
    }
    out
}

} // verus!
