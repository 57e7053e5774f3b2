//! The guess advisor: proposes the candidate word that best discriminates
//! the remaining candidates, measured by how many distinct similarity
//! buckets it produces against them — a cheap proxy for information gain.

use vstd::prelude::*;

use itertools::Itertools;

use crate::rank::spec_score_of;
use crate::sim::dot_product;
use crate::sim::score_of_dot;
use crate::solver::SolverSession;
use crate::vocab::Vocabulary;

verus! {

/// What the advisor proposes.
#[derive(Clone, Copy, Debug, PartialEq, Eq)]
pub enum Advice {
    /// No observation yet: open with the fixed bootstrap word.
    Bootstrap,
    /// No vocabulary word is consistent with the log.
    NoCandidates,
    /// The candidate at this vocabulary index discriminates best.
    Best(usize),
}

/// The fixed first guess proposed before any observation exists.
pub fn bootstrap_word() -> (r: &'static str)
    ensures
        r@ == "eget"@,
{
    "eget"
}

/// The similarity buckets candidate `w` produces against the candidate
/// list: one rounded score per candidate.
pub open spec fn bucket_seq(v: Vocabulary, cands: Seq<usize>, w: int) -> Seq<i64> {
    cands.map_values(|d: usize| spec_score_of(v, w, d as int) as i64)
}

/// How finely candidate `w` separates the candidates: the number of
/// distinct similarity buckets it produces against them.
pub open spec fn distinct_score(v: Vocabulary, cands: Seq<usize>, w: int) -> nat {
    bucket_seq(v, cands, w).to_set().len()
}

/// Relies on itertools' `unique`: iterating a vector through it yields
/// each distinct value once, so the count is the size of the set of the
/// vector's elements.
#[verifier::external_body]
fn distinct_count(xs: &Vec<i64>) -> (r: usize)
    ensures
        r == xs@.to_set().len(),
{
    xs.iter().unique().count()
}

/// Computes the similarity buckets of candidate `w` against every
/// candidate in the list.
fn buckets_of(v: &Vocabulary, cands: &Vec<usize>, w: usize) -> (r: Vec<i64>)
    requires
        v.wf(),
        w < v.len(),
        forall|k: int| 0 <= k < cands@.len() ==> (#[trigger] cands@[k]) < v.len(),
    ensures
        r@ == bucket_seq(*v, cands@, w as int),
{
    let m = cands.len();
    let mut out: Vec<i64> = Vec::new();
    let mut t: usize = 0;
    while t < m
        invariant
            t <= m,
            m == cands@.len(),
            v.wf(),
            w < v.len(),
            forall|k: int| 0 <= k < cands@.len() ==> (#[trigger] cands@[k]) < v.len(),
            out@.len() == t,
            forall|k: int|
                0 <= k < t ==> out@[k] == spec_score_of(*v, w as int, cands@[k] as int) as i64,
        decreases m - t,
    {
        let d = cands[t];
        proof {
            assert(v.vec(w as int).len() == v.dim);
            assert(v.vec(d as int).len() == v.dim);
        }
        let dot = dot_product(&v.vecs[w], &v.vecs[d]);
        out.push(score_of_dot(dot));
        t = t + 1;
    }
    proof {
        assert(out@ =~= bucket_seq(*v, cands@, w as int));
    }
    out
}

/// Proposes the next guess for a solver session.
///
/// With an empty log it short-circuits to the fixed bootstrap word; with
/// no candidate left it says so; otherwise it proposes the first
/// candidate (in vocabulary order) whose distinct-bucket count is
/// maximal among the candidates.
pub fn find_best(s: &SolverSession) -> (r: Advice)
    requires
        s.wf(),
    ensures
        match r {
            Advice::Bootstrap => s.log@.len() == 0,
            Advice::NoCandidates => s.log@.len() > 0 && s.candidates@.len() == 0,
            Advice::Best(w) => {
                &&& s.log@.len() > 0
                &&& exists|p: int|
                    {
                        &&& 0 <= p < s.candidates@.len()
                        &&& s.candidates@[p] == w
                        &&& forall|q: int|
                            0 <= q < s.candidates@.len() ==> distinct_score(
                                s.vocab,
                                s.candidates@,
                                #[trigger] s.candidates@[q] as int,
                            ) <= distinct_score(s.vocab, s.candidates@, w as int)
                        &&& forall|q: int|
                            0 <= q < p ==> distinct_score(
                                s.vocab,
                                s.candidates@,
                                #[trigger] s.candidates@[q] as int,
                            ) < distinct_score(s.vocab, s.candidates@, w as int)
                    }
            },
        },
{
    if s.log.len() == 0 {
        return Advice::Bootstrap;
    }
    let m = s.candidates.len();
    if m == 0 {
        return Advice::NoCandidates;
    }
    let n = s.vocab.words.len();
    proof {
        assert(s.vocab.len() == n);
        crate::filter::lemma_cand_seq_elems(s.vocab, s.log@, s.vocab.len());
    }
    let mut best_w = s.candidates[0];
    let buckets0 = buckets_of(&s.vocab, &s.candidates, best_w);
    let mut best_ds = distinct_count(&buckets0);
    let ghost mut bp: int = 0;
    let mut q: usize = 1;
    while q < m
        invariant
            1 <= q <= m,
            m == s.candidates@.len(),
            s.wf(),
            forall|k: int| 0 <= k < s.candidates@.len() ==> (#[trigger] s.candidates@[k]) < s.vocab.len(),
            0 <= bp < q,
            s.candidates@[bp] == best_w,
            best_ds == distinct_score(s.vocab, s.candidates@, best_w as int),
            forall|j: int|
                0 <= j < q ==> distinct_score(
                    s.vocab,
                    s.candidates@,
                    #[trigger] s.candidates@[j] as int,
                ) <= best_ds,
            forall|j: int|
                0 <= j < bp ==> distinct_score(
                    s.vocab,
                    s.candidates@,
                    #[trigger] s.candidates@[j] as int,
                ) < best_ds,
        decreases m - q,
    {
        let w = s.candidates[q];
        let buckets = buckets_of(&s.vocab, &s.candidates, w);
        let ds = distinct_count(&buckets);
        if ds > best_ds {
            best_w = w;
            best_ds = ds;
            proof {
                bp = q as int;
            }
        }
        q = q + 1;
    }
    Advice::Best(best_w)
}

} // verus!
