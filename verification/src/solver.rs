//! The solver session: the constraint log and the working candidate set,
//! mutated together by the add / edit / remove operations so that the
//! candidate list always equals a full recomputation from the vocabulary.

use vstd::prelude::*;

use crate::constraints::edit_word;
use crate::constraints::lemma_edit_word_wf;
use crate::constraints::lemma_filter_push;
use crate::constraints::lemma_remove_word_wf;
use crate::constraints::log_has_word;
use crate::constraints::log_wf;
use crate::constraints::remove_word;
use crate::constraints::Constraint;
use crate::filter::cand_seq;
use crate::filter::constraint_holds;
use crate::filter::lemma_cand_seq_elems;
use crate::filter::lemma_empty_log_full;
use crate::filter::lemma_narrow_is_recompute;
use crate::filter::narrow_candidates;
use crate::filter::recompute_candidates;
use crate::sim::MAX_TARGET;
use crate::vocab::Vocabulary;
use crate::SolverError;

verus! {

/// A solver session: the immutable vocabulary, the constraint log in
/// insertion order, and the working candidate set derived from them.
pub struct SolverSession {
    pub vocab: Vocabulary,
    pub log: Vec<Constraint>,
    pub candidates: Vec<usize>,
}

impl SolverSession {
    /// Well-formedness: the log is valid for the vocabulary and the
    /// candidate list is exactly what recomputing from the full
    /// vocabulary under the current log yields.
    pub open spec fn wf(self) -> bool {
        &&& self.vocab.wf()
        &&& log_wf(self.vocab, self.log@)
        &&& self.candidates@ == cand_seq(self.vocab, self.log@, self.vocab.len())
    }

    /// Starts a session: empty log, every vocabulary word a candidate.
    pub fn new(vocab: Vocabulary) -> (r: SolverSession)
        requires
            vocab.wf(),
        ensures
            r.wf(),
            r.vocab == vocab,
            r.log@ == Seq::<Constraint>::empty(),
            r.candidates@.len() == vocab.len(),
    {
        let log: Vec<Constraint> = Vec::new();
        let n = vocab.words.len();
        let candidates = recompute_candidates(&vocab, &log);
        proof {
            assert(vocab.len() == n);
            lemma_empty_log_full(vocab, vocab.len());
        }
        SolverSession { vocab, log, candidates }
    }

    /// Looks for the log entry on vocabulary index `w`.
    fn log_position(&self, w: usize) -> (r: Option<usize>)
        ensures
            match r {
                Some(k) => k < self.log@.len() && self.log@[k as int].word == w,
                None => !log_has_word(self.log@, w as int),
            },
    {
        let m = self.log.len();
        let mut k: usize = 0;
        while k < m
            invariant
                k <= m,
                m == self.log@.len(),
                forall|j: int| 0 <= j < k ==> (#[trigger] self.log@[j]).word != w,
            decreases m - k,
        {
            if self.log[k].word == w {
                return Some(k);
            }
            k = k + 1;
        }
        None
    }

    /// Adds an observation: the vocabulary word `word` was declared to
    /// have similarity `target` (milli-percent) to the secret.  On
    /// success the new constraint is appended to the log and the working
    /// candidate set is narrowed by it alone — an incremental
    /// intersection that provably equals a full recomputation.
    ///
    /// Fails with `UnknownWord` exactly when the word is not in the
    /// vocabulary, with `MalformedInput` exactly when the value is off
    /// the declared scale, and with `DuplicateConstraint` exactly when
    /// the word already has a constraint; on failure nothing changes.
    pub fn add(&mut self, word: &String, target: i64) -> (r: Result<(), SolverError>)
        requires
            old(self).wf(),
        ensures
            final(self).wf(),
            final(self).vocab == old(self).vocab,
            match r {
                Ok(()) => {
                    &&& old(self).vocab.contains_word(word@)
                    &&& -MAX_TARGET <= target <= MAX_TARGET
                    &&& !log_has_word(old(self).log@, old(self).vocab.index_of(word@))
                    &&& final(self).log@ == old(self).log@.push(
                        Constraint {
                            word: old(self).vocab.index_of(word@) as usize,
                            target: target,
                        },
                    )
                    &&& final(self).candidates@.len() <= old(self).candidates@.len()
                },
                Err(SolverError::UnknownWord) => {
                    &&& !old(self).vocab.contains_word(word@)
                    &&& *final(self) == *old(self)
                },
                Err(SolverError::MalformedInput) => {
                    &&& old(self).vocab.contains_word(word@)
                    &&& !(-MAX_TARGET <= target <= MAX_TARGET)
                    &&& *final(self) == *old(self)
                },
                Err(SolverError::DuplicateConstraint) => {
                    &&& old(self).vocab.contains_word(word@)
                    &&& -MAX_TARGET <= target <= MAX_TARGET
                    &&& log_has_word(old(self).log@, old(self).vocab.index_of(word@))
                    &&& *final(self) == *old(self)
                },
                Err(_) => false,
            },
    {
        let i = match self.vocab.find_word(word) {
            None => {
                return Err(SolverError::UnknownWord);
            },
            Some(i) => i,
        };
        proof {
            self.vocab.lemma_index_of_unique(word@, i as int);
        }
        if target < -MAX_TARGET || target > MAX_TARGET {
            return Err(SolverError::MalformedInput);
        }
        if self.log_position(i).is_some() {
            return Err(SolverError::DuplicateConstraint);
        }
        let c = Constraint { word: i, target };
        let n = self.vocab.words.len();
        proof {
            assert(self.vocab.len() == n);
            lemma_cand_seq_elems(self.vocab, self.log@, self.vocab.len());
            lemma_narrow_is_recompute(self.vocab, self.log@, c, self.vocab.len());
        }
        let narrowed = narrow_candidates(&self.vocab, &self.candidates, c);
        self.candidates = narrowed;
        self.log.push(c);
        proof {
            crate::filter::lemma_add_never_grows(self.vocab, old(self).log@, c, self.vocab.len());
            assert forall|k1: int, k2: int|
                0 <= k1 < k2 < self.log@.len() implies self.log@[k1].word
                != self.log@[k2].word by {
                if k2 < self.log@.len() - 1 {
                    assert(old(self).log@[k1].word != old(self).log@[k2].word);
                }
            }
        }
        Ok(())
    }

    /// Replaces the declared similarity of an already-constrained word,
    /// keeping the log order, and recomputes the working candidate set
    /// from the full vocabulary (an edit is not monotonic).
    ///
    /// Fails with `UnknownWord` exactly when the word is not in the
    /// vocabulary, with `MalformedInput` exactly when the value is off
    /// the declared scale, and with `UnknownConstraint` exactly when the
    /// word has no constraint; on failure nothing changes.
    pub fn edit(&mut self, word: &String, target: i64) -> (r: Result<(), SolverError>)
        requires
            old(self).wf(),
        ensures
            final(self).wf(),
            final(self).vocab == old(self).vocab,
            match r {
                Ok(()) => {
                    &&& old(self).vocab.contains_word(word@)
                    &&& -MAX_TARGET <= target <= MAX_TARGET
                    &&& log_has_word(old(self).log@, old(self).vocab.index_of(word@))
                    &&& final(self).log@ == edit_word(
                        old(self).log@,
                        old(self).vocab.index_of(word@),
                        target,
                    )
                },
                Err(SolverError::UnknownWord) => {
                    &&& !old(self).vocab.contains_word(word@)
                    &&& *final(self) == *old(self)
                },
                Err(SolverError::MalformedInput) => {
                    &&& old(self).vocab.contains_word(word@)
                    &&& !(-MAX_TARGET <= target <= MAX_TARGET)
                    &&& *final(self) == *old(self)
                },
                Err(SolverError::UnknownConstraint) => {
                    &&& old(self).vocab.contains_word(word@)
                    &&& -MAX_TARGET <= target <= MAX_TARGET
                    &&& !log_has_word(old(self).log@, old(self).vocab.index_of(word@))
                    &&& *final(self) == *old(self)
                },
                Err(_) => false,
            },
    {
        let i = match self.vocab.find_word(word) {
            None => {
                return Err(SolverError::UnknownWord);
            },
            Some(i) => i,
        };
        proof {
            self.vocab.lemma_index_of_unique(word@, i as int);
        }
        if target < -MAX_TARGET || target > MAX_TARGET {
            return Err(SolverError::MalformedInput);
        }
        if self.log_position(i).is_none() {
            return Err(SolverError::UnknownConstraint);
        }
        let m = self.log.len();
        let mut edited: Vec<Constraint> = Vec::new();
        let mut k: usize = 0;
        while k < m
            invariant
                k <= m,
                m == self.log@.len(),
                edited@.len() == k,
                forall|j: int|
                    0 <= j < k ==> edited@[j] == edit_word(self.log@, i as int, target)[j],
            decreases m - k,
        {
            let c = self.log[k];
            if c.word == i {
                edited.push(Constraint { word: c.word, target });
            } else {
                edited.push(c);
            }
            k = k + 1;
        }
        proof {
            assert(edited@ =~= edit_word(self.log@, i as int, target));
            lemma_edit_word_wf(self.vocab, self.log@, i as int, target);
        }
        self.log = edited;
        let cands = recompute_candidates(&self.vocab, &self.log);
        self.candidates = cands;
        Ok(())
    }

    /// Removes a word's constraint, keeping the order of the rest, and
    /// recomputes the working candidate set from the full vocabulary
    /// (removal strictly widens, so narrowing cannot be reused).
    ///
    /// Fails with `UnknownWord` exactly when the word is not in the
    /// vocabulary, and with `UnknownConstraint` exactly when it has no
    /// constraint; on failure nothing changes.
    pub fn remove(&mut self, word: &String) -> (r: Result<(), SolverError>)
        requires
            old(self).wf(),
        ensures
            final(self).wf(),
            final(self).vocab == old(self).vocab,
            match r {
                Ok(()) => {
                    &&& old(self).vocab.contains_word(word@)
                    &&& log_has_word(old(self).log@, old(self).vocab.index_of(word@))
                    &&& final(self).log@ == remove_word(
                        old(self).log@,
                        old(self).vocab.index_of(word@),
                    )
                    &&& final(self).candidates@.len() >= old(self).candidates@.len()
                },
                Err(SolverError::UnknownWord) => {
                    &&& !old(self).vocab.contains_word(word@)
                    &&& *final(self) == *old(self)
                },
                Err(SolverError::UnknownConstraint) => {
                    &&& old(self).vocab.contains_word(word@)
                    &&& !log_has_word(old(self).log@, old(self).vocab.index_of(word@))
                    &&& *final(self) == *old(self)
                },
                Err(_) => false,
            },
    {
        let i = match self.vocab.find_word(word) {
            None => {
                return Err(SolverError::UnknownWord);
            },
            Some(i) => i,
        };
        proof {
            self.vocab.lemma_index_of_unique(word@, i as int);
        }
        if self.log_position(i).is_none() {
            return Err(SolverError::UnknownConstraint);
        }
        let ghost pred = |c: Constraint| c.word != i;
        let m = self.log.len();
        let mut kept: Vec<Constraint> = Vec::new();
        let mut k: usize = 0;
        proof {
            reveal_with_fuel(Seq::filter, 2);
            assert(self.log@.take(0).filter(pred) =~= Seq::<Constraint>::empty());
        }
        while k < m
            invariant
                k <= m,
                m == self.log@.len(),
                kept@ == self.log@.take(k as int).filter(pred),
                pred == (|c: Constraint| c.word != i),
            decreases m - k,
        {
            let c = self.log[k];
            proof {
                assert(self.log@.take(k + 1) =~= self.log@.take(k as int).push(
                    self.log@[k as int],
                ));
                lemma_filter_push(self.log@.take(k as int), self.log@[k as int], pred);
            }
            if c.word != i {
                kept.push(c);
            }
            k = k + 1;
        }
        proof {
            assert(self.log@.take(m as int) =~= self.log@);
            assert(kept@ == remove_word(self.log@, i as int));
            lemma_remove_word_wf(self.vocab, self.log@, i as int);
            crate::filter::lemma_remove_never_shrinks(
                self.vocab,
                self.log@,
                i as int,
                self.vocab.len(),
            );
        }
        self.log = kept;
        let cands = recompute_candidates(&self.vocab, &self.log);
        self.candidates = cands;
        Ok(())
    }
}

} // verus!
