//! The game session: a secret word is drawn, the whole vocabulary is
//! ranked against it once, and each guess is scored against that rank
//! table until the secret is found.

use vstd::prelude::*;

use rand::RngExt;

use crate::rank::entries_wf;
use crate::rank::entry_of;
use crate::rank::rank_all;
use crate::rank::rank_of;
use crate::rank::sorted_desc;
use crate::rank::RankEntry;
use crate::vocab::Vocabulary;

verus! {

/// One recorded guess: its 1-based guess number, the guessed word, its
/// centi-percent score against the secret, and its rank index.
#[derive(Clone, Copy, Debug, PartialEq, Eq)]
pub struct GuessRecord {
    pub number: usize,
    pub word: usize,
    pub score: i64,
    pub rank: usize,
}

/// What processing one guess yielded.
#[derive(Clone, Copy, Debug, PartialEq, Eq)]
pub enum GuessOutcome {
    /// The guess was the secret; `count` guesses were used in all.
    Won { count: usize },
    /// A new valid guess, now recorded.
    New { record: GuessRecord },
    /// The word was already guessed; its original record, unchanged.
    Repeat { record: GuessRecord },
    /// The word is not in the vocabulary; nothing changed.
    Unknown,
}

/// The deepest rank depth reached by the recorded guesses: the maximum
/// of `n - rank` over the history, 0 when nothing is recorded.
pub open spec fn spec_best_depth(h: Seq<GuessRecord>, n: nat) -> int
    decreases h.len(),
{
    if h.len() == 0 {
        0
    } else {
        let rest = spec_best_depth(h.drop_last(), n);
        let d = n - h.last().rank;
        if d > rest {
            d
        } else {
            rest
        }
    }
}

/// A game in progress.
pub struct GameState {
    pub vocab: Vocabulary,
    pub secret: usize,
    pub table: Vec<RankEntry>,
    pub history: Vec<GuessRecord>,
    pub guess_count: usize,
    pub best_depth: usize,
    pub won: bool,
}

impl GameState {
    /// The record `rec` correctly scores word `rec.word` against this
    /// game's rank table: the rank is the word's first position in the
    /// table and the score is the one recorded there.
    pub open spec fn record_wf(self, rec: GuessRecord) -> bool {
        &&& rec.word < self.vocab.len()
        &&& rec.word != self.secret
        &&& rec.rank < self.table@.len()
        &&& self.table@[rec.rank as int].idx == rec.word
        &&& forall|j: int| 0 <= j < rec.rank ==> (#[trigger] self.table@[j]).idx != rec.word
        &&& rec.score == self.table@[rec.rank as int].score
    }

    /// Well-formedness: the rank table is the full vocabulary ranked
    /// against the secret; the history holds correctly scored records of
    /// distinct words, numbered 1, 2, ...; the guess count and the best
    /// reached depth follow the history.
    pub open spec fn wf(self) -> bool {
        &&& self.vocab.wf()
        &&& self.secret < self.vocab.len()
        &&& self.table@.len() == self.vocab.len()
        &&& sorted_desc(self.table@)
        &&& entries_wf(self.vocab, self.secret as int, self.table@)
        &&& forall|i: int|
            0 <= i < self.vocab.len() ==> self.table@.contains(
                entry_of(self.vocab, self.secret as int, i),
            )
        &&& forall|k1: int, k2: int|
            0 <= k1 < k2 < self.table@.len() ==> self.table@[k1].idx != self.table@[k2].idx
        &&& forall|k: int|
            0 <= k < self.history@.len() ==> self.record_wf(#[trigger] self.history@[k])
        &&& forall|k: int|
            0 <= k < self.history@.len() ==> (#[trigger] self.history@[k]).number == k + 1
        &&& forall|k1: int, k2: int|
            0 <= k1 < k2 < self.history@.len() ==> self.history@[k1].word
                != self.history@[k2].word
        &&& self.guess_count == self.history@.len() + if self.won {
            1int
        } else {
            0int
        }
        &&& self.best_depth == spec_best_depth(self.history@, self.vocab.len())
    }

    /// Starts a game with a chosen secret: ranks the whole vocabulary
    /// against it once; no guesses yet.
    pub fn with_secret(vocab: Vocabulary, secret: usize) -> (r: GameState)
        requires
            vocab.wf(),
            secret < vocab.len(),
        ensures
            r.wf(),
            r.vocab == vocab,
            r.secret == secret,
            r.history@.len() == 0,
            r.guess_count == 0,
            !r.won,
    {
        let table = rank_all(&vocab, secret);
        GameState {
            vocab,
            secret,
            table,
            history: Vec::new(),
            guess_count: 0,
            best_depth: 0,
            won: false,
        }
    }

    /// Starts a game with a uniformly drawn secret word.
    pub fn start(vocab: Vocabulary) -> (r: GameState)
        requires
            vocab.wf(),
            vocab.len() > 0,
        ensures
            r.wf(),
            r.vocab == vocab,
            r.history@.len() == 0,
            r.guess_count == 0,
            !r.won,
    {
        let n = vocab.words.len();
        let secret = random_below(n);
        Self::with_secret(vocab, secret)
    }

    /// Scores one guessed word.
    ///
    /// The secret wins and ends the game, counting as one more guess; an
    /// unknown word changes nothing; a word guessed before re-yields its
    /// original record and changes nothing; a new vocabulary word is
    /// recorded under the next guess number with its score and rank.
    pub fn process_guess(&mut self, word: &String) -> (r: GuessOutcome)
        requires
            old(self).wf(),
            !old(self).won,
            old(self).guess_count < usize::MAX,
        ensures
            final(self).wf(),
            final(self).vocab == old(self).vocab,
            final(self).secret == old(self).secret,
            final(self).table == old(self).table,
            match r {
                GuessOutcome::Won { count } => {
                    &&& old(self).vocab.contains_word(word@)
                    &&& old(self).vocab.index_of(word@) == old(self).secret
                    &&& count == old(self).guess_count + 1
                    &&& final(self).won
                    &&& final(self).guess_count == count
                    &&& final(self).history == old(self).history
                },
                GuessOutcome::Unknown => {
                    &&& !old(self).vocab.contains_word(word@)
                    &&& *final(self) == *old(self)
                },
                GuessOutcome::Repeat { record } => {
                    &&& old(self).vocab.contains_word(word@)
                    &&& record.word == old(self).vocab.index_of(word@)
                    &&& record.word != old(self).secret
                    &&& old(self).history@.contains(record)
                    &&& *final(self) == *old(self)
                },
                GuessOutcome::New { record } => {
                    &&& old(self).vocab.contains_word(word@)
                    &&& record.word == old(self).vocab.index_of(word@)
                    &&& record.word != old(self).secret
                    &&& forall|k: int|
                        0 <= k < old(self).history@.len() ==> (#[trigger] old(
                            self,
                        ).history@[k]).word != record.word
                    &&& record.number == old(self).guess_count + 1
                    &&& old(self).record_wf(record)
                    &&& final(self).history@ == old(self).history@.push(record)
                    &&& final(self).guess_count == old(self).guess_count + 1
                    &&& !final(self).won
                },
            },
    {
        let i = match self.vocab.find_word(word) {
            None => {
                return GuessOutcome::Unknown;
            },
            Some(i) => i,
        };
        proof {
            self.vocab.lemma_index_of_unique(word@, i as int);
        }
        if i == self.secret {
            self.guess_count = self.guess_count + 1;
            self.won = true;
            return GuessOutcome::Won { count: self.guess_count };
        }
        // A repeated guess re-yields its original record.
        let m = self.history.len();
        let mut k: usize = 0;
        while k < m
            invariant
                k <= m,
                m == self.history@.len(),
                *self == *old(self),
                self.wf(),
                !self.won,
                i < self.vocab.len(),
                self.vocab.word(i as int) == word@,
                self.vocab.index_of(word@) == i,
                i != self.secret,
                forall|j: int| 0 <= j < k ==> (#[trigger] self.history@[j]).word != i,
            decreases m - k,
        {
            if self.history[k].word == i {
                let record = self.history[k];
                proof {
                    assert(self.history@.contains(record));
                    assert(self.record_wf(record));
                }
                return GuessOutcome::Repeat { record };
            }
            k = k + 1;
        }
        // A new guess: look it up in the rank table and record it.
        let rank = match rank_of(&self.table, i) {
            Some(rank) => rank,
            None => {
                // The table ranks every vocabulary word, so the lookup
                // cannot miss.
                proof {
                    let e = entry_of(self.vocab, self.secret as int, i as int);
                    assert(self.table@.contains(e));
                    let j = choose|j: int| 0 <= j < self.table@.len() && self.table@[j] == e;
                    assert(self.table@[j].idx == i);
                    assert(false);
                }
                return GuessOutcome::Unknown;
            },
        };
        let score = self.table[rank].score;
        self.guess_count = self.guess_count + 1;
        let record = GuessRecord { number: self.guess_count, word: i, score, rank };
        let ghost prev = self.history@;
        self.history.push(record);
        let n = self.vocab.words.len();
        proof {
            assert(rank < n);
        }
        let depth = n - rank;
        if depth > self.best_depth {
            self.best_depth = depth;
        }
        proof {
            assert(self.history@.drop_last() =~= prev);
            assert(self.history@.last() == record);
            assert(self.best_depth == spec_best_depth(self.history@, self.vocab.len()));
            assert forall|kk: int|
                0 <= kk < self.history@.len() implies self.record_wf(
                #[trigger] self.history@[kk],
            ) && self.history@[kk].number == kk + 1 by {
                if kk < prev.len() {
                    assert(self.history@[kk] == prev[kk]);
                    assert(old(self).record_wf(prev[kk]));
                } else {
                    assert(self.history@[kk] == record);
                }
            }
            assert forall|k1: int, k2: int|
                0 <= k1 < k2 < self.history@.len() implies self.history@[k1].word
                != self.history@[k2].word by {
                if k2 < prev.len() {
                    assert(old(self).history@[k1].word != old(self).history@[k2].word);
                } else {
                    assert(self.history@[k2] == record);
                    assert(prev[k1].word != i);
                }
            }
        }
        GuessOutcome::New { record }
    }

    /// The hint word: the next not-yet-surfaced word in descending
    /// similarity order, one rank better than the best the player has
    /// reached.  `None` when no rank is left above the best reached one
    /// or when the next word would be the secret itself, which a hint
    /// must never reveal.
    pub fn hint(&self) -> (r: Option<usize>)
        requires
            self.wf(),
        ensures
            match r {
                Some(i) => {
                    &&& self.vocab.len() - self.best_depth - 1 >= 0
                    &&& self.table@[self.vocab.len() - self.best_depth - 1].idx == i
                    &&& i != self.secret
                    &&& i < self.vocab.len()
                },
                None => self.vocab.len() - self.best_depth - 1 < 0 || self.table@[self.vocab.len()
                    - self.best_depth - 1].idx == self.secret,
            },
    {
        let n = self.vocab.words.len();
        if self.best_depth >= n {
            return None;
        }
        let k = n - self.best_depth - 1;
        let i = self.table[k].idx;
        if i == self.secret {
            None
        } else {
            proof {
                assert(self.table@[k as int].idx < self.vocab.len());
            }
            Some(i)
        }
    }
}

/// Guessing the hinted word moves the hint one rank closer to the
/// secret, so a hint, once taken, is never given again: the hinted word
/// sits at table position `n - best_depth - 1`, and recording it raises
/// `best_depth` by exactly one.
pub proof fn lemma_hint_never_repeats(s1: GameState, s2: GameState, rec: GuessRecord, i: usize)
    requires
        s1.wf(),
        s2.wf(),
        s1.best_depth < s1.vocab.len(),
        i == s1.table@[s1.vocab.len() - s1.best_depth - 1].idx,
        i != s1.secret,
        s2.vocab == s1.vocab,
        s2.secret == s1.secret,
        s2.table == s1.table,
        s2.history@ == s1.history@.push(rec),
        rec.word == i,
    ensures
        s2.best_depth == s1.best_depth + 1,
{
    let n = s1.vocab.len() as int;
    let k = n - s1.best_depth - 1;
    let last = s2.history@.len() - 1;
    assert(s2.history@[last] == rec);
    assert(s2.record_wf(rec));
    // The hinted word occurs only at position k, so the record's rank is k.
    if rec.rank < k {
        assert(s2.table@[rec.rank as int].idx != s2.table@[k].idx);
    } else if k < rec.rank {
        assert(s2.table@[k].idx != i);
    }
    assert(rec.rank == k);
    assert(s2.history@.drop_last() =~= s1.history@);
    assert(spec_best_depth(s2.history@, s2.vocab.len()) == if n - k
        > spec_best_depth(s1.history@, s1.vocab.len()) {
        n - k
    } else {
        spec_best_depth(s1.history@, s1.vocab.len())
    });
}

/// Relies on rand's thread-local generator: sampling `0..n` yields a
/// value below `n`.
#[verifier::external_body]
fn random_below(n: usize) -> (r: usize)
    requires
        n > 0,
    ensures
        r < n,
{
    rand::rng().random_range(0..n)
}

} // verus!
