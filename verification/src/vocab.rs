//! The vocabulary: an immutable mapping from words to fixed-length
//! embedding vectors, loaded once at session start.

use vstd::prelude::*;

use crate::sim::comps_bounded;
use crate::MAX_DIM;

verus! {

/// The full set of known words and their embedding vectors.
///
/// Built once by repeated [`Vocabulary::push`] and read-only afterwards.
/// Words are unique, and every vector has exactly `dim` components, each
/// bounded by `MAX_COMP` in magnitude.
pub struct Vocabulary {
    pub words: Vec<String>,
    pub vecs: Vec<Vec<i64>>,
    pub dim: usize,
}

impl Vocabulary {
    /// Number of words.
    pub open spec fn len(self) -> nat {
        self.words@.len()
    }

    /// The word at index `i`, as a character sequence.
    pub open spec fn word(self, i: int) -> Seq<char> {
        self.words@[i]@
    }

    /// The embedding vector at index `i`.
    pub open spec fn vec(self, i: int) -> Seq<i64> {
        self.vecs@[i]@
    }

    /// Well-formedness: one vector per word, all vectors of length `dim`
    /// with bounded components, and no word listed twice.
    pub open spec fn wf(self) -> bool {
        &&& self.vecs@.len() == self.words@.len()
        &&& 0 < self.dim <= MAX_DIM
        &&& forall|i: int| 0 <= i < self.len() ==> (#[trigger] self.vec(i)).len() == self.dim
        &&& forall|i: int| 0 <= i < self.len() ==> comps_bounded(#[trigger] self.vec(i))
        &&& forall|i: int, j: int|
            0 <= i < j < self.len() ==> self.word(i) != self.word(j)
    }

    /// Whether some index holds the word `w`.
    pub open spec fn contains_word(self, w: Seq<char>) -> bool {
        exists|i: int| 0 <= i < self.len() && self.word(i) == w
    }

    /// The index of the word `w`; meaningful only when `contains_word(w)`
    /// holds, and then unique in a well-formed vocabulary.
    pub open spec fn index_of(self, w: Seq<char>) -> int {
        choose|i: int| 0 <= i < self.len() && self.word(i) == w
    }

    /// In a well-formed vocabulary an index holding `w` is the index of `w`.
    pub proof fn lemma_index_of_unique(self, w: Seq<char>, i: int)
        requires
            self.wf(),
            0 <= i < self.len(),
            self.word(i) == w,
        ensures
            self.index_of(w) == i,
    {
        assert(self.contains_word(w));
        let j = self.index_of(w);
        if i < j {
            assert(self.word(i) != self.word(j));
        } else if j < i {
            assert(self.word(j) != self.word(i));
        }
    }

    /// An empty vocabulary for vectors of length `dim`.
    pub fn new(dim: usize) -> (r: Vocabulary)
        requires
            0 < dim <= MAX_DIM,
        ensures
            r.wf(),
            r.len() == 0,
            r.dim == dim,
    {
        Vocabulary { words: Vec::new(), vecs: Vec::new(), dim }
    }

    /// Checks that `v` is acceptable as an embedding vector for this
    /// vocabulary: right length, all components bounded.
    pub fn vec_ok(&self, v: &Vec<i64>) -> (r: bool)
        ensures
            r == (v@.len() == self.dim && comps_bounded(v@)),
    {
        if v.len() != self.dim {
            return false;
        }
        let n = v.len();
        let mut i: usize = 0;
        while i < n
            invariant
                i <= n,
                n == v@.len(),
                forall|j: int| 0 <= j < i ==> -crate::MAX_COMP <= #[trigger] v@[j] <= crate::MAX_COMP,
            decreases n - i,
        {
            if v[i] < -crate::MAX_COMP || v[i] > crate::MAX_COMP {
                return false;
            }
            i = i + 1;
        }
        true
    }

    /// Finds the index of a word, or `None` if the word is unknown.
    pub fn find_word(&self, w: &String) -> (r: Option<usize>)
        ensures
            match r {
                Some(i) => i < self.len() && self.word(i as int) == w@,
                None => !self.contains_word(w@),
            },
    {
        let n = self.words.len();
        let mut i: usize = 0;
        while i < n
            invariant
                i <= n,
                n == self.words@.len(),
                forall|j: int| 0 <= j < i ==> self.word(j) != w@,
            decreases n - i,
        {
            if self.words[i] == *w {
                return Some(i);
            }
            i = i + 1;
        }
        None
    }

    /// Appends one (word, vector) pair.  The caller checks the vector with
    /// [`Vocabulary::vec_ok`] and the word with [`Vocabulary::find_word`]
    /// first; the embedding source is trusted to supply unique words.
    pub fn push(&mut self, word: String, v: Vec<i64>)
        requires
            old(self).wf(),
            v@.len() == old(self).dim,
            comps_bounded(v@),
            !old(self).contains_word(word@),
        ensures
            final(self).wf(),
            final(self).words@ == old(self).words@.push(word),
            final(self).vecs@.len() == old(self).vecs@.len() + 1,
            forall|i: int|
                0 <= i < old(self).len() ==> final(self).vec(i) == old(self).vec(i),
            final(self).vec(old(self).len() as int) == v@,
            final(self).dim == old(self).dim,
            final(self).len() == old(self).len() + 1,
    {
        let ghost prev = *self;
        self.words.push(word);
        self.vecs.push(v);
        proof {
            assert forall|i: int| 0 <= i < prev.len() implies self.vec(i) == prev.vec(i) by {
                assert(self.vecs@[i] == prev.vecs@[i]);
            }
            assert forall|i: int| 0 <= i < prev.len() implies self.word(i) == prev.word(i) by {
                assert(self.words@[i] == prev.words@[i]);
            }
            assert(self.vec(prev.len() as int) == v@);
            assert(self.word(prev.len() as int) == self.words@.last()@);
            assert forall|i: int| 0 <= i < self.len() implies (#[trigger] self.vec(i)).len()
                == self.dim by {
                if i < prev.len() {
                    assert(self.vec(i) == prev.vec(i));
                } else {
                    assert(self.vec(i) == v@);
                }
            }
            assert forall|i: int| 0 <= i < self.len() implies comps_bounded(
                #[trigger] self.vec(i),
            ) by {
                if i < prev.len() {
                    assert(self.vec(i) == prev.vec(i));
                } else {
                    assert(self.vec(i) == v@);
                }
            }
            assert forall|i: int, j: int| 0 <= i < j < self.len() implies self.word(i)
                != self.word(j) by {
                if j < prev.len() {
                    assert(prev.word(i) != prev.word(j));
                } else {
                    assert(j == prev.len());
                    assert(self.word(j) == word@);
                    assert(self.word(i) == prev.word(i));
                    if prev.word(i) == word@ {
                        assert(prev.contains_word(word@));
                        assert(false);
                    }
                }
            }
        }
    }

    /// The word at index `i`, for rendering.
    pub fn word_at(&self, i: usize) -> (r: &String)
        requires
            i < self.len(),
        ensures
            r@ == self.word(i as int),
    {
        &self.words[i]
    }
}

} // verus!
