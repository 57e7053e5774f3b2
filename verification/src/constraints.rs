//! The constraint log: an ordered sequence of (word, declared similarity)
//! observations, at most one per word, together with the edit and removal
//! operations on it and the laws they obey.

use vstd::prelude::*;

use crate::sim::MAX_TARGET;
use crate::vocab::Vocabulary;

verus! {

/// One observation: the word at vocabulary index `word` was declared to
/// have similarity `target` (in milli-percent) to the secret.
#[derive(Clone, Copy)]
pub struct Constraint {
    pub word: usize,
    pub target: i64,
}

/// A log is well-formed for a vocabulary when every constraint names a
/// vocabulary word, targets are on the declared scale, and no word
/// appears twice.
pub open spec fn log_wf(v: Vocabulary, log: Seq<Constraint>) -> bool {
    &&& forall|k: int| 0 <= k < log.len() ==> (#[trigger] log[k]).word < v.len()
    &&& forall|k: int|
        0 <= k < log.len() ==> -MAX_TARGET <= (#[trigger] log[k]).target <= MAX_TARGET
    &&& forall|k1: int, k2: int| 0 <= k1 < k2 < log.len() ==> log[k1].word != log[k2].word
}

/// Whether some constraint in the log names word index `w`.
pub open spec fn log_has_word(log: Seq<Constraint>, w: int) -> bool {
    exists|k: int| 0 <= k < log.len() && log[k].word == w
}

/// The log with every constraint on word index `w` removed
/// (at most one exists in a well-formed log); order is preserved.
pub open spec fn remove_word(log: Seq<Constraint>, w: int) -> Seq<Constraint> {
    log.filter(|c: Constraint| c.word != w)
}

/// The log with the constraint on word index `w` re-valued to `t`,
/// in place; order is preserved.
pub open spec fn edit_word(log: Seq<Constraint>, w: int, t: i64) -> Seq<Constraint> {
    log.map_values(
        |c: Constraint|
            if c.word == w {
                Constraint { word: c.word, target: t }
            } else {
                c
            },
    )
}

/// Filtering a sequence after appending one element keeps the element
/// exactly when it satisfies the predicate.
pub proof fn lemma_filter_push<A>(s: Seq<A>, x: A, pred: spec_fn(A) -> bool)
    ensures
        s.push(x).filter(pred) == if pred(x) {
            s.filter(pred).push(x)
        } else {
            s.filter(pred)
        },
{
    reveal_with_fuel(Seq::filter, 2);
    assert(s.push(x).drop_last() =~= s);
    assert(s.push(x).last() == x);
}

/// Every element of a filtered sequence occurs in the original.
pub proof fn lemma_filter_elems<A>(s: Seq<A>, pred: spec_fn(A) -> bool, k: int)
    requires
        0 <= k < s.filter(pred).len(),
    ensures
        s.contains(s.filter(pred)[k]),
    decreases s.len(),
{
    reveal_with_fuel(Seq::filter, 2);
    if s.len() > 0 {
        let sub = s.drop_last().filter(pred);
        if k < sub.len() {
            lemma_filter_elems(s.drop_last(), pred, k);
            assert(s.drop_last().contains(sub[k]));
            let j = choose|j: int| 0 <= j < s.drop_last().len() && s.drop_last()[j] == sub[k];
            assert(s[j] == s.filter(pred)[k]);
        } else {
            assert(s.filter(pred)[k] == s.last());
            assert(s[s.len() - 1] == s.last());
        }
    }
}

/// Adding a constraint on a fresh word and then removing that word
/// restores the log exactly.
pub proof fn lemma_remove_after_add(log: Seq<Constraint>, c: Constraint)
    requires
        !log_has_word(log, c.word as int),
    ensures
        remove_word(log.push(c), c.word as int) == log,
{
    let pred = |e: Constraint| e.word != c.word;
    lemma_filter_push(log, c, pred);
    lemma_filter_all(log, c.word as int);
}

/// Filtering out a word that the log does not mention leaves the log
/// unchanged.
pub proof fn lemma_filter_all(log: Seq<Constraint>, w: int)
    requires
        !log_has_word(log, w),
    ensures
        remove_word(log, w) == log,
    decreases log.len(),
{
    reveal_with_fuel(Seq::filter, 2);
    if log.len() > 0 {
        assert(!log_has_word(log.drop_last(), w)) by {
            assert forall|k: int|
                0 <= k < log.drop_last().len() implies log.drop_last()[k].word != w by {
                assert(log[k] == log.drop_last()[k]);
            }
        }
        lemma_filter_all(log.drop_last(), w);
        assert(log.last().word != w) by {
            assert(log[log.len() - 1] == log.last());
        }
        assert(remove_word(log, w) =~= log);
    } else {
        assert(remove_word(log, w) =~= log);
    }
}

/// Removing a word keeps the log well-formed, and afterwards the log no
/// longer mentions the word.
pub proof fn lemma_remove_word_wf(v: Vocabulary, log: Seq<Constraint>, w: int)
    requires
        log_wf(v, log),
    ensures
        log_wf(v, remove_word(log, w)),
        !log_has_word(remove_word(log, w), w),
{
    let pred = |c: Constraint| c.word != w;
    let sub = remove_word(log, w);
    assert forall|k: int| 0 <= k < sub.len() implies (#[trigger] sub[k]).word < v.len()
        && -MAX_TARGET <= sub[k].target <= MAX_TARGET && sub[k].word != w by {
        lemma_filter_elems(log, pred, k);
        let j = choose|j: int| 0 <= j < log.len() && log[j] == sub[k];
        assert(log[j] == sub[k]);
        log.lemma_filter_pred(pred, k);
    }
    assert forall|k1: int, k2: int| 0 <= k1 < k2 < sub.len() implies sub[k1].word
        != sub[k2].word by {
        lemma_filter_distinct_words(v, log, w, k1, k2);
    }
}

/// Positions of the filtered log hold constraints on distinct words.
proof fn lemma_filter_distinct_words(v: Vocabulary, log: Seq<Constraint>, w: int, k1: int, k2: int)
    requires
        log_wf(v, log),
        0 <= k1 < k2 < remove_word(log, w).len(),
    ensures
        remove_word(log, w)[k1].word != remove_word(log, w)[k2].word,
    decreases log.len(),
{
    reveal_with_fuel(Seq::filter, 2);
    let pred = |c: Constraint| c.word != w;
    let sub = remove_word(log, w);
    if log.len() > 0 {
        let prefix = log.drop_last().filter(pred);
        assert(log_wf(v, log.drop_last())) by {
            assert(forall|k: int|
                0 <= k < log.drop_last().len() ==> log.drop_last()[k] == log[k]);
        }
        if k2 < prefix.len() {
            lemma_filter_distinct_words(v, log.drop_last(), w, k1, k2);
        } else if pred(log.last()) && k2 == prefix.len() {
            assert(sub[k2] == log.last());
            lemma_filter_elems(log.drop_last(), pred, k1);
            let j = choose|j: int|
                0 <= j < log.drop_last().len() && log.drop_last()[j] == prefix[k1];
            assert(log[j] == sub[k1]);
            assert(log[j].word != log[log.len() - 1].word);
        }
    }
}

/// Editing one word's value keeps the log well-formed.
pub proof fn lemma_edit_word_wf(v: Vocabulary, log: Seq<Constraint>, w: int, t: i64)
    requires
        log_wf(v, log),
        -MAX_TARGET <= t <= MAX_TARGET,
    ensures
        log_wf(v, edit_word(log, w, t)),
{
    let out = edit_word(log, w, t);
    assert(forall|k: int| 0 <= k < out.len() ==> (#[trigger] out[k]).word == log[k].word);
}

/// Editing the value of a just-added constraint gives the same log as if
/// the new value had been added in the first place.
pub proof fn lemma_edit_after_add(log: Seq<Constraint>, w: usize, t1: i64, t2: i64)
    requires
        !log_has_word(log, w as int),
    ensures
        edit_word(log.push(Constraint { word: w, target: t1 }), w as int, t2)
            == log.push(Constraint { word: w, target: t2 }),
{
    let lhs = edit_word(log.push(Constraint { word: w, target: t1 }), w as int, t2);
    let rhs = log.push(Constraint { word: w, target: t2 });
    assert forall|k: int| 0 <= k < lhs.len() implies lhs[k] == rhs[k] by {
        if k < log.len() {
            assert(log[k].word != w);
        }
    }
    assert(lhs =~= rhs);
}

} // verus!
