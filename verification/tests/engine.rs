use semantle_core::filter::narrow_candidates;
use semantle_core::filter::recompute_candidates;
use semantle_core::sim::dot_product;
use semantle_core::sim::is_consistent;
use semantle_core::sim::score_of_dot;
use semantle_core::solver::SolverSession;
use semantle_core::vocab::Vocabulary;
use semantle_core::SolverError;

// The scenario vocabulary: pre-normalized vectors scaled by 10^4.
//   cat: [1.0, 0.0]   dog: [0.9, 0.1]   car: [0.0, 1.0]
fn scenario_vocab() -> Vocabulary {
    let mut v = Vocabulary::new(2);
    v.push("cat".to_string(), vec![10_000, 0]);
    v.push("dog".to_string(), vec![9_000, 1_000]);
    v.push("car".to_string(), vec![0, 10_000]);
    v
}

#[test]
fn dot_product_concrete() {
    let a = vec![10_000i64, 0];
    let b = vec![9_000i64, 1_000];
    assert_eq!(dot_product(&a, &b), 90_000_000);
}

#[test]
fn dot_product_commutes_concrete() {
    let a = vec![3i64, -4, 5];
    let b = vec![-7i64, 2, 9];
    assert_eq!(dot_product(&a, &b), dot_product(&b, &a));
    let c = vec![10_000i64, 0];
    let d = vec![0i64, 10_000];
    assert_eq!(dot_product(&c, &d), dot_product(&d, &c));
}

#[test]
fn score_rounds_half_away_from_zero() {
    assert_eq!(score_of_dot(90_000_000), 9_000);
    assert_eq!(score_of_dot(15_000), 2);
    assert_eq!(score_of_dot(14_999), 1);
    assert_eq!(score_of_dot(-15_000), -2);
    assert_eq!(score_of_dot(-14_999), -1);
    assert_eq!(score_of_dot(0), 0);
}

#[test]
fn consistency_window_is_half_open() {
    let cat = vec![10_000i64, 0];
    // Window for a declared 100%: dot in [10^8 - 5000, 10^8 + 5000).
    assert!(is_consistent(&cat, &cat, 100_000));
    let low = vec![9_999i64, 0]; // dot = 99_990_000, below the window
    assert!(!is_consistent(&cat, &low, 100_000));
    // Declared 99.99% (99_990 milli-percent): low edge included.
    assert!(is_consistent(&cat, &low, 99_990));
}

#[test]
fn vocabulary_lookup() {
    let v = scenario_vocab();
    assert_eq!(v.find_word(&"dog".to_string()), Some(1));
    assert_eq!(v.find_word(&"xyz".to_string()), None);
    assert!(v.vec_ok(&vec![1, 2]));
    assert!(!v.vec_ok(&vec![1, 2, 3]));
    assert!(!v.vec_ok(&vec![2_000_000, 0]));
}

#[test]
fn scenario_add_narrows_to_exact_match() {
    // Add("cat", 100) keeps only words within ±0.005 of 100%: cat alone.
    let mut s = SolverSession::new(scenario_vocab());
    assert_eq!(s.candidates, vec![0, 1, 2]);
    assert_eq!(s.add(&"cat".to_string(), 100_000), Ok(()));
    assert_eq!(s.candidates, vec![0]);
    // Remove("cat") restores the full vocabulary.
    assert_eq!(s.remove(&"cat".to_string()), Ok(()));
    assert_eq!(s.candidates, vec![0, 1, 2]);
}

#[test]
fn add_then_remove_restores_candidates() {
    let mut s = SolverSession::new(scenario_vocab());
    assert_eq!(s.add(&"dog".to_string(), 90_000), Ok(()));
    let before = s.candidates.clone();
    let log_before = s.log.clone();
    assert_eq!(s.add(&"car".to_string(), 10_000), Ok(()));
    assert_eq!(s.remove(&"car".to_string()), Ok(()));
    assert_eq!(s.candidates, before);
    assert_eq!(s.log.len(), log_before.len());
}

#[test]
fn edit_matches_direct_add() {
    let mut a = SolverSession::new(scenario_vocab());
    assert_eq!(a.add(&"dog".to_string(), 50_000), Ok(()));
    assert_eq!(a.edit(&"dog".to_string(), 90_000), Ok(()));
    let mut b = SolverSession::new(scenario_vocab());
    assert_eq!(b.add(&"dog".to_string(), 90_000), Ok(()));
    assert_eq!(a.candidates, b.candidates);
}

#[test]
fn adding_never_grows_removing_never_shrinks() {
    let mut s = SolverSession::new(scenario_vocab());
    let full = s.candidates.len();
    assert_eq!(s.add(&"dog".to_string(), 90_000), Ok(()));
    let narrowed = s.candidates.len();
    assert!(narrowed <= full);
    assert_eq!(s.add(&"car".to_string(), 0), Ok(()));
    assert!(s.candidates.len() <= narrowed);
    let before_remove = s.candidates.len();
    assert_eq!(s.remove(&"car".to_string()), Ok(()));
    assert!(s.candidates.len() >= before_remove);
}

#[test]
fn refiltering_own_output_is_stable() {
    let mut s = SolverSession::new(scenario_vocab());
    assert_eq!(s.add(&"dog".to_string(), 90_000), Ok(()));
    assert_eq!(s.add(&"cat".to_string(), 100_000), Ok(()));
    // A full recomputation from the vocabulary under the same log gives
    // back the working candidate set unchanged.
    let recomputed = recompute_candidates(&s.vocab, &s.log);
    assert_eq!(recomputed, s.candidates);
    // Narrowing the output again by an already-applied constraint also
    // changes nothing.
    let again = narrow_candidates(&s.vocab, &s.candidates, s.log[0]);
    assert_eq!(again, s.candidates);
}

#[test]
fn unknown_word_is_rejected() {
    let mut s = SolverSession::new(scenario_vocab());
    assert_eq!(s.add(&"xyz".to_string(), 10_000), Err(SolverError::UnknownWord));
    assert_eq!(s.edit(&"xyz".to_string(), 10_000), Err(SolverError::UnknownWord));
    assert_eq!(s.remove(&"xyz".to_string()), Err(SolverError::UnknownWord));
    assert_eq!(s.log.len(), 0);
    assert_eq!(s.candidates, vec![0, 1, 2]);
}

#[test]
fn duplicate_constraint_is_rejected() {
    let mut s = SolverSession::new(scenario_vocab());
    assert_eq!(s.add(&"dog".to_string(), 90_000), Ok(()));
    let before = s.candidates.clone();
    assert_eq!(s.add(&"dog".to_string(), 80_000), Err(SolverError::DuplicateConstraint));
    assert_eq!(s.candidates, before);
    assert_eq!(s.log.len(), 1);
    assert_eq!(s.log[0].target, 90_000);
}

#[test]
fn missing_constraint_is_rejected() {
    let mut s = SolverSession::new(scenario_vocab());
    assert_eq!(s.edit(&"dog".to_string(), 10_000), Err(SolverError::UnknownConstraint));
    assert_eq!(s.remove(&"dog".to_string()), Err(SolverError::UnknownConstraint));
    assert_eq!(s.log.len(), 0);
}

#[test]
fn out_of_scale_target_is_rejected() {
    let mut s = SolverSession::new(scenario_vocab());
    assert_eq!(s.add(&"dog".to_string(), 200_000), Err(SolverError::MalformedInput));
    assert_eq!(s.add(&"dog".to_string(), -200_000), Err(SolverError::MalformedInput));
    assert_eq!(s.add(&"dog".to_string(), 90_000), Ok(()));
    assert_eq!(s.edit(&"dog".to_string(), 100_001), Err(SolverError::MalformedInput));
    assert_eq!(s.log[0].target, 90_000);
}

#[test]
fn empty_vocabulary_has_no_candidates() {
    let s = SolverSession::new(Vocabulary::new(2));
    assert_eq!(s.candidates.len(), 0);
    assert_eq!(s.log.len(), 0);
}

#[test]
fn boundary_targets_are_accepted() {
    // The extreme declared similarities -100 and 100 are on the scale.
    let mut s = SolverSession::new(scenario_vocab());
    assert_eq!(s.add(&"dog".to_string(), 100_000), Ok(()));
    assert_eq!(s.edit(&"dog".to_string(), -100_000), Ok(()));
}

#[test]
fn log_keeps_insertion_order() {
    let mut s = SolverSession::new(scenario_vocab());
    assert_eq!(s.add(&"dog".to_string(), 90_000), Ok(()));
    assert_eq!(s.add(&"cat".to_string(), 100_000), Ok(()));
    assert_eq!(s.log[0].word, 1);
    assert_eq!(s.log[1].word, 0);
    assert_eq!(s.edit(&"dog".to_string(), 85_000), Ok(()));
    assert_eq!(s.log[0].word, 1);
    assert_eq!(s.log[0].target, 85_000);
    assert_eq!(s.log[1].word, 0);
}
