use semantle_core::advisor::bootstrap_word;
use semantle_core::advisor::find_best;
use semantle_core::advisor::Advice;
use semantle_core::game::GameState;
use semantle_core::game::GuessOutcome;
use semantle_core::rank::rank_all;
use semantle_core::rank::rank_of;
use semantle_core::rank::rank_others;
use semantle_core::rank::truncate_entries;
use semantle_core::solver::SolverSession;
use semantle_core::vocab::Vocabulary;

// The scenario vocabulary: pre-normalized vectors scaled by 10^4.
//   cat: [1.0, 0.0]   dog: [0.9, 0.1]   car: [0.0, 1.0]
fn scenario_vocab() -> Vocabulary {
    let mut v = Vocabulary::new(2);
    v.push("cat".to_string(), vec![10_000, 0]);
    v.push("dog".to_string(), vec![9_000, 1_000]);
    v.push("car".to_string(), vec![0, 10_000]);
    v
}

#[test]
fn reference_ranks_itself_first() {
    // Exactly unit-length vectors: every word's self-similarity strictly
    // beats its similarity to any other word, so each ranks itself at
    // rank index 0.  (A vector of less than unit length can rank below
    // another word even against itself.)
    let mut v = Vocabulary::new(2);
    v.push("east".to_string(), vec![10_000, 0]);
    v.push("uphill".to_string(), vec![6_000, 8_000]);
    v.push("north".to_string(), vec![0, 10_000]);
    for w in 0..3 {
        let table = rank_all(&v, w);
        assert_eq!(table.len(), 3);
        assert_eq!(table[0].idx, w);
    }
}

#[test]
fn ranking_is_sorted_and_complete() {
    let v = scenario_vocab();
    let table = rank_all(&v, 0);
    assert_eq!(table[0].idx, 0);
    assert_eq!(table[0].score, 10_000);
    assert_eq!(table[1].idx, 1);
    assert_eq!(table[1].score, 9_000);
    assert_eq!(table[2].idx, 2);
    assert_eq!(table[2].score, 0);
}

#[test]
fn neighbor_query_excludes_reference() {
    let v = scenario_vocab();
    let mut others = rank_others(&v, 0);
    assert_eq!(others.len(), 2);
    assert_eq!(others[0].idx, 1);
    assert_eq!(others[0].score, 9_000);
    assert_eq!(others[1].idx, 2);
    truncate_entries(&mut others, 1);
    assert_eq!(others.len(), 1);
    assert_eq!(others[0].idx, 1);
}

#[test]
fn rank_lookup_finds_first_position() {
    let v = scenario_vocab();
    let table = rank_all(&v, 0);
    assert_eq!(rank_of(&table, 1), Some(1));
    assert_eq!(rank_of(&table, 2), Some(2));
    assert_eq!(rank_of(&table, 9), None);
}

#[test]
fn tied_scores_keep_every_word_ranked() {
    // Two words at the same similarity to the reference: both appear,
    // in adjacent positions, with equal scores.
    let mut v = Vocabulary::new(2);
    v.push("mid".to_string(), vec![10_000, 0]);
    v.push("up".to_string(), vec![5_000, 1_000]);
    v.push("down".to_string(), vec![5_000, -1_000]);
    let table = rank_all(&v, 0);
    assert_eq!(table.len(), 3);
    assert_eq!(table[0].idx, 0);
    assert_eq!(table[1].score, 5_000);
    assert_eq!(table[2].score, 5_000);
    let mut seen = vec![table[1].idx, table[2].idx];
    seen.sort();
    assert_eq!(seen, vec![1, 2]);
}

#[test]
fn scenario_guess_dog_then_win() {
    // Secret "cat": dog scores 90.00 (centi-percent 9000) at rank 1.
    let mut g = GameState::with_secret(scenario_vocab(), 0);
    match g.process_guess(&"dog".to_string()) {
        GuessOutcome::New { record } => {
            assert_eq!(record.number, 1);
            assert_eq!(record.word, 1);
            assert_eq!(record.score, 9_000);
            assert_eq!(record.rank, 1);
        },
        other => panic!("expected a new record, got {:?}", other),
    }
    match g.process_guess(&"cat".to_string()) {
        GuessOutcome::Won { count } => assert_eq!(count, 2),
        other => panic!("expected a win, got {:?}", other),
    }
}

#[test]
fn scenario_immediate_win_counts_one() {
    let mut g = GameState::with_secret(scenario_vocab(), 0);
    match g.process_guess(&"cat".to_string()) {
        GuessOutcome::Won { count } => assert_eq!(count, 1),
        other => panic!("expected a win, got {:?}", other),
    }
}

#[test]
fn scenario_unknown_word_changes_nothing() {
    let mut g = GameState::with_secret(scenario_vocab(), 0);
    assert!(matches!(g.process_guess(&"xyz".to_string()), GuessOutcome::Unknown));
    assert_eq!(g.guess_count, 0);
    assert_eq!(g.history.len(), 0);
    assert!(!g.won);
}

#[test]
fn repeated_guess_reuses_record() {
    let mut g = GameState::with_secret(scenario_vocab(), 0);
    let first = match g.process_guess(&"dog".to_string()) {
        GuessOutcome::New { record } => record,
        other => panic!("expected a new record, got {:?}", other),
    };
    match g.process_guess(&"dog".to_string()) {
        GuessOutcome::Repeat { record } => assert_eq!(record, first),
        other => panic!("expected a repeat, got {:?}", other),
    }
    assert_eq!(g.guess_count, 1);
    assert_eq!(g.history.len(), 1);
}

#[test]
fn hints_climb_toward_the_secret() {
    let mut g = GameState::with_secret(scenario_vocab(), 0);
    // No guess yet: the hint is the least similar word, car.
    assert_eq!(g.hint(), Some(2));
    assert!(matches!(g.process_guess(&"car".to_string()), GuessOutcome::New { .. }));
    // Best reached rank is 2, so the next hint is rank 1: dog.
    assert_eq!(g.hint(), Some(1));
    assert!(matches!(g.process_guess(&"dog".to_string()), GuessOutcome::New { .. }));
    // Rank 0 is the secret itself, which a hint never reveals.
    assert_eq!(g.hint(), None);
}

#[test]
fn random_game_starts_clean() {
    let g = GameState::start(scenario_vocab());
    assert!(g.secret < 3);
    assert_eq!(g.guess_count, 0);
    assert_eq!(g.history.len(), 0);
    assert_eq!(g.table.len(), 3);
}

#[test]
fn advisor_bootstraps_on_empty_log() {
    let s = SolverSession::new(scenario_vocab());
    assert_eq!(find_best(&s), Advice::Bootstrap);
    assert_eq!(bootstrap_word(), "eget");
}

#[test]
fn advisor_reports_empty_candidates() {
    let mut s = SolverSession::new(scenario_vocab());
    assert_eq!(s.add(&"cat".to_string(), 100_000), Ok(()));
    assert_eq!(s.edit(&"cat".to_string(), 50_000), Ok(()));
    assert_eq!(s.candidates.len(), 0);
    assert_eq!(find_best(&s), Advice::NoCandidates);
}

#[test]
fn advisor_picks_best_discriminator() {
    // Constrain to dog's observed similarity of 90%: only cat remains.
    let mut s = SolverSession::new(scenario_vocab());
    assert_eq!(s.add(&"dog".to_string(), 90_000), Ok(()));
    assert_eq!(s.candidates, vec![0]);
    assert_eq!(find_best(&s), Advice::Best(0));
}

#[test]
fn advisor_separates_more_buckets() {
    // Three candidates share their similarity to the constrained word,
    // but "b" separates them into three distinct buckets while "a"
    // produces only one: the advisor proposes "b", the first maximum.
    let mut v = Vocabulary::new(2);
    v.push("q".to_string(), vec![10_000, 0]);
    v.push("a".to_string(), vec![5_000, 0]);
    v.push("b".to_string(), vec![5_000, 1_000]);
    v.push("c".to_string(), vec![5_000, -1_000]);
    let mut s = SolverSession::new(v);
    assert_eq!(s.add(&"q".to_string(), 50_000), Ok(()));
    assert_eq!(s.candidates, vec![1, 2, 3]);
    // Distinct buckets: a -> {2500}; b -> {2500, 2600, 2400};
    // c -> {2500, 2400, 2600}.  First maximum: b.
    assert_eq!(find_best(&s), Advice::Best(2));
}
