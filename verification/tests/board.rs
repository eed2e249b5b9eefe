use ciphertools::language::Confidence;
use ciphertools::language::Language;
use ciphertools::ngrams::RankedNgrams;
use ciphertools::scoreboard::Manager;
use ciphertools::scoreboard::Scoreboard;

fn dummy_confidence() -> Confidence {
    let words = RankedNgrams::from_counts(Vec::new());
    let language = Language::new(words, Vec::new(), 0);
    Confidence::new(language, 1)
}

#[test]
fn scoreboard_keeps_the_best_two() {
    let mut board = Scoreboard::new(2, dummy_confidence());
    // insert scores 5, 3, 8, 1: only 3 and 1 survive
    board.insert_with_confidence("five".to_string(), "e".to_string(), 5);
    board.insert_with_confidence("three".to_string(), "c".to_string(), 3);
    board.insert_with_confidence("eight".to_string(), "h".to_string(), 8);
    board.insert_with_confidence("one".to_string(), "a".to_string(), 1);

    let kept = board.candidates();
    assert_eq!(kept.len(), 2);
    assert_eq!(kept[0].confidence, 1);
    assert_eq!(kept[1].confidence, 3);
    assert!(kept.iter().all(|c| c.confidence != 5 && c.confidence != 8));
    assert_eq!(kept[0].text, "one");
    assert_eq!(kept[0].key, "a");
}

#[test]
fn scoreboard_never_exceeds_capacity() {
    let mut board = Scoreboard::new(3, dummy_confidence());
    for i in 0..50u64 {
        let score = (i * 7919) % 101;
        board.insert_with_confidence(format!("t{}", i), format!("k{}", i), score);
        let kept = board.candidates();
        assert!(kept.len() <= 3);
        // ascending score order is kept at every step
        for w in kept.windows(2) {
            assert!(w[0].confidence <= w[1].confidence);
        }
    }
    // after fifty inserts the three smallest scores of the sequence remain
    let mut scores: Vec<u64> = (0..50u64).map(|i| (i * 7919) % 101).collect();
    scores.sort_unstable();
    let kept: Vec<u64> = board.candidates().iter().map(|c| c.confidence).collect();
    assert_eq!(kept, scores[..3].to_vec());
}

#[test]
fn scoreboard_ties_at_capacity_keep_the_incumbent() {
    let mut board = Scoreboard::new(1, dummy_confidence());
    board.insert_with_confidence("first".to_string(), "a".to_string(), 4);
    // an equal score does not displace the retained candidate
    board.insert_with_confidence("second".to_string(), "b".to_string(), 4);
    let kept = board.candidates();
    assert_eq!(kept.len(), 1);
    assert_eq!(kept[0].text, "first");
}

#[test]
fn manager_scores_with_its_own_model() {
    // the empty model scores everything as maximally implausible, so the
    // first candidates inserted fill the board and later ones tie-lose
    let mut manager = Manager::new(2, dummy_confidence());
    manager.insert("alpha".to_string(), "a".to_string());
    manager.insert("beta".to_string(), "b".to_string());
    manager.insert("gamma".to_string(), "c".to_string());
    let kept = manager.candidates();
    assert_eq!(kept.len(), 2);
    assert_eq!(kept[0].confidence, u64::MAX);
    assert_eq!(kept[0].text, "alpha");
    assert_eq!(kept[1].text, "beta");
}
