use key_travel::scan::get_distance;
use key_travel::scan::scan_words;
use key_travel::scan::BestResult;
use key_travel::table::build_distance_map;

fn word(s: &str) -> Vec<char> {
    s.chars().collect()
}

#[test]
fn empty_word_scores_zero() {
    let table = build_distance_map();
    assert_eq!(get_distance(&table, &word("")), Some(0));
}

#[test]
fn single_character_word_scores_zero() {
    let table = build_distance_map();
    assert_eq!(get_distance(&table, &word("a")), Some(0));
    // A single unsupported character has no consecutive pair to look up,
    // so it still scores zero.
    assert_eq!(get_distance(&table, &word("A")), Some(0));
}

#[test]
fn unsupported_pair_cannot_be_scored() {
    let table = build_distance_map();
    assert_eq!(get_distance(&table, &word("aA")), None);
    assert_eq!(get_distance(&table, &word("Aa")), None);
    assert_eq!(get_distance(&table, &word("q r")), None);
}

#[test]
fn score_of_as_is_three_halves() {
    // 'a' and 's' are 3.0 apart; one pair divided by two characters
    // gives 1.5 in fixed point.
    let table = build_distance_map();
    assert_eq!(get_distance(&table, &word("as")), Some(1572864));
}

#[test]
fn score_of_repeated_character_is_zero() {
    let table = build_distance_map();
    assert_eq!(get_distance(&table, &word("aa")), Some(0));
    assert_eq!(get_distance(&table, &word("aaaa")), Some(0));
}

#[test]
fn score_divides_by_character_count() {
    // "asa" has pairs a-s and s-a, each 3.0: total 6.0 over 3 characters.
    let table = build_distance_map();
    assert_eq!(get_distance(&table, &word("asa")), Some(2097152));
}

#[test]
fn scoring_is_deterministic() {
    let table = build_distance_map();
    let w = word("qwerty");
    let first = get_distance(&table, &w);
    let second = get_distance(&table, &w);
    assert!(first.is_some());
    assert_eq!(first, second);
}

#[test]
fn champion_of_as_and_aa() {
    let table = build_distance_map();
    let words = vec![word("as"), word("aa")];
    let best = scan_words(&table, &words);
    assert_eq!(best.word, word("as"));
    assert_eq!(best.score, 1572864);
}

#[test]
fn empty_word_list_yields_empty_champion() {
    let table = build_distance_map();
    let words: Vec<Vec<char>> = Vec::new();
    let best = scan_words(&table, &words);
    assert_eq!(best.word, word(""));
    assert_eq!(best.score, 0);
}

#[test]
fn unsupported_word_is_skipped() {
    // "A?" would pair the distant keys 'A' and '?', but 'A' is not on the
    // layout, so the word is skipped and never becomes champion.
    let table = build_distance_map();
    let words = vec![word("as"), word("A?")];
    let best = scan_words(&table, &words);
    assert_eq!(best.word, word("as"));
    assert_eq!(best.score, 1572864);
}

#[test]
fn tie_keeps_the_earlier_champion() {
    let table = build_distance_map();
    let words = vec![word("as"), word("sa")];
    let best = scan_words(&table, &words);
    assert_eq!(best.word, word("as"));
}

#[test]
fn zero_scoring_words_never_replace_the_empty_champion() {
    let table = build_distance_map();
    let words = vec![word("aa"), word("x")];
    let best = scan_words(&table, &words);
    assert_eq!(best.word, word(""));
    assert_eq!(best.score, 0);
}

#[test]
fn offer_updates_only_on_strict_improvement() {
    let table = build_distance_map();
    let mut best = BestResult::new();
    best.offer(&table, &word("as"));
    assert_eq!(best.word, word("as"));
    assert_eq!(best.score, 1572864);
    // An equal score leaves the champion alone.
    best.offer(&table, &word("sa"));
    assert_eq!(best.word, word("as"));
    // A lower score leaves the champion alone.
    best.offer(&table, &word("aa"));
    assert_eq!(best.word, word("as"));
    // A strictly higher score replaces it.
    best.offer(&table, &word("a?"));
    assert_eq!(best.word, word("a?"));
}
