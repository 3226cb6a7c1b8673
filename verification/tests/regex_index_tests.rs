use jotoba_search::regex_index::{IndexedWord, RegexSearchIndex};

fn seq_ids(words: &[IndexedWord]) -> Vec<u32> {
    let mut ids: Vec<u32> = words.iter().map(|w| w.seq_id).collect();
    ids.sort();
    ids
}

#[test]
fn empty_query_finds_nothing() {
    let mut idx = RegexSearchIndex::new();
    idx.add_term("abc", 1);
    assert!(idx.find(&vec![]).is_empty());
}

#[test]
fn character_without_postings_finds_nothing() {
    let mut idx = RegexSearchIndex::new();
    idx.add_term("abc", 1);
    assert!(idx.find(&vec!['x']).is_empty());
}

#[test]
fn disjoint_postings_intersect_to_nothing() {
    let mut idx = RegexSearchIndex::new();
    idx.add_term("ab", 1);
    idx.add_term("cd", 2);
    assert!(idx.find(&vec!['a', 'c']).is_empty());
    assert!(idx.find(&vec!['c', 'a']).is_empty());
}

#[test]
fn intersection_narrows_candidates() {
    let mut idx = RegexSearchIndex::new();
    idx.add_term("abc", 1);
    idx.add_term("ab", 2);
    idx.add_term("b", 3);
    let both = idx.find(&vec!['a', 'b']);
    assert_eq!(seq_ids(&both), vec![1, 2]);
    let just_a = idx.find(&vec!['a']);
    assert_eq!(seq_ids(&just_a), vec![1, 2]);
    let with_c = idx.find(&vec!['a', 'b', 'c']);
    assert_eq!(seq_ids(&with_c), vec![1]);
}

#[test]
fn character_order_does_not_change_the_final_set() {
    let mut idx = RegexSearchIndex::new();
    idx.add_term("abc", 1);
    idx.add_term("ab", 2);
    idx.add_term("bc", 3);
    let ab = idx.find(&vec!['a', 'b']);
    let ba = idx.find(&vec!['b', 'a']);
    assert_eq!(seq_ids(&ab), seq_ids(&ba));
    // A character nobody indexed is skipped, wherever it stands.
    let with_unknown_first = idx.find(&vec!['x', 'a', 'b']);
    let with_unknown_last = idx.find(&vec!['a', 'b', 'x']);
    assert_eq!(seq_ids(&with_unknown_first), seq_ids(&ab));
    assert_eq!(seq_ids(&with_unknown_last), seq_ids(&ab));
}

#[test]
fn dedup_is_by_sequence_id_alone() {
    let mut idx = RegexSearchIndex::new();
    // Two entries share sequence id 99 with different text: one element.
    idx.add_term("tea", 99);
    idx.add_term("ten", 99);
    let found = idx.find(&vec!['t']);
    assert_eq!(found.len(), 1);
    assert_eq!(found[0].seq_id, 99);
    // The first posting wins.
    assert_eq!(found[0].text, "tea");
    // Under a character only the second text has, the second posting stands.
    let found_n = idx.find(&vec!['n']);
    assert_eq!(found_n.len(), 1);
    assert_eq!(found_n[0].text, "ten");
}

#[test]
fn indexed_word_equality_ignores_text() {
    let a = IndexedWord { text: "spelling one".to_string(), seq_id: 99 };
    let b = IndexedWord { text: "spelling two".to_string(), seq_id: 99 };
    let c = IndexedWord { text: "spelling one".to_string(), seq_id: 100 };
    assert!(a == b);
    assert!(a != c);
}

#[test]
fn found_words_carry_their_text() {
    let mut idx = RegexSearchIndex::new();
    idx.add_term("word", 5);
    let found = idx.find(&vec!['w', 'o', 'r', 'd']);
    assert_eq!(found.len(), 1);
    assert_eq!(found[0].text, "word");
    assert_eq!(found[0].seq_id, 5);
}
