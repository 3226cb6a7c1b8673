use jotoba_search::edit_distance::edit_distance;
use jotoba_search::engine::Find;
use jotoba_search::error::Error;
use jotoba_search::corrector::TermCorrector;
use jotoba_search::index::Index;
use jotoba_search::language::Language;
use jotoba_search::term_dict::TermDict;
use jotoba_search::vector::DimWeight;

fn chars(s: &str) -> Vec<char> {
    s.chars().collect()
}

#[test]
fn edit_distance_exact_values() {
    assert_eq!(edit_distance(&chars("kitten"), &chars("sitting")), 3);
    assert_eq!(edit_distance(&chars(""), &chars("abc")), 3);
    assert_eq!(edit_distance(&chars("abc"), &chars("")), 3);
    assert_eq!(edit_distance(&chars("house"), &chars("house")), 0);
    assert_eq!(edit_distance(&chars("horse"), &chars("house")), 1);
    assert_eq!(edit_distance(&chars("horse"), &chars("mouse")), 2);
}

#[test]
fn term_dict_assigns_stable_ids() {
    let input = vec!["cat".to_string(), "dog".to_string(), "cat".to_string()];
    let d1 = TermDict::from_terms(&input);
    let d2 = TermDict::from_terms(&input);
    // Determinism: the same build input yields the same ids, load after load.
    assert_eq!(d1.find_term("cat"), Some(0));
    assert_eq!(d1.find_term("dog"), Some(1));
    assert_eq!(d2.find_term("cat"), Some(0));
    assert_eq!(d2.find_term("dog"), Some(1));
    assert_eq!(d1.find_term("cat"), d1.find_term("cat"));
    assert_eq!(d1.find_term("bird"), None);
    assert_eq!(d1.len(), 2);
}

#[test]
fn term_dict_lookup_is_case_sensitive() {
    let mut d = TermDict::new();
    let id = d.get_or_insert("Cat");
    assert_eq!(d.find_term("Cat"), Some(id));
    assert_eq!(d.find_term("cat"), None);
}

#[test]
fn corrector_finds_house_for_horse() {
    let mut c = TermCorrector::new();
    c.add_term("house");
    c.add_term("mouse");
    let r = c.find("horse", 1);
    assert!(!r.is_empty());
    assert!(r.iter().any(|(t, d)| t == "house" && *d == 1));
    assert!(!r.iter().any(|(t, _)| t == "mouse"));
    let r2 = c.find("horse", 2);
    assert_eq!(r2.len(), 2);
    assert_eq!(r2[0], ("house".to_string(), 1));
    assert_eq!(r2[1], ("mouse".to_string(), 2));
}

#[test]
fn corrector_falls_back_to_literal_for_hopeless_queries() {
    let mut index = Index::new();
    index.add_document(vec![1], &vec![("house".to_string(), 10)]);
    index.add_document(vec![2], &vec![("mouse".to_string(), 10)]);
    let f = Find::new("zzzzz", 10, 0);
    // No known term within distance two: no corrected term is offered ...
    assert_eq!(f.fixed_term(&index), None);
    // ... so the literal query is used unchanged and finds nothing — Ok, not Err.
    let r = f.find(Some(&index)).unwrap();
    assert!(r.items.is_empty());
}

#[test]
fn fixed_term_repairs_a_typo() {
    let mut index = Index::new();
    index.add_document(vec![1], &vec![("house".to_string(), 10)]);
    index.add_document(vec![2], &vec![("mouse".to_string(), 10)]);
    let f = Find::new("horse", 10, 0);
    assert_eq!(f.fixed_term(&index), Some("house".to_string()));
    // A query that is already a term needs no correction.
    let g = Find::new("house", 10, 0);
    assert_eq!(g.fixed_term(&index), None);
}

#[test]
fn find_without_index_is_not_initialized() {
    let f = Find::new("cat", 10, 0);
    assert_eq!(f.find(None).unwrap_err(), Error::NotInitialized);
}

#[test]
fn find_by_vec_with_unknown_dimension_is_not_found() {
    let mut index = Index::new();
    index.add_document(vec![1], &vec![("cat".to_string(), 10)]);
    let f = Find::new("cat", 10, 0);
    let qv = vec![DimWeight { dim: 999, weight: 1 }];
    assert_eq!(f.find_by_vec(Some(&index), &qv).unwrap_err(), Error::NotFound);
}

#[test]
fn no_overlap_yields_empty_result_not_error() {
    let mut index = Index::new();
    index.add_document(vec![1], &vec![("cat".to_string(), 10)]);
    let f = Find::new("dog", 10, 0);
    let r = f.find(Some(&index)).unwrap();
    assert!(r.items.is_empty());
}

#[test]
fn end_to_end_ranked_search() {
    let mut index = Index::new();
    // doc1: weight 1.0 on "cat" (scaled to 10), one backing record.
    assert!(index.add_document(vec![10], &vec![("cat".to_string(), 10)]));
    // doc2: weight 0.5 on "cat", 1.0 on "dog", two backing records.
    assert!(index.add_document(
        vec![20, 21],
        &vec![("cat".to_string(), 5), ("dog".to_string(), 10)],
    ));
    let f = Find::new("cat", 10, 0);
    let r = f.find(Some(&index)).unwrap();
    let seqs: Vec<u32> = r.items.iter().map(|i| i.seq_id).collect();
    assert_eq!(seqs, vec![10, 20, 21]);
    // doc1 matches the shared dimension with the higher weight and ranks first.
    assert_eq!(r.items[0].seq_id, 10);
    for item in &r.items {
        assert_eq!(item.language, Language::English);
    }
    // Rows expanded from one document share its relevance.
    assert_eq!(r.items[1].relevance, r.items[2].relevance);
}

#[test]
fn parallel_vectors_score_a_cosine_of_one() {
    let mut index = Index::new();
    index.add_document(vec![1], &vec![("cat".to_string(), 10)]);
    let f = Find::new("cat", 10, 0);
    let r = f.find(Some(&index)).unwrap();
    assert_eq!(r.items.len(), 1);
    let rel = r.items[0].relevance;
    // The query vector has unit weight on the one shared dimension, so its
    // squared norm is one and cosine similarity is dot / sqrt(norm2 * 1):
    // exactly one here, since dot^2 equals norm2.
    assert_eq!(rel.dot, 10);
    assert_eq!(rel.norm2, 100);
    assert_eq!(u64::from(rel.dot) * u64::from(rel.dot), rel.norm2 * 1);
}

#[test]
fn lowercased_query_matches_lowercase_term() {
    let mut index = Index::new();
    index.add_document(vec![7], &vec![("cat".to_string(), 10)]);
    let f = Find::new("CAT", 10, 0);
    let r = f.find(Some(&index)).unwrap();
    let seqs: Vec<u32> = r.items.iter().map(|i| i.seq_id).collect();
    assert_eq!(seqs, vec![7]);
}

#[test]
fn excluded_documents_are_not_stored() {
    let mut index = Index::new();
    // No sequence ids: excluded.
    assert!(!index.add_document(vec![], &vec![("cat".to_string(), 10)]));
    // No positive weight: excluded.
    assert!(!index.add_document(vec![1], &vec![("cat".to_string(), 0)]));
    assert_eq!(index.num_docs(), 0);
    assert_eq!(index.num_postings(), 0);
}

#[test]
fn posting_lists_mirror_vectors() {
    let mut index = Index::new();
    index.add_document(vec![1], &vec![("cat".to_string(), 10)]);
    index.add_document(vec![2], &vec![("cat".to_string(), 5), ("dog".to_string(), 10)]);
    let cat = index.dict().find_term("cat").unwrap();
    let dog = index.dict().find_term("dog").unwrap();
    assert_eq!(index.postings_list(cat).as_slice(), &[0, 1]);
    assert_eq!(index.postings_list(dog).as_slice(), &[1]);
}

#[test]
fn find_accessors_keep_their_values() {
    let f = Find::new("query text", 25, 50);
    assert_eq!(f.get_query_str(), "query text");
    assert_eq!(f.get_limit(), 25);
    assert_eq!(f.get_offset(), 50);
}

#[test]
fn gen_query_builds_a_one_term_vector() {
    let mut index = Index::new();
    index.add_document(vec![1], &vec![("cat".to_string(), 10)]);
    let f = Find::new("cat", 10, 0);
    let v = f.gen_query(&index).unwrap();
    assert_eq!(v.len(), 1);
    assert_eq!(v[0].dim, index.dict().find_term("cat").unwrap());
    let g = Find::new("dog", 10, 0);
    assert!(g.gen_query(&index).is_none());
}
