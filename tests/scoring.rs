use paper_updater::batch::processing_order;
use paper_updater::authors::extract_authors_last_names;
use paper_updater::similarity::{similarity_of_normalized, similarity_score, Score};
use paper_updater::text::{collapse_whitespace, normalize_title};

#[test]
fn normalize_strips_lowercases_and_collapses() {
    assert_eq!(normalize_title("  Attention Is   All You Need! "), "attention is all you need");
    assert_eq!(normalize_title("BERT: Pre-training of Deep\tTransformers"), "bert pretraining of deep transformers");
    assert_eq!(normalize_title(""), "");
    assert_eq!(normalize_title("?!... ---"), "");
}

#[test]
fn normalize_is_idempotent_on_examples() {
    for s in ["Hello, World!", "  A  b\nC ", "Élan: Vital — Über", "snake_case title", ""] {
        let once = normalize_title(s);
        assert_eq!(normalize_title(&once), once);
    }
}

#[test]
fn collapse_joins_words_with_single_spaces() {
    assert_eq!(collapse_whitespace(" a \t b\n\nc "), "a b c");
    assert_eq!(collapse_whitespace("   "), "");
}

#[test]
fn score_parts_exact() {
    let s = similarity_score("a b", "a c").unwrap();
    assert_eq!(s, Score { shared: 1, total: 3, distance: 1, longest: 3 });
    // 0.7 * 1/3 + 0.3 * 2/3 = 0.4333...
    assert!(s.meets_percent(43));
    assert!(!s.meets_percent(44));
}

#[test]
fn score_counts_distinct_tokens() {
    let s = similarity_of_normalized("the the cat", "the dog");
    assert_eq!(s, Score { shared: 1, total: 3, distance: 7, longest: 11 });
}

#[test]
fn score_is_symmetric_on_examples() {
    let pairs = [("Deep Learning", "deep learning for graphs"), ("abc", "xyz q"), ("", "word")];
    for (a, b) in pairs {
        assert_eq!(similarity_score(a, b), similarity_score(b, a));
    }
}

#[test]
fn score_of_equal_titles_is_one() {
    let s = similarity_score("Hello World", "hello   world!").unwrap();
    assert_eq!(s, Score { shared: 2, total: 2, distance: 0, longest: 11 });
    assert!(s.meets_percent(100));
    assert!(!s.meets_percent(101));
}

#[test]
fn score_of_empty_titles_is_zero() {
    let s = similarity_score("!!!", "").unwrap();
    assert_eq!(s, Score { shared: 0, total: 0, distance: 0, longest: 0 });
    assert!(s.meets_percent(0));
    assert!(!s.meets_percent(1));
}

#[test]
fn levenshtein_counts_characters() {
    let s = similarity_of_normalized("kitten", "sitting");
    assert_eq!(s.distance, 3);
    assert_eq!(s.longest, 7);
}

#[test]
fn authors_reduced_to_surnames() {
    assert_eq!(
        extract_authors_last_names("John Smith, Jane Doe; Bob O'Brien & Alice van der Berg-"),
        "Smith, Doe, O'Brien, Berg"
    );
    assert_eq!(extract_authors_last_names("A B,,  ;C D"), "B, D");
    assert_eq!(extract_authors_last_names(""), "");
    assert_eq!(extract_authors_last_names("Ashish Vaswani, Noam Shazeer"), "Vaswani, Shazeer");
    assert_eq!(extract_authors_last_names("123, (Knuth)"), "Knuth");
}

#[test]
fn processing_order_fewest_publications_first() {
    assert_eq!(processing_order(&vec![2, 0, 1, 0, 2]), vec![1, 3, 2, 0, 4]);
    assert_eq!(processing_order(&vec![]), Vec::<usize>::new());
    assert_eq!(processing_order(&vec![5]), vec![0]);
}
