use meta_media_search::text_match::{match_lowercase, match_text, TextMatch};

fn score(query: &str, text: &str) -> f32 {
    match match_text(query, text) {
        TextMatch::Contained => 1.0,
        TextMatch::Words { matched, total } => matched as f32 / total as f32,
    }
}

#[test]
fn test_similarity_exact_match() {
    let s = score("test", "this is a test");
    assert!(s > 0.9);
}

#[test]
fn test_similarity_partial_match() {
    let s = score("movie action", "action movies");
    assert!(s > 0.5);
}

#[test]
fn whole_query_in_text_is_contained() {
    assert_eq!(match_text("Is A", "this is a test"), TextMatch::Contained);
}

#[test]
fn words_found_inside_text_words_are_counted() {
    assert_eq!(
        match_text("Movie Action", "action movies"),
        TextMatch::Words { matched: 2, total: 2 }
    );
    assert_eq!(
        match_text("space drama cat", "Space Odyssey"),
        TextMatch::Words { matched: 1, total: 3 }
    );
}

#[test]
fn case_matters_before_lowering() {
    assert_eq!(
        match_lowercase("Action", "action movies"),
        TextMatch::Words { matched: 0, total: 1 }
    );
    assert_eq!(match_text("Action", "action movies"), TextMatch::Contained);
}

#[test]
fn no_overlap_counts_nothing() {
    assert_eq!(
        match_text("zebra", "action movies"),
        TextMatch::Words { matched: 0, total: 1 }
    );
}
