use sonic::executor::UniqueBy;
use sonic::lexer::{Preprocessor, SpecialTokenKind, TokenKind};

fn stop(words: &[&str]) -> Vec<String> {
    words.iter().map(|w| w.to_string()).collect()
}

#[test]
fn test_preprocessor_can_filter_stopwords() {
    let mut preprocessor = Preprocessor::default();
    let stopwords = stop(&["is", "a"]);

    let output = preprocessor.preprocess("This is a test!", &stopwords).unwrap();
    let originals: Vec<&str> = output.tokens().into_iter().map(|t| t.into_original()).collect();
    assert_eq!(originals, ["This", "test"]);

    preprocessor.detect_stopwords = false;

    let output = preprocessor.preprocess("This is a test!", &stopwords).unwrap();
    let originals: Vec<&str> = output.tokens().into_iter().map(|t| t.into_original()).collect();
    assert_eq!(originals, ["This", "is", "a", "test"]);
}

#[test]
fn it_joins_normalized_words_with_spaces() {
    let preprocessor = Preprocessor::default();
    let output = preprocessor.preprocess("Hello, World!", &vec![]).unwrap();
    assert_eq!(output.normalized_text(), "hello world");
    let tokens = output.tokens();
    assert_eq!(tokens.len(), 2);
    assert_eq!(tokens[1].as_normalized(), "world");
    assert_eq!(tokens[1].range(), 7..=12);

    let output = preprocessor.preprocess("", &vec![]).unwrap();
    assert_eq!(output.normalized_text(), "");
    assert!(output.tokens().is_empty());
}

#[test]
fn it_marks_stopwords_when_not_filtering() {
    let mut preprocessor = Preprocessor::default();
    preprocessor.filter_stopwords = false;
    let output = preprocessor.preprocess("the fox", &stop(&["the"])).unwrap();
    assert_eq!(output.normalized_text(), "the fox");
    let tokens = output.tokens();
    assert_eq!(*tokens[0].kind(), TokenKind::Stopword);
    assert!(tokens[0].is_stopword());
    assert_eq!(*tokens[1].kind(), TokenKind::Normal);
}

#[test]
fn it_keeps_token_indexes_across_filtered_stopwords() {
    let preprocessor = Preprocessor::default();
    let output = preprocessor.preprocess("a b c", &stop(&["b"])).unwrap();
    assert_eq!(output.normalized_text(), "a c");
    let tokens = output.tokens();
    assert_eq!(tokens.len(), 2);
    assert_eq!(tokens[1].as_original(), "c");
}

#[test]
fn test_preprocessor_can_yield_original_positions() {
    let preprocessor = Preprocessor::default();

    let output = preprocessor.preprocess("I had a déjà-vu.", &vec![]).unwrap();
    let tokens = output.tokens();
    let mut tokens_iter = tokens.iter();

    assert_eq!(tokens_iter.next().unwrap().range(), 0..=1);
    assert_eq!(tokens_iter.next().unwrap().range(), 2..=5);
    assert_eq!(tokens_iter.next().unwrap().range(), 6..=7);
    assert_eq!(tokens_iter.next().unwrap().range(), 8..=14); // Diacritics
    assert_eq!(tokens_iter.next().unwrap().range(), 15..=17);
}

#[test]
fn test_preprocessor_can_fold_diacritics() {
    let mut preprocessor = Preprocessor::default();

    assert_eq!(
        preprocessor.preprocess("I had a déjà-vu.", &vec![]).unwrap().normalized_text(),
        "i had a déjà vu"
    );

    preprocessor.normalization_config.diacritic_folding_enabled = true;

    assert_eq!(
        preprocessor.preprocess("I had a déjà-vu.", &vec![]).unwrap().normalized_text(),
        "i had a deja vu"
    );
}

#[test]
fn test_preprocessor_pattern_detection_optional() {
    let mut preprocessor = Preprocessor::default();

    let output = preprocessor.preprocess("Please contact support@example.org", &vec![]).unwrap();
    let view: Vec<(String, TokenKind, usize, usize, usize)> = output
        .tokens()
        .into_iter()
        .skip(2)
        .map(|t| (t.as_normalized().to_owned(), *t.kind(), *t.range().start(), *t.range().end(), t.index_in_tokenized_text()))
        .collect();
    assert_eq!(
        view,
        [
            ("support".to_owned(), TokenKind::Special(SpecialTokenKind::CompatSubtoken), 15, 22, 2),
            ("example.org".to_owned(), TokenKind::Special(SpecialTokenKind::CompatSubtoken), 23, 34, 3),
        ]
    );

    preprocessor.tokenization_config.compat_split_special_patterns = false;

    let output = preprocessor.preprocess("Please contact support@example.org", &vec![]).unwrap();
    let third = output
        .tokens()
        .into_iter()
        .skip(2)
        .next()
        .map(|t| (t.as_normalized().to_owned(), *t.kind(), *t.range().start(), *t.range().end(), t.index_in_tokenized_text()))
        .unwrap();
    assert_eq!(
        third,
        ("support@example.org".to_owned(), TokenKind::Special(SpecialTokenKind::EmailAddress), 15, 34, 2)
    );

    preprocessor.tokenization_config.detect_special_patterns = false;

    let output = preprocessor.preprocess("Please contact support@example.org", &vec![]).unwrap();
    let view: Vec<(String, TokenKind)> = output
        .tokens()
        .into_iter()
        .skip(2)
        .map(|t| (t.as_normalized().to_owned(), *t.kind()))
        .collect();
    assert_eq!(
        view,
        [("support".to_owned(), TokenKind::Normal), ("example.org".to_owned(), TokenKind::Normal)]
    );
}

#[test]
fn test_preprocessor_can_unique_tokens() {
    let mut preprocessor = Preprocessor::default();

    // Disable stopword filtering as it would influence results.
    preprocessor.filter_stopwords = false;

    let output = preprocessor.preprocess("This and this then that and that", &vec![]).unwrap();
    let tokens = output.tokens();
    let mut unique = UniqueBy::new(tokens.len());
    let kept: Vec<&str> = tokens
        .into_iter()
        .filter(|t| unique.take_key(t.hash().into_inner()))
        .map(|t| t.into_normalized())
        .collect();
    assert_eq!(kept, ["this", "and", "then", "that"]);
}
