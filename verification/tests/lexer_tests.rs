use sonic::lexer::{
    LexerToken, PreprocessorOutput, SpecialTokenKind, TokenKind, TokenLexerMode, TokenSpan,
};
use sonic::config::{ConfigNormalization, ConfigTokenization, UnicodeNormalization};
use sonic::query::QueryGenericLang;

#[test]
fn it_spans_tokens_in_both_texts() {
    let spans = vec![
        TokenSpan {
            start_original: 0,
            end_original: 5,
            start_normalized: 0,
            end_normalized: 5,
            kind: TokenKind::Normal,
            index: 0,
        },
        TokenSpan {
            start_original: 6,
            end_original: 13,
            start_normalized: 6,
            end_normalized: 12,
            kind: TokenKind::Special(SpecialTokenKind::Domain),
            index: 1,
        },
    ];
    let output = PreprocessorOutput::new("Hello Éc.com", "hello ec.com".to_string(), spans).unwrap();
    assert_eq!(output.original_text(), "Hello Éc.com");
    assert_eq!(output.normalized_text(), "hello ec.com");
    let tokens = output.tokens();
    assert_eq!(tokens.len(), 2);
    assert_eq!(tokens[0].as_original(), "Hello");
    assert_eq!(tokens[0].as_normalized(), "hello");
    assert!(!tokens[0].is_special());
    assert!(tokens[0].is_not_stopword());
    assert_eq!(tokens[1].as_original(), "Éc.com");
    assert_eq!(tokens[1].as_normalized(), "ec.com");
    assert!(tokens[1].is_special());
    assert_eq!(*tokens[1].kind(), TokenKind::Special(SpecialTokenKind::Domain));
    assert_eq!(tokens[1].range(), 6..=13);
    assert_eq!(
        tokens[0].hash(),
        sonic::item::StoreTermHash::from_term("hello")
    );
    assert_eq!(tokens[1].clone().into_normalized(), "ec.com");
    assert_eq!(tokens[1].clone().into_original(), "Éc.com");
    assert_eq!(tokens[1].clone().into_kind(), TokenKind::Special(SpecialTokenKind::Domain));
    assert_eq!(tokens[0].clone().into_hash().into_inner(), sonic::item::StoreTermHash::from_term("hello").into_inner());
}

#[test]
fn it_refuses_spans_off_character_boundaries() {
    let spans = vec![TokenSpan {
        start_original: 7,
        end_original: 8,
        start_normalized: 0,
        end_normalized: 1,
        kind: TokenKind::Normal,
        index: 0,
    }];
    assert!(PreprocessorOutput::new("Hello Éc", "h".to_string(), spans).is_none());
    let spans = vec![TokenSpan {
        start_original: 0,
        end_original: 9,
        start_normalized: 0,
        end_normalized: 1,
        kind: TokenKind::Normal,
        index: 0,
    }];
    assert!(PreprocessorOutput::new("Hello", "h".to_string(), spans).is_none());
}

#[test]
fn it_builds_lexer_tokens() {
    let token = LexerToken::normal(4, "word");
    assert_eq!(token.end(), 8);
    assert_eq!(token.kind, TokenKind::Normal);
    let stop = LexerToken::stopword(0, "the");
    assert_eq!(stop.kind, TokenKind::Stopword);
    assert_eq!(stop.end(), 3);
}

#[test]
fn it_picks_the_lexer_mode_of_a_language_setting() {
    assert_eq!(
        TokenLexerMode::from_query_lang(&Some(QueryGenericLang::Disabled)),
        TokenLexerMode::NormalizeOnly
    );
    assert_eq!(
        TokenLexerMode::from_query_lang(&Some(QueryGenericLang::Enabled("fra"))),
        TokenLexerMode::NormalizeAndCleanup
    );
    assert_eq!(
        TokenLexerMode::from_query_lang(&None),
        TokenLexerMode::NormalizeAndCleanup
    );
    assert!(TokenLexerMode::NormalizeAndCleanup.should_cleanup());
    assert!(!TokenLexerMode::NormalizeOnly.should_cleanup());
}

fn lex_and_normalize(sentence: &str) -> Vec<(String, TokenKind)> {
    let lexer = sonic::lexer::Lexer::new(ConfigTokenization {
        detect_special_patterns: true,
        compat_split_special_patterns: false,
    });
    let normalizer = sonic::normalize::Normalizer::new(ConfigNormalization {
        unicode_normalization: None,
        diacritic_folding_enabled: false,
        stemming_enabled: false,
    });
    lexer
        .lex(sentence, Some("eng"))
        .unwrap()
        .iter()
        .map(|token| (normalizer.normalize(token), token.kind))
        .collect()
}

fn expect(sentence: &str, expected: &[(&str, TokenKind)]) {
    let tokens = lex_and_normalize(sentence);
    let expected: Vec<(String, TokenKind)> = expected
        .iter()
        .map(|(text, kind)| (text.to_string(), *kind))
        .collect();
    assert_eq!(tokens, expected, "{sentence:?}");
}

#[test]
fn test_preprocessor_can_detect_patterns() {
    expect(
        "Contact jane.doe@example.org, alice@example.org or bob+foo@example.org for support.",
        &[
            ("contact", TokenKind::Normal),
            ("jane.doe@example.org", TokenKind::Special(SpecialTokenKind::EmailAddress)),
            ("alice@example.org", TokenKind::Special(SpecialTokenKind::EmailAddress)),
            ("or", TokenKind::Normal),
            ("bob+foo@example.org", TokenKind::Special(SpecialTokenKind::EmailAddress)),
            ("for", TokenKind::Normal),
            ("support", TokenKind::Normal),
        ],
    );
    expect(
        "You can also call me at 555-123-4567 or +33 6 12 34 56 78 (06.12.34.56.78 / 06 12 34 56 78).",
        &[
            ("you", TokenKind::Normal),
            ("can", TokenKind::Normal),
            ("also", TokenKind::Normal),
            ("call", TokenKind::Normal),
            ("me", TokenKind::Normal),
            ("at", TokenKind::Normal),
            ("5551234567", TokenKind::Special(SpecialTokenKind::PhoneNumber)),
            ("or", TokenKind::Normal),
            ("+33612345678", TokenKind::Special(SpecialTokenKind::PhoneNumber)),
            ("0612345678", TokenKind::Special(SpecialTokenKind::PhoneNumber)),
            ("0612345678", TokenKind::Special(SpecialTokenKind::PhoneNumber)),
        ],
    );
    expect(
        "My account is 6db14cb4-b82e-4e49-8016-ef76c4290a2f.",
        &[
            ("my", TokenKind::Normal),
            ("account", TokenKind::Normal),
            ("is", TokenKind::Normal),
            ("6db14cb4-b82e-4e49-8016-ef76c4290a2f", TokenKind::Special(SpecialTokenKind::Id)),
        ],
    );
    expect(
        "Check out b244423d417369795292e9f4530d0c0e6fa07625 and 927ff7701795282232dda41e023c7c6ba29d5a15 (927ff77).",
        &[
            ("check", TokenKind::Normal),
            ("out", TokenKind::Normal),
            ("b244423d417369795292e9f4530d0c0e6fa07625", TokenKind::Special(SpecialTokenKind::Id)),
            ("and", TokenKind::Normal),
            ("927ff7701795282232dda41e023c7c6ba29d5a15", TokenKind::Special(SpecialTokenKind::Id)),
            ("927ff77", TokenKind::Special(SpecialTokenKind::Id)),
        ],
    );
    expect(
        "Have a look at https://example.org/foo?id=123.",
        &[
            ("have", TokenKind::Normal),
            ("a", TokenKind::Normal),
            ("look", TokenKind::Normal),
            ("at", TokenKind::Normal),
            ("https://example.org/foo?id=123", TokenKind::Special(SpecialTokenKind::Url)),
        ],
    );
    expect(
        "My domain name is example.org.",
        &[
            ("my", TokenKind::Normal),
            ("domain", TokenKind::Normal),
            ("name", TokenKind::Normal),
            ("is", TokenKind::Normal),
            ("example.org", TokenKind::Special(SpecialTokenKind::Domain)),
        ],
    );
    expect(
        "I don’t put punctuation correctly .See?",
        &[
            ("i", TokenKind::Normal),
            ("don’t", TokenKind::Normal),
            ("put", TokenKind::Normal),
            ("punctuation", TokenKind::Normal),
            ("correctly", TokenKind::Normal),
            ("see", TokenKind::Normal),
        ],
    );
    expect(
        "Try to ping 192.168.1.0, 0.0.0.0, 2606:4700::6812:1c68, or ::1.",
        &[
            ("try", TokenKind::Normal),
            ("to", TokenKind::Normal),
            ("ping", TokenKind::Normal),
            ("192.168.1.0", TokenKind::Special(SpecialTokenKind::Ipv4)),
            ("0.0.0.0", TokenKind::Special(SpecialTokenKind::Ipv4)),
            ("2606:4700::6812:1c68", TokenKind::Special(SpecialTokenKind::Id)),
            ("or", TokenKind::Normal),
            ("::1", TokenKind::Special(SpecialTokenKind::Id)),
        ],
    );
    expect(
        "Contact @alice.",
        &[
            ("contact", TokenKind::Normal),
            ("@alice", TokenKind::Special(SpecialTokenKind::Username)),
        ],
    );
    expect(
        "It’s tested in test_tokenizer.",
        &[
            ("it’s", TokenKind::Normal),
            ("tested", TokenKind::Normal),
            ("in", TokenKind::Normal),
            ("test_tokenizer", TokenKind::Special(SpecialTokenKind::Id)),
        ],
    );
}

#[test]
fn test_tokenizer_lang_none() {
    let lexer = sonic::lexer::Lexer::new(sonic::config::ConfigTokenization {
        detect_special_patterns: false,
        compat_split_special_patterns: false,
    });
    assert_eq!(
        lexer
            .lex("This is an example.", None)
            .unwrap()
            .iter()
            .map(|token| token.raw)
            .collect::<Vec<_>>(),
        vec!["This", "is", "an", "example"],
    );
}

#[test]
fn it_splits_special_chunks_for_compatibility() {
    let lexer = sonic::lexer::Lexer::new(sonic::config::ConfigTokenization {
        detect_special_patterns: true,
        compat_split_special_patterns: true,
    });
    let tokens = lexer.lex("Mail jane.doe@example.org now", None).unwrap();
    let view: Vec<(usize, &str, TokenKind)> =
        tokens.iter().map(|t| (t.start, t.raw, t.kind)).collect();
    assert_eq!(
        view,
        vec![
            (0, "Mail", TokenKind::Normal),
            (5, "jane.doe", TokenKind::Special(SpecialTokenKind::CompatSubtoken)),
            (14, "example.org", TokenKind::Special(SpecialTokenKind::CompatSubtoken)),
            (26, "now", TokenKind::Normal),
        ]
    );
}

#[test]
fn it_folds_case_and_diacritics() {
    let token = LexerToken::normal(0, "DéJÀ");
    let plain = sonic::normalize::Normalizer::new(ConfigNormalization {
        unicode_normalization: None,
        diacritic_folding_enabled: false,
        stemming_enabled: false,
    });
    assert_eq!(plain.normalize(&token), "déjà");
    let folded = sonic::normalize::Normalizer::new(ConfigNormalization {
        unicode_normalization: None,
        diacritic_folding_enabled: true,
        stemming_enabled: false,
    });
    assert_eq!(folded.normalize(&token), "deja");
    let folded_nfc = sonic::normalize::Normalizer::new(ConfigNormalization {
        unicode_normalization: Some(UnicodeNormalization::Nfc),
        diacritic_folding_enabled: true,
        stemming_enabled: false,
    });
    assert_eq!(folded_nfc.normalize(&token), "deja");
    let nfkc = sonic::normalize::Normalizer::new(ConfigNormalization {
        unicode_normalization: Some(UnicodeNormalization::Nfkc),
        diacritic_folding_enabled: false,
        stemming_enabled: false,
    });
    assert_eq!(nfkc.normalize(&LexerToken::normal(0, "ﬁ")), "fi");
    let special = LexerToken {
        start: 0,
        raw: "Example.ORG",
        kind: TokenKind::Special(SpecialTokenKind::Domain),
    };
    assert_eq!(plain.normalize(&special), "Example.ORG");
}
