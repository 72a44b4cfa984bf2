use sonic::config::{ConfigNormalization, ConfigTokenization};
use sonic::lexer::TokenLexerMode;
use sonic::query::{Query, QueryGenericLang, QueryTimeRange, StoreItem};

const NORMALIZATION_CONFIG: ConfigNormalization = ConfigNormalization {
    unicode_normalization: None,
    diacritic_folding_enabled: false,
    stemming_enabled: false,
};
const TOKENIZATION_CONFIG: ConfigTokenization = ConfigTokenization {
    detect_special_patterns: true,
    compat_split_special_patterns: false,
};

#[test]
fn it_builds_list_query() {
    assert!(Query::list("id1", "c:test:2", "b:test:2", 100, 0).is_ok());
    assert!(Query::list("id2", "c:test:2", "", 10, 0).is_err());
}

#[test]
fn it_builds_pop_query() {
    assert!(Query::pop(
        "c:test:4", "b:test:4", "o:test:4", "ordering US",
        NORMALIZATION_CONFIG, TOKENIZATION_CONFIG,
    ).is_ok());

    assert!(Query::pop(
        "c:test:4", "", "o:test:4", "ordering US",
        NORMALIZATION_CONFIG, TOKENIZATION_CONFIG,
    ).is_err());
}

#[test]
fn it_builds_count_query() {
    assert!(Query::count("c:test:5", None, None).is_ok());
    assert!(Query::count("c:test:5", Some("b:test:5"), None).is_ok());
    assert!(Query::count("c:test:5", Some("b:test:5"), Some("o:test:5")).is_ok());
    assert!(Query::count("c:test:5", Some(""), Some("o:test:5")).is_err());
}

#[test]
fn it_builds_flushc_query() {
    assert!(Query::flushc("c:test:6").is_ok());
    assert!(Query::flushc("").is_err());
}

#[test]
fn it_builds_flushb_query() {
    assert!(Query::flushb("c:test:7", "b:test:7").is_ok());
    assert!(Query::flushb("c:test:7", "").is_err());
}

#[test]
fn it_builds_flusho_query() {
    assert!(Query::flusho("c:test:8", "b:test:8", "o:test:8").is_ok());
    assert!(Query::flusho("c:test:8", "b:test:8", "").is_err());
}

#[test]
fn it_keeps_query_fields() {
    match Query::list("id1", "c:1", "b:1", 7, 3) {
        Ok(Query::List(StoreItem::Bucket(c, b), id, limit, offset)) => {
            assert_eq!(c.as_str(), "c:1");
            assert_eq!(b.as_str(), "b:1");
            assert_eq!(id, "id1");
            assert_eq!((limit, offset), (7, 3));
        }
        _ => panic!("unexpected query"),
    }
    match Query::count("c:1", None, Some("o:1")) {
        Ok(Query::Count(StoreItem::Collection(c))) => assert_eq!(c.as_str(), "c:1"),
        _ => panic!("unexpected query"),
    }
}

#[test]
fn it_parses_generic_lang_from_value() {
    assert_eq!(
        QueryGenericLang::from_value("none"),
        Some(QueryGenericLang::Disabled)
    );
    assert_eq!(
        QueryGenericLang::from_value("fra"),
        Some(QueryGenericLang::Enabled("fra"))
    );
    assert_eq!(QueryGenericLang::from_value("xxx"), None);
    // Any case selects the language, by its code in lower case.
    assert_eq!(QueryGenericLang::from_value("DEU"), Some(QueryGenericLang::Enabled("deu")));
    assert_eq!(QueryGenericLang::from_value("jpn"), Some(QueryGenericLang::Enabled("jpn")));
}

#[test]
fn it_builds_time_ranges() {
    assert_eq!(
        QueryTimeRange::new(1, 2),
        Ok(QueryTimeRange { from_ms: 1, to_ms: 2 })
    );
    assert!(QueryTimeRange::new(5, 5).is_ok());
    assert!(QueryTimeRange::new(6, 5).is_err());
    assert_eq!(
        QueryGenericLang::Enabled("eng").into_lang_opt(),
        Some("eng")
    );
    assert_eq!(QueryGenericLang::Disabled.into_lang_opt(), None);
}

#[test]
fn it_builds_search_query() {
    assert!(Query::search(
        "id1", "c:test:1", "b:test:1", "Michael Dake", 10, 20, None,
        NORMALIZATION_CONFIG, TOKENIZATION_CONFIG,
    ).is_ok());

    assert!(Query::search(
        "id2", "c:test:1", "", "Michael Dake", 1, 0, None,
        NORMALIZATION_CONFIG, TOKENIZATION_CONFIG,
    ).is_err());
}

#[test]
fn it_builds_push_query() {
    assert!(Query::push(
        "c:test:3", "b:test:3", "o:test:3", "My name is Michael Dake. I'm ordering in the US.", None,
        NORMALIZATION_CONFIG, TOKENIZATION_CONFIG,
    ).is_ok());

    assert!(Query::push(
        "c:test:3", "", "o:test:3", "My name is Michael Dake.", None,
        NORMALIZATION_CONFIG, TOKENIZATION_CONFIG,
    ).is_err());
}

#[test]
fn it_builds_search_with_range_and_documents() {
    let range = QueryTimeRange::new(10, 20).unwrap();
    match Query::search_with_range(
        "id", "c:1", "b:1", "hello", 5, 1,
        Some(QueryGenericLang::Enabled("fra")), Some(range),
        NORMALIZATION_CONFIG, TOKENIZATION_CONFIG, true,
    ) {
        Ok(Query::SearchDocuments(StoreItem::Bucket(c, b), id, lexer, limit, offset, tr)) => {
            assert_eq!((c.as_str(), b.as_str(), id), ("c:1", "b:1", "id"));
            assert_eq!(lexer.mode, TokenLexerMode::NormalizeAndCleanup);
            assert_eq!(lexer.lang, Some("fra"));
            assert_eq!(lexer.text, "hello");
            assert_eq!((limit, offset, tr), (5, 1, Some(range)));
        }
        _ => panic!("unexpected query"),
    }
    match Query::search_with_range(
        "id", "c:1", "b:1", "hello", 5, 1, Some(QueryGenericLang::Disabled), None,
        NORMALIZATION_CONFIG, TOKENIZATION_CONFIG, false,
    ) {
        Ok(Query::Search(_, _, lexer, _, _, tr)) => {
            assert_eq!(lexer.mode, TokenLexerMode::NormalizeOnly);
            assert_eq!(lexer.lang, None);
            assert_eq!(tr, None);
        }
        _ => panic!("unexpected query"),
    }
}

#[test]
fn it_builds_upsert_query() {
    match Query::upsert(
        "c:1", "b:1", "o:1", "some text", 42, b"{\"k\":1}".to_vec(), None,
        NORMALIZATION_CONFIG, TOKENIZATION_CONFIG,
    ) {
        Ok(Query::Upsert(StoreItem::Object(_, _, o), lexer, doc)) => {
            assert_eq!(o.as_str(), "o:1");
            assert_eq!(lexer.mode, TokenLexerMode::NormalizeAndCleanup);
            assert_eq!(doc.oid, "o:1");
            assert_eq!(doc.timestamp_ms, 42);
            assert_eq!(doc.text, "some text");
            assert_eq!(doc.metadata, b"{\"k\":1}".to_vec());
        }
        _ => panic!("unexpected query"),
    }
    assert!(Query::upsert(
        "c:1", "b:1", "o:1", "some text", 42, b"[1]".to_vec(), None,
        NORMALIZATION_CONFIG, TOKENIZATION_CONFIG,
    ).is_err());
    assert!(Query::upsert(
        "c:1", "", "o:1", "some text", 42, b"{}".to_vec(), None,
        NORMALIZATION_CONFIG, TOKENIZATION_CONFIG,
    ).is_err());
}

#[test]
fn it_builds_pop_lexer_without_cleanup() {
    match Query::pop("c:1", "b:1", "o:1", "ordering US", NORMALIZATION_CONFIG, TOKENIZATION_CONFIG) {
        Ok(Query::Pop(_, lexer)) => {
            assert_eq!(lexer.mode, TokenLexerMode::NormalizeOnly);
            assert_eq!(lexer.lang, None);
            assert_eq!(lexer.text, "ordering US");
        }
        _ => panic!("unexpected query"),
    }
}
