//! Queries of the channel, validated when built: every collection, bucket
//! and object name they carry passed `StoreItemBuilder`.
use vstd::prelude::*;

use crate::config::{ConfigNormalization, ConfigTokenization};
use crate::document::{json_object_text, StoreDocument};
use crate::item::{valid_part, Bucket, StoreItemBuilder, StoreItemPart, StoreObjectOid};
use crate::lexer::{TokenLexer, TokenLexerBuilder, TokenLexerMode};

verus! {

/// The validated names a query is about.
pub enum StoreItem<'a> {
    Collection(StoreItemPart<'a>),
    Bucket(StoreItemPart<'a>, Bucket<'a>),
    Object(StoreItemPart<'a>, Bucket<'a>, StoreObjectOid<'a>),
}

/// The names held by a store item: collection, then bucket and object where
/// the item has them.
pub open spec fn item_names<'a>(item: StoreItem<'a>) -> Seq<&'a str> {
    match item {
        StoreItem::Collection(c) => seq![c.spec_str()],
        StoreItem::Bucket(c, b) => seq![c.spec_str(), b.spec_str()],
        StoreItem::Object(c, b, o) => seq![c.spec_str(), b.spec_str(), o.spec_str()],
    }
}

/// A query whose names were validated.
pub enum Query<'a> {
    /// Search a bucket for the terms of a text: query ID, the lexer of the
    /// terms, limit, offset, and the span of time documents must fall in.
    Search(StoreItem<'a>, &'a str, TokenLexer<'a>, u16, u32, Option<QueryTimeRange>),
    /// The same search, answered with the documents found.
    SearchDocuments(StoreItem<'a>, &'a str, TokenLexer<'a>, u16, u32, Option<QueryTimeRange>),
    /// List the objects of a bucket: query ID, limit, offset.
    List(StoreItem<'a>, &'a str, u16, u32),
    /// Index the terms of a text under an object.
    Push(StoreItem<'a>, TokenLexer<'a>),
    /// Index the terms of a text under an object and store it as a
    /// document.
    Upsert(StoreItem<'a>, TokenLexer<'a>, StoreDocument),
    /// Remove the terms of a text from an object.
    Pop(StoreItem<'a>, TokenLexer<'a>),
    /// Count the items of a collection, a bucket or an object.
    Count(StoreItem<'a>),
    /// Drop a collection.
    FlushC(StoreItem<'a>),
    /// Drop a bucket.
    FlushB(StoreItem<'a>),
    /// Drop an object.
    FlushO(StoreItem<'a>),
}

/// The lexer a query gives its text: stopwords stay only when the language
/// is set to none, and a language given is handed on as the hint.
pub open spec fn query_lexer<'a>(
    text: &'a str,
    lang: Option<QueryGenericLang>,
    normalization: ConfigNormalization,
    tokenization: ConfigTokenization,
) -> TokenLexer<'a> {
    TokenLexer {
        mode: if lang == Some(QueryGenericLang::Disabled) {
            TokenLexerMode::NormalizeOnly
        } else {
            TokenLexerMode::NormalizeAndCleanup
        },
        lang: match lang {
            Some(QueryGenericLang::Enabled(l)) => Some(l),
            _ => None,
        },
        text,
        normalization,
        tokenization,
    }
}

/// The fields of a search query as they come from the builder's arguments.
pub open spec fn search_fields<'a>(
    item: StoreItem<'a>,
    id: &'a str,
    lexer: TokenLexer<'a>,
    limit: u16,
    offset: u32,
    range: Option<QueryTimeRange>,
    collection: &'a str,
    bucket: &'a str,
    query_id: &'a str,
    expected_lexer: TokenLexer<'a>,
    expected_limit: u16,
    expected_offset: u32,
    expected_range: Option<QueryTimeRange>,
) -> bool {
    &&& item is Bucket
    &&& item_names(item) == seq![collection, bucket]
    &&& id == query_id
    &&& lexer == expected_lexer
    &&& limit == expected_limit
    &&& offset == expected_offset
    &&& range == expected_range
}

/// A span of time, in milliseconds, whose start is not after its end.
#[derive(Clone, Copy, Debug, PartialEq, Eq)]
pub struct QueryTimeRange {
    pub from_ms: u64,
    pub to_ms: u64,
}

impl QueryTimeRange {
    /// The span from `from_ms` to `to_ms`, refused when it starts after it
    /// ends.
    pub fn new(from_ms: u64, to_ms: u64) -> (r: Result<Self, ()>)
        ensures
            r is Ok <==> from_ms <= to_ms,
            r matches Ok(t) ==> t.from_ms == from_ms && t.to_ms == to_ms,
    {
        if from_ms > to_ms {
            return Err(());
        }
        Ok(QueryTimeRange { from_ms, to_ms })
    }
}

/// Whether `whatlang::Lang::from_code` knows a code.
pub uninterp spec fn lang_code_known(code: Seq<char>) -> bool;

/// What `str::to_lowercase` gives of a text.
pub uninterp spec fn lowercase_of(s: Seq<char>) -> Seq<char>;

/// `whatlang::Lang::from_code`, then `Lang::code`: the ISO 639-3 code of
/// the language a code names, in any case. Trusted: whether a language
/// comes back depends on the code alone and is named `lang_code_known`;
/// the crate puts the code in lower case (`str::to_lowercase`) and matches
/// it against its table, whose codes `Lang::code` gives back, so the code
/// returned is the one given, in lower case.
#[verifier::external_body]
fn lang_from_code(code: &str) -> (r: Option<&'static str>)
    ensures
        r is Some <==> lang_code_known(code@),
        r matches Some(c) ==> c@ == lowercase_of(code@),
{
    match whatlang::Lang::from_code(code) {
        Some(lang) => Some(lang.code()),
        None => None,
    }
}

/// The language setting of a query: a language, by its ISO 639-3 code, or
/// none at all.
#[derive(Clone, Copy, Debug, PartialEq, Eq)]
pub enum QueryGenericLang {
    Enabled(&'static str),
    Disabled,
}

impl QueryGenericLang {
    /// Reads a language setting: `none` disables the language, a known
    /// ISO 639-3 code (in any case) selects that language.
    pub fn from_value(value: &str) -> (r: Option<QueryGenericLang>)
        ensures
            value@ == "none"@ ==> r == Some(QueryGenericLang::Disabled),
            value@ != "none"@ ==> (r is Some <==> lang_code_known(value@)),
            value@ != "none"@ ==> (r matches Some(l) ==> l is Enabled),
            r matches Some(QueryGenericLang::Enabled(code)) ==> code@ == lowercase_of(value@),
    {
        if crate::text::str_eq(value, "none") {
            Some(QueryGenericLang::Disabled)
        } else {
            match lang_from_code(value) {
                Some(code) => Some(QueryGenericLang::Enabled(code)),
                None => None,
            }
        }
    }

    /// The language's code, when one is selected.
    pub fn into_lang_opt(self) -> (r: Option<&'static str>)
        ensures
            r == match self {
                QueryGenericLang::Enabled(code) => Some(code),
                QueryGenericLang::Disabled => None::<&'static str>,
            },
    {
        match self {
            QueryGenericLang::Enabled(code) => Some(code),
            QueryGenericLang::Disabled => None,
        }
    }
}

impl<'a> Query<'a> {
    /// A list query on a valid collection and bucket.
    pub fn list(
        query_id: &'a str,
        collection: &'a str,
        bucket: &'a str,
        limit: u16,
        offset: u32,
    ) -> (r: Result<Self, ()>)
        ensures
            r is Ok <==> valid_part(collection) && valid_part(bucket),
            r matches Ok(q) ==> (q matches Query::List(item, id, l, o) && item_names(item) == seq![
                collection,
                bucket,
            ] && item is Bucket && id == query_id && l == limit && o == offset),
    {
        match StoreItemBuilder::from_depth_2(collection, bucket) {
            Ok((c, b)) => Ok(Query::List(StoreItem::Bucket(c, b), query_id, limit, offset)),
            Err(_) => Err(()),
        }
    }

    /// The lexer of a query text, in the mode and with the language hint
    /// that the query's language setting gives.
    fn lexer_for_lang(
        text: &'a str,
        lang: Option<QueryGenericLang>,
        normalization_config: ConfigNormalization,
        tokenization_config: ConfigTokenization,
    ) -> (r: TokenLexer<'a>)
        ensures
            r == query_lexer(text, lang, normalization_config, tokenization_config),
    {
        let mode = TokenLexerMode::from_query_lang(&lang);
        let hint = match lang {
            Some(QueryGenericLang::Enabled(l)) => Some(l),
            _ => None,
        };
        TokenLexerBuilder::from(mode, hint, text, normalization_config, tokenization_config)
    }

    /// A search query on a valid collection and bucket, over all time.
    pub fn search(
        query_id: &'a str,
        collection: &'a str,
        bucket: &'a str,
        terms: &'a str,
        limit: u16,
        offset: u32,
        lang: Option<QueryGenericLang>,
        normalization_config: ConfigNormalization,
        tokenization_config: ConfigTokenization,
    ) -> (r: Result<Self, ()>)
        ensures
            r is Ok <==> valid_part(collection) && valid_part(bucket),
            r matches Ok(q) ==> (q matches Query::Search(item, id, lx, l, o, tr) && search_fields(
                item,
                id,
                lx,
                l,
                o,
                tr,
                collection,
                bucket,
                query_id,
                query_lexer(terms, lang, normalization_config, tokenization_config),
                limit,
                offset,
                None,
            )),
    {
        Self::search_with_range(
            query_id,
            collection,
            bucket,
            terms,
            limit,
            offset,
            lang,
            None,
            normalization_config,
            tokenization_config,
            false,
        )
    }

    /// A search query on a valid collection and bucket, limited to a span of
    /// time when one is given; answered with documents when `documents` is
    /// set.
    pub fn search_with_range(
        query_id: &'a str,
        collection: &'a str,
        bucket: &'a str,
        terms: &'a str,
        limit: u16,
        offset: u32,
        lang: Option<QueryGenericLang>,
        time_range: Option<QueryTimeRange>,
        normalization_config: ConfigNormalization,
        tokenization_config: ConfigTokenization,
        documents: bool,
    ) -> (r: Result<Self, ()>)
        ensures
            r is Ok <==> valid_part(collection) && valid_part(bucket),
            r matches Ok(q) ==> (if documents {
                q matches Query::SearchDocuments(item, id, lx, l, o, tr) && search_fields(
                    item,
                    id,
                    lx,
                    l,
                    o,
                    tr,
                    collection,
                    bucket,
                    query_id,
                    query_lexer(terms, lang, normalization_config, tokenization_config),
                    limit,
                    offset,
                    time_range,
                )
            } else {
                q matches Query::Search(item, id, lx, l, o, tr) && search_fields(
                    item,
                    id,
                    lx,
                    l,
                    o,
                    tr,
                    collection,
                    bucket,
                    query_id,
                    query_lexer(terms, lang, normalization_config, tokenization_config),
                    limit,
                    offset,
                    time_range,
                )
            }),
    {
        let lexer = Self::lexer_for_lang(terms, lang, normalization_config, tokenization_config);
        match StoreItemBuilder::from_depth_2(collection, bucket) {
            Ok((c, b)) => {
                if documents {
                    Ok(
                        Query::SearchDocuments(
                            StoreItem::Bucket(c, b),
                            query_id,
                            lexer,
                            limit,
                            offset,
                            time_range,
                        ),
                    )
                } else {
                    Ok(
                        Query::Search(
                            StoreItem::Bucket(c, b),
                            query_id,
                            lexer,
                            limit,
                            offset,
                            time_range,
                        ),
                    )
                }
            },
            Err(_) => Err(()),
        }
    }

    /// A push query on a valid collection, bucket and object, with the text
    /// whose terms are indexed under the object.
    pub fn push(
        collection: &'a str,
        bucket: &'a str,
        object: &'a str,
        text: &'a str,
        lang: Option<QueryGenericLang>,
        normalization_config: ConfigNormalization,
        tokenization_config: ConfigTokenization,
    ) -> (r: Result<Self, ()>)
        ensures
            r is Ok <==> valid_part(collection) && valid_part(bucket) && valid_part(object),
            r matches Ok(q) ==> (q matches Query::Push(item, lx) && item is Object && item_names(
                item,
            ) == seq![collection, bucket, object] && lx == query_lexer(
                text,
                lang,
                normalization_config,
                tokenization_config,
            )),
    {
        let lexer = Self::lexer_for_lang(text, lang, normalization_config, tokenization_config);
        match StoreItemBuilder::from_depth_3(collection, bucket, object) {
            Ok((c, b, o)) => Ok(Query::Push(StoreItem::Object(c, b, o), lexer)),
            Err(_) => Err(()),
        }
    }

    /// An upsert query on a valid collection, bucket and object: the text is
    /// indexed as a push does, and stored with its timestamp and metadata as
    /// the object's document. The metadata is JSON text, and must be an
    /// object.
    pub fn upsert(
        collection: &'a str,
        bucket: &'a str,
        object: &'a str,
        text: &'a str,
        timestamp_ms: u64,
        metadata: Vec<u8>,
        lang: Option<QueryGenericLang>,
        normalization_config: ConfigNormalization,
        tokenization_config: ConfigTokenization,
    ) -> (r: Result<Self, ()>)
        ensures
            r is Ok <==> json_object_text(metadata@) && valid_part(collection) && valid_part(bucket)
                && valid_part(object),
            r matches Ok(q) ==> (q matches Query::Upsert(item, lx, doc) && item is Object
                && item_names(item) == seq![collection, bucket, object] && lx == query_lexer(
                text,
                lang,
                normalization_config,
                tokenization_config,
            ) && doc.oid@ == object@ && doc.timestamp_ms == timestamp_ms && doc.text@ == text@
                && doc.metadata@ == metadata@),
    {
        let document = match StoreDocument::new(
            object.to_owned(),
            timestamp_ms,
            text.to_owned(),
            metadata,
        ) {
            Ok(d) => d,
            Err(_) => {
                return Err(());
            },
        };
        let lexer = Self::lexer_for_lang(text, lang, normalization_config, tokenization_config);
        match StoreItemBuilder::from_depth_3(collection, bucket, object) {
            Ok((c, b, o)) => Ok(Query::Upsert(StoreItem::Object(c, b, o), lexer, document)),
            Err(_) => Err(()),
        }
    }

    /// A pop query on a valid collection, bucket and object, with the text
    /// whose terms leave the object; the text is only normalized, with no
    /// language hint.
    pub fn pop(
        collection: &'a str,
        bucket: &'a str,
        object: &'a str,
        text: &'a str,
        normalization_config: ConfigNormalization,
        tokenization_config: ConfigTokenization,
    ) -> (r: Result<Self, ()>)
        ensures
            r is Ok <==> valid_part(collection) && valid_part(bucket) && valid_part(object),
            r matches Ok(q) ==> (q matches Query::Pop(item, lx) && item_names(item) == seq![
                collection,
                bucket,
                object,
            ] && item is Object && lx.mode == TokenLexerMode::NormalizeOnly && lx.lang
                is None && lx.text == text && lx.normalization == normalization_config
                && lx.tokenization == tokenization_config),
    {
        let lexer = TokenLexerBuilder::from(
            TokenLexerMode::NormalizeOnly,
            None,
            text,
            normalization_config,
            tokenization_config,
        );
        match StoreItemBuilder::from_depth_3(collection, bucket, object) {
            Ok((c, b, o)) => Ok(Query::Pop(StoreItem::Object(c, b, o), lexer)),
            Err(_) => Err(()),
        }
    }

    /// A count query on a collection, a bucket of it, or an object of that
    /// bucket; an object without a bucket counts the collection.
    pub fn count(collection: &'a str, bucket: Option<&'a str>, object: Option<&'a str>) -> (r:
        Result<Self, ()>)
        ensures
            match (bucket, object) {
                (Some(b), Some(o)) => {
                    &&& r is Ok <==> valid_part(collection) && valid_part(b) && valid_part(o)
                    &&& r matches Ok(q) ==> (q matches Query::Count(item) && item is Object
                        && item_names(item) == seq![collection, b, o])
                },
                (Some(b), None) => {
                    &&& r is Ok <==> valid_part(collection) && valid_part(b)
                    &&& r matches Ok(q) ==> (q matches Query::Count(item) && item is Bucket
                        && item_names(item) == seq![collection, b])
                },
                _ => {
                    &&& r is Ok <==> valid_part(collection)
                    &&& r matches Ok(q) ==> (q matches Query::Count(item) && item is Collection
                        && item_names(item) == seq![collection])
                },
            },
    {
        match (bucket, object) {
            (Some(bucket_inner), Some(object_inner)) => {
                match StoreItemBuilder::from_depth_3(collection, bucket_inner, object_inner) {
                    Ok((c, b, o)) => Ok(Query::Count(StoreItem::Object(c, b, o))),
                    Err(_) => Err(()),
                }
            },
            (Some(bucket_inner), None) => {
                match StoreItemBuilder::from_depth_2(collection, bucket_inner) {
                    Ok((c, b)) => Ok(Query::Count(StoreItem::Bucket(c, b))),
                    Err(_) => Err(()),
                }
            },
            _ => {
                match StoreItemBuilder::from_depth_1(collection) {
                    Ok(c) => Ok(Query::Count(StoreItem::Collection(c))),
                    Err(_) => Err(()),
                }
            },
        }
    }

    /// A query dropping a valid collection.
    pub fn flushc(collection: &'a str) -> (r: Result<Self, ()>)
        ensures
            r is Ok <==> valid_part(collection),
            r matches Ok(q) ==> (q matches Query::FlushC(item) && item is Collection && item_names(
                item,
            ) == seq![collection]),
    {
        match StoreItemBuilder::from_depth_1(collection) {
            Ok(c) => Ok(Query::FlushC(StoreItem::Collection(c))),
            Err(_) => Err(()),
        }
    }

    /// A query dropping a valid bucket of a valid collection.
    pub fn flushb(collection: &'a str, bucket: &'a str) -> (r: Result<Self, ()>)
        ensures
            r is Ok <==> valid_part(collection) && valid_part(bucket),
            r matches Ok(q) ==> (q matches Query::FlushB(item) && item is Bucket && item_names(item)
                == seq![collection, bucket]),
    {
        match StoreItemBuilder::from_depth_2(collection, bucket) {
            Ok((c, b)) => Ok(Query::FlushB(StoreItem::Bucket(c, b))),
            Err(_) => Err(()),
        }
    }

    /// A query dropping a valid object.
    pub fn flusho(collection: &'a str, bucket: &'a str, object: &'a str) -> (r: Result<Self, ()>)
        ensures
            r is Ok <==> valid_part(collection) && valid_part(bucket) && valid_part(object),
            r matches Ok(q) ==> (q matches Query::FlushO(item) && item is Object && item_names(item)
                == seq![collection, bucket, object]),
    {
        match StoreItemBuilder::from_depth_3(collection, bucket, object) {
            Ok((c, b, o)) => Ok(Query::FlushO(StoreItem::Object(c, b, o))),
            Err(_) => Err(()),
        }
    }
}

} // verus!
