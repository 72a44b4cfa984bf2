//! Tokens of a text: their kinds, their spans in the original and in the
//! normalized text, and the settings the lexer runs with.
use vstd::prelude::*;

use crate::config::{ConfigNormalization, ConfigStopwords, ConfigTokenization};
use crate::hashing::xxhash32;
use crate::item::StoreTermHash;
use crate::query::QueryGenericLang;
use crate::text::str_from_utf8;
use vstd::string::StringSliceAdditionalSpecFns;
use vstd::utf8::{encode_utf8, valid_utf8};

verus! {

/// Kinds of special tokens, matched by pattern rather than split as words.
#[derive(Clone, Copy, Debug, PartialEq, Eq)]
pub enum SpecialTokenKind {
    EmailAddress,
    Username,
    Url,
    Ipv4,
    PhoneNumber,
    Domain,
    Id,
    /// A piece of a special token split apart for compatibility; still
    /// special, with no meaning of its own.
    CompatSubtoken,
}

/// Kinds of tokens.
#[derive(Clone, Copy, Debug, PartialEq, Eq)]
pub enum TokenKind {
    Normal,
    Special(SpecialTokenKind),
    Stopword,
}

/// A token as the lexer finds it: where it starts, its text, its kind.
#[derive(Debug, PartialEq, Eq)]
pub struct LexerToken<'s> {
    pub start: usize,
    pub raw: &'s str,
    pub kind: TokenKind,
}

impl<'s> LexerToken<'s> {
    /// A normal token.
    pub fn normal(start: usize, raw: &'s str) -> (r: Self)
        ensures
            r.start == start && r.raw == raw && r.kind == TokenKind::Normal,
    {
        LexerToken { start, raw, kind: TokenKind::Normal }
    }

    /// A stopword token.
    pub fn stopword(start: usize, raw: &'s str) -> (r: Self)
        ensures
            r.start == start && r.raw == raw && r.kind == TokenKind::Stopword,
    {
        LexerToken { start, raw, kind: TokenKind::Stopword }
    }

    /// The byte offset just after the token.
    pub fn end(&self) -> (r: usize)
        requires
            self.start + self.raw.spec_bytes().len() <= usize::MAX,
        ensures
            r == self.start + self.raw.spec_bytes().len(),
    {
        self.start + self.raw.as_bytes().len()
    }
}

/// Splits texts into tokens with the given settings.
#[derive(Clone, Copy, Debug, PartialEq, Eq)]
pub struct Lexer {
    pub config: ConfigTokenization,
}

impl Lexer {
    /// A lexer with the given settings.
    pub fn new(config: ConfigTokenization) -> (r: Self)
        ensures
            r.config == config,
    {
        Lexer { config }
    }
}

/// Where a token stands in the original and in the normalized text (byte
/// offsets), its kind, and its index among all tokens (stopwords counted).
#[derive(Clone, Copy, Debug, PartialEq, Eq)]
pub struct TokenSpan {
    pub start_original: usize,
    pub end_original: usize,
    pub start_normalized: usize,
    pub end_normalized: usize,
    pub kind: TokenKind,
    pub index: usize,
}

/// A span's bytes in both texts are whole UTF-8 text.
pub open spec fn span_fits(span: TokenSpan, original: Seq<u8>, normalized: Seq<u8>) -> bool {
    &&& span.start_original <= span.end_original <= original.len()
    &&& span.start_normalized <= span.end_normalized <= normalized.len()
    &&& valid_utf8(original.subrange(span.start_original as int, span.end_original as int))
    &&& valid_utf8(normalized.subrange(span.start_normalized as int, span.end_normalized as int))
}

/// A token of a preprocessed text.
#[derive(Clone, Debug, PartialEq, Eq)]
pub struct Token<'s> {
    original: &'s str,
    normalized: &'s str,
    kind: TokenKind,
    start: usize,
    end: usize,
    index_in_tokenized_text: usize,
}

impl<'s> Token<'s> {
    /// The token's text as written.
    pub closed spec fn spec_original(&self) -> &'s str {
        self.original
    }

    /// The token's normalized text.
    pub closed spec fn spec_normalized(&self) -> &'s str {
        self.normalized
    }

    /// The token's kind.
    pub closed spec fn spec_kind(&self) -> TokenKind {
        self.kind
    }

    /// Byte offset of the token in the original text.
    pub closed spec fn spec_start(&self) -> usize {
        self.start
    }

    /// Byte offset just after the token in the original text.
    pub closed spec fn spec_end(&self) -> usize {
        self.end
    }

    /// Index of the token among all tokens, stopwords counted.
    pub closed spec fn spec_index(&self) -> usize {
        self.index_in_tokenized_text
    }

    /// The token's text as written.
    pub fn into_original(self) -> (r: &'s str)
        ensures
            r == self.spec_original(),
    {
        self.original
    }

    /// The token's normalized text.
    pub fn into_normalized(self) -> (r: &'s str)
        ensures
            r == self.spec_normalized(),
    {
        self.normalized
    }

    /// The token's kind.
    pub fn into_kind(self) -> (r: TokenKind)
        ensures
            r == self.spec_kind(),
    {
        self.kind
    }

    /// The token's text as written.
    pub fn as_original(&self) -> (r: &str)
        ensures
            r == self.spec_original(),
    {
        self.original
    }

    /// The token's normalized text.
    pub fn as_normalized(&self) -> (r: &str)
        ensures
            r == self.spec_normalized(),
    {
        self.normalized
    }

    /// The token's kind.
    pub fn kind(&self) -> (r: &TokenKind)
        ensures
            *r == self.spec_kind(),
    {
        &self.kind
    }

    /// Whether the token is special (an email address, a URL...).
    pub fn is_special(&self) -> (r: bool)
        ensures
            r == (self.spec_kind() is Special),
    {
        match self.kind {
            TokenKind::Special(_) => true,
            _ => false,
        }
    }

    /// Whether the token is a stopword.
    pub fn is_stopword(&self) -> (r: bool)
        ensures
            r == (self.spec_kind() is Stopword),
    {
        match self.kind {
            TokenKind::Stopword => true,
            _ => false,
        }
    }

    /// Whether the token is not a stopword.
    pub fn is_not_stopword(&self) -> (r: bool)
        ensures
            r == !(self.spec_kind() is Stopword),
    {
        !self.is_stopword()
    }

    /// The index of the token among all tokens, stopwords counted.
    pub fn index_in_tokenized_text(&self) -> (r: usize)
        ensures
            r == self.spec_index(),
    {
        self.index_in_tokenized_text
    }

    /// The bounds of the token in the original text, both included.
    pub fn range(&self) -> (r: std::ops::RangeInclusive<usize>)
        ensures
            r@.start == self.spec_start(),
            r@.end == self.spec_end(),
    {
        std::ops::RangeInclusive::new(self.start, self.end)
    }

    /// The hash of the normalized text.
    pub fn hash(&self) -> (r: StoreTermHash)
        ensures
            r.spec_value() == xxhash32(self.spec_normalized().spec_bytes()),
    {
        StoreTermHash::from_term(self.normalized)
    }

    /// The hash of the normalized text.
    pub fn into_hash(self) -> (r: StoreTermHash)
        ensures
            r.spec_value() == xxhash32(self.spec_normalized().spec_bytes()),
    {
        StoreTermHash::from_term(self.normalized)
    }
}

/// A text with its normalized form and the spans of its tokens.
pub struct PreprocessorOutput<'s> {
    text_original: &'s str,
    text_normalized: String,
    spans: Vec<TokenSpan>,
}

impl<'s> PreprocessorOutput<'s> {
    /// Every span lies in both texts on character boundaries.
    #[verifier::type_invariant]
    spec fn inv(self) -> bool {
        forall|i: int|
            0 <= i < self.spans@.len() ==> span_fits(
                #[trigger] self.spans@[i],
                self.text_original.spec_bytes(),
                encode_utf8(self.text_normalized@),
            )
    }

    /// The original text.
    pub closed spec fn spec_original(&self) -> &'s str {
        self.text_original
    }

    /// The normalized text.
    pub closed spec fn spec_normalized(&self) -> Seq<char> {
        self.text_normalized@
    }

    /// The spans of the tokens.
    pub closed spec fn spec_spans(&self) -> Seq<TokenSpan> {
        self.spans@
    }

    /// The output for a text, its normalized form and the spans of its
    /// tokens, when every span lies in both texts on character boundaries.
    pub fn new(text_original: &'s str, text_normalized: String, spans: Vec<TokenSpan>) -> (r:
        Option<Self>)
        ensures
            r is Some <==> forall|i: int|
                0 <= i < spans@.len() ==> span_fits(
                    #[trigger] spans@[i],
                    text_original.spec_bytes(),
                    encode_utf8(text_normalized@),
                ),
            r matches Some(o) ==> o.spec_original() == text_original && o.spec_normalized()
                == text_normalized@ && o.spec_spans() == spans@,
    {
        let original = text_original.as_bytes();
        let normalized = text_normalized.as_str().as_bytes();
        let mut i: usize = 0;
        while i < spans.len()
            invariant
                i <= spans@.len(),
                original@ == text_original.spec_bytes(),
                normalized@ == encode_utf8(text_normalized@),
                forall|j: int| 0 <= j < i ==> span_fits(#[trigger] spans@[j], original@, normalized@),
            decreases spans@.len() - i,
        {
            let span = spans[i];
            if !(span.start_original <= span.end_original && span.end_original <= original.len()
                && span.start_normalized <= span.end_normalized && span.end_normalized
                <= normalized.len()) {
                assert(!span_fits(spans@[i as int], original@, normalized@));
                return None;
            }
            let a = vstd::slice::slice_subrange(original, span.start_original, span.end_original);
            let b = vstd::slice::slice_subrange(
                normalized,
                span.start_normalized,
                span.end_normalized,
            );
            if str_from_utf8(a).is_none() || str_from_utf8(b).is_none() {
                assert(!span_fits(spans@[i as int], original@, normalized@));
                return None;
            }
            i = i + 1;
        }
        Some(PreprocessorOutput { text_original, text_normalized, spans })
    }

    /// The original text.
    pub fn original_text(&self) -> (r: &'s str)
        ensures
            r == self.spec_original(),
    {
        self.text_original
    }

    /// The normalized text.
    pub fn normalized_text(&self) -> (r: &str)
        ensures
            r@ == self.spec_normalized(),
    {
        self.text_normalized.as_str()
    }

    /// The token of the span at `index`.
    pub fn token(&self, index: usize) -> (r: Token<'_>)
        requires
            index < self.spec_spans().len(),
        ensures
            ({
                let span = self.spec_spans()[index as int];
                &&& r.spec_original().spec_bytes() == self.spec_original().spec_bytes().subrange(
                    span.start_original as int,
                    span.end_original as int,
                )
                &&& r.spec_normalized().spec_bytes() == encode_utf8(
                    self.spec_normalized(),
                ).subrange(span.start_normalized as int, span.end_normalized as int)
                &&& r.spec_kind() == span.kind
                &&& r.spec_start() == span.start_original
                &&& r.spec_end() == span.end_original
                &&& r.spec_index() == span.index
            }),
    {
        proof {
            use_type_invariant(self);
        }
        let span = self.spans[index];
        assert(span_fits(
            self.spans@[index as int],
            self.text_original.spec_bytes(),
            encode_utf8(self.text_normalized@),
        ));
        let original = self.text_original.as_bytes();
        let normalized = self.text_normalized.as_str().as_bytes();
        let a = vstd::slice::slice_subrange(original, span.start_original, span.end_original);
        let b = vstd::slice::slice_subrange(normalized, span.start_normalized, span.end_normalized);
        let o = match str_from_utf8(a) {
            Some(t) => t,
            None => {
                assert(false);
                ""
            },
        };
        let n = match str_from_utf8(b) {
            Some(t) => t,
            None => {
                assert(false);
                ""
            },
        };
        Token {
            original: o,
            normalized: n,
            kind: span.kind,
            start: span.start_original,
            end: span.end_original,
            index_in_tokenized_text: span.index,
        }
    }

    /// The tokens, in order.
    pub fn tokens(&self) -> (r: Vec<Token<'_>>)
        ensures
            r@.len() == self.spec_spans().len(),
            forall|i: int|
                0 <= i < self.spec_spans().len() ==> span_fits(
                    #[trigger] self.spec_spans()[i],
                    self.spec_original().spec_bytes(),
                    encode_utf8(self.spec_normalized()),
                ),
            forall|i: int|
                0 <= i < r@.len() ==> {
                    let span = #[trigger] self.spec_spans()[i];
                    &&& r@[i].spec_original().spec_bytes()
                        == self.spec_original().spec_bytes().subrange(
                        span.start_original as int,
                        span.end_original as int,
                    )
                    &&& r@[i].spec_normalized().spec_bytes() == encode_utf8(
                        self.spec_normalized(),
                    ).subrange(span.start_normalized as int, span.end_normalized as int)
                    &&& r@[i].spec_kind() == span.kind
                    &&& r@[i].spec_start() == span.start_original
                    &&& r@[i].spec_end() == span.end_original
                    &&& r@[i].spec_index() == span.index
                },
    {
        proof {
            use_type_invariant(self);
        }
        let mut out: Vec<Token<'_>> = Vec::new();
        let mut i: usize = 0;
        while i < self.spans.len()
            invariant
                i <= self.spec_spans().len(),
                self.spans@ == self.spec_spans(),
                out@.len() == i,
                forall|j: int|
                    0 <= j < i ==> {
                        let span = #[trigger] self.spec_spans()[j];
                        &&& out@[j].spec_original().spec_bytes()
                            == self.spec_original().spec_bytes().subrange(
                            span.start_original as int,
                            span.end_original as int,
                        )
                        &&& out@[j].spec_normalized().spec_bytes() == encode_utf8(
                            self.spec_normalized(),
                        ).subrange(span.start_normalized as int, span.end_normalized as int)
                        &&& out@[j].spec_kind() == span.kind
                        &&& out@[j].spec_start() == span.start_original
                        &&& out@[j].spec_end() == span.end_original
                        &&& out@[j].spec_index() == span.index
                    },
            decreases self.spec_spans().len() - i,
        {
            let t = self.token(i);
            out.push(t);
            i = i + 1;
        }
        out
    }
}

/// The settings text preprocessing runs with.
pub struct Preprocessor {
    pub tokenization_config: ConfigTokenization,
    pub normalization_config: ConfigNormalization,
    pub stopwords_config: ConfigStopwords,
    pub detect_stopwords: bool,
    pub filter_stopwords: bool,
}

impl Preprocessor {
    /// Preprocessing with the given settings.
    pub fn new(
        tokenization_config: ConfigTokenization,
        normalization_config: ConfigNormalization,
        stopwords_config: ConfigStopwords,
        detect_stopwords: bool,
        filter_stopwords: bool,
    ) -> (r: Self)
        ensures
            r.tokenization_config == tokenization_config,
            r.normalization_config == normalization_config,
            r.stopwords_config == stopwords_config,
            r.detect_stopwords == detect_stopwords,
            r.filter_stopwords == filter_stopwords,
    {
        Preprocessor {
            tokenization_config,
            normalization_config,
            stopwords_config,
            detect_stopwords,
            filter_stopwords,
        }
    }
}

impl Default for Preprocessor {
    /// Special patterns detected and split for compatibility, no Unicode
    /// normalization, diacritic folding or stemming, no configured
    /// stopwords, and stopwords detected and left out.
    fn default() -> (r: Self)
        ensures
            r.tokenization_config == (ConfigTokenization {
                detect_special_patterns: true,
                compat_split_special_patterns: true,
            }),
            r.normalization_config == (ConfigNormalization {
                unicode_normalization: None,
                diacritic_folding_enabled: false,
                stemming_enabled: false,
            }),
            r.stopwords_config.allow@ == Set::<String>::empty(),
            r.stopwords_config.deny@ == Set::<String>::empty(),
            r.detect_stopwords,
            r.filter_stopwords,
    {
        Preprocessor {
            tokenization_config: ConfigTokenization {
                detect_special_patterns: true,
                compat_split_special_patterns: true,
            },
            normalization_config: ConfigNormalization {
                unicode_normalization: None,
                diacritic_folding_enabled: false,
                stemming_enabled: false,
            },
            stopwords_config: ConfigStopwords::default(),
            detect_stopwords: true,
            filter_stopwords: true,
        }
    }
}

/// Whether lexing drops stopwords, or only normalizes.
#[derive(Clone, Copy, Debug, PartialEq, Eq)]
pub enum TokenLexerMode {
    NormalizeAndCleanup,
    NormalizeOnly,
}

impl TokenLexerMode {
    /// Whether stopwords are dropped.
    pub fn should_cleanup(&self) -> (r: bool)
        ensures
            r == (*self == TokenLexerMode::NormalizeAndCleanup),
    {
        match self {
            TokenLexerMode::NormalizeAndCleanup => true,
            TokenLexerMode::NormalizeOnly => false,
        }
    }

    /// The mode of a query's language setting: only normalize when the
    /// language is set to none, else drop stopwords (of the given language,
    /// or of the detected one).
    pub fn from_query_lang(lang: &Option<QueryGenericLang>) -> (r: TokenLexerMode)
        ensures
            r == (if *lang == Some(QueryGenericLang::Disabled) {
                TokenLexerMode::NormalizeOnly
            } else {
                TokenLexerMode::NormalizeAndCleanup
            }),
    {
        match lang {
            Some(QueryGenericLang::Enabled(_)) => TokenLexerMode::NormalizeAndCleanup,
            Some(QueryGenericLang::Disabled) => TokenLexerMode::NormalizeOnly,
            None => TokenLexerMode::NormalizeAndCleanup,
        }
    }
}

/// A text waiting to be lexed, with how it is to be lexed: whether
/// stopwords are dropped, the language they are taken from when one is
/// given, and the normalization and tokenization settings.
#[derive(Clone, Copy, Debug)]
pub struct TokenLexer<'a> {
    pub mode: TokenLexerMode,
    pub lang: Option<&'static str>,
    pub text: &'a str,
    pub normalization: ConfigNormalization,
    pub tokenization: ConfigTokenization,
}

/// Builds the lexers of query texts.
pub struct TokenLexerBuilder;

impl TokenLexerBuilder {
    /// The lexer of `text`, with the mode, language hint and settings given.
    pub fn from<'a>(
        mode: TokenLexerMode,
        lang: Option<&'static str>,
        text: &'a str,
        normalization: ConfigNormalization,
        tokenization: ConfigTokenization,
    ) -> (r: TokenLexer<'a>)
        ensures
            r.mode == mode,
            r.lang == lang,
            r.text == text,
            r.normalization == normalization,
            r.tokenization == tokenization,
    {
        TokenLexer { mode, lang, text, normalization, tokenization }
    }
}

} // verus!
