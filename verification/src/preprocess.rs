//! Preprocessing a text: its tokens lexed and normalized, stopwords marked
//! or left out, the normalized words joined by spaces, and the span of each
//! token kept in both texts.
use vstd::prelude::*;

use crate::config::ConfigNormalization;
use crate::lexer::{
    Lexer, Preprocessor, PreprocessorOutput, SpecialTokenKind, TokenKind, TokenSpan, span_fits,
};
use crate::lexing::{lex_spec, tokens_view, TokenView};
use crate::normalize::{normalized_token, normalized_word, phone_digits, Normalizer};
use crate::text::{append_bytes, ascii_chars, str_eq, string_from_utf8};
use vstd::string::StringSliceAdditionalSpecFns;
use vstd::utf8::{encode_utf8, encode_utf8_decode_utf8, encode_utf8_valid_utf8};

verus! {

/// The normalized text of a token given by its text and kind.
pub open spec fn normalized_view(raw: Seq<char>, kind: TokenKind, config: ConfigNormalization) -> Seq<char> {
    match kind {
        TokenKind::Special(SpecialTokenKind::PhoneNumber) => ascii_chars(phone_digits(encode_utf8(raw))),
        TokenKind::Special(_) => raw,
        _ => normalized_word(raw, config),
    }
}

/// The settings a preprocessing runs with, as values: stopwords detected,
/// stopwords left out, the normalization, and the stopwords.
pub struct PreprocessSettings {
    pub detect: bool,
    pub filter: bool,
    pub config: ConfigNormalization,
    pub stopwords: Seq<Seq<char>>,
}

/// One token preprocessed after the normalized text `emitted`: `None` when
/// its end does not fit a `usize`; else the normalized text after it and its
/// span, if it is kept.
pub open spec fn preprocess_step(
    t: TokenView,
    index: int,
    emitted: Seq<char>,
    s: PreprocessSettings,
) -> Option<(Seq<char>, Option<TokenSpan>)> {
    let w = normalized_view(t.1, t.2, s.config);
    let stop = s.detect && s.stopwords.contains(w);
    if stop && s.filter {
        Some((emitted, None))
    } else if t.0 + encode_utf8(t.1).len() > usize::MAX {
        None
    } else {
        Some(
            (
                emitted + w + seq![' '],
                Some(
                    TokenSpan {
                        start_original: t.0 as usize,
                        end_original: (t.0 + encode_utf8(t.1).len()) as usize,
                        start_normalized: encode_utf8(emitted).len() as usize,
                        end_normalized: encode_utf8(emitted + w).len() as usize,
                        kind: if stop {
                            TokenKind::Stopword
                        } else {
                            t.2
                        },
                        index: index as usize,
                    },
                ),
            ),
        )
    }
}

/// The tokens from `index` on preprocessed after the normalized text
/// `emitted` and the spans `spans`: the whole normalized text (each kept
/// word followed by a space) and all the spans.
pub open spec fn preprocess_run(
    tokens: Seq<TokenView>,
    index: int,
    emitted: Seq<char>,
    spans: Seq<TokenSpan>,
    s: PreprocessSettings,
) -> Option<(Seq<char>, Seq<TokenSpan>)>
    decreases tokens.len() - index,
{
    if index < 0 || index >= tokens.len() {
        Some((emitted, spans))
    } else {
        match preprocess_step(tokens[index], index, emitted, s) {
            None => None,
            Some(next) => preprocess_run(
                tokens,
                index + 1,
                next.0,
                match next.1 {
                    Some(span) => spans.push(span),
                    None => spans,
                },
                s,
            ),
        }
    }
}

/// The normalized text without its trailing space.
pub open spec fn without_trailing_space(emitted: Seq<char>) -> Seq<char> {
    if emitted.len() > 0 {
        emitted.drop_last()
    } else {
        emitted
    }
}

/// The encoding of two texts one after the other is their encodings one
/// after the other.
proof fn lemma_encode_concat(a: Seq<char>, b: Seq<char>)
    ensures
        encode_utf8(a + b) == encode_utf8(a) + encode_utf8(b),
    decreases a.len(),
{
    if a.len() == 0 {
        assert(a + b =~= b);
        assert(encode_utf8(a) =~= Seq::<u8>::empty());
        assert(Seq::<u8>::empty() + encode_utf8(b) =~= encode_utf8(b));
    } else {
        assert((a + b).drop_first() =~= a.drop_first() + b);
        assert((a + b)[0] == a[0]);
        lemma_encode_concat(a.drop_first(), b);
        let head = vstd::utf8::encode_scalar(a[0] as u32);
        assert(head + (encode_utf8(a.drop_first()) + encode_utf8(b)) =~= (head + encode_utf8(
            a.drop_first(),
        )) + encode_utf8(b));
    }
}

/// A space is one byte.
proof fn lemma_encode_space(a: Seq<char>)
    ensures
        encode_utf8(a + seq![' ']) == encode_utf8(a).push(32u8),
{
    lemma_encode_concat(a, seq![' ']);
    let sp = seq![' '];
    assert(vstd::utf8::is_ascii_chars(sp)) by {
        assert(sp[0] == ' ');
    }
    vstd::utf8::is_ascii_chars_encode_utf8(sp);
    assert((' ' as u8) == 32u8);
    assert(encode_utf8(sp) =~= seq![32u8]);
}

/// The words of a list of stopwords.
pub open spec fn stopword_views(stopwords: Seq<String>) -> Seq<Seq<char>> {
    stopwords.map_values(|w: String| w@)
}

/// Whether a word is one of the stopwords.
fn is_listed(stopwords: &Vec<String>, word: &str) -> (r: bool)
    ensures
        r == stopword_views(stopwords@).contains(word@),
{
    let ghost list = stopword_views(stopwords@);
    let mut k: usize = 0;
    while k < stopwords.len()
        invariant
            k <= stopwords@.len(),
            list == stopword_views(stopwords@),
            forall|i: int| 0 <= i < k ==> list[i] != word@,
        decreases stopwords@.len() - k,
    {
        if str_eq(stopwords[k].as_str(), word) {
            assert(list[k as int] == word@);
            return true;
        }
        k = k + 1;
    }
    false
}

impl Preprocessor {
    /// Preprocesses a text: it is lexed, each token normalized, a
    /// normalized word among `stopwords` (the stopwords of the text's
    /// language) marked as a stopword or, when stopwords are filtered, left
    /// out; the normalized words are joined by single spaces. Stemming is
    /// not done here. `None` when the text cannot be lexed, or a span does
    /// not fit.
    pub fn preprocess<'t>(&self, text: &'t str, stopwords: &Vec<String>) -> (r: Option<
        PreprocessorOutput<'t>,
    >)
        requires
            !self.normalization_config.stemming_enabled,
        ensures
            ({
                let s = PreprocessSettings {
                    detect: self.detect_stopwords,
                    filter: self.filter_stopwords,
                    config: self.normalization_config,
                    stopwords: stopword_views(stopwords@),
                };
                match lex_spec(
                    text,
                    self.tokenization_config.detect_special_patterns,
                    self.tokenization_config.compat_split_special_patterns,
                ) {
                    None => r is None,
                    Some(tokens) => match preprocess_run(tokens, 0, seq![], seq![], s) {
                        None => r is None,
                        Some(done) => {
                            let normalized = without_trailing_space(done.0);
                            &&& r is Some <==> forall|i: int|
                                0 <= i < done.1.len() ==> span_fits(
                                    #[trigger] done.1[i],
                                    text.spec_bytes(),
                                    encode_utf8(normalized),
                                )
                            &&& r matches Some(o) ==> o.spec_original() == text
                                && o.spec_normalized() == normalized && o.spec_spans() == done.1
                        },
                    },
                }
            }),
    {
        let ghost s = PreprocessSettings {
            detect: self.detect_stopwords,
            filter: self.filter_stopwords,
            config: self.normalization_config,
            stopwords: stopword_views(stopwords@),
        };
        let lexer = Lexer::new(self.tokenization_config);
        let normalizer = Normalizer::new(self.normalization_config);
        let tokens = match lexer.lex(text, None) {
            Some(t) => t,
            None => {
                return None;
            },
        };
        let ghost tv = tokens_view(tokens@);
        let mut out: Vec<u8> = Vec::new();
        let mut spans: Vec<TokenSpan> = Vec::new();
        let ghost mut emitted: Seq<char> = Seq::empty();
        let mut index: usize = 0;
        assert(encode_utf8(Seq::<char>::empty()) =~= Seq::<u8>::empty());
        while index < tokens.len()
            invariant
                index <= tokens@.len(),
                tv == tokens_view(tokens@),
                lex_spec(
                    text,
                    self.tokenization_config.detect_special_patterns,
                    self.tokenization_config.compat_split_special_patterns,
                ) == Some(tv),
                normalizer.normalization_config == self.normalization_config,
                s == (PreprocessSettings {
                    detect: self.detect_stopwords,
                    filter: self.filter_stopwords,
                    config: self.normalization_config,
                    stopwords: stopword_views(stopwords@),
                }),
                out@ == encode_utf8(emitted),
                emitted.len() == 0 || emitted.last() == ' ',
                preprocess_run(tv, 0, seq![], seq![], s) == preprocess_run(
                    tv,
                    index as int,
                    emitted,
                    spans@,
                    s,
                ),
            decreases tokens@.len() - index,
        {
            let token = &tokens[index];
            let ghost t = tv[index as int];
            assert(t == (token.start as int, token.raw@, token.kind));
            let word = normalizer.normalize(token);
            assert(word@ == normalized_view(t.1, t.2, s.config));
            let stop = self.detect_stopwords && is_listed(stopwords, word.as_str());
            if stop && self.filter_stopwords {
                index = index + 1;
                continue;
            }
            let raw_len = token.raw.as_bytes().len();
            assert(raw_len == encode_utf8(t.1).len());
            if token.start > usize::MAX - raw_len {
                proof {
                    assert(preprocess_step(t, index as int, emitted, s) is None);
                    assert(preprocess_run(tv, index as int, emitted, spans@, s) is None);
                }
                return None;
            }
            let end_original = token.start + raw_len;
            let start_normalized = out.len();
            append_bytes(&mut out, word.as_str().as_bytes());
            let end_normalized = out.len();
            out.push(32u8);
            proof {
                lemma_encode_concat(emitted, word@);
                lemma_encode_space(emitted + word@);
            }
            let kind = if stop {
                TokenKind::Stopword
            } else {
                token.kind
            };
            spans.push(
                TokenSpan {
                    start_original: token.start,
                    end_original,
                    start_normalized,
                    end_normalized,
                    kind,
                    index,
                },
            );
            proof {
                emitted = emitted + word@ + seq![' '];
            }
            index = index + 1;
        }
        let ghost normalized = without_trailing_space(emitted);
        let ghost before_pop = out@;
        assert(preprocess_run(tv, tokens@.len() as int, emitted, spans@, s) == Some((emitted, spans@)));
        proof {
            if emitted.len() > 0 {
                assert(encode_utf8(emitted).len() > 0);
            }
        }
        if out.len() > 0 {
            out.pop();
            proof {
                assert(emitted.len() > 0);
                let head = emitted.drop_last();
                assert(head + seq![' '] =~= emitted);
                lemma_encode_space(head);
                assert(out@ =~= before_pop.drop_last());
                assert(out@ =~= encode_utf8(head));
            }
        } else {
            proof {
                assert(emitted.len() == 0);
            }
        }
        assert(out@ == encode_utf8(normalized));
        proof {
            encode_utf8_valid_utf8(normalized);
            encode_utf8_decode_utf8(normalized);
        }
        let text_normalized = match string_from_utf8(out) {
            Some(t) => t,
            None => {
                return None;
            },
        };
        assert(text_normalized@ == normalized);
        assert(preprocess_run(tv, 0, seq![], seq![], s) == Some((emitted, spans@)));
        let ghost sp = spans@;
        let r = PreprocessorOutput::new(text, text_normalized, spans);
        assert(r is Some <==> forall|i: int|
            0 <= i < sp.len() ==> span_fits(
                #[trigger] sp[i],
                text.spec_bytes(),
                encode_utf8(normalized),
            ));
        proof {
            let s2 = PreprocessSettings {
                detect: self.detect_stopwords,
                filter: self.filter_stopwords,
                config: self.normalization_config,
                stopwords: stopword_views(stopwords@),
            };
            assert(s2 == s);
            let toks = lex_spec(
                text,
                self.tokenization_config.detect_special_patterns,
                self.tokenization_config.compat_split_special_patterns,
            )->0;
            assert(toks == tv);
            let done = preprocess_run(toks, 0, seq![], seq![], s2)->0;
            assert(done.0 == emitted);
            assert(done.1 == sp);
        }
        r
    }
}

} // verus!
