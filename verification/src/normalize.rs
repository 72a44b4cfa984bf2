//! Normalization of tokens: case folding, Unicode normalization and
//! diacritic folding for words, digits only for phone numbers, special
//! chunks kept as they are.
use vstd::prelude::*;

use crate::config::{ConfigNormalization, UnicodeNormalization};
use crate::lexer::{LexerToken, SpecialTokenKind, TokenKind};
use crate::text::{ascii_chars, ascii_string};
use vstd::string::StringSliceAdditionalSpecFns;

verus! {

/// What `caseless::default_case_fold_str` gives for a text.
pub uninterp spec fn case_fold_of(text: Seq<char>) -> Seq<char>;

/// What `UnicodeNormalization::nfd` gives for characters.
pub uninterp spec fn nfd_of(chars: Seq<char>) -> Seq<char>;

/// What `UnicodeNormalization::nfc` gives for characters.
pub uninterp spec fn nfc_of(chars: Seq<char>) -> Seq<char>;

/// What `UnicodeNormalization::nfkc` gives for characters.
pub uninterp spec fn nfkc_of(chars: Seq<char>) -> Seq<char>;

/// What `unicode_normalization::char::is_combining_mark` gives.
pub uninterp spec fn combining_mark(c: char) -> bool;

/// `caseless::default_case_fold_str`, as characters. Trusted: the result
/// depends on the text alone and is named `case_fold_of`.
#[verifier::external_body]
fn case_fold(text: &str) -> (r: Vec<char>)
    ensures
        r@ == case_fold_of(text@),
{
    caseless::default_case_fold_str(text).chars().collect()
}

/// `UnicodeNormalization::nfd` over characters. Trusted: the result
/// depends on the characters alone and is named `nfd_of`.
#[verifier::external_body]
fn nfd(chars: &[char]) -> (r: Vec<char>)
    ensures
        r@ == nfd_of(chars@),
{
    unicode_normalization::UnicodeNormalization::nfd(chars.iter().copied()).collect()
}

/// `UnicodeNormalization::nfc` over characters. Trusted: the result
/// depends on the characters alone and is named `nfc_of`.
#[verifier::external_body]
fn nfc(chars: &[char]) -> (r: Vec<char>)
    ensures
        r@ == nfc_of(chars@),
{
    unicode_normalization::UnicodeNormalization::nfc(chars.iter().copied()).collect()
}

/// `UnicodeNormalization::nfkc` over characters. Trusted: the result
/// depends on the characters alone and is named `nfkc_of`.
#[verifier::external_body]
fn nfkc(chars: &[char]) -> (r: Vec<char>)
    ensures
        r@ == nfkc_of(chars@),
{
    unicode_normalization::UnicodeNormalization::nfkc(chars.iter().copied()).collect()
}

/// `unicode_normalization::char::is_combining_mark`. Trusted: the result
/// depends on the character alone and is named `combining_mark`.
#[verifier::external_body]
fn is_combining_mark(c: char) -> (r: bool)
    ensures
        r == combining_mark(c),
{
    unicode_normalization::char::is_combining_mark(c)
}

/// `String::from_iter` over characters: the string of those characters.
/// Trusted: the string holds exactly the characters, in order.
#[verifier::external_body]
fn string_of_chars(chars: &[char]) -> (r: String)
    ensures
        r@ == chars@,
{
    chars.iter().collect()
}

/// The characters without combining marks.
pub open spec fn without_marks(cs: Seq<char>) -> Seq<char>
    decreases cs.len(),
{
    if cs.len() == 0 {
        seq![]
    } else if combining_mark(cs.last()) {
        without_marks(cs.drop_last())
    } else {
        without_marks(cs.drop_last()).push(cs.last())
    }
}

/// Each character decomposed on its own, without combining marks.
pub open spec fn fold_each(cs: Seq<char>) -> Seq<char>
    decreases cs.len(),
{
    if cs.len() == 0 {
        seq![]
    } else {
        fold_each(cs.drop_last()) + without_marks(nfd_of(seq![cs.last()]))
    }
}

/// Characters in a Unicode normal form.
pub open spec fn normal_form(form: UnicodeNormalization, cs: Seq<char>) -> Seq<char> {
    match form {
        UnicodeNormalization::Nfc => nfc_of(cs),
        UnicodeNormalization::Nfkc => nfkc_of(cs),
    }
}

/// A word case folded, then put in the configured normal form and with its
/// diacritics folded when so configured.
pub open spec fn normalized_word(raw: Seq<char>, config: ConfigNormalization) -> Seq<char> {
    let folded = case_fold_of(raw);
    match (config.unicode_normalization, config.diacritic_folding_enabled) {
        (None, false) => folded,
        (Some(form), false) => normal_form(form, folded),
        (None, true) => fold_each(folded),
        (Some(form), true) => normal_form(form, without_marks(nfd_of(folded))),
    }
}

/// The digits and plus signs of a phone number's bytes.
pub open spec fn phone_digits(b: Seq<u8>) -> Seq<u8>
    decreases b.len(),
{
    if b.len() == 0 {
        seq![]
    } else if (48 <= b.last() <= 57) || b.last() == 43 {
        phone_digits(b.drop_last()).push(b.last())
    } else {
        phone_digits(b.drop_last())
    }
}

/// The normalized text of a token.
pub open spec fn normalized_token(raw: &str, kind: TokenKind, config: ConfigNormalization) -> Seq<
    char,
> {
    match kind {
        TokenKind::Special(SpecialTokenKind::PhoneNumber) => ascii_chars(phone_digits(raw.spec_bytes())),
        TokenKind::Special(_) => raw@,
        _ => normalized_word(raw@, config),
    }
}

/// The characters without combining marks.
fn drop_marks(cs: &Vec<char>) -> (r: Vec<char>)
    ensures
        r@ == without_marks(cs@),
{
    let mut out: Vec<char> = Vec::new();
    let mut i: usize = 0;
    while i < cs.len()
        invariant
            i <= cs@.len(),
            out@ == without_marks(cs@.take(i as int)),
        decreases cs@.len() - i,
    {
        assert(cs@.take(i + 1).drop_last() =~= cs@.take(i as int));
        if !is_combining_mark(cs[i]) {
            out.push(cs[i]);
        }
        i = i + 1;
    }
    assert(cs@.take(cs@.len() as int) =~= cs@);
    out
}

/// Characters in a Unicode normal form.
fn to_normal_form(form: UnicodeNormalization, cs: &Vec<char>) -> (r: Vec<char>)
    ensures
        r@ == normal_form(form, cs@),
{
    match form {
        UnicodeNormalization::Nfc => nfc(cs.as_slice()),
        UnicodeNormalization::Nfkc => nfkc(cs.as_slice()),
    }
}

/// Settings of token normalization.
#[derive(Clone, Copy, Debug, PartialEq, Eq)]
pub struct Normalizer {
    pub normalization_config: ConfigNormalization,
}

impl Normalizer {
    /// A normalizer with the given settings.
    pub fn new(normalization_config: ConfigNormalization) -> (r: Self)
        ensures
            r.normalization_config == normalization_config,
    {
        Normalizer { normalization_config }
    }

    /// The normalized text of a token: words case folded, then normalized
    /// and diacritic folded as configured; phone numbers reduced to their
    /// digits and plus signs; other special chunks as they are.
    pub fn normalize(&self, token: &LexerToken) -> (r: String)
        ensures
            r@ == normalized_token(token.raw, token.kind, self.normalization_config),
    {
        match token.kind {
            TokenKind::Special(SpecialTokenKind::PhoneNumber) => {
                let bytes = token.raw.as_bytes();
                let mut out: Vec<u8> = Vec::new();
                let mut i: usize = 0;
                while i < bytes.len()
                    invariant
                        i <= bytes@.len(),
                        out@ == phone_digits(bytes@.take(i as int)),
                        crate::text::ascii_bytes(out@),
                    decreases bytes@.len() - i,
                {
                    assert(bytes@.take(i + 1).drop_last() =~= bytes@.take(i as int));
                    let c = bytes[i];
                    if (48 <= c && c <= 57) || c == 43 {
                        out.push(c);
                    }
                    i = i + 1;
                }
                assert(bytes@.take(bytes@.len() as int) =~= bytes@);
                ascii_string(out)
            },
            TokenKind::Special(_) => token.raw.to_owned(),
            _ => {
                let folded = case_fold(token.raw);
                let config = self.normalization_config;
                let chars = match (config.unicode_normalization, config.diacritic_folding_enabled) {
                    (None, false) => folded,
                    (Some(form), false) => to_normal_form(form, &folded),
                    (None, true) => {
                        let mut out: Vec<char> = Vec::new();
                        let mut i: usize = 0;
                        while i < folded.len()
                            invariant
                                i <= folded@.len(),
                                out@ == fold_each(folded@.take(i as int)),
                            decreases folded@.len() - i,
                        {
                            assert(folded@.take(i + 1).drop_last() =~= folded@.take(i as int));
                            let one = [folded[i]];
                            assert(one@ =~= seq![folded@[i as int]]);
                            let parts = drop_marks(&nfd(&one));
                            let mut j: usize = 0;
                            let ghost before = out@;
                            while j < parts.len()
                                invariant
                                    j <= parts@.len(),
                                    out@ == before + parts@.take(j as int),
                                decreases parts@.len() - j,
                            {
                                out.push(parts[j]);
                                assert(parts@.take(j + 1) =~= parts@.take(j as int).push(parts@[j as int]));
                                j = j + 1;
                            }
                            assert(parts@.take(parts@.len() as int) =~= parts@);
                            i = i + 1;
                        }
                        assert(folded@.take(folded@.len() as int) =~= folded@);
                        out
                    },
                    (Some(form), true) => {
                        let decomposed = nfd(folded.as_slice());
                        to_normal_form(form, &drop_marks(&decomposed))
                    },
                };
                string_of_chars(chars.as_slice())
            },
        }
    }
}

} // verus!
