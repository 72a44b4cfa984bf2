//! Detecting the language of a text: by `whatlang`'s trigrams on short
//! texts, by counting stopwords on longer ones, each method falling back
//! on the other.
use vstd::prelude::*;

use crate::stopwords::{script_lang_codes, script_langs};
use crate::text::str_eq;
use vstd::string::StringSliceAdditionalSpecFns;
use vstd::utf8::{decode_utf8, encode_utf8_decode_utf8, encode_utf8_valid_utf8, is_char_boundary};

verus! {

/// Texts shorter than this many bytes are not detected.
pub const TEXT_LANG_DETECT_PROCEED_OVER_CHARS: usize = 20;

/// Texts are cut to at most this many bytes before detection.
pub const TEXT_LANG_TRUNCATE_OVER_CHARS: usize = 200;

/// Texts shorter than this many bytes are detected by trigrams first.
pub const TEXT_LANG_DETECT_NGRAM_UNDER_CHARS: usize = 60;

/// What `whatlang::detect` finds in a text: the language's ISO 639-3
/// code, the script's name, and whether the guess is reliable.
pub uninterp spec fn whatlang_detection(text: Seq<char>) -> Option<(Seq<char>, Seq<char>, bool)>;

/// The name of the script `whatlang::detect_script` finds in a text.
pub uninterp spec fn whatlang_script(text: Seq<char>) -> Option<Seq<char>>;

/// Whether a character has Unicode's `White_Space` property, which is what
/// `char::is_whitespace` tests.
pub open spec fn is_white_space(c: char) -> bool {
    let u = c as u32;
    ||| 0x9 <= u <= 0xd
    ||| u == 0x20 || u == 0x85 || u == 0xa0 || u == 0x1680
    ||| 0x2000 <= u <= 0x200a
    ||| u == 0x2028 || u == 0x2029 || u == 0x202f || u == 0x205f || u == 0x3000
}

/// The words ended so far and the word being read, after reading a text
/// character by character: white space ends a word that is not empty.
pub open spec fn scan_words(text: Seq<char>) -> (Seq<Seq<char>>, Seq<char>)
    decreases text.len(),
{
    if text.len() == 0 {
        (seq![], seq![])
    } else {
        let (ws, cur) = scan_words(text.drop_last());
        if is_white_space(text.last()) {
            if cur.len() > 0 {
                (ws.push(cur), seq![])
            } else {
                (ws, cur)
            }
        } else {
            (ws, cur.push(text.last()))
        }
    }
}

/// The pieces of a text between runs of white space, none of them empty.
pub open spec fn whitespace_words(text: Seq<char>) -> Seq<Seq<char>> {
    let (ws, cur) = scan_words(text);
    if cur.len() == 0 {
        ws
    } else {
        ws.push(cur)
    }
}

/// `whatlang::detect`: the language code, the script name, and whether
/// the guess is reliable (its confidence is over 0.9). The contract names
/// the result and says nothing of how the trigrams decide.
#[verifier::external_body]
fn detect_text(text: &str) -> (r: Option<(&'static str, String, bool)>)
    ensures
        match whatlang_detection(text@) {
            None => r is None,
            Some(d) => r matches Some(x) && x.0@ == d.0 && x.1@ == d.1 && x.2 == d.2,
        },
{
    whatlang::detect(text).map(|info| (info.lang().code(), info.script().name().to_string(), info.is_reliable()))
}

/// `whatlang::detect_script`: the name of the text's main script.
#[verifier::external_body]
fn detect_script_name(text: &str) -> (r: Option<String>)
    ensures
        match whatlang_script(text@) {
            None => r is None,
            Some(s) => r matches Some(x) && x@ == s,
        },
{
    whatlang::detect_script(text).map(|script| script.name().to_string())
}

/// `whatlang::detect_lang`: the language that `whatlang::detect` finds
/// (the crate computes it so).
#[verifier::external_body]
fn detect_lang_code(text: &str) -> (r: Option<&'static str>)
    ensures
        match whatlang_detection(text@) {
            None => r is None,
            Some(d) => r matches Some(x) && x@ == d.0,
        },
{
    whatlang::detect_lang(text).map(|lang| lang.code())
}

/// `str::split_whitespace`, collected. Trusted: the pieces between runs of
/// characters with Unicode's `White_Space` property, none empty, in order,
/// as the method's documentation states.
#[verifier::external_body]
fn split_whitespace_words(text: &str) -> (r: Vec<&str>)
    ensures
        r@.map_values(|w: &str| w@) == whitespace_words(text@),
{
    text.split_whitespace().collect()
}

/// The stopwords of a language, kept in a `hashbrown::HashSet` as the
/// lexer keeps them.
#[verifier::external_body]
pub struct StopwordSet {
    set: hashbrown::HashSet<&'static str>,
}

/// The words held by a `StopwordSet`.
pub uninterp spec fn stopword_set(s: StopwordSet) -> Set<Seq<char>>;

/// `hashbrown::HashSet::from_iter`: a set of the given words. Trusted: it
/// holds those words and no other, as the documentation of sets states.
#[verifier::external_body]
fn stopword_set_of(words: &[&'static str]) -> (r: StopwordSet)
    ensures
        stopword_set(r) == words@.map_values(|w: &str| w@).to_set(),
{
    StopwordSet { set: words.iter().copied().collect() }
}

/// `hashbrown::HashSet::contains`: whether a word is held. Trusted: the
/// result is membership, as the method's documentation states.
#[verifier::external_body]
fn stopword_contains(s: &StopwordSet, word: &str) -> (r: bool)
    ensures
        r == stopword_set(*s).contains(word@),
{
    s.set.contains(word)
}

/// `hashbrown::HashSet::is_empty`: whether no word is held. Trusted: as the
/// method's documentation states.
#[verifier::external_body]
fn stopword_set_is_empty(s: &StopwordSet) -> (r: bool)
    ensures
        r == (stopword_set(*s) == Set::<Seq<char>>::empty()),
{
    s.set.is_empty()
}

impl StopwordSet {
    /// The stopwords of a language, from its list.
    pub fn from_words(words: &[&'static str]) -> (r: Self)
        ensures
            stopword_set(r) == words@.map_values(|w: &str| w@).to_set(),
    {
        stopword_set_of(words)
    }
}

/// The stopwords of a language in a table of them (by language code), or
/// none.
pub open spec fn stopwords_of(table: Seq<(Seq<char>, Set<Seq<char>>)>, lang: Seq<char>) -> Set<Seq<char>>
    decreases table.len(),
{
    if table.len() == 0 {
        Set::empty()
    } else if table[0].0 == lang {
        table[0].1
    } else {
        stopwords_of(table.drop_first(), lang)
    }
}

/// The view of a table of stopwords.
pub open spec fn table_view(table: Seq<(&str, StopwordSet)>) -> Seq<(Seq<char>, Set<Seq<char>>)> {
    table.map_values(|e: (&str, StopwordSet)| (e.0@, stopword_set(e.1)))
}

/// How many of the words are stopwords.
pub open spec fn stopword_hits(words: Seq<Seq<char>>, stopwords: Set<Seq<char>>) -> nat
    decreases words.len(),
{
    if words.len() == 0 {
        0
    } else {
        stopword_hits(words.drop_last(), stopwords) + if stopwords.contains(words.last()) {
            1nat
        } else {
            0nat
        }
    }
}

/// The language with the most stopwords among the words, tried in order
/// (the first wins a tie), with its count; none when no stopword is found.
pub open spec fn best_lang(
    langs: Seq<&'static str>,
    words: Seq<Seq<char>>,
    table: Seq<(Seq<char>, Set<Seq<char>>)>,
) -> (nat, Option<&'static str>)
    decreases langs.len(),
{
    if langs.len() == 0 {
        (0, None)
    } else {
        let prev = best_lang(langs.drop_last(), words, table);
        let stopwords = stopwords_of(table, langs.last()@);
        let count = stopword_hits(words, stopwords);
        if stopwords != Set::<Seq<char>>::empty() && count > 0 && count > prev.0 {
            (count, Some(langs.last()))
        } else {
            prev
        }
    }
}

/// The language guessed from stopwords: among the languages of the
/// script, the one with the most stopwords in the text.
pub open spec fn guessed_lang(
    text: Seq<char>,
    script: Seq<char>,
    table: Seq<(Seq<char>, Set<Seq<char>>)>,
) -> Option<&'static str> {
    best_lang(script_lang_codes(script), whitespace_words(text), table).1
}

/// The index of the first entry of a language in the table.
fn find_lang(table: &Vec<(&str, StopwordSet)>, lang: &str) -> (r: Option<usize>)
    ensures
        match r {
            Some(i) => i < table@.len() && stopwords_of(table_view(table@), lang@) == table_view(
                table@,
            )[i as int].1,
            None => stopwords_of(table_view(table@), lang@) == Set::<Seq<char>>::empty(),
        },
{
    let ghost tv = table_view(table@);
    let mut i: usize = 0;
    proof {
        assert(tv.skip(0) =~= tv);
    }
    while i < table.len()
        invariant
            i <= table@.len(),
            tv == table_view(table@),
            stopwords_of(tv, lang@) == stopwords_of(tv.skip(i as int), lang@),
        decreases table@.len() - i,
    {
        proof {
            let rest = tv.skip(i as int);
            assert(rest[0] == tv[i as int]);
            assert(rest.drop_first() =~= tv.skip(i + 1));
        }
        if str_eq(table[i].0, lang) {
            return Some(i);
        }
        i = i + 1;
    }
    proof {
        assert(tv.skip(i as int) =~= Seq::<(Seq<char>, Set<Seq<char>>)>::empty());
    }
    None
}

/// How many of the words are among the stopwords.
fn count_hits(words: &Vec<&str>, stopwords: &StopwordSet) -> (r: usize)
    ensures
        r == stopword_hits(words@.map_values(|w: &str| w@), stopword_set(*stopwords)),
        r <= words@.len(),
{
    let ghost wv = words@.map_values(|w: &str| w@);
    let ghost sv = stopword_set(*stopwords);
    let mut count: usize = 0;
    let mut i: usize = 0;
    proof {
        assert(wv.take(0) =~= Seq::<Seq<char>>::empty());
    }
    while i < words.len()
        invariant
            i <= words@.len(),
            wv == words@.map_values(|w: &str| w@),
            sv == stopword_set(*stopwords),
            count == stopword_hits(wv.take(i as int), sv),
            count <= i,
        decreases words@.len() - i,
    {
        let found = stopword_contains(stopwords, words[i]);
        proof {
            let next = wv.take(i + 1);
            assert(next.drop_last() =~= wv.take(i as int));
            assert(next.last() == words@[i as int]@);
        }
        if found {
            count = count + 1;
        }
        i = i + 1;
    }
    proof {
        assert(wv.take(words@.len() as int) =~= wv);
    }
    count
}

/// Whether a word is a stopword of a language (never, without one).
pub fn is_stopword(word: &str, lang: Option<&str>, stopwords: &Vec<(&str, StopwordSet)>) -> (r: bool)
    ensures
        r == match lang {
            None => false,
            Some(l) => stopwords_of(table_view(stopwords@), l@).contains(word@),
        },
{
    match lang {
        None => false,
        Some(l) => match find_lang(stopwords, l) {
            None => false,
            Some(i) => stopword_contains(&stopwords[i].1, word),
        },
    }
}

/// Guesses the language of a text from its stopwords: among the languages
/// of the script named `script`, the one most of whose stopwords (from
/// `stopwords`, by language code) the text holds, the first one on a tie;
/// none when it holds none.
pub fn guess_lang(text: &str, script: &str, stopwords: &Vec<(&str, StopwordSet)>) -> (r: Option<
    &'static str,
>)
    ensures
        r == guessed_lang(text@, script@, table_view(stopwords@)),
{
    let langs = script_langs(script);
    let words = split_whitespace_words(text);
    let ghost wv = words@.map_values(|w: &str| w@);
    let ghost tv = table_view(stopwords@);
    let mut likely_count: usize = 0;
    let mut likely_lang: Option<&'static str> = None;
    let mut k: usize = 0;
    proof {
        assert(langs@.take(0) =~= Seq::<&'static str>::empty());
    }
    while k < langs.len()
        invariant
            k <= langs@.len(),
            langs@ == script_lang_codes(script@),
            wv == whitespace_words(text@),
            wv == words@.map_values(|w: &str| w@),
            tv == table_view(stopwords@),
            (likely_count as nat, likely_lang) == best_lang(langs@.take(k as int), wv, tv),
            likely_count <= words@.len(),
        decreases langs@.len() - k,
    {
        let lang = langs[k];
        proof {
            let next = langs@.take(k + 1);
            assert(next.drop_last() =~= langs@.take(k as int));
            assert(next.last() == lang);
        }
        match find_lang(stopwords, lang) {
            Some(i) => {
                let list = &stopwords[i].1;
                proof {
                    assert(tv[i as int].1 == stopword_set(*list));
                }
                if !stopword_set_is_empty(list) {
                    let count = count_hits(&words, list);
                    if count > 0 && count > likely_count {
                        likely_count = count;
                        likely_lang = Some(lang);
                    }
                }
            },
            None => {},
        }
        k = k + 1;
    }
    proof {
        assert(langs@.take(langs@.len() as int) =~= langs@);
    }
    likely_lang
}

/// A language code, as text.
pub open spec fn code_view(code: Option<&'static str>) -> Option<Seq<char>> {
    match code {
        Some(c) => Some(c@),
        None => None,
    }
}

/// The longest prefix of valid UTF-8 bytes, at most `max` bytes long, that
/// ends on a character boundary: its length.
pub open spec fn floor_boundary(bytes: Seq<u8>, max: nat) -> nat
    decreases max,
{
    if max == 0 || is_char_boundary(bytes, max as int) {
        max
    } else {
        floor_boundary(bytes, (max - 1) as nat)
    }
}

/// The length of the text that detection looks at: the text's, or the
/// text cut to at most 200 bytes on a character boundary.
pub open spec fn detection_len(bytes: Seq<u8>) -> nat {
    if bytes.len() > TEXT_LANG_TRUNCATE_OVER_CHARS {
        floor_boundary(bytes, TEXT_LANG_TRUNCATE_OVER_CHARS as nat)
    } else {
        bytes.len()
    }
}

/// Detection by trigrams, with the stopwords guess standing in for an
/// unreliable result when it finds a language.
pub open spec fn slow_detection(text: Seq<char>, table: Seq<(Seq<char>, Set<Seq<char>>)>) -> Option<
    Seq<char>,
> {
    match whatlang_detection(text) {
        None => None,
        Some(d) => if !d.2 {
            match guessed_lang(text, d.1, table) {
                Some(l) => Some(l@),
                None => Some(d.0),
            }
        } else {
            Some(d.0)
        },
    }
}

/// Detection by stopwords within the text's script, with trigrams as the
/// fallback.
pub open spec fn fast_detection(text: Seq<char>, table: Seq<(Seq<char>, Set<Seq<char>>)>) -> Option<
    Seq<char>,
> {
    match whatlang_script(text) {
        None => None,
        Some(script) => match guessed_lang(text, script, table) {
            Some(l) => Some(l@),
            None => match whatlang_detection(text) {
                None => None,
                Some(d) => Some(d.0),
            },
        },
    }
}

/// The language detected in a text: none under 20 bytes; else, on the
/// text cut to at most 200 bytes, by trigrams under 60 bytes and by
/// stopwords from there.
pub open spec fn detected_lang(text: &str, table: Seq<(Seq<char>, Set<Seq<char>>)>) -> Option<
    Seq<char>,
> {
    let b = text.spec_bytes();
    if b.len() < TEXT_LANG_DETECT_PROCEED_OVER_CHARS {
        None
    } else {
        let n = detection_len(b);
        let t = decode_utf8(b.subrange(0, n as int));
        if n < TEXT_LANG_DETECT_NGRAM_UNDER_CHARS {
            slow_detection(t, table)
        } else {
            fast_detection(t, table)
        }
    }
}

/// Detects a language by trigrams; when the result is not reliable, a
/// language guessed from stopwords takes its place.
pub fn detect_lang_slow(safe_text: &str, stopwords: &Vec<(&str, StopwordSet)>) -> (r: Option<
    &'static str,
>)
    ensures
        code_view(r) == slow_detection(safe_text@, table_view(stopwords@)),
{
    match detect_text(safe_text) {
        Some((lang, script, reliable)) => {
            if !reliable {
                match guess_lang(safe_text, script.as_str(), stopwords) {
                    Some(alternate) => Some(alternate),
                    None => Some(lang),
                }
            } else {
                Some(lang)
            }
        },
        None => None,
    }
}

/// Detects a language by the stopwords of the text's script, falling back
/// on trigrams.
pub fn detect_lang_fast(safe_text: &str, stopwords: &Vec<(&str, StopwordSet)>) -> (r: Option<
    &'static str,
>)
    ensures
        code_view(r) == fast_detection(safe_text@, table_view(stopwords@)),
{
    match detect_script_name(safe_text) {
        Some(script) => match guess_lang(safe_text, script.as_str(), stopwords) {
            Some(lang) => Some(lang),
            None => detect_lang_code(safe_text),
        },
        None => None,
    }
}

/// Detects the language of a text, given the stopwords of each language:
/// none for a text under 20 bytes; else the text is cut to at most 200
/// bytes (on a character boundary), and detected by trigrams when shorter
/// than 60 bytes, by stopwords otherwise.
pub fn detect_lang(text: &str, stopwords: &Vec<(&str, StopwordSet)>) -> (r: Option<&'static str>)
    ensures
        code_view(r) == detected_lang(text, table_view(stopwords@)),
{
    let len = text.as_bytes().len();
    if len < TEXT_LANG_DETECT_PROCEED_OVER_CHARS {
        return None;
    }
    proof {
        encode_utf8_valid_utf8(text@);
        encode_utf8_decode_utf8(text@);
    }
    let ghost b = text.spec_bytes();
    let safe_text: &str = if len > TEXT_LANG_TRUNCATE_OVER_CHARS {
        let mut end: usize = TEXT_LANG_TRUNCATE_OVER_CHARS;
        while end > 0 && !text.is_char_boundary(end)
            invariant
                end <= TEXT_LANG_TRUNCATE_OVER_CHARS,
                b == text.spec_bytes(),
                vstd::utf8::valid_utf8(b),
                floor_boundary(b, TEXT_LANG_TRUNCATE_OVER_CHARS as nat) == floor_boundary(b, end as nat),
            decreases end,
        {
            end = end - 1;
        }
        proof {
            assert(is_char_boundary(b, 0));
            assert(floor_boundary(b, end as nat) == end);
        }
        let (head, _tail) = text.split_at(end);
        proof {
            encode_utf8_decode_utf8(head@);
            assert(head.spec_bytes() =~= b.subrange(0, end as int));
        }
        head
    } else {
        proof {
            assert(b.subrange(0, b.len() as int) =~= b);
            encode_utf8_decode_utf8(text@);
        }
        text
    };
    proof {
        let n = detection_len(b);
        assert(safe_text.spec_bytes() =~= b.subrange(0, n as int));
        assert(safe_text@ == decode_utf8(b.subrange(0, n as int)));
    }
    if safe_text.as_bytes().len() < TEXT_LANG_DETECT_NGRAM_UNDER_CHARS {
        detect_lang_slow(safe_text, stopwords)
    } else {
        detect_lang_fast(safe_text, stopwords)
    }
}

} // verus!
