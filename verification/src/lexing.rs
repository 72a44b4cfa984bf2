//! Lexing: a text is cut into special chunks (email addresses, URLs,
//! numbers...), found by a pattern, and words between them, found by
//! Unicode word boundaries.
use vstd::prelude::*;

use crate::lexer::{Lexer, LexerToken, SpecialTokenKind, TokenKind};
use crate::text::str_from_utf8;
use vstd::string::StringSliceAdditionalSpecFns;
use vstd::utf8::{decode_utf8, encode_utf8_decode_utf8, valid_utf8};

verus! {

/// A match of a pattern: its start, end and text, and for each group asked
/// for, its start and text when it took part.
pub type CaptureView = (usize, usize, Seq<char>, Seq<Option<(usize, Seq<char>)>>);

/// A word: its start within the text and its text.
pub type WordView = (usize, Seq<char>);

/// What `regex::Regex::new(pattern)` then `captures_iter(text)` give:
/// `None` when the pattern does not compile, else every match in order.
pub uninterp spec fn regex_captures_of(
    pattern: Seq<char>,
    names: Seq<Seq<char>>,
    text: Seq<char>,
) -> Option<Seq<CaptureView>>;

/// What `unicode_segmentation::UnicodeSegmentation::unicode_word_indices`
/// gives for a text: each word with its start.
pub uninterp spec fn word_indices_of(text: Seq<char>) -> Seq<WordView>;

/// The view of the matches a pattern gives.
pub open spec fn captures_view<'t>(
    r: Option<Vec<(usize, usize, &'t str, Vec<Option<(usize, &'t str)>>)>>,
) -> Option<Seq<CaptureView>> {
    match r {
        Some(v) => Some(
            v@.map_values(
                |c: (usize, usize, &'t str, Vec<Option<(usize, &'t str)>>)|
                    (
                        c.0,
                        c.1,
                        c.2@,
                        c.3@.map_values(
                            |g: Option<(usize, &'t str)>|
                                match g {
                                    Some(p) => Some((p.0, p.1@)),
                                    None => None,
                                },
                        ),
                    ),
            ),
        ),
        None => None,
    }
}

/// `regex::Regex::new`, then `captures_iter`: for each match, its span and
/// text, and the start and text of each named group that took part.
/// Trusted: the result depends on the pattern, the names and the text
/// alone, and is named `regex_captures_of`.
#[verifier::external_body]
fn regex_captures<'t>(pattern: &str, names: &[&str], text: &'t str) -> (r: Option<
    Vec<(usize, usize, &'t str, Vec<Option<(usize, &'t str)>>)>,
>)
    ensures
        captures_view(r) == regex_captures_of(pattern@, names@.map_values(|n: &str| n@), text@),
{
    let re = regex::Regex::new(pattern).ok()?;
    Some(
        re.captures_iter(text).map(|c| {
            let m = c.get_match();
            let groups = names.iter().map(|n| c.name(n).map(|g| (g.start(), g.as_str())));
            (m.start(), m.end(), m.as_str(), groups.collect())
        }).collect(),
    )
}

/// `UnicodeSegmentation::unicode_word_indices`: each word of a text with its
/// start. Trusted: the result depends on the text alone, and is named
/// `word_indices_of`.
#[verifier::external_body]
fn word_indices<'t>(text: &'t str) -> (r: Vec<(usize, &'t str)>)
    ensures
        r@.map_values(|w: (usize, &'t str)| (w.0, w.1@)) == word_indices_of(text@),
{
    unicode_segmentation::UnicodeSegmentation::unicode_word_indices(text).collect()
}

/// The pattern of special chunks, one named group per kind.
pub const SPECIAL_PATTERN: &'static str = r"(?P<email>[\w.+-]+@[\w-]+\.[\w.-]+)|(?P<username>@[^\s]*\w)|(?P<url>\w{2,}://[^\s]*[^\s.])|(?P<ipv4>\d{1,3}(?:\.\d{1,3}){3})(?:[^\.\d]|$)|(?P<phone>\+?\d+(?:[\s\.-]?\d+){4,})|(?P<domain>[a-zA-Z0-9.-]+\.[a-zA-Z]{2,})|(?P<id>[\w\d:_-]*[\d_][\w\d:-]*)";

/// The names of the groups of the special pattern, in order.
pub open spec fn special_group_names() -> Seq<Seq<char>> {
    seq!["email"@, "username"@, "url"@, "ipv4"@, "phone"@, "domain"@, "id"@]
}

/// The kind of the special group at `index`.
pub open spec fn special_kind(index: int) -> SpecialTokenKind {
    if index == 0 {
        SpecialTokenKind::EmailAddress
    } else if index == 1 {
        SpecialTokenKind::Username
    } else if index == 2 {
        SpecialTokenKind::Url
    } else if index == 3 {
        SpecialTokenKind::Ipv4
    } else if index == 4 {
        SpecialTokenKind::PhoneNumber
    } else if index == 5 {
        SpecialTokenKind::Domain
    } else {
        SpecialTokenKind::Id
    }
}

/// A token as a value: its start, its text, its kind.
pub type TokenView = (int, Seq<char>, TokenKind);

/// The view of lexed tokens.
pub open spec fn tokens_view<'s>(tokens: Seq<LexerToken<'s>>) -> Seq<TokenView> {
    tokens.map_values(|t: LexerToken<'s>| (t.start as int, t.raw@, t.kind))
}

/// The first group, from index `k` on, that took part, with its kind.
pub open spec fn first_group_from(groups: Seq<Option<(usize, Seq<char>)>>, k: int) -> Option<
    (usize, Seq<char>, SpecialTokenKind),
>
    decreases groups.len() - k,
{
    if k < 0 || k >= groups.len() || k >= 7 {
        None
    } else {
        match groups[k] {
            Some(g) => Some((g.0, g.1, special_kind(k))),
            None => first_group_from(groups, k + 1),
        }
    }
}

/// Tokens of words found at `base` and after, of a given kind; `None` when
/// a start does not fit a `usize`.
pub open spec fn word_tokens(base: int, words: Seq<WordView>, kind: TokenKind) -> Option<
    Seq<TokenView>,
> {
    if forall|i: int| 0 <= i < words.len() ==> base + (#[trigger] words[i]).0 <= usize::MAX {
        Some(Seq::new(words.len(), |i: int| (base + words[i].0, words[i].1, kind)))
    } else {
        None
    }
}

/// The words of the bytes from `a` to `e` of a text, as tokens; `None`
/// when they are not UTF-8 text.
pub open spec fn gap_tokens(b: Seq<u8>, a: int, e: int) -> Option<Seq<TokenView>> {
    if a <= e <= b.len() && valid_utf8(b.subrange(a, e)) {
        word_tokens(a, word_indices_of(decode_utf8(b.subrange(a, e))), TokenKind::Normal)
    } else {
        None
    }
}

/// The tokens of one special match: its words as compatibility pieces (the
/// whole match when it has none), or the first named group that took part.
pub open spec fn special_tokens(c: CaptureView, split: bool) -> Option<Seq<TokenView>> {
    if split {
        let words = word_indices_of(c.2);
        if words.len() == 0 {
            Some(seq![(c.0 as int, c.2, TokenKind::Special(SpecialTokenKind::CompatSubtoken))])
        } else {
            word_tokens(c.0 as int, words, TokenKind::Special(SpecialTokenKind::CompatSubtoken))
        }
    } else {
        match first_group_from(c.3, 0) {
            Some(g) => Some(seq![(g.0 as int, g.1, TokenKind::Special(g.2))]),
            None => None,
        }
    }
}

/// Two optional runs of tokens, one after the other.
pub open spec fn join(a: Option<Seq<TokenView>>, b: Option<Seq<TokenView>>) -> Option<
    Seq<TokenView>,
> {
    match (a, b) {
        (Some(x), Some(y)) => Some(x + y),
        _ => None,
    }
}

/// The tokens of a text from byte `cursor` on, given the special matches
/// from there on: the words before each match, the match, and the words
/// after the last one. `None` when a match is out of order or place, or a
/// piece is not UTF-8 text.
pub open spec fn lex_from(b: Seq<u8>, cursor: int, caps: Seq<CaptureView>, split: bool) -> Option<
    Seq<TokenView>,
>
    decreases caps.len(),
{
    if caps.len() == 0 {
        gap_tokens(b, cursor, b.len() as int)
    } else {
        let c = caps[0];
        if !(cursor <= c.0 <= c.1 <= b.len()) {
            None
        } else {
            let before = if c.0 > cursor {
                gap_tokens(b, cursor, c.0 as int)
            } else {
                Some(seq![])
            };
            join(
                join(before, special_tokens(c, split)),
                lex_from(b, c.1 as int, caps.drop_first(), split),
            )
        }
    }
}

/// The tokens of a text under a lexer's settings.
pub open spec fn lex_spec(text: &str, detect_special: bool, split: bool) -> Option<Seq<TokenView>> {
    if detect_special {
        match regex_captures_of(SPECIAL_PATTERN@, special_group_names(), text@) {
            Some(caps) => lex_from(text.spec_bytes(), 0, caps, split),
            None => None,
        }
    } else {
        lex_from(text.spec_bytes(), 0, seq![], split)
    }
}

/// The text of bytes `a` to `e`, when they are UTF-8 text.
fn text_piece<'s>(text: &'s str, a: usize, e: usize) -> (r: Option<&'s str>)
    requires
        a <= e <= text.spec_bytes().len(),
    ensures
        r is Some <==> valid_utf8(text.spec_bytes().subrange(a as int, e as int)),
        r matches Some(t) ==> t@ == decode_utf8(text.spec_bytes().subrange(a as int, e as int)),
{
    let bytes = text.as_bytes();
    let piece = vstd::slice::slice_subrange(bytes, a, e);
    match str_from_utf8(piece) {
        Some(t) => {
            proof {
                encode_utf8_decode_utf8(t@);
            }
            Some(t)
        },
        None => None,
    }
}

/// Appends the words of `piece`, found at `base` in the text, as tokens of
/// `kind`, and returns how many there were; `None` when a start does not
/// fit a `usize`.
fn push_words<'s>(out: &mut Vec<LexerToken<'s>>, base: usize, piece: &'s str, kind: TokenKind) -> (r:
    Option<usize>)
    ensures
        r is Some <==> word_tokens(base as int, word_indices_of(piece@), kind) is Some,
        r matches Some(n) ==> n == word_indices_of(piece@).len() && tokens_view(final(out)@)
            == tokens_view(old(out)@) + word_tokens(base as int, word_indices_of(piece@), kind)->0,
{
    let words = word_indices(piece);
    let ghost ws = word_indices_of(piece@);
    assert(words@.len() == ws.len());
    let mut i: usize = 0;
    while i < words.len()
        invariant
            i <= words@.len(),
            ws.len() == words@.len(),
            ws == word_indices_of(piece@),
            forall|j: int|
                0 <= j < words@.len() ==> (#[trigger] words@[j]).0 == ws[j].0 && words@[j].1@
                    == ws[j].1,
            forall|j: int| 0 <= j < i ==> base + (#[trigger] ws[j]).0 <= usize::MAX,
            tokens_view(out@) == tokens_view(old(out)@) + Seq::new(
                i as nat,
                |j: int| (base + ws[j].0, ws[j].1, kind),
            ),
        decreases words@.len() - i,
    {
        let (start, raw) = words[i];
        assert(start == ws[i as int].0 && raw@ == ws[i as int].1) by {
            assert(words@.map_values(|w: (usize, &'s str)| (w.0, w.1@))[i as int] == ws[i as int]);
        }
        if start > usize::MAX - base {
            assert(!(base + ws[i as int].0 <= usize::MAX));
            return None;
        }
        let ghost prev = out@;
        let token = LexerToken { start: base + start, raw, kind };
        out.push(token);
        assert(out@ =~= prev.push(token));
        assert(tokens_view(out@) =~= tokens_view(prev).push((base + ws[i as int].0, ws[i as int].1, kind)));
        assert(tokens_view(out@) =~= tokens_view(old(out)@) + Seq::new(
            (i + 1) as nat,
            |j: int| (base + ws[j].0, ws[j].1, kind),
        ));
        i = i + 1;
    }
    assert(Seq::new(i as nat, |j: int| (base + ws[j].0, ws[j].1, kind)) =~= Seq::new(
        ws.len(),
        |j: int| (base + ws[j].0, ws[j].1, kind),
    ));
    Some(words.len())
}

/// The kind of the special group at `index`.
fn kind_at(index: usize) -> (r: SpecialTokenKind)
    ensures
        r == special_kind(index as int),
{
    if index == 0 {
        SpecialTokenKind::EmailAddress
    } else if index == 1 {
        SpecialTokenKind::Username
    } else if index == 2 {
        SpecialTokenKind::Url
    } else if index == 3 {
        SpecialTokenKind::Ipv4
    } else if index == 4 {
        SpecialTokenKind::PhoneNumber
    } else if index == 5 {
        SpecialTokenKind::Domain
    } else {
        SpecialTokenKind::Id
    }
}

/// The view of the groups of one match.
pub open spec fn groups_view<'s>(groups: Seq<Option<(usize, &'s str)>>) -> Seq<
    Option<(usize, Seq<char>)>,
> {
    groups.map_values(
        |g: Option<(usize, &'s str)>|
            match g {
                Some(p) => Some((p.0, p.1@)),
                None => None,
            },
    )
}

/// The first named group that took part, with its kind.
fn first_group<'s>(groups: &Vec<Option<(usize, &'s str)>>) -> (r: Option<
    (usize, &'s str, SpecialTokenKind),
>)
    ensures
        match first_group_from(groups_view(groups@), 0) {
            Some(g) => r matches Some(x) && x.0 == g.0 && x.1@ == g.1 && x.2 == g.2,
            None => r is None,
        },
{
    let ghost gv = groups_view(groups@);
    let mut idx: usize = 0;
    while idx < groups.len() && idx < 7
        invariant
            idx <= 7,
            gv == groups_view(groups@),
            first_group_from(gv, 0) == first_group_from(gv, idx as int),
        decreases 7 - idx,
    {
        match groups[idx] {
            Some((start, raw)) => {
                assert(gv[idx as int] == Some((start, raw@)));
                return Some((start, raw, kind_at(idx)));
            },
            None => {
                assert(gv[idx as int] is None);
            },
        }
        idx = idx + 1;
    }
    None
}

impl Lexer {
    /// The tokens of a text: where special chunks are detected, the words
    /// before each chunk, then the chunk (split into compatibility pieces
    /// when so configured), and the words after the last one; else only its
    /// words. `None` when what the pattern or the word splitter returned
    /// cannot be placed in the text. Words are split the same way whatever
    /// the language.
    pub fn lex<'s>(&self, text: &'s str, lang: Option<&str>) -> (r: Option<
        Vec<LexerToken<'s>>,
    >)
        ensures
            match lex_spec(
                text,
                self.config.detect_special_patterns,
                self.config.compat_split_special_patterns,
            ) {
                Some(t) => r matches Some(v) && tokens_view(v@) == t,
                None => r is None,
            },
    {
        let split = self.config.compat_split_special_patterns;
        let names: [&str; 7] = ["email", "username", "url", "ipv4", "phone", "domain", "id"];
        proof {
            reveal_strlit("email");
            reveal_strlit("username");
            reveal_strlit("url");
            reveal_strlit("ipv4");
            reveal_strlit("phone");
            reveal_strlit("domain");
            reveal_strlit("id");
            assert(names@.map_values(|n: &str| n@) =~= special_group_names());
        }
        let caps = if self.config.detect_special_patterns {
            match regex_captures(SPECIAL_PATTERN, &names, text) {
                Some(caps) => caps,
                None => {
                    return None;
                },
            }
        } else {
            Vec::new()
        };
        let ghost b = text.spec_bytes();
        let ghost cv = captures_view(Some(caps))->0;
        assert(lex_spec(
            text,
            self.config.detect_special_patterns,
            split,
        ) == lex_from(b, 0, cv, split)) by {
            if !self.config.detect_special_patterns {
                assert(cv =~= Seq::<CaptureView>::empty());
            }
        }
        let len = text.as_bytes().len();
        let mut out: Vec<LexerToken<'s>> = Vec::new();
        let mut cursor: usize = 0;
        let mut k: usize = 0;
        assert(cv.skip(0) =~= cv);
        assert(tokens_view(out@) =~= Seq::<TokenView>::empty());
        assert(Seq::<TokenView>::empty() + lex_from(b, 0, cv, split)->0 =~= lex_from(b, 0, cv, split)->0);
        while k < caps.len()
            invariant
                b == text.spec_bytes(),
                len == b.len(),
                split == self.config.compat_split_special_patterns,
                lex_spec(text, self.config.detect_special_patterns, split) == lex_from(b, 0, cv, split),
                cv == captures_view(Some(caps))->0,
                cv.len() == caps@.len(),
                k <= caps@.len(),
                cursor <= len,
                lex_from(b, 0, cv, split) == join(
                    Some(tokens_view(out@)),
                    lex_from(b, cursor as int, cv.skip(k as int), split),
                ),
            decreases caps@.len() - k,
        {
            let start = caps[k].0;
            let end = caps[k].1;
            let whole = caps[k].2;
            let ghost c = cv[k as int];
            let ghost rest = cv.skip(k as int);
            assert(rest[0] == c);
            assert(rest.drop_first() =~= cv.skip(k + 1));
            assert(c.0 == start && c.1 == end && c.2 == whole@);
            if !(cursor <= start && start <= end && end <= len) {
                return None;
            }
            let ghost before_out = tokens_view(out@);
            if start > cursor {
                match text_piece(text, cursor, start) {
                    Some(gap) => {
                        match push_words(&mut out, cursor, gap, TokenKind::Normal) {
                            Some(_) => {},
                            None => {
                                return None;
                            },
                        }
                    },
                    None => {
                        return None;
                    },
                }
            }
            let ghost after_gap = tokens_view(out@);
            if split {
                match push_words(
                    &mut out,
                    start,
                    whole,
                    TokenKind::Special(SpecialTokenKind::CompatSubtoken),
                ) {
                    Some(n) => {
                        if n == 0 {
                            out.push(
                                LexerToken {
                                    start,
                                    raw: whole,
                                    kind: TokenKind::Special(SpecialTokenKind::CompatSubtoken),
                                },
                            );
                        }
                    },
                    None => {
                        return None;
                    },
                }
            } else {
                assert(c.3 == groups_view(caps[k as int].3@));
                match first_group(&caps[k].3) {
                    Some((gstart, graw, kind)) => {
                        out.push(LexerToken { start: gstart, raw: graw, kind: TokenKind::Special(kind) });
                    },
                    None => {
                        return None;
                    },
                }
            }
            proof {
                let before = if c.0 > cursor {
                    gap_tokens(b, cursor as int, c.0 as int)
                } else {
                    Some(seq![])
                };
                assert(before == Some(after_gap.subrange(before_out.len() as int, after_gap.len() as int))) by {
                    if c.0 > cursor {
                        assert(after_gap.subrange(before_out.len() as int, after_gap.len() as int) =~= gap_tokens(b, cursor as int, c.0 as int)->0);
                    } else {
                        assert(after_gap.subrange(before_out.len() as int, after_gap.len() as int) =~= Seq::<TokenView>::empty());
                    }
                }
                let sp = special_tokens(c, split);
                assert(sp == Some(tokens_view(out@).subrange(after_gap.len() as int, tokens_view(out@).len() as int))) by {
                    assert(tokens_view(out@).subrange(after_gap.len() as int, tokens_view(out@).len() as int) =~= sp->0);
                }
                assert(tokens_view(out@) =~= before_out + before->0 + sp->0);
            }
            cursor = end;
            k = k + 1;
        }
        let ghost before_out = tokens_view(out@);
        assert(cv.skip(k as int) =~= Seq::<CaptureView>::empty());
        match text_piece(text, cursor, len) {
            Some(gap) => {
                match push_words(&mut out, cursor, gap, TokenKind::Normal) {
                    Some(_) => {},
                    None => {
                        return None;
                    },
                }
            },
            None => {
                return None;
            },
        }
        assert(tokens_view(out@) =~= before_out + gap_tokens(b, cursor as int, len as int)->0);
        Some(out)
    }
}

} // verus!
