//! A word graph with its pending actions: words are pushed and popped
//! against the graph as it stands, rebuilt into it on consolidation, and
//! looked up (listed, counted, or matched with typos).
use vstd::prelude::*;

use crate::config::ConfigStoreFSTGraph;
use crate::backup::backup_of;
use crate::consolidate::{consolidate_graph, rebuild_took, words_increasing, ConsolidateOutcome};
use crate::encoding::lex_lt;
use crate::fst_graph::{
    built_graph_bytes, graph_all_words, graph_byte_size, graph_contains, graph_empty,
    graph_from_bytes, graph_len, graph_size, graph_sound, graph_typos, graph_words,
    levenshtein_matches, words_of_graph_bytes,
};
use crate::graph::{typo_factor, typo_factor_spec, word_over_limit, FstRepositoryConfig, WORD_LIMIT_LENGTH};
use crate::pending::{
    action_of, after_pop, after_push, no_pending, pending_words, push_may_insert, with_action,
    PendingAction, PendingWords,
};
use crate::lexer::PreprocessorOutput;
use crate::text::{str_from_utf8, string_from_utf8};
use vstd::string::StringSliceAdditionalSpecFns;
use vstd::utf8::{decode_utf8, encode_utf8, valid_utf8};

verus! {

/// A graph whose bytes the graph builder wrote, so that its lookups hold
/// to what they state.
struct SoundGraph {
    set: fst::Set,
}

impl SoundGraph {
    #[verifier::type_invariant]
    spec fn sound(self) -> bool {
        graph_sound(self.set)
    }
}

/// A word graph of a bucket, the actions pending on it, whether it needs a
/// consolidation, and the lookups it allows.
pub struct FstStore {
    graph: SoundGraph,
    pending: PendingWords,
    should_consolidate: bool,
    action_config: FstRepositoryConfig,
}

/// The pending actions after one push, and whether it was committed.
pub open spec fn push_step(
    m: Map<Seq<u8>, PendingAction>,
    word: Seq<u8>,
    graph: Seq<Seq<u8>>,
    graph_bytes: nat,
    config: ConfigStoreFSTGraph,
) -> (Map<Seq<u8>, PendingAction>, bool) {
    if word.len() > WORD_LIMIT_LENGTH {
        (m, false)
    } else {
        let step = after_push(
            action_of(m, word),
            push_may_insert(
                graph.contains(word),
                graph_bytes as usize,
                graph.len() as usize,
                m.dom().len(),
                config,
            ),
        );
        (with_action(m, word, step.0), step.1)
    }
}

/// The pending actions after pushes of words one after the other, and
/// whether any was committed.
pub open spec fn push_steps(
    m: Map<Seq<u8>, PendingAction>,
    words: Seq<Seq<u8>>,
    graph: Seq<Seq<u8>>,
    graph_bytes: nat,
    config: ConfigStoreFSTGraph,
) -> (Map<Seq<u8>, PendingAction>, bool)
    decreases words.len(),
{
    if words.len() == 0 {
        (m, false)
    } else {
        let first = push_step(m, words[0], graph, graph_bytes, config);
        let rest = push_steps(first.0, words.drop_first(), graph, graph_bytes, config);
        (rest.0, first.1 || rest.1)
    }
}

/// The pending actions after one pop, and whether it was committed.
pub open spec fn pop_step(
    m: Map<Seq<u8>, PendingAction>,
    word: Seq<u8>,
    graph: Seq<Seq<u8>>,
) -> (Map<Seq<u8>, PendingAction>, bool) {
    if word.len() > WORD_LIMIT_LENGTH {
        (m, false)
    } else {
        let step = after_pop(action_of(m, word), graph.contains(word));
        (with_action(m, word, step.0), step.1)
    }
}

/// The pending actions after terms with their new frequencies, one after
/// the other: a term that no document holds any more is popped, any other
/// is pushed; and whether any of these was committed.
pub open spec fn frequency_steps(
    m: Map<Seq<u8>, PendingAction>,
    terms: Seq<(Seq<u8>, u32)>,
    graph: Seq<Seq<u8>>,
    graph_bytes: nat,
    config: ConfigStoreFSTGraph,
) -> (Map<Seq<u8>, PendingAction>, bool)
    decreases terms.len(),
{
    if terms.len() == 0 {
        (m, false)
    } else {
        let first = if terms[0].1 == 0 {
            pop_step(m, terms[0].0, graph)
        } else {
            push_step(m, terms[0].0, graph, graph_bytes, config)
        };
        let rest = frequency_steps(first.0, terms.drop_first(), graph, graph_bytes, config);
        (rest.0, first.1 || rest.1)
    }
}

/// The text and score of each suggestion.
pub open spec fn suggestions_text(s: Seq<(String, u16)>) -> Seq<(Seq<char>, u16)> {
    s.map_values(|x: (String, u16)| (x.0@, x.1))
}

/// The words suggested so far.
pub open spec fn suggested_words(found: Seq<(Seq<char>, u16)>) -> Seq<Seq<char>> {
    found.map_values(|x: (Seq<char>, u16)| x.0)
}

/// The suggestions after taking those of a stream in order, each word
/// once, and stopping as soon as `limit` are held.
pub open spec fn take_suggestions(
    found: Seq<(Seq<char>, u16)>,
    stream: Seq<(Seq<char>, u16)>,
    limit: int,
) -> Seq<(Seq<char>, u16)>
    decreases stream.len(),
{
    if stream.len() == 0 {
        found
    } else if suggested_words(found).contains(stream[0].0) {
        take_suggestions(found, stream.drop_first(), limit)
    } else if found.len() + 1 >= limit {
        found.push(stream[0])
    } else {
        take_suggestions(found.push(stream[0]), stream.drop_first(), limit)
    }
}

/// The score of a word found with `factor` typos.
pub open spec fn typo_score(factor: u32) -> u16 {
    if factor <= 65535 {
        factor as u16
    } else {
        65535u16
    }
}

/// The suggestions after looking up words with `factor` typos, then one
/// more, and so on up to `max`, while fewer than `limit` are held and the
/// lookups can be made.
pub open spec fn typo_rounds(
    found: Seq<(Seq<char>, u16)>,
    graph: Seq<Seq<u8>>,
    word: Seq<char>,
    factor: u32,
    max: u32,
    limit: int,
) -> Seq<(Seq<char>, u16)>
    decreases max - factor,
{
    if found.len() >= limit || factor > max {
        found
    } else {
        match levenshtein_matches(graph, word, factor) {
            None => found,
            Some(ws) => {
                let next = take_suggestions(
                    found,
                    utf8_words(ws).map_values(|w: Seq<char>| (w, typo_score(factor))),
                    limit,
                );
                if factor == max {
                    next
                } else {
                    typo_rounds(next, graph, word, (factor + 1) as u32, max, limit)
                }
            },
        }
    }
}

/// The suggestions for a word (see `FstStore::suggest_words`): none when
/// the word is too long or nothing is found.
pub open spec fn suggestion_outcome(
    graph: Seq<Seq<u8>>,
    config: FstRepositoryConfig,
    word: Seq<char>,
    original_word_len: usize,
    limit: usize,
    max_typo_factor: Option<u32>,
    completions: Option<Seq<(Seq<char>, u16)>>,
) -> Option<Seq<(Seq<char>, u16)>> {
    if encode_utf8(word).len() > WORD_LIMIT_LENGTH {
        None
    } else {
        let after_prefix = match completions {
            Some(c) => if config.prefix_matching_enabled {
                take_suggestions(Seq::empty(), c, limit as int)
            } else {
                Seq::empty()
            },
            None => Seq::empty(),
        };
        let max = match max_typo_factor {
            Some(m) => m,
            None => typo_factor_spec(original_word_len as nat),
        };
        let all = if config.fuzzy_matching_enabled && after_prefix.len() < limit {
            typo_rounds(after_prefix, graph, word, 1, max, limit as int)
        } else {
            after_prefix
        };
        if all.len() == 0 {
            None
        } else {
            Some(all)
        }
    }
}

/// The words up to the first that is not UTF-8, decoded.
pub open spec fn utf8_words(ws: Seq<Seq<u8>>) -> Seq<Seq<char>>
    decreases ws.len(),
{
    if ws.len() == 0 || !valid_utf8(ws[0]) {
        seq![]
    } else {
        seq![decode_utf8(ws[0])] + utf8_words(ws.drop_first())
    }
}

/// The text and score of each completion handed in, if any.
pub open spec fn completion_texts(c: Option<Vec<(String, u16)>>) -> Option<Seq<(Seq<char>, u16)>> {
    match c {
        Some(v) => Some(suggestions_text(v@)),
        None => None,
    }
}

/// Whether a suggested word is a word of the graph, or one of the
/// completions handed in.
pub open spec fn suggestion_source(
    graph: Seq<Seq<u8>>,
    completions: Option<Seq<(Seq<char>, u16)>>,
    word: Seq<char>,
) -> bool {
    ||| graph.contains(encode_utf8(word))
    ||| (completions matches Some(c) && suggested_words(c).contains(word))
}

/// Whether every word is UTF-8.
pub open spec fn all_utf8(ws: Seq<Seq<u8>>) -> bool {
    forall|i: int| 0 <= i < ws.len() ==> valid_utf8(#[trigger] ws[i])
}

impl FstStore {
    /// The words of the graph.
    pub closed spec fn spec_words(&self) -> Seq<Seq<u8>> {
        graph_words(self.graph.set)
    }

    /// The graph's size in bytes.
    pub closed spec fn spec_size(&self) -> nat {
        graph_size(self.graph.set)
    }

    /// The pending actions.
    pub closed spec fn spec_pending(&self) -> Map<Seq<u8>, PendingAction> {
        pending_words(self.pending)
    }

    /// Whether the graph needs a consolidation.
    pub closed spec fn spec_should_consolidate(&self) -> bool {
        self.should_consolidate
    }

    /// The lookups the graph allows.
    pub closed spec fn spec_config(&self) -> FstRepositoryConfig {
        self.action_config
    }

    /// A store over a graph that the graph builder wrote, with nothing
    /// pending.
    pub fn new(graph: fst::Set, action_config: FstRepositoryConfig) -> (r: Self)
        requires
            graph_sound(graph),
        ensures
            r.spec_words() == graph_words(graph),
            r.spec_size() == graph_size(graph),
            r.spec_pending() == no_pending(),
            !r.spec_should_consolidate(),
            r.spec_config() == action_config,
    {
        FstStore {
            graph: SoundGraph { set: graph },
            pending: PendingWords::new(),
            should_consolidate: false,
            action_config,
        }
    }

    /// A store over the empty graph, with nothing pending.
    pub fn empty(action_config: FstRepositoryConfig) -> (r: Self)
        ensures
            r.spec_words() == Seq::<Seq<u8>>::empty(),
            r.spec_pending() == no_pending(),
            !r.spec_should_consolidate(),
            r.spec_config() == action_config,
    {
        FstStore::new(graph_empty(), action_config)
    }

    /// A store over the graph that bytes written by the graph builder
    /// encode, with nothing pending.
    pub fn from_bytes(bytes: Vec<u8>, action_config: FstRepositoryConfig) -> (r: Option<Self>)
        requires
            built_graph_bytes(bytes@),
        ensures
            r matches Some(s) && s.spec_words() == words_of_graph_bytes(bytes@) && s.spec_size()
                == bytes@.len() && s.spec_pending() == no_pending() && !s.spec_should_consolidate()
                && s.spec_config() == action_config,
    {
        match graph_from_bytes(bytes) {
            Some(graph) => Some(FstStore::new(graph, action_config)),
            None => None,
        }
    }

    /// The number of words of the graph.
    pub fn cardinality(&self) -> (r: usize)
        ensures
            r == self.spec_words().len(),
    {
        proof {
            use_type_invariant(&self.graph);
        }
        graph_len(&self.graph.set)
    }

    /// The number of words with a pending action.
    pub fn pending_count(&self) -> (r: usize)
        ensures
            r == self.spec_pending().dom().len(),
    {
        self.pending.len()
    }

    /// Whether the graph needs a consolidation.
    pub fn should_consolidate(&self) -> (r: bool)
        ensures
            r == self.spec_should_consolidate(),
    {
        self.should_consolidate
    }

    /// Schedules adding a word to the graph, against the graph as it
    /// stands; a committed push marks the graph for consolidation.
    pub fn push_word(&mut self, word: &str, config: &ConfigStoreFSTGraph) -> (r: bool)
        requires
            config.max_size * 1024 <= usize::MAX,
        ensures
            ({
                let step = push_step(
                    old(self).spec_pending(),
                    word.spec_bytes(),
                    old(self).spec_words(),
                    old(self).spec_size(),
                    *config,
                );
                &&& r == step.1
                &&& final(self).spec_pending() == step.0
            }),
            final(self).spec_words() == old(self).spec_words(),
            final(self).spec_size() == old(self).spec_size(),
            final(self).spec_config() == old(self).spec_config(),
            final(self).spec_should_consolidate() == (old(self).spec_should_consolidate() || r),
    {
        proof {
            use_type_invariant(&self.graph);
        }
        let bytes = word.as_bytes();
        let in_graph = graph_contains(&self.graph.set, bytes);
        let graph_bytes = graph_byte_size(&self.graph.set);
        let graph_words_count = graph_len(&self.graph.set);
        let committed = self.pending.push_word(
            word,
            in_graph,
            graph_bytes,
            graph_words_count,
            config,
        );
        if committed {
            self.should_consolidate = true;
        }
        committed
    }

    /// Schedules adding words to the graph, one after the other.
    pub fn push_words(&mut self, terms: &Vec<&str>, config: &ConfigStoreFSTGraph)
        requires
            config.max_size * 1024 <= usize::MAX,
        ensures
            ({
                let steps = push_steps(
                    old(self).spec_pending(),
                    terms@.map_values(|t: &str| t.spec_bytes()),
                    old(self).spec_words(),
                    old(self).spec_size(),
                    *config,
                );
                &&& final(self).spec_pending() == steps.0
                &&& final(self).spec_should_consolidate() == (old(self).spec_should_consolidate()
                    || steps.1)
            }),
            final(self).spec_words() == old(self).spec_words(),
            final(self).spec_size() == old(self).spec_size(),
            final(self).spec_config() == old(self).spec_config(),
    {
        let ghost all = terms@.map_values(|t: &str| t.spec_bytes());
        let ghost m0 = self.spec_pending();
        let ghost s0 = self.spec_should_consolidate();
        let ghost total = push_steps(m0, all, self.spec_words(), self.spec_size(), *config);
        let ghost mut committed = false;
        let mut k: usize = 0;
        assert(all.skip(0) =~= all);
        while k < terms.len()
            invariant
                k <= terms@.len(),
                all == terms@.map_values(|t: &str| t.spec_bytes()),
                config.max_size * 1024 <= usize::MAX,
                self.spec_words() == old(self).spec_words(),
                self.spec_size() == old(self).spec_size(),
                self.spec_config() == old(self).spec_config(),
                total == push_steps(m0, all, old(self).spec_words(), old(self).spec_size(), *config),
                total.0 == push_steps(
                    self.spec_pending(),
                    all.skip(k as int),
                    self.spec_words(),
                    self.spec_size(),
                    *config,
                ).0,
                total.1 == (committed || push_steps(
                    self.spec_pending(),
                    all.skip(k as int),
                    self.spec_words(),
                    self.spec_size(),
                    *config,
                ).1),
                self.spec_should_consolidate() == (s0 || committed),
            decreases terms@.len() - k,
        {
            proof {
                let rest = all.skip(k as int);
                assert(rest[0] == terms@[k as int].spec_bytes());
                assert(rest.drop_first() =~= all.skip(k + 1));
            }
            let r = self.push_word(terms[k], config);
            proof {
                committed = committed || r;
            }
            k = k + 1;
        }
        proof {
            assert(all.skip(terms@.len() as int) =~= Seq::<Seq<u8>>::empty());
        }
    }

    /// Schedules removing a word from the graph, against the graph as it
    /// stands; a committed pop marks the graph for consolidation.
    pub fn pop_word(&mut self, word: &str) -> (r: bool)
        ensures
            word.spec_bytes().len() > WORD_LIMIT_LENGTH ==> !r && final(self).spec_pending()
                == old(self).spec_pending(),
            word.spec_bytes().len() <= WORD_LIMIT_LENGTH ==> ({
                let m = old(self).spec_pending();
                let step = after_pop(
                    action_of(m, word.spec_bytes()),
                    old(self).spec_words().contains(word.spec_bytes()),
                );
                &&& r == step.1
                &&& final(self).spec_pending() == with_action(m, word.spec_bytes(), step.0)
            }),
            final(self).spec_words() == old(self).spec_words(),
            final(self).spec_size() == old(self).spec_size(),
            final(self).spec_config() == old(self).spec_config(),
            final(self).spec_should_consolidate() == (old(self).spec_should_consolidate() || r),
    {
        proof {
            use_type_invariant(&self.graph);
        }
        let in_graph = graph_contains(&self.graph.set, word.as_bytes());
        let committed = self.pending.pop_word(word, in_graph);
        if committed {
            self.should_consolidate = true;
        }
        committed
    }

    /// Schedules, for each term with its new frequency, a pop when no
    /// document holds the term any more, else a push.
    pub fn apply_term_frequencies(
        &mut self,
        frequencies: &Vec<(String, u32)>,
        config: &ConfigStoreFSTGraph,
    )
        requires
            config.max_size * 1024 <= usize::MAX,
        ensures
            ({
                let steps = frequency_steps(
                    old(self).spec_pending(),
                    frequencies@.map_values(|f: (String, u32)| (encode_utf8(f.0@), f.1)),
                    old(self).spec_words(),
                    old(self).spec_size(),
                    *config,
                );
                &&& final(self).spec_pending() == steps.0
                &&& final(self).spec_should_consolidate() == (old(self).spec_should_consolidate()
                    || steps.1)
            }),
            final(self).spec_words() == old(self).spec_words(),
            final(self).spec_size() == old(self).spec_size(),
            final(self).spec_config() == old(self).spec_config(),
    {
        let ghost all = frequencies@.map_values(|f: (String, u32)| (encode_utf8(f.0@), f.1));
        let ghost m0 = self.spec_pending();
        let ghost s0 = self.spec_should_consolidate();
        let ghost total = frequency_steps(m0, all, self.spec_words(), self.spec_size(), *config);
        let ghost mut committed = false;
        let mut k: usize = 0;
        assert(all.skip(0) =~= all);
        while k < frequencies.len()
            invariant
                k <= frequencies@.len(),
                all == frequencies@.map_values(|f: (String, u32)| (encode_utf8(f.0@), f.1)),
                config.max_size * 1024 <= usize::MAX,
                self.spec_words() == old(self).spec_words(),
                self.spec_size() == old(self).spec_size(),
                self.spec_config() == old(self).spec_config(),
                total == frequency_steps(
                    m0,
                    all,
                    old(self).spec_words(),
                    old(self).spec_size(),
                    *config,
                ),
                total.0 == frequency_steps(
                    self.spec_pending(),
                    all.skip(k as int),
                    self.spec_words(),
                    self.spec_size(),
                    *config,
                ).0,
                total.1 == (committed || frequency_steps(
                    self.spec_pending(),
                    all.skip(k as int),
                    self.spec_words(),
                    self.spec_size(),
                    *config,
                ).1),
                self.spec_should_consolidate() == (s0 || committed),
            decreases frequencies@.len() - k,
        {
            let term = frequencies[k].0.as_str();
            proof {
                let rest = all.skip(k as int);
                assert(rest[0] == all[k as int]);
                assert(rest.drop_first() =~= all.skip(k + 1));
            }
            let r = if frequencies[k].1 == 0 {
                self.pop_word(term)
            } else {
                self.push_word(term, config)
            };
            proof {
                committed = committed || r;
            }
            k = k + 1;
        }
        proof {
            assert(all.skip(frequencies@.len() as int) =~= Seq::<(Seq<u8>, u32)>::empty());
        }
    }

    /// Rebuilds the graph with what is pending (see `consolidate_graph`),
    /// clears what was pending, and goes on with the new graph; its bytes
    /// are handed back for the caller to store. Nothing is done, and `None`
    /// given, when the graph's words and the pending words together could
    /// not be counted in a `usize`.
    pub fn consolidate(&mut self, config: &ConfigStoreFSTGraph) -> (r: Option<ConsolidateOutcome>)
        requires
            config.max_size * 1024 <= usize::MAX,
        ensures
            r is Some <==> (old(self).spec_pending().dom().len() > 0 && old(self).spec_words().len()
                + old(self).spec_pending().dom().len() <= usize::MAX),
            r matches Some(o) ==> ({
                let words = words_of_graph_bytes(o.bytes@);
                let m = old(self).spec_pending();
                &&& forall|w: Seq<u8>| #[trigger]
                    words.contains(w) ==> ((old(self).spec_words().contains(w) && action_of(m, w)
                        != Some(PendingAction::Pop)) || action_of(m, w) == Some(
                        PendingAction::Push,
                    ))
                &&& !o.stopped ==> forall|w: Seq<u8>| #[trigger]
                    words.contains(w) <== ((old(self).spec_words().contains(w) && action_of(m, w)
                        != Some(PendingAction::Pop)) || action_of(m, w) == Some(
                        PendingAction::Push,
                    ))
                &&& rebuild_took(old(self).spec_words(), m, o, *config)
                &&& final(self).spec_words() == words
                &&& final(self).spec_size() == o.bytes@.len()
            }),
            r is None ==> final(self).spec_words() == old(self).spec_words() && final(self).spec_size() == old(self).spec_size(),
            old(self).spec_words().len() + old(self).spec_pending().dom().len() <= usize::MAX
                ==> final(self).spec_pending() == no_pending() && !final(self).spec_should_consolidate(),
            old(self).spec_words().len() + old(self).spec_pending().dom().len() > usize::MAX
                ==> final(self).spec_pending() == old(self).spec_pending() && final(self).spec_should_consolidate() == old(self).spec_should_consolidate(),
            final(self).spec_config() == old(self).spec_config(),
    {
        proof {
            use_type_invariant(&self.graph);
        }
        let count = graph_len(&self.graph.set);
        let pending_count = self.pending.len();
        if count > usize::MAX - pending_count {
            return None;
        }
        let outcome = consolidate_graph(&self.graph.set, &self.pending, config);
        self.pending.clear();
        self.should_consolidate = false;
        match outcome {
            Some(o) => {
                let rebuilt = FstStore::from_bytes(o.bytes.clone(), self.action_config).unwrap();
                self.graph = rebuilt.graph;
                Some(o)
            },
            None => None,
        }
    }

    /// The backup of the graph: each of its words, in the graph's order,
    /// then a newline; the words come in strictly increasing order.
    pub fn to_backup(&self) -> (r: Vec<u8>)
        ensures
            r@ == backup_of(self.spec_words()),
            words_increasing(self.spec_words()),
    {
        proof {
            use_type_invariant(&self.graph);
        }
        let all = graph_all_words(&self.graph.set);
        let ghost view = self.spec_words();
        let mut out: Vec<u8> = Vec::new();
        let mut k: usize = 0;
        proof {
            assert(view.take(0) =~= Seq::<Seq<u8>>::empty());
        }
        while k < all.len()
            invariant
                k <= all@.len(),
                crate::pending::words_view(all@) == view,
                out@ == backup_of(view.take(k as int)),
            decreases all@.len() - k,
        {
            let ghost before = out@;
            let word = all[k].as_slice();
            let mut j: usize = 0;
            while j < word.len()
                invariant
                    j <= word@.len(),
                    out@ == before + word@.take(j as int),
                decreases word@.len() - j,
            {
                out.push(word[j]);
                proof {
                    assert(word@.take(j + 1) =~= word@.take(j as int).push(word@[j as int]));
                }
                j = j + 1;
            }
            out.push(10u8);
            proof {
                let next = view.take(k + 1);
                assert(next.drop_last() =~= view.take(k as int));
                assert(next.last() == view[k as int]);
                assert(word@ == view[k as int]);
                assert(word@.take(word@.len() as int) =~= word@);
                assert(out@ =~= before + word@ + seq![10u8]);
            }
            k = k + 1;
        }
        proof {
            assert(view.take(all@.len() as int) =~= view);
            assert forall|i: int, j: int| 0 <= i < j < view.len() implies lex_lt(view[i], view[j]) by {
                assert(view[i] == all@[i]@ && view[j] == all@[j]@);
            }
        }
        out
    }

    /// The graph's words, `offset` words on, at most `limit` of them;
    /// refused when a word of the graph is not UTF-8.
    pub fn list_words(&self, limit: usize, offset: usize) -> (r: Result<Vec<String>, ()>)
        ensures
            r is Ok <==> all_utf8(self.spec_words()),
            r matches Ok(ws) ==> ({
                let all = self.spec_words();
                let start = if offset < all.len() {
                    offset as int
                } else {
                    all.len() as int
                };
                let end = if limit < all.len() - start {
                    start + limit
                } else {
                    all.len() as int
                };
                &&& ws@.len() == end - start
                &&& forall|i: int|
                    0 <= i < ws@.len() ==> (#[trigger] ws@[i])@ == decode_utf8(all[start + i])
            }),
    {
        proof {
            use_type_invariant(&self.graph);
        }
        let all = graph_all_words(&self.graph.set);
        let ghost view = self.spec_words();
        let mut k: usize = 0;
        while k < all.len()
            invariant
                k <= all@.len(),
                crate::pending::words_view(all@) == view,
                view == self.spec_words(),
                forall|i: int| 0 <= i < k ==> valid_utf8(#[trigger] view[i]),
            decreases all@.len() - k,
        {
            if str_from_utf8(all[k].as_slice()).is_none() {
                assert(!valid_utf8(view[k as int]));
                return Err(());
            }
            k = k + 1;
        }
        let start = if offset < all.len() {
            offset
        } else {
            all.len()
        };
        let end = if limit < all.len() - start {
            start + limit
        } else {
            all.len()
        };
        let mut out: Vec<String> = Vec::new();
        let mut i = start;
        while i < end
            invariant
                start <= i <= end <= all@.len(),
                crate::pending::words_view(all@) == view,
                view == self.spec_words(),
                start == (if offset < all@.len() {
                    offset as int
                } else {
                    all@.len() as int
                }),
                end == (if limit < all@.len() - start {
                    start + limit
                } else {
                    all@.len() as int
                }),
                forall|j: int| 0 <= j < all@.len() ==> valid_utf8(#[trigger] view[j]),
                out@.len() == i - start,
                forall|j: int|
                    0 <= j < out@.len() ==> (#[trigger] out@[j])@ == decode_utf8(view[start + j]),
            decreases end - i,
        {
            let bytes = all[i].clone();
            assert(bytes@ == view[i as int]);
            match string_from_utf8(bytes) {
                Some(word) => {
                    out.push(word);
                },
                None => {
                    return Err(());
                },
            }
            i = i + 1;
        }
        Ok(out)
    }

    /// Adds the suggestions of a stream, in order, each word once, and stops
    /// as soon as `limit` are held.
    fn take_suggestions_into(found: &mut Vec<(String, u16)>, stream: Vec<(String, u16)>, limit: usize)
        ensures
            suggestions_text(final(found)@) == take_suggestions(
                suggestions_text(old(found)@),
                suggestions_text(stream@),
                limit as int,
            ),
            forall|i: int|
                0 <= i < final(found)@.len() ==> old(found)@.contains(#[trigger] final(found)@[i])
                    || stream@.contains(final(found)@[i]),
    {
        let ghost found0 = found@;
        let ghost all = suggestions_text(stream@);
        let ghost target = take_suggestions(suggestions_text(found@), all, limit as int);
        let mut stopped = false;
        proof {
            assert(all.skip(0) =~= all);
        }
        for item in it: stream.into_iter()
            invariant
                it.seq() == stream@,
                all == suggestions_text(stream@),
                !stopped ==> target == take_suggestions(
                    suggestions_text(found@),
                    all.skip(it.index() as int),
                    limit as int,
                ),
                stopped ==> target == suggestions_text(found@),
                forall|i: int|
                    0 <= i < found@.len() ==> found0.contains(#[trigger] found@[i])
                        || stream@.contains(found@[i]),
        {
            if !stopped {
                let ghost k = it.index() as int;
                let ghost rest = all.skip(k);
                proof {
                    assert(rest[0] == (item.0@, item.1));
                    assert(rest.drop_first() =~= all.skip(k + 1));
                }
                let mut j: usize = 0;
                let mut seen = false;
                while j < found.len()
                    invariant_except_break
                        !seen,
                        forall|x: int| 0 <= x < j ==> (#[trigger] found@[x]).0@ != item.0@,
                    invariant
                        j <= found@.len(),
                    ensures
                        seen ==> j < found@.len() && found@[j as int].0@ == item.0@,
                        !seen ==> forall|x: int|
                            0 <= x < found@.len() ==> (#[trigger] found@[x]).0@ != item.0@,
                    decreases found@.len() - j,
                {
                    if found[j].0 == item.0 {
                        seen = true;
                        break;
                    }
                    j = j + 1;
                }
                let ghost before = suggestions_text(found@);
                if seen {
                    proof {
                        assert(suggested_words(before)[j as int] == item.0@);
                    }
                } else {
                    proof {
                        assert forall|x: int| 0 <= x < suggested_words(before).len() implies suggested_words(
                            before,
                        )[x] != item.0@ by {
                            assert(found@[x].0@ == suggested_words(before)[x]);
                        }
                        assert(!suggested_words(before).contains(item.0@));
                    }
                    let ghost prior = found@;
                    found.push(item);
                    proof {
                        assert(suggestions_text(found@) =~= before.push(rest[0]));
                        assert forall|i: int| 0 <= i < found@.len() implies found0.contains(
                            #[trigger] found@[i],
                        ) || stream@.contains(found@[i]) by {
                            if i == found@.len() - 1 {
                                assert(found@[i] == stream@[it.index() as int]);
                            } else {
                                assert(found@[i] == prior[i]);
                            }
                        }
                    }
                    if found.len() >= limit {
                        stopped = true;
                    }
                }
            }
        }
        proof {
            if !stopped {
                assert(all.skip(all.len() as int) =~= Seq::<(Seq<char>, u16)>::empty());
            }
        }
    }

    /// Words to suggest for `from_word`, each once, at most about `limit`:
    /// first its completions (when prefix lookups are on and `completions`,
    /// the graph's words that begin with it, could be looked up), then,
    /// when typo lookups are on and fewer than `limit` are held, the words
    /// with one typo, then two, up to `max_typo_factor` (by default, as
    /// many as a word of `original_word_len` bytes may hold). `None` when
    /// the word is too long or nothing was found.
    pub fn suggest_words(
        &self,
        from_word: &str,
        original_word_len: usize,
        limit: usize,
        max_typo_factor: Option<u32>,
        completions: Option<Vec<(String, u16)>>,
    ) -> (r: Option<Vec<(String, u16)>>)
        ensures
            match suggestion_outcome(
                self.spec_words(),
                self.spec_config(),
                from_word@,
                original_word_len,
                limit,
                max_typo_factor,
                completion_texts(completions),
            ) {
                None => r is None,
                Some(all) => r matches Some(v) && suggestions_text(v@) == all,
            },
            r matches Some(v) ==> forall|i: int|
                0 <= i < v@.len() ==> suggestion_source(
                    self.spec_words(),
                    completion_texts(completions),
                    (#[trigger] v@[i]).0@,
                ),
    {
        let ghost comp = completion_texts(completions);
        if word_over_limit(from_word) {
            return None;
        }
        let mut found: Vec<(String, u16)> = Vec::new();
        proof {
            assert(suggestions_text(found@) =~= Seq::<(Seq<char>, u16)>::empty());
        }
        if self.action_config.prefix_matching_enabled {
            if let Some(stream) = completions {
                let ghost given = stream@;
                Self::take_suggestions_into(&mut found, stream, limit);
                proof {
                    assert forall|i: int| 0 <= i < found@.len() implies suggestion_source(
                        self.spec_words(),
                        comp,
                        (#[trigger] found@[i]).0@,
                    ) by {
                        let j = choose|j: int| 0 <= j < given.len() && given[j] == found@[i];
                        assert(suggested_words(suggestions_text(given))[j] == found@[i].0@);
                    }
                }
            }
        }
        let ghost after_prefix = suggestions_text(found@);
        if self.action_config.fuzzy_matching_enabled && found.len() < limit {
            let max = match max_typo_factor {
                Some(m) => m,
                None => typo_factor(original_word_len),
            };
            let mut factor: u32 = 1;
            let ghost target = typo_rounds(after_prefix, self.spec_words(), from_word@, 1, max, limit as int);
            while found.len() < limit && factor <= max
                invariant_except_break
                    target == typo_rounds(
                        suggestions_text(found@),
                        self.spec_words(),
                        from_word@,
                        factor,
                        max,
                        limit as int,
                    ),
                invariant
                    1 <= factor,
                    self.spec_config().fuzzy_matching_enabled,
                    forall|i: int|
                        0 <= i < found@.len() ==> suggestion_source(
                            self.spec_words(),
                            comp,
                            (#[trigger] found@[i]).0@,
                        ),
                ensures
                    target == suggestions_text(found@),
                    forall|i: int|
                        0 <= i < found@.len() ==> suggestion_source(
                            self.spec_words(),
                            comp,
                            (#[trigger] found@[i]).0@,
                        ),
                decreases max - factor,
            {
                let stream = match self.lookup_typos(from_word, factor) {
                    Some(stream) => stream,
                    None => {
                        break;
                    },
                };
                proof {
                    let ws = levenshtein_matches(self.spec_words(), from_word@, factor)->Some_0;
                    assert(suggestions_text(stream@) =~= utf8_words(ws).map_values(
                        |w: Seq<char>| (w, typo_score(factor)),
                    ));
                }
                let ghost typos = stream@;
                let ghost prior = found@;
                Self::take_suggestions_into(&mut found, stream, limit);
                proof {
                    assert forall|i: int| 0 <= i < found@.len() implies suggestion_source(
                        self.spec_words(),
                        comp,
                        (#[trigger] found@[i]).0@,
                    ) by {
                        if prior.contains(found@[i]) {
                            let j = choose|j: int| 0 <= j < prior.len() && prior[j] == found@[i];
                            assert(suggestion_source(self.spec_words(), comp, prior[j].0@));
                        } else {
                            let j = choose|j: int| 0 <= j < typos.len() && typos[j] == found@[i];
                            assert(self.spec_words().contains(encode_utf8(typos[j].0@)));
                        }
                    }
                }
                if factor == max {
                    break;
                }
                factor = factor + 1;
            }
        }
        if found.len() == 0 {
            None
        } else {
            Some(found)
        }
    }

    /// The words suggested for a query of one word: the suggestions for its
    /// normalized form (see `suggest_words`), with the length of the word as
    /// written and no other typo limit; refused when the query holds not
    /// exactly one word.
    pub fn suggest(
        &self,
        input: &PreprocessorOutput,
        limit: u16,
        completions: Option<Vec<(String, u16)>>,
    ) -> (r: Result<Option<Vec<String>>, ()>)
        ensures
            input.spec_spans().len() != 1 ==> r is Err,
            input.spec_spans().len() == 1 ==> ({
                let span = input.spec_spans()[0];
                let word = decode_utf8(
                    encode_utf8(input.spec_normalized()).subrange(
                        span.start_normalized as int,
                        span.end_normalized as int,
                    ),
                );
                match suggestion_outcome(
                    self.spec_words(),
                    self.spec_config(),
                    word,
                    (span.end_original - span.start_original) as usize,
                    limit as usize,
                    None,
                    completion_texts(completions),
                ) {
                    None => r matches Ok(None),
                    Some(all) => r matches Ok(Some(v)) && v@.map_values(|w: String| w@)
                        == suggested_words(all),
                }
            }),
            r matches Ok(Some(v)) ==> forall|i: int|
                0 <= i < v@.len() ==> suggestion_source(
                    self.spec_words(),
                    completion_texts(completions),
                    (#[trigger] v@[i])@,
                ),
    {
        let ghost comp = completion_texts(completions);
        let tokens = input.tokens();
        if tokens.len() != 1 {
            return Err(());
        }
        let token = &tokens[0];
        let original = token.as_original();
        let term = token.as_normalized();
        proof {
            let span = input.spec_spans()[0];
            vstd::utf8::encode_utf8_decode_utf8(term@);
            assert(term.spec_bytes() == encode_utf8(term@));
            assert(original.spec_bytes().len() == span.end_original - span.start_original);
        }
        let len = original.as_bytes().len();
        match self.suggest_words(term, len, limit as usize, None, completions) {
            Some(found) => {
                let mut words: Vec<String> = Vec::new();
                let mut i: usize = 0;
                while i < found.len()
                    invariant
                        i <= found@.len(),
                        words@.map_values(|w: String| w@) == suggested_words(
                            suggestions_text(found@),
                        ).take(i as int),
                    decreases found@.len() - i,
                {
                    let ghost before = words@;
                    let w = found[i].0.clone();
                    assert(w@ == found@[i as int].0@);
                    words.push(w);
                    proof {
                        assert(words@ == before.push(w));
                        assert(words@.map_values(|w: String| w@) =~= before.map_values(
                            |w: String| w@,
                        ).push(w@));
                        assert(suggested_words(suggestions_text(found@))[i as int] == found@[i as int].0@);
                        assert(words@.map_values(|w: String| w@) =~= suggested_words(
                            suggestions_text(found@),
                        ).take(i + 1));
                    }
                    i = i + 1;
                }
                proof {
                    assert(suggested_words(suggestions_text(found@)).take(found@.len() as int)
                        =~= suggested_words(suggestions_text(found@)));
                    assert forall|j: int| 0 <= j < words@.len() implies suggestion_source(
                        self.spec_words(),
                        comp,
                        (#[trigger] words@[j])@,
                    ) by {
                        assert(words@.map_values(|w: String| w@)[j] == words@[j]@);
                        assert(suggested_words(suggestions_text(found@))[j] == found@[j].0@);
                    }
                }
                Ok(Some(words))
            },
            None => Ok(None),
        }
    }

    /// The graph's words within `typo_factor` edits of `word`, each with the
    /// typo factor as its score (at most `u16::MAX`), up to the first word
    /// that is not UTF-8; `None` when typo lookups are off or the lookup
    /// cannot be built.
    pub fn lookup_typos(&self, word: &str, typo_factor: u32) -> (r: Option<Vec<(String, u16)>>)
        ensures
            !self.spec_config().fuzzy_matching_enabled ==> r is None,
            self.spec_config().fuzzy_matching_enabled ==> match levenshtein_matches(
                self.spec_words(),
                word@,
                typo_factor,
            ) {
                None => r is None,
                Some(ws) => r matches Some(found) && ({
                    let decoded = utf8_words(ws);
                    &&& found@.len() == decoded.len()
                    &&& forall|i: int|
                        0 <= i < found@.len() ==> (#[trigger] found@[i]).0@ == decoded[i]
                            && found@[i].1 == (if typo_factor <= 65535 {
                            typo_factor as u16
                        } else {
                            65535u16
                        })
                }),
            },
            r matches Some(found) ==> forall|i: int|
                0 <= i < found@.len() ==> self.spec_words().contains(
                    encode_utf8((#[trigger] found@[i]).0@),
                ),
    {
        if !self.action_config.fuzzy_matching_enabled {
            return None;
        }
        proof {
            use_type_invariant(&self.graph);
        }
        let matches = match graph_typos(&self.graph.set, word, typo_factor) {
            Some(ws) => ws,
            None => {
                return None;
            },
        };
        let score: u16 = if typo_factor <= 65535 {
            typo_factor as u16
        } else {
            65535
        };
        let ghost ws = crate::pending::words_view(matches@);
        let mut found: Vec<(String, u16)> = Vec::new();
        assert(ws.skip(0) =~= ws);
        assert(found@.map_values(|f: (String, u16)| f.0@) + utf8_words(ws) =~= utf8_words(ws));
        let mut k: usize = 0;
        while k < matches.len()
            invariant
                k <= matches@.len(),
                ws == crate::pending::words_view(matches@),
                self.spec_config().fuzzy_matching_enabled,
                levenshtein_matches(self.spec_words(), word@, typo_factor) == Some(ws),
                score == (if typo_factor <= 65535 {
                    typo_factor as u16
                } else {
                    65535u16
                }),
                utf8_words(ws) == ({
                    let d = found@.map_values(|f: (String, u16)| f.0@);
                    d + utf8_words(ws.skip(k as int))
                }),
                forall|i: int| 0 <= i < found@.len() ==> (#[trigger] found@[i]).1 == score,
                forall|i: int|
                    0 <= i < matches@.len() ==> self.spec_words().contains(#[trigger] matches@[i]@),
                forall|i: int|
                    0 <= i < found@.len() ==> self.spec_words().contains(
                        encode_utf8((#[trigger] found@[i]).0@),
                    ),
            decreases matches@.len() - k,
        {
            let bytes = matches[k].clone();
            proof {
                assert(bytes@ == ws[k as int]);
                let rest = ws.skip(k as int);
                assert(rest[0] == ws[k as int]);
                assert(rest.drop_first() =~= ws.skip(k + 1));
            }
            match string_from_utf8(bytes) {
                Some(text) => {
                    let ghost before = found@.map_values(|f: (String, u16)| f.0@);
                    let ghost prior = found@;
                    proof {
                        vstd::utf8::decode_utf8_encode_utf8(ws[k as int]);
                        assert(encode_utf8(text@) == matches@[k as int]@);
                    }
                    found.push((text, score));
                    proof {
                        assert forall|i: int| 0 <= i < found@.len() implies self.spec_words().contains(
                            encode_utf8((#[trigger] found@[i]).0@),
                        ) by {
                            if i < prior.len() {
                                assert(found@[i] == prior[i]);
                            }
                        }
                        let after = found@.map_values(|f: (String, u16)| f.0@);
                        assert(after =~= before.push(text@));
                        assert(before + utf8_words(ws.skip(k as int)) =~= after + utf8_words(
                            ws.skip(k + 1),
                        ));
                    }
                },
                None => {
                    proof {
                        let d = found@.map_values(|f: (String, u16)| f.0@);
                        assert(utf8_words(ws.skip(k as int)) =~= Seq::<Seq<char>>::empty());
                        assert(d + Seq::<Seq<char>>::empty() =~= d);
                    }
                    return Some(found);
                },
            }
            k = k + 1;
        }
        proof {
            let d = found@.map_values(|f: (String, u16)| f.0@);
            assert(ws.skip(matches@.len() as int) =~= Seq::<Seq<u8>>::empty());
            assert(d + Seq::<Seq<char>>::empty() =~= d);
        }
        Some(found)
    }
}

} // verus!
