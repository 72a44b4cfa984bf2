//! Words waiting for the next consolidation of a word graph: a push or a
//! pop per word, where a pop voids a pending push and a push a pending pop.
use vstd::prelude::*;

use crate::config::ConfigStoreFSTGraph;
use crate::graph::{word_over_limit, StoreFSTMisc, WORD_LIMIT_LENGTH};
use vstd::string::StringSliceAdditionalSpecFns;

verus! {

/// What is pending for a word.
#[derive(Clone, Copy, Debug, PartialEq, Eq, Structural)]
pub enum PendingAction {
    Push,
    Pop,
}

/// The pending actions of a graph, by word, kept in a `hashbrown::HashMap`.
#[verifier::external_body]
pub struct PendingWords {
    map: hashbrown::HashMap<Vec<u8>, PendingAction>,
}

/// The pending action of each word held by a `PendingWords`.
pub uninterp spec fn pending_words(p: PendingWords) -> Map<Seq<u8>, PendingAction>;

/// No word pending.
pub open spec fn no_pending() -> Map<Seq<u8>, PendingAction> {
    Map::empty()
}

/// `hashbrown::HashMap::new`: an empty map. Trusted: it holds nothing.
#[verifier::external_body]
fn pending_new() -> (r: PendingWords)
    ensures
        pending_words(r) == no_pending(),
{
    PendingWords { map: hashbrown::HashMap::new() }
}

/// `hashbrown::HashMap::get`: the action of a word. Trusted: the result is
/// the value the map holds for the key, as the method's documentation
/// states.
#[verifier::external_body]
fn pending_get(p: &PendingWords, word: &[u8]) -> (r: Option<PendingAction>)
    ensures
        r == (if pending_words(*p).contains_key(word@) {
            Some(pending_words(*p)[word@])
        } else {
            None::<PendingAction>
        }),
{
    p.map.get(word).copied()
}

/// `hashbrown::HashMap::insert`: sets the action of a word. Trusted: the
/// map then holds `action` for the key and is otherwise unchanged.
#[verifier::external_body]
fn pending_insert(p: &mut PendingWords, word: &[u8], action: PendingAction)
    ensures
        pending_words(*final(p)) == pending_words(*old(p)).insert(word@, action),
{
    p.map.insert(word.to_vec(), action);
}

/// `hashbrown::HashMap::remove`: drops the action of a word. Trusted: the
/// map then lacks the key and is otherwise unchanged.
#[verifier::external_body]
fn pending_remove(p: &mut PendingWords, word: &[u8])
    ensures
        pending_words(*final(p)) == pending_words(*old(p)).remove(word@),
{
    p.map.remove(word);
}

/// `hashbrown::HashMap::len`: the number of words with an action. Trusted:
/// the size of the map's domain.
#[verifier::external_body]
fn pending_len(p: &PendingWords) -> (r: usize)
    ensures
        r == pending_words(*p).dom().len(),
{
    p.map.len()
}

/// `hashbrown::HashMap::clear`: drops every action. Trusted: the map is
/// then empty.
#[verifier::external_body]
fn pending_clear(p: &mut PendingWords)
    ensures
        pending_words(*final(p)) == no_pending(),
{
    p.map.clear();
}

/// `hashbrown::HashMap::iter`: every word with its action. Trusted: each
/// key of the map comes out once, with the action the map holds for it, in
/// the map's order, which is left unsaid.
#[verifier::external_body]
fn pending_entries(p: &PendingWords) -> (r: Vec<(Vec<u8>, PendingAction)>)
    ensures
        forall|i: int, j: int| 0 <= i < j < r@.len() ==> r@[i].0@ != r@[j].0@,
        forall|i: int|
            0 <= i < r@.len() ==> pending_words(*p).contains_key(#[trigger] r@[i].0@)
                && pending_words(*p)[r@[i].0@] == r@[i].1,
        forall|w: Seq<u8>|
            pending_words(*p).contains_key(w) ==> exists|i: int|
                0 <= i < r@.len() && #[trigger] r@[i].0@ == w,
        r@.len() == pending_words(*p).dom().len(),
{
    let mut entries = Vec::new();
    for (word, action) in p.map.iter() {
        entries.push((word.clone(), *action));
    }
    entries
}

/// The bytes of each word.
pub open spec fn words_view(ws: Seq<Vec<u8>>) -> Seq<Seq<u8>> {
    ws.map_values(|w: Vec<u8>| w@)
}

/// The action of a word after a push, and whether the push is committed: a
/// pending push stays and is not committed again; otherwise the word is
/// pushed when it may be, and any pending pop is voided when it may not.
pub open spec fn after_push(current: Option<PendingAction>, may_insert: bool) -> (Option<PendingAction>, bool) {
    match current {
        Some(PendingAction::Push) => (Some(PendingAction::Push), false),
        _ => if may_insert {
            (Some(PendingAction::Push), true)
        } else {
            (None, false)
        },
    }
}

/// The action of a word after a pop, and whether the pop is committed: a
/// pending pop stays and is not committed again; otherwise a word of the
/// graph is popped, and a pending push of a word outside it is voided.
pub open spec fn after_pop(current: Option<PendingAction>, in_graph: bool) -> (Option<PendingAction>, bool) {
    match current {
        Some(PendingAction::Pop) => (Some(PendingAction::Pop), false),
        _ => if in_graph {
            (Some(PendingAction::Pop), true)
        } else {
            (None, false)
        },
    }
}

/// The action a map holds for a word, if any.
pub open spec fn action_of(m: Map<Seq<u8>, PendingAction>, word: Seq<u8>) -> Option<PendingAction> {
    if m.contains_key(word) {
        Some(m[word])
    } else {
        None
    }
}

/// The map with the action of a word set, or dropped.
pub open spec fn with_action(
    m: Map<Seq<u8>, PendingAction>,
    word: Seq<u8>,
    action: Option<PendingAction>,
) -> Map<Seq<u8>, PendingAction> {
    match action {
        Some(a) => m.insert(word, a),
        None => m.remove(word),
    }
}

/// Whether a push may add a word: the graph lacks it, the graph is under
/// its limits, and fewer words than the graph may hold are pending.
pub open spec fn push_may_insert(
    graph_contains_word: bool,
    graph_bytes: usize,
    graph_words: usize,
    pending_count: nat,
    config: ConfigStoreFSTGraph,
) -> bool {
    &&& !graph_contains_word
    &&& !(graph_bytes >= config.max_size * 1024 || graph_words >= config.max_words)
    &&& pending_count < config.max_words
}

impl PendingWords {
    /// No pending action.
    pub fn new() -> (r: Self)
        ensures
            pending_words(r) == no_pending(),
    {
        pending_new()
    }

    /// The action pending for a word, if any.
    pub fn action(&self, word: &[u8]) -> (r: Option<PendingAction>)
        ensures
            r == action_of(pending_words(*self), word@),
    {
        pending_get(self, word)
    }

    /// The number of words with a pending action.
    pub fn len(&self) -> (r: usize)
        ensures
            r == pending_words(*self).dom().len(),
    {
        pending_len(self)
    }

    /// Whether no action is pending.
    pub fn is_empty(&self) -> (r: bool)
        ensures
            r == (pending_words(*self).dom().len() == 0),
    {
        pending_len(self) == 0
    }

    /// Drops every pending action, once a consolidation has used them.
    pub fn clear(&mut self)
        ensures
            pending_words(*final(self)) == no_pending(),
    {
        pending_clear(self)
    }

    /// The words pending with an action, each once, in no stated order.
    pub fn words_with(&self, action: PendingAction) -> (r: Vec<Vec<u8>>)
        ensures
            forall|i: int, j: int| 0 <= i < j < r@.len() ==> r@[i]@ != r@[j]@,
            forall|w: Seq<u8>| #[trigger] words_view(r@).contains(w) <==> action_of(
                pending_words(*self),
                w,
            ) == Some(action),
            r@.len() <= pending_words(*self).dom().len(),
    {
        let entries = pending_entries(self);
        let mut words: Vec<Vec<u8>> = Vec::new();
        let ghost mut from: Seq<int> = Seq::empty();
        let mut k: usize = 0;
        while k < entries.len()
            invariant
                k <= entries@.len(),
                forall|i: int, j: int| 0 <= i < j < entries@.len() ==> entries@[i].0@
                    != entries@[j].0@,
                forall|i: int|
                    0 <= i < entries@.len() ==> pending_words(*self).contains_key(
                        #[trigger] entries@[i].0@,
                    ) && pending_words(*self)[entries@[i].0@] == entries@[i].1,
                from.len() == words@.len(),
                words@.len() <= k,
                entries@.len() == pending_words(*self).dom().len(),
                forall|t: int|
                    0 <= t < words@.len() ==> 0 <= #[trigger] from[t] < k && words@[t]@
                        == entries@[from[t]].0@ && entries@[from[t]].1 == action,
                forall|t: int, u: int| 0 <= t < u < words@.len() ==> from[t] < from[u],
                forall|i: int|
                    0 <= i < k && #[trigger] entries@[i].1 == action ==> exists|t: int|
                        0 <= t < words@.len() && from[t] == i,
            decreases entries@.len() - k,
        {
            let entry = &entries[k];
            let ghost from0 = from;
            let ghost len0 = words@.len();
            if entry.1 == action {
                let w = entry.0.clone();
                proof {
                    from = from.push(k as int);
                }
                words.push(w);
                assert(words@[words@.len() - 1]@ == entries@[k as int].0@);
            }
            proof {
                assert forall|i: int|
                    0 <= i < k + 1 && #[trigger] entries@[i].1 == action implies exists|t: int|
                        0 <= t < words@.len() && from[t] == i by {
                    if i == k {
                        assert(from[len0 as int] == i);
                    } else {
                        let t = choose|t: int| 0 <= t < len0 && from0[t] == i;
                        assert(from[t] == i);
                    }
                }
            }
            k = k + 1;
        }
        assert forall|i: int, j: int| 0 <= i < j < words@.len() implies words@[i]@ != words@[j]@ by {
            assert(from[i] < from[j]);
        }
        assert forall|w: Seq<u8>| #[trigger] words_view(words@).contains(w) <==> action_of(
            pending_words(*self),
            w,
        ) == Some(action) by {
            if words_view(words@).contains(w) {
                let t = choose|t: int| 0 <= t < words_view(words@).len() && words_view(words@)[t]
                    == w;
                assert(words@[t]@ == w);
                assert(entries@[from[t]].0@ == w);
            }
            if action_of(pending_words(*self), w) == Some(action) {
                let i = choose|i: int| 0 <= i < entries@.len() && #[trigger] entries@[i].0@ == w;
                assert(entries@[i].1 == action);
                let t = choose|t: int| 0 <= t < words@.len() && from[t] == i;
                assert(words_view(words@)[t] == w);
            }
        }
        words
    }

    /// Schedules adding a word to the graph; true when the push is
    /// committed (the graph then needs a consolidation). Words over the
    /// length limit are refused. `graph_contains_word`, `graph_bytes` and
    /// `graph_words` describe the graph as it stands.
    pub fn push_word(
        &mut self,
        word: &str,
        graph_contains_word: bool,
        graph_bytes: usize,
        graph_words: usize,
        config: &ConfigStoreFSTGraph,
    ) -> (r: bool)
        requires
            config.max_size * 1024 <= usize::MAX,
        ensures
            word.spec_bytes().len() > WORD_LIMIT_LENGTH ==> !r && pending_words(*final(self))
                == pending_words(*old(self)),
            word.spec_bytes().len() <= WORD_LIMIT_LENGTH ==> ({
                let m = pending_words(*old(self));
                let step = after_push(
                    action_of(m, word.spec_bytes()),
                    push_may_insert(
                        graph_contains_word,
                        graph_bytes,
                        graph_words,
                        m.dom().len(),
                        *config,
                    ),
                );
                &&& r == step.1
                &&& pending_words(*final(self)) == with_action(m, word.spec_bytes(), step.0)
            }),
    {
        if word_over_limit(word) {
            return false;
        }
        let bytes = word.as_bytes();
        let count = pending_len(self);
        let current = pending_get(self, bytes);
        match current {
            Some(PendingAction::Push) => {
                assert(pending_words(*self).insert(bytes@, PendingAction::Push) =~= pending_words(
                    *self,
                ));
                false
            },
            _ => {
                let may_insert = !graph_contains_word && !StoreFSTMisc::check_over_limits(
                    graph_bytes,
                    graph_words,
                    config,
                ) && count < config.max_words;
                if may_insert {
                    pending_insert(self, bytes, PendingAction::Push);
                    true
                } else {
                    pending_remove(self, bytes);
                    proof {
                        if current is None {
                            assert(pending_words(*old(self)).remove(bytes@) =~= pending_words(
                                *old(self),
                            ));
                        }
                    }
                    false
                }
            },
        }
    }

    /// Schedules removing a word from the graph; true when the pop is
    /// committed (the graph then needs a consolidation). Words over the
    /// length limit are refused. `graph_contains_word` says whether the
    /// graph as it stands holds the word.
    pub fn pop_word(&mut self, word: &str, graph_contains_word: bool) -> (r: bool)
        ensures
            word.spec_bytes().len() > WORD_LIMIT_LENGTH ==> !r && pending_words(*final(self))
                == pending_words(*old(self)),
            word.spec_bytes().len() <= WORD_LIMIT_LENGTH ==> ({
                let m = pending_words(*old(self));
                let step = after_pop(action_of(m, word.spec_bytes()), graph_contains_word);
                &&& r == step.1
                &&& pending_words(*final(self)) == with_action(m, word.spec_bytes(), step.0)
            }),
    {
        if word_over_limit(word) {
            return false;
        }
        let bytes = word.as_bytes();
        let current = pending_get(self, bytes);
        match current {
            Some(PendingAction::Pop) => {
                assert(pending_words(*self).insert(bytes@, PendingAction::Pop) =~= pending_words(
                    *self,
                ));
                false
            },
            _ => {
                if graph_contains_word {
                    pending_insert(self, bytes, PendingAction::Pop);
                    true
                } else {
                    pending_remove(self, bytes);
                    proof {
                        if current is None {
                            assert(pending_words(*old(self)).remove(bytes@) =~= pending_words(
                                *old(self),
                            ));
                        }
                    }
                    false
                }
            },
        }
    }
}

/// A pop right after a committed push of a word the graph lacks voids the
/// push: the word is then pending as it was before the push only when
/// nothing was pending for it, and in any case has no action left.
pub proof fn lemma_pop_voids_push(
    m: Map<Seq<u8>, PendingAction>,
    word: Seq<u8>,
    may_insert: bool,
)
    requires
        after_push(action_of(m, word), may_insert).1,
    ensures
        ({
            let pushed = with_action(m, word, after_push(action_of(m, word), may_insert).0);
            let popped = after_pop(action_of(pushed, word), false);
            &&& !popped.1
            &&& with_action(pushed, word, popped.0) == m.remove(word)
        }),
{
    let pushed = m.insert(word, PendingAction::Push);
    assert(pushed.remove(word) =~= m.remove(word));
}

/// A push right after a committed pop voids the pop, since the popped word
/// is in the graph: the word has no action left.
pub proof fn lemma_push_voids_pop(
    m: Map<Seq<u8>, PendingAction>,
    word: Seq<u8>,
    graph_bytes: usize,
    graph_words: usize,
    config: ConfigStoreFSTGraph,
)
    requires
        after_pop(action_of(m, word), true).1,
    ensures
        ({
            let popped = with_action(m, word, after_pop(action_of(m, word), true).0);
            let pushed = after_push(
                action_of(popped, word),
                push_may_insert(true, graph_bytes, graph_words, popped.dom().len(), config),
            );
            &&& !pushed.1
            &&& with_action(popped, word, pushed.0) == m.remove(word)
        }),
{
    let popped = m.insert(word, PendingAction::Pop);
    assert(popped.remove(word) =~= m.remove(word));
}

/// Committing twice is not possible: once a push or a pop is committed, the
/// same call again changes nothing and commits nothing.
pub proof fn lemma_commit_once(
    m: Map<Seq<u8>, PendingAction>,
    word: Seq<u8>,
    may_insert: bool,
    in_graph: bool,
)
    ensures
        after_push(action_of(m, word), may_insert).1 ==> ({
            let m2 = with_action(m, word, after_push(action_of(m, word), may_insert).0);
            let again = after_push(action_of(m2, word), may_insert);
            !again.1 && with_action(m2, word, again.0) == m2
        }),
        after_pop(action_of(m, word), in_graph).1 ==> ({
            let m2 = with_action(m, word, after_pop(action_of(m, word), in_graph).0);
            let again = after_pop(action_of(m2, word), in_graph);
            !again.1 && with_action(m2, word, again.0) == m2
        }),
{
    let mp = m.insert(word, PendingAction::Push);
    assert(mp.insert(word, PendingAction::Push) =~= mp);
    let mq = m.insert(word, PendingAction::Pop);
    assert(mq.insert(word, PendingAction::Pop) =~= mq);
}

} // verus!
