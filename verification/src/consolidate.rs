//! Rebuilding a word graph from its old words and its pending actions: the
//! order in which words go into the new graph (the old words and the
//! pushed words merged, each pushed word before an old word it does not
//! follow), which old words are left out (the popped ones), and where the
//! graph's limits stop the rebuild.
use vstd::prelude::*;

use crate::config::ConfigStoreFSTGraph;
use crate::encoding::{lemma_lex_irreflexive, lemma_lex_total, lemma_lex_transitive, lex_lt};
use crate::fst_graph::{
    builder_bytes_written, builder_insert, builder_into_bytes, builder_memory, builder_words,
    built_graph_bytes, bytes_written_for, graph_all_words, graph_sound, graph_words,
    words_of_graph_bytes,
};
use crate::graph::StoreFSTMisc;
use crate::pending::{action_of, pending_words, words_view, PendingAction, PendingWords};

verus! {

/// `a` does not come after `b` in the order of byte strings.
pub open spec fn lex_le(a: Seq<u8>, b: Seq<u8>) -> bool {
    !lex_lt(b, a)
}

/// The order of byte strings is transitive.
pub proof fn lemma_lex_le_transitive(a: Seq<u8>, b: Seq<u8>, c: Seq<u8>)
    requires
        lex_le(a, b),
        lex_le(b, c),
    ensures
        lex_le(a, c),
{
    lemma_lex_total(a, b);
    lemma_lex_total(b, c);
    lemma_lex_total(a, c);
    lemma_lex_irreflexive(a);
    if a != b && b != c {
        lemma_lex_transitive(a, b, c);
    }
}

/// Whether `a` does not come after `b`.
fn lex_le_bytes(a: &[u8], b: &[u8]) -> (r: bool)
    ensures
        r == lex_le(a@, b@),
{
    let mut k: usize = 0;
    while k < a.len() && k < b.len() && a[k] == b[k]
        invariant
            k <= a@.len(),
            k <= b@.len(),
            a@.take(k as int) == b@.take(k as int),
        decreases a@.len() - k,
    {
        assert(a@.take(k + 1) =~= a@.take(k as int).push(a@[k as int]));
        assert(b@.take(k + 1) =~= b@.take(k as int).push(b@[k as int]));
        k = k + 1;
    }
    proof {
        let p = a@.take(k as int);
        assert(a@ =~= p + a@.skip(k as int));
        assert(b@ =~= p + b@.skip(k as int));
        crate::encoding::lemma_lex_common_prefix(p, b@.skip(k as int), a@.skip(k as int));
    }
    if k == a.len() {
        true
    } else if k == b.len() {
        false
    } else {
        proof {
            let x = b@.skip(k as int);
            let y = a@.skip(k as int);
            assert(x[0] == b@[k as int]);
            assert(y[0] == a@[k as int]);
            assert(x.len() > 0 && y.len() > 0);
            assert(lex_lt(x, y) == (b@[k as int] < a@[k as int]));
        }
        a[k] < b[k]
    }
}

/// What happens to one word of a rebuild.
#[derive(Clone, Copy, Debug, PartialEq, Eq, Structural)]
pub enum ConsolidateStep {
    /// A pending pushed word goes into the new graph.
    Push,
    /// A word of the old graph goes into the new graph.
    Move,
    /// A popped word of the old graph is left out.
    Drop,
}

/// The steps of a rebuild: the old words and the pushed words merged, a
/// pushed word first when it does not come after the old word, an old word
/// left out when it is popped.
pub open spec fn merge_plan(
    old: Seq<Seq<u8>>,
    push: Seq<Seq<u8>>,
    pop: Set<Seq<u8>>,
) -> Seq<(ConsolidateStep, Seq<u8>)>
    decreases old.len() + push.len(),
{
    if push.len() > 0 && (old.len() == 0 || lex_le(push[0], old[0])) {
        seq![(ConsolidateStep::Push, push[0])] + merge_plan(old, push.drop_first(), pop)
    } else if old.len() > 0 {
        seq![
            (if pop.contains(old[0]) {
                ConsolidateStep::Drop
            } else {
                ConsolidateStep::Move
            }, old[0]),
        ] + merge_plan(old.drop_first(), push, pop)
    } else {
        seq![]
    }
}

/// The words that go into the new graph, in order.
pub open spec fn kept_words(plan: Seq<(ConsolidateStep, Seq<u8>)>) -> Seq<Seq<u8>>
    decreases plan.len(),
{
    if plan.len() == 0 {
        seq![]
    } else {
        (if plan[0].0 == ConsolidateStep::Drop {
            Seq::<Seq<u8>>::empty()
        } else {
            seq![plan[0].1]
        }) + kept_words(plan.drop_first())
    }
}

/// The first step at or after `p` that is not a left-out word.
pub open spec fn first_kept(plan: Seq<(ConsolidateStep, Seq<u8>)>, p: int) -> int
    decreases plan.len() - p,
{
    if 0 <= p < plan.len() && plan[p].0 == ConsolidateStep::Drop {
        first_kept(plan, p + 1)
    } else {
        p
    }
}

/// The words popped in a map of pending actions.
pub open spec fn pops_of(m: Map<Seq<u8>, PendingAction>) -> Set<Seq<u8>> {
    Set::new(|w: Seq<u8>| action_of(m, w) == Some(PendingAction::Pop))
}

/// A sequence sorted in the order of byte strings.
pub open spec fn words_sorted(s: Seq<Seq<u8>>) -> bool {
    forall|i: int, j: int| 0 <= i < j < s.len() ==> lex_le(s[i], s[j])
}

/// A rebuild has a step per word.
pub proof fn lemma_merge_plan_len(old: Seq<Seq<u8>>, push: Seq<Seq<u8>>, pop: Set<Seq<u8>>)
    ensures
        merge_plan(old, push, pop).len() == old.len() + push.len(),
    decreases old.len() + push.len(),
{
    if push.len() > 0 && (old.len() == 0 || lex_le(push[0], old[0])) {
        lemma_merge_plan_len(old, push.drop_first(), pop);
    } else if old.len() > 0 {
        lemma_merge_plan_len(old.drop_first(), push, pop);
    }
}

/// The new graph holds the old words that were not popped and the pushed
/// words, and nothing else.
pub proof fn lemma_merge_plan_kept(old: Seq<Seq<u8>>, push: Seq<Seq<u8>>, pop: Set<Seq<u8>>)
    ensures
        forall|w: Seq<u8>| #[trigger] kept_words(merge_plan(old, push, pop)).contains(w) <==> ((
        old.contains(w) && !pop.contains(w)) || push.contains(w)),
    decreases old.len() + push.len(),
{
    let plan = merge_plan(old, push, pop);
    if push.len() > 0 && (old.len() == 0 || lex_le(push[0], old[0])) {
        let rest = merge_plan(old, push.drop_first(), pop);
        lemma_merge_plan_kept(old, push.drop_first(), pop);
        assert(plan.drop_first() =~= rest);
        assert(kept_words(plan) =~= seq![push[0]] + kept_words(rest));
        assert forall|w: Seq<u8>| #[trigger] kept_words(plan).contains(w) <==> ((old.contains(w)
            && !pop.contains(w)) || push.contains(w)) by {
            lemma_seq_cons_contains(push[0], kept_words(rest), w);
            lemma_seq_cons_contains(push[0], push.drop_first(), w);
            assert(push =~= seq![push[0]] + push.drop_first());
        }
    } else if old.len() > 0 {
        let rest = merge_plan(old.drop_first(), push, pop);
        lemma_merge_plan_kept(old.drop_first(), push, pop);
        assert(plan.drop_first() =~= rest);
        assert forall|w: Seq<u8>| #[trigger] kept_words(plan).contains(w) <==> ((old.contains(w)
            && !pop.contains(w)) || push.contains(w)) by {
            lemma_seq_cons_contains(old[0], old.drop_first(), w);
            assert(old =~= seq![old[0]] + old.drop_first());
            if pop.contains(old[0]) {
                assert(kept_words(plan) =~= kept_words(rest));
            } else {
                assert(kept_words(plan) =~= seq![old[0]] + kept_words(rest));
                lemma_seq_cons_contains(old[0], kept_words(rest), w);
            }
        }
    } else {
        assert(kept_words(plan) =~= Seq::<Seq<u8>>::empty());
    }
}

/// A sequence with one more word in front holds that word and what it held.
proof fn lemma_seq_cons_contains(x: Seq<u8>, s: Seq<Seq<u8>>, w: Seq<u8>)
    ensures
        (seq![x] + s).contains(w) <==> (x == w || s.contains(w)),
{
    let t = seq![x] + s;
    if t.contains(w) {
        let i = choose|i: int| 0 <= i < t.len() && t[i] == w;
        if i > 0 {
            assert(s[i - 1] == w);
        }
    }
    if x == w {
        assert(t[0] == w);
    }
    if s.contains(w) {
        let i = choose|i: int| 0 <= i < s.len() && s[i] == w;
        assert(t[i + 1] == w);
    }
}

/// Rebuilding from sorted old words and sorted pushed words puts the words
/// into the new graph in order, as a graph builder requires.
pub proof fn lemma_merge_plan_sorted(old: Seq<Seq<u8>>, push: Seq<Seq<u8>>, pop: Set<Seq<u8>>)
    requires
        words_sorted(old),
        words_sorted(push),
    ensures
        words_sorted(kept_words(merge_plan(old, push, pop))),
    decreases old.len() + push.len(),
{
    let plan = merge_plan(old, push, pop);
    if push.len() > 0 && (old.len() == 0 || lex_le(push[0], old[0])) {
        let rest = merge_plan(old, push.drop_first(), pop);
        let tail = push.drop_first();
        assert(words_sorted(tail)) by {
            assert forall|i: int, j: int| 0 <= i < j < tail.len() implies lex_le(tail[i], tail[j]) by {
                assert(tail[i] == push[i + 1] && tail[j] == push[j + 1]);
            }
        }
        lemma_merge_plan_sorted(old, tail, pop);
        lemma_merge_plan_kept(old, tail, pop);
        assert(plan.drop_first() =~= rest);
        let k = kept_words(rest);
        assert(kept_words(plan) =~= seq![push[0]] + k);
        assert forall|j: int| 0 <= j < k.len() implies lex_le(push[0], #[trigger] k[j]) by {
            assert(k.contains(k[j]));
            if tail.contains(k[j]) {
                let t = choose|t: int| 0 <= t < tail.len() && tail[t] == k[j];
                assert(push[t + 1] == k[j]);
            } else {
                let t = choose|t: int| 0 <= t < old.len() && old[t] == k[j];
                if t > 0 {
                    lemma_lex_le_transitive(push[0], old[0], old[t]);
                }
            }
        }
        lemma_sorted_cons(push[0], k);
    } else if old.len() > 0 {
        let rest = merge_plan(old.drop_first(), push, pop);
        let tail = old.drop_first();
        assert(words_sorted(tail)) by {
            assert forall|i: int, j: int| 0 <= i < j < tail.len() implies lex_le(tail[i], tail[j]) by {
                assert(tail[i] == old[i + 1] && tail[j] == old[j + 1]);
            }
        }
        lemma_merge_plan_sorted(tail, push, pop);
        lemma_merge_plan_kept(tail, push, pop);
        assert(plan.drop_first() =~= rest);
        let k = kept_words(rest);
        if pop.contains(old[0]) {
            assert(kept_words(plan) =~= k);
        } else {
            assert(kept_words(plan) =~= seq![old[0]] + k);
            assert forall|j: int| 0 <= j < k.len() implies lex_le(old[0], #[trigger] k[j]) by {
                assert(k.contains(k[j]));
                if tail.contains(k[j]) {
                    let t = choose|t: int| 0 <= t < tail.len() && tail[t] == k[j];
                    assert(old[t + 1] == k[j]);
                } else {
                    let t = choose|t: int| 0 <= t < push.len() && push[t] == k[j];
                    lemma_lex_total(old[0], push[0]);
                    if t > 0 {
                        lemma_lex_le_transitive(old[0], push[0], push[t]);
                    }
                }
            }
            lemma_sorted_cons(old[0], k);
        }
    } else {
        assert(kept_words(plan) =~= Seq::<Seq<u8>>::empty());
    }
}

/// A sorted sequence stays sorted with a first word that comes before all
/// of it.
proof fn lemma_sorted_cons(x: Seq<u8>, s: Seq<Seq<u8>>)
    requires
        words_sorted(s),
        forall|j: int| 0 <= j < s.len() ==> lex_le(x, #[trigger] s[j]),
    ensures
        words_sorted(seq![x] + s),
{
    let t = seq![x] + s;
    assert forall|i: int, j: int| 0 <= i < j < t.len() implies lex_le(t[i], t[j]) by {
        if i == 0 {
            assert(t[j] == s[j - 1]);
        } else {
            assert(t[i] == s[i - 1] && t[j] == s[j - 1]);
        }
    }
}

/// `slice::sort` on words: ascending, by the order `Ord` gives `Vec<u8>`,
/// which compares bytes lexicographically. Trusted: the result is a
/// permutation of the input, sorted in that order, as the method's and the
/// trait's documentation state.
#[verifier::external_body]
fn sort_words(words: &mut Vec<Vec<u8>>)
    ensures
        words_view(final(words)@).to_multiset() == words_view(old(words)@).to_multiset(),
        words_sorted(words_view(final(words)@)),
{
    words.sort();
}

/// A permutation keeps what a sequence holds, and keeps it free of repeats.
proof fn lemma_permutation(a: Seq<Seq<u8>>, b: Seq<Seq<u8>>)
    requires
        a.to_multiset() == b.to_multiset(),
        a.no_duplicates(),
    ensures
        b.no_duplicates(),
        forall|w: Seq<u8>| #[trigger] b.contains(w) <==> a.contains(w),
{
    broadcast use vstd::seq_lib::group_to_multiset_ensures;

    a.lemma_multiset_has_no_duplicates();
    assert forall|w: Seq<u8>| b.to_multiset().contains(w) implies b.to_multiset().count(w) == 1 by {
        assert(a.to_multiset().contains(w));
    }
    b.lemma_multiset_has_no_duplicates_conv();
    assert forall|w: Seq<u8>| #[trigger] b.contains(w) <==> a.contains(w) by {
        assert(b.contains(w) <==> b.to_multiset().count(w) > 0);
        assert(a.contains(w) <==> a.to_multiset().count(w) > 0);
    }
}

/// The rebuild of one graph: it walks the merge of the old words with the
/// sorted pushed words, hands out each word that goes into the new graph,
/// counts the words pushed, moved and popped, and stops for good once the
/// graph reaches a limit.
pub struct Consolidation {
    old: Vec<Vec<u8>>,
    push: Vec<Vec<u8>>,
    next_old: usize,
    next_push: usize,
    count_pushed: usize,
    count_moved: usize,
    count_popped: usize,
    stopped: bool,
    awaiting: Option<ConsolidateStep>,
    pop: Ghost<Set<Seq<u8>>>,
}

impl Consolidation {
    /// The old graph's words.
    pub closed spec fn spec_old(&self) -> Seq<Seq<u8>> {
        words_view(self.old@)
    }

    /// The pushed words, sorted.
    pub closed spec fn spec_push(&self) -> Seq<Seq<u8>> {
        words_view(self.push@)
    }

    /// The popped words.
    pub closed spec fn spec_pop(&self) -> Set<Seq<u8>> {
        self.pop@
    }

    /// The steps of the whole rebuild.
    pub open spec fn plan(&self) -> Seq<(ConsolidateStep, Seq<u8>)> {
        merge_plan(self.spec_old(), self.spec_push(), self.spec_pop())
    }

    /// The number of steps taken.
    pub closed spec fn position(&self) -> int {
        self.next_old + self.next_push
    }

    /// Pushed words inserted so far.
    pub closed spec fn spec_pushed(&self) -> nat {
        self.count_pushed as nat
    }

    /// Old words moved so far.
    pub closed spec fn spec_moved(&self) -> nat {
        self.count_moved as nat
    }

    /// Old words left out so far.
    pub closed spec fn spec_popped(&self) -> nat {
        self.count_popped as nat
    }

    /// Whether a limit stopped the rebuild.
    pub closed spec fn spec_stopped(&self) -> bool {
        self.stopped
    }

    /// The kind of the word handed out and not yet recorded.
    pub closed spec fn spec_awaiting(&self) -> Option<ConsolidateStep> {
        self.awaiting
    }

    /// The walk stands at a step of the plan, and the counts are bounded
    /// by the steps taken.
    pub closed spec fn wf(&self) -> bool {
        &&& self.next_old <= self.old@.len()
        &&& self.next_push <= self.push@.len()
        &&& self.old@.len() + self.push@.len() <= usize::MAX
        &&& self.count_popped + self.count_moved <= self.next_old
        &&& self.count_pushed <= self.next_push
        &&& (self.awaiting == Some(ConsolidateStep::Push) ==> self.count_pushed < self.next_push)
        &&& (self.awaiting == Some(ConsolidateStep::Move) ==> self.count_popped + self.count_moved
            < self.next_old)
        &&& self.awaiting != Some(ConsolidateStep::Drop)
        &&& merge_plan(
            self.spec_old().skip(self.next_old as int),
            self.spec_push().skip(self.next_push as int),
            self.pop@,
        ) == self.plan().skip(self.position())
    }

    /// A rebuild of a graph holding `old_words` (in the graph's order),
    /// with the pending actions `pending`: the pushed words sorted, the
    /// popped words left out.
    pub fn new(old_words: Vec<Vec<u8>>, pending: &PendingWords) -> (r: Self)
        requires
            old_words@.len() + pending_words(*pending).dom().len() <= usize::MAX,
        ensures
            r.wf(),
            r.spec_old() == words_view(old_words@),
            words_sorted(r.spec_push()),
            r.spec_push().no_duplicates(),
            forall|w: Seq<u8>| #[trigger] r.spec_push().contains(w) <==> action_of(
                pending_words(*pending),
                w,
            ) == Some(PendingAction::Push),
            r.spec_pop() == pops_of(pending_words(*pending)),
            r.position() == 0,
            r.spec_pushed() == 0 && r.spec_moved() == 0 && r.spec_popped() == 0,
            !r.spec_stopped(),
            r.spec_awaiting() is None,
    {
        let mut push = pending.words_with(PendingAction::Push);
        let ghost unsorted = words_view(push@);
        proof {
            assert(unsorted.no_duplicates()) by {
                assert forall|i: int, j: int|
                    0 <= i < unsorted.len() && 0 <= j < unsorted.len() && i != j implies unsorted[i]
                    != unsorted[j] by {
                    if i < j {
                        assert(push@[i]@ != push@[j]@);
                    } else {
                        assert(push@[j]@ != push@[i]@);
                    }
                }
            }
        }
        let ghost unsorted_len = push@.len();
        sort_words(&mut push);
        proof {
            lemma_permutation(unsorted, words_view(push@));
            broadcast use vstd::seq_lib::group_to_multiset_ensures;
            assert(words_view(push@).len() == push@.len());
            assert(words_view(push@).to_multiset().len() == unsorted.to_multiset().len());
            assert(push@.len() == unsorted_len);
        }
        let r = Consolidation {
            old: old_words,
            push,
            next_old: 0,
            next_push: 0,
            count_pushed: 0,
            count_moved: 0,
            count_popped: 0,
            stopped: false,
            awaiting: None,
            pop: Ghost(pops_of(pending_words(*pending))),
        };
        assert(r.spec_old().skip(0) =~= r.spec_old());
        assert(r.spec_push().skip(0) =~= r.spec_push());
        assert(r.plan().skip(0) =~= r.plan());
        r
    }

    /// The next word to insert into the new graph, once the popped old words
    /// before it are counted; `None` when the words run out, or when the
    /// graph built so far (`bytes_written` bytes, and the words pushed and
    /// moved) reaches a limit, which stops the rebuild for good. The caller
    /// inserts the word and says with `record` whether that worked.
    pub fn next_word(
        &mut self,
        pending: &PendingWords,
        bytes_written: usize,
        config: &ConfigStoreFSTGraph,
    ) -> (r: Option<Vec<u8>>)
        requires
            old(self).wf(),
            old(self).spec_awaiting() is None,
            pops_of(pending_words(*pending)) == old(self).spec_pop(),
            config.max_size * 1024 <= usize::MAX,
        ensures
            final(self).wf(),
            final(self).spec_old() == old(self).spec_old(),
            final(self).spec_push() == old(self).spec_push(),
            final(self).spec_pop() == old(self).spec_pop(),
            final(self).spec_pushed() == old(self).spec_pushed(),
            final(self).spec_moved() == old(self).spec_moved(),
            old(self).spec_stopped() ==> r is None && final(self).spec_stopped()
                && final(self).position() == old(self).position() && final(self).spec_popped()
                == old(self).spec_popped() && final(self).spec_awaiting() is None,
            !old(self).spec_stopped() ==> ({
                let plan = old(self).plan();
                let q = first_kept(plan, old(self).position());
                let over = bytes_written >= config.max_size * 1024 || old(self).spec_pushed()
                    + old(self).spec_moved() >= config.max_words;
                &&& final(self).spec_popped() == old(self).spec_popped() + (q - old(
                    self,
                ).position())
                &&& q == plan.len() ==> r is None && final(self).position() == q
                    && !final(self).spec_stopped() && final(self).spec_awaiting() is None
                &&& q < plan.len() && over ==> r is None && final(self).position() == q
                    && final(self).spec_stopped() && final(self).spec_awaiting() is None
                &&& q < plan.len() && !over ==> (r matches Some(w) && w@ == plan[q].1
                    && final(self).position() == q + 1 && !final(self).spec_stopped()
                    && final(self).spec_awaiting() == Some(plan[q].0))
            }),
    {
        if self.stopped {
            return None;
        }
        let ghost p0 = self.position();
        let ghost plan = self.plan();
        proof {
            lemma_merge_plan_len(self.spec_old(), self.spec_push(), self.pop@);
        }
        loop
            invariant
                self.wf(),
                !self.stopped,
                self.awaiting is None,
                self.plan() == plan,
                plan.len() == self.old@.len() + self.push@.len(),
                self.spec_old() == old(self).spec_old(),
                self.spec_push() == old(self).spec_push(),
                self.pop@ == old(self).pop@,
                self.count_pushed == old(self).count_pushed,
                self.count_moved == old(self).count_moved,
                p0 == old(self).position(),
                p0 <= self.position(),
                first_kept(plan, self.position()) == first_kept(plan, p0),
                self.count_popped == old(self).count_popped + (self.position() - p0),
                pops_of(pending_words(*pending)) == self.pop@,
                config.max_size * 1024 <= usize::MAX,
                !old(self).stopped,
            decreases self.old@.len() + self.push@.len() - self.position(),
        {
            let i = self.next_old;
            let j = self.next_push;
            let ghost pos = self.position();
            let ghost a = self.spec_old().skip(i as int);
            let ghost b = self.spec_push().skip(j as int);
            proof {
                assert(merge_plan(a, b, self.pop@) == plan.skip(pos));
                lemma_merge_plan_len(a, b, self.pop@);
                if i < self.old@.len() {
                    assert(a[0] == self.old@[i as int]@);
                }
                if j < self.push@.len() {
                    assert(b[0] == self.push@[j as int]@);
                }
            }
            let take_push = j < self.push.len() && (i == self.old.len() || lex_le_bytes(
                self.push[j].as_slice(),
                self.old[i].as_slice(),
            ));
            if !take_push && i == self.old.len() {
                proof {
                    assert(a.len() == 0 && b.len() == 0);
                    assert(pos == plan.len());
                }
                return None;
            }
            if !take_push {
                let popped = match pending.action(self.old[i].as_slice()) {
                    Some(PendingAction::Pop) => true,
                    _ => false,
                };
                proof {
                    assert(self.pop@.contains(a[0]) == popped);
                    assert(plan[pos].0 == (if popped {
                        ConsolidateStep::Drop
                    } else {
                        ConsolidateStep::Move
                    })) by {
                        assert(plan.skip(pos)[0] == plan[pos]);
                    }
                    assert(plan[pos].1 == a[0]) by {
                        assert(plan.skip(pos)[0] == plan[pos]);
                    }
                    assert(a.drop_first() =~= self.spec_old().skip(i + 1));
                    assert(plan.skip(pos + 1) =~= plan.skip(pos).drop_first());
                    let m = merge_plan(a.drop_first(), b, self.pop@);
                    assert(merge_plan(a, b, self.pop@).drop_first() =~= m);
                }
                if popped {
                    self.count_popped = self.count_popped + 1;
                    self.next_old = self.next_old + 1;
                    continue;
                }
            } else {
                proof {
                    assert(plan.skip(pos)[0] == plan[pos]);
                    assert(plan[pos] == (ConsolidateStep::Push, b[0]));
                    assert(b.drop_first() =~= self.spec_push().skip(j + 1));
                    assert(plan.skip(pos + 1) =~= plan.skip(pos).drop_first());
                    let m = merge_plan(a, b.drop_first(), self.pop@);
                    assert(merge_plan(a, b, self.pop@).drop_first() =~= m);
                }
            }
            proof {
                assert(plan[pos].0 != ConsolidateStep::Drop);
                assert(first_kept(plan, pos) == pos);
            }
            if StoreFSTMisc::check_over_limits(
                bytes_written,
                self.count_pushed + self.count_moved,
                config,
            ) {
                self.stopped = true;
                return None;
            }
            if take_push {
                let w = self.push[j].clone();
                assert(w@ == self.push@[j as int]@);
                self.next_push = self.next_push + 1;
                self.awaiting = Some(ConsolidateStep::Push);
                return Some(w);
            } else {
                let w = self.old[i].clone();
                assert(w@ == self.old@[i as int]@);
                self.next_old = self.next_old + 1;
                self.awaiting = Some(ConsolidateStep::Move);
                return Some(w);
            }
        }
    }

    /// Records whether the word last handed out went into the new graph;
    /// only inserted words count as pushed or moved.
    pub fn record(&mut self, inserted: bool)
        requires
            old(self).wf(),
        ensures
            final(self).wf(),
            final(self).spec_old() == old(self).spec_old(),
            final(self).spec_push() == old(self).spec_push(),
            final(self).spec_pop() == old(self).spec_pop(),
            final(self).position() == old(self).position(),
            final(self).spec_stopped() == old(self).spec_stopped(),
            final(self).spec_popped() == old(self).spec_popped(),
            final(self).spec_awaiting() is None,
            final(self).spec_pushed() == old(self).spec_pushed() + (if inserted && old(
                self,
            ).spec_awaiting() == Some(ConsolidateStep::Push) {
                1int
            } else {
                0int
            }),
            final(self).spec_moved() == old(self).spec_moved() + (if inserted && old(
                self,
            ).spec_awaiting() == Some(ConsolidateStep::Move) {
                1int
            } else {
                0int
            }),
    {
        if inserted {
            match self.awaiting {
                Some(ConsolidateStep::Push) => {
                    self.count_pushed = self.count_pushed + 1;
                },
                Some(ConsolidateStep::Move) => {
                    self.count_moved = self.count_moved + 1;
                },
                _ => {},
            }
        }
        self.awaiting = None;
    }

    /// Pushed words inserted so far.
    pub fn count_pushed(&self) -> (r: usize)
        ensures
            r == self.spec_pushed(),
    {
        self.count_pushed
    }

    /// Old words moved so far.
    pub fn count_moved(&self) -> (r: usize)
        ensures
            r == self.spec_moved(),
    {
        self.count_moved
    }

    /// Old words left out so far.
    pub fn count_popped(&self) -> (r: usize)
        ensures
            r == self.spec_popped(),
    {
        self.count_popped
    }

    /// Whether a limit stopped the rebuild.
    pub fn is_stopped(&self) -> (r: bool)
        ensures
            r == self.spec_stopped(),
    {
        self.stopped
    }
}

/// The words kept by two runs of steps are those of the first, then those
/// of the second.
proof fn lemma_kept_words_concat(
    a: Seq<(ConsolidateStep, Seq<u8>)>,
    b: Seq<(ConsolidateStep, Seq<u8>)>,
)
    ensures
        kept_words(a + b) == kept_words(a) + kept_words(b),
    decreases a.len(),
{
    if a.len() == 0 {
        assert(a + b =~= b);
        assert(kept_words(a) =~= Seq::<Seq<u8>>::empty());
        assert(kept_words(a) + kept_words(b) =~= kept_words(b));
    } else {
        assert((a + b).drop_first() =~= a.drop_first() + b);
        assert((a + b)[0] == a[0]);
        lemma_kept_words_concat(a.drop_first(), b);
        let head = if a[0].0 == ConsolidateStep::Drop {
            Seq::<Seq<u8>>::empty()
        } else {
            seq![a[0].1]
        };
        assert(head + (kept_words(a.drop_first()) + kept_words(b)) =~= (head + kept_words(
            a.drop_first(),
        )) + kept_words(b));
    }
}

/// One more step keeps one more word, unless it leaves a word out.
proof fn lemma_kept_words_step(plan: Seq<(ConsolidateStep, Seq<u8>)>, k: int)
    requires
        0 <= k < plan.len(),
    ensures
        kept_words(plan.take(k + 1)) == kept_words(plan.take(k)) + (if plan[k].0
            == ConsolidateStep::Drop {
            Seq::<Seq<u8>>::empty()
        } else {
            seq![plan[k].1]
        }),
{
    let one = seq![plan[k]];
    assert(plan.take(k + 1) =~= plan.take(k) + one);
    lemma_kept_words_concat(plan.take(k), one);
    assert(one.drop_first() =~= Seq::<(ConsolidateStep, Seq<u8>)>::empty());
    assert(kept_words(one.drop_first()) =~= Seq::<Seq<u8>>::empty());
    assert(one[0] == plan[k]);
    if plan[k].0 == ConsolidateStep::Drop {
        assert(kept_words(one) =~= Seq::<Seq<u8>>::empty());
    } else {
        assert(kept_words(one) =~= seq![plan[k].1]);
    }
}

/// Between a step and the first kept step at or after it, every step
/// leaves a word out, so no word is kept there.
pub proof fn lemma_first_kept(plan: Seq<(ConsolidateStep, Seq<u8>)>, p: int)
    requires
        0 <= p <= plan.len(),
    ensures
        p <= first_kept(plan, p) <= plan.len(),
        first_kept(plan, p) < plan.len() ==> plan[first_kept(plan, p)].0
            != ConsolidateStep::Drop,
        kept_words(plan.take(first_kept(plan, p))) == kept_words(plan.take(p)),
    decreases plan.len() - p,
{
    if p < plan.len() && plan[p].0 == ConsolidateStep::Drop {
        lemma_first_kept(plan, p + 1);
        lemma_kept_words_step(plan, p);
        assert(kept_words(plan.take(p)) + Seq::<Seq<u8>>::empty() =~= kept_words(plan.take(p)));
    }
}

/// The words kept by the first steps begin the words kept by all of them.
proof fn lemma_kept_prefix(plan: Seq<(ConsolidateStep, Seq<u8>)>, n: int)
    requires
        0 <= n <= plan.len(),
    ensures
        kept_words(plan) == kept_words(plan.take(n)) + kept_words(plan.skip(n)),
{
    assert(plan =~= plan.take(n) + plan.skip(n));
    lemma_kept_words_concat(plan.take(n), plan.skip(n));
}

/// The number of steps of a kind.
pub open spec fn step_count(plan: Seq<(ConsolidateStep, Seq<u8>)>, kind: ConsolidateStep) -> nat
    decreases plan.len(),
{
    if plan.len() == 0 {
        0
    } else {
        step_count(plan.drop_last(), kind) + if plan.last().0 == kind {
            1nat
        } else {
            0nat
        }
    }
}

/// One more step counts once, for its kind.
proof fn lemma_step_count_step(plan: Seq<(ConsolidateStep, Seq<u8>)>, k: int)
    requires
        0 <= k < plan.len(),
    ensures
        forall|kind: ConsolidateStep| #[trigger]
            step_count(plan.take(k + 1), kind) == step_count(plan.take(k), kind) + if plan[k].0
                == kind {
                1nat
            } else {
                0nat
            },
{
    assert(plan.take(k + 1).drop_last() =~= plan.take(k));
    assert(plan.take(k + 1).last() == plan[k]);
}

/// The steps skipped up to the first kept one are all left-out words.
proof fn lemma_first_kept_counts(plan: Seq<(ConsolidateStep, Seq<u8>)>, p: int)
    requires
        0 <= p <= plan.len(),
    ensures
        step_count(plan.take(first_kept(plan, p)), ConsolidateStep::Drop) == step_count(
            plan.take(p),
            ConsolidateStep::Drop,
        ) + (first_kept(plan, p) - p),
        step_count(plan.take(first_kept(plan, p)), ConsolidateStep::Push) == step_count(
            plan.take(p),
            ConsolidateStep::Push,
        ),
        step_count(plan.take(first_kept(plan, p)), ConsolidateStep::Move) == step_count(
            plan.take(p),
            ConsolidateStep::Move,
        ),
    decreases plan.len() - p,
{
    if p < plan.len() && plan[p].0 == ConsolidateStep::Drop {
        lemma_first_kept_counts(plan, p + 1);
        lemma_step_count_step(plan, p);
        assert(step_count(plan.take(p + 1), ConsolidateStep::Drop) == step_count(
            plan.take(p),
            ConsolidateStep::Drop,
        ) + 1);
        assert(step_count(plan.take(p + 1), ConsolidateStep::Push) == step_count(
            plan.take(p),
            ConsolidateStep::Push,
        ));
        assert(step_count(plan.take(p + 1), ConsolidateStep::Move) == step_count(
            plan.take(p),
            ConsolidateStep::Move,
        ));
    }
}

/// The words a graph builder holds once it is handed these words in order:
/// a word equal to the one before it adds nothing.
pub open spec fn dedup_adjacent(s: Seq<Seq<u8>>) -> Seq<Seq<u8>>
    decreases s.len(),
{
    if s.len() == 0 {
        s
    } else {
        let d = dedup_adjacent(s.drop_last());
        if d.len() > 0 && d.last() == s.last() {
            d
        } else {
            d.push(s.last())
        }
    }
}

/// Whether the new graph, once the steps before `q` are taken, has reached
/// a limit: the bytes its builder has written, or the words pushed and
/// moved into it.
pub open spec fn over_limits_at(
    plan: Seq<(ConsolidateStep, Seq<u8>)>,
    q: int,
    config: ConfigStoreFSTGraph,
) -> bool {
    let taken = plan.take(q);
    ||| bytes_written_for(dedup_adjacent(kept_words(taken))) as usize >= config.max_size * 1024
    ||| step_count(taken, ConsolidateStep::Push) + step_count(taken, ConsolidateStep::Move)
        >= config.max_words
}

/// Where a rebuild that stands at step `p` ends, and whether a limit
/// stopped it: before each word that goes into the new graph the limits
/// are checked, and a limit reached stops the rebuild there.
pub open spec fn rebuild_end(
    plan: Seq<(ConsolidateStep, Seq<u8>)>,
    p: int,
    config: ConfigStoreFSTGraph,
) -> (int, bool)
    decreases plan.len() - p,
{
    if !(0 <= p <= plan.len()) {
        (p, false)
    } else {
        let q = first_kept(plan, p);
        if q >= plan.len() {
            (q, false)
        } else if over_limits_at(plan, q, config) {
            (q, true)
        } else {
            proof {
                lemma_first_kept(plan, p);
            }
            rebuild_end(plan, q + 1, config)
        }
    }
}

/// Words in strictly increasing order.
pub open spec fn words_increasing(s: Seq<Seq<u8>>) -> bool {
    forall|i: int, j: int| 0 <= i < j < s.len() ==> lex_lt(s[i], s[j])
}

/// What a rebuild gives: the new graph's bytes, the words pushed, moved
/// and left out, and whether a limit stopped it.
pub struct ConsolidateOutcome {
    pub bytes: Vec<u8>,
    pub count_pushed: usize,
    pub count_moved: usize,
    pub count_popped: usize,
    pub stopped: bool,
}

/// How a rebuild of a graph holding `old` with the pending actions `m`
/// went, step by step: there is a sorted order of the pushed words such
/// that the rebuild took the first `p` steps of the merge plan and no more,
/// `p` and whether a limit stopped it being where the limits end the
/// rebuild, and the new graph and the counts are those of these steps.
pub open spec fn rebuild_took(
    old: Seq<Seq<u8>>,
    m: Map<Seq<u8>, PendingAction>,
    o: ConsolidateOutcome,
    config: ConfigStoreFSTGraph,
) -> bool {
    exists|push: Seq<Seq<u8>>, p: int|
        #![trigger merge_plan(old, push, pops_of(m)).take(p)]
        {
            let plan = merge_plan(old, push, pops_of(m));
            &&& words_sorted(push)
            &&& push.no_duplicates()
            &&& forall|w: Seq<u8>| #[trigger]
                push.contains(w) <==> action_of(m, w) == Some(PendingAction::Push)
            &&& 0 <= p <= plan.len()
            &&& words_of_graph_bytes(o.bytes@).to_set() == kept_words(plan.take(p)).to_set()
            &&& o.count_pushed == step_count(plan.take(p), ConsolidateStep::Push)
            &&& o.count_moved == step_count(plan.take(p), ConsolidateStep::Move)
            &&& o.count_popped == step_count(plan.take(p), ConsolidateStep::Drop)
            &&& !o.stopped ==> p == plan.len()
            &&& (p, o.stopped) == rebuild_end(plan, 0, config)
        }
}

/// Rebuilds a graph with its pending actions: the new graph holds, in
/// order, the old words that were not popped and the pushed words, up to
/// the graph's limits: before each word goes in, the bytes written so far
/// and the words pushed and moved are checked, and a limit reached stops
/// the rebuild there (see `rebuild_end`). `None` when nothing is pending
/// (there is nothing to rebuild).
pub fn consolidate_graph(
    old: &fst::Set,
    pending: &PendingWords,
    config: &ConfigStoreFSTGraph,
) -> (r: Option<ConsolidateOutcome>)
    requires
        graph_sound(*old),
        graph_words(*old).len() + pending_words(*pending).dom().len() <= usize::MAX,
        config.max_size * 1024 <= usize::MAX,
    ensures
        pending_words(*pending).dom().len() == 0 ==> r is None,
        r matches Some(o) ==> built_graph_bytes(o.bytes@),
        r matches Some(o) ==> ({
            let words = words_of_graph_bytes(o.bytes@);
            let m = pending_words(*pending);
            &&& words_increasing(words)
            &&& forall|w: Seq<u8>| #[trigger]
                words.contains(w) ==> ((graph_words(*old).contains(w) && action_of(m, w) != Some(
                    PendingAction::Pop,
                )) || action_of(m, w) == Some(PendingAction::Push))
            &&& !o.stopped ==> forall|w: Seq<u8>| #[trigger]
                words.contains(w) <== ((graph_words(*old).contains(w) && action_of(m, w) != Some(
                    PendingAction::Pop,
                )) || action_of(m, w) == Some(PendingAction::Push))
        }),
        pending_words(*pending).dom().len() > 0 ==> r is Some,
        r matches Some(o) ==> exists|push: Seq<Seq<u8>>, p: int|
            #![trigger merge_plan(graph_words(*old), push, pops_of(pending_words(*pending))).take(p)]
            {
                let m = pending_words(*pending);
                let plan = merge_plan(graph_words(*old), push, pops_of(m));
                &&& words_sorted(push)
                &&& push.no_duplicates()
                &&& forall|w: Seq<u8>| #[trigger]
                    push.contains(w) <==> action_of(m, w) == Some(PendingAction::Push)
                &&& 0 <= p <= plan.len()
                &&& words_of_graph_bytes(o.bytes@).to_set() == kept_words(plan.take(p)).to_set()
                &&& o.count_pushed == step_count(plan.take(p), ConsolidateStep::Push)
                &&& o.count_moved == step_count(plan.take(p), ConsolidateStep::Move)
                &&& o.count_popped == step_count(plan.take(p), ConsolidateStep::Drop)
                &&& !o.stopped ==> p == plan.len()
                &&& (p, o.stopped) == rebuild_end(plan, 0, *config)
            },
{
    if pending.is_empty() {
        return None;
    }
    let old_words = graph_all_words(old);
    let ghost ow = words_view(old_words@);
    let mut run = Consolidation::new(old_words, pending);
    let ghost plan = run.plan();
    let ghost push0 = run.spec_push();
    let ghost m0 = pending_words(*pending);
    proof {
        assert(ow == graph_words(*old));
        assert(words_sorted(push0));
        assert(push0.no_duplicates());
        assert(forall|w: Seq<u8>| #[trigger]
            push0.contains(w) <==> action_of(m0, w) == Some(PendingAction::Push));
        assert(step_count(plan.take(0), ConsolidateStep::Push) == 0);
        assert(step_count(plan.take(0), ConsolidateStep::Move) == 0);
        assert(step_count(plan.take(0), ConsolidateStep::Drop) == 0);
        assert(words_sorted(ow)) by {
            assert forall|i: int, j: int| 0 <= i < j < ow.len() implies lex_le(ow[i], ow[j]) by {
                assert(lex_lt(old_words@[i]@, old_words@[j]@));
                lemma_lex_total(ow[i], ow[j]);
            }
        }
        lemma_merge_plan_sorted(ow, run.spec_push(), run.spec_pop());
        lemma_merge_plan_len(ow, run.spec_push(), run.spec_pop());
        assert(plan.take(0) =~= Seq::<(ConsolidateStep, Seq<u8>)>::empty());
        assert(kept_words(plan.take(0)) =~= Seq::<Seq<u8>>::empty());
    }
    let mut builder = builder_memory();
    proof {
        assert(dedup_adjacent(Seq::<Seq<u8>>::empty()) =~= Seq::<Seq<u8>>::empty());
    }
    let ghost mut handed: Seq<Seq<u8>> = Seq::empty();
    loop
        invariant
            run.wf(),
            run.plan() == plan,
            run.spec_old() == ow,
            run.spec_push() == push0,
            run.spec_pop() == pops_of(pending_words(*pending)),
            run.spec_awaiting() is None,
            plan.len() == ow.len() + run.spec_push().len(),
            0 <= run.position() <= plan.len(),
            config.max_size * 1024 <= usize::MAX,
            words_sorted(kept_words(plan)),
            handed == kept_words(plan.take(run.position())),
            builder_words(builder).to_set() == handed.to_set(),
            (handed.len() > 0) == (builder_words(builder).len() > 0),
            handed.len() > 0 ==> builder_words(builder).last() == handed.last(),
            words_increasing(builder_words(builder)),
            builder_words(builder) == dedup_adjacent(handed),
            run.spec_pushed() == step_count(plan.take(run.position()), ConsolidateStep::Push),
            run.spec_moved() == step_count(plan.take(run.position()), ConsolidateStep::Move),
            run.spec_popped() == step_count(plan.take(run.position()), ConsolidateStep::Drop),
            !run.spec_stopped() ==> rebuild_end(plan, 0, *config) == rebuild_end(
                plan,
                run.position(),
                *config,
            ),
            run.spec_stopped() ==> rebuild_end(plan, 0, *config) == (run.position(), true),
        ensures
            rebuild_end(plan, 0, *config) == (run.position(), run.spec_stopped()),
            run.spec_pushed() == step_count(plan.take(run.position()), ConsolidateStep::Push),
            run.spec_moved() == step_count(plan.take(run.position()), ConsolidateStep::Move),
            run.spec_popped() == step_count(plan.take(run.position()), ConsolidateStep::Drop),
            run.wf(),
            run.plan() == plan,
            run.spec_old() == ow,
            run.spec_push() == push0,
            run.spec_pop() == pops_of(pending_words(*pending)),
            0 <= run.position() <= plan.len(),
            !run.spec_stopped() ==> run.position() == plan.len(),
            handed == kept_words(plan.take(run.position())),
            builder_words(builder).to_set() == handed.to_set(),
            words_increasing(builder_words(builder)),
        decreases plan.len() - run.position(),
    {
        let bytes_written = builder_bytes_written(&builder);
        let ghost p = run.position();
        proof {
            lemma_first_kept(plan, p);
            lemma_first_kept_counts(plan, p);
            let q = first_kept(plan, p);
            assert(bytes_written == bytes_written_for(dedup_adjacent(kept_words(plan.take(q))))
                as usize);
        }
        match run.next_word(pending, bytes_written, config) {
            None => {
                proof {
                    lemma_first_kept(plan, p);
                }
                break;
            },
            Some(w) => {
                let ghost q = first_kept(plan, p);
                proof {
                    lemma_step_count_step(plan, q);
                }
                let ghost bw = builder_words(builder);
                proof {
                    lemma_kept_words_step(plan, q);
                    lemma_kept_prefix(plan, q + 1);
                    let next = kept_words(plan.take(q + 1));
                    assert(next == handed.push(w@));
                    if handed.len() > 0 {
                        let all = kept_words(plan);
                        assert(all[handed.len() - 1] == handed.last());
                        assert(all[handed.len() as int] == w@);
                        assert(lex_le(handed.last(), w@));
                    }
                }
                let ok = builder_insert(&mut builder, w.as_slice());
                proof {
                    assert(ok);
                    let next = handed.push(w@);
                    if bw.len() > 0 && w@ == bw.last() {
                        assert(bw.to_set().contains(w@)) by {
                            assert(bw[bw.len() - 1] == w@);
                        }
                        handed.lemma_push_to_set_commute(w@);
                        assert(handed.to_set().contains(w@));
                        assert(handed.to_set().insert(w@) =~= handed.to_set());
                    } else {
                        let nb = bw.push(w@);
                        bw.lemma_push_to_set_commute(w@);
                        handed.lemma_push_to_set_commute(w@);
                        assert forall|i: int, j: int| 0 <= i < j < nb.len() implies lex_lt(
                            nb[i],
                            nb[j],
                        ) by {
                            if j == nb.len() - 1 && bw.len() > 0 {
                                lemma_lex_total(w@, bw.last());
                                if i < bw.len() - 1 {
                                    lemma_lex_transitive(bw[i], bw.last(), w@);
                                }
                            }
                        }
                    }
                    assert(next.drop_last() =~= handed);
                    handed = next;
                }
                run.record(ok);
            },
        }
    }
    proof {
        let q = run.position();
        lemma_kept_prefix(plan, q);
        lemma_merge_plan_kept(ow, push0, run.spec_pop());
        let all = kept_words(plan);
        let m = pending_words(*pending);
        let bw = builder_words(builder);
        assert forall|w: Seq<u8>| #[trigger] bw.contains(w) implies ((graph_words(*old).contains(w)
            && action_of(m, w) != Some(PendingAction::Pop)) || action_of(m, w) == Some(
            PendingAction::Push,
        )) by {
            assert(bw.to_set().contains(w));
            assert(handed.to_set().contains(w));
            let i = choose|i: int| 0 <= i < handed.len() && handed[i] == w;
            assert(all[i] == w);
            assert(all.contains(w));
            assert(run.spec_pop().contains(w) <==> action_of(m, w) == Some(PendingAction::Pop));
        }
        if !run.spec_stopped() {
            assert(plan.take(q) =~= plan);
            assert forall|w: Seq<u8>| ((graph_words(*old).contains(w) && action_of(m, w) != Some(
                PendingAction::Pop,
            )) || action_of(m, w) == Some(PendingAction::Push)) implies #[trigger] bw.contains(w) by {
                assert(run.spec_pop().contains(w) <==> action_of(m, w) == Some(
                    PendingAction::Pop,
                ));
                assert(all.contains(w));
                assert(handed.to_set().contains(w));
                assert(bw.to_set().contains(w));
            }
        }
    }
    let stopped = run.is_stopped();
    let count_pushed = run.count_pushed();
    let count_moved = run.count_moved();
    let count_popped = run.count_popped();
    match builder_into_bytes(builder) {
        Some(bytes) => Some(
            ConsolidateOutcome { bytes, count_pushed, count_moved, count_popped, stopped },
        ),
        None => None,
    }
}

} // verus!
