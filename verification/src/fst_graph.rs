//! Word graphs, kept in `fst` sets: what a graph holds, how a graph is
//! built word by word, and how the words of a graph read back from its
//! bytes.
use vstd::prelude::*;

use crate::encoding::lex_lt;
use fst::IntoStreamer;
use crate::pending::words_view;

verus! {

/// A word graph, as `fst` keeps it.
#[verifier::external_type_specification]
#[verifier::external_body]
pub struct ExFstSet(fst::Set);

/// A word graph being built, as `fst` builds it.
#[verifier::external_type_specification]
#[verifier::external_body]
#[verifier::reject_recursive_types(W)]
pub struct ExFstSetBuilder<W>(fst::SetBuilder<W>);

/// The words of a graph, in the graph's order.
pub uninterp spec fn graph_words(graph: fst::Set) -> Seq<Seq<u8>>;

/// The size of a graph, in bytes.
pub uninterp spec fn graph_size(graph: fst::Set) -> nat;

/// The words a graph builder holds so far, in order.
pub uninterp spec fn builder_words(builder: fst::SetBuilder<Vec<u8>>) -> Seq<Seq<u8>>;

/// The words of the graph that bytes written by a graph builder encode.
pub uninterp spec fn words_of_graph_bytes(bytes: Seq<u8>) -> Seq<Seq<u8>>;

/// Whether bytes are a whole graph as `fst`'s builder writes it.
pub uninterp spec fn built_graph_bytes(bytes: Seq<u8>) -> bool;

/// Whether a graph was opened from bytes that `fst`'s builder wrote, so
/// that its nodes and its footer are as the builder laid them out.
pub uninterp spec fn graph_sound(graph: fst::Set) -> bool;

/// The number of bytes a graph builder writing to memory has written once
/// it holds these words, inserted in this order.
pub uninterp spec fn bytes_written_for(words: Seq<Seq<u8>>) -> u64;

/// What `fst_levenshtein::Levenshtein::new(query, distance)` then a search
/// of a graph with it give: `None` when the automaton cannot be built, else
/// the graph's words within `distance` edits of `query`, in order.
pub uninterp spec fn levenshtein_matches(
    words: Seq<Seq<u8>>,
    query: Seq<char>,
    distance: u32,
) -> Option<Seq<Seq<u8>>>;

/// `fst::Set::contains`: whether the graph holds a word. Trusted: on a
/// graph the builder wrote, the result is membership, as the method's
/// documentation states; other bytes may make the walk panic, so they are
/// left out.
#[verifier::external_body]
pub(crate) fn graph_contains(graph: &fst::Set, word: &[u8]) -> (r: bool)
    requires
        graph_sound(*graph),
    ensures
        r == graph_words(*graph).contains(word@),
{
    graph.contains(word)
}

/// `fst::Set::len`: the count the graph's footer holds. Trusted: on a
/// graph the builder wrote, that count is the number of distinct words it
/// was given, so the length of the graph's words.
#[verifier::external_body]
pub(crate) fn graph_len(graph: &fst::Set) -> (r: usize)
    requires
        graph_sound(*graph),
    ensures
        r == graph_words(*graph).len(),
{
    graph.len()
}

/// `fst::raw::Fst::size`: the graph's size in bytes. Trusted: it is the
/// name `graph_size`.
#[verifier::external_body]
pub(crate) fn graph_byte_size(graph: &fst::Set) -> (r: usize)
    ensures
        r == graph_size(*graph),
{
    graph.as_fst().size()
}

/// `fst::Set::stream`, then `into_bytes`: every word of the graph. Trusted:
/// on a graph the builder wrote, the words of the graph, in strictly
/// increasing lexicographic order, as the documentation of sets and of
/// their streams states.
#[verifier::external_body]
pub(crate) fn graph_all_words(graph: &fst::Set) -> (r: Vec<Vec<u8>>)
    requires
        graph_sound(*graph),
    ensures
        words_view(r@) == graph_words(*graph),
        forall|i: int, j: int| 0 <= i < j < r@.len() ==> lex_lt(r@[i]@, r@[j]@),
{
    graph.stream().into_bytes()
}

/// `fst::Set::from_bytes`: the graph that bytes encode. Trusted: it checks
/// only the version and where the root node lies, so of other bytes
/// nothing is claimed but the size; bytes the builder wrote always open,
/// as a graph the builder wrote, holding the words they encode.
#[verifier::external_body]
pub(crate) fn graph_from_bytes(bytes: Vec<u8>) -> (r: Option<fst::Set>)
    ensures
        r matches Some(g) ==> graph_size(g) == bytes@.len(),
        r is None ==> !built_graph_bytes(bytes@),
        r matches Some(g) ==> (built_graph_bytes(bytes@) ==> graph_sound(g) && graph_words(g)
            == words_of_graph_bytes(bytes@)),
{
    fst::Set::from_bytes(bytes).ok()
}

/// `fst::Set::default`: the empty graph. Trusted: the source builds it
/// with the builder, from no word.
#[verifier::external_body]
pub(crate) fn graph_empty() -> (r: fst::Set)
    ensures
        graph_sound(r),
        graph_words(r) == Seq::<Seq<u8>>::empty(),
{
    fst::Set::default()
}

/// `fst::SetBuilder::memory`: a builder writing to memory. Trusted: it
/// holds no word yet.
#[verifier::external_body]
pub(crate) fn builder_memory() -> (r: fst::SetBuilder<Vec<u8>>)
    ensures
        builder_words(r) == Seq::<Seq<u8>>::empty(),
{
    fst::SetBuilder::memory()
}

/// `fst::SetBuilder::insert`, in memory: true when it succeeds. Trusted,
/// as the source shows: a word before the last one inserted is refused and
/// changes nothing; the last word again succeeds and changes nothing; any
/// other word is appended (writing to memory does not fail).
#[verifier::external_body]
pub(crate) fn builder_insert(builder: &mut fst::SetBuilder<Vec<u8>>, word: &[u8]) -> (r: bool)
    ensures
        r == (builder_words(*old(builder)).len() == 0 || !lex_lt(
            word@,
            builder_words(*old(builder)).last(),
        )),
        r && (builder_words(*old(builder)).len() == 0 || word@ != builder_words(
            *old(builder),
        ).last()) ==> builder_words(*final(builder)) == builder_words(*old(builder)).push(word@),
        !(r && (builder_words(*old(builder)).len() == 0 || word@ != builder_words(
            *old(builder),
        ).last())) ==> builder_words(*final(builder)) == builder_words(*old(builder)),
{
    builder.insert(word).is_ok()
}

/// `fst::SetBuilder::bytes_written`: the bytes written so far. Trusted:
/// the builder writes a node only when its words decide it, and a word
/// again or refused writes nothing, so from a builder in memory the count
/// depends on the words it holds alone: it is the name
/// `bytes_written_for`, cut to a `usize`.
#[verifier::external_body]
pub(crate) fn builder_bytes_written(builder: &fst::SetBuilder<Vec<u8>>) -> (r: usize)
    ensures
        r == bytes_written_for(builder_words(*builder)) as usize,
{
    builder.bytes_written() as usize
}

/// `fst::SetBuilder::into_inner`: finishes the graph and gives its bytes.
/// Trusted: the bytes encode the words inserted, as the documentation
/// states of what a builder writes; and it succeeds, as the source shows
/// that finishing fails only when writing fails, which writing to memory
/// does not.
#[verifier::external_body]
pub(crate) fn builder_into_bytes(builder: fst::SetBuilder<Vec<u8>>) -> (r: Option<Vec<u8>>)
    ensures
        r is Some,
        r matches Some(bytes) ==> words_of_graph_bytes(bytes@) == builder_words(builder)
            && built_graph_bytes(bytes@),
{
    builder.into_inner().ok()
}

/// `fst_levenshtein::Levenshtein::new`, then `fst::Set::search` and
/// `into_bytes`: the graph's words within `distance` edits of `query`.
/// Trusted: on a graph the builder wrote, the result depends on the
/// graph's words, the query and the distance alone, and is named
/// `levenshtein_matches`; what a search streams are words of the graph.
#[verifier::external_body]
pub(crate) fn graph_typos(graph: &fst::Set, query: &str, distance: u32) -> (r: Option<Vec<Vec<u8>>>)
    requires
        graph_sound(*graph),
    ensures
        r matches Some(ws) ==> forall|i: int|
            0 <= i < ws@.len() ==> graph_words(*graph).contains(#[trigger] ws@[i]@),
        (match r {
            Some(ws) => Some(words_view(ws@)),
            None => None,
        }) == levenshtein_matches(graph_words(*graph), query@, distance),
{
    let automaton = fst_levenshtein::Levenshtein::new(query, distance).ok()?;
    Some(graph.search(automaton).into_stream().into_bytes())
}

} // verus!
