# sonic

The storage and text core of the Sonic search backend, written in Verus:
the functions under `src/` state in `requires` / `ensures` what they do and
are proved to do it. Where a result comes from an outside crate, the
contract speaks of a name for that crate's result rather than of the
result itself (see the last section).

## Layout

- `src/`: the verified library.
  - Store layout: `item` (validated collection, bucket and object names),
    `keyer` and `kv_keys` (key-value store keys and their order),
    `encoding` (byte encodings of numbers and lists), `posting` (posting
    lists, sparse and dense, with their encoding), `merge` (the store's merge
    operators), `document` (document framing), `term_dump`, `stats`,
    `profile`.
  - Queries and executors: `query` (query building), `executor` (what a pop
    does to an object and its terms, taken from what the store holds),
    `iid` (internal identifiers handed out per bucket), `ingest` (what a push
    or a pop writes for an object and schedules in the word graph, how a
    bulk write gathers its records by bucket, and the terms a document
    brings),
    `scoring` (a search's scoring matrix: exact matches, suggested words
    within a budget, the implicit AND of special terms, paging),
    `search_phases` (when a search looks up completions, then typos, term
    by term), `pool`
    (which pooled stores are idle long enough to close or consolidate),
    `kv_batch` (the writes a bucket's key-value actions put in a batch, and
    what its reads give from the bytes the store holds).
  - Text: `lexer`, `lexing`, `normalize`, `preprocess`, `stemming`,
    `stopwords`, `lang_detection` (trigrams and stopwords, each the other's
    fallback; the stopword lists are given by the caller).
  - Word graphs: `graph` (graph identifiers and limits), `fst_graph` (the
    `fst` sets behind them), `pending` (pushes and pops waiting for a
    consolidation), `consolidate` (rebuilding a graph), `fst_store`,
    `backup` (a graph's words one per line, and a graph built again from
    them).
  - Settings: `config`, `dynamic_config`, `env`.
  - `text` and `hashing`: UTF-8 text and term hashing.
- `tests/`: tests of the library's behaviour on concrete values.
- `app/`: what stays outside the proofs: configuration and JSON through
  serde, environment variables, graph files on disk, search scores (floating
  point), lock formatting.

Calls into outside crates (`fst`, `fst-levenshtein`, `regex`,
`unicode-segmentation`, `unicode-normalization`, `caseless`, `whatlang`,
`twox-hash`, `hashbrown`, `indexmap`, `linked_hash_set`, `radix`,
`serde_json`) go through small trusted
functions whose contracts restate what those crates document; where the
documentation takes pages (language detection, Unicode tables, automata),
the result is given a name and the library's contracts are stated over it.
