//! Graph backups: a graph's words written one per line, and a graph built
//! again from such lines, in the order they come.
use vstd::prelude::*;

use crate::consolidate::{dedup_adjacent, lex_le, words_increasing};
use crate::encoding::{lemma_lex_total, lex_lt};
use crate::fst_graph::{
    builder_insert, builder_into_bytes, builder_memory, builder_words, built_graph_bytes,
    words_of_graph_bytes,
};
use crate::pending::words_view;
use crate::text::str_from_utf8;
use vstd::utf8::valid_utf8;

verus! {

/// A line without the carriage return that ended it, if any.
pub open spec fn strip_cr(line: Seq<u8>) -> Seq<u8> {
    if line.len() > 0 && line.last() == 13 {
        line.drop_last()
    } else {
        line
    }
}

/// The lines ended so far and the line being read, after reading bytes
/// one by one: a newline ends a line, dropping a carriage return just
/// before it.
pub open spec fn scan_lines(b: Seq<u8>) -> (Seq<Seq<u8>>, Seq<u8>)
    decreases b.len(),
{
    if b.len() == 0 {
        (seq![], seq![])
    } else {
        let (ls, cur) = scan_lines(b.drop_last());
        if b.last() == 10 {
            (ls.push(strip_cr(cur)), seq![])
        } else {
            (ls, cur.push(b.last()))
        }
    }
}

/// The lines of a backup: those ended by a newline, then the last one when
/// it is not empty.
pub open spec fn backup_lines(b: Seq<u8>) -> Seq<Seq<u8>> {
    let (ls, cur) = scan_lines(b);
    if cur.len() == 0 {
        ls
    } else {
        ls.push(cur)
    }
}

/// The backup of words: each word, then a newline.
pub open spec fn backup_of(words: Seq<Seq<u8>>) -> Seq<u8>
    decreases words.len(),
{
    if words.len() == 0 {
        seq![]
    } else {
        backup_of(words.drop_last()) + words.last() + seq![10u8]
    }
}

/// Whether each line comes no earlier than the one before it.
pub open spec fn lines_in_order(ls: Seq<Seq<u8>>) -> bool {
    forall|i: int| 0 < i < ls.len() ==> lex_le(ls[i - 1], #[trigger] ls[i])
}

/// Whether every line is UTF-8.
pub open spec fn lines_utf8(ls: Seq<Seq<u8>>) -> bool {
    forall|i: int| 0 <= i < ls.len() ==> valid_utf8(#[trigger] ls[i])
}

/// The lines of a backup, each without its newline (and without a carriage
/// return just before that).
pub fn split_backup_lines(backup: &[u8]) -> (r: Vec<Vec<u8>>)
    ensures
        words_view(r@) == backup_lines(backup@),
{
    let mut lines: Vec<Vec<u8>> = Vec::new();
    let mut cur: Vec<u8> = Vec::new();
    let mut i: usize = 0;
    proof {
        assert(backup@.take(0) =~= Seq::<u8>::empty());
        assert(words_view(lines@) =~= Seq::<Seq<u8>>::empty());
    }
    while i < backup.len()
        invariant
            i <= backup@.len(),
            (words_view(lines@), cur@) == scan_lines(backup@.take(i as int)),
        decreases backup@.len() - i,
    {
        proof {
            assert(backup@.take(i + 1).drop_last() =~= backup@.take(i as int));
            assert(backup@.take(i + 1).last() == backup@[i as int]);
        }
        let ghost before = words_view(lines@);
        if backup[i] == 10 {
            let mut line = cur;
            let n = line.len();
            if n > 0 && line[n - 1] == 13 {
                line.pop();
                proof {
                    assert(line@ =~= strip_cr(scan_lines(backup@.take(i as int)).1));
                }
            }
            lines.push(line);
            cur = Vec::new();
            proof {
                assert(words_view(lines@) =~= before.push(line@));
                assert(cur@ =~= Seq::<u8>::empty());
            }
        } else {
            cur.push(backup[i]);
        }
        i = i + 1;
    }
    proof {
        assert(backup@.take(backup@.len() as int) =~= backup@);
    }
    if cur.len() > 0 {
        let ghost before = words_view(lines@);
        lines.push(cur);
        proof {
            assert(words_view(lines@) =~= before.push(cur@));
        }
    }
    lines
}

/// The last word a builder holds is the last word handed to it.
proof fn lemma_dedup_last(s: Seq<Seq<u8>>)
    requires
        s.len() > 0,
    ensures
        dedup_adjacent(s).len() > 0,
        dedup_adjacent(s).last() == s.last(),
{
}

/// Builds a graph again from a backup: its lines, in order, go into a new
/// graph (a line equal to the one before adds nothing). `None` when a line
/// is not UTF-8 or comes before the line above it, as the graph builder
/// refuses it.
pub fn restore_graph(backup: &[u8]) -> (r: Option<Vec<u8>>)
    ensures
        r is Some <==> lines_utf8(backup_lines(backup@)) && lines_in_order(backup_lines(backup@)),
        r matches Some(bytes) ==> built_graph_bytes(bytes@) && words_of_graph_bytes(bytes@)
            == dedup_adjacent(backup_lines(backup@)),
{
    let lines = split_backup_lines(backup);
    let ghost ls = words_view(lines@);
    let mut builder = builder_memory();
    let mut k: usize = 0;
    proof {
        assert(ls.take(0) =~= Seq::<Seq<u8>>::empty());
        assert(dedup_adjacent(Seq::<Seq<u8>>::empty()) =~= Seq::<Seq<u8>>::empty());
    }
    while k < lines.len()
        invariant
            k <= lines@.len(),
            ls == words_view(lines@),
            ls == backup_lines(backup@),
            builder_words(builder) == dedup_adjacent(ls.take(k as int)),
            lines_utf8(ls.take(k as int)),
            lines_in_order(ls.take(k as int)),
        decreases lines@.len() - k,
    {
        let line = lines[k].as_slice();
        let ghost taken = ls.take(k as int);
        let ghost next = ls.take(k + 1);
        proof {
            assert(line@ == ls[k as int]);
            assert(next.drop_last() =~= taken);
            assert(next.last() == ls[k as int]);
            if k > 0 {
                lemma_dedup_last(taken);
                assert(taken.last() == ls[k - 1]);
            }
        }
        if str_from_utf8(line).is_none() {
            proof {
                assert(!lines_utf8(ls)) by {
                    assert(!valid_utf8(ls[k as int]));
                }
            }
            return None;
        }
        let ok = builder_insert(&mut builder, line);
        if !ok {
            proof {
                assert(!lines_in_order(ls)) by {
                    assert(!lex_le(ls[k - 1], ls[k as int]));
                }
            }
            return None;
        }
        proof {
            assert(lines_utf8(next)) by {
                assert forall|i: int| 0 <= i < next.len() implies valid_utf8(#[trigger] next[i]) by {
                    if i < k {
                        assert(next[i] == taken[i]);
                    }
                }
            }
            assert(lines_in_order(next)) by {
                assert forall|i: int| 0 < i < next.len() implies lex_le(next[i - 1], #[trigger] next[i]) by {
                    if i < k {
                        assert(next[i] == taken[i] && next[i - 1] == taken[i - 1]);
                    } else {
                        assert(next[i - 1] == ls[k - 1]);
                        if k > 0 {
                            lemma_lex_total(ls[k as int], ls[k - 1]);
                        }
                    }
                }
            }
        }
        k = k + 1;
    }
    proof {
        assert(ls.take(lines@.len() as int) =~= ls);
    }
    match builder_into_bytes(builder) {
        Some(bytes) => Some(bytes),
        None => None,
    }
}

/// Reading bytes with no newline among them adds them to the line being
/// read.
proof fn lemma_scan_no_newline(a: Seq<u8>, w: Seq<u8>)
    requires
        !w.contains(10u8),
    ensures
        scan_lines(a + w) == (scan_lines(a).0, scan_lines(a).1 + w),
    decreases w.len(),
{
    if w.len() == 0 {
        assert(a + w =~= a);
        assert(scan_lines(a).1 + w =~= scan_lines(a).1);
    } else {
        let init = w.drop_last();
        assert(!init.contains(10u8)) by {
            if init.contains(10u8) {
                let j = choose|j: int| 0 <= j < init.len() && init[j] == 10u8;
                assert(w[j] == 10u8);
            }
        }
        lemma_scan_no_newline(a, init);
        assert((a + w).drop_last() =~= a + init);
        assert((a + w).last() == w.last());
        assert(w.last() != 10u8) by {
            assert(w[w.len() - 1] == w.last());
        }
        assert(scan_lines(a).1 + init.push(w.last()) =~= scan_lines(a).1 + w);
        assert((scan_lines(a).1 + init).push(w.last()) =~= scan_lines(a).1 + w);
    }
}

/// Words in strictly increasing order are in order and free of repeats
/// next to each other.
proof fn lemma_increasing_in_order(ws: Seq<Seq<u8>>)
    requires
        words_increasing(ws),
    ensures
        lines_in_order(ws),
        dedup_adjacent(ws) == ws,
    decreases ws.len(),
{
    assert forall|i: int| 0 < i < ws.len() implies lex_le(ws[i - 1], #[trigger] ws[i]) by {
        lemma_lex_total(ws[i - 1], ws[i]);
    }
    if ws.len() > 0 {
        let init = ws.drop_last();
        assert(words_increasing(init)) by {
            assert forall|i: int, j: int| 0 <= i < j < init.len() implies lex_lt(init[i], init[j]) by {
                assert(init[i] == ws[i] && init[j] == ws[j]);
            }
        }
        lemma_increasing_in_order(init);
        if init.len() > 0 {
            lemma_dedup_last(init);
            assert(lex_lt(ws[ws.len() - 2], ws[ws.len() - 1]));
            crate::encoding::lemma_lex_irreflexive(ws.last());
            assert(init.last() != ws.last());
        }
        assert(init.push(ws.last()) =~= ws);
    }
}

/// Reading back the backup of a graph's words gives its words, in order,
/// each once: so a graph restored from its backup holds the words it held.
/// This holds when no word has a newline in it nor ends with a carriage
/// return, which a backup's lines cannot tell apart.
pub proof fn lemma_backup_restores(ws: Seq<Seq<u8>>)
    requires
        words_increasing(ws),
        forall|i: int| 0 <= i < ws.len() ==> !(#[trigger] ws[i]).contains(10u8),
        forall|i: int| 0 <= i < ws.len() ==> strip_cr(#[trigger] ws[i]) == ws[i],
    ensures
        backup_lines(backup_of(ws)) == ws,
        lines_in_order(ws),
        dedup_adjacent(ws) == ws,
    decreases ws.len(),
{
    lemma_increasing_in_order(ws);
    lemma_backup_scan(ws);
}

/// Reading the backup of words ends every line, giving the words.
proof fn lemma_backup_scan(ws: Seq<Seq<u8>>)
    requires
        forall|i: int| 0 <= i < ws.len() ==> !(#[trigger] ws[i]).contains(10u8),
        forall|i: int| 0 <= i < ws.len() ==> strip_cr(#[trigger] ws[i]) == ws[i],
    ensures
        scan_lines(backup_of(ws)) == (ws, Seq::<u8>::empty()),
    decreases ws.len(),
{
    if ws.len() == 0 {
        assert(scan_lines(backup_of(ws)) == (Seq::<Seq<u8>>::empty(), Seq::<u8>::empty()));
        assert(ws =~= Seq::<Seq<u8>>::empty());
    } else {
        let init = ws.drop_last();
        let w = ws.last();
        assert(w == ws[ws.len() - 1]);
        assert forall|i: int| 0 <= i < init.len() implies !(#[trigger] init[i]).contains(10u8)
            && strip_cr(init[i]) == init[i] by {
            assert(init[i] == ws[i]);
        }
        lemma_backup_scan(init);
        let a = backup_of(init);
        lemma_scan_no_newline(a, w);
        let b = backup_of(ws);
        assert(b =~= (a + w).push(10u8));
        assert(b.drop_last() =~= a + w);
        assert(b.last() == 10u8);
        assert(Seq::<u8>::empty() + w =~= w);
        assert(init.push(w) =~= ws);
    }
}

} // verus!
