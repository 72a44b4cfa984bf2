//! What the store pools decide from how long their items have gone unused
//! or unconsolidated: which items are due.
use vstd::prelude::*;

verus! {

/// The items due: all of them when forced, else those idle for at least
/// `after_secs` seconds; in their order.
pub open spec fn due<K>(items: Seq<(K, u64)>, after_secs: u64, force: bool) -> Seq<K>
    decreases items.len(),
{
    if items.len() == 0 {
        Seq::empty()
    } else {
        let prev = due(items.drop_last(), after_secs, force);
        if force || items.last().1 >= after_secs {
            prev.push(items.last().0)
        } else {
            prev
        }
    }
}

/// The items, each with the seconds it has been idle, that are due: all
/// of them when `force` is set, else those idle for at least `after_secs`
/// seconds (the janitor's expired items, or the graphs to consolidate).
pub fn due_items<K: Copy>(items: &Vec<(K, u64)>, after_secs: u64, force: bool) -> (r: Vec<K>)
    ensures
        r@ == due(items@, after_secs, force),
{
    let mut out: Vec<K> = Vec::new();
    let mut i: usize = 0;
    proof {
        assert(items@.take(0) =~= Seq::<(K, u64)>::empty());
    }
    while i < items.len()
        invariant
            i <= items@.len(),
            out@ == due(items@.take(i as int), after_secs, force),
        decreases items@.len() - i,
    {
        let (key, idle) = items[i];
        proof {
            let next = items@.take(i + 1);
            assert(next.drop_last() =~= items@.take(i as int));
            assert(next.last() == items@[i as int]);
        }
        if force || idle >= after_secs {
            out.push(key);
        }
        i = i + 1;
    }
    proof {
        assert(items@.take(items@.len() as int) =~= items@);
    }
    out
}

} // verus!
