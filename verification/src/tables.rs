//! Operations on tables keyed by integers that the translators share.
use std::collections::{BTreeMap, HashMap};
use vstd::prelude::*;

verus! {

/// `list` holds every entry of `m`, each once.
pub open spec fn lists<V>(list: Seq<(u64, V)>, m: Map<u64, V>) -> bool {
    &&& forall|i: int|
        0 <= i < list.len() ==> m.contains_key((#[trigger] list[i]).0) && m[list[i].0] == list[i].1
    &&& forall|k: u64| #[trigger]
        m.contains_key(k) ==> exists|i: int| 0 <= i < list.len() && (#[trigger] list[i]).0 == k
    &&& forall|i: int, j: int|
        0 <= i < j < list.len() ==> (#[trigger] list[i]).0 != (#[trigger] list[j]).0
}

/// The keys of a table, in no particular order.
fn keys<V>(m: &HashMap<u64, V>) -> (list: Vec<u64>)
    ensures
        list@.to_set() == m@.dom(),
        list@.no_duplicates(),
{
    broadcast use vstd::std_specs::hash::group_hash_axioms;

    let mut list: Vec<u64> = Vec::new();
    for k in it: m.keys()
        invariant
            it.seq().no_duplicates(),
            it.seq().unref().to_set() == m@.dom(),
            list@.len() == it.index(),
            forall|j: int| 0 <= j < it.index() ==> #[trigger] list@[j] == *it.seq()[j],
            list@.no_duplicates(),
            it.index() == it.seq().len() ==> list@ =~= it.seq().unref(),
    {
        list.push(*k);
    }
    list
}

/// The entries of a table, in no particular order.
pub fn entries<V: Copy>(m: &HashMap<u64, V>) -> (list: Vec<(u64, V)>)
    ensures
        lists(list@, m@),
{
    broadcast use vstd::std_specs::hash::group_hash_axioms;

    let ids = keys(m);
    let mut list: Vec<(u64, V)> = Vec::new();
    let mut i: usize = 0;
    while i < ids.len()
        invariant
            i == list.len() <= ids.len(),
            ids@.to_set() == m@.dom(),
            forall|j: int|
                0 <= j < i ==> (#[trigger] list@[j]).0 == ids@[j] && list@[j].1 == m@[ids@[j]],
        decreases ids.len() - i,
    {
        assert(ids@.to_set().contains(ids@[i as int]));
        if let Some(v) = m.get(&ids[i]) {
            list.push((ids[i], *v));
        }
        i += 1;
    }
    assert forall|j: int| 0 <= j < list@.len() implies m@.contains_key((#[trigger] list@[j]).0)
        && m@[list@[j].0] == list@[j].1 by {
        assert(ids@.to_set().contains(ids@[j]));
    }
    assert forall|k: u64| #[trigger] m@.contains_key(k) implies exists|j: int|
        0 <= j < list@.len() && (#[trigger] list@[j]).0 == k by {
        assert(ids@.to_set().contains(k));
        let j = ids@.index_of(k);
        assert(list@[j].0 == k);
    }
    list
}

/// Tells whether some key of the table has the value `v`.
pub fn holds_value(m: &HashMap<u64, u16>, v: u16) -> (r: bool)
    ensures
        r == m@.contains_value(v),
{
    let list = entries(m);
    let mut i: usize = 0;
    while i < list.len()
        invariant
            i <= list.len(),
            lists(list@, m@),
            forall|j: int| 0 <= j < i ==> (#[trigger] list@[j]).1 != v,
        decreases list.len() - i,
    {
        if list[i].1 == v {
            assert(m@.contains_key(list@[i as int].0));
            return true;
        }
        i += 1;
    }
    assert forall|k: u64| #[trigger] m@.contains_key(k) implies m@[k] != v by {
        let j = choose|j: int| 0 <= j < list@.len() && (#[trigger] list@[j]).0 == k;
        assert(list@[j].1 != v);
    }
    false
}

/// `k` is the least key of `m`.
pub open spec fn least_key<V>(m: Map<u64, V>, k: u64) -> bool {
    m.contains_key(k) && forall|j: u64| #[trigger] m.contains_key(j) ==> k <= j
}

/// Removes the entry with the least key.
pub fn pop_first<V>(m: &mut BTreeMap<u64, V>) -> (first: Option<u64>)
    ensures
        match first {
            Some(k) => least_key(old(m)@, k) && final(m)@ == old(m)@.remove(k),
            None => old(m)@.is_empty() && final(m)@ == old(m)@,
        },
{
    let mut first: Option<u64> = None;
    for k in it: m.keys()
        invariant
            it.seq().unref().to_set() == m@.dom(),
            first is None ==> it.index() == 0,
            first matches Some(f) ==> m@.contains_key(f),
            forall|j: int| 0 <= j < it.index() ==> first->0 <= #[trigger] it.seq().unref()[j],
            it.index() == it.seq().len() ==> match first {
                Some(f) => least_key(m@, f),
                None => m@.is_empty(),
            },
    {
        assert(it.seq().unref()[it.index() as int] == *k);
        assert(it.seq().unref().to_set().contains(*k));
        let smaller = match first {
            Some(f) => *k < f,
            None => true,
        };
        if smaller {
            first = Some(*k);
        }
        assert forall|j: u64| #[trigger] m@.contains_key(j) && it.index() + 1 == it.seq().len() implies first->0 <= j by {
            assert(it.seq().unref().to_set().contains(j));
            let at = it.seq().unref().index_of(j);
            assert(it.seq().unref()[at] == j);
        }
    }
    if let Some(k) = first {
        m.remove(&k);
    }
    first
}

/// `kept` is what remains of `m` when all but the `limit` greatest keys are
/// removed.
pub open spec fn newest<V>(m: Map<u64, V>, kept: Map<u64, V>, limit: nat) -> bool {
    &&& kept.dom().finite()
    &&& if m.len() <= limit {
        kept == m
    } else {
        &&& kept.len() == limit
        &&& forall|k: u64| #[trigger]
            kept.contains_key(k) ==> m.contains_key(k) && m[k] == kept[k]
        &&& forall|k: u64, j: u64|
            #![trigger m.contains_key(k), kept.contains_key(j)]
            m.contains_key(k) && !kept.contains_key(k) && kept.contains_key(j) ==> k < j
    }
}

/// What remains stays the same whether entries are removed at once or after
/// each insertion.
pub(crate) proof fn lemma_newest_insert<V>(
    all: Map<u64, V>,
    kept: Map<u64, V>,
    after: Map<u64, V>,
    key: u64,
    value: V,
    limit: nat,
)
    requires
        all.dom().finite(),
        newest(all, kept, limit),
        newest(kept.insert(key, value), after, limit),
    ensures
        newest(all.insert(key, value), after, limit),
{
    let more = all.insert(key, value);
    let next = kept.insert(key, value);
    if all.len() > limit {
        assert(more.len() > limit);
        if kept.contains_key(key) {
            assert(next.dom() =~= kept.dom());
        } else {
            assert(next.len() == limit + 1);
        }
        assert forall|k: u64| #[trigger] after.contains_key(k) implies more.contains_key(k)
            && more[k] == after[k] by {
            assert(next.contains_key(k));
            if k != key {
                assert(kept.contains_key(k));
            }
        }
        assert forall|k: u64, j: u64|
            #![trigger more.contains_key(k), after.contains_key(j)]
            more.contains_key(k) && !after.contains_key(k) && after.contains_key(j) implies k
            < j by {
            assert(next.contains_key(j));
            if !next.contains_key(k) {
                assert(all.contains_key(k) && !kept.contains_key(k));
                if !kept.contains_key(j) {
                    if kept.dom().subset_of(after.dom()) {
                        assert(next.dom().subset_of(after.dom()));
                        vstd::set_lib::lemma_len_subset(next.dom(), after.dom());
                    }
                    let x = choose|x: u64| kept.dom().contains(x) && !after.dom().contains(x);
                    assert(kept.contains_key(x) && next.contains_key(x));
                    assert(!after.contains_key(x));
                }
            }
        }
    }
}

/// Removes the entries with the least keys until `limit` are left.
pub fn trim<V>(m: &mut BTreeMap<u64, V>, limit: usize)
    ensures
        newest(old(m)@, final(m)@, limit as nat),
        final(m)@.len() <= limit,
{
    let ghost all = m@;
    while m.len() > limit
        invariant
            all == old(m)@,
            all.len() <= limit ==> m@ == all,
            all.len() > limit ==> m@.len() >= limit,
            forall|k: u64| #[trigger]
                m@.contains_key(k) ==> all.contains_key(k) && all[k] == m@[k],
            forall|k: u64, j: u64|
                #![trigger all.contains_key(k), m@.contains_key(j)]
                all.contains_key(k) && !m@.contains_key(k) && m@.contains_key(j) ==> k < j,
        decreases m@.len(),
    {
        let ghost before = m@;
        let first = pop_first(m);
        proof {
            let k = first->0;
            assert(least_key(before, k));
        }
    }
}

/// The entries of a table are all listed, each once.
pub proof fn entries_are_listed_once<V: Copy>(
    m: &HashMap<u64, V>,
    list: Vec<(u64, V)>,
    k: u64,
    i: int,
    j: int,
)
    requires
        call_ensures(entries::<V>, (m,), list),
    ensures
        0 <= i < list@.len() ==> m@.contains_key(list@[i].0) && m@[list@[i].0] == list@[i].1,
        m@.contains_key(k) ==> exists|n: int| 0 <= n < list@.len() && list@[n] == (k, m@[k]),
        0 <= i < j < list@.len() ==> list@[i].0 != list@[j].0,
{
    if m@.contains_key(k) {
        let n = choose|n: int| 0 <= n < list@.len() && (#[trigger] list@[n]).0 == k;
        assert(list@[n] == (k, m@[k]));
    }
}

/// A value is held exactly if some key has it.
pub proof fn held_values_have_a_key(m: &HashMap<u64, u16>, v: u16, r: bool)
    requires
        call_ensures(holds_value, (m, v), r),
    ensures
        r <==> exists|k: u64| #[trigger] m@.contains_key(k) && m@[k] == v,
{
}

/// The entry that is removed first has the least key. All others stay.
pub proof fn least_key_leaves_first<V>(m: &mut BTreeMap<u64, V>, first: Option<u64>, k: u64)
    requires
        call_ensures(pop_first::<V>, (m,), first),
    ensures
        first matches Some(f) ==> {
            &&& old(m)@.contains_key(f)
            &&& !final(m)@.contains_key(f)
            &&& old(m)@.contains_key(k) ==> f <= k
            &&& old(m)@.contains_key(k) && k != f ==> final(m)@.contains_key(k) && final(m)@[k]
                == old(m)@[k]
        },
        first is None ==> !old(m)@.contains_key(k) && final(m)@ == old(m)@,
{
}

/// What is trimmed away has lesser keys than all that stays, and nothing is
/// trimmed away below the limit.
pub proof fn greatest_keys_stay<V>(m: &mut BTreeMap<u64, V>, limit: usize, j: u64, k: u64)
    requires
        call_ensures(trim::<V>, (m, limit), ()),
    ensures
        final(m)@.len() <= limit,
        old(m)@.len() <= limit ==> final(m)@ == old(m)@,
        old(m)@.len() > limit ==> final(m)@.len() == limit,
        final(m)@.contains_key(k) ==> old(m)@.contains_key(k) && final(m)@[k] == old(m)@[k],
        old(m)@.contains_key(j) && !final(m)@.contains_key(j) && final(m)@.contains_key(k) ==> j
            < k,
{
}

} // verus!
