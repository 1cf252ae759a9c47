use crate::codec::layout::{ascending_entries, entries_below};
use crate::domain::RecordView;
use vstd::prelude::*;
use vstd::std_specs::btree::increasing_seq;
use vstd::std_specs::cmp::OrdSpec;

verus! {

/// Whether the keys of `entries` ascend strictly.
pub open spec fn ascending(entries: Seq<(u64, RecordView)>) -> bool {
    forall|i: int, j: int| 0 <= i < j < entries.len() ==> entries[i].0 < entries[j].0
}

/// Whether `entries` holds the entries of `m` whose key is below `bound`,
/// each once, by ascending key.
pub open spec fn lists_below(
    entries: Seq<(u64, RecordView)>,
    m: Map<u64, RecordView>,
    bound: nat,
) -> bool {
    &&& ascending(entries)
    &&& forall|i: int|
        0 <= i < entries.len() ==> (#[trigger] entries[i]).0 < bound && m.contains_key(
            entries[i].0,
        ) && m[entries[i].0] == entries[i].1
    &&& forall|k: u64|
        #[trigger] m.contains_key(k) && k < bound ==> exists|i: int|
            0 <= i < entries.len() && (#[trigger] entries[i]).0 == k
}

/// Whether `entries` holds the entries of `m`, each once, by ascending key.
pub open spec fn lists(entries: Seq<(u64, RecordView)>, m: Map<u64, RecordView>) -> bool {
    lists_below(entries, m, 0x1_0000_0000_0000_0000)
}

/// The keys that walking a `BTreeMap` gives ascend strictly.
pub proof fn lemma_walk_ascends(keys: Seq<u64>)
    requires
        increasing_seq(keys),
    ensures
        forall|i: int, j: int| 0 <= i < j < keys.len() ==> keys[i] < keys[j],
{
    assert forall|i: int, j: int| 0 <= i < j < keys.len() implies keys[i] < keys[j] by {
        assert(keys[i].cmp_spec(&keys[j]) is Less);
    }
}

/// `entries_below` holds what its name says.
pub proof fn lemma_entries_below_lists(m: Map<u64, RecordView>, bound: nat)
    requires
        bound <= 0x1_0000_0000_0000_0000,
    ensures
        lists_below(entries_below(m, bound), m, bound),
    decreases bound,
{
    if bound > 0 {
        let rest = entries_below(m, (bound - 1) as nat);
        lemma_entries_below_lists(m, (bound - 1) as nat);
        let key = (bound - 1) as u64;
        let all = entries_below(m, bound);
        if m.contains_key(key) {
            assert(all == rest.push((key, m[key])));
            assert forall|k: u64| #[trigger] m.contains_key(k) && k < bound implies exists|i: int|
                0 <= i < all.len() && (#[trigger] all[i]).0 == k by {
                if k == key {
                    assert(all[all.len() - 1].0 == k);
                } else {
                    let i = choose|i: int| 0 <= i < rest.len() && (#[trigger] rest[i]).0 == k;
                    assert(all[i].0 == k);
                }
            }
            assert forall|i: int, j: int| 0 <= i < j < all.len() implies all[i].0 < all[j].0 by {
                if j < rest.len() {
                    assert(all[i] == rest[i] && all[j] == rest[j]);
                } else {
                    assert(all[i] == rest[i]);
                }
            }
            assert forall|i: int| 0 <= i < all.len() implies (#[trigger] all[i]).0 < bound
                && m.contains_key(all[i].0) && m[all[i].0] == all[i].1 by {
                if i < rest.len() {
                    assert(all[i] == rest[i]);
                }
            }
        } else {
            assert(all == rest);
            assert forall|k: u64| #[trigger] m.contains_key(k) && k < bound implies exists|i: int|
                0 <= i < all.len() && (#[trigger] all[i]).0 == k by {
                let i = choose|i: int| 0 <= i < rest.len() && (#[trigger] rest[i]).0 == k;
                assert(all[i].0 == k);
            }
        }
    }
}

/// A map has one ascending list of its entries only.
pub proof fn lemma_listing_unique(
    a: Seq<(u64, RecordView)>,
    b: Seq<(u64, RecordView)>,
    m: Map<u64, RecordView>,
)
    requires
        lists(a, m),
        lists(b, m),
    ensures
        a == b,
    decreases a.len(),
{
    if a.len() == 0 {
        if b.len() > 0 {
            assert(m.contains_key(b[0].0));
            let i = choose|i: int| 0 <= i < a.len() && (#[trigger] a[i]).0 == b[0].0;
            assert(false);
        }
        assert(a =~= b);
    } else {
        let last_a = a[a.len() - 1];
        assert(m.contains_key(last_a.0));
        let jb = choose|j: int| 0 <= j < b.len() && (#[trigger] b[j]).0 == last_a.0;
        let last_b = b[b.len() - 1];
        assert(m.contains_key(last_b.0));
        let ia = choose|i: int| 0 <= i < a.len() && (#[trigger] a[i]).0 == last_b.0;
        assert(last_b.0 <= last_a.0) by {
            if ia < a.len() - 1 {
                assert(a[ia].0 < a[a.len() - 1].0);
            }
        }
        assert(last_a.0 <= last_b.0) by {
            if jb < b.len() - 1 {
                assert(b[jb].0 < b[b.len() - 1].0);
            }
        }
        let key = last_a.0;
        assert(last_a == last_b);
        let rest = m.remove(key);
        lemma_drop_last_lists(a, m);
        lemma_drop_last_lists(b, m);
        lemma_listing_unique(a.drop_last(), b.drop_last(), rest);
        assert(a =~= a.drop_last().push(last_a));
        assert(b =~= b.drop_last().push(last_b));
    }
}

/// Without its last entry a list holds the map without that entry's key.
proof fn lemma_drop_last_lists(a: Seq<(u64, RecordView)>, m: Map<u64, RecordView>)
    requires
        lists(a, m),
        a.len() > 0,
    ensures
        lists(a.drop_last(), m.remove(a[a.len() - 1].0)),
{
    let short = a.drop_last();
    let key = a[a.len() - 1].0;
    let rest = m.remove(key);
    assert forall|i: int, j: int| 0 <= i < j < short.len() implies short[i].0 < short[j].0 by {
        assert(short[i] == a[i] && short[j] == a[j]);
    }
    assert forall|i: int| 0 <= i < short.len() implies (#[trigger] short[i]).0
        < 0x1_0000_0000_0000_0000 && rest.contains_key(short[i].0) && rest[short[i].0]
        == short[i].1 by {
        assert(short[i] == a[i]);
        assert(a[i].0 < a[a.len() - 1].0);
    }
    assert forall|k: u64|
        #[trigger] rest.contains_key(k) && k < 0x1_0000_0000_0000_0000 implies exists|i: int|
        0 <= i < short.len() && (#[trigger] short[i]).0 == k by {
        assert(m.contains_key(k));
        let i = choose|i: int| 0 <= i < a.len() && (#[trigger] a[i]).0 == k;
        assert(i < a.len() - 1);
        assert(short[i].0 == k);
    }
}

/// Any ascending list of the entries of a map is the one that is written.
pub proof fn lemma_lists_ascending_entries(a: Seq<(u64, RecordView)>, m: Map<u64, RecordView>)
    requires
        lists(a, m),
    ensures
        a == ascending_entries(m),
{
    lemma_entries_below_lists(m, 0x1_0000_0000_0000_0000);
    lemma_listing_unique(a, ascending_entries(m), m);
}

} // verus!
