//! The indices of a partition table in ascending order.

use std::collections::BTreeMap;
use vstd::prelude::*;
use vstd::std_specs::btree::*;
use vstd::std_specs::cmp::OrdSpec;
use vstd::std_specs::iter::IteratorSpec;

verus! {

/// Whether each number is less than the next.
pub open spec fn is_ascending(ks: Seq<u32>) -> bool {
    forall|i: int, j: int| 0 <= i < j < ks.len() ==> ks[i] < ks[j]
}

/// Whether `ks` holds the keys of `m`, each once, in ascending order.
pub open spec fn lists_keys<V>(ks: Seq<u32>, m: Map<u32, V>) -> bool {
    &&& is_ascending(ks)
    &&& forall|k: u32| ks.contains(k) <==> m.contains_key(k)
}

/// The keys of `m` that are below `n`, in ascending order.
pub open spec fn keys_below<V>(m: Map<u32, V>, n: nat) -> Seq<u32>
    decreases n,
{
    if n == 0 {
        Seq::empty()
    } else if n - 1 <= u32::MAX && m.contains_key((n - 1) as u32) {
        keys_below(m, (n - 1) as nat).push((n - 1) as u32)
    } else {
        keys_below(m, (n - 1) as nat)
    }
}

/// The keys below `n` are listed in ascending order, each once.
proof fn lemma_keys_below<V>(m: Map<u32, V>, n: nat)
    ensures
        is_ascending(keys_below(m, n)),
        forall|k: u32| #[trigger] keys_below(m, n).contains(k) <==> m.contains_key(k) && k < n,
    decreases n,
{
    if n > 0 {
        let rest = keys_below(m, (n - 1) as nat);
        lemma_keys_below(m, (n - 1) as nat);
        let ks = keys_below(m, n);
        if n - 1 <= u32::MAX && m.contains_key((n - 1) as u32) {
            let top = (n - 1) as u32;
            assert forall|i: int, j: int| 0 <= i < j < ks.len() implies ks[i] < ks[j] by {
                assert(ks[i] == rest[i]);
                assert(rest.contains(rest[i]));
                if j < rest.len() {
                    assert(ks[j] == rest[j]);
                    assert(rest[i] < rest[j]);
                } else {
                    assert(ks[j] == top);
                    assert(rest[i] < (n - 1) as nat);
                }
            }
            assert forall|k: u32| ks.contains(k) <==> m.contains_key(k) && k < n by {
                if ks.contains(k) {
                    let i = choose|i: int| 0 <= i < ks.len() && ks[i] == k;
                    if i < rest.len() {
                        assert(rest[i] == k);
                        assert(rest.contains(k));
                    }
                }
                if m.contains_key(k) && k < n {
                    if k == top {
                        assert(ks[ks.len() - 1] == k);
                    } else {
                        assert(rest.contains(k));
                        let i = choose|i: int| 0 <= i < rest.len() && rest[i] == k;
                        assert(ks[i] == k);
                    }
                }
            }
        }
    }
}

/// Every map has its keys in ascending order.
pub proof fn lemma_keys_exist<V>(m: Map<u32, V>)
    ensures
        lists_keys(ascending_keys(m), m),
{
    lemma_keys_below(m, 0x1_0000_0000);
    assert(lists_keys(keys_below(m, 0x1_0000_0000), m));
}

/// The keys of a map in ascending order.
pub open spec fn ascending_keys<V>(m: Map<u32, V>) -> Seq<u32> {
    choose|ks: Seq<u32>| lists_keys(ks, m)
}

/// Two ascending sequences of the same numbers are the same sequence.
pub proof fn lemma_ascending_unique(a: Seq<u32>, b: Seq<u32>)
    requires
        is_ascending(a),
        is_ascending(b),
        forall|k: u32| a.contains(k) <==> b.contains(k),
    ensures
        a == b,
    decreases a.len(),
{
    if a.len() == 0 {
        if b.len() > 0 {
            assert(b.contains(b[0]));
        }
        assert(a =~= b);
    } else {
        assert(a.contains(a[0]));
        assert(b.contains(a[0]));
        assert(b.len() > 0);
        assert(b.contains(b[0]));
        assert(a.contains(b[0]));
        let i = choose|i: int| 0 <= i < a.len() && a[i] == b[0];
        let j = choose|j: int| 0 <= j < b.len() && b[j] == a[0];
        assert(a[0] == b[0]);
        let a1 = a.drop_first();
        let b1 = b.drop_first();
        assert forall|k: u32| a1.contains(k) <==> b1.contains(k) by {
            if a1.contains(k) {
                let x = choose|x: int| 0 <= x < a1.len() && a1[x] == k;
                assert(a[x + 1] == k);
                assert(a.contains(k));
                let y = choose|y: int| 0 <= y < b.len() && b[y] == k;
                assert(y != 0);
                assert(b1[y - 1] == k);
            }
            if b1.contains(k) {
                let x = choose|x: int| 0 <= x < b1.len() && b1[x] == k;
                assert(b[x + 1] == k);
                assert(b.contains(k));
                let y = choose|y: int| 0 <= y < a.len() && a[y] == k;
                assert(y != 0);
                assert(a1[y - 1] == k);
            }
        }
        assert(is_ascending(a1)) by {
            assert forall|x: int, y: int| 0 <= x < y < a1.len() implies a1[x] < a1[y] by {
                assert(a[x + 1] < a[y + 1]);
            }
        }
        assert(is_ascending(b1)) by {
            assert forall|x: int, y: int| 0 <= x < y < b1.len() implies b1[x] < b1[y] by {
                assert(b[x + 1] < b[y + 1]);
            }
        }
        lemma_ascending_unique(a1, b1);
        assert(a =~= seq![a[0]] + a1);
        assert(b =~= seq![b[0]] + b1);
    }
}

/// A sequence that lists the keys of a map in ascending order is the
/// sequence of its keys in ascending order.
pub proof fn lemma_ascending_keys<V>(ks: Seq<u32>, m: Map<u32, V>)
    requires
        lists_keys(ks, m),
    ensures
        ascending_keys(m) == ks,
{
    let chosen = ascending_keys(m);
    assert(lists_keys(chosen, m));
    lemma_ascending_unique(chosen, ks);
}

/// The keys of a table in ascending order.
pub fn sorted_keys<V>(m: &BTreeMap<u32, V>) -> (ks: Vec<u32>)
    ensures
        lists_keys(ks@, m@),
        ks@ == ascending_keys(m@),
{
    broadcast use group_btree_axioms;

    let mut ks: Vec<u32> = Vec::new();
    let it = m.iter();
    let ghost all = it.remaining();
    for kv in iter: it
        invariant
            iter.seq() == all,
            ks@.len() == iter.index(),
            forall|i: int| 0 <= i < ks@.len() ==> ks@[i] == *all[i].0,
    {
        ks.push(*kv.0);
    }
    proof {
        let keys = all.map_values(|kv: (&u32, &V)| *kv.0);
        assert(all == spec_btree_map_iter(m).remaining());
        assert(increasing_seq(keys));
        axiom_increasing_seq_meaning::<u32>(keys);
        assert(ks@ =~= keys);
        assert forall|i: int, j: int| 0 <= i < j < ks@.len() implies ks@[i] < ks@[j] by {
            assert(keys[i].cmp_spec(&keys[j]) is Less);
        }
        assert forall|k: u32| m@.contains_key(k) implies ks@.contains(k) by {
            assert(all.contains((&k, &m@[k])));
            let i = choose|i: int| 0 <= i < all.len() && all[i] == (&k, &m@[k]);
            assert(ks@[i] == k);
        }
        assert forall|k: u32| ks@.contains(k) implies m@.contains_key(k) by {
            let i = choose|i: int| 0 <= i < ks@.len() && ks@[i] == k;
            assert(m@.contains_key(*all[i].0));
        }
        lemma_ascending_keys(ks@, m@);
    }
    ks
}

} // verus!
