//! That a new partition keeps clear of the partitions a disk has.

use crate::space::{
    alignment_offset, ascending_order, endpoints, first_fit_from, fits, free_sections_spec,
    lemma_ascending_order_total, lemma_positions_len, positions, section,
};
use crate::header::HeaderView;
use crate::order::{ascending_keys, lemma_keys_exist};
use crate::partition::{spans_of, used_entries, used_entries_of, PartitionView};
use crate::space::size_in_blocks;
use crate::{add_plan, ConfigView, GptError};
use vstd::prelude::*;
use vstd::relations::sorted_by;
use vstd::seq_lib::{to_multiset_contains, to_multiset_len, to_multiset_remove};

verus! {

/// Whether two spans of blocks have no block in common.
pub open spec fn disjoint(a: (u64, u64), b: (u64, u64)) -> bool {
    a.1 < b.0 || b.1 < a.0
}

/// Whether every span starts no later than it ends and lies in the usable
/// range.
pub open spec fn within_usable(spans: Seq<(u64, u64)>, first_usable: u64, last_usable: u64) -> bool {
    forall|i: int|
        0 <= i < spans.len() ==> first_usable <= (#[trigger] spans[i]).0 && spans[i].0
            <= spans[i].1 && spans[i].1 <= last_usable
}

/// Whether no two of the spans have a block in common.
pub open spec fn pairwise_disjoint(spans: Seq<(u64, u64)>) -> bool {
    forall|i: int, j: int|
        0 <= i < j < spans.len() ==> disjoint(#[trigger] spans[i], #[trigger] spans[j])
}

/// Whether the block `x` belongs to the span.
pub open spec fn covers(span: (u64, u64), x: int) -> bool {
    span.0 <= x <= span.1
}

/// Whether the block `x` belongs to none of the spans.
pub open spec fn is_free(spans: Seq<(u64, u64)>, x: int) -> bool {
    forall|i: int| 0 <= i < spans.len() ==> !covers(#[trigger] spans[i], x)
}

/// How many of the addresses are below `x`.
spec fn below(s: Seq<u64>, x: int) -> int
    decreases s.len(),
{
    if s.len() == 0 {
        0
    } else {
        below(s.drop_last(), x) + if s.last() < x {
            1int
        } else {
            0int
        }
    }
}

/// How many of the spans end below `x`.
spec fn before(spans: Seq<(u64, u64)>, x: int) -> int
    decreases spans.len(),
{
    if spans.len() == 0 {
        0
    } else {
        before(spans.drop_last(), x) + if spans.last().1 < x {
            1int
        } else {
            0int
        }
    }
}

/// How many of the spans start below `x` and do not end below it.
spec fn around(spans: Seq<(u64, u64)>, x: int) -> int
    decreases spans.len(),
{
    if spans.len() == 0 {
        0
    } else {
        around(spans.drop_last(), x) + if spans.last().0 < x <= spans.last().1 {
            1int
        } else {
            0int
        }
    }
}

proof fn lemma_below_without(t: Seq<u64>, i: int, x: int)
    requires
        0 <= i < t.len(),
    ensures
        below(t, x) == below(t.remove(i), x) + if t[i] < x {
            1int
        } else {
            0int
        },
    decreases t.len(),
{
    if i == t.len() - 1 {
        assert(t.remove(i) =~= t.drop_last());
    } else {
        let shorter = t.remove(i);
        assert(shorter.drop_last() =~= t.drop_last().remove(i));
        assert(shorter.last() == t.last());
        assert(t.drop_last()[i] == t[i]);
        lemma_below_without(t.drop_last(), i, x);
    }
}

proof fn lemma_below_rearranged(s: Seq<u64>, t: Seq<u64>, x: int)
    requires
        s.to_multiset() == t.to_multiset(),
    ensures
        below(s, x) == below(t, x),
    decreases s.len(),
{
    to_multiset_len(s);
    to_multiset_len(t);
    if s.len() > 0 {
        let v = s.last();
        let n = s.len() - 1;
        assert(s[n] == v);
        assert(s.contains(v));
        to_multiset_contains(s, v);
        to_multiset_contains(t, v);
        let i = choose|i: int| 0 <= i < t.len() && t[i] == v;
        to_multiset_remove(s, n);
        to_multiset_remove(t, i);
        assert(s.remove(n) =~= s.drop_last());
        lemma_below_rearranged(s.drop_last(), t.remove(i), x);
        lemma_below_without(t, i, x);
    }
}

proof fn lemma_below_sorted(s: Seq<u64>, k: int, x: int)
    requires
        sorted_by(s, ascending_order()),
        0 <= k <= s.len(),
        k > 0 ==> s[k - 1] < x,
        k < s.len() ==> x <= s[k],
    ensures
        below(s, x) == k,
    decreases s.len(),
{
    if s.len() > 0 {
        let rest = s.drop_last();
        let n = s.len() - 1;
        assert(sorted_by(rest, ascending_order())) by {
            assert forall|i: int, j: int| 0 <= i < j < rest.len() implies #[trigger] ascending_order()(
                rest[i],
                rest[j],
            ) by {
                assert(ascending_order()(s[i], s[j]));
            }
        }
        if k == s.len() {
            if k - 1 > 0 {
                assert(ascending_order()(s[k - 2], s[k - 1]));
            }
            lemma_below_sorted(rest, k - 1, x);
        } else {
            if k < n {
                assert(ascending_order()(s[k], s[n]));
            }
            assert(rest.len() == n);
            if k < rest.len() {
                assert(rest[k] == s[k]);
            }
            if k > 0 {
                assert(rest[k - 1] == s[k - 1]);
            }
            lemma_below_sorted(rest, k, x);
        }
    }
}

proof fn lemma_below_joined(a: Seq<u64>, b: Seq<u64>, x: int)
    ensures
        below(a + b, x) == below(a, x) + below(b, x),
    decreases b.len(),
{
    if b.len() == 0 {
        assert(a + b =~= a);
    } else {
        assert((a + b).drop_last() =~= a + b.drop_last());
        assert((a + b).last() == b.last());
        lemma_below_joined(a, b.drop_last(), x);
    }
}

proof fn lemma_below_endpoints(spans: Seq<(u64, u64)>, x: int)
    requires
        forall|i: int| 0 <= i < spans.len() ==> (#[trigger] spans[i]).0 <= spans[i].1,
    ensures
        below(endpoints(spans), x) == 2 * before(spans, x) + around(spans, x),
        before(spans, x) >= 0,
        around(spans, x) >= 0,
    decreases spans.len(),
{
    if spans.len() > 0 {
        let rest = spans.drop_last();
        let last = spans.last();
        assert(spans[spans.len() - 1] == last);
        assert forall|i: int| 0 <= i < rest.len() implies (#[trigger] rest[i]).0 <= rest[i].1 by {
            assert(rest[i] == spans[i]);
        }
        lemma_below_endpoints(rest, x);
        let e = endpoints(rest);
        let e1 = e.push(last.0);
        let e2 = e1.push(last.1);
        assert(e2.drop_last() =~= e1);
        assert(e1.drop_last() =~= e);
        assert(below(e2, x) == below(e1, x) + if last.1 < x {
            1int
        } else {
            0int
        });
        assert(below(e1, x) == below(e, x) + if last.0 < x {
            1int
        } else {
            0int
        });
    }
}

proof fn lemma_none_around(spans: Seq<(u64, u64)>, c: (u64, u64), x: int)
    requires
        c.0 < x <= c.1,
        forall|i: int| 0 <= i < spans.len() ==> disjoint(#[trigger] spans[i], c),
    ensures
        around(spans, x) == 0,
    decreases spans.len(),
{
    if spans.len() > 0 {
        let rest = spans.drop_last();
        assert(disjoint(spans[spans.len() - 1], c));
        assert forall|i: int| 0 <= i < rest.len() implies disjoint(#[trigger] rest[i], c) by {
            assert(rest[i] == spans[i]);
        }
        lemma_none_around(rest, c, x);
    }
}

proof fn lemma_one_around(spans: Seq<(u64, u64)>, x: int)
    requires
        pairwise_disjoint(spans),
    ensures
        0 <= around(spans, x) <= 1,
    decreases spans.len(),
{
    if spans.len() > 0 {
        let rest = spans.drop_last();
        let last = spans.last();
        let n = spans.len() - 1;
        assert(pairwise_disjoint(rest)) by {
            assert forall|i: int, j: int| 0 <= i < j < rest.len() implies disjoint(
                #[trigger] rest[i],
                #[trigger] rest[j],
            ) by {
                assert(disjoint(spans[i], spans[j]));
            }
        }
        lemma_one_around(rest, x);
        if last.0 < x <= last.1 {
            assert forall|i: int| 0 <= i < rest.len() implies disjoint(#[trigger] rest[i], last) by {
                assert(disjoint(spans[i], spans[n]));
            }
            lemma_none_around(rest, last, x);
        }
    }
}

proof fn lemma_not_around(spans: Seq<(u64, u64)>, x: int, i: int)
    requires
        around(spans, x) == 0,
        forall|k: int| 0 <= k < spans.len() ==> (#[trigger] spans[k]).0 <= spans[k].1,
        0 <= i < spans.len(),
    ensures
        !(spans[i].0 < x <= spans[i].1),
    decreases spans.len(),
{
    let rest = spans.drop_last();
    assert forall|k: int| 0 <= k < rest.len() implies (#[trigger] rest[k]).0 <= rest[k].1 by {
        assert(rest[k] == spans[k]);
    }
    lemma_below_endpoints(rest, x);
    if i < spans.len() - 1 {
        assert(rest[i] == spans[i]);
        lemma_not_around(rest, x, i);
    }
}

/// Every end of a span is among the end points.
proof fn lemma_endpoints_hold(spans: Seq<(u64, u64)>, i: int)
    requires
        0 <= i < spans.len(),
    ensures
        endpoints(spans).contains(spans[i].0),
        endpoints(spans).contains(spans[i].1),
    decreases spans.len(),
{
    let rest = spans.drop_last();
    let last = spans.last();
    let e = endpoints(rest);
    let e2 = e.push(last.0).push(last.1);
    if i == spans.len() - 1 {
        assert(e2[e2.len() - 2] == last.0);
        assert(e2[e2.len() - 1] == last.1);
    } else {
        assert(rest[i] == spans[i]);
        lemma_endpoints_hold(rest, i);
        let a = choose|a: int| 0 <= a < e.len() && e[a] == spans[i].0;
        let b = choose|b: int| 0 <= b < e.len() && e[b] == spans[i].1;
        assert(e2[a] == spans[i].0);
        assert(e2[b] == spans[i].1);
    }
}

/// Every end point is an end of a span.
proof fn lemma_endpoints_are_ends(spans: Seq<(u64, u64)>, v: u64)
    requires
        endpoints(spans).contains(v),
    ensures
        exists|i: int| 0 <= i < spans.len() && (spans[i].0 == v || spans[i].1 == v),
    decreases spans.len(),
{
    if spans.len() > 0 {
        let rest = spans.drop_last();
        let last = spans.last();
        let e = endpoints(rest);
        let e2 = e.push(last.0).push(last.1);
        let k = choose|k: int| 0 <= k < e2.len() && e2[k] == v;
        if k >= e.len() {
            assert(spans[spans.len() - 1] == last);
        } else {
            assert(e[k] == v);
            lemma_endpoints_are_ends(rest, v);
            let i = choose|i: int| 0 <= i < rest.len() && (rest[i].0 == v || rest[i].1 == v);
            assert(spans[i] == rest[i]);
        }
    }
}

/// Every address among the positions lies in the usable range.
proof fn lemma_positions_in_range(
    first_usable: u64,
    last_usable: u64,
    spans: Seq<(u64, u64)>,
    v: u64,
)
    requires
        first_usable <= last_usable,
        within_usable(spans, first_usable, last_usable),
        positions(first_usable, last_usable, spans).contains(v),
    ensures
        first_usable <= v <= last_usable,
{
    let e = endpoints(spans);
    let p = positions(first_usable, last_usable, spans);
    let k = choose|k: int| 0 <= k < p.len() && p[k] == v;
    if 1 <= k < p.len() - 1 {
        assert(e[k - 1] == v);
        lemma_endpoints_are_ends(spans, v);
    }
}

/// The blocks strictly between two neighbours of the sorted addresses that
/// bound a section belong to no partition.
proof fn lemma_between_is_free(
    first_usable: u64,
    last_usable: u64,
    spans: Seq<(u64, u64)>,
    j: int,
    x: int,
)
    requires
        first_usable <= last_usable,
        within_usable(spans, first_usable, last_usable),
        pairwise_disjoint(spans),
        0 <= j < spans.len() + 1,
        ({
            let sorted = positions(first_usable, last_usable, spans).sort_by(ascending_order());
            sorted[2 * j] < x < sorted[2 * j + 1]
        }),
    ensures
        is_free(spans, x),
{
    let p = positions(first_usable, last_usable, spans);
    let s = p.sort_by(ascending_order());
    let e = endpoints(spans);
    lemma_ascending_order_total();
    p.lemma_sort_by_ensures(ascending_order());
    lemma_positions_len(first_usable, last_usable, spans);
    to_multiset_len(p);
    to_multiset_len(s);
    assert(s.len() == 2 * spans.len() + 2);
    // Every sorted address is one of the positions, and lies in the range.
    assert forall|k: int| 0 <= k < s.len() implies first_usable <= #[trigger] s[k]
        <= last_usable by {
        assert(s.contains(s[k]));
        to_multiset_contains(s, s[k]);
        to_multiset_contains(p, s[k]);
        lemma_positions_in_range(first_usable, last_usable, spans, s[k]);
    }
    assert(first_usable <= s[2 * j]);
    assert(s[2 * j + 1] <= last_usable);
    // There are 2j + 1 addresses below x.
    lemma_below_sorted(s, 2 * j + 1, x);
    lemma_below_rearranged(s, p, x);
    let head = seq![first_usable] + e;
    assert(p == head.push(last_usable));
    assert(p.drop_last() =~= head);
    assert(below(p, x) == below(head, x));
    lemma_below_joined(seq![first_usable], e, x);
    let one = seq![first_usable];
    assert(one.drop_last() =~= Seq::<u64>::empty());
    assert(below(Seq::<u64>::empty(), x) == 0);
    assert(one.last() == first_usable);
    assert(first_usable < x);
    assert(below(one, x) == below(one.drop_last(), x) + 1);
    assert(below(one, x) == 1);
    assert forall|i: int| 0 <= i < spans.len() implies (#[trigger] spans[i]).0 <= spans[i].1 by {}
    lemma_below_endpoints(spans, x);
    lemma_one_around(spans, x);
    assert(2 * j + 1 == 1 + 2 * before(spans, x) + around(spans, x));
    assert(around(spans, x) == 0);
    assert forall|i: int| 0 <= i < spans.len() implies !covers(#[trigger] spans[i], x) by {
        lemma_not_around(spans, x, i);
        if spans[i].0 == x {
            lemma_endpoints_hold(spans, i);
            let a = choose|a: int| 0 <= a < e.len() && e[a] == spans[i].0;
            assert(p[a + 1] == spans[i].0);
            assert(p.contains(spans[i].0));
            to_multiset_contains(p, spans[i].0);
            to_multiset_contains(s, spans[i].0);
            let m = choose|m: int| 0 <= m < s.len() && s[m] == spans[i].0;
            if m <= 2 * j {
                if m < 2 * j {
                    assert(ascending_order()(s[m], s[2 * j]));
                }
            } else {
                if m > 2 * j + 1 {
                    assert(ascending_order()(s[2 * j + 1], s[m]));
                }
            }
        }
    }
}

/// No more addresses are below `x` than there are addresses.
proof fn lemma_below_bounds(t: Seq<u64>, x: int)
    ensures
        0 <= below(t, x) <= t.len(),
    decreases t.len(),
{
    if t.len() > 0 {
        lemma_below_bounds(t.drop_last(), x);
    }
}

/// An address below `x` is counted, and one that is not below is not.
proof fn lemma_below_counts(t: Seq<u64>, i: int, x: int)
    requires
        0 <= i < t.len(),
    ensures
        t[i] < x ==> below(t, x) >= 1,
        t[i] >= x ==> below(t, x) <= t.len() - 1,
{
    lemma_below_without(t, i, x);
    lemma_below_bounds(t.remove(i), x);
}

/// The sorted addresses of a disk whose partitions lie in the usable range:
/// there are two for each partition and two more, all in the usable range,
/// the first usable block first and the last usable block last.
proof fn lemma_sorted_positions(first_usable: u64, last_usable: u64, spans: Seq<(u64, u64)>)
    requires
        first_usable <= last_usable,
        within_usable(spans, first_usable, last_usable),
    ensures
        ({
            let p = positions(first_usable, last_usable, spans);
            let s = p.sort_by(ascending_order());
            &&& s.len() == 2 * spans.len() + 2
            &&& p.len() == 2 * spans.len() + 2
            &&& sorted_by(s, ascending_order())
            &&& s.to_multiset() == p.to_multiset()
            &&& forall|k: int| 0 <= k < s.len() ==> first_usable <= #[trigger] s[k] <= last_usable
            &&& forall|k: int, l: int| 0 <= k <= l < s.len() ==> s[k] <= s[l]
            &&& s[0] == first_usable
            &&& s[s.len() - 1] == last_usable
            &&& free_sections_spec(first_usable, last_usable, spans).len() == spans.len() + 1
        }),
{
    let p = positions(first_usable, last_usable, spans);
    let s = p.sort_by(ascending_order());
    lemma_ascending_order_total();
    p.lemma_sort_by_ensures(ascending_order());
    lemma_positions_len(first_usable, last_usable, spans);
    to_multiset_len(p);
    to_multiset_len(s);
    assert forall|k: int| 0 <= k < s.len() implies first_usable <= #[trigger] s[k]
        <= last_usable by {
        assert(s.contains(s[k]));
        to_multiset_contains(s, s[k]);
        to_multiset_contains(p, s[k]);
        lemma_positions_in_range(first_usable, last_usable, spans, s[k]);
    }
    assert forall|k: int, l: int| 0 <= k <= l < s.len() implies s[k] <= s[l] by {
        if k < l {
            assert(ascending_order()(s[k], s[l]));
        }
    }
    assert(p[0] == first_usable);
    assert(p.contains(first_usable));
    to_multiset_contains(p, first_usable);
    to_multiset_contains(s, first_usable);
    let m0 = choose|m: int| 0 <= m < s.len() && s[m] == first_usable;
    assert(s[0] <= s[m0]);
    assert(p[p.len() - 1] == last_usable);
    assert(p.contains(last_usable));
    to_multiset_contains(p, last_usable);
    to_multiset_contains(s, last_usable);
    let m1 = choose|m: int| 0 <= m < s.len() && s[m] == last_usable;
    assert(s[m1] <= s[s.len() - 1]);
}

/// How many of the positions are below `x`: the first usable block where
/// it is, two for each partition that ends below, one for a partition that
/// holds the block before `x` and `x`, and the last usable block where it is.
proof fn lemma_below_positions(first_usable: u64, last_usable: u64, spans: Seq<(u64, u64)>, x: int)
    requires
        first_usable <= last_usable,
        within_usable(spans, first_usable, last_usable),
    ensures
        ({
            let p = positions(first_usable, last_usable, spans);
            let s = p.sort_by(ascending_order());
            &&& below(s, x) == below(p, x)
            &&& below(p, x) == (if first_usable < x {
                1int
            } else {
                0int
            }) + below(endpoints(spans), x) + (if last_usable < x {
                1int
            } else {
                0int
            })
            &&& below(endpoints(spans), x) == 2 * before(spans, x) + around(spans, x)
            &&& before(spans, x) >= 0
            &&& around(spans, x) >= 0
        }),
{
    let p = positions(first_usable, last_usable, spans);
    let s = p.sort_by(ascending_order());
    let e = endpoints(spans);
    lemma_sorted_positions(first_usable, last_usable, spans);
    lemma_below_rearranged(s, p, x);
    let head = seq![first_usable] + e;
    assert(p == head.push(last_usable));
    assert(p.drop_last() =~= head);
    assert(p.last() == last_usable);
    lemma_below_joined(seq![first_usable], e, x);
    let one = seq![first_usable];
    assert(one.drop_last() =~= Seq::<u64>::empty());
    assert(below(Seq::<u64>::empty(), x) == 0);
    assert(one.last() == first_usable);
    assert(below(one, x) == below(one.drop_last(), x) + if first_usable < x {
        1int
    } else {
        0int
    });
    assert forall|i: int| 0 <= i < spans.len() implies (#[trigger] spans[i]).0 <= spans[i].1 by {}
    lemma_below_endpoints(spans, x);
}

/// The sections hold free blocks only: a block of a free section lies in the
/// usable range and belongs to no partition, where the partitions lie in
/// the usable range and apart from each other.
pub proof fn lemma_section_is_free(
    first_usable: u64,
    last_usable: u64,
    spans: Seq<(u64, u64)>,
    j: int,
    x: int,
)
    requires
        first_usable <= last_usable,
        within_usable(spans, first_usable, last_usable),
        pairwise_disjoint(spans),
        0 <= j < spans.len() + 1,
        ({
            let sections = free_sections_spec(first_usable, last_usable, spans);
            sections[j].0 <= x < sections[j].0 + sections[j].1
        }),
    ensures
        first_usable <= x <= last_usable,
        is_free(spans, x),
{
    let p = positions(first_usable, last_usable, spans);
    let s = p.sort_by(ascending_order());
    let e = endpoints(spans);
    let n = spans.len() as int;
    lemma_sorted_positions(first_usable, last_usable, spans);
    let sections = free_sections_spec(first_usable, last_usable, spans);
    let a = s[2 * j];
    let b = s[2 * j + 1];
    assert(sections[j] == section(j, n, a, b));
    assert(s[2 * j] <= s[2 * j + 1]);
    assert(first_usable <= a && b <= last_usable);
    if n == 0 {
    } else if a < x < b {
        lemma_between_is_free(first_usable, last_usable, spans, j, x);
    } else if x == a {
        // The first section, which starts at the first usable block.
        assert(j == 0 && a < b);
        lemma_below_sorted(s, 1, first_usable + 1);
        lemma_below_positions(first_usable, last_usable, spans, first_usable + 1);
        lemma_below_bounds(e, first_usable + 1);
        assert forall|i: int| 0 <= i < spans.len() implies !covers(#[trigger] spans[i], x) by {
            if covers(spans[i], x) {
                lemma_endpoints_hold(spans, i);
                let k = choose|k: int| 0 <= k < e.len() && e[k] == spans[i].0;
                lemma_below_counts(e, k, first_usable + 1);
                assert(false);
            }
        }
    } else {
        // The last section, which ends with the last usable block.
        assert(j == n && x == b && a < b);
        assert(b == last_usable);
        lemma_below_sorted(s, 2 * n + 1, last_usable as int);
        lemma_below_positions(first_usable, last_usable, spans, last_usable as int);
        lemma_below_bounds(e, last_usable as int);
        assert forall|i: int| 0 <= i < spans.len() implies !covers(#[trigger] spans[i], x) by {
            if covers(spans[i], x) {
                lemma_endpoints_hold(spans, i);
                let k = choose|k: int| 0 <= k < e.len() && e[k] == spans[i].1;
                lemma_below_counts(e, k, last_usable as int);
                assert(false);
            }
        }
    }
}

/// Where a new partition is placed, as its first and its last block.
pub open spec fn placed_span(
    first_usable: u64,
    last_usable: u64,
    spans: Seq<(u64, u64)>,
    size_lba: u64,
    alignment: Option<u64>,
) -> Option<(int, int)> {
    let sections = free_sections_spec(first_usable, last_usable, spans);
    match first_fit_from(sections, 0, size_lba, alignment) {
        Some(j) => {
            let first = sections[j].0 + alignment_offset(sections[j].0, alignment);
            Some((first, first + size_lba - 1))
        },
        None => None,
    }
}

proof fn lemma_first_fit(sections: Seq<(u64, u64)>, i: int, size_lba: u64, alignment: Option<u64>)
    requires
        0 <= i,
        first_fit_from(sections, i, size_lba, alignment) is Some,
    ensures
        ({
            let j = first_fit_from(sections, i, size_lba, alignment)->Some_0;
            &&& i <= j < sections.len()
            &&& fits(sections[j], size_lba, alignment)
            &&& forall|k: int| i <= k < j ==> !fits(#[trigger] sections[k], size_lba, alignment)
        }),
    decreases sections.len() - i,
{
    if i < sections.len() && !fits(sections[i], size_lba, alignment) {
        lemma_first_fit(sections, i + 1, size_lba, alignment);
    }
}

/// A new partition is placed on free blocks of the usable range: it has no
/// block in common with any of the partitions, and the partitions of the
/// disk stay disjoint and in the usable range.
pub proof fn lemma_placed_span_is_disjoint(
    first_usable: u64,
    last_usable: u64,
    spans: Seq<(u64, u64)>,
    size_lba: u64,
    alignment: Option<u64>,
)
    requires
        first_usable <= last_usable,
        within_usable(spans, first_usable, last_usable),
        pairwise_disjoint(spans),
        size_lba >= 1,
        alignment != Some(0u64),
        placed_span(first_usable, last_usable, spans, size_lba, alignment) is Some,
    ensures
        placed_span(first_usable, last_usable, spans, size_lba, alignment) matches Some(
            (first, last),
        ) && first_usable <= first <= last <= last_usable && (forall|x: int|
            first <= x <= last ==> is_free(spans, x)) && pairwise_disjoint(
            spans.push((first as u64, last as u64)),
        ) && within_usable(spans.push((first as u64, last as u64)), first_usable, last_usable),
{
    let sections = free_sections_spec(first_usable, last_usable, spans);
    lemma_sorted_positions(first_usable, last_usable, spans);
    lemma_first_fit(sections, 0, size_lba, alignment);
    let j = first_fit_from(sections, 0, size_lba, alignment)->Some_0;
    let start = sections[j].0;
    let length = sections[j].1;
    let offset = alignment_offset(start, alignment);
    match alignment {
        Some(al) => {
            crate::space::lemma_alignment(start, al);
        },
        None => {},
    }
    let first = start + offset;
    let last = first + size_lba - 1;
    assert(start <= first <= last < start + length);
    assert forall|x: int| first <= x <= last implies is_free(spans, x) && first_usable <= x
        <= last_usable by {
        lemma_section_is_free(first_usable, last_usable, spans, j, x);
    }
    assert(first_usable <= first <= last_usable);
    assert(first_usable <= last <= last_usable);
    let grown = spans.push((first as u64, last as u64));
    assert forall|i: int| 0 <= i < spans.len() implies disjoint(
        #[trigger] spans[i],
        (first as u64, last as u64),
    ) by {
        if !disjoint(spans[i], (first as u64, last as u64)) {
            let x = if spans[i].0 > first {
                spans[i].0 as int
            } else {
                first
            };
            assert(first <= x <= last);
            assert(is_free(spans, x));
            assert(covers(spans[i], x));
        }
    }
    assert forall|i: int, k: int| 0 <= i < k < grown.len() implies disjoint(
        #[trigger] grown[i],
        #[trigger] grown[k],
    ) by {
        if k < spans.len() {
            assert(disjoint(spans[i], spans[k]));
        } else {
            assert(disjoint(spans[i], (first as u64, last as u64)));
        }
    }
    assert forall|i: int| 0 <= i < grown.len() implies first_usable <= (#[trigger] grown[i]).0
        && grown[i].0 <= grown[i].1 && grown[i].1 <= last_usable by {
        if i < spans.len() {
            assert(grown[i] == spans[i]);
        }
    }
}

/// In sorted addresses, as many are below `x` as stand before the first
/// that is not.
proof fn lemma_below_index(s: Seq<u64>, x: int)
    requires
        forall|k: int, l: int| 0 <= k <= l < s.len() ==> s[k] <= s[l],
    ensures
        0 <= below(s, x) <= s.len(),
        below(s, x) > 0 ==> s[below(s, x) - 1] < x,
        below(s, x) < s.len() ==> s[below(s, x)] >= x,
    decreases s.len(),
{
    if s.len() > 0 {
        let rest = s.drop_last();
        lemma_below_index(rest, x);
        lemma_below_bounds(rest, x);
        let c = below(rest, x);
        if s.last() < x {
            if c < rest.len() {
                assert(rest[c] == s[c]);
                assert(s[c] <= s[s.len() - 1]);
            }
        } else {
            if c > 0 {
                assert(rest[c - 1] == s[c - 1]);
            }
            if c < rest.len() {
                assert(rest[c] == s[c]);
            }
        }
    }
}

/// Around a free block the counts of the partitions stand still: none holds
/// it with the block before or behind it, and none ends on it.
proof fn lemma_free_counts(spans: Seq<(u64, u64)>, x: int)
    requires
        forall|i: int| 0 <= i < spans.len() ==> (#[trigger] spans[i]).0 <= spans[i].1,
        is_free(spans, x),
    ensures
        around(spans, x) == 0,
        around(spans, x + 1) == 0,
        before(spans, x + 1) == before(spans, x),
    decreases spans.len(),
{
    if spans.len() > 0 {
        let rest = spans.drop_last();
        let last = spans.last();
        assert(spans[spans.len() - 1] == last);
        assert(!covers(last, x));
        assert forall|i: int| 0 <= i < rest.len() implies (#[trigger] rest[i]).0 <= rest[i].1
            && !covers(rest[i], x) by {
            assert(rest[i] == spans[i]);
        }
        lemma_free_counts(rest, x);
    }
}

/// Every section but the last ends before a block in use: the address that
/// closes it belongs to a partition.
proof fn lemma_section_end_in_use(
    first_usable: u64,
    last_usable: u64,
    spans: Seq<(u64, u64)>,
    k: int,
)
    requires
        first_usable <= last_usable,
        within_usable(spans, first_usable, last_usable),
        pairwise_disjoint(spans),
        0 <= k < spans.len(),
    ensures
        !is_free(
            spans,
            positions(first_usable, last_usable, spans).sort_by(ascending_order())[2 * k
                + 1] as int,
        ),
{
    let p = positions(first_usable, last_usable, spans);
    let s = p.sort_by(ascending_order());
    let n = spans.len() as int;
    lemma_sorted_positions(first_usable, last_usable, spans);
    let y = s[2 * k + 1] as int;
    if is_free(spans, y) {
        assert forall|i: int| 0 <= i < spans.len() implies (#[trigger] spans[i]).0 <= spans[i].1 by {}
        lemma_free_counts(spans, y);
        lemma_below_positions(first_usable, last_usable, spans, y);
        lemma_below_positions(first_usable, last_usable, spans, y + 1);
        lemma_below_index(s, y);
        lemma_below_index(s, y + 1);
        let c1 = below(s, y);
        let c2 = below(s, y + 1);
        if c1 > 2 * k + 1 {
            assert(s[2 * k + 1] <= s[c1 - 1]);
        }
        assert(c1 <= 2 * k + 1);
        if c2 < s.len() && c2 <= 2 * k + 1 {
            assert(s[c2] <= s[2 * k + 1]);
        }
        assert(c2 >= 2 * k + 2);
        if last_usable == y {
            lemma_below_sorted(s, 2 * n + 2, y + 1);
        }
        assert(false);
    }
}

/// The sections hold every free block: a block of the usable range that
/// belongs to no partition lies in one of the free sections. The result is
/// the index of that section.
pub proof fn lemma_free_block_in_section(
    first_usable: u64,
    last_usable: u64,
    spans: Seq<(u64, u64)>,
    x: int,
) -> (k: int)
    requires
        first_usable <= last_usable < u64::MAX,
        within_usable(spans, first_usable, last_usable),
        pairwise_disjoint(spans),
        first_usable <= x <= last_usable,
        is_free(spans, x),
    ensures
        0 <= k < spans.len() + 1,
        free_sections_spec(first_usable, last_usable, spans).len() == spans.len() + 1,
        in_section(free_sections_spec(first_usable, last_usable, spans)[k], x),
{
    let p = positions(first_usable, last_usable, spans);
    let s = p.sort_by(ascending_order());
    let n = spans.len() as int;
    let sections = free_sections_spec(first_usable, last_usable, spans);
    lemma_sorted_positions(first_usable, last_usable, spans);
    assert forall|i: int| 0 <= i < spans.len() implies (#[trigger] spans[i]).0 <= spans[i].1 by {}
    lemma_free_counts(spans, x);
    lemma_below_positions(first_usable, last_usable, spans, x);
    lemma_below_index(s, x);
    let c = below(s, x);
    let k = if x == first_usable {
        0int
    } else {
        before(spans, x)
    };
    if x == first_usable {
        if c > 0 {
            assert(s[0] <= s[c - 1]);
        }
        assert(c == 0);
    } else {
        assert(c == 2 * k + 1);
    }
    assert(0 <= k <= n);
    assert(sections[k] == section(k, n, s[2 * k], s[2 * k + 1]));
    assert(s[2 * k] <= s[2 * k + 1]);
    if k < n {
        lemma_section_end_in_use(first_usable, last_usable, spans, k);
        assert(x < s[2 * k + 1]);
    }
    k
}

/// The next multiple of the alignment from `start` on is the least: no
/// multiple of the alignment lies between `start` and it.
proof fn lemma_aligned_least(start: u64, a: u64, t: int)
    requires
        a > 0,
        start <= t,
        t % (a as int) == 0,
    ensures
        start + alignment_offset(start, Some(a)) <= t,
{
    crate::space::lemma_alignment(start, a);
    let first = start + alignment_offset(start, Some(a));
    if t < first {
        assert(first - t >= a) by (nonlinear_arith)
            requires
                a > 0,
                t < first,
                t % (a as int) == 0,
                first % (a as int) == 0,
        ;
    }
}

/// Where a section takes the partition, the first fit is that section or
/// one before it.
proof fn lemma_first_fit_found(
    sections: Seq<(u64, u64)>,
    i: int,
    k: int,
    size_lba: u64,
    alignment: Option<u64>,
)
    requires
        0 <= i <= k < sections.len(),
        fits(sections[k], size_lba, alignment),
    ensures
        first_fit_from(sections, i, size_lba, alignment) matches Some(j) && i <= j <= k,
    decreases k - i,
{
    if !fits(sections[i], size_lba, alignment) {
        lemma_first_fit_found(sections, i + 1, k, size_lba, alignment);
    }
}

/// Whether a partition of `size_lba` blocks can start at block `t`: the
/// blocks it takes lie in the usable range and belong to no partition, and
/// `t` is a multiple of the alignment where one is given.
pub open spec fn can_start_at(
    first_usable: u64,
    last_usable: u64,
    spans: Seq<(u64, u64)>,
    size_lba: u64,
    alignment: Option<u64>,
    t: int,
) -> bool {
    &&& first_usable <= t
    &&& t + size_lba - 1 <= last_usable
    &&& alignment matches Some(a) ==> t % (a as int) == 0
    &&& forall|x: int| t <= x <= t + size_lba - 1 ==> is_free(spans, x)
}

/// First fit: where a partition can start at all, it is placed, and at the
/// lowest block at which it can start.
pub proof fn lemma_placement_is_least(
    first_usable: u64,
    last_usable: u64,
    spans: Seq<(u64, u64)>,
    size_lba: u64,
    alignment: Option<u64>,
    t: int,
)
    requires
        first_usable <= last_usable < u64::MAX,
        within_usable(spans, first_usable, last_usable),
        pairwise_disjoint(spans),
        size_lba >= 1,
        alignment != Some(0u64),
        can_start_at(first_usable, last_usable, spans, size_lba, alignment, t),
    ensures
        placed_span(first_usable, last_usable, spans, size_lba, alignment) matches Some(
            (first, last),
        ) && first <= t && can_start_at(
            first_usable,
            last_usable,
            spans,
            size_lba,
            alignment,
            first,
        ),
{
    let p = positions(first_usable, last_usable, spans);
    let s = p.sort_by(ascending_order());
    let n = spans.len() as int;
    let sections = free_sections_spec(first_usable, last_usable, spans);
    lemma_sorted_positions(first_usable, last_usable, spans);
    assert(is_free(spans, t));
    let k = lemma_free_block_in_section(first_usable, last_usable, spans, t);
    assert(sections[k] == section(k, n, s[2 * k], s[2 * k + 1]));
    assert(s[2 * k] <= s[2 * k + 1]);
    let start = sections[k].0;
    let end = start + sections[k].1;
    // The partition ends in the section too.
    if k < n {
        lemma_section_end_in_use(first_usable, last_usable, spans, k);
        let y = s[2 * k + 1] as int;
        if t + size_lba > y {
            assert(is_free(spans, y));
        }
    }
    assert(t + size_lba <= end);
    match alignment {
        Some(a) => {
            lemma_aligned_least(start, a, t);
        },
        None => {},
    }
    assert(fits(sections[k], size_lba, alignment));
    lemma_first_fit_found(sections, 0, k, size_lba, alignment);
    lemma_first_fit(sections, 0, size_lba, alignment);
    let j = first_fit_from(sections, 0, size_lba, alignment)->Some_0;
    let first = sections[j].0 + alignment_offset(sections[j].0, alignment);
    if j < k {
        assert(sections[j] == section(j, n, s[2 * j], s[2 * j + 1]));
        assert(s[2 * j] <= s[2 * j + 1]);
        assert(s[2 * j + 1] <= s[2 * k]);
        match alignment {
            Some(a) => {
                crate::space::lemma_alignment(sections[j].0, a);
            },
            None => {},
        }
    }
    assert(first <= t);
    lemma_placed_span_is_disjoint(first_usable, last_usable, spans, size_lba, alignment);
    match alignment {
        Some(a) => {
            crate::space::lemma_alignment(sections[j].0, a);
        },
        None => {},
    }
}

/// The blocks of a partition, from the first to the last.
pub open spec fn span_of(p: PartitionView) -> (u64, u64) {
    (p.first_lba, p.last_lba)
}

/// Whether no two partitions in use have a block in common.
pub open spec fn table_disjoint(m: Map<u32, PartitionView>) -> bool {
    forall|k1: u32, k2: u32|
        #![trigger m[k1], m[k2]]
        m.contains_key(k1) && m.contains_key(k2) && k1 != k2 && m[k1].is_used()
            && m[k2].is_used() ==> disjoint(span_of(m[k1]), span_of(m[k2]))
}

/// Whether every partition in use starts no later than it ends and lies in
/// the usable range.
pub open spec fn table_within(m: Map<u32, PartitionView>, first_usable: u64, last_usable: u64) -> bool {
    forall|k: u32|
        m.contains_key(k) && (#[trigger] m[k]).is_used() ==> first_usable <= m[k].first_lba
            && m[k].first_lba <= m[k].last_lba && m[k].last_lba <= last_usable
}

/// Whether the block `x` belongs to no partition in use.
pub open spec fn table_free_at(m: Map<u32, PartitionView>, x: int) -> bool {
    forall|k: u32| m.contains_key(k) && (#[trigger] m[k]).is_used() ==> !covers(span_of(m[k]), x)
}

/// Whether the block `x` is one of the section: one of as many blocks as
/// the section has, from its first block on.
pub open spec fn in_section(section: (u64, u64), x: int) -> bool {
    section.0 <= x < section.0 + section.1
}

/// Whether every block of every section lies in the usable range and
/// belongs to no partition in use.
pub open spec fn holds_free_blocks(
    sections: Seq<(u64, u64)>,
    m: Map<u32, PartitionView>,
    first_usable: u64,
    last_usable: u64,
) -> bool {
    forall|j: int, x: int|
        0 <= j < sections.len() && #[trigger] in_section(sections[j], x) ==> first_usable <= x
            <= last_usable && table_free_at(m, x)
}

/// Whether every block of the usable range that belongs to no partition in
/// use lies in one of the sections.
pub open spec fn holds_every_free_block(
    sections: Seq<(u64, u64)>,
    m: Map<u32, PartitionView>,
    first_usable: u64,
    last_usable: u64,
) -> bool {
    forall|x: int|
        first_usable <= x <= last_usable && #[trigger] table_free_at(m, x) ==> exists|j: int|
            0 <= j < sections.len() && in_section(#[trigger] sections[j], x)
}

/// Whether the sections come in ascending order: each ends before the next
/// starts.
pub open spec fn sections_ascend(sections: Seq<(u64, u64)>) -> bool {
    forall|i: int, j: int|
        0 <= i < j < sections.len() ==> (#[trigger] sections[i]).0 + sections[i].1
            <= (#[trigger] sections[j]).0
}

/// Whether a partition of `size_lba` blocks can start at block `t` of a
/// disk with the partitions `m`: the blocks it takes lie in the usable range
/// and belong to no partition in use, and `t` is a multiple of the alignment
/// where one is given.
pub open spec fn has_room_at(
    m: Map<u32, PartitionView>,
    first_usable: u64,
    last_usable: u64,
    size_lba: int,
    alignment: Option<u64>,
    t: int,
) -> bool {
    &&& first_usable <= t
    &&& t + size_lba - 1 <= last_usable
    &&& alignment matches Some(a) ==> t % (a as int) == 0
    &&& forall|x: int| t <= x <= t + size_lba - 1 ==> table_free_at(m, x)
}

/// The place among the indices `ks` of the partition that is the `i`-th of
/// those in use.
spec fn source(m: Map<u32, PartitionView>, ks: Seq<u32>, i: int) -> int
    decreases ks.len(),
{
    if ks.len() == 0 {
        0
    } else if m[ks.last()].is_used() && i == used_entries_of(m, ks.drop_last()).len() {
        ks.len() - 1
    } else {
        source(m, ks.drop_last(), i)
    }
}

proof fn lemma_source(m: Map<u32, PartitionView>, ks: Seq<u32>, i: int)
    requires
        0 <= i < used_entries_of(m, ks).len(),
    ensures
        0 <= source(m, ks, i) < ks.len(),
        m[ks[source(m, ks, i)]].is_used(),
        used_entries_of(m, ks)[i] == m[ks[source(m, ks, i)]],
    decreases ks.len(),
{
    if ks.len() > 0 {
        let rest = ks.drop_last();
        if m[ks.last()].is_used() && i == used_entries_of(m, rest).len() {
        } else {
            lemma_source(m, rest, i);
            assert(rest[source(m, rest, i)] == ks[source(m, rest, i)]);
        }
    }
}

proof fn lemma_source_ascends(m: Map<u32, PartitionView>, ks: Seq<u32>, i: int, j: int)
    requires
        0 <= i < j < used_entries_of(m, ks).len(),
    ensures
        source(m, ks, i) < source(m, ks, j),
    decreases ks.len(),
{
    if ks.len() > 0 {
        let rest = ks.drop_last();
        if m[ks.last()].is_used() && j == used_entries_of(m, rest).len() {
            lemma_source(m, rest, i);
        } else {
            lemma_source_ascends(m, rest, i, j);
        }
    }
}

proof fn lemma_used_is_listed(m: Map<u32, PartitionView>, ks: Seq<u32>, a: int)
    requires
        0 <= a < ks.len(),
        m[ks[a]].is_used(),
    ensures
        exists|i: int| 0 <= i < used_entries_of(m, ks).len() && used_entries_of(m, ks)[i] == m[ks[a]],
    decreases ks.len(),
{
    let rest = ks.drop_last();
    if a == ks.len() - 1 {
        let i = used_entries_of(m, rest).len() as int;
        assert(used_entries_of(m, ks)[i] == m[ks[a]]);
    } else {
        assert(rest[a] == ks[a]);
        lemma_used_is_listed(m, rest, a);
        let i = choose|i: int|
            0 <= i < used_entries_of(m, rest).len() && used_entries_of(m, rest)[i] == m[ks[a]];
        assert(used_entries_of(m, ks)[i] == m[ks[a]]);
    }
}

/// The spans of the partitions in use lie in the usable range and apart
/// from each other where the partitions do.
pub proof fn lemma_spans_of_table(m: Map<u32, PartitionView>, first_usable: u64, last_usable: u64)
    requires
        table_disjoint(m),
        table_within(m, first_usable, last_usable),
    ensures
        within_usable(spans_of(used_entries(m)), first_usable, last_usable),
        pairwise_disjoint(spans_of(used_entries(m))),
        forall|x: int|
            #![trigger is_free(spans_of(used_entries(m)), x)]
            #![trigger table_free_at(m, x)]
            is_free(spans_of(used_entries(m)), x) <==> table_free_at(m, x),
{
    let ks = ascending_keys(m);
    lemma_keys_exist(m);
    let entries = used_entries(m);
    let spans = spans_of(entries);
    assert forall|i: int| 0 <= i < spans.len() implies first_usable <= (#[trigger] spans[i]).0
        && spans[i].0 <= spans[i].1 && spans[i].1 <= last_usable by {
        lemma_source(m, ks, i);
        assert(ks.contains(ks[source(m, ks, i)]));
    }
    assert forall|i: int, j: int| 0 <= i < j < spans.len() implies disjoint(
        #[trigger] spans[i],
        #[trigger] spans[j],
    ) by {
        lemma_source(m, ks, i);
        lemma_source(m, ks, j);
        lemma_source_ascends(m, ks, i, j);
        let a = source(m, ks, i);
        let b = source(m, ks, j);
        assert(ks.contains(ks[a]) && ks.contains(ks[b]));
        assert(ks[a] < ks[b]);
        assert(disjoint(span_of(m[ks[a]]), span_of(m[ks[b]])));
    }
    assert forall|x: int|
        #![trigger is_free(spans, x)]
        #![trigger table_free_at(m, x)]
        is_free(spans, x) <==> table_free_at(m, x) by {
        if is_free(spans, x) {
            assert forall|k: u32| m.contains_key(k) && (#[trigger] m[k]).is_used() implies !covers(
                span_of(m[k]),
                x,
            ) by {
                assert(ks.contains(k));
                let a = choose|a: int| 0 <= a < ks.len() && ks[a] == k;
                lemma_used_is_listed(m, ks, a);
                let i = choose|i: int| 0 <= i < entries.len() && entries[i] == m[k];
                assert(spans[i] == span_of(m[k]));
            }
        }
        if table_free_at(m, x) {
            assert forall|i: int| 0 <= i < spans.len() implies !covers(#[trigger] spans[i], x) by {
                lemma_source(m, ks, i);
                let a = source(m, ks, i);
                assert(ks.contains(ks[a]));
                assert(spans[i] == span_of(m[ks[a]]));
            }
        }
    }
}

/// Adding a partition keeps the partitions of a disk disjoint and in the
/// usable range: if no two partitions in use have a block in common before
/// and all lie in the usable range, then so it is afterwards, and the new
/// partition lies on blocks that were free.
pub proof fn lemma_add_partition_keeps_disjoint(
    m: Map<u32, PartitionView>,
    h: HeaderView,
    config: ConfigView,
    size: u64,
    alignment: Option<u64>,
    added: PartitionView,
)
    requires
        table_disjoint(m),
        table_within(m, h.first_usable, h.last_usable),
        size > 0,
        alignment != Some(0u64),
        add_plan(m, h, config, size, alignment) matches Ok((id, first, last)) && added.first_lba
            == first && added.last_lba == last,
    ensures
        add_plan(m, h, config, size, alignment) matches Ok((id, first, last)) && table_disjoint(
            m.insert(id, added),
        ) && table_within(m.insert(id, added), h.first_usable, h.last_usable)
            && h.first_usable <= first <= last <= h.last_usable && (forall|x: int|
            first <= x <= last ==> table_free_at(m, x)),
{
    let plan = add_plan(m, h, config, size, alignment)->Ok_0;
    let id = plan.0;
    let size_lba = size_in_blocks(size, config.lb_size.bytes()) as u64;
    let ks = ascending_keys(m);
    lemma_keys_exist(m);
    let entries = used_entries(m);
    let spans = spans_of(entries);
    lemma_spans_of_table(m, h.first_usable, h.last_usable);
    lemma_placed_span_is_disjoint(h.first_usable, h.last_usable, spans, size_lba, alignment);
    let grown = spans.push(span_of(added));
    let after = m.insert(id, added);
    assert forall|k1: u32, k2: u32|
        #![trigger after[k1], after[k2]]
        after.contains_key(k1) && after.contains_key(k2) && k1 != k2 && after[k1].is_used()
            && after[k2].is_used() implies disjoint(span_of(after[k1]), span_of(after[k2])) by {
        if k1 != id && k2 != id {
            assert(disjoint(span_of(m[k1]), span_of(m[k2])));
        } else {
            let other = if k1 == id {
                k2
            } else {
                k1
            };
            assert(ks.contains(other));
            let a = choose|a: int| 0 <= a < ks.len() && ks[a] == other;
            lemma_used_is_listed(m, ks, a);
            let i = choose|i: int| 0 <= i < entries.len() && entries[i] == m[other];
            assert(grown[i] == span_of(m[other]));
            assert(grown[spans.len() as int] == span_of(added));
            assert(disjoint(grown[i], grown[spans.len() as int]));
        }
    }
    assert forall|k: u32| after.contains_key(k) && (#[trigger] after[k]).is_used() implies h.first_usable
        <= after[k].first_lba && after[k].first_lba <= after[k].last_lba && after[k].last_lba
        <= h.last_usable by {
        if k != id {
            assert(m.contains_key(k) && m[k].is_used());
        }
    }
}

/// The free sections of a disk come in ascending order, and where the last
/// usable block is not the last of all they hold every free block of the
/// usable range.
pub proof fn lemma_sections_are_complete(
    m: Map<u32, PartitionView>,
    first_usable: u64,
    last_usable: u64,
)
    requires
        table_disjoint(m),
        table_within(m, first_usable, last_usable),
    ensures
        sections_ascend(free_sections_spec(first_usable, last_usable, spans_of(used_entries(m)))),
        last_usable < u64::MAX ==> holds_every_free_block(
            free_sections_spec(first_usable, last_usable, spans_of(used_entries(m))),
            m,
            first_usable,
            last_usable,
        ),
{
    if first_usable > last_usable {
        return ;
    }
    let spans = spans_of(used_entries(m));
    let sections = free_sections_spec(first_usable, last_usable, spans);
    let s = positions(first_usable, last_usable, spans).sort_by(ascending_order());
    let n = spans.len() as int;
    lemma_spans_of_table(m, first_usable, last_usable);
    lemma_sorted_positions(first_usable, last_usable, spans);
    assert forall|i: int, j: int| 0 <= i < j < sections.len() implies (#[trigger] sections[i]).0
        + sections[i].1 <= (#[trigger] sections[j]).0 by {
        assert(sections[i] == section(i, n, s[2 * i], s[2 * i + 1]));
        assert(sections[j] == section(j, n, s[2 * j], s[2 * j + 1]));
        assert(s[2 * i] <= s[2 * i + 1]);
        assert(s[2 * i + 1] <= s[2 * j]);
    }
    if last_usable < u64::MAX {
        assert forall|x: int|
            first_usable <= x <= last_usable && #[trigger] table_free_at(m, x) implies exists|
            j: int,
        | 0 <= j < sections.len() && in_section(#[trigger] sections[j], x) by {
            let k = lemma_free_block_in_section(first_usable, last_usable, spans, x);
            assert(in_section(sections[k], x));
        }
    }
}

/// First fit: where a new partition can start at all and its index is not
/// refused, it is added, and at the lowest block at which it can start.
pub proof fn lemma_add_partition_is_first_fit(
    m: Map<u32, PartitionView>,
    h: HeaderView,
    config: ConfigView,
    size: u64,
    alignment: Option<u64>,
    t: int,
)
    requires
        table_disjoint(m),
        table_within(m, h.first_usable, h.last_usable),
        h.first_usable <= h.last_usable < u64::MAX,
        size > 0,
        alignment != Some(0u64),
        has_room_at(
            m,
            h.first_usable,
            h.last_usable,
            size_in_blocks(size, config.lb_size.bytes()),
            alignment,
            t,
        ),
    ensures
        !(add_plan(m, h, config, size, alignment) matches Err(GptError::NotEnoughSpace)),
        add_plan(m, h, config, size, alignment) matches Ok((id, first, last)) ==> first <= t
            && has_room_at(
            m,
            h.first_usable,
            h.last_usable,
            size_in_blocks(size, config.lb_size.bytes()),
            alignment,
            first as int,
        ),
{
    let spans = spans_of(used_entries(m));
    let blocks = size_in_blocks(size, config.lb_size.bytes());
    assert(1 <= blocks <= u64::MAX) by {
        crate::space::lemma_size_in_blocks(size, config.lb_size.bytes());
    }
    lemma_spans_of_table(m, h.first_usable, h.last_usable);
    lemma_placement_is_least(
        h.first_usable,
        h.last_usable,
        spans,
        blocks as u64,
        alignment,
        t,
    );
}

} // verus!
