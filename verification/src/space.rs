//! Finding room for a new partition between the ones a disk has.

use vstd::prelude::*;
use vstd::relations::{sorted_by, total_ordering};
use vstd::seq_lib::lemma_sorted_unique;

verus! {

/// The order of block addresses.
pub open spec fn ascending_order() -> spec_fn(u64, u64) -> bool {
    |a: u64, b: u64| a <= b
}

/// The first and the last block of each span, in the order of the spans.
pub open spec fn endpoints(spans: Seq<(u64, u64)>) -> Seq<u64>
    decreases spans.len(),
{
    if spans.len() == 0 {
        Seq::empty()
    } else {
        endpoints(spans.drop_last()).push(spans.last().0).push(spans.last().1)
    }
}

/// The addresses between which free room is looked for: the first usable
/// block, the ends of every span, and the last usable block.
pub open spec fn positions(first_usable: u64, last_usable: u64, spans: Seq<(u64, u64)>) -> Seq<
    u64,
> {
    (seq![first_usable] + endpoints(spans)).push(last_usable)
}

/// The section that pair `j` of the sorted addresses bounds, as its first
/// block and the number of its blocks. `a` and `b` are the two addresses of
/// the pair and `last` is the index of the last pair. The first section
/// starts at the first usable block, any other behind the partition that
/// ends at `a`. The last section ends with the last usable block, any other
/// before the partition that starts at `b`.
pub open spec fn section(j: int, last: int, a: u64, b: u64) -> (u64, u64) {
    let start = if j == 0 {
        a as int
    } else {
        a + 1
    };
    let end = if j == last {
        b + 1
    } else {
        b as int
    };
    if start > u64::MAX {
        (u64::MAX, 0)
    } else if end <= start {
        (start as u64, 0)
    } else if end - start > u64::MAX {
        (start as u64, u64::MAX)
    } else {
        (start as u64, (end - start) as u64)
    }
}

/// The sections that the sorted addresses `sorted` bound, pair by pair.
pub open spec fn sections_of(sorted: Seq<u64>) -> Seq<(u64, u64)> {
    Seq::new(
        sorted.len() / 2,
        |j: int| section(j, sorted.len() / 2 - 1, sorted[2 * j], sorted[2 * j + 1]),
    )
}

/// The free sections of a disk whose used partitions cover `spans`, each as
/// its first block and the number of its blocks: the addresses are sorted
/// and taken in pairs. Where the partitions lie in the usable range and
/// apart from each other, the sections hold the blocks of the range that
/// belong to no partition. A usable range that ends before it starts has
/// no section.
pub open spec fn free_sections_spec(
    first_usable: u64,
    last_usable: u64,
    spans: Seq<(u64, u64)>,
) -> Seq<(u64, u64)> {
    if first_usable > last_usable {
        Seq::empty()
    } else {
        sections_of(positions(first_usable, last_usable, spans).sort_by(ascending_order()))
    }
}

/// How far behind `start` the next multiple of the alignment lies.
pub open spec fn alignment_offset(start: u64, alignment: Option<u64>) -> int {
    match alignment {
        Some(a) => (a - start % a) % (a as int),
        None => 0,
    }
}

/// Whether a partition of `size_lba` blocks is placed in `section`: behind
/// the blocks before the next aligned one, the section has that many blocks
/// left.
pub open spec fn fits(section: (u64, u64), size_lba: u64, alignment: Option<u64>) -> bool {
    section.1 >= alignment_offset(section.0, alignment) + size_lba
}

/// The index of the first of `sections` from index `i` on in which a
/// partition of `size_lba` blocks is placed, or nothing where there is none.
pub open spec fn first_fit_from(
    sections: Seq<(u64, u64)>,
    i: int,
    size_lba: u64,
    alignment: Option<u64>,
) -> Option<int>
    decreases sections.len() - i,
{
    if i < 0 || i >= sections.len() {
        None
    } else if fits(sections[i], size_lba, alignment) {
        Some(i)
    } else {
        first_fit_from(sections, i + 1, size_lba, alignment)
    }
}

/// The first block of a partition of `size_lba` blocks placed in the first
/// of `sections` that takes it, or nothing where none does.
pub open spec fn placement(sections: Seq<(u64, u64)>, size_lba: u64, alignment: Option<u64>) -> Option<
    int,
> {
    match first_fit_from(sections, 0, size_lba, alignment) {
        Some(i) => Some(sections[i].0 + alignment_offset(sections[i].0, alignment)),
        None => None,
    }
}

/// The number of blocks that `size` bytes take, rounded up.
pub open spec fn size_in_blocks(size: u64, lb_bytes: int) -> int {
    (size - 1) / lb_bytes + 1
}

/// Bytes take at least one block, and no more blocks than there are bytes.
pub proof fn lemma_size_in_blocks(size: u64, lb_bytes: int)
    requires
        size > 0,
        lb_bytes >= 1,
    ensures
        1 <= size_in_blocks(size, lb_bytes) <= size,
{
    assert(0 <= (size - 1) / lb_bytes <= size - 1) by (nonlinear_arith)
        requires
            size > 0,
            lb_bytes >= 1,
    ;
}

/// The order of block addresses is a total order.
pub proof fn lemma_ascending_order_total()
    ensures
        total_ordering(ascending_order()),
{
    let leq = ascending_order();
    assert(vstd::relations::reflexive(leq));
    assert(vstd::relations::antisymmetric(leq));
    assert(vstd::relations::transitive(leq));
    assert(vstd::relations::strongly_connected(leq));
}

/// There are two addresses for each span, and two more.
pub proof fn lemma_positions_len(first_usable: u64, last_usable: u64, spans: Seq<(u64, u64)>)
    ensures
        positions(first_usable, last_usable, spans).len() == 2 * spans.len() + 2,
        endpoints(spans).len() == 2 * spans.len(),
    decreases spans.len(),
{
    if spans.len() > 0 {
        lemma_positions_len(first_usable, last_usable, spans.drop_last());
    }
}

/// An aligned start is a multiple of the alignment.
pub proof fn lemma_alignment(start: u64, a: u64)
    requires
        a > 0,
    ensures
        0 <= alignment_offset(start, Some(a)) < a,
        (start + alignment_offset(start, Some(a))) % (a as int) == 0,
{
    let r = start % a;
    let q = start / a;
    assert(start == q * a + r) by (nonlinear_arith)
        requires
            a > 0,
            r == start % a,
            q == start / a,
    ;
    if r == 0 {
        assert((a - r) % (a as int) == 0) by (nonlinear_arith)
            requires
                r == 0,
                a > 0,
        ;
    } else {
        assert((a - r) % (a as int) == a - r) by (nonlinear_arith)
            requires
                0 < r < a,
        ;
        assert((q * a + a) % (a as int) == 0) by (nonlinear_arith)
            requires
                a > 0,
        ;
    }
}

/// Calls `<[u64]>::sort_unstable`, which sorts the slice in ascending order:
/// afterwards the vector holds the numbers it held, each as often as
/// before, and none is followed by a smaller one.
#[verifier::external_body]
fn sort_ascending(v: &mut Vec<u64>)
    ensures
        final(v)@.to_multiset() == old(v)@.to_multiset(),
        sorted_by(final(v)@, ascending_order()),
{
    v.sort_unstable();
}

/// Find free space between the spans of the used partitions.
/// Returns a tuple of (starting_lba, length in lba's) for each section.
pub fn free_sections(first_usable: u64, last_usable: u64, spans: &Vec<(u64, u64)>) -> (r: Vec<
    (u64, u64),
>)
    ensures
        r@ == free_sections_spec(first_usable, last_usable, spans@),
        first_usable <= last_usable ==> r@.len() == spans@.len() + 1,
        forall|j: int| 0 <= j < r@.len() ==> (#[trigger] r@[j]).0 + r@[j].1 <= u64::MAX + 1,
{
    if first_usable > last_usable {
        return Vec::new();
    }
    let mut disk_positions: Vec<u64> = Vec::new();
    disk_positions.push(first_usable);
    let mut i: usize = 0;
    assert(spans@.take(0) =~= Seq::<(u64, u64)>::empty());
    assert(disk_positions@ =~= seq![first_usable] + endpoints(spans@.take(0)));
    while i < spans.len()
        invariant
            i <= spans@.len(),
            disk_positions@ == seq![first_usable] + endpoints(spans@.take(i as int)),
        decreases spans@.len() - i,
    {
        let span = spans[i];
        proof {
            let next = spans@.take(i + 1);
            assert(next.drop_last() =~= spans@.take(i as int));
            assert(next.last() == span);
            assert((seq![first_usable] + endpoints(spans@.take(i as int))).push(span.0).push(span.1)
                =~= seq![first_usable] + endpoints(next));
        }
        disk_positions.push(span.0);
        disk_positions.push(span.1);
        i += 1;
    }
    assert(spans@.take(spans@.len() as int) =~= spans@);
    disk_positions.push(last_usable);
    let ghost unsorted = disk_positions@;
    assert(unsorted == positions(first_usable, last_usable, spans@));
    sort_ascending(&mut disk_positions);
    proof {
        lemma_ascending_order_total();
        unsorted.lemma_sort_by_ensures(ascending_order());
        lemma_sorted_unique(disk_positions@, unsorted.sort_by(ascending_order()), ascending_order());
        lemma_positions_len(first_usable, last_usable, spans@);
        unsorted.to_multiset_ensures();
        disk_positions@.to_multiset_ensures();
    }
    let ghost sorted = disk_positions@;
    let n = disk_positions.len() / 2;
    let mut out: Vec<(u64, u64)> = Vec::new();
    let mut j: usize = 0;
    // Walk through the LBA's in chunks of 2 (ending, starting).
    while j < n
        invariant
            j <= n,
            n == sorted.len() / 2,
            sorted.len() <= usize::MAX,
            disk_positions@ == sorted,
            out@.len() == j,
            forall|k: int|
                0 <= k < j ==> #[trigger] out@[k] == section(
                    k,
                    n - 1,
                    sorted[2 * k],
                    sorted[2 * k + 1],
                ),
            forall|k: int| 0 <= k < j ==> (#[trigger] out@[k]).0 + out@[k].1 <= u64::MAX + 1,
        decreases n - j,
    {
        let a = disk_positions[2 * j];
        let b = disk_positions[2 * j + 1];
        // The first section starts at the first usable block, the others
        // behind the partition before them.
        let start = if j == 0 {
            Some(a)
        } else {
            a.checked_add(1)
        };
        let s = match start {
            None => (u64::MAX, 0),
            Some(start) => if b < start {
                (start, 0)
            } else if j == n - 1 {
                // The last usable block counts.
                (start, (b - start).saturating_add(1))
            } else {
                (start, b - start)
            },
        };
        out.push(s);
        j += 1;
    }
    assert(out@ =~= sections_of(sorted));
    out
}

/// Places a partition of `size_lba` blocks in the first section that takes
/// it, at the next multiple of the alignment. Returns its first block.
pub fn place(sections: &Vec<(u64, u64)>, size_lba: u64, alignment: Option<u64>) -> (r: Option<u64>)
    requires
        size_lba >= 1,
        alignment != Some(0u64),
        forall|j: int| 0 <= j < sections@.len() ==> (#[trigger] sections@[j]).0 + sections@[j].1
            <= u64::MAX + 1,
    ensures
        match placement(sections@, size_lba, alignment) {
            Some(first) => r == Some(first as u64) && first + size_lba - 1 <= u64::MAX,
            None => r is None,
        },
        r matches Some(first) ==> (alignment matches Some(a) ==> first % a == 0),
{
    let mut i: usize = 0;
    while i < sections.len()
        invariant
            i <= sections@.len(),
            size_lba >= 1,
            alignment != Some(0u64),
            forall|j: int| 0 <= j < sections@.len() ==> (#[trigger] sections@[j]).0
                + sections@[j].1 <= u64::MAX + 1,
            first_fit_from(sections@, 0, size_lba, alignment) == first_fit_from(
                sections@,
                i as int,
                size_lba,
                alignment,
            ),
        decreases sections@.len() - i,
    {
        let (starting_lba, length) = sections[i];
        // Get the distance between the starting LBA of this section and the next aligned LBA
        let alignment_offset_lba: u64 = match alignment {
            Some(a) => {
                proof {
                    lemma_alignment(starting_lba, a);
                }
                (a - (starting_lba % a)) % a
            },
            None => 0,
        };
        assert(alignment_offset_lba == alignment_offset(starting_lba, alignment));
        let enough = match alignment_offset_lba.checked_add(size_lba) {
            Some(need) => length >= need,
            None => false,
        };
        if enough {
            return Some(starting_lba + alignment_offset_lba);
        }
        i += 1;
    }
    None
}

} // verus!
