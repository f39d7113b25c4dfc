//! What a disk holds after its tables were written.

use crate::codec::zeros;
use crate::device::{overwritten, DiskDevice};
use crate::disk::LogicalBlockSize;
use crate::header::{
    crc32_iso_hdlc, decode_header, guarded_write_spec, header_block, header_image,
    lemma_header_round_trip, stored_view, table_checksum_spec, table_len, table_offset,
    write_header_spec, Header, HeaderError, HeaderView,
};
use crate::partition::{entry_bytes, slot_offset_spec, views, Partition, PartitionView};
use crate::GptError;
use vstd::prelude::*;

verus! {

/// The byte offset of slot `i` of the partition array of `h`.
pub open spec fn slot_at(h: HeaderView, lb_size: LogicalBlockSize, i: int) -> int {
    h.part_start * lb_size.bytes() + i * h.part_size
}

/// The device after the entry `e` was written to slot `i`: to the array of
/// the primary header `p`, and to the array of the backup header `b` where
/// there is one and its array starts elsewhere.
pub open spec fn entry_written(
    c: Seq<u8>,
    e: PartitionView,
    i: int,
    p: HeaderView,
    b: Option<HeaderView>,
    lb_size: LogicalBlockSize,
) -> Seq<u8> {
    let c1 = overwritten(c, slot_at(p, lb_size, i), entry_bytes(e, p.part_size as int));
    match b {
        Some(bh) => if bh.part_start != p.part_start {
            overwritten(c1, slot_at(bh, lb_size, i), entry_bytes(e, bh.part_size as int))
        } else {
            c1
        },
        None => c1,
    }
}

/// The device after the first `n` of `entries` were written, one after the
/// other, to the slots from 0 on.
pub open spec fn entries_written(
    c: Seq<u8>,
    entries: Seq<PartitionView>,
    n: int,
    p: HeaderView,
    b: Option<HeaderView>,
    lb_size: LogicalBlockSize,
) -> Seq<u8>
    decreases n,
{
    if n <= 0 {
        c
    } else {
        entry_written(
            entries_written(c, entries, n - 1, p, b, lb_size),
            entries[n - 1],
            n - 1,
            p,
            b,
            lb_size,
        )
    }
}

/// The device after the slots of the array of `h` from slot `n` on were
/// filled with zeros.
pub open spec fn rest_zeroed(c: Seq<u8>, n: int, h: HeaderView, lb_size: LogicalBlockSize) -> Seq<
    u8,
> {
    overwritten(c, slot_at(h, lb_size, n), zeros(((h.num_parts - n) * h.part_size) as nat))
}

/// The device after the partition arrays were written: the entries in their
/// order, then zeros in the slots that are left, first of the primary array
/// and then of the backup array.
#[verifier::opaque]
pub open spec fn arrays_written(
    c: Seq<u8>,
    entries: Seq<PartitionView>,
    p: HeaderView,
    b: Option<HeaderView>,
    lb_size: LogicalBlockSize,
) -> Seq<u8> {
    let n = entries.len() as int;
    let c1 = entries_written(c, entries, n, p, b, lb_size);
    let c2 = rest_zeroed(c1, n, p, lb_size);
    match b {
        Some(bh) => rest_zeroed(c2, n, bh, lb_size),
        None => c2,
    }
}

/// The device after the headers were written: the backup where there is
/// one, and then the primary. Each stores the checksum of the array that it
/// points at, as the device holds it when the header is written. A header
/// that does not lie on its side of the other is not written, nor one that
/// the device has no room for.
#[verifier::opaque]
pub open spec fn headers_written(
    c: Seq<u8>,
    p: HeaderView,
    b: Option<HeaderView>,
    lb_size: LogicalBlockSize,
) -> Result<Seq<u8>, HeaderError> {
    let c1 = match b {
        Some(bh) => guarded_write_spec(c, bh, bh.current_lba > bh.backup_lba, lb_size),
        None => Ok(c),
    };
    match c1 {
        Err(e) => Err(e),
        Ok(c2) => guarded_write_spec(c2, p, p.current_lba < p.backup_lba, lb_size),
    }
}

/// The device after a table was written: the arrays, then the headers.
pub open spec fn written_image(
    c: Seq<u8>,
    entries: Seq<PartitionView>,
    p: HeaderView,
    b: Option<HeaderView>,
    lb_size: LogicalBlockSize,
) -> Result<Seq<u8>, HeaderError> {
    headers_written(arrays_written(c, entries, p, b, lb_size), p, b, lb_size)
}

/// Whether the `len` bytes from `at` on and the `other_len` bytes from
/// `other` on have no byte in common.
pub open spec fn apart(at: int, len: int, other: int, other_len: int) -> bool {
    at + len <= other || other + other_len <= at
}

/// A write changes no byte outside the bytes it covers.
pub proof fn lemma_overwritten_elsewhere(before: Seq<u8>, at: int, data: Seq<u8>, i: int)
    requires
        0 <= at,
        0 <= i < before.len(),
        !(at <= i < at + data.len()),
    ensures
        i < overwritten(before, at, data).len(),
        overwritten(before, at, data)[i] == before[i],
{
}

/// A byte that is zero stays zero where zeros are written.
pub proof fn lemma_zeros_keep_zero(before: Seq<u8>, at: int, n: nat, i: int)
    requires
        0 <= at,
        0 <= i < before.len(),
        before[i] == 0,
    ensures
        i < overwritten(before, at, zeros(n)).len(),
        overwritten(before, at, zeros(n))[i] == 0,
{
}

/// The header that was written names the array on the device: where the
/// block of the header and the partition array have no byte in common, the
/// header that reads back from the block stores the checksum of the array
/// as the device holds it, and the fields that were written.
pub proof fn lemma_written_header_binds_table(
    contents: Seq<u8>,
    h: HeaderView,
    lba: u64,
    lb_size: LogicalBlockSize,
)
    requires
        write_header_spec(contents, h, lba, lb_size) is Ok,
        table_offset(h, lb_size) + table_len(h) <= contents.len(),
        apart(
            lba * lb_size.bytes(),
            lb_size.bytes(),
            table_offset(h, lb_size),
            table_len(h),
        ),
    ensures
        ({
            let after = write_header_spec(contents, h, lba, lb_size)->Ok_0;
            let at = lba * lb_size.bytes();
            let table = after.subrange(
                table_offset(h, lb_size),
                table_offset(h, lb_size) + table_len(h),
            );
            &&& at + lb_size.bytes() <= after.len()
            &&& decode_header(after.subrange(at, at + 92)) == Ok::<HeaderView, HeaderError>(
                stored_view(h, crc32_iso_hdlc(table)),
            )
            &&& stored_view(h, crc32_iso_hdlc(table)).crc32_parts == crc32_iso_hdlc(table)
            &&& after.subrange(at + 92, at + lb_size.bytes()) == zeros(
                (lb_size.bytes() - 92) as nat,
            )
        }),
{
    let at = lba * lb_size.bytes();
    let start = table_offset(h, lb_size);
    let len = table_len(h);
    let before_table = contents.subrange(start, start + len);
    let parts_crc = crc32_iso_hdlc(before_table);
    assert(table_checksum_spec(contents, h, lb_size) == Ok::<u32, HeaderError>(parts_crc));
    let block = header_block(h, parts_crc, lb_size);
    let after = overwritten(contents, at, block);
    crate::header::lemma_header_bytes_layout(
        h,
        crc32_iso_hdlc(crate::header::header_bytes(h, 0, parts_crc)),
        parts_crc,
    );
    assert(block.len() == lb_size.bytes());
    assert(after.subrange(at, at + 92) =~= header_image(h, parts_crc));
    assert(after.subrange(start, start + len) =~= before_table);
    assert(after.subrange(at + 92, at + lb_size.bytes()) =~= zeros((lb_size.bytes() - 92) as nat));
    lemma_header_round_trip(h, parts_crc);
}

/// Whether the blocks of the two headers and the partition arrays lie
/// apart: neither header block shares a byte with the array of its header,
/// and the block of the primary shares none with the block or the array
/// of the backup.
pub open spec fn headers_lie_apart(p: HeaderView, b: HeaderView, lb_size: LogicalBlockSize) -> bool {
    let bs = lb_size.bytes();
    &&& apart(p.current_lba * bs, bs, table_offset(p, lb_size), table_len(p))
    &&& apart(b.current_lba * bs, bs, table_offset(b, lb_size), table_len(b))
    &&& apart(p.current_lba * bs, bs, table_offset(b, lb_size), table_len(b))
    &&& apart(p.current_lba * bs, bs, b.current_lba * bs, bs)
}

/// The partition array that `h` points at, as `contents` holds it.
pub open spec fn table_of(contents: Seq<u8>, h: HeaderView, lb_size: LogicalBlockSize) -> Seq<u8> {
    contents.subrange(table_offset(h, lb_size), table_offset(h, lb_size) + table_len(h))
}

/// Writing both headers is writing the backup and then the primary.
proof fn lemma_headers_written_in_turn(
    c: Seq<u8>,
    p: HeaderView,
    b: HeaderView,
    lb_size: LogicalBlockSize,
)
    requires
        headers_written(c, p, Some(b), lb_size) is Ok,
    ensures
        write_header_spec(c, b, b.current_lba, lb_size) is Ok,
        headers_written(c, p, Some(b), lb_size) == write_header_spec(
            write_header_spec(c, b, b.current_lba, lb_size)->Ok_0,
            p,
            p.current_lba,
            lb_size,
        ),
{
    reveal(headers_written);
}

/// Writing a header keeps the bytes that lie apart from its block, and the
/// length of the device.
proof fn lemma_header_write_keeps(
    c: Seq<u8>,
    h: HeaderView,
    lba: u64,
    lb_size: LogicalBlockSize,
    at: int,
    len: int,
)
    requires
        write_header_spec(c, h, lba, lb_size) is Ok,
        0 <= at,
        0 <= len,
        at + len <= c.len(),
        apart(lba * lb_size.bytes(), lb_size.bytes(), at, len),
    ensures
        write_header_spec(c, h, lba, lb_size)->Ok_0.len() == c.len(),
        write_header_spec(c, h, lba, lb_size)->Ok_0.subrange(at, at + len) == c.subrange(
            at,
            at + len,
        ),
{
    let parts_crc = table_checksum_spec(c, h, lb_size)->Ok_0;
    let block = header_block(h, parts_crc, lb_size);
    assert(block.len() == lb_size.bytes()) by {
        crate::header::lemma_header_bytes_layout(
            h,
            crc32_iso_hdlc(crate::header::header_bytes(h, 0, parts_crc)),
            parts_crc,
        );
    }
    let after = overwritten(c, lba * lb_size.bytes(), block);
    assert(after.subrange(at, at + len) =~= c.subrange(at, at + len));
}

/// A disk that was written reads back: where a table was written with both
/// headers and their blocks lie apart from the arrays and from each other,
/// each header is read from its block with the fields that were written,
/// and the checksum it stores is that of the partition array it points at,
/// as the device holds it after the write.
pub proof fn lemma_written_image_reads_back(
    c: Seq<u8>,
    entries: Seq<PartitionView>,
    p: HeaderView,
    b: HeaderView,
    lb_size: LogicalBlockSize,
)
    requires
        written_image(c, entries, p, Some(b), lb_size) is Ok,
        headers_lie_apart(p, b, lb_size),
    ensures
        ({
            let image = written_image(c, entries, p, Some(b), lb_size)->Ok_0;
            let bs = lb_size.bytes();
            let primary_table = table_of(image, p, lb_size);
            let backup_table = table_of(image, b, lb_size);
            &&& crate::header::header_at(image, p.current_lba * bs) == Ok::<
                HeaderView,
                HeaderError,
            >(stored_view(p, crc32_iso_hdlc(primary_table)))
            &&& crate::header::header_at(image, b.current_lba * bs) == Ok::<
                HeaderView,
                HeaderError,
            >(stored_view(b, crc32_iso_hdlc(backup_table)))
            &&& table_checksum_spec(image, p, lb_size) == Ok::<u32, HeaderError>(
                crc32_iso_hdlc(primary_table),
            )
            &&& table_checksum_spec(image, b, lb_size) == Ok::<u32, HeaderError>(
                crc32_iso_hdlc(backup_table),
            )
        }),
{
    let bs = lb_size.bytes();
    let a0 = arrays_written(c, entries, p, Some(b), lb_size);
    lemma_headers_written_in_turn(a0, p, b, lb_size);
    let c2 = write_header_spec(a0, b, b.current_lba, lb_size)->Ok_0;
    let image = write_header_spec(c2, p, p.current_lba, lb_size)->Ok_0;
    let p_at = p.current_lba * bs;
    let b_at = b.current_lba * bs;
    let pt = table_offset(p, lb_size);
    let bt = table_offset(b, lb_size);
    assert(bt + table_len(b) <= a0.len() && 0 <= bt && b_at + bs <= a0.len() && 0 <= b_at
        && table_checksum_spec(a0, b, lb_size) is Ok);
    assert(pt + table_len(p) <= c2.len() && 0 <= pt && p_at + bs <= c2.len() && 0 <= p_at
        && table_checksum_spec(c2, p, lb_size) is Ok);
    assert(c2.len() == a0.len() && c2.subrange(bt, bt + table_len(b)) == a0.subrange(
        bt,
        bt + table_len(b),
    )) by {
        lemma_header_write_keeps(a0, b, b.current_lba, lb_size, bt, table_len(b));
    }
    assert(image.len() == c2.len() && image.subrange(bt, bt + table_len(b)) == c2.subrange(
        bt,
        bt + table_len(b),
    )) by {
        lemma_header_write_keeps(c2, p, p.current_lba, lb_size, bt, table_len(b));
    }
    assert(image.subrange(b_at, b_at + 92) == c2.subrange(b_at, b_at + 92)) by {
        lemma_header_write_keeps(c2, p, p.current_lba, lb_size, b_at, 92);
    }
    assert(crate::header::header_at(c2, b_at) == Ok::<HeaderView, HeaderError>(
        stored_view(b, crc32_iso_hdlc(table_of(c2, b, lb_size))),
    )) by {
        lemma_written_header_binds_table(a0, b, b.current_lba, lb_size);
    }
    assert(crate::header::header_at(image, p_at) == Ok::<HeaderView, HeaderError>(
        stored_view(p, crc32_iso_hdlc(table_of(image, p, lb_size))),
    )) by {
        lemma_written_header_binds_table(c2, p, p.current_lba, lb_size);
    }
}

/// Whether byte `i` lies in the block that holds the header `h`.
pub open spec fn in_header_block(h: HeaderView, lb_size: LogicalBlockSize, i: int) -> bool {
    h.current_lba * lb_size.bytes() <= i < h.current_lba * lb_size.bytes() + lb_size.bytes()
}

/// Whether byte `i` lies in no block that holds a header.
pub open spec fn outside_headers(
    p: HeaderView,
    b: Option<HeaderView>,
    lb_size: LogicalBlockSize,
    i: int,
) -> bool {
    &&& !in_header_block(p, lb_size, i)
    &&& b matches Some(bh) ==> !in_header_block(bh, lb_size, i)
}

/// Writing the headers changes no byte outside their blocks.
proof fn lemma_headers_written_elsewhere(
    c: Seq<u8>,
    p: HeaderView,
    b: Option<HeaderView>,
    lb_size: LogicalBlockSize,
    i: int,
)
    requires
        headers_written(c, p, b, lb_size) is Ok,
        0 <= i < c.len(),
        outside_headers(p, b, lb_size, i),
    ensures
        i < headers_written(c, p, b, lb_size)->Ok_0.len(),
        headers_written(c, p, b, lb_size)->Ok_0[i] == c[i],
{
    reveal(headers_written);
    let c1 = match b {
        Some(bh) => write_header_spec(c, bh, bh.current_lba, lb_size),
        None => Ok(c),
    };
    let c2 = c1->Ok_0;
    match b {
        Some(bh) => {
            let crc = table_checksum_spec(c, bh, lb_size)->Ok_0;
            crate::header::lemma_header_bytes_layout(
                bh,
                crc32_iso_hdlc(crate::header::header_bytes(bh, 0, crc)),
                crc,
            );
            lemma_overwritten_elsewhere(
                c,
                bh.current_lba * lb_size.bytes(),
                header_block(bh, crc, lb_size),
                i,
            );
        },
        None => {},
    }
    let crc = table_checksum_spec(c2, p, lb_size)->Ok_0;
    crate::header::lemma_header_bytes_layout(
        p,
        crc32_iso_hdlc(crate::header::header_bytes(p, 0, crc)),
        crc,
    );
    lemma_overwritten_elsewhere(
        c2,
        p.current_lba * lb_size.bytes(),
        header_block(p, crc, lb_size),
        i,
    );
}

/// The slots of the primary array that no partition takes hold zeros after
/// the table was written: every byte from the end of the last used slot to
/// the end of the array is zero, unless it lies in the block of a header.
pub proof fn lemma_free_primary_slots_zeroed(
    c: Seq<u8>,
    entries: Seq<PartitionView>,
    p: HeaderView,
    b: Option<HeaderView>,
    lb_size: LogicalBlockSize,
    i: int,
)
    requires
        written_image(c, entries, p, b, lb_size) is Ok,
        entries.len() <= p.num_parts,
        slot_at(p, lb_size, entries.len() as int) <= i < slot_at(
            p,
            lb_size,
            p.num_parts as int,
        ),
        outside_headers(p, b, lb_size, i),
    ensures
        i < written_image(c, entries, p, b, lb_size)->Ok_0.len(),
        written_image(c, entries, p, b, lb_size)->Ok_0[i] == 0,
{
    reveal(arrays_written);
    let n = entries.len() as int;
    let c1 = entries_written(c, entries, n, p, b, lb_size);
    let c2 = rest_zeroed(c1, n, p, lb_size);
    let count = ((p.num_parts - n) * p.part_size) as nat;
    assert(slot_at(p, lb_size, p.num_parts as int) - slot_at(p, lb_size, n) == (p.num_parts - n)
        * p.part_size) by (nonlinear_arith);
    assert((p.num_parts - n) * p.part_size >= 0) by (nonlinear_arith)
        requires
            p.num_parts - n >= 0,
            p.part_size >= 0,
    ;
    assert(slot_at(p, lb_size, n) >= 0) by (nonlinear_arith)
        requires
            n >= 0,
            p.part_start >= 0,
            p.part_size >= 0,
            lb_size.bytes() > 0,
            slot_at(p, lb_size, n) == p.part_start * lb_size.bytes() + n * p.part_size,
    ;
    assert(i < c2.len() && c2[i] == 0);
    let c3 = match b {
        Some(bh) => rest_zeroed(c2, n, bh, lb_size),
        None => c2,
    };
    match b {
        Some(bh) => {
            assert(slot_at(bh, lb_size, n) >= 0) by (nonlinear_arith)
                requires
                    n >= 0,
                    bh.part_start >= 0,
                    bh.part_size >= 0,
                    lb_size.bytes() > 0,
                    slot_at(bh, lb_size, n) == bh.part_start * lb_size.bytes() + n * bh.part_size,
            ;
            lemma_zeros_keep_zero(
                c2,
                slot_at(bh, lb_size, n),
                ((bh.num_parts - n) * bh.part_size) as nat,
                i,
            );
        },
        None => {},
    }
    assert(c3 == arrays_written(c, entries, p, b, lb_size));
    lemma_headers_written_elsewhere(c3, p, b, lb_size, i);
}

/// The slots of the backup array that no partition takes hold zeros after
/// the table was written: every byte from the end of the last used slot to
/// the end of the array is zero, unless it lies in the block of a header.
pub proof fn lemma_free_backup_slots_zeroed(
    c: Seq<u8>,
    entries: Seq<PartitionView>,
    p: HeaderView,
    bh: HeaderView,
    lb_size: LogicalBlockSize,
    i: int,
)
    requires
        written_image(c, entries, p, Some(bh), lb_size) is Ok,
        entries.len() <= bh.num_parts,
        slot_at(bh, lb_size, entries.len() as int) <= i < slot_at(
            bh,
            lb_size,
            bh.num_parts as int,
        ),
        outside_headers(p, Some(bh), lb_size, i),
    ensures
        i < written_image(c, entries, p, Some(bh), lb_size)->Ok_0.len(),
        written_image(c, entries, p, Some(bh), lb_size)->Ok_0[i] == 0,
{
    reveal(arrays_written);
    let b = Some(bh);
    let n = entries.len() as int;
    let c1 = entries_written(c, entries, n, p, b, lb_size);
    let c2 = rest_zeroed(c1, n, p, lb_size);
    let c3 = rest_zeroed(c2, n, bh, lb_size);
    assert(slot_at(bh, lb_size, bh.num_parts as int) - slot_at(bh, lb_size, n) == (bh.num_parts
        - n) * bh.part_size) by (nonlinear_arith);
    assert((bh.num_parts - n) * bh.part_size >= 0) by (nonlinear_arith)
        requires
            bh.num_parts - n >= 0,
            bh.part_size >= 0,
    ;
    assert(slot_at(bh, lb_size, n) >= 0) by (nonlinear_arith)
        requires
            n >= 0,
            bh.part_start >= 0,
            bh.part_size >= 0,
            lb_size.bytes() > 0,
            slot_at(bh, lb_size, n) == bh.part_start * lb_size.bytes() + n * bh.part_size,
    ;
    assert(i < c3.len() && c3[i] == 0);
    assert(c3 == arrays_written(c, entries, p, b, lb_size));
    lemma_headers_written_elsewhere(c3, p, b, lb_size, i);
}

/// Whether the blocks of the two headers and the two partition arrays lie
/// apart from each other, all four.
pub open spec fn all_lie_apart(p: HeaderView, b: HeaderView, lb_size: LogicalBlockSize) -> bool {
    let bs = lb_size.bytes();
    &&& headers_lie_apart(p, b, lb_size)
    &&& apart(b.current_lba * bs, bs, table_offset(p, lb_size), table_len(p))
    &&& apart(table_offset(p, lb_size), table_len(p), table_offset(b, lb_size), table_len(b))
}

/// The 128 bytes of slot `k` of the array that starts at byte `start`.
pub open spec fn slot_bytes(c: Seq<u8>, start: int, k: int) -> Seq<u8> {
    c.subrange(start + 128 * k, start + 128 * k + 128)
}

/// A write keeps the bytes that lie apart from it.
proof fn lemma_overwritten_keeps(before: Seq<u8>, at: int, data: Seq<u8>, o: int, n: int)
    requires
        0 <= at,
        0 <= o,
        0 <= n,
        o + n <= before.len(),
        apart(at, data.len() as int, o, n),
    ensures
        overwritten(before, at, data).len() >= before.len(),
        overwritten(before, at, data).subrange(o, o + n) == before.subrange(o, o + n),
{
    assert(overwritten(before, at, data).subrange(o, o + n) =~= before.subrange(o, o + n));
}

/// A write leaves what was written where it was written.
proof fn lemma_overwritten_holds(before: Seq<u8>, at: int, data: Seq<u8>)
    requires
        0 <= at,
    ensures
        overwritten(before, at, data).len() >= before.len(),
        overwritten(before, at, data).len() >= at + data.len(),
        overwritten(before, at, data).subrange(at, at + data.len()) == data,
{
    assert(overwritten(before, at, data).subrange(at, at + data.len()) =~= data);
}

/// After the first `n` entries were written, the first `n` slots of the
/// primary array hold them.
proof fn lemma_entries_written_hold(
    c: Seq<u8>,
    entries: Seq<PartitionView>,
    n: int,
    p: HeaderView,
    b: HeaderView,
    lb_size: LogicalBlockSize,
)
    requires
        p.part_size == 128,
        b.part_size == 128,
        0 <= n <= entries.len(),
        n <= p.num_parts,
        n <= b.num_parts,
        apart(table_offset(p, lb_size), table_len(p), table_offset(b, lb_size), table_len(b)),
    ensures
        forall|k: int|
            0 <= k < n ==> table_offset(p, lb_size) + 128 * k + 128 <= entries_written(
                c,
                entries,
                n,
                p,
                Some(b),
                lb_size,
            ).len() && #[trigger] slot_bytes(
                entries_written(c, entries, n, p, Some(b), lb_size),
                table_offset(p, lb_size),
                k,
            ) == entry_bytes(entries[k], 128),
    decreases n,
{
    if n > 0 {
        lemma_entries_written_hold(c, entries, n - 1, p, b, lb_size);
        let pt = table_offset(p, lb_size);
        let bt = table_offset(b, lb_size);
        let before = entries_written(c, entries, n - 1, p, Some(b), lb_size);
        let e = entries[n - 1];
        let bytes = entry_bytes(e, 128);
        assert(bytes.len() == 128) by {
            crate::partition::lemma_entry_round_trip(e);
        }
        let sp = slot_at(p, lb_size, n - 1);
        let sb = slot_at(b, lb_size, n - 1);
        assert(sp == pt + 128 * (n - 1));
        assert(sb == bt + 128 * (n - 1));
        assert(table_len(p) == 128 * p.num_parts);
        assert(table_len(b) == 128 * b.num_parts);
        assert(pt >= 0 && bt >= 0);
        let c1 = overwritten(before, sp, bytes);
        lemma_overwritten_holds(before, sp, bytes);
        assert(b.part_start != p.part_start);
        let c2 = overwritten(c1, sb, bytes);
        assert(entries_written(c, entries, n, p, Some(b), lb_size) == c2);
        lemma_overwritten_keeps(c1, sb, bytes, sp, 128);
        assert forall|k: int| 0 <= k < n implies pt + 128 * k + 128 <= c2.len()
            && #[trigger] slot_bytes(c2, pt, k) == entry_bytes(entries[k], 128) by {
            if k < n - 1 {
                assert(slot_bytes(before, pt, k) == entry_bytes(entries[k], 128));
                lemma_overwritten_keeps(before, sp, bytes, pt + 128 * k, 128);
                lemma_overwritten_keeps(c1, sb, bytes, pt + 128 * k, 128);
            }
        }
    }
}

/// A partition in use is not stored as zeros.
proof fn lemma_used_entry_is_not_zero(e: PartitionView)
    requires
        e.is_used(),
    ensures
        entry_bytes(e, 128) != zeros(128),
{
    crate::partition::lemma_entry_round_trip(e);
    let z = zeros(128);
    if entry_bytes(e, 128) == z {
        let w = z.subrange(0, 16);
        assert(w.subrange(0, 4) =~= zeros(4));
        assert(w.subrange(4, 6) =~= zeros(2));
        assert(w.subrange(6, 8) =~= zeros(2));
        assert(w.subrange(8, 16) =~= zeros(8));
        assert(crate::guid::Guid::from_wire(w) == crate::guid::Guid::spec_nil());
        assert(false);
    }
}

/// The partitions that were written, by the indices at which they read
/// back: the first at 1, the second at 2, and so on.
pub open spec fn in_order_from_one(entries: Seq<PartitionView>) -> Map<u32, PartitionView> {
    Map::new(|k: u32| 1 <= k <= entries.len(), |k: u32| entries[k - 1])
}

/// Whether a partition is stored whole: it is in use, and its name has no
/// more than 36 code units and does not hold the character U+0000.
pub open spec fn stored_whole(e: PartitionView) -> bool {
    &&& e.is_used()
    &&& crate::partition::utf16_encoding(e.name).len() <= 36
    &&& forall|i: int| 0 <= i < e.name.len() ==> e.name[i] != '\0'
}

/// After the arrays were written, the first slots of the primary array
/// hold the entries.
proof fn lemma_arrays_hold_entries(
    c: Seq<u8>,
    entries: Seq<PartitionView>,
    p: HeaderView,
    b: HeaderView,
    lb_size: LogicalBlockSize,
)
    requires
        p.part_size == 128,
        b.part_size == 128,
        entries.len() <= p.num_parts,
        entries.len() <= b.num_parts,
        apart(table_offset(p, lb_size), table_len(p), table_offset(b, lb_size), table_len(b)),
    ensures
        forall|k: int|
            0 <= k < entries.len() ==> table_offset(p, lb_size) + 128 * k + 128 <= arrays_written(
                c,
                entries,
                p,
                Some(b),
                lb_size,
            ).len() && #[trigger] slot_bytes(
                arrays_written(c, entries, p, Some(b), lb_size),
                table_offset(p, lb_size),
                k,
            ) == entry_bytes(entries[k], 128),
        table_offset(p, lb_size) + 128 * p.num_parts <= arrays_written(
            c,
            entries,
            p,
            Some(b),
            lb_size,
        ).len(),
        arrays_written(c, entries, p, Some(b), lb_size).subrange(
            table_offset(p, lb_size) + 128 * entries.len(),
            table_offset(p, lb_size) + 128 * p.num_parts,
        ) == zeros((128 * (p.num_parts - entries.len())) as nat),
{
    reveal(arrays_written);
    let n = entries.len() as int;
    let pt = table_offset(p, lb_size);
    let bt = table_offset(b, lb_size);
    let written = entries_written(c, entries, n, p, Some(b), lb_size);
    let zeroed = rest_zeroed(written, n, p, lb_size);
    let arrays = rest_zeroed(zeroed, n, b, lb_size);
    assert(table_len(p) == 128 * p.num_parts);
    assert(table_len(b) == 128 * b.num_parts);
    assert(pt >= 0 && bt >= 0);
    assert(slot_at(p, lb_size, n) == pt + 128 * n);
    assert(slot_at(b, lb_size, n) == bt + 128 * n);
    assert((p.num_parts - n) * p.part_size == 128 * (p.num_parts - n));
    assert((b.num_parts - n) * b.part_size == 128 * (b.num_parts - n));
    lemma_entries_written_hold(c, entries, n, p, b, lb_size);
    assert forall|k: int| 0 <= k < n implies pt + 128 * k + 128 <= arrays.len()
        && #[trigger] slot_bytes(arrays, pt, k) == entry_bytes(entries[k], 128) by {
        let at = pt + 128 * k;
        assert(slot_bytes(written, pt, k) == entry_bytes(entries[k], 128));
        lemma_overwritten_keeps(
            written,
            pt + 128 * n,
            zeros((128 * (p.num_parts - n)) as nat),
            at,
            128,
        );
        lemma_overwritten_keeps(
            zeroed,
            bt + 128 * n,
            zeros((128 * (b.num_parts - n)) as nat),
            at,
            128,
        );
    }
    let blank = zeros((128 * (p.num_parts - n)) as nat);
    lemma_overwritten_holds(written, pt + 128 * n, blank);
    lemma_overwritten_keeps(
        zeroed,
        bt + 128 * n,
        zeros((128 * (b.num_parts - n)) as nat),
        pt + 128 * n,
        128 * (p.num_parts - n),
    );
}

/// Writing both headers keeps the bytes that lie apart from their blocks.
proof fn lemma_headers_keep(
    c: Seq<u8>,
    p: HeaderView,
    b: HeaderView,
    lb_size: LogicalBlockSize,
    at: int,
    len: int,
)
    requires
        headers_written(c, p, Some(b), lb_size) is Ok,
        0 <= at,
        0 <= len,
        at + len <= c.len(),
        apart(p.current_lba * lb_size.bytes(), lb_size.bytes(), at, len),
        apart(b.current_lba * lb_size.bytes(), lb_size.bytes(), at, len),
    ensures
        headers_written(c, p, Some(b), lb_size)->Ok_0.len() == c.len(),
        headers_written(c, p, Some(b), lb_size)->Ok_0.subrange(at, at + len) == c.subrange(
            at,
            at + len,
        ),
{
    lemma_headers_written_in_turn(c, p, b, lb_size);
    let c2 = write_header_spec(c, b, b.current_lba, lb_size)->Ok_0;
    lemma_header_write_keeps(c, b, b.current_lba, lb_size, at, len);
    lemma_header_write_keeps(c2, p, p.current_lba, lb_size, at, len);
}

/// The partitions that slots decode to: where the first slots of a table
/// hold entries that are stored whole and the others hold zeros, the table
/// decodes to the entries in their order, from index 1 on.
proof fn lemma_table_decodes(table: Seq<u8>, entries: Seq<PartitionView>, num_parts: u32)
    requires
        table.len() == 128 * num_parts,
        entries.len() <= num_parts,
        forall|k: int| 0 <= k < entries.len() ==> stored_whole(#[trigger] entries[k]),
        forall|k: int|
            0 <= k < entries.len() ==> #[trigger] slot_bytes(table, 0, k) == entry_bytes(
                entries[k],
                128,
            ),
        table.subrange(128 * (entries.len() as int), 128 * num_parts) == zeros(
            (128 * (num_parts - entries.len())) as nat,
        ),
    ensures
        crate::partition::decode_table(table, num_parts as int) == in_order_from_one(entries),
{
    let n = entries.len() as int;
    let expected = in_order_from_one(entries);
    let decoded = crate::partition::decode_table(table, num_parts as int);
    let blank = table.subrange(128 * n, 128 * num_parts);
    assert forall|k: u32| 1 <= k <= num_parts implies crate::partition::key_slot(table, 0, k)
        == slot_bytes(table, 0, k - 1) by {
        assert(crate::partition::key_slot(table, 0, k) =~= slot_bytes(table, 0, k - 1));
    }
    assert forall|k: u32| #[trigger] decoded.contains_key(k) <==> expected.contains_key(k) by {
        if 1 <= k <= num_parts {
            if k <= n {
                assert(stored_whole(entries[k - 1]));
                lemma_used_entry_is_not_zero(entries[k - 1]);
                assert(slot_bytes(table, 0, k - 1) == entry_bytes(entries[k - 1], 128));
            } else {
                assert(slot_bytes(table, 0, k - 1) =~= blank.subrange(
                    128 * (k - 1 - n),
                    128 * (k - 1 - n) + 128,
                ));
                assert(slot_bytes(table, 0, k - 1) =~= zeros(128));
            }
        }
    }
    assert forall|k: u32| #[trigger] expected.contains_key(k) implies decoded[k] == expected[k] by {
        assert(stored_whole(entries[k - 1]));
        assert(slot_bytes(table, 0, k - 1) == entry_bytes(entries[k - 1], 128));
        crate::partition::lemma_entry_reads_back(entries[k - 1]);
    }
    assert(decoded =~= expected);
}

/// A part of a part of a sequence is a part of the sequence.
proof fn lemma_part_of_part(s: Seq<u8>, at: int, len: int, from: int, to: int)
    requires
        0 <= at,
        at + len <= s.len(),
        0 <= from <= to <= len,
    ensures
        s.subrange(at, at + len).subrange(from, to) == s.subrange(at + from, at + to),
{
    assert(s.subrange(at, at + len).subrange(from, to) =~= s.subrange(at + from, at + to));
}

/// The primary array of a table that was written: its first slots hold the
/// entries and the others hold zeros.
proof fn lemma_written_table(
    c: Seq<u8>,
    entries: Seq<PartitionView>,
    p: HeaderView,
    b: HeaderView,
    lb_size: LogicalBlockSize,
)
    requires
        written_image(c, entries, p, Some(b), lb_size) is Ok,
        all_lie_apart(p, b, lb_size),
        p.part_size == 128,
        b.part_size == 128,
        entries.len() <= p.num_parts,
        entries.len() <= b.num_parts,
    ensures
        ({
            let image = written_image(c, entries, p, Some(b), lb_size)->Ok_0;
            let table = table_of(image, p, lb_size);
            &&& table.len() == 128 * p.num_parts
            &&& forall|k: int|
                0 <= k < entries.len() ==> #[trigger] slot_bytes(table, 0, k) == entry_bytes(
                    entries[k],
                    128,
                )
            &&& table.subrange(128 * (entries.len() as int), 128 * p.num_parts) == zeros(
                (128 * (p.num_parts - entries.len())) as nat,
            )
        }),
{
    let n = entries.len() as int;
    let pt = table_offset(p, lb_size);
    let len = 128 * p.num_parts;
    let arrays = arrays_written(c, entries, p, Some(b), lb_size);
    let image = headers_written(arrays, p, Some(b), lb_size)->Ok_0;
    let table = image.subrange(pt, pt + len);
    assert(table_len(p) == len);
    assert(pt >= 0);
    lemma_arrays_hold_entries(c, entries, p, b, lb_size);
    assert(table == arrays.subrange(pt, pt + len) && image.len() == arrays.len()) by {
        lemma_headers_keep(arrays, p, b, lb_size, pt, len);
    }
    assert forall|k: int| 0 <= k < n implies #[trigger] slot_bytes(table, 0, k) == entry_bytes(
        entries[k],
        128,
    ) by {
        assert(slot_bytes(arrays, pt, k) == entry_bytes(entries[k], 128));
        lemma_part_of_part(arrays, pt, len, 128 * k, 128 * k + 128);
    }
    lemma_part_of_part(arrays, pt, len, 128 * n, len);
}

/// A table that was written reads back: where the entries are of 128 bytes
/// and stored whole, and the header blocks and the arrays lie apart, the
/// partitions are read through the primary header as they were written, in
/// their order from index 1 on, and the checksum of the array is the one
/// that the header stores.
pub proof fn lemma_written_table_reads_back(
    c: Seq<u8>,
    entries: Seq<PartitionView>,
    p: HeaderView,
    b: HeaderView,
    lb_size: LogicalBlockSize,
)
    requires
        written_image(c, entries, p, Some(b), lb_size) is Ok,
        all_lie_apart(p, b, lb_size),
        p.part_size == 128,
        b.part_size == 128,
        entries.len() <= p.num_parts,
        entries.len() <= b.num_parts,
        forall|k: int| 0 <= k < entries.len() ==> stored_whole(#[trigger] entries[k]),
    ensures
        ({
            let image = written_image(c, entries, p, Some(b), lb_size)->Ok_0;
            let read = crate::header::header_at(image, p.current_lba * lb_size.bytes());
            &&& read is Ok
            &&& crate::partition::read_partitions_spec(image, read->Ok_0, lb_size) == Ok::<
                Map<u32, PartitionView>,
                GptError,
            >(in_order_from_one(entries))
        }),
{
    let image = written_image(c, entries, p, Some(b), lb_size)->Ok_0;
    let table = table_of(image, p, lb_size);
    let read = stored_view(p, crc32_iso_hdlc(table));
    lemma_written_image_reads_back(c, entries, p, b, lb_size);
    lemma_written_table(c, entries, p, b, lb_size);
    lemma_table_decodes(table, entries, p.num_parts);
    assert(table_len(p) == 128 * p.num_parts);
    assert(read.part_start == p.part_start && read.num_parts == p.num_parts);
    assert(read.crc32_parts == crc32_iso_hdlc(table));
}

/// The plain values of a header, where there is one.
pub open spec fn optional_view(h: Option<Header>) -> Option<HeaderView> {
    match h {
        Some(x) => Some(x@),
        None => None,
    }
}

/// Whether an error comes from the device or from an offset that does not
/// fit.
pub open spec fn is_write_failure(e: GptError) -> bool {
    e is Io || e is Overflow
}

/// Whether the device holding `c` has room for slot `i` of the array of `h`.
pub open spec fn slot_fits(c: Seq<u8>, h: HeaderView, lb_size: LogicalBlockSize, i: int) -> bool {
    &&& 0 <= i <= u64::MAX
    &&& slot_offset_spec(i as u64, h.part_start, lb_size, h.part_size) is Ok
    &&& slot_at(h, lb_size, i) + h.part_size <= c.len()
}

/// Whether the device holding `c` has room for an entry in slot `i`, of
/// the primary array and of the backup array where one is written.
#[verifier::opaque]
pub open spec fn entry_fits(
    c: Seq<u8>,
    i: int,
    p: HeaderView,
    b: Option<HeaderView>,
    lb_size: LogicalBlockSize,
) -> bool {
    &&& slot_fits(c, p, lb_size, i)
    &&& b matches Some(bh) ==> bh.part_start != p.part_start ==> slot_fits(c, bh, lb_size, i)
}

/// Whether the device holding `c` has room for the array of `h`, and the
/// slots from slot `n` on can be filled with zeros in one write.
pub open spec fn array_fits(c: Seq<u8>, h: HeaderView, lb_size: LogicalBlockSize, n: int) -> bool {
    &&& n <= h.num_parts
    &&& c.len() <= u64::MAX
    &&& (h.num_parts - n) * h.part_size <= usize::MAX
    &&& slot_at(h, lb_size, h.num_parts as int) <= c.len()
}

/// Whether the device holding `c` has room for the arrays to be written
/// with `n` entries.
#[verifier::opaque]
pub open spec fn arrays_fit(
    c: Seq<u8>,
    n: int,
    p: HeaderView,
    b: Option<HeaderView>,
    lb_size: LogicalBlockSize,
) -> bool {
    &&& array_fits(c, p, lb_size, n)
    &&& b matches Some(bh) ==> array_fits(c, bh, lb_size, n)
}

/// The slots of an array that fits lie on the device.
proof fn lemma_slot_in_array(c: Seq<u8>, h: HeaderView, lb_size: LogicalBlockSize, n: int, i: int)
    requires
        array_fits(c, h, lb_size, n),
        0 <= i <= h.num_parts,
    ensures
        slot_offset_spec(i as u64, h.part_start, lb_size, h.part_size) == Ok::<u64, GptError>(
            slot_at(h, lb_size, i) as u64,
        ),
        0 <= slot_at(h, lb_size, i) <= c.len(),
        i < h.num_parts ==> slot_at(h, lb_size, i) + h.part_size <= c.len(),
        slot_at(h, lb_size, i) + (h.num_parts - i) * h.part_size == slot_at(
            h,
            lb_size,
            h.num_parts as int,
        ),
{
    let size = h.part_size as int;
    let count = h.num_parts as int;
    let start = h.part_start * lb_size.bytes();
    assert(start >= 0) by (nonlinear_arith)
        requires
            start == h.part_start * lb_size.bytes(),
            h.part_start >= 0,
            lb_size.bytes() > 0,
    ;
    assert(0 <= i * size <= count * size) by (nonlinear_arith)
        requires
            0 <= i <= count,
            size >= 0,
    ;
    assert(i < count ==> (i + 1) * size <= count * size) by (nonlinear_arith)
        requires
            0 <= i <= count,
            size >= 0,
    ;
    assert((i + 1) * size == i * size + size) by (nonlinear_arith);
    assert(i * size + (count - i) * size == count * size) by (nonlinear_arith);
}

/// Where the arrays fit, every entry of theirs fits.
proof fn lemma_entry_fits(
    c0: Seq<u8>,
    c: Seq<u8>,
    n: int,
    i: int,
    p: HeaderView,
    b: Option<HeaderView>,
    lb_size: LogicalBlockSize,
)
    requires
        arrays_fit(c0, n, p, b, lb_size),
        c.len() == c0.len(),
        0 <= i < n,
    ensures
        entry_fits(c, i, p, b, lb_size),
        n <= p.num_parts,
        b matches Some(bh) ==> n <= bh.num_parts,
{
    reveal(arrays_fit);
    reveal(entry_fits);
    lemma_slot_in_array(c0, p, lb_size, n, i);
    match b {
        Some(bh) => {
            lemma_slot_in_array(c0, bh, lb_size, n, i);
        },
        None => {},
    }
}

/// The arrays fit where each of them does, on a device of the same length.
proof fn lemma_arrays_fit(
    c0: Seq<u8>,
    c1: Seq<u8>,
    c2: Seq<u8>,
    n: int,
    p: HeaderView,
    b: Option<HeaderView>,
    lb_size: LogicalBlockSize,
)
    requires
        c1.len() == c0.len(),
        c2.len() == c0.len(),
    ensures
        arrays_fit(c0, n, p, b, lb_size) <==> array_fits(c1, p, lb_size, n) && (b matches Some(bh)
            ==> array_fits(c2, bh, lb_size, n)),
{
    reveal(arrays_fit);
}

/// Writes one entry to slot `index` of the primary array, and of the backup
/// array where there is one that starts elsewhere.
fn write_entry<D: DiskDevice>(
    device: &mut D,
    part: &Partition,
    index: u64,
    primary: &Header,
    backup: &Option<Header>,
    lb_size: LogicalBlockSize,
) -> (r: Result<(), GptError>)
    ensures
        r matches Err(e) ==> is_write_failure(e),
        D::obeys_device_spec() ==> (r is Ok <==> entry_fits(
            old(device).contents(),
            index as int,
            primary@,
            optional_view(*backup),
            lb_size,
        )),
        D::obeys_device_spec() ==> (r is Ok ==> final(device).contents() == entry_written(
            old(device).contents(),
            part@,
            index as int,
            primary@,
            optional_view(*backup),
            lb_size,
        )),
        D::obeys_device_spec() ==> final(device).contents().len() == old(device).contents().len(),
{
    proof {
        reveal(entry_fits);
    }
    // Write to primary partition array
    match part.write_to_device(device, index, primary.part_start, lb_size, primary.part_size) {
        Ok(_) => {},
        Err(e) => { return Err(e); },
    }
    // IMPORTANT: must also write it to the backup header if it uses a different
    // area to store the partition array; otherwise backup header will not point
    // to an up to date partition array on disk.
    match backup {
        Some(bh) => {
            if primary.part_start != bh.part_start {
                match part.write_to_device(device, index, bh.part_start, lb_size, bh.part_size) {
                    Ok(_) => {},
                    Err(e) => { return Err(e); },
                }
            }
        },
        None => {},
    }
    Ok(())
}

/// Fills the slots of the array of `header` from slot `n` on with zeros.
fn zero_rest<D: DiskDevice>(
    device: &mut D,
    n: u64,
    header: &Header,
    lb_size: LogicalBlockSize,
) -> (r: Result<(), GptError>)
    requires
        n <= header.num_parts,
    ensures
        r matches Err(e) ==> is_write_failure(e),
        D::obeys_device_spec() ==> (r is Ok <==> array_fits(
            old(device).contents(),
            header@,
            lb_size,
            n as int,
        )),
        D::obeys_device_spec() ==> (r is Ok ==> final(device).contents() == rest_zeroed(
            old(device).contents(),
            n as int,
            header@,
            lb_size,
        )),
        D::obeys_device_spec() ==> final(device).contents().len() == old(device).contents().len(),
{
    let ghost c = device.contents();
    let ghost h = header@;
    let ghost size = h.part_size as int;
    let ghost count = h.num_parts as int;
    proof {
        assert(h.part_size * (h.num_parts - n) == (h.num_parts - n) * h.part_size)
            by (nonlinear_arith);
        assert((count - n) * size >= 0) by (nonlinear_arith)
            requires
                count - n >= 0,
                size >= 0,
        ;
        assert(n * size + (count - n) * size == count * size) by (nonlinear_arith);
        assert(n * size >= 0) by (nonlinear_arith)
            requires
                n >= 0,
                size >= 0,
        ;
        assert(h.part_start * lb_size.bytes() >= 0) by (nonlinear_arith)
            requires
                h.part_start >= 0,
                lb_size.bytes() > 0,
        ;
        assert(slot_at(h, lb_size, n as int) + (count - n) * size == slot_at(h, lb_size, count));
        if array_fits(c, h, lb_size, n as int) {
            lemma_slot_in_array(c, h, lb_size, n as int, n as int);
        }
    }
    Partition::write_zero_entries_to_device(
        device,
        n,
        header.num_parts as u64 - n,
        header.part_start,
        lb_size,
        header.part_size,
    )
}

/// Writes the partitions `used` to the first slots of the arrays.
fn write_entries<D: DiskDevice>(
    device: &mut D,
    used: &Vec<Partition>,
    primary: &Header,
    backup: &Option<Header>,
    lb_size: LogicalBlockSize,
) -> (r: Result<(), GptError>)
    ensures
        r matches Err(e) ==> is_write_failure(e) || e is OverflowPartitionCount,
        r matches Err(GptError::OverflowPartitionCount) ==> used@.len() > primary@.num_parts || (
        backup matches Some(bh) && used@.len() > bh@.num_parts),
        r is Ok ==> used@.len() <= primary@.num_parts && (backup matches Some(bh) ==> used@.len()
            <= bh@.num_parts),
        D::obeys_device_spec() ==> (r is Ok ==> final(device).contents() == entries_written(
            old(device).contents(),
            views(used@),
            used@.len() as int,
            primary@,
            optional_view(*backup),
            lb_size,
        )),
        D::obeys_device_spec() ==> (r is Ok ==> final(device).contents().len() == old(
            device,
        ).contents().len()),
        D::obeys_device_spec() ==> (arrays_fit(
            old(device).contents(),
            used@.len() as int,
            primary@,
            optional_view(*backup),
            lb_size,
        ) ==> r is Ok),
{
    let ghost c0 = device.contents();
    let ghost entries = views(used@);
    let ghost p = primary@;
    let ghost b = optional_view(*backup);
    let ghost n = used@.len() as int;
    let ghost fit = arrays_fit(c0, n, p, b, lb_size);
    let mut part_idx: usize = 0;
    while part_idx < used.len()
        invariant
            part_idx <= used@.len(),
            n == used@.len(),
            entries == views(used@),
            p == primary@,
            b == optional_view(*backup),
            fit == arrays_fit(c0, n, p, b, lb_size),
            c0 == old(device).contents(),
            part_idx <= p.num_parts,
            backup matches Some(bh) ==> part_idx <= bh@.num_parts,
            D::obeys_device_spec() ==> {
                &&& device.contents() == entries_written(c0, entries, part_idx as int, p, b, lb_size)
                &&& device.contents().len() == c0.len()
            },
        decreases used@.len() - part_idx,
    {
        let ghost c = device.contents();
        proof {
            if D::obeys_device_spec() && fit {
                lemma_entry_fits(c0, c, n, part_idx as int, p, b, lb_size);
            }
        }
        // don't allow us to overflow partition array...
        if part_idx as u64 >= primary.num_parts as u64 {
            return Err(GptError::OverflowPartitionCount);
        }
        match backup {
            Some(bh) => {
                if part_idx as u64 >= bh.num_parts as u64 {
                    return Err(GptError::OverflowPartitionCount);
                }
            },
            None => {},
        }
        match write_entry(device, &used[part_idx], part_idx as u64, primary, backup, lb_size) {
            Ok(_) => {},
            Err(e) => { return Err(e); },
        }
        assert(entries[part_idx as int] == used@[part_idx as int]@);
        part_idx += 1;
    }
    Ok(())
}

/// Writes the partition arrays: the partitions `used` to the first slots,
/// and zeros to the others.
pub fn write_arrays<D: DiskDevice>(
    device: &mut D,
    used: &Vec<Partition>,
    primary: &Header,
    backup: &Option<Header>,
    lb_size: LogicalBlockSize,
) -> (r: Result<(), GptError>)
    ensures
        r matches Err(e) ==> is_write_failure(e) || e is OverflowPartitionCount,
        r matches Err(GptError::OverflowPartitionCount) ==> used@.len() > primary@.num_parts || (
        backup matches Some(bh) && used@.len() > bh@.num_parts),
        r is Ok ==> used@.len() <= primary@.num_parts && (backup matches Some(bh) ==> used@.len()
            <= bh@.num_parts),
        D::obeys_device_spec() ==> (r is Ok <==> arrays_fit(
            old(device).contents(),
            used@.len() as int,
            primary@,
            optional_view(*backup),
            lb_size,
        )),
        D::obeys_device_spec() ==> (r is Ok ==> final(device).contents() == arrays_written(
            old(device).contents(),
            views(used@),
            primary@,
            optional_view(*backup),
            lb_size,
        )),
{
    let ghost c0 = device.contents();
    let ghost p = primary@;
    let ghost b = optional_view(*backup);
    let ghost n = used@.len() as int;
    // Write all of the used partitions at the start of the partition array.
    match write_entries(device, used, primary, backup, lb_size) {
        Ok(_) => {},
        Err(e) => { return Err(e); },
    }
    let next_partition_index = used.len() as u64;
    let ghost c1 = device.contents();
    // Next, write zeros to the rest of the primary/backup partition array
    // (ensures any newly deleted partitions are truly removed from disk, etc.)
    match zero_rest(device, next_partition_index, primary, lb_size) {
        Ok(_) => {},
        Err(e) => {
            proof {
                if D::obeys_device_spec() {
                    lemma_arrays_fit(c0, c1, c1, n, p, b, lb_size);
                }
            }
            return Err(e);
        },
    }
    let ghost c2 = device.contents();
    match backup {
        Some(bh) => {
            match zero_rest(device, next_partition_index, bh, lb_size) {
                Ok(_) => {},
                Err(e) => {
                    proof {
                        if D::obeys_device_spec() {
                            lemma_arrays_fit(c0, c1, c2, n, p, b, lb_size);
                        }
                    }
                    return Err(e);
                },
            }
        },
        None => {},
    }
    proof {
        reveal(arrays_written);
        if D::obeys_device_spec() {
            lemma_arrays_fit(c0, c1, c2, n, p, b, lb_size);
        }
    }
    Ok(())
}

/// Writes the headers: the backup where there is one, and then the primary.
pub fn write_headers<D: DiskDevice>(
    device: &mut D,
    primary: &Header,
    backup: &Option<Header>,
    lb_size: LogicalBlockSize,
) -> (r: Result<(), HeaderError>)
    ensures
        D::obeys_device_spec() ==> match headers_written(
            old(device).contents(),
            primary@,
            optional_view(*backup),
            lb_size,
        ) {
            Ok(image) => r is Ok && final(device).contents() == image,
            Err(e) => r == Err::<(), HeaderError>(e),
        },
{
    proof {
        reveal(headers_written);
    }
    match backup {
        Some(bh) => {
            match bh.write_backup(device, lb_size) {
                Ok(_) => {},
                Err(e) => { return Err(e); },
            }
        },
        None => {},
    }
    match primary.write_primary(device, lb_size) {
        Ok(_) => {},
        Err(e) => { return Err(e); },
    }
    Ok(())
}

} // verus!
