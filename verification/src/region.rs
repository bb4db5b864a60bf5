//! The mathematical model of a region: a sequence of bytes read as
//! consecutive slots of one record each.

use vstd::prelude::*;
use crate::user_record::{decode, encode, lemma_decode_encode, RecordView, RECORD_SIZE};

verus! {

/// Number of whole slots in a region. Bytes after the last whole slot
/// belong to no slot.
pub open spec fn slot_count(region: Seq<u8>) -> nat {
    region.len() / (RECORD_SIZE as nat)
}

/// The bytes of slot `slot` of a region.
pub open spec fn slot_bytes(region: Seq<u8>, slot: int) -> Seq<u8>
    recommends
        0 <= slot < slot_count(region),
{
    region.subrange(slot * RECORD_SIZE, slot * RECORD_SIZE + RECORD_SIZE)
}

/// The slots of a region, in ascending order of offset.
pub open spec fn slots(region: Seq<u8>) -> Seq<Seq<u8>> {
    Seq::new(slot_count(region), |slot: int| slot_bytes(region, slot))
}

/// Every byte is zero. A slot with such contents is empty.
pub open spec fn is_zero(bytes: Seq<u8>) -> bool {
    forall|i: int| 0 <= i < bytes.len() ==> #[trigger] bytes[i] == 0
}

/// `len` zero bytes.
pub open spec fn zeros(len: nat) -> Seq<u8> {
    Seq::new(len, |i: int| 0u8)
}

/// Holds of the contents of a slot that is not empty.
pub open spec fn occupied() -> spec_fn(Seq<u8>) -> bool {
    |bytes: Seq<u8>| !is_zero(bytes)
}

/// Decoding, as a function on slots.
pub open spec fn decoded() -> spec_fn(Seq<u8>) -> RecordView {
    |bytes: Seq<u8>| decode(bytes)
}

/// What a scan of the slots from `from` up to, not including, `to`
/// returns.
pub open spec fn scan_range(region: Seq<u8>, from: int, to: int) -> Seq<RecordView>
    recommends
        0 <= from <= to <= slot_count(region),
{
    slots(region).subrange(from, to).filter(occupied()).map_values(decoded())
}

/// What a scan of a region returns: the records of the slots that are
/// not empty, in slot order.
pub open spec fn scan(region: Seq<u8>) -> Seq<RecordView> {
    slots(region).filter(occupied()).map_values(decoded())
}

/// The region after `record` was written into slot `slot`.
pub open spec fn written(region: Seq<u8>, slot: int, record: RecordView) -> Seq<u8>
    recommends
        0 <= slot < slot_count(region),
        record.wf(),
{
    region.subrange(0, slot * RECORD_SIZE) + encode(record) + region.subrange(
        slot * RECORD_SIZE + RECORD_SIZE,
        region.len() as int,
    )
}

/// Scanning one slot more appends its record if the slot is not empty,
/// and nothing if it is.
pub proof fn lemma_scan_step(region: Seq<u8>, from: int, to: int)
    requires
        0 <= from <= to < slot_count(region),
    ensures
        scan_range(region, from, to + 1) == if is_zero(slot_bytes(region, to)) {
            scan_range(region, from, to)
        } else {
            scan_range(region, from, to).push(decode(slot_bytes(region, to)))
        },
{
    let all = slots(region);
    let bytes = slot_bytes(region, to);
    assert(all.subrange(from, to + 1) =~= all.subrange(from, to).push(bytes));
    assert(all.subrange(from, to).push(bytes).drop_last() =~= all.subrange(from, to));
    reveal(Seq::filter);
    if !is_zero(bytes) {
        all.subrange(from, to).filter(occupied()).lemma_push_map_commute(decoded(), bytes);
    }
}

/// A scan of no slot returns nothing, and a scan of all the slots is the
/// scan of the region.
pub proof fn lemma_scan_ends(region: Seq<u8>, at: int)
    requires
        0 <= at <= slot_count(region),
    ensures
        scan_range(region, at, at) == Seq::<RecordView>::empty(),
        scan_range(region, 0, slot_count(region) as int) == scan(region),
{
    reveal(Seq::filter);
    assert(slots(region).subrange(at, at) =~= Seq::<Seq<u8>>::empty());
    assert(scan_range(region, at, at) =~= Seq::<RecordView>::empty());
    assert(slots(region).subrange(0, slot_count(region) as int) =~= slots(region));
}

/// A scan of two adjacent ranges of slots is the scan of the first
/// followed by the scan of the second.
pub proof fn lemma_scan_split(region: Seq<u8>, from: int, mid: int, to: int)
    requires
        0 <= from <= mid <= to <= slot_count(region),
    ensures
        scan_range(region, from, to) == scan_range(region, from, mid) + scan_range(
            region,
            mid,
            to,
        ),
{
    let all = slots(region);
    let left = all.subrange(from, mid);
    let right = all.subrange(mid, to);
    assert(all.subrange(from, to) =~= left + right);
    Seq::filter_distributes_over_add(left, right, occupied());
    assert((left.filter(occupied()) + right.filter(occupied())).map_values(decoded())
        =~= left.filter(occupied()).map_values(decoded()) + right.filter(
        occupied(),
    ).map_values(decoded()));
}

/// A scan returns nothing for slots that are all empty.
pub proof fn lemma_scan_empty_slots(region: Seq<u8>, from: int, to: int)
    requires
        0 <= from <= to <= slot_count(region),
        forall|slot: int| from <= slot < to ==> is_zero(#[trigger] slot_bytes(region, slot)),
    ensures
        scan_range(region, from, to) == Seq::<RecordView>::empty(),
    decreases to - from,
{
    if from == to {
        lemma_scan_ends(region, from);
    } else {
        lemma_scan_empty_slots(region, from, to - 1);
        lemma_scan_step(region, from, to - 1);
    }
}

/// A region whose slots are all empty scans as the empty sequence.
pub proof fn lemma_scan_empty_region(region: Seq<u8>)
    requires
        forall|slot: int|
            0 <= slot < slot_count(region) ==> is_zero(#[trigger] slot_bytes(region, slot)),
    ensures
        scan(region) == Seq::<RecordView>::empty(),
{
    lemma_scan_ends(region, 0);
    lemma_scan_empty_slots(region, 0, slot_count(region) as int);
}

/// A freshly allocated region, all zeros, scans as the empty sequence.
pub proof fn lemma_scan_zeros(len: nat)
    ensures
        scan(zeros(len)) == Seq::<RecordView>::empty(),
{
    lemma_scan_empty_region(zeros(len));
}

/// A write changes the slot it is aimed at, and nothing else: the region
/// keeps its size, the written slot holds the encoding of the record, and
/// every other slot holds what it held before.
pub proof fn lemma_write_slots(region: Seq<u8>, slot: int, record: RecordView)
    requires
        0 <= slot < slot_count(region),
        record.wf(),
    ensures
        written(region, slot, record).len() == region.len(),
        slot_count(written(region, slot, record)) == slot_count(region),
        slot_bytes(written(region, slot, record), slot) == encode(record),
        decode(slot_bytes(written(region, slot, record), slot)) == record,
        forall|other: int|
            0 <= other < slot_count(region) && other != slot ==> #[trigger] slot_bytes(
                written(region, slot, record),
                other,
            ) == slot_bytes(region, other),
        slots(written(region, slot, record)) == slots(region).update(slot, encode(record)),
        written(region, slot, record).subrange(
            slot_count(region) * RECORD_SIZE,
            region.len() as int,
        ) == region.subrange(slot_count(region) * RECORD_SIZE, region.len() as int),
{
    let after = written(region, slot, record);
    lemma_decode_encode(record);
    assert(slot_bytes(after, slot) =~= encode(record));
    assert forall|other: int| 0 <= other < slot_count(region) && other != slot implies
        #[trigger] slot_bytes(after, other) == slot_bytes(region, other) by {
        assert(slot_bytes(after, other) =~= slot_bytes(region, other));
    }
    assert(slots(after) =~= slots(region).update(slot, encode(record)));
    assert(after.subrange(slot_count(region) * RECORD_SIZE, region.len() as int)
        =~= region.subrange(slot_count(region) * RECORD_SIZE, region.len() as int));
}

/// Writes to different slots do not meet: in whichever order two of them
/// are carried out, the region ends up the same, and each of the two
/// slots holds the whole record that was written into it.
pub proof fn lemma_writes_commute(
    region: Seq<u8>,
    first: int,
    a: RecordView,
    second: int,
    b: RecordView,
)
    requires
        0 <= first < slot_count(region),
        0 <= second < slot_count(region),
        first != second,
        a.wf(),
        b.wf(),
    ensures
        written(written(region, first, a), second, b) == written(
            written(region, second, b),
            first,
            a,
        ),
        decode(slot_bytes(written(written(region, first, a), second, b), first)) == a,
        decode(slot_bytes(written(written(region, first, a), second, b), second)) == b,
{
    let one = written(written(region, first, a), second, b);
    let other = written(written(region, second, b), first, a);
    lemma_decode_encode(a);
    lemma_decode_encode(b);
    assert(one =~= other);
    lemma_write_slots(region, first, a);
    lemma_write_slots(written(region, first, a), second, b);
}

/// What a scan returns after a write: what it returned before for the
/// slots below the written one, then the written record unless its
/// encoding is all zeros, then what it returned before for the slots
/// above.
pub proof fn lemma_scan_after_write(region: Seq<u8>, slot: int, record: RecordView)
    requires
        0 <= slot < slot_count(region),
        record.wf(),
    ensures
        scan(written(region, slot, record)) == scan_range(region, 0, slot) + (if is_zero(
            encode(record),
        ) {
            Seq::<RecordView>::empty()
        } else {
            seq![record]
        }) + scan_range(region, slot + 1, slot_count(region) as int),
{
    let after = written(region, slot, record);
    let count = slot_count(region) as int;
    lemma_write_slots(region, slot, record);
    lemma_scan_ends(after, slot);
    lemma_scan_split(after, 0, slot, count);
    lemma_scan_split(after, slot, slot + 1, count);
    lemma_scan_step(after, slot, slot);
    assert(slots(after).subrange(0, slot) =~= slots(region).subrange(0, slot));
    assert(slots(after).subrange(slot + 1, count) =~= slots(region).subrange(slot + 1, count));
    if !is_zero(encode(record)) {
        assert(Seq::<RecordView>::empty().push(record) =~= seq![record]);
    }
}

} // verus!
