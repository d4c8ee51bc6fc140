//! The archived form of a patch: the archive of the new record, and for each changed field
//! its index and the offset in the archive at which its new value begins.
use crate::FieldAndPosition;
use crate::layout::{
    decode_value, encode_items, encode_value, lemma_encode_items_concat, lemma_encoded_not_empty,
};
use crate::model::{Applied, DecodeError, RecordView};
use crate::value::Datum;
use vstd::prelude::*;

verus! {

/// The model of an archived patch: the offset list and the archive.
pub struct ArchivedPatchView {
    pub field_positions: Seq<FieldAndPosition>,
    pub patch_bytes: Seq<u8>,
}

/// The archive of a record: the archived forms of all its fields, in declaration order.
pub open spec fn archive_blob(fields: Seq<Datum>) -> Seq<u8> {
    encode_items(fields)
}

/// The offset in the archive of a record at which the field `index` begins.
pub open spec fn archive_offset(fields: Seq<Datum>, index: int) -> int {
    encode_items(fields.take(index)).len() as int
}

/// The offset list of the archived diff of `old` against `new` for the fields below `upto`:
/// for each field whose two values differ, in declaration order, its index and its offset in
/// the archive of `new`.
pub open spec fn archive_positions_prefix(old: Seq<Datum>, new: Seq<Datum>, upto: int) -> Seq<
    FieldAndPosition,
>
    decreases upto,
{
    if upto <= 0 {
        Seq::empty()
    } else {
        let before = archive_positions_prefix(old, new, upto - 1);
        if old[upto - 1] != new[upto - 1] {
            before.push(
                FieldAndPosition {
                    index: (upto - 1) as u8,
                    position: archive_offset(new, upto - 1) as u32,
                },
            )
        } else {
            before
        }
    }
}

/// The offset list of the archived diff of `old` against `new`.
pub open spec fn archive_positions(old: Seq<Datum>, new: Seq<Datum>) -> Seq<FieldAndPosition> {
    archive_positions_prefix(old, new, new.len() as int)
}

/// Reading the value of field `index` at offset `position` of the archive `bytes` and
/// assigning it: rejected when the record has no such field, when the offset lies outside
/// the archive, or when what stands there is not the archived form of a value of the field's
/// declared type.
pub open spec fn apply_archived_field(
    record: RecordView,
    index: u8,
    position: int,
    bytes: Seq<u8>,
) -> Applied {
    if index as int >= record.types.len() {
        Applied::failed(record, DecodeError::IndexOutOfRange { index })
    } else if position < 0 || position >= bytes.len() {
        Applied::failed(record, DecodeError::OffsetOutOfBounds { index })
    } else {
        match decode_value(bytes, position, record.types[index as int]) {
            Some((datum, _)) => Applied::done(record.assign(index as int, datum)),
            None => Applied::failed(record, DecodeError::TypeMismatch { index }),
        }
    }
}

/// Applying the first `upto` entries of an offset list to `record`, in order, up to the first
/// that is rejected.
pub open spec fn apply_archive_prefix(
    record: RecordView,
    positions: Seq<FieldAndPosition>,
    bytes: Seq<u8>,
    upto: int,
) -> Applied
    decreases upto,
{
    if upto <= 0 {
        Applied::done(record)
    } else {
        let before = apply_archive_prefix(record, positions, bytes, upto - 1);
        if before.error is Some || upto > positions.len() {
            before
        } else {
            apply_archived_field(
                before.record,
                positions[upto - 1].index,
                positions[upto - 1].position as int,
                bytes,
            )
        }
    }
}

/// Applying an archived patch, its offset list and its archive, to `record`.
pub open spec fn apply_archive(
    record: RecordView,
    positions: Seq<FieldAndPosition>,
    bytes: Seq<u8>,
) -> Applied {
    apply_archive_prefix(record, positions, bytes, positions.len() as int)
}

/// The archive of the first fields of a record is no longer than the archive of all of them.
pub proof fn lemma_archive_offset_bound(fields: Seq<Datum>, index: int)
    requires
        0 <= index <= fields.len(),
    ensures
        archive_offset(fields, index) <= archive_blob(fields).len(),
        index < fields.len() ==> archive_offset(fields, index) < archive_blob(fields).len(),
        index < fields.len() ==> archive_offset(fields, index + 1) == archive_offset(fields, index)
            + encode_value(fields[index]).len(),
{
    let front = fields.take(index);
    let back = fields.skip(index);
    assert(fields =~= front + back);
    lemma_encode_items_concat(front, back);
    if index < fields.len() {
        let next = fields.take(index + 1);
        assert(next.drop_last() =~= front);
        assert(next.last() == fields[index]);
        lemma_encoded_not_empty(fields[index]);
        let rest = fields.skip(index + 1);
        assert(fields =~= next + rest);
        lemma_encode_items_concat(next, rest);
    }
}

/// Once an entry of an offset list is rejected, no later entry is applied.
pub proof fn lemma_apply_archive_stops(
    record: RecordView,
    positions: Seq<FieldAndPosition>,
    bytes: Seq<u8>,
    failed: int,
    upto: int,
)
    requires
        failed <= upto,
        apply_archive_prefix(record, positions, bytes, failed).error is Some,
    ensures
        apply_archive_prefix(record, positions, bytes, upto) == apply_archive_prefix(
            record,
            positions,
            bytes,
            failed,
        ),
    decreases upto - failed,
{
    if failed < upto {
        lemma_apply_archive_stops(record, positions, bytes, failed, upto - 1);
    }
}

} // verus!
