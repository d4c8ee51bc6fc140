//! What holds of diffing, patching and replaying, whatever the records and patches are.
use crate::FieldAndPosition;
use crate::archive::{
    apply_archive, apply_archive_prefix, archive_blob, archive_offset, archive_positions,
    archive_positions_prefix, lemma_archive_offset_bound,
};
use crate::differ::{apply_entries, diff_entries, diff_prefix, encode_patch, Entry};
use crate::layout::{
    encode_items, encode_value, lemma_decode_conforms, lemma_decode_encoded,
    lemma_encode_items_concat, window,
};
use crate::model::{apply_command, Applied, RecordView};
use crate::replay::{collected, indices_in_range, lemma_replay_stops, replay, replay_all};
use crate::stream::{apply_next, apply_stream, apply_stream_from};
use crate::value::Datum;
use vstd::prelude::*;

verus! {

/// Once an entry is rejected, no later entry is assigned.
proof fn lemma_apply_entries_stops(record: RecordView, entries: Seq<Entry>, failed: int, upto: int)
    requires
        failed <= upto,
        apply_entries(record, entries, failed).error is Some,
    ensures
        apply_entries(record, entries, upto) == apply_entries(record, entries, failed),
    decreases upto - failed,
{
    if failed < upto {
        lemma_apply_entries_stops(record, entries, failed, upto - 1);
    }
}

/// Assigning the first entries of a patch does not depend on the entries that follow them.
proof fn lemma_apply_entries_prefix(
    record: RecordView,
    entries: Seq<Entry>,
    longer: Seq<Entry>,
    upto: int,
)
    requires
        upto <= entries.len() <= longer.len(),
        forall|i: int| 0 <= i < entries.len() ==> entries[i] == longer[i],
    ensures
        apply_entries(record, entries, upto) == apply_entries(record, longer, upto),
    decreases upto,
{
    if upto > 0 {
        lemma_apply_entries_prefix(record, entries, longer, upto - 1);
    }
}

/// Applying the streaming form of a patch from its entry `from` on, to the record that the
/// entries before it led to, ends as assigning all the entries one after the other does.
proof fn lemma_stream_of_entries(record: RecordView, entries: Seq<Entry>, from: int)
    requires
        0 <= from <= entries.len(),
        apply_entries(record, entries, from).error is None,
    ensures
        apply_stream_from(
            apply_entries(record, entries, from).record,
            encode_patch(entries),
            2 * from,
        ) == apply_entries(record, entries, entries.len() as int),
    decreases entries.len() - from,
{
    let source = encode_patch(entries);
    let here = apply_entries(record, entries, from).record;
    if from < entries.len() {
        let entry = entries[from];
        assert(source[2 * from] == Datum::U8(entry.index));
        assert(source[2 * from + 1] == entry.value);
        let next = apply_entries(record, entries, from + 1);
        assert(next == apply_command(here, entry.index, entry.value));
        assert(apply_next(here, entry.index, source, 2 * from + 1) == next);
        if next.error is Some {
            lemma_apply_entries_stops(record, entries, from + 1, entries.len() as int);
        } else {
            lemma_stream_of_entries(record, entries, from + 1);
        }
    }
}

/// Applying the streaming form of a patch assigns its entries one after the other, up to
/// the first that is rejected.
pub proof fn lemma_stream_applies_entries(record: RecordView, entries: Seq<Entry>)
    ensures
        apply_stream(record, encode_patch(entries)) == apply_entries(
            record,
            entries,
            entries.len() as int,
        ),
{
    lemma_stream_of_entries(record, entries, 0);
}

/// Assigning the entries of the diff of `old` against `new` for the fields below `upto` to
/// `old` gives `old` with those fields as they are in `new`.
proof fn lemma_apply_diff_prefix(old: RecordView, new: RecordView, upto: int)
    requires
        old.well_formed(),
        new.well_formed(),
        old.types == new.types,
        0 <= upto <= new.fields.len(),
    ensures
        apply_entries(
            old,
            diff_prefix(old.fields, new.fields, upto),
            diff_prefix(old.fields, new.fields, upto).len() as int,
        ) == Applied::done(
            RecordView {
                types: old.types,
                fields: new.fields.take(upto) + old.fields.skip(upto),
            },
        ),
    decreases upto,
{
    let entries = diff_prefix(old.fields, new.fields, upto);
    if upto == 0 {
        assert(new.fields.take(0) + old.fields.skip(0) =~= old.fields);
    } else {
        let before = diff_prefix(old.fields, new.fields, upto - 1);
        let fields_before = new.fields.take(upto - 1) + old.fields.skip(upto - 1);
        let fields_after = new.fields.take(upto) + old.fields.skip(upto);
        lemma_apply_diff_prefix(old, new, upto - 1);
        if old.fields[upto - 1] != new.fields[upto - 1] {
            lemma_apply_entries_prefix(old, before, entries, before.len() as int);
            assert(fields_before.update(upto - 1, new.fields[upto - 1]) =~= fields_after);
        } else {
            assert(fields_before =~= fields_after);
        }
    }
}

/// Round trip of the streaming form: for records `old` and `new` of the same schema,
/// applying the streaming form of the diff of `old` against `new` to `old` succeeds and
/// gives `new`.
pub proof fn law_stream_round_trip(old: RecordView, new: RecordView)
    requires
        old.well_formed(),
        new.well_formed(),
        old.types == new.types,
    ensures
        apply_stream(old, encode_patch(diff_entries(old.fields, new.fields))) == Applied::done(
            new,
        ),
{
    let entries = diff_entries(old.fields, new.fields);
    lemma_stream_applies_entries(old, entries);
    lemma_apply_diff_prefix(old, new, new.fields.len() as int);
    assert(new.fields.take(new.fields.len() as int) + old.fields.skip(new.fields.len() as int)
        =~= new.fields);
}

/// The diff of a record against itself is empty up to any field.
proof fn lemma_diff_of_equal(fields: Seq<Datum>, upto: int)
    ensures
        diff_prefix(fields, fields, upto).len() == 0,
        archive_positions_prefix(fields, fields, upto).len() == 0,
    decreases upto,
{
    if upto > 0 {
        lemma_diff_of_equal(fields, upto - 1);
    }
}

/// The diff of a record against itself is empty, in both forms, and applying it to any
/// record leaves that record as it is.
pub proof fn law_diff_of_equal_is_empty(fields: Seq<Datum>, target: RecordView)
    ensures
        diff_entries(fields, fields).len() == 0,
        encode_patch(diff_entries(fields, fields)).len() == 0,
        apply_stream(target, encode_patch(diff_entries(fields, fields))) == Applied::done(target),
        archive_positions(fields, fields).len() == 0,
        apply_archive(target, archive_positions(fields, fields), archive_blob(fields))
            == Applied::done(target),
{
    lemma_diff_of_equal(fields, fields.len() as int);
}

/// In the archive of a record, the archived form of each field stands at the offset of that
/// field.
pub proof fn lemma_archive_field_window(fields: Seq<Datum>, index: int)
    requires
        0 <= index < fields.len(),
    ensures
        window(
            archive_blob(fields),
            archive_offset(fields, index),
            encode_value(fields[index]).len() as int,
        ) == Some(encode_value(fields[index])),
{
    let front = fields.take(index);
    let next = fields.take(index + 1);
    let rest = fields.skip(index + 1);
    assert(next.drop_last() =~= front);
    assert(next.last() == fields[index]);
    assert(fields =~= next + rest);
    lemma_encode_items_concat(next, rest);
    let blob = archive_blob(fields);
    let head = encode_items(front);
    let piece = encode_value(fields[index]);
    let tail = encode_items(rest);
    assert(blob == (head + piece) + tail);
    assert(blob.subrange(head.len() as int, (head.len() + piece.len()) as int) =~= piece);
}

/// Applying the first entries of an offset list does not depend on the entries that follow
/// them.
proof fn lemma_apply_archive_prefix_only(
    record: RecordView,
    positions: Seq<FieldAndPosition>,
    longer: Seq<FieldAndPosition>,
    bytes: Seq<u8>,
    upto: int,
)
    requires
        upto <= positions.len() <= longer.len(),
        forall|i: int| 0 <= i < positions.len() ==> positions[i] == longer[i],
    ensures
        apply_archive_prefix(record, positions, bytes, upto) == apply_archive_prefix(
            record,
            longer,
            bytes,
            upto,
        ),
    decreases upto,
{
    if upto > 0 {
        lemma_apply_archive_prefix_only(record, positions, longer, bytes, upto - 1);
    }
}

/// Applying the offset list of the archived diff of `old` against `new` for the fields
/// below `upto` to `old` gives `old` with those fields as they are in `new`.
proof fn lemma_apply_archive_diff_prefix(old: RecordView, new: RecordView, upto: int)
    requires
        old.well_formed(),
        new.well_formed(),
        old.types == new.types,
        archive_blob(new.fields).len() <= u32::MAX,
        0 <= upto <= new.fields.len(),
    ensures
        apply_archive(
            old,
            archive_positions_prefix(old.fields, new.fields, upto),
            archive_blob(new.fields),
        ) == Applied::done(
            RecordView {
                types: old.types,
                fields: new.fields.take(upto) + old.fields.skip(upto),
            },
        ),
    decreases upto,
{
    let blob = archive_blob(new.fields);
    let positions = archive_positions_prefix(old.fields, new.fields, upto);
    if upto == 0 {
        assert(new.fields.take(0) + old.fields.skip(0) =~= old.fields);
    } else {
        let index = upto - 1;
        let before = archive_positions_prefix(old.fields, new.fields, index);
        let fields_before = new.fields.take(index) + old.fields.skip(index);
        let fields_after = new.fields.take(upto) + old.fields.skip(upto);
        lemma_apply_archive_diff_prefix(old, new, index);
        if old.fields[index] != new.fields[index] {
            lemma_apply_archive_prefix_only(old, before, positions, blob, before.len() as int);
            lemma_archive_offset_bound(new.fields, index);
            lemma_archive_field_window(new.fields, index);
            lemma_decode_encoded(
                new.fields[index],
                new.types[index],
                blob,
                archive_offset(new.fields, index),
            );
            assert(positions[before.len() as int].position as int == archive_offset(
                new.fields,
                index,
            ));
            assert(fields_before.update(index, new.fields[index]) =~= fields_after);
        } else {
            assert(fields_before =~= fields_after);
        }
    }
}

/// Round trip of the archived form: for records `old` and `new` of the same schema, where
/// the archive of `new` is within reach of a 32-bit offset, applying the archived diff of
/// `old` against `new` to `old` succeeds and gives `new`.
pub proof fn law_archive_round_trip(old: RecordView, new: RecordView)
    requires
        old.well_formed(),
        new.well_formed(),
        old.types == new.types,
        archive_blob(new.fields).len() <= u32::MAX,
    ensures
        apply_archive(
            old,
            archive_positions(old.fields, new.fields),
            archive_blob(new.fields),
        ) == Applied::done(new),
{
    lemma_apply_archive_diff_prefix(old, new, new.fields.len() as int);
    assert(new.fields.take(new.fields.len() as int) + old.fields.skip(new.fields.len() as int)
        =~= new.fields);
}

/// Whether two outcomes of applying one patch to two records agree: the same error, and each
/// field either holds the same value in both, or is in both as it was before.
spec fn agree(
    first: Applied,
    second: Applied,
    first_start: RecordView,
    second_start: RecordView,
) -> bool {
    &&& first.error == second.error
    &&& first.record.types == first_start.types
    &&& second.record.types == second_start.types
    &&& first.record.fields.len() == first_start.fields.len()
    &&& second.record.fields.len() == second_start.fields.len()
    &&& forall|i: int|
        0 <= i < first_start.fields.len() ==> first.record.fields[i] == second.record.fields[i] || (
        first.record.fields[i] == first_start.fields[i] && second.record.fields[i]
            == second_start.fields[i])
}

/// Applying the rest of a patch stream to two records of the same schema fails or succeeds
/// alike, and assigns the same values to the same fields.
proof fn lemma_stream_agrees(first: RecordView, second: RecordView, source: Seq<Datum>, at: int)
    requires
        first.types == second.types,
        first.fields.len() == first.types.len(),
        second.fields.len() == first.types.len(),
        0 <= at,
    ensures
        agree(
            apply_stream_from(first, source, at),
            apply_stream_from(second, source, at),
            first,
            second,
        ),
    decreases source.len() - at,
{
    if at < source.len() {
        if let Datum::U8(index) = source[at] {
            let one = apply_next(first, index, source, at + 1);
            let two = apply_next(second, index, source, at + 1);
            if one.error is None {
                lemma_stream_agrees(one.record, two.record, source, at + 2);
                let first_end = apply_stream_from(one.record, source, at + 2).record;
                let second_end = apply_stream_from(two.record, source, at + 2).record;
                assert forall|i: int| 0 <= i < first.fields.len() implies first_end.fields[i]
                    == second_end.fields[i] || (first_end.fields[i] == first.fields[i]
                    && second_end.fields[i] == second.fields[i]) by {
                    if i == index as int {
                        assert(one.record.fields[i] == two.record.fields[i]);
                    } else {
                        assert(one.record.fields[i] == first.fields[i]);
                        assert(two.record.fields[i] == second.fields[i]);
                    }
                }
            }
        }
    }
}

/// Replaying a streaming patch is idempotent: applying a patch stream a second time, to the
/// record that the first application left, leaves that record as it is and ends as the first
/// application did.
pub proof fn law_stream_replay_idempotent(record: RecordView, source: Seq<Datum>)
    requires
        record.well_formed(),
    ensures
        apply_stream(apply_stream(record, source).record, source) == apply_stream(record, source),
{
    let once = apply_stream(record, source);
    lemma_stream_agrees(record, record, source, 0);
    lemma_stream_agrees(once.record, record, source, 0);
    let twice = apply_stream(once.record, source);
    assert(twice.record.fields =~= once.record.fields);
}

/// Applying the entries of an offset list to two records of the same schema fails or
/// succeeds alike, and assigns the same values to the same fields.
proof fn lemma_archive_agrees(
    first: RecordView,
    second: RecordView,
    positions: Seq<FieldAndPosition>,
    bytes: Seq<u8>,
    upto: int,
)
    requires
        first.types == second.types,
        first.fields.len() == first.types.len(),
        second.fields.len() == first.types.len(),
    ensures
        agree(
            apply_archive_prefix(first, positions, bytes, upto),
            apply_archive_prefix(second, positions, bytes, upto),
            first,
            second,
        ),
    decreases upto,
{
    if upto > 0 {
        lemma_archive_agrees(first, second, positions, bytes, upto - 1);
    }
}

/// Replaying an archived patch is idempotent: applying it a second time, to the record that
/// the first application left, leaves that record as it is and ends as the first application
/// did.
pub proof fn law_archive_replay_idempotent(
    record: RecordView,
    positions: Seq<FieldAndPosition>,
    bytes: Seq<u8>,
)
    requires
        record.well_formed(),
    ensures
        apply_archive(apply_archive(record, positions, bytes).record, positions, bytes)
            == apply_archive(record, positions, bytes),
{
    let once = apply_archive(record, positions, bytes);
    lemma_archive_agrees(record, record, positions, bytes, positions.len() as int);
    lemma_archive_agrees(once.record, record, positions, bytes, positions.len() as int);
    let twice = apply_archive(once.record, positions, bytes);
    assert(twice.record.fields =~= once.record.fields);
}

/// A replay of the first `upto` patches applies the first patch, and if that succeeds,
/// replays one patch fewer of the patches after it on the record that it gave.
proof fn lemma_replay_unfolds_at_front<P>(
    start: RecordView,
    patches: Seq<P>,
    step: spec_fn(RecordView, P) -> Applied,
    upto: int,
)
    requires
        1 <= upto,
        1 <= patches.len(),
    ensures
        replay(start, patches, step, upto) == if step(start, patches[0]).error is Some {
            step(start, patches[0])
        } else {
            replay(step(start, patches[0]).record, patches.skip(1), step, upto - 1)
        },
    decreases upto,
{
    let first = step(start, patches[0]);
    let rest = patches.skip(1);
    if upto == 1 {
        assert(replay(start, patches, step, 0) == Applied::done(start));
        assert(replay(start, patches, step, 1) == first);
        assert(replay(first.record, rest, step, 0) == Applied::done(first.record));
    } else {
        lemma_replay_unfolds_at_front(start, patches, step, upto - 1);
        let before = replay(start, patches, step, upto - 1);
        if first.error is None {
            let shifted = replay(first.record, rest, step, upto - 2);
            assert(before == shifted);
            if upto <= patches.len() {
                assert(rest[upto - 2] == patches[upto - 1]);
            }
            assert(replay(first.record, rest, step, upto - 1) == if shifted.error is Some || upto
                - 1 > rest.len() {
                shifted
            } else {
                step(shifted.record, rest[upto - 2])
            });
        }
    }
}

/// A bounded replay with the length of the list as its limit is the replay of all patches,
/// one after the other.
pub proof fn law_bounded_replay_of_all<P>(
    start: RecordView,
    patches: Seq<P>,
    step: spec_fn(RecordView, P) -> Applied,
)
    ensures
        replay(start, patches, step, patches.len() as int) == replay_all(start, patches, step),
    decreases patches.len(),
{
    if patches.len() > 0 {
        lemma_replay_unfolds_at_front(start, patches, step, patches.len() as int);
        let first = step(start, patches[0]);
        if first.error is None {
            law_bounded_replay_of_all(first.record, patches.skip(1), step);
        }
    }
}

/// What a replay over a range collects: the state at position `j` of the collection is the
/// state that a bounded replay with limit `from + j + 1` gives. The collection never has more
/// states than the range has indices of the list, `max(0, min(upto, M) - from)` for a list
/// of `M` patches, and has exactly that many where no patch below `upto` fails.
pub proof fn law_collected_states<P>(
    start: RecordView,
    patches: Seq<P>,
    step: spec_fn(RecordView, P) -> Applied,
    from: int,
    upto: int,
)
    requires
        0 <= from,
    ensures
        forall|j: int|
            0 <= j < collected(start, patches, step, from, upto).len() ==> #[trigger] collected(
                start,
                patches,
                step,
                from,
                upto,
            )[j] == replay(start, patches, step, from + j + 1).record,
        collected(start, patches, step, from, upto).len() <= indices_in_range(
            from,
            upto,
            patches.len() as int,
        ),
        replay(start, patches, step, upto).error is None ==> collected(
            start,
            patches,
            step,
            from,
            upto,
        ).len() == indices_in_range(from, upto, patches.len() as int),
    decreases upto,
{
    if upto > 0 {
        law_collected_states(start, patches, step, from, upto - 1);
        if replay(start, patches, step, upto - 1).error is Some {
            lemma_replay_stops(start, patches, step, from, upto - 1, upto);
        }
    }
}

/// A replay over the whole list that collects every state ends in the state that the
/// replay of all patches gives: where the list is not empty and no patch fails, that state
/// is the last that is collected.
pub proof fn law_full_collection_ends_in_replay_of_all<P>(
    start: RecordView,
    patches: Seq<P>,
    step: spec_fn(RecordView, P) -> Applied,
)
    requires
        patches.len() > 0,
        replay_all(start, patches, step).error is None,
    ensures
        collected(start, patches, step, 0, patches.len() as int).len() == patches.len(),
        collected(start, patches, step, 0, patches.len() as int).last() == replay_all(
            start,
            patches,
            step,
        ).record,
{
    law_bounded_replay_of_all(start, patches, step);
    law_collected_states(start, patches, step, 0, patches.len() as int);
}

/// The cost bound of a replay: what a replay of the patches below `upto` does and collects
/// does not depend on the patches from `upto` on.
pub proof fn law_replay_ignores_later_patches<P>(
    start: RecordView,
    patches: Seq<P>,
    step: spec_fn(RecordView, P) -> Applied,
    from: int,
    upto: int,
    bound: int,
)
    requires
        0 <= upto <= bound <= patches.len(),
    ensures
        replay(start, patches, step, upto) == replay(start, patches.take(bound), step, upto),
        collected(start, patches, step, from, upto) == collected(
            start,
            patches.take(bound),
            step,
            from,
            upto,
        ),
    decreases upto,
{
    if upto > 0 {
        law_replay_ignores_later_patches(start, patches, step, from, upto - 1, bound);
    }
}

/// Applying the rest of a patch stream keeps a well-formed record well-formed, and of its
/// schema.
proof fn lemma_stream_keeps_well_formed(record: RecordView, source: Seq<Datum>, at: int)
    requires
        record.well_formed(),
        0 <= at,
    ensures
        apply_stream_from(record, source, at).record.well_formed(),
        apply_stream_from(record, source, at).record.types == record.types,
    decreases source.len() - at,
{
    if at < source.len() {
        if let Datum::U8(index) = source[at] {
            let step = apply_next(record, index, source, at + 1);
            if step.error is None {
                lemma_stream_keeps_well_formed(step.record, source, at + 2);
            }
        }
    }
}

/// Applying entries of an offset list keeps a well-formed record well-formed, and of its
/// schema.
proof fn lemma_archive_keeps_well_formed(
    record: RecordView,
    positions: Seq<FieldAndPosition>,
    bytes: Seq<u8>,
    upto: int,
)
    requires
        record.well_formed(),
    ensures
        apply_archive_prefix(record, positions, bytes, upto).record.well_formed(),
        apply_archive_prefix(record, positions, bytes, upto).record.types == record.types,
    decreases upto,
{
    if upto > 0 {
        lemma_archive_keeps_well_formed(record, positions, bytes, upto - 1);
        let before = apply_archive_prefix(record, positions, bytes, upto - 1);
        if before.error is None && upto <= positions.len() {
            let entry = positions[upto - 1];
            if (entry.index as int) < record.types.len() {
                let ty = record.types[entry.index as int];
                lemma_decode_conforms(bytes, entry.position as int, ty);
            }
        }
    }
}

/// Patching keeps a record as its schema says: whatever the patch, in either form, and
/// whether it is applied in full or fails on the way, a record that had at most 256 fields,
/// each holding a value of its declared type, still has the same field types and a value of
/// its declared type in each field.
pub proof fn law_patching_keeps_well_formed(
    record: RecordView,
    source: Seq<Datum>,
    positions: Seq<FieldAndPosition>,
    bytes: Seq<u8>,
)
    requires
        record.well_formed(),
    ensures
        apply_stream(record, source).record.well_formed(),
        apply_stream(record, source).record.types == record.types,
        apply_archive(record, positions, bytes).record.well_formed(),
        apply_archive(record, positions, bytes).record.types == record.types,
{
    lemma_stream_keeps_well_formed(record, source, 0);
    lemma_archive_keeps_well_formed(record, positions, bytes, positions.len() as int);
}

} // verus!
